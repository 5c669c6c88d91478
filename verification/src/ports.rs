//! Infrastructure and capability-service ports, with the in-memory and
//! fixed implementations used in tests.
use vstd::prelude::*;

use crate::diagnostic::{Diagnostic, DiagnosticModel, RepoctlError, error_model, with_path_model};
use crate::domain::{
    EdgeKind, EdgeModel, GraphEdge, ProjectManifest, RepoGraph, RepoManifest, RepoRelativePath,
    RepoRoot, RepoSnapshot, TemplateFile, TemplateManifest, WorkspaceLanguage, WorkspaceSpec,
    path_below, project_node_id,
};
use crate::diagnostic::opt_view;
use crate::requests::{ProcessCommand, ProcessOutput};
use vstd::string::StrSliceExecFns;
use crate::text::{concat2, decimal, decimal_exec, lemma_lt_irreflexive, lemma_lt_transitive, lemma_lt_trichotomy, owned, push_chars, push_str, seq_lt, str_eq, str_lt};

verus! {

// ---------------------------------------------------------------------------
// Sorted key/value listings
// ---------------------------------------------------------------------------

/// Keys in strictly increasing order.
pub open spec fn strictly_sorted(ks: Seq<Seq<char>>) -> bool {
    forall|i: int, j: int| 0 <= i < j < ks.len() ==> seq_lt(#[trigger] ks[i], #[trigger] ks[j])
}

/// The map from each key to the value at its index.
pub open spec fn zip_map(ks: Seq<Seq<char>>, vs: Seq<Seq<u8>>) -> Map<Seq<char>, Seq<u8>> {
    Map::new(|k: Seq<char>| ks.contains(k), |k: Seq<char>| vs[ks.index_of(k)])
}

/// In a strictly sorted listing a key occurs at one index only.
pub proof fn lemma_sorted_index(ks: Seq<Seq<char>>, i: int)
    requires
        strictly_sorted(ks),
        0 <= i < ks.len(),
    ensures
        ks.contains(ks[i]),
        ks.index_of(ks[i]) == i,
{
    let k = ks[i];
    assert(ks[i] == k);
    assert(ks.contains(k));
    let j = ks.index_of(k);
    assert(0 <= j < ks.len() && ks[j] == k);
    if j < i {
        assert(seq_lt(ks[j], ks[i]));
        lemma_lt_irreflexive(k);
    } else if i < j {
        assert(seq_lt(ks[i], ks[j]));
        lemma_lt_irreflexive(k);
    }
}

/// Inserting a key at the position that keeps the listing sorted.
pub proof fn lemma_sorted_insert(ks: Seq<Seq<char>>, vs: Seq<Seq<u8>>, i: int, k: Seq<char>, v: Seq<u8>)
    requires
        strictly_sorted(ks),
        ks.len() == vs.len(),
        0 <= i <= ks.len(),
        forall|j: int| 0 <= j < i ==> seq_lt(#[trigger] ks[j], k),
        i < ks.len() ==> seq_lt(k, ks[i]),
    ensures
        !ks.contains(k),
        strictly_sorted(ks.insert(i, k)),
        zip_map(ks.insert(i, k), vs.insert(i, v)) == zip_map(ks, vs).insert(k, v),
{
    let nks = ks.insert(i, k);
    let nvs = vs.insert(i, v);
    assert forall|j: int| 0 <= j < ks.len() implies #[trigger] ks[j] != k by {
        if j < i {
            if ks[j] == k {
                lemma_lt_irreflexive(k);
            }
        } else {
            if j > i {
                lemma_lt_transitive(k, ks[i], ks[j]);
            }
            if ks[j] == k {
                lemma_lt_irreflexive(k);
            }
        }
    }
    assert forall|a: int, b: int| 0 <= a < b < nks.len() implies seq_lt(#[trigger] nks[a], #[trigger] nks[b]) by {
        if b < i {
            assert(nks[a] == ks[a] && nks[b] == ks[b]);
        } else if b == i {
            assert(nks[a] == ks[a] && nks[b] == k);
        } else if a < i {
            assert(nks[a] == ks[a] && nks[b] == ks[b - 1]);
            assert(seq_lt(ks[a], k));
            if b - 1 > i {
                lemma_lt_transitive(k, ks[i], ks[b - 1]);
            }
            lemma_lt_transitive(ks[a], k, ks[b - 1]);
        } else if a == i {
            assert(nks[a] == k && nks[b] == ks[b - 1]);
            if b - 1 > i {
                lemma_lt_transitive(k, ks[i], ks[b - 1]);
            }
        } else {
            assert(nks[a] == ks[a - 1] && nks[b] == ks[b - 1]);
        }
    }
    let m = zip_map(ks, vs);
    let n = zip_map(nks, nvs);
    assert forall|q: Seq<char>| #[trigger] n.contains_key(q) <==> m.insert(k, v).contains_key(q) by {
        if nks.contains(q) {
            let j = choose|j: int| 0 <= j < nks.len() && nks[j] == q;
            if j < i {
                assert(ks[j] == q);
            } else if j > i {
                assert(ks[j - 1] == q);
            }
        }
        if ks.contains(q) {
            let j = choose|j: int| 0 <= j < ks.len() && ks[j] == q;
            if j < i {
                assert(nks[j] == q);
            } else {
                assert(nks[j + 1] == q);
            }
        }
        if q == k {
            assert(nks[i] == k);
        }
    }
    assert forall|q: Seq<char>| #[trigger] n.contains_key(q) implies n[q] == m.insert(k, v)[q] by {
        if q == k {
            assert(nks[i] == k);
            lemma_sorted_index(nks, i);
        } else {
            let j = choose|j: int| 0 <= j < nks.len() && nks[j] == q;
            assert(j != i);
            lemma_sorted_index(nks, j);
            if j < i {
                assert(ks[j] == q);
                lemma_sorted_index(ks, j);
            } else {
                assert(ks[j - 1] == q);
                lemma_sorted_index(ks, j - 1);
            }
        }
    }
    assert(n =~= m.insert(k, v));
}

/// Replacing the value of a key that is already listed.
pub proof fn lemma_sorted_replace(ks: Seq<Seq<char>>, vs: Seq<Seq<u8>>, i: int, v: Seq<u8>)
    requires
        strictly_sorted(ks),
        ks.len() == vs.len(),
        0 <= i < ks.len(),
    ensures
        zip_map(ks, vs).contains_key(ks[i]),
        zip_map(ks, vs)[ks[i]] == vs[i],
        zip_map(ks, vs.update(i, v)) == zip_map(ks, vs).insert(ks[i], v),
{
    lemma_sorted_index(ks, i);
    let m = zip_map(ks, vs);
    let n = zip_map(ks, vs.update(i, v));
    assert forall|q: Seq<char>| #[trigger] n.contains_key(q) implies n[q] == m.insert(ks[i], v)[q] by {
        let j = choose|j: int| 0 <= j < ks.len() && ks[j] == q;
        lemma_sorted_index(ks, j);
    }
    assert(n =~= m.insert(ks[i], v));
}

/// A key found at an index has the value at that index; a key found
/// nowhere is absent.
pub proof fn lemma_sorted_lookup(ks: Seq<Seq<char>>, vs: Seq<Seq<u8>>, i: int)
    requires
        strictly_sorted(ks),
        ks.len() == vs.len(),
        0 <= i < ks.len(),
    ensures
        zip_map(ks, vs).contains_key(ks[i]),
        zip_map(ks, vs)[ks[i]] == vs[i],
{
    lemma_sorted_index(ks, i);
}

// ---------------------------------------------------------------------------
// Filesystem
// ---------------------------------------------------------------------------

/// Filesystem operations used by repoctl services.
pub trait RepoFileSystem {
    /// Reads a repo-relative file.
    fn read_file(&self, root: &RepoRoot, path: &RepoRelativePath) -> Result<Vec<u8>, RepoctlError>;

    /// Walks repo-relative files according to the request.
    fn walk(&self, root: &RepoRoot, request: &WalkRequest) -> Result<Vec<RepoRelativePath>, RepoctlError>;
}

/// Request for a bounded repository walk.
#[derive(Debug)]
pub struct WalkRequest {
    /// Root prefixes to walk.
    pub roots: Vec<RepoRelativePath>,
    /// Maximum files to return.
    pub max_files: usize,
}

/// Views of a list of repo-relative paths.
pub open spec fn path_views(v: Seq<RepoRelativePath>) -> Seq<Seq<char>> {
    v.map_values(|p: RepoRelativePath| p@)
}

impl Default for WalkRequest {
    /// The whole repository, up to twenty thousand files.
    fn default() -> (r: Self)
        ensures
            path_views(r.roots@) == seq![seq!['.']],
            r.max_files == 20000,
    {
        let mut roots: Vec<RepoRelativePath> = Vec::new();
        roots.push(RepoRelativePath::root());
        assert(path_views(roots@) =~= seq![seq!['.']]);
        WalkRequest { roots, max_files: 20000 }
    }
}

/// The path lies under one of the roots.
pub open spec fn under_any(p: Seq<char>, roots: Seq<Seq<char>>) -> bool {
    exists|i: int| 0 <= i < roots.len() && path_below(p, #[trigger] roots[i])
}

/// Error for a walk that selects more files than allowed.
pub open spec fn walk_limit_error(max: nat) -> DiagnosticModel {
    error_model("repo.walk.too_many_files"@, "repository walk exceeded "@ + decimal(max) + " files"@)
}

/// Error for a file that is not present.
pub open spec fn not_found_error(path: Seq<char>) -> DiagnosticModel {
    with_path_model(error_model("repo.fs.not_found"@, "file `"@ + path + "` was not found"@), path)
}

fn copy_bytes(v: &Vec<u8>) -> (r: Vec<u8>)
    ensures
        r@ == v@,
{
    let mut r: Vec<u8> = Vec::new();
    let mut i: usize = 0;
    while i < v.len()
        invariant
            i <= v.len(),
            r@ == v@.subrange(0, i as int),
        decreases v.len() - i,
    {
        r.push(v[i]);
        i = i + 1;
        assert(r@ =~= v@.subrange(0, i as int));
    }
    assert(v@.subrange(0, v@.len() as int) =~= v@);
    r
}

fn is_under_any(path: &RepoRelativePath, roots: &Vec<RepoRelativePath>) -> (r: bool)
    ensures
        r == under_any(path@, path_views(roots@)),
{
    let ghost rs = path_views(roots@);
    let mut i: usize = 0;
    while i < roots.len()
        invariant
            i <= roots.len(),
            rs == path_views(roots@),
            forall|k: int| 0 <= k < i ==> !path_below(path@, #[trigger] rs[k]),
        decreases roots.len() - i,
    {
        if path.starts_with(&roots[i]) {
            assert(path_below(path@, rs[i as int]));
            return true;
        }
        i = i + 1;
    }
    false
}

/// In-memory repo filesystem useful for service tests: files kept sorted by
/// path, so that walks list them in path order.
#[derive(Debug)]
pub struct InMemoryRepoFileSystem {
    files: Vec<(RepoRelativePath, Vec<u8>)>,
}

impl InMemoryRepoFileSystem {
    /// Paths held, in increasing order.
    pub closed spec fn paths(&self) -> Seq<Seq<char>> {
        self.files@.map_values(|e: (RepoRelativePath, Vec<u8>)| e.0@)
    }

    /// Contents held, in the order of `paths`.
    pub closed spec fn blobs(&self) -> Seq<Seq<u8>> {
        self.files@.map_values(|e: (RepoRelativePath, Vec<u8>)| e.1@)
    }

    /// Paths are strictly increasing, one content per path.
    pub open spec fn wf(&self) -> bool {
        strictly_sorted(self.paths()) && self.paths().len() == self.blobs().len()
    }
}

impl View for InMemoryRepoFileSystem {
    type V = Map<Seq<char>, Seq<u8>>;

    open spec fn view(&self) -> Map<Seq<char>, Seq<u8>> {
        zip_map(self.paths(), self.blobs())
    }
}

/// The listed paths are exactly the files held, in increasing order.
pub proof fn lemma_paths_are_files(fs: &InMemoryRepoFileSystem)
    requires
        fs.wf(),
    ensures
        strictly_sorted(fs.paths()),
        forall|k: Seq<char>| fs@.contains_key(k) <==> fs.paths().contains(k),
{
}

impl InMemoryRepoFileSystem {
    /// Creates an empty in-memory filesystem.
    pub fn new() -> (r: Self)
        ensures
            r.wf(),
            r@ == Map::<Seq<char>, Seq<u8>>::empty(),
    {
        let r = InMemoryRepoFileSystem { files: Vec::new() };
        assert(r.paths() =~= Seq::<Seq<char>>::empty());
        assert(r@ =~= Map::<Seq<char>, Seq<u8>>::empty());
        r
    }

    /// Inserts a repo-relative file, returning the contents it replaces.
    pub fn insert(&mut self, path: RepoRelativePath, bytes: Vec<u8>) -> (r: Option<Vec<u8>>)
        requires
            old(self).wf(),
        ensures
            final(self).wf(),
            final(self)@ == old(self)@.insert(path@, bytes@),
            match r {
                Some(b) => old(self)@.contains_key(path@) && b@ == old(self)@[path@],
                None => !old(self)@.contains_key(path@),
            },
    {
        let ghost k = path@;
        let ghost v = bytes@;
        let ghost ks = self.paths();
        let ghost vs = self.blobs();
        let mut i: usize = 0;
        while i < self.files.len() && str_lt(self.files[i].0.as_str(), path.as_str())
            invariant
                i <= self.files.len(),
                ks == self.paths(),
                vs == self.blobs(),
                k == path@,
                forall|j: int| 0 <= j < i ==> seq_lt(#[trigger] ks[j], k),
            decreases self.files.len() - i,
        {
            i = i + 1;
        }
        if i < self.files.len() && str_eq(self.files[i].0.as_str(), path.as_str()) {
            proof {
                lemma_sorted_replace(ks, vs, i as int, v);
            }
            let old_entry = self.files.remove(i);
            self.files.insert(i, (path, bytes));
            assert(self.paths() =~= ks);
            assert(self.blobs() =~= vs.update(i as int, v));
            Some(old_entry.1)
        } else {
            proof {
                if i < ks.len() {
                    lemma_lt_trichotomy(ks[i as int], k);
                }
                lemma_sorted_insert(ks, vs, i as int, k, v);
            }
            self.files.insert(i, (path, bytes));
            assert(self.paths() =~= ks.insert(i as int, k));
            assert(self.blobs() =~= vs.insert(i as int, v));
            None
        }
    }

    fn lookup(&self, path: &RepoRelativePath) -> (r: Option<usize>)
        ensures
            match r {
                Some(i) => i < self.files@.len() && self.paths()[i as int] == path@,
                None => !self.paths().contains(path@),
            },
    {
        let ghost ks = self.paths();
        let mut i: usize = 0;
        while i < self.files.len()
            invariant
                i <= self.files.len(),
                ks == self.paths(),
                forall|j: int| 0 <= j < i ==> #[trigger] ks[j] != path@,
            decreases self.files.len() - i,
        {
            if str_eq(self.files[i].0.as_str(), path.as_str()) {
                return Some(i);
            }
            i = i + 1;
        }
        None
    }
}

impl RepoFileSystem for InMemoryRepoFileSystem {
    fn read_file(&self, root: &RepoRoot, path: &RepoRelativePath) -> (r: Result<Vec<u8>, RepoctlError>)
        ensures
            self.wf() ==> match r {
                Ok(b) => self@.contains_key(path@) && b@ == self@[path@],
                Err(e) => !self@.contains_key(path@)
                    && crate::diagnostic::error_diagnostics(e) == seq![not_found_error(path@)],
            },
    {
        match self.lookup(path) {
            Some(i) => {
                proof {
                    if self.wf() {
                        lemma_sorted_lookup(self.paths(), self.blobs(), i as int);
                    }
                }
                Ok(copy_bytes(&self.files[i].1))
            },
            None => {
                let mut msg = concat2("file `", path.as_str());
                push_str(&mut msg, "` was not found");
                let d = Diagnostic::error("repo.fs.not_found", msg.as_str()).with_path(path.as_str());
                Err(RepoctlError::diagnostic(d))
            },
        }
    }

    fn walk(&self, root: &RepoRoot, request: &WalkRequest) -> (r: Result<Vec<RepoRelativePath>, RepoctlError>)
        ensures
            self.wf() ==> match r {
                Ok(v) => path_views(v@) == self.paths().filter(|p: Seq<char>| under_any(p, path_views(request.roots@)))
                    && path_views(v@).len() <= request.max_files,
                Err(e) => self.paths().filter(|p: Seq<char>| under_any(p, path_views(request.roots@))).len() > request.max_files
                    && crate::diagnostic::error_diagnostics(e) == seq![walk_limit_error(request.max_files as nat)],
            },
    {
        let ghost ks = self.paths();
        let ghost rs = path_views(request.roots@);
        let ghost pred = |p: Seq<char>| under_any(p, rs);
        let mut out: Vec<RepoRelativePath> = Vec::new();
        let mut i: usize = 0;
        while i < self.files.len()
            invariant
                i <= self.files.len(),
                ks == self.paths(),
                rs == path_views(request.roots@),
                pred == (|p: Seq<char>| under_any(p, rs)),
                path_views(out@) == ks.subrange(0, i as int).filter(pred),
            decreases self.files.len() - i,
        {
            proof {
                assert(ks.subrange(0, i as int + 1) =~= ks.subrange(0, i as int).push(ks[i as int]));
                ks.subrange(0, i as int).lemma_filter_push(ks[i as int], pred);
            }
            if is_under_any(&self.files[i].0, &request.roots) {
                out.push(self.files[i].0.duplicate());
                assert(path_views(out@) =~= ks.subrange(0, i as int).filter(pred).push(ks[i as int]));
            }
            i = i + 1;
        }
        assert(ks.subrange(0, ks.len() as int) =~= ks);
        if out.len() > request.max_files {
            let mut msg = owned("repository walk exceeded ");
            push_chars(&mut msg, &decimal_exec(request.max_files));
            push_str(&mut msg, " files");
            return Err(RepoctlError::diagnostic(Diagnostic::error("repo.walk.too_many_files", msg.as_str())));
        }
        Ok(out)
    }
}

// ---------------------------------------------------------------------------
// Graph building
// ---------------------------------------------------------------------------

/// Input required to build a repository graph.
#[derive(Debug)]
pub struct GraphBuildInput {
    /// Repository root.
    pub root: RepoRoot,
    /// Repo-level manifest.
    pub repo_manifest: RepoManifest,
    /// Project manifests.
    pub projects: Vec<ProjectManifest>,
}

/// Builds a repository graph from validated manifests and adapter-discovered
/// edges.
pub trait GraphBuilder {
    /// Builds the graph.
    fn build(&self, input: GraphBuildInput) -> Result<RepoGraph, RepoctlError>;
}

/// Static graph builder useful for tests.
#[derive(Debug, Default)]
pub struct StaticGraphBuilder {
    /// Graph returned for every build request.
    pub graph: RepoGraph,
}

impl GraphBuilder for StaticGraphBuilder {
    fn build(&self, input: GraphBuildInput) -> (r: Result<RepoGraph, RepoctlError>)
        ensures
            match r {
                Ok(g) => crate::domain::node_views(g.nodes@) == crate::domain::node_views(self.graph.nodes@)
                    && crate::domain::edge_views(g.edges@) == crate::domain::edge_views(self.graph.edges@),
                Err(_) => false,
            },
    {
        Ok(self.graph.duplicate())
    }
}

// ---------------------------------------------------------------------------
// Workspace inspection
// ---------------------------------------------------------------------------

/// Input passed to workspace inspectors.
#[derive(Debug)]
pub struct WorkspaceInspectionInput<'a> {
    /// Repository root.
    pub root: &'a RepoRoot,
    /// All discovered projects.
    pub projects: &'a [ProjectManifest],
    /// Project owning the workspace.
    pub project: &'a ProjectManifest,
    /// Workspace to inspect.
    pub workspace: &'a WorkspaceSpec,
}

/// Edge discovered by a language or toolchain adapter.
#[derive(Clone, Debug, PartialEq, Eq)]
pub struct DiscoveredEdge {
    /// Source project.
    pub from_project: String,
    /// Source workspace.
    pub from_workspace: String,
    /// Target project.
    pub to_project: String,
    /// Edge kind.
    pub kind: EdgeKind,
    /// Evidence path or package name.
    pub evidence: Option<String>,
}

/// Inspects one workspace type for adapter-discovered dependencies.
pub trait WorkspaceInspector {
    /// The language the inspector handles.
    spec fn inspected_language(&self) -> WorkspaceLanguage;

    /// Language handled by the inspector.
    fn language(&self) -> (l: WorkspaceLanguage)
        ensures
            l == self.inspected_language();

    /// Discovers graph edges from the workspace.
    fn inspect(&self, input: &WorkspaceInspectionInput) -> (r: Result<Vec<DiscoveredEdge>, RepoctlError>)
        ensures
            match r {
                Ok(found) => self.accepts(*input.root, input.projects@, *input.project, *input.workspace, found@),
                Err(e) => self.fails_with(*input.root, input.projects@, *input.project, *input.workspace, e),
            };

    /// The outcomes the inspector may give for a workspace: the edges it
    /// may report (they may depend on what is on disk).
    spec fn accepts(
        &self,
        root: RepoRoot,
        projects: Seq<ProjectManifest>,
        project: ProjectManifest,
        workspace: WorkspaceSpec,
        found: Seq<DiscoveredEdge>,
    ) -> bool;

    /// The errors the inspector may fail with for a workspace.
    spec fn fails_with(
        &self,
        root: RepoRoot,
        projects: Seq<ProjectManifest>,
        project: ProjectManifest,
        workspace: WorkspaceSpec,
        error: RepoctlError,
    ) -> bool;
}

/// The inspector calls a build makes, in order: for each project, each of
/// its workspaces, each inspector whose language is the workspace's, as
/// (project, workspace, inspector) indices.
pub open spec fn inspection_calls(languages: Seq<WorkspaceLanguage>, ps: Seq<ProjectManifest>) -> Seq<(int, int, int)> {
    project_calls(languages, ps, ps.len() as int)
}

/// The calls for the first `n` projects.
pub open spec fn project_calls(languages: Seq<WorkspaceLanguage>, ps: Seq<ProjectManifest>, n: int) -> Seq<(int, int, int)>
    decreases n,
{
    if n <= 0 {
        Seq::empty()
    } else {
        project_calls(languages, ps, n - 1) + workspace_calls(languages, ps, n - 1, ps[n - 1].workspaces@.len() as int)
    }
}

/// The calls for the first `m` workspaces of project `i`.
pub open spec fn workspace_calls(languages: Seq<WorkspaceLanguage>, ps: Seq<ProjectManifest>, i: int, m: int) -> Seq<(int, int, int)>
    decreases m,
{
    if m <= 0 {
        Seq::empty()
    } else {
        workspace_calls(languages, ps, i, m - 1) + inspector_calls(languages, ps, i, m - 1, languages.len() as int)
    }
}

/// The calls for workspace `j` of project `i` among the first `q` inspectors.
pub open spec fn inspector_calls(languages: Seq<WorkspaceLanguage>, ps: Seq<ProjectManifest>, i: int, j: int, q: int) -> Seq<(int, int, int)>
    decreases q,
{
    if q <= 0 {
        Seq::empty()
    } else if languages[q - 1] == ps[i].workspaces@[j].language {
        inspector_calls(languages, ps, i, j, q - 1).push((i, j, q - 1))
    } else {
        inspector_calls(languages, ps, i, j, q - 1)
    }
}

/// The lists joined in order.
pub open spec fn joined_edges(outs: Seq<Seq<DiscoveredEdge>>) -> Seq<DiscoveredEdge>
    decreases outs.len(),
{
    if outs.len() == 0 {
        Seq::empty()
    } else {
        joined_edges(outs.drop_last()) + outs.last()
    }
}

/// The graph edge a discovered edge stands for: between the two projects'
/// nodes, with the same kind and evidence.
pub open spec fn discovered_edge_model(edge: DiscoveredEdge) -> EdgeModel {
    EdgeModel {
        from: project_node_id(edge.from_project@),
        to: project_node_id(edge.to_project@),
        kind: edge.kind,
        evidence: opt_view(edge.evidence),
    }
}

/// Converts a discovered edge into a graph edge.
pub fn discovered_to_graph_edge(edge: &DiscoveredEdge) -> (r: GraphEdge)
    ensures
        r@ == discovered_edge_model(*edge),
{
    GraphEdge {
        from: concat2("project:", edge.from_project.as_str()),
        to: concat2("project:", edge.to_project.as_str()),
        kind: edge.kind,
        evidence: crate::diagnostic::copy_opt(&edge.evidence),
    }
}

// ---------------------------------------------------------------------------
// Policies
// ---------------------------------------------------------------------------

/// Context passed to policy rules.
#[derive(Debug)]
pub struct PolicyContext<'a> {
    /// Repository snapshot.
    pub snapshot: &'a RepoSnapshot,
    /// Changed files used by path-based rules.
    pub changed_files: &'a [RepoRelativePath],
}

/// Boundary or hygiene policy rule.
pub trait PolicyRule {
    /// Stable rule name.
    fn name(&self) -> &'static str;

    /// Evaluates the rule.
    fn evaluate(&self, context: &PolicyContext) -> Result<Vec<Diagnostic>, RepoctlError>;
}

// ---------------------------------------------------------------------------
// Processes and templates
// ---------------------------------------------------------------------------

/// Runs a process in argv form.
pub trait ProcessRunner {
    /// Runs a command and captures output.
    fn run(&self, command: &ProcessCommand) -> Result<ProcessOutput, RepoctlError>;
}

/// In-memory process runner useful for tests.
#[derive(Debug, Default)]
pub struct FakeProcessRunner {
    /// Output returned for every command.
    pub output: ProcessOutput,
}

impl ProcessRunner for FakeProcessRunner {
    fn run(&self, command: &ProcessCommand) -> (r: Result<ProcessOutput, RepoctlError>)
        ensures
            match r {
                Ok(o) => o.status == self.output.status && o.stdout@ == self.output.stdout@
                    && o.stderr@ == self.output.stderr@,
                Err(_) => false,
            },
    {
        Ok(ProcessOutput {
            status: self.output.status,
            stdout: self.output.stdout.clone(),
            stderr: self.output.stderr.clone(),
        })
    }
}

/// Template render request.
#[derive(Debug)]
pub struct RenderRequest {
    /// Template manifest.
    pub template: TemplateManifest,
    /// Template file mapping.
    pub file: TemplateFile,
    /// JSON render context.
    pub context: serde_json::Value,
}

/// Rendered template content.
#[derive(Clone, Debug, PartialEq, Eq)]
pub struct RenderedTemplate {
    /// Rendered bytes.
    pub bytes: Vec<u8>,
}

/// Template engine boundary.
pub trait TemplateEngine {
    /// Renders one template file.
    fn render(&self, request: &RenderRequest) -> Result<RenderedTemplate, RepoctlError>;
}

/// Deterministic fake template engine useful for tests: it renders the
/// target expression itself.
#[derive(Clone, Copy, Debug, Default)]
pub struct FakeTemplateEngine;

impl TemplateEngine for FakeTemplateEngine {
    fn render(&self, request: &RenderRequest) -> (r: Result<RenderedTemplate, RepoctlError>)
        ensures
            match r {
                Ok(t) => t.bytes@ == vstd::utf8::encode_utf8(request.file.target@),
                Err(_) => false,
            },
    {
        Ok(RenderedTemplate { bytes: request.file.target.as_str().as_bytes_vec() })
    }
}

} // verus!
