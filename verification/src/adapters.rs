//! The decisions of the workspace adapters: which walked paths are left
//! out, and what graph edge a path dependency of a Rust workspace stands
//! for.
use vstd::prelude::*;

use crate::diagnostic::opt_view;
use crate::domain::{
    DependencySurface, EdgeKind, ProjectKind, ProjectManifest, ProjectRelativePath, RepoRelativePath, WorkspaceSpec,
    join_project_spec, path_below,
};
use crate::ports::DiscoveredEdge;
use crate::text::{chars_of, has_prefix, owned, seq_lt, starts_with, str_eq};

verus! {

// ---------------------------------------------------------------------------
// Excluded paths
// ---------------------------------------------------------------------------

/// Build output, version control and cache paths, which a walk leaves out.
pub open spec fn excluded_path(p: Seq<char>) -> bool {
    has_prefix(p, "target/"@) || p == "target"@ || has_prefix(p, ".git/"@) || p == ".git"@
        || has_prefix(p, ".repoctl/cache/"@)
}

/// Whether a walked path is left out.
pub fn is_excluded_path(path: &RepoRelativePath) -> (r: bool)
    ensures
        r == excluded_path(path@),
{
    let v = chars_of(path.as_str());
    proof {
        reveal_strlit("target/");
        reveal_strlit("target");
        reveal_strlit(".git/");
        reveal_strlit(".git");
        reveal_strlit(".repoctl/cache/");
    }
    starts_with(&v, &chars_of("target/")) || str_eq(path.as_str(), "target") || starts_with(&v, &chars_of(".git/"))
        || str_eq(path.as_str(), ".git") || starts_with(&v, &chars_of(".repoctl/cache/"))
}

// ---------------------------------------------------------------------------
// Areas
// ---------------------------------------------------------------------------

/// The area, joined below the project's path, holds the path.
pub open spec fn in_area(relative: Seq<char>, base: Seq<char>, area: Seq<char>) -> bool {
    match join_project_spec(base, area) {
        Ok(p) => path_below(relative, p),
        Err(_) => false,
    }
}

/// One of the areas holds the path.
pub open spec fn in_any_area(relative: Seq<char>, base: Seq<char>, areas: Seq<ProjectRelativePath>) -> bool {
    exists|j: int| 0 <= j < areas.len() && in_area(relative, base, (#[trigger] areas[j])@)
}

/// One of the areas of a per-language area map holds the path.
pub open spec fn in_area_map(relative: Seq<char>, base: Seq<char>, areas: Seq<(String, Vec<ProjectRelativePath>)>) -> bool {
    exists|i: int| 0 <= i < areas.len() && in_any_area(relative, base, (#[trigger] areas[i]).1@)
}

fn in_any_area_exec(relative: &RepoRelativePath, base: &RepoRelativePath, areas: &Vec<ProjectRelativePath>) -> (r: bool)
    ensures
        r == in_any_area(relative@, base@, areas@),
{
    let mut j: usize = 0;
    while j < areas.len()
        invariant
            j <= areas.len(),
            forall|k: int| 0 <= k < j ==> !in_area(relative@, base@, (#[trigger] areas@[k])@),
        decreases areas.len() - j,
    {
        match base.join_project(&areas[j]) {
            Ok(p) => {
                if relative.starts_with(&p) {
                    assert(in_area(relative@, base@, areas@[j as int]@));
                    return true;
                }
            },
            Err(_) => {},
        }
        j = j + 1;
    }
    false
}

/// Whether a path lies in one of a target project's areas.
pub fn path_matches_areas(
    relative: &RepoRelativePath,
    target: &ProjectManifest,
    areas: &Vec<(String, Vec<ProjectRelativePath>)>,
) -> (r: bool)
    ensures
        r == in_area_map(relative@, target.path@, areas@),
{
    let mut i: usize = 0;
    while i < areas.len()
        invariant
            i <= areas.len(),
            forall|k: int| 0 <= k < i ==> !in_any_area(relative@, target.path@, (#[trigger] areas@[k]).1@),
        decreases areas.len() - i,
    {
        if in_any_area_exec(relative, &target.path, &areas[i].1) {
            assert(in_any_area(relative@, target.path@, areas@[i as int].1@));
            return true;
        }
        i = i + 1;
    }
    false
}

/// The surface of a core-infrastructure project a path lies on: a public
/// module, else an internal module, else unspecified.
pub open spec fn core_infra_surface(relative: Seq<char>, target: ProjectManifest) -> DependencySurface {
    if in_any_area(relative, target.path@, target.areas.public_modules@) {
        DependencySurface::CoreInfraPublicModule
    } else if in_any_area(relative, target.path@, target.areas.internal_modules@) {
        DependencySurface::CoreInfraInternalModule
    } else {
        DependencySurface::Unspecified
    }
}

/// Classifies the core-infrastructure module a path lies in.
pub fn classify_core_infra_module(relative: &RepoRelativePath, target: &ProjectManifest) -> (r: DependencySurface)
    ensures
        r == core_infra_surface(relative@, *target),
{
    if in_any_area_exec(relative, &target.path, &target.areas.public_modules) {
        DependencySurface::CoreInfraPublicModule
    } else if in_any_area_exec(relative, &target.path, &target.areas.internal_modules) {
        DependencySurface::CoreInfraInternalModule
    } else {
        DependencySurface::Unspecified
    }
}

// ---------------------------------------------------------------------------
// Path dependencies
// ---------------------------------------------------------------------------

/// The kind of edge a path dependency into a target project stands for:
/// through a framework's facades or its internals, a foundation's clients
/// or its internals, a core-infrastructure module, or a plain project
/// dependency.
pub open spec fn path_edge_kind(relative: Seq<char>, t: ProjectManifest) -> EdgeKind {
    match t.kind {
        ProjectKind::Framework => if in_area_map(relative, t.path@, t.areas.public_facades@) {
            EdgeKind::UsesFrameworkFacade
        } else {
            EdgeKind::UsesFrameworkInternal
        },
        ProjectKind::FoundationService => if in_area_map(relative, t.path@, t.areas.public_clients@) {
            EdgeKind::UsesFoundationClient
        } else {
            EdgeKind::UsesFoundationInternal
        },
        ProjectKind::CoreInfra | ProjectKind::CoreInfraComponent => match core_infra_surface(relative, t) {
            DependencySurface::CoreInfraPublicModule => EdgeKind::UsesCoreInfraModule,
            DependencySurface::CoreInfraInternalModule => EdgeKind::UsesCoreInfraInternalModule,
            _ => EdgeKind::DependsOnProject,
        },
        _ => EdgeKind::DependsOnProject,
    }
}

/// A project other than the source that holds the path.
pub open spec fn dependency_target(source: Seq<char>, relative: Seq<char>) -> spec_fn(ProjectManifest) -> bool {
    |t: ProjectManifest| t.name@ != source && path_below(relative, t.path@)
}

/// The value of a discovered edge.
pub open spec fn discovered_view(e: DiscoveredEdge) -> (Seq<char>, Seq<char>, Seq<char>, EdgeKind, Option<Seq<char>>) {
    (e.from_project@, e.from_workspace@, e.to_project@, e.kind, opt_view(e.evidence))
}

/// The edge a path dependency of a workspace stands for: into the first
/// other project that holds the path, with the path as evidence; none when
/// no other project holds it.
pub open spec fn path_dependency_edge(
    projects: Seq<ProjectManifest>,
    project: ProjectManifest,
    workspace: WorkspaceSpec,
    relative: Seq<char>,
) -> Option<(Seq<char>, Seq<char>, Seq<char>, EdgeKind, Option<Seq<char>>)> {
    match crate::tasks::first_where(projects, dependency_target(project.name@, relative)) {
        Some(i) => Some((
            project.name@,
            workspace.name@,
            projects[i].name@,
            path_edge_kind(relative, projects[i]),
            Some(relative),
        )),
        None => None,
    }
}

/// Classifies a path dependency of a workspace, given as a repo-relative
/// path, into the graph edge it stands for.
pub fn classify_path_dependency(
    projects: &Vec<ProjectManifest>,
    project: &ProjectManifest,
    workspace: &WorkspaceSpec,
    relative: &RepoRelativePath,
) -> (r: Option<DiscoveredEdge>)
    ensures
        match r {
            Some(e) => path_dependency_edge(projects@, *project, *workspace, relative@) == Some(discovered_view(e)),
            None => path_dependency_edge(projects@, *project, *workspace, relative@) is None,
        },
{
    let ghost f = dependency_target(project.name@, relative@);
    let mut i: usize = 0;
    assert(projects@.subrange(0, 0) =~= Seq::<ProjectManifest>::empty());
    while i < projects.len()
        invariant
            i <= projects.len(),
            f == dependency_target(project.name@, relative@),
            crate::tasks::first_where(projects@.subrange(0, i as int), f) is None,
        decreases projects.len() - i,
    {
        let target = &projects[i];
        proof {
            crate::tasks::lemma_first_where_step(projects@, f, i as int);
        }
        if !target.name.same(&project.name) && relative.starts_with(&target.path) {
            proof {
                crate::tasks::lemma_first_where_prefix(projects@, f, i as int + 1);
            }
            let kind = match target.kind {
                ProjectKind::Framework => if path_matches_areas(relative, target, &target.areas.public_facades) {
                    EdgeKind::UsesFrameworkFacade
                } else {
                    EdgeKind::UsesFrameworkInternal
                },
                ProjectKind::FoundationService => if path_matches_areas(relative, target, &target.areas.public_clients) {
                    EdgeKind::UsesFoundationClient
                } else {
                    EdgeKind::UsesFoundationInternal
                },
                ProjectKind::CoreInfra | ProjectKind::CoreInfraComponent => match classify_core_infra_module(relative, target) {
                    DependencySurface::CoreInfraPublicModule => EdgeKind::UsesCoreInfraModule,
                    DependencySurface::CoreInfraInternalModule => EdgeKind::UsesCoreInfraInternalModule,
                    _ => EdgeKind::DependsOnProject,
                },
                _ => EdgeKind::DependsOnProject,
            };
            return Some(DiscoveredEdge {
                from_project: owned(project.name.as_str()),
                from_workspace: owned(workspace.name.as_str()),
                to_project: owned(target.name.as_str()),
                kind,
                evidence: Some(owned(relative.as_str())),
            });
        }
        i = i + 1;
    }
    proof {
        crate::tasks::lemma_first_where_all(projects@, f);
    }
    None
}

} // verus!

verus! {

// ---------------------------------------------------------------------------
// Ordered, distinct edges
// ---------------------------------------------------------------------------

/// The value of a discovered edge: source project and workspace, target
/// project, kind and evidence.
pub type DiscoveredModel = (Seq<char>, Seq<char>, Seq<char>, EdgeKind, Option<Seq<char>>);

/// Order of discovered edges: by source project, source workspace, target
/// project, kind rank, then evidence (absent first).
pub open spec fn discovered_lt(a: DiscoveredModel, b: DiscoveredModel) -> bool {
    if a.0 != b.0 {
        seq_lt(a.0, b.0)
    } else if a.1 != b.1 {
        seq_lt(a.1, b.1)
    } else if a.2 != b.2 {
        seq_lt(a.2, b.2)
    } else if crate::graph::rank(a.3) != crate::graph::rank(b.3) {
        crate::graph::rank(a.3) < crate::graph::rank(b.3)
    } else {
        crate::graph::opt_lt(a.4, b.4)
    }
}

/// Discovered edges in strictly increasing order, so without repeats.
pub open spec fn discovered_sorted(ms: Seq<DiscoveredModel>) -> bool {
    forall|i: int, j: int| 0 <= i < j < ms.len() ==> discovered_lt(#[trigger] ms[i], #[trigger] ms[j])
}

/// The values of discovered edges.
pub open spec fn discovered_views(v: Seq<DiscoveredEdge>) -> Seq<DiscoveredModel> {
    v.map_values(|e: DiscoveredEdge| discovered_view(e))
}

proof fn lemma_rank_injective(a: EdgeKind, b: EdgeKind)
    ensures
        crate::graph::rank(a) == crate::graph::rank(b) ==> a == b,
{
}

proof fn lemma_seq_order(x: Seq<char>, y: Seq<char>, z: Seq<char>)
    ensures
        !seq_lt(x, x),
        seq_lt(x, y) && seq_lt(y, z) ==> seq_lt(x, z) && x != z,
        x == y || seq_lt(x, y) || seq_lt(y, x),
{
    crate::text::lemma_lt_irreflexive(x);
    crate::text::lemma_lt_trichotomy(x, y);
    if seq_lt(x, y) && seq_lt(y, z) {
        crate::text::lemma_lt_transitive(x, y, z);
        if x == z {
            crate::text::lemma_lt_irreflexive(x);
        }
    }
}

proof fn lemma_opt_order(x: Option<Seq<char>>, y: Option<Seq<char>>, z: Option<Seq<char>>)
    ensures
        !crate::graph::opt_lt(x, x),
        crate::graph::opt_lt(x, y) && crate::graph::opt_lt(y, z) ==> crate::graph::opt_lt(x, z),
        x == y || crate::graph::opt_lt(x, y) || crate::graph::opt_lt(y, x),
{
    match (x, y, z) {
        (Some(a), Some(b), Some(c)) => lemma_seq_order(a, b, c),
        (Some(a), Some(b), None) => lemma_seq_order(a, b, b),
        (Some(a), None, _) => lemma_seq_order(a, a, a),
        (None, Some(b), Some(c)) => lemma_seq_order(b, c, c),
        _ => {},
    }
}

/// The order of discovered edges is strict and total.
pub proof fn lemma_discovered_order(a: DiscoveredModel, b: DiscoveredModel, c: DiscoveredModel)
    ensures
        !discovered_lt(a, a),
        discovered_lt(a, b) && discovered_lt(b, c) ==> discovered_lt(a, c),
        a == b || discovered_lt(a, b) || discovered_lt(b, a),
{
    lemma_seq_order(a.0, b.0, c.0);
    lemma_seq_order(a.1, b.1, c.1);
    lemma_seq_order(a.2, b.2, c.2);
    lemma_opt_order(a.4, b.4, c.4);
    lemma_rank_injective(a.3, b.3);
    lemma_rank_injective(b.3, c.3);
    lemma_rank_injective(a.3, c.3);
}

fn opt_before(a: &Option<String>, b: &Option<String>) -> (r: bool)
    ensures
        r == crate::graph::opt_lt(opt_view(*a), opt_view(*b)),
{
    match (a, b) {
        (None, Some(_)) => true,
        (Some(x), Some(y)) => crate::text::str_lt(x.as_str(), y.as_str()),
        _ => false,
    }
}

fn discovered_before(a: &DiscoveredEdge, b: &DiscoveredEdge) -> (r: bool)
    ensures
        r == discovered_lt(discovered_view(*a), discovered_view(*b)),
{
    if !str_eq(a.from_project.as_str(), b.from_project.as_str()) {
        crate::text::str_lt(a.from_project.as_str(), b.from_project.as_str())
    } else if !str_eq(a.from_workspace.as_str(), b.from_workspace.as_str()) {
        crate::text::str_lt(a.from_workspace.as_str(), b.from_workspace.as_str())
    } else if !str_eq(a.to_project.as_str(), b.to_project.as_str()) {
        crate::text::str_lt(a.to_project.as_str(), b.to_project.as_str())
    } else {
        let ra = crate::graph::edge_rank(a.kind);
        let rb = crate::graph::edge_rank(b.kind);
        if ra != rb {
            ra < rb
        } else {
            opt_before(&a.evidence, &b.evidence)
        }
    }
}

/// Inserts an edge into a strictly ordered list unless it is there already.
fn insert_discovered(out: &mut Vec<DiscoveredEdge>, e: DiscoveredEdge)
    requires
        discovered_sorted(discovered_views(old(out)@)),
    ensures
        discovered_sorted(discovered_views(final(out)@)),
        discovered_views(final(out)@).to_set() == discovered_views(old(out)@).to_set().insert(discovered_view(e)),
{
    let ghost ms = discovered_views(out@);
    let ghost x = discovered_view(e);
    let mut p: usize = 0;
    while p < out.len() && discovered_before(&out[p], &e)
        invariant
            p <= out.len(),
            ms == discovered_views(out@),
            x == discovered_view(e),
            forall|k: int| 0 <= k < p ==> discovered_lt(#[trigger] ms[k], x),
        decreases out.len() - p,
    {
        p = p + 1;
    }
    if p < out.len() && !discovered_before(&e, &out[p]) {
        proof {
            lemma_discovered_order(ms[p as int], x, x);
        }
        assert(ms[p as int] == x);
        assert(ms.to_set() =~= ms.to_set().insert(x)) by {
            assert(ms.contains(x));
        }
        return;
    }
    out.insert(p, e);
    proof {
        let ns = ms.insert(p as int, x);
        assert(discovered_views(out@) =~= ns);
        assert forall|a: int, b: int| 0 <= a < b < ns.len() implies discovered_lt(#[trigger] ns[a], #[trigger] ns[b]) by {
            if b < p {
                assert(ns[a] == ms[a] && ns[b] == ms[b]);
            } else if b == p {
                assert(ns[a] == ms[a] && ns[b] == x);
            } else if a < p {
                assert(ns[a] == ms[a] && ns[b] == ms[b - 1]);
                if b - 1 > p {
                    lemma_discovered_order(x, ms[p as int], ms[b - 1]);
                }
                lemma_discovered_order(ms[a], x, ms[b - 1]);
            } else if a == p {
                assert(ns[a] == x && ns[b] == ms[b - 1]);
                if b - 1 > p {
                    lemma_discovered_order(x, ms[p as int], ms[b - 1]);
                }
            } else {
                assert(ns[a] == ms[a - 1] && ns[b] == ms[b - 1]);
            }
        }
        assert forall|y: DiscoveredModel| ns.contains(y) <==> (ms.contains(y) || y == x) by {
            if ns.contains(y) {
                let k = choose|k: int| 0 <= k < ns.len() && ns[k] == y;
                if k < p {
                    assert(ms[k] == y);
                } else if k > p {
                    assert(ms[k - 1] == y);
                }
            }
            if ms.contains(y) {
                let k = choose|k: int| 0 <= k < ms.len() && ms[k] == y;
                if k < p {
                    assert(ns[k] == y);
                } else {
                    assert(ns[k + 1] == y);
                }
            }
            if y == x {
                assert(ns[p as int] == y);
            }
        }
        assert(ns.to_set() =~= ms.to_set().insert(x));
    }
}

/// The edges the path dependencies of a workspace stand for, in the order
/// of its dependencies; dependencies outside every other project stand for
/// none.
pub open spec fn path_dependency_edges(
    projects: Seq<ProjectManifest>,
    project: ProjectManifest,
    workspace: WorkspaceSpec,
    relatives: Seq<Seq<char>>,
) -> Seq<DiscoveredModel>
    decreases relatives.len(),
{
    if relatives.len() == 0 {
        Seq::empty()
    } else {
        let rest = path_dependency_edges(projects, project, workspace, relatives.drop_last());
        match path_dependency_edge(projects, project, workspace, relatives.last()) {
            Some(m) => rest.push(m),
            None => rest,
        }
    }
}

/// The graph edges of a Rust workspace's path dependencies, given as
/// repo-relative paths: each classified, then ordered without repeats.
pub fn rust_dependency_edges(
    projects: &Vec<ProjectManifest>,
    project: &ProjectManifest,
    workspace: &WorkspaceSpec,
    relatives: &Vec<RepoRelativePath>,
) -> (r: Vec<DiscoveredEdge>)
    ensures
        discovered_sorted(discovered_views(r@)),
        discovered_views(r@).to_set()
            == path_dependency_edges(projects@, *project, *workspace, crate::policy::path_list(relatives@)).to_set(),
{
    let ghost rs = crate::policy::path_list(relatives@);
    let mut out: Vec<DiscoveredEdge> = Vec::new();
    let mut i: usize = 0;
    assert(discovered_views(out@).to_set() =~= Set::<DiscoveredModel>::empty());
    assert(rs.subrange(0, 0) =~= Seq::<Seq<char>>::empty());
    assert(path_dependency_edges(projects@, *project, *workspace, Seq::<Seq<char>>::empty()).to_set()
        =~= Set::<DiscoveredModel>::empty());
    while i < relatives.len()
        invariant
            i <= relatives.len(),
            rs == crate::policy::path_list(relatives@),
            discovered_sorted(discovered_views(out@)),
            discovered_views(out@).to_set()
                == path_dependency_edges(projects@, *project, *workspace, rs.subrange(0, i as int)).to_set(),
        decreases relatives.len() - i,
    {
        let ghost before = path_dependency_edges(projects@, *project, *workspace, rs.subrange(0, i as int));
        assert(rs.subrange(0, i as int + 1).drop_last() =~= rs.subrange(0, i as int));
        assert(rs.subrange(0, i as int + 1).last() == relatives@[i as int]@);
        match classify_path_dependency(projects, project, workspace, &relatives[i]) {
            Some(e) => {
                let ghost m = discovered_view(e);
                insert_discovered(&mut out, e);
                proof {
                    before.lemma_push_to_set_commute(m);
                }
            },
            None => {},
        }
        i = i + 1;
    }
    assert(rs.subrange(0, rs.len() as int) =~= rs);
    out
}

} // verus!

verus! {

// ---------------------------------------------------------------------------
// Walks
// ---------------------------------------------------------------------------

/// The walked paths that are kept, in walk order.
pub open spec fn kept_paths(walked: Seq<Seq<char>>) -> Seq<Seq<char>> {
    walked.filter(|p: Seq<char>| !excluded_path(p))
}

/// The result of a walk: the kept paths sorted without repeats, or the
/// limit error when more paths were kept than allowed.
pub open spec fn walk_outcome(walked: Seq<Seq<char>>, max_files: nat) -> Result<Seq<Seq<char>>, crate::diagnostic::DiagnosticModel> {
    if kept_paths(walked).len() > max_files {
        Err(crate::ports::walk_limit_error(max_files))
    } else {
        Ok(crate::policy::sorted_distinct(kept_paths(walked)))
    }
}

/// Finishes a repository walk: leaves out build output, version control and
/// cache paths, enforces the file limit, then sorts the paths and drops
/// repeats.
pub fn finish_walk(walked: &Vec<RepoRelativePath>, max_files: usize) -> (r: Result<Vec<RepoRelativePath>, crate::diagnostic::RepoctlError>)
    ensures
        match r {
            Ok(v) => walk_outcome(crate::policy::path_list(walked@), max_files as nat)
                == Ok::<Seq<Seq<char>>, crate::diagnostic::DiagnosticModel>(crate::policy::path_list(v@)),
            Err(e) => match walk_outcome(crate::policy::path_list(walked@), max_files as nat) {
                Err(d) => crate::diagnostic::error_diagnostics(e) == seq![d],
                Ok(_) => false,
            },
        },
{
    let ghost all = crate::policy::path_list(walked@);
    let ghost pred = |p: Seq<char>| !excluded_path(p);
    let mut kept: Vec<String> = Vec::new();
    let mut i: usize = 0;
    while i < walked.len()
        invariant
            i <= walked.len(),
            all == crate::policy::path_list(walked@),
            pred == (|p: Seq<char>| !excluded_path(p)),
            crate::text::strs(kept@) == all.subrange(0, i as int).filter(pred),
            kept@.len() <= max_files,
            forall|j: int| 0 <= j < kept@.len() ==> (#[trigger] kept@[j])@.len() <= 512 && !kept@[j]@.contains('\\'),
        decreases walked.len() - i,
    {
        assert(all.subrange(0, i as int + 1) =~= all.subrange(0, i as int).push(all[i as int]));
        proof {
            all.subrange(0, i as int).lemma_filter_push(all[i as int], pred);
        }
        if !is_excluded_path(&walked[i]) {
            let ghost prev = crate::text::strs(kept@);
            let w = &walked[i];
            proof {
                use_type_invariant(w);
            }
            kept.push(owned(w.as_str()));
            assert(crate::text::strs(kept@) =~= prev.push(all[i as int]));
            if kept.len() > max_files {
                proof {
                    lemma_filter_grows(all, pred, i as int + 1);
                }
                let mut msg = owned("repository walk exceeded ");
                let n = crate::text::decimal_exec(max_files);
                crate::text::push_chars(&mut msg, &n);
                crate::text::push_str(&mut msg, " files");
                proof {
                    reveal_strlit("repository walk exceeded ");
                    reveal_strlit(" files");
                }
                let d = crate::diagnostic::Diagnostic::error("repo.walk.too_many_files", msg.as_str());
                return Err(crate::diagnostic::RepoctlError::diagnostic(d));
            }
        }
        i = i + 1;
    }
    assert(all.subrange(0, all.len() as int) =~= all);
    let sorted = crate::policy::sort_dedup(&kept);
    let mut out: Vec<RepoRelativePath> = Vec::new();
    let mut k: usize = 0;
    while k < sorted.len()
        invariant
            k <= sorted.len(),
            crate::policy::path_list(out@) == crate::text::strs(sorted@).subrange(0, k as int),
            crate::text::strs(sorted@).to_set() == crate::text::strs(kept@).to_set(),
            forall|j: int| 0 <= j < kept@.len() ==> (#[trigger] kept@[j])@.len() <= 512 && !kept@[j]@.contains('\\'),
        decreases sorted.len() - k,
    {
        let ghost prev = crate::policy::path_list(out@);
        proof {
            let t = crate::text::strs(sorted@)[k as int];
            assert(crate::text::strs(sorted@).contains(t));
            assert(crate::text::strs(sorted@).to_set().contains(t));
            assert(crate::text::strs(kept@).contains(t));
            let j = choose|j: int| 0 <= j < crate::text::strs(kept@).len() && crate::text::strs(kept@)[j] == t;
            assert(kept@[j]@ == t);
        }
        out.push(RepoRelativePath::from_path_text(owned(sorted[k].as_str())));
        assert(crate::policy::path_list(out@) =~= prev.push(crate::text::strs(sorted@)[k as int]));
        assert(crate::text::strs(sorted@).subrange(0, k as int + 1)
            =~= crate::text::strs(sorted@).subrange(0, k as int).push(crate::text::strs(sorted@)[k as int]));
        k = k + 1;
    }
    assert(crate::text::strs(sorted@).subrange(0, sorted@.len() as int) =~= crate::text::strs(sorted@));
    Ok(out)
}

/// A filter of a prefix is no longer than the filter of the whole.
proof fn lemma_filter_grows(s: Seq<Seq<char>>, pred: spec_fn(Seq<char>) -> bool, k: int)
    requires
        0 <= k <= s.len(),
    ensures
        s.subrange(0, k).filter(pred).len() <= s.filter(pred).len(),
    decreases s.len() - k,
{
    if k < s.len() {
        assert(s.subrange(0, k + 1) =~= s.subrange(0, k).push(s[k]));
        s.subrange(0, k).lemma_filter_push(s[k], pred);
        lemma_filter_grows(s, pred, k + 1);
    } else {
        assert(s.subrange(0, k) =~= s);
    }
}

// ---------------------------------------------------------------------------
// Locating the repository root
// ---------------------------------------------------------------------------

/// A directory on the way up from the starting point, with whether it holds
/// a `repo.yaml` file and whether it holds `.git`.
#[derive(Clone, Debug)]
pub struct RootCandidate {
    /// The directory's absolute path.
    pub path: String,
    /// `repo.yaml` in it is a file.
    pub has_repo_manifest: bool,
    /// `.git` exists in it.
    pub has_git: bool,
}

/// The error when no directory on the way up is a repository root.
pub open spec fn root_not_found_error() -> crate::diagnostic::DiagnosticModel {
    crate::diagnostic::with_help_model(
        crate::diagnostic::error_model("repo.root.not_found"@, "could not find repo.yaml or a Git root"@),
        "pass --repo with the repository root"@,
    )
}

/// The directory chosen as the root, from the nearest up: the first with a
/// `repo.yaml`, else the first with `.git`.
pub open spec fn chosen_root(cs: Seq<RootCandidate>) -> Option<int> {
    match crate::tasks::first_where(cs, |c: RootCandidate| c.has_repo_manifest) {
        Some(i) => Some(i),
        None => crate::tasks::first_where(cs, |c: RootCandidate| c.has_git),
    }
}

/// Picks the repository root among the directories from the starting point
/// up to the filesystem root, nearest first.
pub fn choose_repo_root(candidates: &Vec<RootCandidate>) -> (r: Result<crate::domain::RepoRoot, crate::diagnostic::RepoctlError>)
    ensures
        match chosen_root(candidates@) {
            Some(i) => match r {
                Ok(root) => root.absolute@ == candidates@[i].path@,
                Err(e) => crate::diagnostic::error_diagnostics(e) == seq![
                    crate::diagnostic::error_model("repo.root.relative"@, "repo root must be an absolute path"@),
                ],
            },
            None => r matches Err(e) && crate::diagnostic::error_diagnostics(e) == seq![root_not_found_error()],
        },
{
    let ghost with_manifest = |c: RootCandidate| c.has_repo_manifest;
    let ghost with_git = |c: RootCandidate| c.has_git;
    let mut git_root: Option<usize> = None;
    let mut i: usize = 0;
    assert(candidates@.subrange(0, 0) =~= Seq::<RootCandidate>::empty());
    while i < candidates.len()
        invariant
            i <= candidates.len(),
            with_manifest == (|c: RootCandidate| c.has_repo_manifest),
            with_git == (|c: RootCandidate| c.has_git),
            crate::tasks::first_where(candidates@.subrange(0, i as int), with_manifest) is None,
            match git_root {
                Some(g) => crate::tasks::first_where(candidates@.subrange(0, i as int), with_git) == Some(g as int),
                None => crate::tasks::first_where(candidates@.subrange(0, i as int), with_git) is None,
            },
        decreases candidates.len() - i,
    {
        proof {
            crate::tasks::lemma_first_where_step(candidates@, with_manifest, i as int);
        }
        if candidates[i].has_repo_manifest {
            proof {
                crate::tasks::lemma_first_where_prefix(candidates@, with_manifest, i as int + 1);
            }
            return match crate::domain::RepoRoot::new(candidates[i].path.as_str()) {
                Ok(root) => Ok(root),
                Err(d) => Err(crate::diagnostic::RepoctlError::diagnostic(d)),
            };
        }
        match git_root {
            Some(g) => {
                proof {
                    assert(candidates@.subrange(0, i as int + 1).subrange(0, i as int) =~= candidates@.subrange(0, i as int));
                    crate::tasks::lemma_first_where_prefix(candidates@.subrange(0, i as int + 1), with_git, i as int);
                }
            },
            None => {
                proof {
                    crate::tasks::lemma_first_where_step(candidates@, with_git, i as int);
                }
                if candidates[i].has_git {
                    git_root = Some(i);
                }
            },
        }
        i = i + 1;
    }
    proof {
        crate::tasks::lemma_first_where_all(candidates@, with_manifest);
        crate::tasks::lemma_first_where_all(candidates@, with_git);
        crate::tasks::lemma_first_where(candidates@, with_git);
    }
    match git_root {
        Some(g) => match crate::domain::RepoRoot::new(candidates[g].path.as_str()) {
            Ok(root) => Ok(root),
            Err(d) => Err(crate::diagnostic::RepoctlError::diagnostic(d)),
        },
        None => {
            let d = crate::diagnostic::Diagnostic::error("repo.root.not_found", "could not find repo.yaml or a Git root")
                .with_help("pass --repo with the repository root");
            Err(crate::diagnostic::RepoctlError::diagnostic(d))
        },
    }
}

} // verus!
