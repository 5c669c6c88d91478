//! The decisions of the runner's facade operations once the repository has
//! been discovered and the changed files are known: CI matrices, proto owner
//! and consumer lookups, `IaC` plan targets, generated-code checks and the
//! report of a task run.
use vstd::prelude::*;

use crate::affected::{name_views, task_views};
use crate::diagnostic::{Diagnostic, DiagnosticModel, RepoctlError, error_diagnostics, error_model, models};
use crate::domain::{
    ProjectManifest, ProjectName, RepoRelativePath, RepoSnapshot, TaskName, join_project_spec, path_below,
};
use crate::requests::{CiFallback, CiMatrixRequest, ProcessCommand, TaskRunRequest};
use crate::text::{owned, str_eq, strs};

verus! {

// ---------------------------------------------------------------------------
// CI matrix
// ---------------------------------------------------------------------------

/// Which commands a CI matrix is made from.
#[derive(Clone, Copy, Debug, PartialEq, Eq, Structural)]
pub enum CiMatrixScope {
    /// The commands of the tasks affected by the changed files.
    Affected,
    /// The commands of every requested task.
    All,
    /// No command at all.
    Nothing,
}

/// The error of a CI matrix request that has no changed-file signal and asks
/// to fail in that case.
pub open spec fn no_changed_files_error() -> DiagnosticModel {
    error_model(
        "ci.matrix.no_changed_files"@,
        "ci matrix cannot determine affected files without base/head or changed files"@,
    )
}

/// The scope of a CI matrix: affected commands when changed files or a ref
/// are given, else what the fallback says.
pub open spec fn ci_scope(req: CiMatrixRequest) -> Result<CiMatrixScope, DiagnosticModel> {
    if req.changed_files@.len() == 0 && req.base is None && req.head is None {
        match req.fallback {
            CiFallback::All => Ok(CiMatrixScope::All),
            CiFallback::Nothing => Ok(CiMatrixScope::Nothing),
            CiFallback::Error => Err(no_changed_files_error()),
        }
    } else {
        Ok(CiMatrixScope::Affected)
    }
}

/// Decides where the entries of a CI matrix come from.
pub fn ci_matrix_scope(request: &CiMatrixRequest) -> (r: Result<CiMatrixScope, RepoctlError>)
    ensures
        match r {
            Ok(s) => ci_scope(*request) == Ok::<CiMatrixScope, DiagnosticModel>(s),
            Err(e) => ci_scope(*request) is Err && error_diagnostics(e) == seq![no_changed_files_error()],
        },
{
    if request.changed_files.len() == 0 && request.base.is_none() && request.head.is_none() {
        match request.fallback {
            CiFallback::All => Ok(CiMatrixScope::All),
            CiFallback::Nothing => Ok(CiMatrixScope::Nothing),
            CiFallback::Error => {
                let d = Diagnostic::error(
                    "ci.matrix.no_changed_files",
                    "ci matrix cannot determine affected files without base/head or changed files",
                );
                Err(RepoctlError::diagnostic(d))
            },
        }
    } else {
        Ok(CiMatrixScope::Affected)
    }
}

fn copy_tasks(v: &Vec<TaskName>) -> (r: Vec<TaskName>)
    ensures
        task_views(r@) == task_views(v@),
{
    let mut r: Vec<TaskName> = Vec::new();
    let mut i: usize = 0;
    while i < v.len()
        invariant
            i <= v.len(),
            task_views(r@) == task_views(v@).subrange(0, i as int),
        decreases v.len() - i,
    {
        let ghost prev = task_views(r@);
        r.push(v[i].duplicate());
        assert(task_views(r@) =~= prev.push(task_views(v@)[i as int]));
        assert(task_views(v@).subrange(0, i as int + 1) =~= task_views(v@).subrange(0, i as int).push(task_views(v@)[i as int]));
        i = i + 1;
    }
    assert(task_views(v@).subrange(0, v@.len() as int) =~= task_views(v@));
    r
}

fn copy_paths(v: &Vec<RepoRelativePath>) -> (r: Vec<RepoRelativePath>)
    ensures
        crate::ports::path_views(r@) == crate::ports::path_views(v@),
{
    let mut r: Vec<RepoRelativePath> = Vec::new();
    let mut i: usize = 0;
    while i < v.len()
        invariant
            i <= v.len(),
            crate::ports::path_views(r@) == crate::ports::path_views(v@).subrange(0, i as int),
        decreases v.len() - i,
    {
        let ghost prev = crate::ports::path_views(r@);
        r.push(v[i].duplicate());
        assert(crate::ports::path_views(r@) =~= prev.push(crate::ports::path_views(v@)[i as int]));
        assert(crate::ports::path_views(v@).subrange(0, i as int + 1)
            =~= crate::ports::path_views(v@).subrange(0, i as int).push(crate::ports::path_views(v@)[i as int]));
        i = i + 1;
    }
    assert(crate::ports::path_views(v@).subrange(0, v@.len() as int) =~= crate::ports::path_views(v@));
    r
}

/// The dry-run task request a CI matrix is planned with: the requested
/// tasks over every project; for affected entries with the request's
/// changed files and refs, otherwise with none.
pub fn ci_matrix_task_request(request: &CiMatrixRequest, affected: bool) -> (r: TaskRunRequest)
    ensures
        task_views(r.tasks@) == task_views(request.tasks@),
        r.projects@.len() == 0,
        r.workspaces@.len() == 0,
        r.affected == affected,
        affected ==> crate::ports::path_views(r.changed_files@) == crate::ports::path_views(request.changed_files@),
        !affected ==> r.changed_files@.len() == 0,
        affected ==> crate::diagnostic::opt_view(r.base) == crate::diagnostic::opt_view(request.base)
            && crate::diagnostic::opt_view(r.head) == crate::diagnostic::opt_view(request.head),
        !affected ==> r.base is None && r.head is None,
        r.concurrency is None,
        r.dry_run,
{
    let (changed_files, base, head) = if affected {
        (
            copy_paths(&request.changed_files),
            crate::diagnostic::copy_opt(&request.base),
            crate::diagnostic::copy_opt(&request.head),
        )
    } else {
        (Vec::new(), None, None)
    };
    TaskRunRequest {
        repo: request.repo.clone(),
        tasks: copy_tasks(&request.tasks),
        projects: Vec::new(),
        workspaces: Vec::new(),
        affected,
        changed_files,
        base,
        head,
        concurrency: None,
        dry_run: true,
    }
}

/// A matrix entry: project, workspace and task, each empty when absent.
pub type EntryModel = (Seq<char>, Seq<char>, Seq<char>);

/// The text of an optional name, empty when absent.
pub open spec fn name_or_empty<T: View<V = Seq<char>>>(o: Option<T>) -> Seq<char> {
    match o {
        Some(n) => n@,
        None => Seq::empty(),
    }
}

/// The entry a planned command stands for.
pub open spec fn entry_of(c: ProcessCommand) -> EntryModel {
    (name_or_empty(c.project), name_or_empty(c.workspace), name_or_empty(c.task))
}

/// The values of matrix entries.
pub open spec fn entry_views(v: Seq<(String, String, String)>) -> Seq<EntryModel> {
    v.map_values(|e: (String, String, String)| (e.0@, e.1@, e.2@))
}

/// The first occurrence of each value, in order.
pub open spec fn first_occurrences<A>(s: Seq<A>) -> Seq<A>
    decreases s.len(),
{
    if s.len() == 0 {
        Seq::empty()
    } else {
        let d = first_occurrences(s.drop_last());
        if d.contains(s.last()) {
            d
        } else {
            d.push(s.last())
        }
    }
}

fn entry_for(c: &ProcessCommand) -> (r: (String, String, String))
    ensures
        (r.0@, r.1@, r.2@) == entry_of(*c),
{
    let p = match &c.project {
        Some(n) => owned(n.as_str()),
        None => owned(""),
    };
    let w = match &c.workspace {
        Some(n) => owned(n.as_str()),
        None => owned(""),
    };
    let t = match &c.task {
        Some(n) => owned(n.as_str()),
        None => owned(""),
    };
    proof {
        reveal_strlit("");
    }
    (p, w, t)
}

fn entry_in(v: &Vec<(String, String, String)>, e: &(String, String, String)) -> (r: bool)
    ensures
        r == entry_views(v@).contains((e.0@, e.1@, e.2@)),
{
    let mut i: usize = 0;
    while i < v.len()
        invariant
            i <= v.len(),
            forall|j: int| 0 <= j < i ==> entry_views(v@)[j] != (e.0@, e.1@, e.2@),
        decreases v.len() - i,
    {
        if str_eq(v[i].0.as_str(), e.0.as_str()) && str_eq(v[i].1.as_str(), e.1.as_str())
            && str_eq(v[i].2.as_str(), e.2.as_str()) {
            assert(entry_views(v@)[i as int] == (e.0@, e.1@, e.2@));
            return true;
        }
        i = i + 1;
    }
    false
}

/// The matrix entries of planned commands: one per distinct project,
/// workspace and task, in the order they are first planned.
pub fn ci_matrix_entries(commands: &Vec<ProcessCommand>) -> (r: Vec<(String, String, String)>)
    ensures
        entry_views(r@) == first_occurrences(commands@.map_values(|c: ProcessCommand| entry_of(c))),
{
    let ghost all = commands@.map_values(|c: ProcessCommand| entry_of(c));
    let mut out: Vec<(String, String, String)> = Vec::new();
    let mut i: usize = 0;
    while i < commands.len()
        invariant
            i <= commands.len(),
            all == commands@.map_values(|c: ProcessCommand| entry_of(c)),
            entry_views(out@) == first_occurrences(all.subrange(0, i as int)),
        decreases commands.len() - i,
    {
        let e = entry_for(&commands[i]);
        let ghost ev = (e.0@, e.1@, e.2@);
        let ghost os = entry_views(out@);
        let seen = entry_in(&out, &e);
        assert(all.subrange(0, i as int + 1).drop_last() =~= all.subrange(0, i as int));
        assert(all.subrange(0, i as int + 1).last() == ev);
        if !seen {
            out.push(e);
            assert(entry_views(out@) =~= os.push(ev));
        } else {
            assert(os.contains(ev));
        }
        i = i + 1;
    }
    assert(all.subrange(0, commands@.len() as int) =~= all);
    out
}

} // verus!

verus! {

// ---------------------------------------------------------------------------
// Proto owners and consumers
// ---------------------------------------------------------------------------

/// Which proto patterns of a project a lookup reads.
#[derive(Clone, Copy, Debug, PartialEq, Eq, Structural)]
pub enum ProtoMatchKind {
    /// The patterns the project owns.
    Owner,
    /// The patterns the project consumes.
    Consumer,
}

/// The error of an owner or consumer lookup without a selector.
pub open spec fn selector_required_error() -> DiagnosticModel {
    error_model("proto.selector.required"@, "proto owners and consumers require a path or package selector"@)
}

/// The selector of an owner or consumer lookup, which must be given.
pub fn required_selector(request: &crate::requests::ProtoFacadeRequest) -> (r: Result<String, RepoctlError>)
    ensures
        match r {
            Ok(s) => request.selector matches Some(t) && s@ == t@,
            Err(e) => request.selector is None && error_diagnostics(e) == seq![selector_required_error()],
        },
{
    match &request.selector {
        Some(s) => Ok(owned(s.as_str())),
        None => Err(RepoctlError::diagnostic(Diagnostic::error(
            "proto.selector.required",
            "proto owners and consumers require a path or package selector",
        ))),
    }
}

/// A character a proto package name may hold.
pub open spec fn package_char(c: char) -> bool {
    crate::text::is_alnum(c) || c == '.' || c == '_'
}

/// The path a package name stands for: dots become slashes.
pub open spec fn package_path(s: Seq<char>) -> Seq<char> {
    s.map_values(|c: char| if c == '.' { '/' } else { c })
}

/// The error of a selector that is neither a proto path nor a package name.
pub open spec fn selector_invalid_error() -> DiagnosticModel {
    error_model("proto.selector.invalid"@, "proto selector must be a protos/ path or proto package name"@)
}

/// A proto selector as a path below `protos/`: a path is kept, a package
/// name becomes the path of its package.
pub open spec fn normalized_selector(s: Seq<char>) -> Result<Seq<char>, DiagnosticModel> {
    if crate::text::has_prefix(s, "protos/"@) {
        Ok(s)
    } else if forall|i: int| 0 <= i < s.len() ==> package_char(#[trigger] s[i]) {
        Ok("protos/"@ + package_path(s))
    } else {
        Err(selector_invalid_error())
    }
}

/// Turns a proto selector into a path below `protos/`.
pub fn normalize_proto_selector(selector: &str) -> (r: Result<String, RepoctlError>)
    ensures
        match r {
            Ok(s) => normalized_selector(selector@) == Ok::<Seq<char>, DiagnosticModel>(s@),
            Err(e) => normalized_selector(selector@) is Err && error_diagnostics(e) == seq![selector_invalid_error()],
        },
{
    let cs = crate::text::chars_of(selector);
    let prefix = crate::text::chars_of("protos/");
    proof {
        reveal_strlit("protos/");
    }
    if crate::text::starts_with(&cs, &prefix) {
        return Ok(owned(selector));
    }
    let mut mapped: Vec<char> = prefix;
    let mut i: usize = 0;
    while i < cs.len()
        invariant
            i <= cs.len(),
            cs@ == selector@,
            !crate::text::has_prefix(selector@, "protos/"@),
            forall|j: int| 0 <= j < i ==> package_char(#[trigger] cs@[j]),
            mapped@ == "protos/"@ + package_path(cs@.subrange(0, i as int)),
        decreases cs.len() - i,
    {
        let c = cs[i];
        if !(('a' <= c && c <= 'z') || ('A' <= c && c <= 'Z') || ('0' <= c && c <= '9') || c == '.' || c == '_') {
            assert(!package_char(selector@[i as int]));
            return Err(RepoctlError::diagnostic(Diagnostic::error(
                "proto.selector.invalid",
                "proto selector must be a protos/ path or proto package name",
            )));
        }
        mapped.push(if c == '.' { '/' } else { c });
        assert(package_path(cs@.subrange(0, i as int + 1)) =~= package_path(cs@.subrange(0, i as int)).push(
            if c == '.' { '/' } else { c },
        ));
        i = i + 1;
    }
    assert(cs@.subrange(0, cs@.len() as int) =~= cs@);
    Ok(crate::text::string_of(&mapped))
}

/// The patterns of a project a lookup reads.
pub open spec fn proto_patterns(p: ProjectManifest, kind: ProtoMatchKind) -> Seq<Seq<char>> {
    match kind {
        ProtoMatchKind::Owner => crate::graph::glob_views(p.protos.owns@),
        ProtoMatchKind::Consumer => crate::graph::glob_views(p.protos.consumes@),
    }
}

/// A pattern that compiles and matches the path.
pub open spec fn glob_hit(pattern: Seq<char>, path: Seq<char>) -> bool {
    crate::domain::glob_parse(pattern) is Ok && crate::domain::glob_matches(pattern, path)
}

/// A project one of whose read patterns matches the path.
pub open spec fn proto_match(p: ProjectManifest, kind: ProtoMatchKind, path: Seq<char>) -> bool {
    exists|k: int| 0 <= k < proto_patterns(p, kind).len() && glob_hit(#[trigger] proto_patterns(p, kind)[k], path)
}

/// The names of the projects that match, in snapshot order.
pub open spec fn proto_matches(ps: Seq<ProjectManifest>, kind: ProtoMatchKind, path: Seq<char>) -> Seq<Seq<char>>
    decreases ps.len(),
{
    if ps.len() == 0 {
        Seq::empty()
    } else {
        let rest = proto_matches(ps.drop_last(), kind, path);
        if proto_match(ps.last(), kind, path) {
            rest.push(ps.last().name@)
        } else {
            rest
        }
    }
}

/// What a lookup gives for a selector: the selector read as a path; the
/// names sorted without repeats; and, when that path holds no backslash
/// (where glob matching is the same on every platform), exactly the
/// projects with a matching pattern.
pub open spec fn proto_lookup_holds(ps: Seq<ProjectManifest>, selector: Seq<char>, kind: ProtoMatchKind, names: Seq<Seq<char>>) -> bool {
    match normalized_selector(selector) {
        Ok(path) => crate::ports::strictly_sorted(names)
            && (!path.contains('\\') ==> proto_lookup(ps, selector, kind) == Ok::<Seq<Seq<char>>, DiagnosticModel>(names)),
        Err(_) => false,
    }
}

/// The projects a lookup finds: the selector as a path, then every project
/// with a matching pattern, sorted by name without repeats.
pub open spec fn proto_lookup(ps: Seq<ProjectManifest>, selector: Seq<char>, kind: ProtoMatchKind)
    -> Result<Seq<Seq<char>>, DiagnosticModel>
{
    match normalized_selector(selector) {
        Ok(path) => Ok(crate::policy::sorted_distinct(proto_matches(ps, kind, path))),
        Err(d) => Err(d),
    }
}

fn proto_match_exec(p: &ProjectManifest, kind: ProtoMatchKind, path: &str) -> (r: bool)
    ensures
        !path@.contains('\\') ==> r == proto_match(*p, kind, path@),
{
    let patterns = match kind {
        ProtoMatchKind::Owner => &p.protos.owns,
        ProtoMatchKind::Consumer => &p.protos.consumes,
    };
    let ghost pv = proto_patterns(*p, kind);
    assert(pv == crate::graph::glob_views(patterns@));
    let mut k: usize = 0;
    while k < patterns.len()
        invariant
            k <= patterns.len(),
            pv == proto_patterns(*p, kind),
            pv == crate::graph::glob_views(patterns@),
            pv.len() == patterns@.len(),
            !path@.contains('\\') ==> forall|j: int| 0 <= j < k ==> !glob_hit(#[trigger] pv[j], path@),
        decreases patterns.len() - k,
    {
        assert(pv[k as int] == patterns@[k as int]@);
        let pattern = &patterns[k];
        proof {
            use_type_invariant(pattern);
        }
        let hit = match crate::domain::glob_is_match(pattern.as_str(), path) {
            Some(b) => b,
            None => false,
        };
        if hit {
            assert(!path@.contains('\\') ==> glob_hit(proto_patterns(*p, kind)[k as int], path@));
            return true;
        }
        k = k + 1;
    }
    false
}

/// The projects that own or consume the proto a selector names, sorted by
/// name without repeats.
pub fn proto_projects(snapshot: &RepoSnapshot, selector: &str, kind: ProtoMatchKind) -> (r: Result<Vec<ProjectName>, RepoctlError>)
    ensures
        match r {
            Ok(v) => proto_lookup_holds(snapshot.projects@, selector@, kind, name_views(v@)),
            Err(e) => proto_lookup(snapshot.projects@, selector@, kind) is Err
                && error_diagnostics(e) == seq![selector_invalid_error()],
        },
{
    let path = normalize_proto_selector(selector)?;
    let ps = &snapshot.projects;
    let mut names: Vec<String> = Vec::new();
    let mut i: usize = 0;
    while i < ps.len()
        invariant
            i <= ps.len(),
            normalized_selector(selector@) == Ok::<Seq<char>, DiagnosticModel>(path@),
            !path@.contains('\\') ==> strs(names@) == proto_matches(ps@.subrange(0, i as int), kind, path@),
        decreases ps.len() - i,
    {
        assert(ps@.subrange(0, i as int + 1).drop_last() =~= ps@.subrange(0, i as int));
        if proto_match_exec(&ps[i], kind, path.as_str()) {
            let ghost prev = strs(names@);
            names.push(owned(ps[i].name.as_str()));
            assert(strs(names@) =~= prev.push(ps@[i as int].name@));
        }
        i = i + 1;
    }
    assert(ps@.subrange(0, ps@.len() as int) =~= ps@);
    let sorted = crate::policy::sort_dedup(&names);
    let mut out: Vec<ProjectName> = Vec::new();
    let mut k: usize = 0;
    while k < sorted.len()
        invariant
            k <= sorted.len(),
            name_views(out@) == strs(sorted@).subrange(0, k as int),
        decreases sorted.len() - k,
    {
        let ghost prev = name_views(out@);
        out.push(ProjectName::from_name_text(owned(sorted[k].as_str())));
        assert(name_views(out@) =~= prev.push(strs(sorted@)[k as int]));
        assert(strs(sorted@).subrange(0, k as int + 1) =~= strs(sorted@).subrange(0, k as int).push(strs(sorted@)[k as int]));
        k = k + 1;
    }
    assert(strs(sorted@).subrange(0, sorted@.len() as int) =~= strs(sorted@));
    Ok(out)
}

} // verus!

verus! {

/// The `buf lint` command run in the proto root.
pub open spec fn is_buf_lint(snapshot: RepoSnapshot, c: ProcessCommand) -> bool {
    &&& c.project is None
    &&& c.workspace is None
    &&& c.task is None
    &&& c.cwd@ == snapshot.repo_manifest.protos_root@
    &&& c.absolute_cwd is Some
    &&& c.program@ == "buf"@
    &&& strs(c.args@) == seq!["lint"@]
    &&& c.env@ == Map::<String, String>::empty()
}

/// The proto toolchain's check commands: `buf lint` in the proto root when
/// `buf.yaml` there is a file, else none.
pub open spec fn buf_commands(snapshot: RepoSnapshot, buf_yaml_is_file: bool, cs: Seq<ProcessCommand>) -> bool {
    if buf_yaml_is_file {
        cs.len() == 1 && is_buf_lint(snapshot, cs[0])
    } else {
        cs.len() == 0
    }
}

/// The check commands of the proto toolchain; `buf_yaml_is_file` tells
/// whether `buf.yaml` in the proto root is a file.
pub fn buf_check_commands(snapshot: &RepoSnapshot, buf_yaml_is_file: bool) -> (r: Vec<ProcessCommand>)
    ensures
        buf_commands(*snapshot, buf_yaml_is_file, r@),
{
    let mut out: Vec<ProcessCommand> = Vec::new();
    if !buf_yaml_is_file {
        return out;
    }
    let dir = snapshot.root.join(&snapshot.repo_manifest.protos_root);
    let mut args: Vec<String> = Vec::new();
    args.push(owned("lint"));
    proof {
        reveal_strlit("lint");
        reveal_strlit("buf");
    }
    out.push(ProcessCommand {
        project: None,
        workspace: None,
        task: None,
        cwd: snapshot.repo_manifest.protos_root.duplicate(),
        absolute_cwd: Some(crate::tasks::path_buf_of(dir)),
        program: owned("buf"),
        args,
        env: std::collections::BTreeMap::new(),
    });
    assert(strs(out@[0].args@) =~= seq!["lint"@]);
    out
}

/// A report of an owner or consumer lookup, or of a proto check, as the
/// request asks.
pub open spec fn proto_report_ok(
    snapshot: RepoSnapshot,
    request: crate::requests::ProtoFacadeRequest,
    changed: Seq<Seq<char>>,
    buf_yaml_is_file: bool,
    r: crate::requests::ProtoFacadeReport,
) -> bool {
    match request.operation {
        crate::requests::ProtoOperation::Owners => request.selector matches Some(s)
            && proto_lookup_holds(snapshot.projects@, s@, ProtoMatchKind::Owner, name_views(r.owners@))
            && r.consumers@.len() == 0 && r.commands@.len() == 0 && r.diagnostics@.len() == 0,
        crate::requests::ProtoOperation::Consumers => request.selector matches Some(s)
            && proto_lookup_holds(snapshot.projects@, s@, ProtoMatchKind::Consumer, name_views(r.consumers@))
            && r.owners@.len() == 0 && r.commands@.len() == 0 && r.diagnostics@.len() == 0,
        crate::requests::ProtoOperation::Check => r.owners@.len() == 0 && r.consumers@.len() == 0
            && buf_commands(snapshot, buf_yaml_is_file, r.commands@)
            && crate::policy::diags_ordered(models(r.diagnostics@))
            && models(r.diagnostics@).to_multiset() == crate::policy::policy_report(snapshot, changed).to_multiset(),
    }
}

/// Why a proto request fails: a lookup without a selector or with an
/// invalid one, or a check whose built-in policy globs do not compile.
pub open spec fn proto_report_err(
    snapshot: RepoSnapshot,
    request: crate::requests::ProtoFacadeRequest,
    e: RepoctlError,
) -> bool {
    match request.operation {
        crate::requests::ProtoOperation::Check => !crate::policy::policy_globs_compile() && e is Internal,
        _ => match request.selector {
            None => error_diagnostics(e) == seq![selector_required_error()],
            Some(s) => normalized_selector(s@) is Err && error_diagnostics(e) == seq![selector_invalid_error()],
        },
    }
}

/// Answers a proto request on a discovered snapshot: owners or consumers of
/// the selected proto, or the proto toolchain's check commands with the
/// policy diagnostics of the changed files.
pub fn proto_report(
    snapshot: &RepoSnapshot,
    request: &crate::requests::ProtoFacadeRequest,
    changed_files: &Vec<RepoRelativePath>,
    buf_yaml_is_file: bool,
) -> (r: Result<crate::requests::ProtoFacadeReport, RepoctlError>)
    ensures
        match r {
            Ok(rep) => proto_report_ok(*snapshot, *request, crate::policy::path_list(changed_files@), buf_yaml_is_file, rep),
            Err(e) => proto_report_err(*snapshot, *request, e),
        },
        (request.operation != crate::requests::ProtoOperation::Check && (request.selector matches Some(s)
            && normalized_selector(s@) is Ok)) ==> r is Ok,
        request.operation == crate::requests::ProtoOperation::Check && crate::policy::policy_globs_compile() ==> r is Ok,
{
    match request.operation {
        crate::requests::ProtoOperation::Owners => {
            let selector = required_selector(request)?;
            let owners = proto_projects(snapshot, selector.as_str(), ProtoMatchKind::Owner)?;
            Ok(crate::requests::ProtoFacadeReport {
                owners,
                consumers: Vec::new(),
                commands: Vec::new(),
                diagnostics: Vec::new(),
            })
        },
        crate::requests::ProtoOperation::Consumers => {
            let selector = required_selector(request)?;
            let consumers = proto_projects(snapshot, selector.as_str(), ProtoMatchKind::Consumer)?;
            Ok(crate::requests::ProtoFacadeReport {
                owners: Vec::new(),
                consumers,
                commands: Vec::new(),
                diagnostics: Vec::new(),
            })
        },
        crate::requests::ProtoOperation::Check => {
            let diagnostics = crate::policy::PolicyEngine.evaluate(snapshot, changed_files.as_slice())?;
            let commands = buf_check_commands(snapshot, buf_yaml_is_file);
            Ok(crate::requests::ProtoFacadeReport {
                owners: Vec::new(),
                consumers: Vec::new(),
                commands,
                diagnostics,
            })
        },
    }
}

// ---------------------------------------------------------------------------
// Generated-code check
// ---------------------------------------------------------------------------

/// A diagnostic of the generated-code rule.
pub open spec fn is_generated_finding(d: DiagnosticModel) -> bool {
    d.code == "policy.generated_code_readonly"@
}

/// The diagnostics of the generated-code rule among the given ones, in
/// order.
pub fn generated_code_findings(diagnostics: &Vec<Diagnostic>) -> (r: Vec<Diagnostic>)
    ensures
        models(r@) == models(diagnostics@).filter(|d: DiagnosticModel| is_generated_finding(d)),
{
    let ghost all = models(diagnostics@);
    let ghost pred = |d: DiagnosticModel| is_generated_finding(d);
    let mut out: Vec<Diagnostic> = Vec::new();
    let mut i: usize = 0;
    proof {
        reveal_strlit("policy.generated_code_readonly");
    }
    while i < diagnostics.len()
        invariant
            i <= diagnostics.len(),
            all == models(diagnostics@),
            pred == (|d: DiagnosticModel| is_generated_finding(d)),
            models(out@) == all.subrange(0, i as int).filter(pred),
        decreases diagnostics.len() - i,
    {
        let d = &diagnostics[i];
        assert(all.subrange(0, i as int + 1) =~= all.subrange(0, i as int).push(all[i as int]));
        proof {
            all.subrange(0, i as int).lemma_filter_push(all[i as int], pred);
        }
        if str_eq(d.code.as_str(), "policy.generated_code_readonly") {
            let ghost prev = models(out@);
            out.push(d.duplicate());
            assert(models(out@) =~= prev.push(all[i as int]));
        }
        i = i + 1;
    }
    assert(all.subrange(0, all.len() as int) =~= all);
    out
}

/// The generated-code check of a snapshot: the generated-code rule's
/// diagnostics among the policy diagnostics of the changed files.
pub fn codegen_check_report(snapshot: &RepoSnapshot, changed_files: &Vec<RepoRelativePath>)
    -> (r: Result<crate::requests::CodegenCheckReport, RepoctlError>)
    ensures
        match r {
            Ok(rep) => models(rep.diagnostics@) == crate::policy::stable_sorted(
                crate::policy::policy_report(*snapshot, crate::policy::path_list(changed_files@)),
            ).filter(|d: DiagnosticModel| is_generated_finding(d)),
            Err(e) => !crate::policy::policy_globs_compile() && e is Internal,
        },
        crate::policy::policy_globs_compile() ==> r is Ok,
{
    let all = crate::policy::PolicyEngine.evaluate(snapshot, changed_files.as_slice())?;
    let diagnostics = generated_code_findings(&all);
    Ok(crate::requests::CodegenCheckReport { diagnostics })
}

} // verus!

verus! {

// ---------------------------------------------------------------------------
// IaC plan targets
// ---------------------------------------------------------------------------

/// A stack an `IaC` plan runs against.
#[derive(Clone, Debug)]
pub struct IacTarget {
    /// Project that owns the stack; none for core infrastructure.
    pub project: Option<ProjectName>,
    /// `IaC` root relative to the repository root.
    pub root: RepoRelativePath,
    /// Provider that plans the stack.
    pub provider: crate::domain::IacProvider,
    /// Stack name.
    pub stack: String,
    /// Whether this is the core infrastructure stack.
    pub core: bool,
}

/// The abstract value of an `IaC` target.
pub struct TargetModel {
    pub project: Option<Seq<char>>,
    pub root: Seq<char>,
    pub provider: crate::domain::IacProvider,
    pub stack: Seq<char>,
    pub core: bool,
}

impl View for IacTarget {
    type V = TargetModel;

    open spec fn view(&self) -> TargetModel {
        TargetModel {
            project: match self.project {
                Some(n) => Some(n@),
                None => None,
            },
            root: self.root@,
            provider: self.provider,
            stack: self.stack@,
            core: self.core,
        }
    }
}

/// The values of `IaC` targets.
pub open spec fn target_views(v: Seq<IacTarget>) -> Seq<TargetModel> {
    v.map_values(|t: IacTarget| t@)
}

/// The stacks planned for a project: the requested environment, else its
/// declared stacks, else `default`.
pub open spec fn stacks_for(iac: crate::domain::IacSpec, env: Option<String>) -> Seq<Seq<char>> {
    match env {
        Some(e) => seq![e@],
        None => if iac.stacks@.len() == 0 {
            seq!["default"@]
        } else {
            strs(iac.stacks@)
        },
    }
}

/// A changed file lies in the project.
pub open spec fn touches(p: ProjectManifest, files: Seq<Seq<char>>) -> bool {
    exists|k: int| 0 <= k < files.len() && path_below(#[trigger] files[k], p.path@)
}

/// The project is left out of the plan: another project was asked for, it
/// has no changed file in an affected plan, or it declares no `IaC`.
pub open spec fn iac_skipped(p: ProjectManifest, req: crate::requests::IacFacadeRequest, files: Seq<Seq<char>>) -> bool {
    (req.project matches Some(n) && n@ != p.name@) || (req.affected && !touches(p, files)) || p.iac is None
}

/// The targets of one project: one per planned stack, below its `IaC` root.
pub open spec fn project_targets(p: ProjectManifest, req: crate::requests::IacFacadeRequest, files: Seq<Seq<char>>)
    -> Result<Seq<TargetModel>, DiagnosticModel>
{
    if iac_skipped(p, req, files) {
        Ok(Seq::empty())
    } else {
        let iac = p.iac.unwrap();
        match join_project_spec(p.path@, iac.root@) {
            Err(d) => Err(d),
            Ok(root) => Ok(stacks_for(iac, req.env).map_values(|s: Seq<char>| TargetModel {
                project: Some(p.name@),
                root,
                provider: iac.provider,
                stack: s,
                core: false,
            })),
        }
    }
}

/// The targets of the projects in order; the first bad `IaC` root ends the
/// search with its diagnostic.
pub open spec fn projects_targets(ps: Seq<ProjectManifest>, req: crate::requests::IacFacadeRequest, files: Seq<Seq<char>>)
    -> Result<Seq<TargetModel>, DiagnosticModel>
    decreases ps.len(),
{
    if ps.len() == 0 {
        Ok(Seq::empty())
    } else {
        match projects_targets(ps.drop_last(), req, files) {
            Err(d) => Err(d),
            Ok(ts) => match project_targets(ps.last(), req, files) {
                Err(d) => Err(d),
                Ok(more) => Ok(ts + more),
            },
        }
    }
}

/// The error when an explicitly selected project yields no target.
pub open spec fn iac_not_found_error() -> DiagnosticModel {
    error_model("iac.target.not_found"@, "no matching IaC target was found"@)
}

/// The targets of an `IaC` request: the core stack (in the requested
/// environment, else `dev`), or the stacks of the selected projects.
pub open spec fn iac_target_plan(snapshot: RepoSnapshot, req: crate::requests::IacFacadeRequest, files: Seq<Seq<char>>)
    -> Result<Seq<TargetModel>, DiagnosticModel>
{
    if req.core {
        Ok(seq![TargetModel {
            project: None,
            root: snapshot.repo_manifest.core_infra_root@,
            provider: crate::domain::IacProvider::Pulumi,
            stack: match req.env {
                Some(e) => e@,
                None => "dev"@,
            },
            core: true,
        }])
    } else {
        match projects_targets(snapshot.projects@, req, files) {
            Err(d) => Err(d),
            Ok(ts) => if ts.len() == 0 && req.project is Some {
                Err(iac_not_found_error())
            } else {
                Ok(ts)
            },
        }
    }
}

fn touches_exec(p: &ProjectManifest, files: &Vec<RepoRelativePath>) -> (r: bool)
    ensures
        r == touches(*p, crate::policy::path_list(files@)),
{
    let ghost fs = crate::policy::path_list(files@);
    let mut k: usize = 0;
    while k < files.len()
        invariant
            k <= files.len(),
            fs == crate::policy::path_list(files@),
            forall|j: int| 0 <= j < k ==> !path_below(#[trigger] fs[j], p.path@),
        decreases files.len() - k,
    {
        if p.contains_path(&files[k]) {
            assert(path_below(fs[k as int], p.path@));
            return true;
        }
        k = k + 1;
    }
    false
}

fn stacks_exec(iac: &crate::domain::IacSpec, env: &Option<String>) -> (r: Vec<String>)
    ensures
        strs(r@) == stacks_for(*iac, *env),
{
    let mut out: Vec<String> = Vec::new();
    match env {
        Some(e) => {
            out.push(owned(e.as_str()));
            assert(strs(out@) =~= seq![e@]);
        },
        None => {
            if iac.stacks.len() == 0 {
                out.push(owned("default"));
                proof {
                    reveal_strlit("default");
                }
                assert(strs(out@) =~= seq!["default"@]);
            } else {
                let mut i: usize = 0;
                while i < iac.stacks.len()
                    invariant
                        i <= iac.stacks.len(),
                        strs(out@) == strs(iac.stacks@).subrange(0, i as int),
                    decreases iac.stacks.len() - i,
                {
                    let ghost prev = strs(out@);
                    out.push(owned(iac.stacks[i].as_str()));
                    assert(strs(out@) =~= prev.push(strs(iac.stacks@)[i as int]));
                    assert(strs(iac.stacks@).subrange(0, i as int + 1)
                        =~= strs(iac.stacks@).subrange(0, i as int).push(strs(iac.stacks@)[i as int]));
                    i = i + 1;
                }
                assert(strs(iac.stacks@).subrange(0, iac.stacks@.len() as int) =~= strs(iac.stacks@));
            }
        },
    }
    out
}

/// The stacks an `IaC` request plans, with the changed files used by an
/// affected request.
pub fn iac_targets(
    snapshot: &RepoSnapshot,
    request: &crate::requests::IacFacadeRequest,
    changed_files: &Vec<RepoRelativePath>,
) -> (r: Result<Vec<IacTarget>, RepoctlError>)
    ensures
        match r {
            Ok(ts) => iac_target_plan(*snapshot, *request, crate::policy::path_list(changed_files@))
                == Ok::<Seq<TargetModel>, DiagnosticModel>(target_views(ts@)),
            Err(e) => match iac_target_plan(*snapshot, *request, crate::policy::path_list(changed_files@)) {
                Err(d) => error_diagnostics(e) == seq![d],
                Ok(_) => false,
            },
        },
{
    let mut targets: Vec<IacTarget> = Vec::new();
    if request.core {
        let stack = match &request.env {
            Some(e) => owned(e.as_str()),
            None => owned("dev"),
        };
        proof {
            reveal_strlit("dev");
        }
        targets.push(IacTarget {
            project: None,
            root: snapshot.repo_manifest.core_infra_root.duplicate(),
            provider: crate::domain::IacProvider::Pulumi,
            stack,
            core: true,
        });
        assert(target_views(targets@) =~= iac_target_plan(*snapshot, *request, crate::policy::path_list(changed_files@))->Ok_0);
        return Ok(targets);
    }
    let ghost files = crate::policy::path_list(changed_files@);
    let ps = &snapshot.projects;
    let mut i: usize = 0;
    assert(ps@.subrange(0, 0) =~= Seq::<ProjectManifest>::empty());
    assert(target_views(targets@) =~= Seq::<TargetModel>::empty());
    while i < ps.len()
        invariant
            i <= ps.len(),
            ps@ == snapshot.projects@,
            !request.core,
            files == crate::policy::path_list(changed_files@),
            projects_targets(ps@.subrange(0, i as int), *request, files)
                == Ok::<Seq<TargetModel>, DiagnosticModel>(target_views(targets@)),
        decreases ps.len() - i,
    {
        let p = &ps[i];
        assert(ps@.subrange(0, i as int + 1).drop_last() =~= ps@.subrange(0, i as int));
        assert(ps@.subrange(0, i as int + 1).last() == *p);
        let selected_other = match &request.project {
            Some(n) => !n.same(&p.name),
            None => false,
        };
        let skip = selected_other || (request.affected && !touches_exec(p, changed_files)) || p.iac.is_none();
        if !skip {
            let iac = p.iac.as_ref().unwrap();
            let root = match p.path.join_project(&iac.root) {
                Ok(root) => root,
                Err(d) => {
                    assert(!iac_skipped(*p, *request, files));
                    assert(project_targets(*p, *request, files) == Err::<Seq<TargetModel>, DiagnosticModel>(d@));
                    assert(projects_targets(ps@.subrange(0, i as int + 1), *request, files)
                        == Err::<Seq<TargetModel>, DiagnosticModel>(d@));
                    proof {
                        lemma_targets_error_persists(ps@, *request, files, i as int + 1);
                    }
                    assert(ps@.subrange(0, ps@.len() as int) =~= ps@);
                    assert(projects_targets(ps@, *request, files) == Err::<Seq<TargetModel>, DiagnosticModel>(d@));
                    assert(ps@ == snapshot.projects@);
                    assert(iac_target_plan(*snapshot, *request, files) == Err::<Seq<TargetModel>, DiagnosticModel>(d@));
                    let e = RepoctlError::diagnostic(d);
                    assert(error_diagnostics(e) =~= seq![d@]);
                    return Err(e);
                },
            };
            let stacks = stacks_exec(iac, &request.env);
            let ghost before = target_views(targets@);
            let mut k: usize = 0;
            while k < stacks.len()
                invariant
                    k <= stacks.len(),
                    target_views(targets@) == before + strs(stacks@).subrange(0, k as int).map_values(|s: Seq<char>| TargetModel {
                        project: Some(p.name@),
                        root: root@,
                        provider: iac.provider,
                        stack: s,
                        core: false,
                    }),
                decreases stacks.len() - k,
            {
                let ghost prev = target_views(targets@);
                targets.push(IacTarget {
                    project: Some(p.name.duplicate()),
                    root: root.duplicate(),
                    provider: iac.provider,
                    stack: owned(stacks[k].as_str()),
                    core: false,
                });
                assert(target_views(targets@) =~= prev.push(targets@[targets@.len() - 1]@));
                assert(strs(stacks@).subrange(0, k as int + 1) =~= strs(stacks@).subrange(0, k as int).push(strs(stacks@)[k as int]));
                k = k + 1;
                assert(target_views(targets@) =~= before + strs(stacks@).subrange(0, k as int).map_values(|s: Seq<char>| TargetModel {
                    project: Some(p.name@),
                    root: root@,
                    provider: iac.provider,
                    stack: s,
                    core: false,
                }));
            }
            assert(strs(stacks@).subrange(0, stacks@.len() as int) =~= strs(stacks@));
        } else {
            assert(project_targets(*p, *request, files) == Ok::<Seq<TargetModel>, DiagnosticModel>(Seq::empty()));
            assert(target_views(targets@) =~= target_views(targets@) + Seq::<TargetModel>::empty());
        }
        i = i + 1;
    }
    assert(ps@.subrange(0, ps@.len() as int) =~= ps@);
    if targets.len() == 0 && request.project.is_some() {
        return Err(RepoctlError::diagnostic(Diagnostic::error("iac.target.not_found", "no matching IaC target was found")));
    }
    Ok(targets)
}

/// An error met in a prefix stays the error of any longer prefix.
proof fn lemma_targets_error_persists(ps: Seq<ProjectManifest>, req: crate::requests::IacFacadeRequest, files: Seq<Seq<char>>, k: int)
    requires
        0 <= k <= ps.len(),
        projects_targets(ps.subrange(0, k), req, files) is Err,
    ensures
        projects_targets(ps, req, files) == projects_targets(ps.subrange(0, k), req, files),
    decreases ps.len() - k,
{
    if k < ps.len() {
        assert(ps.subrange(0, k + 1).drop_last() =~= ps.subrange(0, k));
        lemma_targets_error_persists(ps, req, files, k + 1);
    } else {
        assert(ps.subrange(0, k) =~= ps);
    }
}

} // verus!

verus! {

/// The program that plans a provider's stacks.
pub open spec fn provider_program(p: crate::domain::IacProvider) -> Seq<char> {
    match p {
        crate::domain::IacProvider::Pulumi => "pulumi"@,
        crate::domain::IacProvider::Terraform => "terraform"@,
        crate::domain::IacProvider::OpenTofu => "tofu"@,
    }
}

/// The arguments that plan one stack: `preview --stack <stack>` for Pulumi,
/// `plan -var env=<stack>` for Terraform and `OpenTofu`.
pub open spec fn provider_plan_args(p: crate::domain::IacProvider, stack: Seq<char>) -> Seq<Seq<char>> {
    match p {
        crate::domain::IacProvider::Pulumi => seq!["preview"@, "--stack"@, stack],
        _ => seq!["plan"@, "-var"@, "env="@ + stack],
    }
}

/// The command that plans a target: the provider's program in the target's
/// root, for the target's project, with no environment overlay.
pub open spec fn is_plan_command(t: TargetModel, c: ProcessCommand) -> bool {
    &&& (match c.project {
        Some(n) => t.project == Some(n@),
        None => t.project is None,
    })
    &&& c.workspace is None
    &&& c.task is None
    &&& c.cwd@ == t.root
    &&& c.absolute_cwd is Some
    &&& c.program@ == provider_program(t.provider)
    &&& strs(c.args@) == provider_plan_args(t.provider, t.stack)
    &&& c.env@ == Map::<String, String>::empty()
}

/// The provider command that plans a target.
pub fn iac_plan_command(snapshot: &RepoSnapshot, target: &IacTarget) -> (r: ProcessCommand)
    ensures
        is_plan_command(target@, r),
{
    let mut args: Vec<String> = Vec::new();
    let program = match target.provider {
        crate::domain::IacProvider::Pulumi => {
            args.push(owned("preview"));
            args.push(owned("--stack"));
            args.push(owned(target.stack.as_str()));
            proof {
                reveal_strlit("preview");
                reveal_strlit("--stack");
                reveal_strlit("pulumi");
            }
            owned("pulumi")
        },
        crate::domain::IacProvider::Terraform => {
            args.push(owned("plan"));
            args.push(owned("-var"));
            args.push(crate::text::concat2("env=", target.stack.as_str()));
            proof {
                reveal_strlit("plan");
                reveal_strlit("-var");
                reveal_strlit("terraform");
            }
            owned("terraform")
        },
        crate::domain::IacProvider::OpenTofu => {
            args.push(owned("plan"));
            args.push(owned("-var"));
            args.push(crate::text::concat2("env=", target.stack.as_str()));
            proof {
                reveal_strlit("plan");
                reveal_strlit("-var");
                reveal_strlit("tofu");
            }
            owned("tofu")
        },
    };
    assert(strs(args@) =~= provider_plan_args(target.provider, target.stack@));
    let project = match &target.project {
        Some(n) => Some(n.duplicate()),
        None => None,
    };
    let dir = snapshot.root.join(&target.root);
    ProcessCommand {
        project,
        workspace: None,
        task: None,
        cwd: target.root.duplicate(),
        absolute_cwd: Some(crate::tasks::path_buf_of(dir)),
        program,
        args,
        env: std::collections::BTreeMap::new(),
    }
}

/// A target or changed file touches core infrastructure.
pub open spec fn core_risk(ts: Seq<TargetModel>, files: Seq<Seq<char>>) -> bool {
    (exists|k: int| 0 <= k < ts.len() && (#[trigger] ts[k]).core)
        || (exists|k: int| 0 <= k < files.len() && crate::text::has_prefix(#[trigger] files[k], "core-infra/"@))
}

/// A target or changed file touches a production stack.
pub open spec fn prod_risk(ts: Seq<TargetModel>, files: Seq<Seq<char>>) -> bool {
    (exists|k: int| 0 <= k < ts.len() && (#[trigger] ts[k]).stack == "prod"@)
        || (exists|k: int| 0 <= k < files.len() && crate::text::has_infix(#[trigger] files[k], "/iac/stacks/prod"@))
}

/// The risk flags of a plan, sorted: `core-infra`, then `prod-iac`.
pub open spec fn iac_risks(ts: Seq<TargetModel>, files: Seq<Seq<char>>) -> Seq<Seq<char>> {
    (if core_risk(ts, files) { seq!["core-infra"@] } else { Seq::empty() })
        + (if prod_risk(ts, files) { seq!["prod-iac"@] } else { Seq::empty() })
}

/// The risk flags of the planned targets and changed files.
pub fn iac_risk_flags(targets: &Vec<IacTarget>, changed_files: &Vec<RepoRelativePath>) -> (r: Vec<String>)
    ensures
        strs(r@) == iac_risks(target_views(targets@), crate::policy::path_list(changed_files@)),
{
    let ghost ts = target_views(targets@);
    let ghost fs = crate::policy::path_list(changed_files@);
    let core_prefix = crate::text::chars_of("core-infra/");
    let prod_infix = crate::text::chars_of("/iac/stacks/prod");
    let prod = crate::text::chars_of("prod");
    proof {
        reveal_strlit("core-infra/");
        reveal_strlit("/iac/stacks/prod");
        reveal_strlit("prod");
    }
    let mut core = false;
    let mut production = false;
    let mut i: usize = 0;
    while i < targets.len()
        invariant
            i <= targets.len(),
            ts == target_views(targets@),
            prod@ == "prod"@,
            core <==> exists|k: int| 0 <= k < i && (#[trigger] ts[k]).core,
            production <==> exists|k: int| 0 <= k < i && (#[trigger] ts[k]).stack == "prod"@,
        decreases targets.len() - i,
    {
        if targets[i].core {
            assert(ts[i as int].core);
            core = true;
        }
        if crate::text::seq_eq(&crate::text::chars_of(targets[i].stack.as_str()), &prod) {
            assert(ts[i as int].stack == "prod"@);
            production = true;
        }
        i = i + 1;
    }
    let mut k: usize = 0;
    while k < changed_files.len()
        invariant
            k <= changed_files.len(),
            fs == crate::policy::path_list(changed_files@),
            core_prefix@ == "core-infra/"@,
            prod_infix@ == "/iac/stacks/prod"@,
            core <==> (exists|j: int| 0 <= j < ts.len() && (#[trigger] ts[j]).core)
                || (exists|j: int| 0 <= j < k && crate::text::has_prefix(#[trigger] fs[j], "core-infra/"@)),
            production <==> (exists|j: int| 0 <= j < ts.len() && (#[trigger] ts[j]).stack == "prod"@)
                || (exists|j: int| 0 <= j < k && crate::text::has_infix(#[trigger] fs[j], "/iac/stacks/prod"@)),
        decreases changed_files.len() - k,
    {
        let f = crate::text::chars_of(changed_files[k].as_str());
        assert(f@ == fs[k as int]);
        if crate::text::starts_with(&f, &core_prefix) {
            core = true;
        }
        if crate::text::contains_seq(&f, &prod_infix) {
            production = true;
        }
        k = k + 1;
    }
    let mut out: Vec<String> = Vec::new();
    if core {
        out.push(owned("core-infra"));
    }
    if production {
        out.push(owned("prod-iac"));
    }
    proof {
        reveal_strlit("core-infra");
        reveal_strlit("prod-iac");
    }
    assert(strs(out@) =~= iac_risks(ts, fs));
    out
}

/// What an `IaC` plan reports for its targets: one plan command per
/// target, in order, and the risk flags, with no diagnostic.
pub open spec fn iac_report_of(ts: Seq<TargetModel>, files: Seq<Seq<char>>, r: crate::requests::IacFacadeReport) -> bool {
    &&& r.commands@.len() == ts.len()
    &&& forall|k: int| 0 <= k < ts.len() ==> is_plan_command(ts[k], #[trigger] r.commands@[k])
    &&& strs(r.risk_flags@) == iac_risks(ts, files)
    &&& r.diagnostics@.len() == 0
}

/// Plans the `IaC` commands of a request on a discovered snapshot.
pub fn iac_plan_report(
    snapshot: &RepoSnapshot,
    request: &crate::requests::IacFacadeRequest,
    changed_files: &Vec<RepoRelativePath>,
) -> (r: Result<crate::requests::IacFacadeReport, RepoctlError>)
    ensures
        match iac_target_plan(*snapshot, *request, crate::policy::path_list(changed_files@)) {
            Ok(ts) => r matches Ok(rep) && iac_report_of(ts, crate::policy::path_list(changed_files@), rep),
            Err(d) => r matches Err(e) && error_diagnostics(e) == seq![d],
        },
{
    let targets = iac_targets(snapshot, request, changed_files)?;
    let ghost ts = target_views(targets@);
    let mut commands: Vec<ProcessCommand> = Vec::new();
    let mut i: usize = 0;
    while i < targets.len()
        invariant
            i <= targets.len(),
            ts == target_views(targets@),
            commands@.len() == i,
            forall|k: int| 0 <= k < i ==> is_plan_command(ts[k], #[trigger] commands@[k]),
        decreases targets.len() - i,
    {
        let c = iac_plan_command(snapshot, &targets[i]);
        commands.push(c);
        i = i + 1;
    }
    let risk_flags = iac_risk_flags(&targets, changed_files);
    Ok(crate::requests::IacFacadeReport { commands, risk_flags, diagnostics: Vec::new() })
}

} // verus!

verus! {

// ---------------------------------------------------------------------------
// Task run reports
// ---------------------------------------------------------------------------

/// The diagnostic of a command that exited with a nonzero status, tied to
/// its working directory.
pub open spec fn failure_diagnostic(c: ProcessCommand, status: i32) -> DiagnosticModel {
    crate::diagnostic::with_path_model(
        error_model(
            "task.failed"@,
            "task `"@ + match c.task {
                Some(t) => t@,
                None => "<unknown>"@,
            } + "` failed with status "@ + crate::render::int_text(status as int),
        ),
        c.cwd@,
    )
}

/// The failure diagnostics of the run results, in order.
pub open spec fn run_failures(results: Seq<(ProcessCommand, crate::requests::ProcessOutput)>) -> Seq<DiagnosticModel>
    decreases results.len(),
{
    if results.len() == 0 {
        Seq::empty()
    } else {
        let rest = run_failures(results.drop_last());
        let (c, o) = results.last();
        if o.status != 0 {
            rest.push(failure_diagnostic(c, o.status))
        } else {
            rest
        }
    }
}

/// The outputs of the run results whose command names its project,
/// workspace and task, in order.
pub open spec fn run_outputs(results: Seq<(ProcessCommand, crate::requests::ProcessOutput)>)
    -> Seq<crate::requests::TaskCommandOutput>
    decreases results.len(),
{
    if results.len() == 0 {
        Seq::empty()
    } else {
        let rest = run_outputs(results.drop_last());
        let (c, o) = results.last();
        match (c.project, c.workspace, c.task) {
            (Some(p), Some(w), Some(t)) => rest.push(crate::requests::TaskCommandOutput {
                project: p,
                workspace: w,
                task: t,
                output: o,
            }),
            _ => rest,
        }
    }
}

fn failure_exec(c: &ProcessCommand, status: i32) -> (d: Diagnostic)
    ensures
        d@ == failure_diagnostic(*c, status),
{
    let mut msg = owned("task `");
    match &c.task {
        Some(t) => crate::text::push_str(&mut msg, t.as_str()),
        None => crate::text::push_str(&mut msg, "<unknown>"),
    }
    crate::text::push_str(&mut msg, "` failed with status ");
    let n = crate::render::int_text_exec(status);
    crate::text::push_str(&mut msg, n.as_str());
    proof {
        reveal_strlit("task `");
        reveal_strlit("<unknown>");
        reveal_strlit("` failed with status ");
    }
    Diagnostic::error("task.failed", msg.as_str()).with_path(c.cwd.as_str())
}

/// The report of an executed run: the planned commands, the outputs of the
/// commands that name their task, and a diagnostic for each failure.
pub fn task_run_report(
    commands: Vec<ProcessCommand>,
    results: Vec<(ProcessCommand, crate::requests::ProcessOutput)>,
) -> (r: crate::requests::TaskRunReport)
    ensures
        r.commands == commands,
        r.outputs@ == run_outputs(results@),
        models(r.diagnostics@) == run_failures(results@),
{
    let ghost all = results@;
    let n = results.len();
    assert(all.len() == n);
    let mut rest = results;
    let mut outputs: Vec<crate::requests::TaskCommandOutput> = Vec::new();
    let mut diagnostics: Vec<Diagnostic> = Vec::new();
    let mut i: usize = 0;
    while rest.len() > 0
        invariant
            i + rest@.len() == all.len(),
            all.len() <= usize::MAX,
            rest@ == all.subrange(i as int, all.len() as int),
            outputs@ == run_outputs(all.subrange(0, i as int)),
            models(diagnostics@) == run_failures(all.subrange(0, i as int)),
        decreases rest.len(),
    {
        let (command, output) = rest.remove(0);
        assert(all.subrange(0, i as int + 1).drop_last() =~= all.subrange(0, i as int));
        assert(all.subrange(0, i as int + 1).last() == (command, output));
        if output.status != 0 {
            let d = failure_exec(&command, output.status);
            let ghost prev = models(diagnostics@);
            diagnostics.push(d);
            assert(models(diagnostics@) =~= prev.push(d@));
        }
        match (command.project, command.workspace, command.task) {
            (Some(project), Some(workspace), Some(task)) => {
                outputs.push(crate::requests::TaskCommandOutput { project, workspace, task, output });
            },
            _ => {},
        }
        i = i + 1;
        assert(rest@ =~= all.subrange(i as int, all.len() as int));
    }
    assert(all.subrange(0, all.len() as int) =~= all);
    crate::requests::TaskRunReport { commands, outputs, diagnostics }
}

} // verus!

verus! {

// ---------------------------------------------------------------------------
// Project context
// ---------------------------------------------------------------------------

/// The error of a context request for an unknown project.
pub open spec fn context_not_found_error(name: Seq<char>) -> DiagnosticModel {
    crate::diagnostic::with_project_model(
        error_model("context.project.not_found"@, "project `"@ + name + "` was not found"@),
        name,
    )
}

/// The project a context request names: the first with that name.
pub fn context_project<'a>(snapshot: &'a RepoSnapshot, name: &ProjectName) -> (r: Result<&'a ProjectManifest, RepoctlError>)
    ensures
        match r {
            Ok(p) => crate::tasks::find_project(snapshot.projects@, name@) matches Some(i)
                && *p == snapshot.projects@[i],
            Err(e) => crate::tasks::find_project(snapshot.projects@, name@) is None
                && error_diagnostics(e) == seq![context_not_found_error(name@)],
        },
{
    match crate::tasks::find_project_exec(&snapshot.projects, name) {
        Some(i) => {
            proof {
                crate::tasks::lemma_first_where(snapshot.projects@, |p: ProjectManifest| p.name@ == name@);
            }
            Ok(&snapshot.projects[i])
        },
        None => {
            let msg = crate::text::concat3("project `", name.as_str(), "` was not found");
            proof {
                reveal_strlit("project `");
                reveal_strlit("` was not found");
            }
            let d = Diagnostic::error("context.project.not_found", msg.as_str()).with_project(name.as_str());
            Err(RepoctlError::diagnostic(d))
        },
    }
}

/// The graph edges that leave a project's node, in graph order.
pub fn project_dependency_edges(snapshot: &RepoSnapshot, project: &ProjectManifest) -> (r: Vec<crate::domain::GraphEdge>)
    ensures
        crate::domain::edge_views(r@) == crate::domain::edge_views(snapshot.graph.edges@).filter(
            |e: crate::domain::EdgeModel| e.from == crate::domain::project_node_id(project.name@),
        ),
{
    let id = project.node_id();
    let edges = &snapshot.graph.edges;
    let ghost all = crate::domain::edge_views(edges@);
    let ghost pred = |e: crate::domain::EdgeModel| e.from == crate::domain::project_node_id(project.name@);
    let mut out: Vec<crate::domain::GraphEdge> = Vec::new();
    let mut i: usize = 0;
    while i < edges.len()
        invariant
            i <= edges.len(),
            all == crate::domain::edge_views(edges@),
            id@ == crate::domain::project_node_id(project.name@),
            pred == (|e: crate::domain::EdgeModel| e.from == crate::domain::project_node_id(project.name@)),
            crate::domain::edge_views(out@) == all.subrange(0, i as int).filter(pred),
        decreases edges.len() - i,
    {
        assert(all.subrange(0, i as int + 1) =~= all.subrange(0, i as int).push(all[i as int]));
        proof {
            all.subrange(0, i as int).lemma_filter_push(all[i as int], pred);
        }
        if str_eq(edges[i].from.as_str(), id.as_str()) {
            let ghost prev = crate::domain::edge_views(out@);
            out.push(edges[i].duplicate());
            assert(crate::domain::edge_views(out@) =~= prev.push(all[i as int]));
        }
        i = i + 1;
    }
    assert(all.subrange(0, all.len() as int) =~= all);
    out
}

} // verus!

verus! {

// ---------------------------------------------------------------------------
// Explaining a selector
// ---------------------------------------------------------------------------

/// A node a selector names: by id, by label, or by its project.
pub open spec fn node_selected(n: crate::domain::NodeModel, selector: Seq<char>) -> bool {
    n.id == selector || n.label == selector || n.project == Some(selector)
}

/// An edge that touches one of the ids.
pub open spec fn edge_touches(e: crate::domain::EdgeModel, ids: Seq<Seq<char>>) -> bool {
    ids.contains(e.from) || ids.contains(e.to)
}

/// The error when no node matches a selector.
pub open spec fn explain_not_found(selector: Seq<char>) -> DiagnosticModel {
    error_model("explain.selector.not_found"@, "no graph node matched `"@ + selector + "`"@)
}

/// The explanation of a selector: the nodes it names, in graph order, the
/// edges that touch them, in graph order, and an error when it names none.
pub fn explain_report(snapshot: &RepoSnapshot, selector: String) -> (r: crate::requests::ExplainReport)
    ensures
        r.selector@ == selector@,
        crate::domain::node_views(r.nodes@)
            == crate::domain::node_views(snapshot.graph.nodes@).filter(|n: crate::domain::NodeModel| node_selected(n, selector@)),
        crate::domain::edge_views(r.edges@) == crate::domain::edge_views(snapshot.graph.edges@).filter(
            |e: crate::domain::EdgeModel| edge_touches(e, crate::domain::node_views(r.nodes@).map_values(|n: crate::domain::NodeModel| n.id)),
        ),
        models(r.diagnostics@) == (if r.nodes@.len() == 0 { seq![explain_not_found(selector@)] } else { Seq::empty() }),
{
    let nodes_in = &snapshot.graph.nodes;
    let ghost all_nodes = crate::domain::node_views(nodes_in@);
    let ghost npred = |n: crate::domain::NodeModel| node_selected(n, selector@);
    let mut nodes: Vec<crate::domain::GraphNode> = Vec::new();
    let mut ids: Vec<String> = Vec::new();
    let mut i: usize = 0;
    while i < nodes_in.len()
        invariant
            i <= nodes_in.len(),
            all_nodes == crate::domain::node_views(nodes_in@),
            npred == (|n: crate::domain::NodeModel| node_selected(n, selector@)),
            crate::domain::node_views(nodes@) == all_nodes.subrange(0, i as int).filter(npred),
            strs(ids@) == crate::domain::node_views(nodes@).map_values(|n: crate::domain::NodeModel| n.id),
        decreases nodes_in.len() - i,
    {
        let n = &nodes_in[i];
        assert(all_nodes.subrange(0, i as int + 1) =~= all_nodes.subrange(0, i as int).push(all_nodes[i as int]));
        proof {
            all_nodes.subrange(0, i as int).lemma_filter_push(all_nodes[i as int], npred);
        }
        let by_project = match &n.project {
            Some(p) => str_eq(p.as_str(), selector.as_str()),
            None => false,
        };
        if str_eq(n.id.as_str(), selector.as_str()) || str_eq(n.label.as_str(), selector.as_str()) || by_project {
            let ghost prev = crate::domain::node_views(nodes@);
            let ghost prev_ids = strs(ids@);
            nodes.push(n.duplicate());
            ids.push(owned(n.id.as_str()));
            assert(crate::domain::node_views(nodes@) =~= prev.push(all_nodes[i as int]));
            assert(strs(ids@) =~= prev_ids.push(n.id@));
            assert(all_nodes[i as int].id == n.id@);
            assert(prev.push(all_nodes[i as int]).map_values(|n: crate::domain::NodeModel| n.id)
                =~= prev.map_values(|n: crate::domain::NodeModel| n.id).push(n.id@));
            assert(strs(ids@) =~= crate::domain::node_views(nodes@).map_values(|n: crate::domain::NodeModel| n.id));
        }
        i = i + 1;
    }
    assert(all_nodes.subrange(0, all_nodes.len() as int) =~= all_nodes);
    let ghost idv = strs(ids@);
    let edges_in = &snapshot.graph.edges;
    let ghost all_edges = crate::domain::edge_views(edges_in@);
    let ghost epred = |e: crate::domain::EdgeModel| edge_touches(e, idv);
    let mut edges: Vec<crate::domain::GraphEdge> = Vec::new();
    let mut k: usize = 0;
    while k < edges_in.len()
        invariant
            k <= edges_in.len(),
            all_edges == crate::domain::edge_views(edges_in@),
            idv == strs(ids@),
            epred == (|e: crate::domain::EdgeModel| edge_touches(e, idv)),
            crate::domain::edge_views(edges@) == all_edges.subrange(0, k as int).filter(epred),
        decreases edges_in.len() - k,
    {
        let e = &edges_in[k];
        assert(all_edges.subrange(0, k as int + 1) =~= all_edges.subrange(0, k as int).push(all_edges[k as int]));
        proof {
            all_edges.subrange(0, k as int).lemma_filter_push(all_edges[k as int], epred);
        }
        if text_in(&ids, e.from.as_str()) || text_in(&ids, e.to.as_str()) {
            let ghost prev = crate::domain::edge_views(edges@);
            edges.push(e.duplicate());
            assert(crate::domain::edge_views(edges@) =~= prev.push(all_edges[k as int]));
        }
        k = k + 1;
    }
    assert(all_edges.subrange(0, all_edges.len() as int) =~= all_edges);
    let mut diagnostics: Vec<Diagnostic> = Vec::new();
    if nodes.len() == 0 {
        let msg = crate::text::concat3("no graph node matched `", selector.as_str(), "`");
        proof {
            reveal_strlit("no graph node matched `");
            reveal_strlit("`");
        }
        diagnostics.push(Diagnostic::error("explain.selector.not_found", msg.as_str()));
        assert(models(diagnostics@) =~= seq![explain_not_found(selector@)]);
    } else {
        assert(models(diagnostics@) =~= Seq::<DiagnosticModel>::empty());
    }
    crate::requests::ExplainReport { selector, nodes, edges, diagnostics }
}

fn text_in(v: &Vec<String>, t: &str) -> (r: bool)
    ensures
        r == strs(v@).contains(t@),
{
    let mut i: usize = 0;
    while i < v.len()
        invariant
            i <= v.len(),
            forall|j: int| 0 <= j < i ==> strs(v@)[j] != t@,
        decreases v.len() - i,
    {
        if str_eq(v[i].as_str(), t) {
            assert(strs(v@)[i as int] == t@);
            return true;
        }
        i = i + 1;
    }
    false
}

// ---------------------------------------------------------------------------
// Diagnostics of failed sections
// ---------------------------------------------------------------------------

/// The diagnostics a failed health-check section reports for its error.
pub open spec fn section_error_diagnostics(e: RepoctlError) -> Seq<DiagnosticModel> {
    match e {
        RepoctlError::Diagnostic { diagnostic } => seq![diagnostic@],
        RepoctlError::Diagnostics { diagnostics } => models(diagnostics@),
        RepoctlError::Io { path, message } => seq![
            crate::diagnostic::with_path_model(
                error_model("doctor.section.io"@, "I/O error at "@ + path@ + ": "@ + message@),
                path@,
            ),
        ],
        RepoctlError::Environment(message) => seq![error_model("doctor.section.environment"@, message@)],
        RepoctlError::Internal(message) => seq![error_model("doctor.section.internal"@, message@)],
    }
}

/// Turns the error of a health-check section into the diagnostics it
/// reports.
pub fn diagnostics_from_error(error: RepoctlError) -> (r: Vec<Diagnostic>)
    ensures
        models(r@) == section_error_diagnostics(error),
{
    let mut r: Vec<Diagnostic> = Vec::new();
    match error {
        RepoctlError::Diagnostic { diagnostic } => {
            r.push(*diagnostic);
            assert(models(r@) =~= section_error_diagnostics(error));
        },
        RepoctlError::Diagnostics { diagnostics } => {
            return diagnostics;
        },
        RepoctlError::Io { path, message } => {
            let mut text = crate::text::concat2("I/O error at ", path.as_str());
            crate::text::push_str(&mut text, ": ");
            crate::text::push_str(&mut text, message.as_str());
            proof {
                reveal_strlit("I/O error at ");
                reveal_strlit(": ");
            }
            r.push(Diagnostic::error("doctor.section.io", text.as_str()).with_path(path.as_str()));
            assert(models(r@) =~= section_error_diagnostics(error));
        },
        RepoctlError::Environment(message) => {
            r.push(Diagnostic::error("doctor.section.environment", message.as_str()));
            assert(models(r@) =~= section_error_diagnostics(error));
        },
        RepoctlError::Internal(message) => {
            r.push(Diagnostic::error("doctor.section.internal", message.as_str()));
            assert(models(r@) =~= section_error_diagnostics(error));
        },
    }
    r
}

/// The last `/`-separated part of a path.
pub open spec fn last_part(p: Seq<char>) -> Seq<char> {
    crate::text::split_on(p, '/').last()
}

/// A hygiene finding is worth acting on unless it reports a generated
/// directory other than `.git` or `.github`.
pub open spec fn actionable_hygiene(d: DiagnosticModel) -> bool {
    d.code != "adoption.hygiene.generated_artifact"@ || (d.source matches Some(s)
        && (last_part(s.path) == ".git"@ || last_part(s.path) == ".github"@))
}

/// Whether a hygiene diagnostic is worth acting on in a health check.
pub fn is_doctor_actionable_hygiene_diagnostic(diagnostic: &Diagnostic) -> (r: bool)
    ensures
        r == actionable_hygiene(diagnostic@),
{
    proof {
        reveal_strlit("adoption.hygiene.generated_artifact");
        reveal_strlit(".git");
        reveal_strlit(".github");
    }
    if !str_eq(diagnostic.code.as_str(), "adoption.hygiene.generated_artifact") {
        return true;
    }
    match &diagnostic.source {
        None => false,
        Some(source) => {
            let parts = crate::text::split_exec(&crate::text::chars_of(source.path.as_str()), '/');
            proof {
                crate::text::lemma_split_acc_len(source.path@, '/');
            }
            let last = &parts[parts.len() - 1];
            let name = crate::text::string_of(last);
            str_eq(name.as_str(), ".git") || str_eq(name.as_str(), ".github")
        },
    }
}

} // verus!
