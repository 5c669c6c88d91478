//! Affected analysis: which projects, workspaces and tasks a set of changed
//! files reaches, directly and through reverse dependencies.
use vstd::prelude::*;

use crate::check::ident_problem;
use crate::domain::{
    EdgeKind, EdgeModel, OwnerHandle, ProjectManifest, ProjectName, RepoRelativePath, RepoSnapshot,
    TaskCommand, TaskName, WorkspaceSpec, edge_views, join_project_spec, path_below,
};
use crate::graph::glob_views;
use crate::policy::{owner_views, sort_dedup, sorted_distinct};
use crate::requests::{AffectedReason, AffectedReport};
use crate::runner::{glob_match, node_project, project_from_node, simple_glob_match};
use crate::check::normalized_path;
use crate::diagnostic::{DiagnosticModel, RepoctlError, error_diagnostics};
use crate::text::{chars_of, concat2, concat3, contains_seq, has_infix, has_prefix, owned, pieces, split_exec, split_on, str_eq, string_of, strs, trim};

verus! {

// ---------------------------------------------------------------------------
// Models
// ---------------------------------------------------------------------------

/// An explanation as (source, target, reason).
pub type ReasonModel = (Seq<char>, Seq<char>, Seq<char>);

/// The abstract value of an explanation.
pub open spec fn reason_view(r: AffectedReason) -> ReasonModel {
    (r.source@, r.target@, r.reason@)
}

/// The abstract values of explanations.
pub open spec fn reason_views(v: Seq<AffectedReason>) -> Seq<ReasonModel> {
    v.map_values(|r: AffectedReason| reason_view(r))
}

/// Views of project names.
pub open spec fn name_views(v: Seq<ProjectName>) -> Seq<Seq<char>> {
    v.map_values(|n: ProjectName| n@)
}

/// Views of task names.
pub open spec fn task_views(v: Seq<TaskName>) -> Seq<Seq<char>> {
    v.map_values(|n: TaskName| n@)
}

/// What one changed file does to one project, or to all of them.
#[verifier::ext_equal]
pub struct Effects {
    /// Directly affected project names, with repeats.
    pub names: Seq<Seq<char>>,
    /// Explanations in the order they arise.
    pub reasons: Seq<ReasonModel>,
    /// Owners of the affected projects, with repeats.
    pub owners: Seq<Seq<char>>,
    /// Directly affected workspace ids, with repeats.
    pub workspaces: Seq<Seq<char>>,
}

/// No effect.
pub open spec fn no_effects() -> Effects {
    Effects { names: Seq::empty(), reasons: Seq::empty(), owners: Seq::empty(), workspaces: Seq::empty() }
}

/// The effects of `a` followed by those of `b`.
pub open spec fn then(a: Effects, b: Effects) -> Effects {
    Effects {
        names: a.names + b.names,
        reasons: a.reasons + b.reasons,
        owners: a.owners + b.owners,
        workspaces: a.workspaces + b.workspaces,
    }
}

// ---------------------------------------------------------------------------
// One changed file
// ---------------------------------------------------------------------------

/// A changed file that touches the whole repository: the repo manifest,
/// templates, either skills root, the tool's own sources.
pub open spec fn repo_wide_change(f: Seq<char>, second_skills_root: Seq<char>) -> bool {
    ||| f == "repo.yaml"@
    ||| has_prefix(f, "templates/"@)
    ||| has_prefix(f, ".agents/skills/"@)
    ||| has_prefix(f, second_skills_root + "/"@)
    ||| has_prefix(f, "crates/"@)
    ||| has_prefix(f, "apps/repoctl-cli/"@)
}

/// Risk flags raised by one changed file that is not repo-wide.
pub open spec fn file_flags(f: Seq<char>) -> Seq<Seq<char>> {
    (if has_prefix(f, "core-infra/"@) { seq!["core-infra"@] } else { Seq::empty() })
        + (if has_infix(f, "/iac/stacks/prod"@) { seq!["prod-iac"@] } else { Seq::empty() })
}

/// Some pattern covers the path.
pub open spec fn any_glob_covers(gs: Seq<Seq<char>>, f: Seq<char>) -> bool {
    exists|k: int| 0 <= k < gs.len() && simple_glob_match(#[trigger] gs[k], f)
}

/// A proto file owned or consumed by the project.
pub open spec fn proto_affects(p: ProjectManifest, f: Seq<char>) -> bool {
    has_prefix(f, "protos/"@) && any_glob_covers(glob_views(p.protos.owns@) + glob_views(p.protos.consumes@), f)
}

/// Workspace id `project:workspace`.
pub open spec fn workspace_id(p: Seq<char>, w: Seq<char>) -> Seq<char> {
    p + ":"@ + w
}

/// The file lies under the workspace's root.
pub open spec fn file_in_workspace(p: ProjectManifest, w: WorkspaceSpec, f: Seq<char>) -> bool {
    match join_project_spec(p.path@, w.root@) {
        Ok(root) => path_below(f, root),
        Err(_) => false,
    }
}

/// Ids of the workspaces whose root holds the file, in order.
pub open spec fn matched_workspaces(p: ProjectManifest, ws: Seq<WorkspaceSpec>, f: Seq<char>) -> Seq<Seq<char>>
    decreases ws.len(),
{
    if ws.len() == 0 {
        Seq::empty()
    } else if file_in_workspace(p, ws.last(), f) {
        matched_workspaces(p, ws.drop_last(), f).push(workspace_id(p.name@, ws.last().name@))
    } else {
        matched_workspaces(p, ws.drop_last(), f)
    }
}

/// Ids of all the workspaces, in order.
pub open spec fn all_workspaces(p: Seq<char>, ws: Seq<WorkspaceSpec>) -> Seq<Seq<char>>
    decreases ws.len(),
{
    if ws.len() == 0 {
        Seq::empty()
    } else {
        all_workspaces(p, ws.drop_last()).push(workspace_id(p, ws.last().name@))
    }
}

/// Workspaces a file inside the project reaches: those whose root holds it,
/// or every workspace when none does.
pub open spec fn file_workspaces(p: ProjectManifest, f: Seq<char>) -> Seq<Seq<char>> {
    if matched_workspaces(p, p.workspaces@, f).len() > 0 {
        matched_workspaces(p, p.workspaces@, f)
    } else {
        all_workspaces(p.name@, p.workspaces@)
    }
}

/// What a changed file that is not repo-wide does to one project.
pub open spec fn project_effects(p: ProjectManifest, f: Seq<char>) -> Effects {
    let inside = path_below(f, p.path@);
    let proto = proto_affects(p, f);
    Effects {
        names: (if inside { seq![p.name@] } else { Seq::empty() }) + (if proto { seq![p.name@] } else { Seq::empty() }),
        reasons: (if inside { seq![(f, p.name@, "project file changed"@)] } else { Seq::empty() })
            + (if proto { seq![(f, p.name@, "proto ownership or consumption"@)] } else { Seq::empty() }),
        owners: (if inside { owner_views(p.owners@) } else { Seq::empty() })
            + (if proto { owner_views(p.owners@) } else { Seq::empty() }),
        workspaces: if inside { file_workspaces(p, f) } else { Seq::empty() },
    }
}

/// What a repo-wide change does to one project.
pub open spec fn wide_effects(p: ProjectManifest, f: Seq<char>) -> Effects {
    Effects {
        names: seq![p.name@],
        reasons: seq![(f, p.name@, "repo-wide change"@)],
        owners: Seq::empty(),
        workspaces: Seq::empty(),
    }
}

/// What one changed file does to the projects, in project order.
pub open spec fn file_effects(ps: Seq<ProjectManifest>, f: Seq<char>, wide: bool) -> Effects
    decreases ps.len(),
{
    if ps.len() == 0 {
        no_effects()
    } else {
        then(
            file_effects(ps.drop_last(), f, wide),
            if wide { wide_effects(ps.last(), f) } else { project_effects(ps.last(), f) },
        )
    }
}

/// What the changed files do, file by file.
pub open spec fn files_effects(ps: Seq<ProjectManifest>, fs: Seq<Seq<char>>, second_skills_root: Seq<char>) -> Effects
    decreases fs.len(),
{
    if fs.len() == 0 {
        no_effects()
    } else {
        then(
            files_effects(ps, fs.drop_last(), second_skills_root),
            file_effects(ps, fs.last(), repo_wide_change(fs.last(), second_skills_root)),
        )
    }
}

/// Risk flags of the changed files, with repeats.
pub open spec fn files_flags(fs: Seq<Seq<char>>, second_skills_root: Seq<char>) -> Seq<Seq<char>>
    decreases fs.len(),
{
    if fs.len() == 0 {
        Seq::empty()
    } else if repo_wide_change(fs.last(), second_skills_root) {
        files_flags(fs.drop_last(), second_skills_root)
    } else {
        files_flags(fs.drop_last(), second_skills_root) + file_flags(fs.last())
    }
}


// ---------------------------------------------------------------------------
// Reverse-dependency propagation
// ---------------------------------------------------------------------------

/// Edge kinds along which a change spreads to the dependent project.
pub open spec fn spreads(kind: EdgeKind) -> bool {
    ||| kind is DependsOnProject
    ||| kind is UsesFrameworkFacade
    ||| kind is UsesFoundationClient
    ||| kind is ConsumesProto
}

/// A valid project name.
pub open spec fn name_ok(n: Seq<char>) -> bool {
    ident_problem("project name"@, n, 128, true) is None
}

/// Already affected, directly or through propagation.
pub open spec fn reached(direct: Seq<Seq<char>>, found: Seq<Seq<char>>, n: Seq<char>) -> bool {
    direct.contains(n) || found.contains(n)
}

/// The (dependency, dependent) pair that an edge adds: a spreading edge
/// from a project not yet reached to a reached project.
pub open spec fn edge_step(e: EdgeModel, direct: Seq<Seq<char>>, found: Seq<Seq<char>>) -> Option<(Seq<char>, Seq<char>)> {
    if spreads(e.kind) {
        match (node_project(e.to), node_project(e.from)) {
            (Some(t), Some(s)) => if name_ok(t) && reached(direct, found, t) && name_ok(s) && !reached(direct, found, s) {
                Some((t, s))
            } else {
                None
            },
            _ => None,
        }
    } else {
        None
    }
}

/// One sweep over the edges in order: the projects reached so far and the
/// pairs added.
pub open spec fn sweep(es: Seq<EdgeModel>, direct: Seq<Seq<char>>, found: Seq<Seq<char>>) -> (Seq<Seq<char>>, Seq<(Seq<char>, Seq<char>)>)
    decreases es.len(),
{
    if es.len() == 0 {
        (found, Seq::empty())
    } else {
        let prev = sweep(es.drop_last(), direct, found);
        match edge_step(es.last(), direct, prev.0) {
            Some(link) => (prev.0.push(link.1), prev.1.push(link)),
            None => prev,
        }
    }
}

/// An edge that could still add its source project.
pub open spec fn open_edge(e: EdgeModel, direct: Seq<Seq<char>>, found: Seq<Seq<char>>) -> bool {
    spreads(e.kind) && match node_project(e.from) {
        Some(s) => name_ok(s) && !reached(direct, found, s),
        None => false,
    }
}

/// Number of edges that could still add their source project.
pub open spec fn open_edges(es: Seq<EdgeModel>, direct: Seq<Seq<char>>, found: Seq<Seq<char>>) -> nat
    decreases es.len(),
{
    if es.len() == 0 {
        0
    } else {
        open_edges(es.drop_last(), direct, found) + if open_edge(es.last(), direct, found) { 1nat } else { 0nat }
    }
}

pub proof fn lemma_sweep_grows(es: Seq<EdgeModel>, direct: Seq<Seq<char>>, found: Seq<Seq<char>>)
    ensures
        found.is_prefix_of(sweep(es, direct, found).0),
        sweep(es, direct, found).1.len() + found.len() == sweep(es, direct, found).0.len(),
        sweep(es, direct, found).0.len() > found.len() ==> exists|i: int| 0 <= i < es.len()
            && open_edge(#[trigger] es[i], direct, found) && !open_edge(es[i], direct, sweep(es, direct, found).0),
    decreases es.len(),
{
    if es.len() > 0 {
        let init = es.drop_last();
        lemma_sweep_grows(init, direct, found);
        let prev = sweep(init, direct, found);
        let r = sweep(es, direct, found);
        match edge_step(es.last(), direct, prev.0) {
            Some(link) => {
                let src = link.1;
                assert(prev.0.push(src)[prev.0.len() as int] == src);
                assert(r.0.contains(src));
                assert(!found.contains(src)) by {
                    if found.contains(src) {
                        let k = choose|k: int| 0 <= k < found.len() && found[k] == src;
                        assert(prev.0[k] == src);
                    }
                }
                assert(open_edge(es[es.len() - 1], direct, found));
                assert(!open_edge(es[es.len() - 1], direct, r.0));
                assert(found.is_prefix_of(r.0)) by {
                    assert forall|k: int| 0 <= k < found.len() implies found[k] == r.0[k] by {
                        assert(found[k] == prev.0[k]);
                    }
                }
            },
            None => {
                if r.0.len() > found.len() {
                    let i = choose|i: int| 0 <= i < init.len() && open_edge(#[trigger] init[i], direct, found) && !open_edge(init[i], direct, prev.0);
                    assert(es[i] == init[i]);
                }
            },
        }
    }
}

pub proof fn lemma_open_edges_shrink(es: Seq<EdgeModel>, direct: Seq<Seq<char>>, a: Seq<Seq<char>>, b: Seq<Seq<char>>)
    requires
        forall|x: Seq<char>| a.contains(x) ==> b.contains(x),
    ensures
        open_edges(es, direct, b) <= open_edges(es, direct, a),
        (exists|i: int| 0 <= i < es.len() && open_edge(#[trigger] es[i], direct, a) && !open_edge(es[i], direct, b))
            ==> open_edges(es, direct, b) < open_edges(es, direct, a),
    decreases es.len(),
{
    if es.len() > 0 {
        let init = es.drop_last();
        lemma_open_edges_shrink(init, direct, a, b);
        if exists|i: int| 0 <= i < es.len() && open_edge(#[trigger] es[i], direct, a) && !open_edge(es[i], direct, b) {
            let i = choose|i: int| 0 <= i < es.len() && open_edge(#[trigger] es[i], direct, a) && !open_edge(es[i], direct, b);
            if i < init.len() {
                assert(init[i] == es[i]);
            }
        }
    }
}

pub proof fn lemma_sweep_progress(es: Seq<EdgeModel>, direct: Seq<Seq<char>>, found: Seq<Seq<char>>)
    ensures
        sweep(es, direct, found).0.len() > found.len() ==> open_edges(es, direct, sweep(es, direct, found).0) < open_edges(es, direct, found),
        sweep(es, direct, found).0.len() <= found.len() ==> sweep(es, direct, found) == (found, Seq::<(Seq<char>, Seq<char>)>::empty()),
{
    lemma_sweep_grows(es, direct, found);
    let r = sweep(es, direct, found);
    assert forall|x: Seq<char>| found.contains(x) implies r.0.contains(x) by {
        let k = choose|k: int| 0 <= k < found.len() && found[k] == x;
        assert(r.0[k] == x);
    }
    lemma_open_edges_shrink(es, direct, found, r.0);
    if r.0.len() <= found.len() {
        assert(r.0 =~= found);
        assert(r.1 =~= Seq::<(Seq<char>, Seq<char>)>::empty());
    }
}

/// Sweeps until nothing is added: every project reached and the pairs
/// added, in order.
pub open spec fn propagate(es: Seq<EdgeModel>, direct: Seq<Seq<char>>, found: Seq<Seq<char>>) -> (Seq<Seq<char>>, Seq<(Seq<char>, Seq<char>)>)
    decreases open_edges(es, direct, found),
{
    let r = sweep(es, direct, found);
    if r.0.len() <= found.len() {
        (found, Seq::empty())
    } else {
        proof {
            lemma_sweep_progress(es, direct, found);
        }
        let rest = propagate(es, direct, r.0);
        (rest.0, r.1 + rest.1)
    }
}

/// The explanations for propagated pairs.
pub open spec fn link_reasons(ls: Seq<(Seq<char>, Seq<char>)>) -> Seq<ReasonModel> {
    ls.map_values(|l: (Seq<char>, Seq<char>)| (l.0, l.1, "reverse dependency propagation"@))
}

fn contains_text(v: &Vec<String>, s: &str) -> (r: bool)
    ensures
        r == strs(v@).contains(s@),
{
    let mut i: usize = 0;
    while i < v.len()
        invariant
            i <= v.len(),
            forall|k: int| 0 <= k < i ==> strs(v@)[k] != s@,
        decreases v.len() - i,
    {
        if str_eq(v[i].as_str(), s) {
            assert(strs(v@)[i as int] == s@);
            return true;
        }
        i = i + 1;
    }
    false
}

fn spreads_exec(kind: &EdgeKind) -> (r: bool)
    ensures
        r == spreads(*kind),
{
    match kind {
        EdgeKind::DependsOnProject | EdgeKind::UsesFrameworkFacade | EdgeKind::UsesFoundationClient | EdgeKind::ConsumesProto => true,
        _ => false,
    }
}

fn edge_step_exec(e: &crate::domain::GraphEdge, direct: &Vec<String>, found: &Vec<String>) -> (r: Option<(String, String)>)
    ensures
        match r {
            Some(link) => edge_step(e@, strs(direct@), strs(found@)) == Some((link.0@, link.1@)),
            None => edge_step(e@, strs(direct@), strs(found@)) is None,
        },
{
    if !spreads_exec(&e.kind) {
        return None;
    }
    let t = match project_from_node(e.to.as_str()) {
        Some(t) => t,
        None => return None,
    };
    match ProjectName::new(t.as_str()) {
        Ok(_) => {},
        Err(_) => return None,
    }
    if !(contains_text(direct, t.as_str()) || contains_text(found, t.as_str())) {
        return None;
    }
    let s = match project_from_node(e.from.as_str()) {
        Some(s) => s,
        None => return None,
    };
    match ProjectName::new(s.as_str()) {
        Ok(_) => {},
        Err(_) => return None,
    }
    if contains_text(direct, s.as_str()) || contains_text(found, s.as_str()) {
        return None;
    }
    Some((t, s))
}

fn sweep_exec(edges: &Vec<crate::domain::GraphEdge>, direct: &Vec<String>, found: &mut Vec<String>, reasons: &mut Vec<AffectedReason>)
    ensures
        strs(final(found)@) == sweep(edge_views(edges@), strs(direct@), strs(old(found)@)).0,
        reason_views(final(reasons)@) == reason_views(old(reasons)@) + link_reasons(sweep(edge_views(edges@), strs(direct@), strs(old(found)@)).1),
{
    let ghost es = edge_views(edges@);
    let ghost d = strs(direct@);
    let ghost f0 = strs(found@);
    let ghost r0 = reason_views(reasons@);
    let mut i: usize = 0;
    assert(es.subrange(0, 0) =~= Seq::<EdgeModel>::empty());
    assert(link_reasons(Seq::empty()) =~= Seq::<ReasonModel>::empty());
    assert(reason_views(reasons@) =~= r0 + Seq::<ReasonModel>::empty());
    while i < edges.len()
        invariant
            i <= edges.len(),
            es == edge_views(edges@),
            d == strs(direct@),
            strs(found@) == sweep(es.subrange(0, i as int), d, f0).0,
            reason_views(reasons@) == r0 + link_reasons(sweep(es.subrange(0, i as int), d, f0).1),
        decreases edges.len() - i,
    {
        let ghost prev = sweep(es.subrange(0, i as int), d, f0);
        assert(es.subrange(0, i as int + 1).drop_last() =~= es.subrange(0, i as int));
        assert(es.subrange(0, i as int + 1).last() == edges@[i as int]@);
        match edge_step_exec(&edges[i], direct, found) {
            Some((t, s)) => {
                let reason = AffectedReason { source: t, target: owned(s.as_str()), reason: owned("reverse dependency propagation") };
                proof {
                    reveal_strlit("reverse dependency propagation");
                }
                let ghost rv = reason_views(reasons@);
                found.push(s);
                reasons.push(reason);
                assert(strs(found@) =~= prev.0.push(s@));
                assert(link_reasons(prev.1.push((t@, s@))) =~= link_reasons(prev.1).push((t@, s@, "reverse dependency propagation"@)));
                assert(reason_views(reasons@) =~= rv.push((t@, s@, "reverse dependency propagation"@)));
                assert(r0 + link_reasons(prev.1).push((t@, s@, "reverse dependency propagation"@)) =~= (r0 + link_reasons(prev.1)).push((t@, s@, "reverse dependency propagation"@)));
            },
            None => {},
        }
        i = i + 1;
    }
    assert(es.subrange(0, edges.len() as int) =~= es);
}

fn propagate_exec(edges: &Vec<crate::domain::GraphEdge>, direct: &Vec<String>, found: &mut Vec<String>, reasons: &mut Vec<AffectedReason>)
    ensures
        strs(final(found)@) == propagate(edge_views(edges@), strs(direct@), strs(old(found)@)).0,
        reason_views(final(reasons)@) == reason_views(old(reasons)@) + link_reasons(propagate(edge_views(edges@), strs(direct@), strs(old(found)@)).1),
{
    let ghost es = edge_views(edges@);
    let ghost d = strs(direct@);
    let ghost total = propagate(es, d, strs(found@));
    let ghost r0 = reason_views(reasons@);
    let mut again = true;
    proof {
        assert(Seq::<(Seq<char>, Seq<char>)>::empty() + total.1 =~= total.1);
        assert(reason_views(reasons@) =~= r0 + link_reasons(Seq::<(Seq<char>, Seq<char>)>::empty()));
    }
    let ghost mut done: Seq<(Seq<char>, Seq<char>)> = Seq::empty();
    while again
        invariant
            es == edge_views(edges@),
            d == strs(direct@),
            total.0 == propagate(es, d, strs(found@)).0,
            total.1 == done + propagate(es, d, strs(found@)).1,
            reason_views(reasons@) == r0 + link_reasons(done),
            !again ==> propagate(es, d, strs(found@)) == (strs(found@), Seq::<(Seq<char>, Seq<char>)>::empty()),
        decreases open_edges(es, d, strs(found@)) + if again { 1nat } else { 0nat },
    {
        let ghost cur = strs(found@);
        let before = found.len();
        proof {
            lemma_sweep_progress(es, d, cur);
            lemma_sweep_grows(es, d, cur);
        }
        sweep_exec(edges, direct, found, reasons);
        if found.len() == before {
            again = false;
            assert(propagate(es, d, cur) == (cur, Seq::<(Seq<char>, Seq<char>)>::empty()));
            assert(link_reasons(sweep(es, d, cur).1) =~= Seq::<ReasonModel>::empty());
            assert(reason_views(reasons@) =~= r0 + link_reasons(done));
        } else {
            let ghost sw = sweep(es, d, cur);
            proof {
                assert(link_reasons(done + sw.1) =~= link_reasons(done) + link_reasons(sw.1));
                assert(total.1 == done + (sw.1 + propagate(es, d, sw.0).1));
                assert(done + (sw.1 + propagate(es, d, sw.0).1) =~= (done + sw.1) + propagate(es, d, sw.0).1);
                done = done + sw.1;
            }
        }
    }
    assert(total.1 =~= done + Seq::<(Seq<char>, Seq<char>)>::empty());
}


// ---------------------------------------------------------------------------
// Workspaces and tasks of the affected projects
// ---------------------------------------------------------------------------

/// Some directly affected workspace belongs to the project.
pub open spec fn has_specific(dws: Seq<Seq<char>>, p: Seq<char>) -> bool {
    exists|k: int| 0 <= k < dws.len() && has_prefix(#[trigger] dws[k], p + ":"@)
}

/// A workspace of an affected project is reported when no workspace was hit
/// directly, when it was, or when none of its project's was.
pub open spec fn keeps_workspace(dws: Seq<Seq<char>>, p: Seq<char>, id: Seq<char>) -> bool {
    dws.len() == 0 || dws.contains(id) || !has_specific(dws, p)
}

/// Reported workspaces of one affected project, in order.
pub open spec fn kept_workspaces(p: Seq<char>, ws: Seq<WorkspaceSpec>, dws: Seq<Seq<char>>) -> Seq<Seq<char>>
    decreases ws.len(),
{
    if ws.len() == 0 {
        Seq::empty()
    } else {
        let id = workspace_id(p, ws.last().name@);
        if keeps_workspace(dws, p, id) {
            kept_workspaces(p, ws.drop_last(), dws).push(id)
        } else {
            kept_workspaces(p, ws.drop_last(), dws)
        }
    }
}

/// Reported workspaces of the affected projects, in project order.
pub open spec fn affected_workspaces(ps: Seq<ProjectManifest>, all: Seq<Seq<char>>, dws: Seq<Seq<char>>) -> Seq<Seq<char>>
    decreases ps.len(),
{
    if ps.len() == 0 {
        Seq::empty()
    } else {
        affected_workspaces(ps.drop_last(), all, dws) + if all.contains(ps.last().name@) {
            kept_workspaces(ps.last().name@, ps.last().workspaces@, dws)
        } else {
            Seq::empty()
        }
    }
}

/// Task id `project:workspace:task`.
pub open spec fn task_id(p: Seq<char>, w: Seq<char>, t: Seq<char>) -> Seq<char> {
    p + ":"@ + w + ":"@ + t
}

/// Task ids of one task's commands whose workspace is reported.
pub open spec fn command_tasks(p: Seq<char>, t: Seq<char>, cs: Seq<TaskCommand>, wset: Seq<Seq<char>>) -> Seq<Seq<char>>
    decreases cs.len(),
{
    if cs.len() == 0 {
        Seq::empty()
    } else if wset.len() > 0 && !wset.contains(workspace_id(p, cs.last().workspace@)) {
        command_tasks(p, t, cs.drop_last(), wset)
    } else {
        command_tasks(p, t, cs.drop_last(), wset).push(task_id(p, cs.last().workspace@, t))
    }
}

/// Task ids of one project's requested tasks.
pub open spec fn project_tasks(p: Seq<char>, ts: Seq<(TaskName, Vec<TaskCommand>)>, requested: Seq<Seq<char>>, wset: Seq<Seq<char>>) -> Seq<Seq<char>>
    decreases ts.len(),
{
    if ts.len() == 0 {
        Seq::empty()
    } else {
        project_tasks(p, ts.drop_last(), requested, wset) + if requested.len() > 0 && !requested.contains(ts.last().0@) {
            Seq::empty()
        } else {
            command_tasks(p, ts.last().0@, ts.last().1@, wset)
        }
    }
}

/// Task ids of the affected projects, with repeats.
pub open spec fn affected_tasks(ps: Seq<ProjectManifest>, all: Seq<Seq<char>>, requested: Seq<Seq<char>>, wset: Seq<Seq<char>>) -> Seq<Seq<char>>
    decreases ps.len(),
{
    if ps.len() == 0 {
        Seq::empty()
    } else {
        affected_tasks(ps.drop_last(), all, requested, wset) + if all.contains(ps.last().name@) {
            project_tasks(ps.last().name@, ps.last().tasks@, requested, wset)
        } else {
            Seq::empty()
        }
    }
}

fn id_of(p: &str, w: &str) -> (r: String)
    ensures
        r@ == workspace_id(p@, w@),
{
    concat3(p, ":", w)
}

fn has_specific_exec(dws: &Vec<String>, p: &str) -> (r: bool)
    ensures
        r == has_specific(strs(dws@), p@),
{
    let prefix = chars_of(concat2(p, ":").as_str());
    let mut k: usize = 0;
    while k < dws.len()
        invariant
            k <= dws.len(),
            prefix@ == p@ + ":"@,
            forall|j: int| 0 <= j < k ==> !has_prefix(#[trigger] strs(dws@)[j], p@ + ":"@),
        decreases dws.len() - k,
    {
        if crate::text::starts_with(&chars_of(dws[k].as_str()), &prefix) {
            assert(has_prefix(strs(dws@)[k as int], p@ + ":"@));
            return true;
        }
        k = k + 1;
    }
    false
}

fn kept_workspaces_exec(p: &ProjectManifest, dws: &Vec<String>, out: &mut Vec<String>)
    ensures
        strs(final(out)@) == strs(old(out)@) + kept_workspaces(p.name@, p.workspaces@, strs(dws@)),
{
    let ghost start = strs(out@);
    let ghost ws = p.workspaces@;
    let specific = has_specific_exec(dws, p.name.as_str());
    let mut i: usize = 0;
    assert(ws.subrange(0, 0) =~= Seq::<WorkspaceSpec>::empty());
    assert(strs(out@) =~= start + Seq::<Seq<char>>::empty());
    while i < p.workspaces.len()
        invariant
            i <= p.workspaces.len(),
            ws == p.workspaces@,
            specific == has_specific(strs(dws@), p.name@),
            strs(out@) == start + kept_workspaces(p.name@, ws.subrange(0, i as int), strs(dws@)),
        decreases p.workspaces.len() - i,
    {
        assert(ws.subrange(0, i as int + 1).drop_last() =~= ws.subrange(0, i as int));
        let id = id_of(p.name.as_str(), p.workspaces[i].name.as_str());
        if dws.len() == 0 || contains_text(dws, id.as_str()) || !specific {
            let ghost prev = strs(out@);
            out.push(id);
            assert(strs(out@) =~= prev.push(workspace_id(p.name@, ws[i as int].name@)));
        }
        i = i + 1;
    }
    assert(ws.subrange(0, ws.len() as int) =~= ws);
}

fn affected_workspaces_exec(ps: &Vec<ProjectManifest>, all: &Vec<String>, dws: &Vec<String>) -> (r: Vec<String>)
    ensures
        strs(r@) == affected_workspaces(ps@, strs(all@), strs(dws@)),
{
    let mut out: Vec<String> = Vec::new();
    let mut i: usize = 0;
    assert(ps@.subrange(0, 0) =~= Seq::<ProjectManifest>::empty());
    assert(strs(out@) =~= Seq::<Seq<char>>::empty());
    while i < ps.len()
        invariant
            i <= ps.len(),
            strs(out@) == affected_workspaces(ps@.subrange(0, i as int), strs(all@), strs(dws@)),
        decreases ps.len() - i,
    {
        assert(ps@.subrange(0, i as int + 1).drop_last() =~= ps@.subrange(0, i as int));
        if contains_text(all, ps[i].name.as_str()) {
            kept_workspaces_exec(&ps[i], dws, &mut out);
        } else {
            assert(strs(out@) =~= strs(out@) + Seq::<Seq<char>>::empty());
        }
        i = i + 1;
    }
    assert(ps@.subrange(0, ps.len() as int) =~= ps@);
    out
}

fn contains_task(v: &Vec<TaskName>, t: &TaskName) -> (r: bool)
    ensures
        r == task_views(v@).contains(t@),
{
    let mut i: usize = 0;
    while i < v.len()
        invariant
            i <= v.len(),
            forall|k: int| 0 <= k < i ==> task_views(v@)[k] != t@,
        decreases v.len() - i,
    {
        if v[i].same(t) {
            assert(task_views(v@)[i as int] == t@);
            return true;
        }
        i = i + 1;
    }
    false
}

fn command_tasks_exec(p: &str, t: &TaskName, cs: &Vec<TaskCommand>, wset: &Vec<String>, out: &mut Vec<String>)
    ensures
        strs(final(out)@) == strs(old(out)@) + command_tasks(p@, t@, cs@, strs(wset@)),
{
    let ghost start = strs(out@);
    let mut i: usize = 0;
    assert(cs@.subrange(0, 0) =~= Seq::<TaskCommand>::empty());
    assert(strs(out@) =~= start + Seq::<Seq<char>>::empty());
    while i < cs.len()
        invariant
            i <= cs.len(),
            strs(out@) == start + command_tasks(p@, t@, cs@.subrange(0, i as int), strs(wset@)),
        decreases cs.len() - i,
    {
        assert(cs@.subrange(0, i as int + 1).drop_last() =~= cs@.subrange(0, i as int));
        let wid = id_of(p, cs[i].workspace.as_str());
        if !(wset.len() > 0 && !contains_text(wset, wid.as_str())) {
            let mut id = concat3(p, ":", cs[i].workspace.as_str());
            crate::text::push_str(&mut id, ":");
            crate::text::push_str(&mut id, t.as_str());
            let ghost prev = strs(out@);
            out.push(id);
            assert(strs(out@) =~= prev.push(task_id(p@, cs@[i as int].workspace@, t@)));
        }
        i = i + 1;
    }
    assert(cs@.subrange(0, cs.len() as int) =~= cs@);
}

fn project_tasks_exec(p: &ProjectManifest, requested: &Vec<TaskName>, wset: &Vec<String>, out: &mut Vec<String>)
    ensures
        strs(final(out)@) == strs(old(out)@) + project_tasks(p.name@, p.tasks@, task_views(requested@), strs(wset@)),
{
    let ghost start = strs(out@);
    let ghost ts = p.tasks@;
    let mut i: usize = 0;
    assert(ts.subrange(0, 0) =~= Seq::<(TaskName, Vec<TaskCommand>)>::empty());
    assert(strs(out@) =~= start + Seq::<Seq<char>>::empty());
    while i < p.tasks.len()
        invariant
            i <= p.tasks.len(),
            ts == p.tasks@,
            strs(out@) == start + project_tasks(p.name@, ts.subrange(0, i as int), task_views(requested@), strs(wset@)),
        decreases p.tasks.len() - i,
    {
        assert(ts.subrange(0, i as int + 1).drop_last() =~= ts.subrange(0, i as int));
        let entry = &p.tasks[i];
        if !(requested.len() > 0 && !contains_task(requested, &entry.0)) {
            let ghost prev = strs(out@);
            command_tasks_exec(p.name.as_str(), &entry.0, &entry.1, wset, out);
            assert(strs(out@) =~= start + (project_tasks(p.name@, ts.subrange(0, i as int), task_views(requested@), strs(wset@))
                + command_tasks(p.name@, ts[i as int].0@, ts[i as int].1@, strs(wset@))));
        } else {
            assert(strs(out@) =~= start + (project_tasks(p.name@, ts.subrange(0, i as int), task_views(requested@), strs(wset@))
                + Seq::<Seq<char>>::empty()));
        }
        i = i + 1;
    }
    assert(ts.subrange(0, ts.len() as int) =~= ts);
}

fn affected_tasks_exec(ps: &Vec<ProjectManifest>, all: &Vec<String>, requested: &Vec<TaskName>, wset: &Vec<String>) -> (r: Vec<String>)
    ensures
        strs(r@) == affected_tasks(ps@, strs(all@), task_views(requested@), strs(wset@)),
{
    let mut out: Vec<String> = Vec::new();
    let mut i: usize = 0;
    assert(ps@.subrange(0, 0) =~= Seq::<ProjectManifest>::empty());
    assert(strs(out@) =~= Seq::<Seq<char>>::empty());
    while i < ps.len()
        invariant
            i <= ps.len(),
            strs(out@) == affected_tasks(ps@.subrange(0, i as int), strs(all@), task_views(requested@), strs(wset@)),
        decreases ps.len() - i,
    {
        assert(ps@.subrange(0, i as int + 1).drop_last() =~= ps@.subrange(0, i as int));
        if contains_text(all, ps[i].name.as_str()) {
            project_tasks_exec(&ps[i], requested, wset, &mut out);
        } else {
            assert(strs(out@) =~= strs(out@) + Seq::<Seq<char>>::empty());
        }
        i = i + 1;
    }
    assert(ps@.subrange(0, ps.len() as int) =~= ps@);
    out
}


// ---------------------------------------------------------------------------
// Collecting the effects of the changed files
// ---------------------------------------------------------------------------

/// Effects collected so far, with the names and owners also kept as typed
/// values.
struct Tally {
    names: Vec<String>,
    name_pool: Vec<ProjectName>,
    reasons: Vec<AffectedReason>,
    owners: Vec<String>,
    owner_pool: Vec<OwnerHandle>,
    workspaces: Vec<String>,
}

impl Tally {
    spec fn effects(&self) -> Effects {
        Effects {
            names: strs(self.names@),
            reasons: reason_views(self.reasons@),
            owners: strs(self.owners@),
            workspaces: strs(self.workspaces@),
        }
    }

    spec fn wf(&self) -> bool {
        name_views(self.name_pool@) == strs(self.names@) && owner_views(self.owner_pool@) == strs(self.owners@)
    }

    fn add_name(&mut self, n: &ProjectName)
        requires
            old(self).wf(),
        ensures
            final(self).wf(),
            final(self).effects() == (Effects { names: old(self).effects().names.push(n@), ..old(self).effects() }),
    {
        let ghost before = *self;
        self.names.push(owned(n.as_str()));
        self.name_pool.push(n.duplicate());
        assert(strs(self.names@) =~= strs(before.names@).push(n@));
        assert(name_views(self.name_pool@) =~= name_views(before.name_pool@).push(n@));
        assert(self.effects() =~= (Effects { names: before.effects().names.push(n@), ..before.effects() }));
    }

    fn add_reason(&mut self, f: &RepoRelativePath, n: &ProjectName, message: &str)
        requires
            old(self).wf(),
        ensures
            final(self).wf(),
            final(self).effects() == (Effects { reasons: old(self).effects().reasons.push((f@, n@, message@)), ..old(self).effects() }),
    {
        let ghost before = *self;
        self.reasons.push(crate::runner::reason(f, n, message));
        assert(reason_views(self.reasons@) =~= reason_views(before.reasons@).push((f@, n@, message@)));
        assert(self.effects() =~= (Effects { reasons: before.effects().reasons.push((f@, n@, message@)), ..before.effects() }));
    }

    fn add_owners(&mut self, owners: &Vec<OwnerHandle>)
        requires
            old(self).wf(),
        ensures
            final(self).wf(),
            final(self).effects() == (Effects { owners: old(self).effects().owners + owner_views(owners@), ..old(self).effects() }),
    {
        let ghost before = *self;
        let mut i: usize = 0;
        assert(owner_views(owners@).subrange(0, 0) =~= Seq::<Seq<char>>::empty());
        assert(strs(self.owners@) =~= strs(before.owners@) + owner_views(owners@).subrange(0, 0));
        while i < owners.len()
            invariant
                i <= owners.len(),
                self.wf(),
                self.names == before.names,
                self.reasons == before.reasons,
                self.workspaces == before.workspaces,
                strs(self.owners@) == strs(before.owners@) + owner_views(owners@).subrange(0, i as int),
            decreases owners.len() - i,
        {
            let ghost prev = strs(self.owners@);
            let ghost pool = owner_views(self.owner_pool@);
            self.owners.push(owned(owners[i].as_str()));
            self.owner_pool.push(owners[i].duplicate());
            assert(strs(self.owners@) =~= prev.push(owners@[i as int]@));
            assert(owner_views(self.owner_pool@) =~= pool.push(owners@[i as int]@));
            assert(owner_views(owners@).subrange(0, i as int + 1) =~= owner_views(owners@).subrange(0, i as int).push(owners@[i as int]@));
            i = i + 1;
        }
        assert(owner_views(owners@).subrange(0, owners.len() as int) =~= owner_views(owners@));
        assert(self.effects() =~= (Effects { owners: before.effects().owners + owner_views(owners@), ..before.effects() }));
    }

    fn add_workspaces(&mut self, ids: Vec<String>)
        requires
            old(self).wf(),
        ensures
            final(self).wf(),
            final(self).effects() == (Effects { workspaces: old(self).effects().workspaces + strs(ids@), ..old(self).effects() }),
    {
        let ghost before = *self;
        let mut ids = ids;
        let ghost added = strs(ids@);
        self.workspaces.append(&mut ids);
        assert(strs(self.workspaces@) =~= strs(before.workspaces@) + added);
        assert(self.effects() =~= (Effects { workspaces: before.effects().workspaces + added, ..before.effects() }));
    }
}

fn any_glob_covers_exec(gs: &Vec<crate::domain::RepoGlob>, f: &str) -> (r: bool)
    ensures
        r == any_glob_covers(glob_views(gs@), f@),
{
    let mut k: usize = 0;
    while k < gs.len()
        invariant
            k <= gs.len(),
            forall|j: int| 0 <= j < k ==> !simple_glob_match(#[trigger] glob_views(gs@)[j], f@),
        decreases gs.len() - k,
    {
        if glob_match(gs[k].as_str(), f) {
            assert(simple_glob_match(glob_views(gs@)[k as int], f@));
            return true;
        }
        k = k + 1;
    }
    false
}

fn proto_affects_exec(p: &ProjectManifest, f: &RepoRelativePath) -> (r: bool)
    ensures
        r == proto_affects(*p, f@),
{
    let prefix = chars_of("protos/");
    proof {
        reveal_strlit("protos/");
    }
    if !crate::text::starts_with(&chars_of(f.as_str()), &prefix) {
        return false;
    }
    let ghost a = glob_views(p.protos.owns@);
    let ghost b = glob_views(p.protos.consumes@);
    let ghost ab = glob_views(p.protos.owns@) + glob_views(p.protos.consumes@);
    if any_glob_covers_exec(&p.protos.owns, f.as_str()) {
        let ghost k = choose|k: int| 0 <= k < a.len() && simple_glob_match(#[trigger] a[k], f@);
        assert(ab[k] == a[k]);
        return true;
    }
    if any_glob_covers_exec(&p.protos.consumes, f.as_str()) {
        let ghost k = choose|k: int| 0 <= k < b.len() && simple_glob_match(#[trigger] b[k], f@);
        assert(ab[a.len() + k] == b[k]);
        return true;
    }
    assert(!any_glob_covers(ab, f@)) by {
        if any_glob_covers(ab, f@) {
            let k = choose|k: int| 0 <= k < ab.len() && simple_glob_match(#[trigger] ab[k], f@);
            if k < a.len() {
                assert(ab[k] == a[k]);
            } else {
                assert(ab[k] == b[k - a.len()]);
            }
        }
    }
    false
}

fn file_workspaces_exec(p: &ProjectManifest, f: &RepoRelativePath) -> (r: Vec<String>)
    ensures
        strs(r@) == file_workspaces(*p, f@),
{
    let ghost ws = p.workspaces@;
    let mut matched: Vec<String> = Vec::new();
    let mut all: Vec<String> = Vec::new();
    let mut i: usize = 0;
    assert(ws.subrange(0, 0) =~= Seq::<WorkspaceSpec>::empty());
    assert(strs(matched@) =~= Seq::<Seq<char>>::empty());
    while i < p.workspaces.len()
        invariant
            i <= p.workspaces.len(),
            ws == p.workspaces@,
            strs(matched@) == matched_workspaces(*p, ws.subrange(0, i as int), f@),
            strs(all@) == all_workspaces(p.name@, ws.subrange(0, i as int)),
        decreases p.workspaces.len() - i,
    {
        assert(ws.subrange(0, i as int + 1).drop_last() =~= ws.subrange(0, i as int));
        let w = &p.workspaces[i];
        let id = id_of(p.name.as_str(), w.name.as_str());
        let ghost pa = strs(all@);
        all.push(owned(id.as_str()));
        assert(strs(all@) =~= pa.push(id@));
        let hit = match p.path.join_project(&w.root) {
            Ok(root) => f.starts_with(&root),
            Err(_) => false,
        };
        if hit {
            let ghost pm = strs(matched@);
            matched.push(id);
            assert(strs(matched@) =~= pm.push(workspace_id(p.name@, ws[i as int].name@)));
        }
        i = i + 1;
    }
    assert(ws.subrange(0, ws.len() as int) =~= ws);
    if matched.len() > 0 {
        matched
    } else {
        all
    }
}

fn add_project_effects(t: &mut Tally, p: &ProjectManifest, f: &RepoRelativePath)
    requires
        old(t).wf(),
    ensures
        final(t).wf(),
        final(t).effects() =~= then(old(t).effects(), project_effects(*p, f@)),
{
    let ghost e0 = t.effects();
    let inside = p.contains_path(f);
    let proto = proto_affects_exec(p, f);
    proof {
        reveal_strlit("project file changed");
        reveal_strlit("proto ownership or consumption");
    }
    if inside {
        t.add_name(&p.name);
        t.add_workspaces(file_workspaces_exec(p, f));
        t.add_reason(f, &p.name, "project file changed");
        t.add_owners(&p.owners);
    }
    if proto {
        t.add_name(&p.name);
        t.add_reason(f, &p.name, "proto ownership or consumption");
        t.add_owners(&p.owners);
    }
    let ghost e = project_effects(*p, f@);
    assert(t.effects().names =~= e0.names + e.names);
    assert(t.effects().reasons =~= e0.reasons + e.reasons);
    assert(t.effects().owners =~= e0.owners + e.owners);
    assert(t.effects().workspaces =~= e0.workspaces + e.workspaces);
}

fn add_file_effects(t: &mut Tally, ps: &Vec<ProjectManifest>, f: &RepoRelativePath, wide: bool)
    requires
        old(t).wf(),
    ensures
        final(t).wf(),
        final(t).effects() =~= then(old(t).effects(), file_effects(ps@, f@, wide)),
{
    let ghost e0 = t.effects();
    let mut i: usize = 0;
    assert(ps@.subrange(0, 0) =~= Seq::<ProjectManifest>::empty());
    assert(t.effects() =~= then(e0, file_effects(ps@.subrange(0, 0), f@, wide)));
    while i < ps.len()
        invariant
            i <= ps.len(),
            t.wf(),
            t.effects() =~= then(e0, file_effects(ps@.subrange(0, i as int), f@, wide)),
        decreases ps.len() - i,
    {
        assert(ps@.subrange(0, i as int + 1).drop_last() =~= ps@.subrange(0, i as int));
        let ghost before = t.effects();
        if wide {
            proof {
                reveal_strlit("repo-wide change");
            }
            t.add_name(&ps[i].name);
            t.add_reason(f, &ps[i].name, "repo-wide change");
            assert(t.effects() =~= then(before, wide_effects(ps@[i as int], f@)));
        } else {
            add_project_effects(t, &ps[i], f);
        }
        i = i + 1;
    }
    assert(ps@.subrange(0, ps.len() as int) =~= ps@);
}

fn has_prefix_str(s: &str, p: &str) -> (r: bool)
    ensures
        r == has_prefix(s@, p@),
{
    crate::text::starts_with(&chars_of(s), &chars_of(p))
}

fn repo_wide_change_exec(f: &RepoRelativePath, second_skills_root: &RepoRelativePath) -> (r: bool)
    ensures
        r == repo_wide_change(f@, second_skills_root@),
{
    proof {
        reveal_strlit("repo.yaml");
        reveal_strlit("templates/");
        reveal_strlit(".agents/skills/");
        reveal_strlit("/");
        reveal_strlit("crates/");
        reveal_strlit("apps/repoctl-cli/");
    }
    let second = concat2(second_skills_root.as_str(), "/");
    str_eq(f.as_str(), "repo.yaml") || has_prefix_str(f.as_str(), "templates/") || has_prefix_str(f.as_str(), ".agents/skills/")
        || has_prefix_str(f.as_str(), second.as_str()) || has_prefix_str(f.as_str(), "crates/")
        || has_prefix_str(f.as_str(), "apps/repoctl-cli/")
}

fn push_file_flags(flags: &mut Vec<String>, f: &RepoRelativePath)
    ensures
        strs(final(flags)@) == strs(old(flags)@) + file_flags(f@),
{
    proof {
        reveal_strlit("core-infra/");
        reveal_strlit("/iac/stacks/prod");
        reveal_strlit("core-infra");
        reveal_strlit("prod-iac");
    }
    let ghost start = strs(flags@);
    let a = has_prefix_str(f.as_str(), "core-infra/");
    if a {
        flags.push(owned("core-infra"));
    }
    let ghost mid = strs(flags@);
    assert(mid =~= start + (if a { seq!["core-infra"@] } else { Seq::<Seq<char>>::empty() }));
    let b = contains_seq(&chars_of(f.as_str()), &chars_of("/iac/stacks/prod"));
    if b {
        flags.push(owned("prod-iac"));
    }
    assert(strs(flags@) =~= mid + (if b { seq!["prod-iac"@] } else { Seq::<Seq<char>>::empty() }));
}


// ---------------------------------------------------------------------------
// The report
// ---------------------------------------------------------------------------

/// Every text is a valid project name.
pub open spec fn all_named(v: Seq<Seq<char>>) -> bool {
    forall|k: int| 0 <= k < v.len() ==> name_ok(#[trigger] v[k])
}

proof fn lemma_sweep_named(es: Seq<EdgeModel>, direct: Seq<Seq<char>>, found: Seq<Seq<char>>)
    requires
        all_named(found),
    ensures
        all_named(sweep(es, direct, found).0),
    decreases es.len(),
{
    if es.len() > 0 {
        lemma_sweep_named(es.drop_last(), direct, found);
        let prev = sweep(es.drop_last(), direct, found);
        match edge_step(es.last(), direct, prev.0) {
            Some(link) => {
                let nxt = prev.0.push(link.1);
                assert forall|k: int| 0 <= k < nxt.len() implies name_ok(#[trigger] nxt[k]) by {
                    if k < prev.0.len() {
                        assert(nxt[k] == prev.0[k]);
                    }
                }
            },
            None => {},
        }
    }
}

proof fn lemma_propagate_named(es: Seq<EdgeModel>, direct: Seq<Seq<char>>, found: Seq<Seq<char>>)
    requires
        all_named(found),
    ensures
        all_named(propagate(es, direct, found).0),
    decreases open_edges(es, direct, found),
{
    let r = sweep(es, direct, found);
    if r.0.len() > found.len() {
        lemma_sweep_progress(es, direct, found);
        lemma_sweep_named(es, direct, found);
        lemma_propagate_named(es, direct, r.0);
    }
}

fn names_of(v: &Vec<String>) -> (r: Vec<ProjectName>)
    requires
        all_named(strs(v@)),
    ensures
        name_views(r@) == strs(v@),
{
    let mut out: Vec<ProjectName> = Vec::new();
    let mut i: usize = 0;
    while i < v.len()
        invariant
            i <= v.len(),
            all_named(strs(v@)),
            name_views(out@) == strs(v@).subrange(0, i as int),
        decreases v.len() - i,
    {
        assert(name_ok(strs(v@)[i as int]));
        match ProjectName::new(v[i].as_str()) {
            Ok(n) => {
                let ghost prev = name_views(out@);
                out.push(n);
                assert(name_views(out@) =~= prev.push(strs(v@)[i as int]));
            },
            Err(_) => {
                assert(false);
            },
        }
        assert(strs(v@).subrange(0, i as int + 1) =~= strs(v@).subrange(0, i as int).push(strs(v@)[i as int]));
        i = i + 1;
    }
    assert(strs(v@).subrange(0, v.len() as int) =~= strs(v@));
    out
}

fn pick_names(sorted: &Vec<String>, pool: &Vec<ProjectName>) -> (r: Vec<ProjectName>)
    requires
        forall|k: int| 0 <= k < sorted.len() ==> name_views(pool@).contains(#[trigger] strs(sorted@)[k]),
    ensures
        name_views(r@) == strs(sorted@),
{
    let mut out: Vec<ProjectName> = Vec::new();
    let mut i: usize = 0;
    while i < sorted.len()
        invariant
            i <= sorted.len(),
            forall|k: int| 0 <= k < sorted.len() ==> name_views(pool@).contains(#[trigger] strs(sorted@)[k]),
            name_views(out@) == strs(sorted@).subrange(0, i as int),
        decreases sorted.len() - i,
    {
        assert(name_views(pool@).contains(strs(sorted@)[i as int]));
        let mut j: usize = 0;
        while j < pool.len() && !str_eq(pool[j].as_str(), sorted[i].as_str())
            invariant
                j <= pool.len(),
                i < sorted.len(),
                forall|m: int| 0 <= m < j ==> name_views(pool@)[m] != strs(sorted@)[i as int],
            decreases pool.len() - j,
        {
            j = j + 1;
        }
        if j == pool.len() {
            let ghost m = choose|m: int| 0 <= m < pool@.len() && name_views(pool@)[m] == strs(sorted@)[i as int];
            assert(false);
        }
        let ghost prev = name_views(out@);
        out.push(pool[j].duplicate());
        assert(name_views(out@) =~= prev.push(strs(sorted@)[i as int]));
        assert(strs(sorted@).subrange(0, i as int + 1) =~= strs(sorted@).subrange(0, i as int).push(strs(sorted@)[i as int]));
        i = i + 1;
    }
    assert(strs(sorted@).subrange(0, sorted.len() as int) =~= strs(sorted@));
    out
}

fn pick_owners(sorted: &Vec<String>, pool: &Vec<OwnerHandle>) -> (r: Vec<OwnerHandle>)
    requires
        forall|k: int| 0 <= k < sorted.len() ==> owner_views(pool@).contains(#[trigger] strs(sorted@)[k]),
    ensures
        owner_views(r@) == strs(sorted@),
{
    let mut out: Vec<OwnerHandle> = Vec::new();
    let mut i: usize = 0;
    while i < sorted.len()
        invariant
            i <= sorted.len(),
            forall|k: int| 0 <= k < sorted.len() ==> owner_views(pool@).contains(#[trigger] strs(sorted@)[k]),
            owner_views(out@) == strs(sorted@).subrange(0, i as int),
        decreases sorted.len() - i,
    {
        assert(owner_views(pool@).contains(strs(sorted@)[i as int]));
        let mut j: usize = 0;
        while j < pool.len() && !str_eq(pool[j].as_str(), sorted[i].as_str())
            invariant
                j <= pool.len(),
                i < sorted.len(),
                forall|m: int| 0 <= m < j ==> owner_views(pool@)[m] != strs(sorted@)[i as int],
            decreases pool.len() - j,
        {
            j = j + 1;
        }
        if j == pool.len() {
            let ghost m = choose|m: int| 0 <= m < pool@.len() && owner_views(pool@)[m] == strs(sorted@)[i as int];
            assert(false);
        }
        let ghost prev = owner_views(out@);
        out.push(pool[j].duplicate());
        assert(owner_views(out@) =~= prev.push(strs(sorted@)[i as int]));
        assert(strs(sorted@).subrange(0, i as int + 1) =~= strs(sorted@).subrange(0, i as int).push(strs(sorted@)[i as int]));
        i = i + 1;
    }
    assert(strs(sorted@).subrange(0, sorted.len() as int) =~= strs(sorted@));
    out
}

/// Views of changed files.
pub open spec fn file_views(v: Seq<RepoRelativePath>) -> Seq<Seq<char>> {
    v.map_values(|p: RepoRelativePath| p@)
}

/// Effects of the changed files on the snapshot's projects.
pub open spec fn snapshot_effects(s: RepoSnapshot, fs: Seq<Seq<char>>) -> Effects {
    files_effects(s.projects@, fs, s.repo_manifest.claude_skills_root@)
}

/// Directly affected projects, sorted and without repeats.
pub open spec fn direct_projects(s: RepoSnapshot, fs: Seq<Seq<char>>) -> Seq<Seq<char>> {
    sorted_distinct(snapshot_effects(s, fs).names)
}

/// Propagation from the directly affected projects along the graph's
/// dependency edges.
pub open spec fn propagation(s: RepoSnapshot, fs: Seq<Seq<char>>) -> (Seq<Seq<char>>, Seq<(Seq<char>, Seq<char>)>) {
    propagate(edge_views(s.graph.edges@), direct_projects(s, fs), Seq::empty())
}

/// Reported workspaces.
pub open spec fn report_workspaces(s: RepoSnapshot, fs: Seq<Seq<char>>) -> Seq<Seq<char>> {
    affected_workspaces(
        s.projects@,
        direct_projects(s, fs) + propagation(s, fs).0,
        sorted_distinct(snapshot_effects(s, fs).workspaces),
    )
}

/// The affected report for the changed files and requested tasks.
pub open spec fn is_affected_report(s: RepoSnapshot, fs: Seq<Seq<char>>, requested: Seq<Seq<char>>, r: AffectedReport) -> bool {
    let e = snapshot_effects(s, fs);
    let p = propagation(s, fs);
    &&& name_views(r.directly_affected@) == direct_projects(s, fs)
    &&& name_views(r.transitively_affected@) == sorted_distinct(p.0)
    &&& strs(r.workspaces@) == report_workspaces(s, fs)
    &&& strs(r.tasks@) == sorted_distinct(affected_tasks(s.projects@, direct_projects(s, fs) + p.0, requested, report_workspaces(s, fs)))
    &&& strs(r.risk_flags@) == sorted_distinct(files_flags(fs, s.repo_manifest.claude_skills_root@))
    &&& reason_views(r.reasons@) == e.reasons + link_reasons(p.1)
    &&& owner_views(r.suggested_reviewers@) == sorted_distinct(e.owners)
    &&& r.diagnostics@.len() == 0
}

/// Computes what the changed files affect: the projects they touch
/// directly (every project for a repo-wide change), those reached through
/// reverse dependencies, their workspaces and requested tasks, risk flags,
/// explanations and the owners of the touched projects.
pub fn compute_affected(snapshot: &RepoSnapshot, changed_files: &Vec<RepoRelativePath>, requested_tasks: &Vec<TaskName>) -> (r: AffectedReport)
    ensures
        is_affected_report(*snapshot, file_views(changed_files@), task_views(requested_tasks@), r),
{
    let ghost fs = file_views(changed_files@);
    let ghost second = snapshot.repo_manifest.claude_skills_root@;
    let mut t = Tally {
        names: Vec::new(),
        name_pool: Vec::new(),
        reasons: Vec::new(),
        owners: Vec::new(),
        owner_pool: Vec::new(),
        workspaces: Vec::new(),
    };
    let mut flags: Vec<String> = Vec::new();
    let mut i: usize = 0;
    assert(t.wf()) by {
        assert(name_views(t.name_pool@) =~= strs(t.names@));
        assert(owner_views(t.owner_pool@) =~= strs(t.owners@));
    }
    assert(fs.subrange(0, 0) =~= Seq::<Seq<char>>::empty());
    assert(t.effects() =~= no_effects());
    assert(strs(flags@) =~= Seq::<Seq<char>>::empty());
    while i < changed_files.len()
        invariant
            i <= changed_files.len(),
            fs == file_views(changed_files@),
            second == snapshot.repo_manifest.claude_skills_root@,
            t.wf(),
            t.effects() =~= files_effects(snapshot.projects@, fs.subrange(0, i as int), second),
            strs(flags@) == files_flags(fs.subrange(0, i as int), second),
        decreases changed_files.len() - i,
    {
        let f = &changed_files[i];
        assert(fs.subrange(0, i as int + 1).drop_last() =~= fs.subrange(0, i as int));
        assert(fs.subrange(0, i as int + 1).last() == f@);
        let wide = repo_wide_change_exec(f, &snapshot.repo_manifest.claude_skills_root);
        if !wide {
            push_file_flags(&mut flags, f);
        }
        add_file_effects(&mut t, &snapshot.projects, f, wide);
        i = i + 1;
    }
    assert(fs.subrange(0, changed_files.len() as int) =~= fs);
    let ghost e = t.effects();
    let direct = sort_dedup(&t.names);
    let mut found: Vec<String> = Vec::new();
    let Tally { names, name_pool, reasons, owners, owner_pool, workspaces: direct_ws } = t;
    let mut reasons = reasons;
    assert(strs(found@) =~= Seq::<Seq<char>>::empty());
    propagate_exec(&snapshot.graph.edges, &direct, &mut found, &mut reasons);
    let mut all: Vec<String> = Vec::new();
    let mut k: usize = 0;
    while k < direct.len()
        invariant
            k <= direct.len(),
            strs(all@) == strs(direct@).subrange(0, k as int),
        decreases direct.len() - k,
    {
        let ghost prev = strs(all@);
        all.push(owned(direct[k].as_str()));
        assert(strs(all@) =~= prev.push(strs(direct@)[k as int]));
        assert(strs(direct@).subrange(0, k as int + 1) =~= strs(direct@).subrange(0, k as int).push(strs(direct@)[k as int]));
        k = k + 1;
    }
    let mut k: usize = 0;
    assert(strs(direct@).subrange(0, direct.len() as int) =~= strs(direct@));
    while k < found.len()
        invariant
            k <= found.len(),
            strs(all@) == strs(direct@) + strs(found@).subrange(0, k as int),
        decreases found.len() - k,
    {
        let ghost prev = strs(all@);
        all.push(owned(found[k].as_str()));
        assert(strs(all@) =~= prev.push(strs(found@)[k as int]));
        assert(strs(found@).subrange(0, k as int + 1) =~= strs(found@).subrange(0, k as int).push(strs(found@)[k as int]));
        k = k + 1;
    }
    assert(strs(found@).subrange(0, found.len() as int) =~= strs(found@));
    let dws = sort_dedup(&direct_ws);
    let report_ws = affected_workspaces_exec(&snapshot.projects, &all, &dws);
    let task_list = affected_tasks_exec(&snapshot.projects, &all, requested_tasks, &report_ws);
    let tasks = sort_dedup(&task_list);
    let risk_flags = sort_dedup(&flags);
    proof {
        assert forall|m: int| 0 <= m < direct.len() implies name_views(name_pool@).contains(#[trigger] strs(direct@)[m]) by {
            assert(strs(direct@).to_set().contains(strs(direct@)[m]));
        }
        lemma_propagate_named(edge_views(snapshot.graph.edges@), strs(direct@), Seq::empty());
    }
    let directly_affected = pick_names(&direct, &name_pool);
    let found_sorted = sort_dedup(&found);
    proof {
        assert forall|m: int| 0 <= m < found_sorted.len() implies name_ok(#[trigger] strs(found_sorted@)[m]) by {
            assert(strs(found_sorted@).to_set().contains(strs(found_sorted@)[m]));
            assert(strs(found@).to_set().contains(strs(found_sorted@)[m]));
            let j = choose|j: int| 0 <= j < strs(found@).len() && strs(found@)[j] == strs(found_sorted@)[m];
        }
    }
    let transitively_affected = names_of(&found_sorted);
    let reviewers = sort_dedup(&owners);
    proof {
        assert forall|m: int| 0 <= m < reviewers.len() implies owner_views(owner_pool@).contains(#[trigger] strs(reviewers@)[m]) by {
            assert(strs(reviewers@).to_set().contains(strs(reviewers@)[m]));
        }
    }
    let suggested_reviewers = pick_owners(&reviewers, &owner_pool);
    AffectedReport {
        directly_affected,
        transitively_affected,
        workspaces: report_ws,
        tasks,
        risk_flags,
        reasons,
        suggested_reviewers,
        diagnostics: Vec::new(),
    }
}


// ---------------------------------------------------------------------------
// Changed files
// ---------------------------------------------------------------------------

/// Where the changed files of an affected request come from.
#[derive(Debug, PartialEq, Eq)]
pub enum ChangedFilesSource {
    /// The files listed in the request.
    Explicit,
    /// `git diff --name-only <base> <head>`.
    GitDiff { base: String, head: String },
    /// No files.
    Nothing,
}

/// Listed files win; otherwise a diff between two refs when both are
/// given; otherwise no files.
pub fn changed_files_source(explicit: &Vec<RepoRelativePath>, base: Option<&str>, head: Option<&str>) -> (r: ChangedFilesSource)
    ensures
        explicit@.len() > 0 ==> r == ChangedFilesSource::Explicit,
        explicit@.len() == 0 ==> match (base, head) {
            (Some(b), Some(h)) => r matches ChangedFilesSource::GitDiff { base: rb, head: rh } && rb@ == b@ && rh@ == h@,
            _ => r == ChangedFilesSource::Nothing,
        },
{
    if explicit.len() > 0 {
        return ChangedFilesSource::Explicit;
    }
    match (base, head) {
        (Some(b), Some(h)) => ChangedFilesSource::GitDiff { base: owned(b), head: owned(h) },
        _ => ChangedFilesSource::Nothing,
    }
}

/// A line without the `\r` of a `\r\n` terminator.
pub open spec fn strip_cr(p: Seq<char>) -> Seq<char> {
    if p.len() > 0 && p.last() == '\r' {
        p.drop_last()
    } else {
        p
    }
}

/// The lines of a text as `str::lines` yields them: split at `\n`, the `\r`
/// of `\r\n` dropped, no empty line after a final terminator.
pub open spec fn text_lines(s: Seq<char>) -> Seq<Seq<char>> {
    let ps = split_on(s, '\n');
    let ended = ps.drop_last().map_values(|p: Seq<char>| strip_cr(p));
    if ps.last().len() == 0 {
        ended
    } else {
        ended.push(ps.last())
    }
}

/// Holds more than whitespace.
pub open spec fn non_blank() -> spec_fn(Seq<char>) -> bool {
    |l: Seq<char>| trim(l).len() > 0
}

/// The lines that hold more than whitespace.
pub open spec fn listed_lines(s: Seq<char>) -> Seq<Seq<char>> {
    text_lines(s).filter(non_blank())
}

/// The first line that is not a valid repo-relative path, by its error.
pub open spec fn first_bad_path(ls: Seq<Seq<char>>) -> Option<DiagnosticModel>
    decreases ls.len(),
{
    if ls.len() == 0 {
        None
    } else {
        match first_bad_path(ls.drop_last()) {
            Some(d) => Some(d),
            None => match normalized_path(ls.last(), false) {
                Err(d) => Some(d),
                Ok(_) => None,
            },
        }
    }
}

fn strip_cr_exec(p: &Vec<char>) -> (r: Vec<char>)
    ensures
        r@ == strip_cr(p@),
{
    if p.len() > 0 && p[p.len() - 1] == '\r' {
        crate::text::slice_chars(p, 0, p.len() - 1)
    } else {
        crate::text::slice_chars(p, 0, p.len())
    }
}

/// Reads the output of `git diff --name-only`: every line that holds more
/// than whitespace must be a valid repo-relative path.
pub fn changed_files_from_diff(stdout: &str) -> (r: Result<Vec<RepoRelativePath>, RepoctlError>)
    ensures
        match r {
            Ok(v) => first_bad_path(listed_lines(stdout@)) is None
                && v@.len() == listed_lines(stdout@).len()
                && forall|k: int| 0 <= k < v@.len() ==> normalized_path(listed_lines(stdout@)[k], false) == Ok::<Seq<char>, DiagnosticModel>((#[trigger] v@[k])@),
            Err(e) => match first_bad_path(listed_lines(stdout@)) {
                Some(d) => error_diagnostics(e) == seq![d],
                None => false,
            },
        },
{
    let parts = split_exec(&chars_of(stdout), '\n');
    let ghost ps = split_on(stdout@, '\n');
    proof {
        crate::text::lemma_split_acc_len(stdout@, '\n');
    }
    let mut lines: Vec<Vec<char>> = Vec::new();
    let mut i: usize = 0;
    while i + 1 < parts.len()
        invariant
            i + 1 <= parts.len(),
            pieces(parts@) == ps,
            pieces(lines@) == ps.drop_last().subrange(0, i as int).map_values(|p: Seq<char>| strip_cr(p)),
        decreases parts.len() - i,
    {
        let ghost prev = pieces(lines@);
        lines.push(strip_cr_exec(&parts[i]));
        assert(pieces(lines@) =~= prev.push(strip_cr(ps[i as int])));
        assert(ps.drop_last().subrange(0, i as int + 1).map_values(|p: Seq<char>| strip_cr(p))
            =~= ps.drop_last().subrange(0, i as int).map_values(|p: Seq<char>| strip_cr(p)).push(strip_cr(ps[i as int])));
        i = i + 1;
    }
    assert(ps.drop_last().subrange(0, ps.len() - 1) =~= ps.drop_last());
    let last = &parts[parts.len() - 1];
    assert(last@ == ps.last());
    if last.len() > 0 {
        let ghost prev = pieces(lines@);
        let copy = crate::text::slice_chars(last, 0, last.len());
        assert(copy@ =~= ps.last());
        lines.push(copy);
        assert(pieces(lines@) =~= prev.push(ps.last()));
    }
    assert(pieces(lines@) == text_lines(stdout@));
    let ghost all = pieces(lines@);
    let ghost keep = non_blank();
    let mut out: Vec<RepoRelativePath> = Vec::new();
    let mut j: usize = 0;
    assert(all.subrange(0, 0).filter(keep) =~= Seq::<Seq<char>>::empty()) by {
        assert(all.subrange(0, 0) =~= Seq::<Seq<char>>::empty());
        Seq::<Seq<char>>::empty().lemma_filter_eq_filter_alt(keep);
    }
    while j < lines.len()
        invariant
            j <= lines.len(),
            all == pieces(lines@),
            all == text_lines(stdout@),
            keep == non_blank(),
            first_bad_path(all.subrange(0, j as int).filter(keep)) is None,
            out@.len() == all.subrange(0, j as int).filter(keep).len(),
            forall|k: int| 0 <= k < out@.len() ==> normalized_path(all.subrange(0, j as int).filter(keep)[k], false) == Ok::<Seq<char>, DiagnosticModel>((#[trigger] out@[k])@),
        decreases lines.len() - j,
    {
        let ghost before = all.subrange(0, j as int).filter(keep);
        proof {
            assert(all.subrange(0, j as int + 1) =~= all.subrange(0, j as int).push(all[j as int]));
            all.subrange(0, j as int).lemma_filter_push(all[j as int], keep);
        }
        let line = &lines[j];
        if crate::text::trim_exec(line).len() > 0 {
            let text = string_of(line);
            let ghost now = before.push(all[j as int]);
            assert(now.drop_last() =~= before);
            assert(keep(all[j as int]));
            assert(text@ == all[j as int]);
            match RepoRelativePath::new(text.as_str()) {
                Ok(p) => {
                    out.push(p);
                    assert(all.subrange(0, j as int + 1).filter(keep) == now);
                },
                Err(d) => {
                    proof {
                        assert(first_bad_path(now) == Some(d@));
                        let rest = all.skip(j as int + 1);
                        assert(all =~= all.subrange(0, j as int + 1) + rest);
                        lemma_first_bad_extends(all.subrange(0, j as int + 1), rest, keep);
                        assert(first_bad_path(all.filter(keep)) == Some(d@));
                        assert(all.filter(keep) == listed_lines(stdout@));
                    }
                    let e = RepoctlError::diagnostic(d);
                    assert(error_diagnostics(e) =~= seq![d@]);
                    return Err(e);
                },
            }
        }
        j = j + 1;
    }
    assert(all.subrange(0, lines.len() as int) =~= all);
    Ok(out)
}

proof fn lemma_first_bad_extends(a: Seq<Seq<char>>, b: Seq<Seq<char>>, keep: spec_fn(Seq<char>) -> bool)
    requires
        first_bad_path(a.filter(keep)) is Some,
    ensures
        first_bad_path((a + b).filter(keep)) == first_bad_path(a.filter(keep)),
    decreases b.len(),
{
    if b.len() > 0 {
        let b0 = b.drop_last();
        lemma_first_bad_extends(a, b0, keep);
        assert(a + b =~= (a + b0).push(b.last()));
        (a + b0).lemma_filter_push(b.last(), keep);
        let f = (a + b0).filter(keep);
        if keep(b.last()) {
            assert(f.push(b.last()).drop_last() =~= f);
        }
    } else {
        assert(a + b =~= a);
    }
}

} // verus!
