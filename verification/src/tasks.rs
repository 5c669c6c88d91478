//! Task planning: the commands a task run executes, prerequisites first,
//! each once, with prerequisite cycles and dangling prerequisites reported.
use vstd::prelude::*;

use crate::diagnostic::{Diagnostic, DiagnosticModel, RepoctlError, error_diagnostics, error_model, with_project_model};
use crate::domain::{
    ProjectManifest, RepoRelativePath, RepoSnapshot, TaskCommand, TaskDependency, TaskName, WorkspaceSpec,
    join_project_spec,
};
use crate::text::{concat2, concat3, owned, push_str, str_eq, strs};
use crate::runner::{empty_env, env_entries};

verus! {

// ---------------------------------------------------------------------------
// Keys
// ---------------------------------------------------------------------------

/// A planned command is identified by (project, workspace, task).
pub type TaskKey = (Seq<char>, Seq<char>, Seq<char>);

/// The key of the `ci`-th command of the `ti`-th task of the `pi`-th project.
pub open spec fn key_at(ps: Seq<ProjectManifest>, pi: int, ti: int, ci: int) -> TaskKey {
    (ps[pi].name@, ps[pi].tasks@[ti].1@[ci].workspace@, ps[pi].tasks@[ti].0@)
}

/// Indices that name a command of a task of a project.
pub open spec fn valid_at(ps: Seq<ProjectManifest>, pi: int, ti: int, ci: int) -> bool {
    &&& 0 <= pi < ps.len()
    &&& 0 <= ti < ps[pi].tasks@.len()
    &&& 0 <= ci < ps[pi].tasks@[ti].1@.len()
}

/// Keys of one task's commands.
pub open spec fn command_keys(p: Seq<char>, t: Seq<char>, cs: Seq<TaskCommand>) -> Seq<TaskKey> {
    cs.map_values(|c: TaskCommand| (p, c.workspace@, t))
}

/// Keys of one project's commands, task by task.
pub open spec fn project_keys(p: Seq<char>, ts: Seq<(TaskName, Vec<TaskCommand>)>) -> Seq<TaskKey>
    decreases ts.len(),
{
    if ts.len() == 0 {
        Seq::empty()
    } else {
        project_keys(p, ts.drop_last()) + command_keys(p, ts.last().0@, ts.last().1@)
    }
}

/// Keys of every command of every project.
pub open spec fn all_keys(ps: Seq<ProjectManifest>) -> Seq<TaskKey>
    decreases ps.len(),
{
    if ps.len() == 0 {
        Seq::empty()
    } else {
        all_keys(ps.drop_last()) + project_keys(ps.last().name@, ps.last().tasks@)
    }
}

proof fn lemma_project_keys_hold(p: Seq<char>, ts: Seq<(TaskName, Vec<TaskCommand>)>, ti: int, ci: int)
    requires
        0 <= ti < ts.len(),
        0 <= ci < ts[ti].1@.len(),
    ensures
        project_keys(p, ts).contains((p, ts[ti].1@[ci].workspace@, ts[ti].0@)),
    decreases ts.len(),
{
    let init = ts.drop_last();
    let ck = command_keys(p, ts.last().0@, ts.last().1@);
    if ti < init.len() {
        lemma_project_keys_hold(p, init, ti, ci);
        assert(init[ti] == ts[ti]);
        let j = choose|j: int| 0 <= j < project_keys(p, init).len() && project_keys(p, init)[j] == (p, ts[ti].1@[ci].workspace@, ts[ti].0@);
        assert(project_keys(p, ts)[j] == project_keys(p, init)[j]);
    } else {
        assert(ck[ci] == (p, ts[ti].1@[ci].workspace@, ts[ti].0@));
        assert(project_keys(p, ts)[project_keys(p, init).len() + ci] == ck[ci]);
    }
}

/// Every command's key is among all the keys.
pub proof fn lemma_key_listed(ps: Seq<ProjectManifest>, pi: int, ti: int, ci: int)
    requires
        valid_at(ps, pi, ti, ci),
    ensures
        all_keys(ps).contains(key_at(ps, pi, ti, ci)),
    decreases ps.len(),
{
    let init = ps.drop_last();
    if pi < init.len() {
        assert(init[pi] == ps[pi]);
        lemma_key_listed(init, pi, ti, ci);
        let j = choose|j: int| 0 <= j < all_keys(init).len() && all_keys(init)[j] == key_at(init, pi, ti, ci);
        assert(all_keys(ps)[j] == all_keys(init)[j]);
    } else {
        let last = ps.last();
        lemma_project_keys_hold(last.name@, last.tasks@, ti, ci);
        let pk = project_keys(last.name@, last.tasks@);
        let j = choose|j: int| 0 <= j < pk.len() && pk[j] == key_at(ps, pi, ti, ci);
        assert(all_keys(ps)[all_keys(init).len() + j] == pk[j]);
    }
}

/// Number of listed keys not on the stack.
pub open spec fn open_keys(u: Seq<TaskKey>, stack: Seq<TaskKey>) -> nat
    decreases u.len(),
{
    if u.len() == 0 {
        0
    } else {
        open_keys(u.drop_last(), stack) + if stack.contains(u.last()) { 0nat } else { 1nat }
    }
}

/// Pushing a listed key that is not on the stack closes at least one key.
pub proof fn lemma_push_closes(u: Seq<TaskKey>, stack: Seq<TaskKey>, k: TaskKey)
    requires
        u.contains(k),
        !stack.contains(k),
    ensures
        open_keys(u, stack.push(k)) < open_keys(u, stack),
    decreases u.len(),
{
    lemma_push_keeps(u.drop_last(), stack, k);
    let init = u.drop_last();
    assert(stack.push(k).contains(k)) by {
        assert(stack.push(k)[stack.len() as int] == k);
    }
    if u.last() != k {
        let j = choose|j: int| 0 <= j < u.len() && u[j] == k;
        assert(init[j] == k);
        lemma_push_closes(init, stack, k);
        if stack.contains(u.last()) {
            let m = choose|m: int| 0 <= m < stack.len() && stack[m] == u.last();
            assert(stack.push(k)[m] == u.last());
        }
    }
}

proof fn lemma_push_keeps(u: Seq<TaskKey>, stack: Seq<TaskKey>, k: TaskKey)
    ensures
        open_keys(u, stack.push(k)) <= open_keys(u, stack),
    decreases u.len(),
{
    if u.len() > 0 {
        lemma_push_keeps(u.drop_last(), stack, k);
        if stack.contains(u.last()) {
            let m = choose|m: int| 0 <= m < stack.len() && stack[m] == u.last();
            assert(stack.push(k)[m] == u.last());
        }
    }
}

// ---------------------------------------------------------------------------
// Steps
// ---------------------------------------------------------------------------

/// A resolved command: which project, workspace and task it belongs to,
/// where it runs and what it runs.
pub struct StepModel {
    pub project: Seq<char>,
    pub workspace: Seq<char>,
    pub task: Seq<char>,
    pub cwd: Seq<char>,
    pub program: Seq<char>,
    pub args: Seq<Seq<char>>,
    pub project_index: int,
    pub workspace_index: int,
}

/// Index of the first element that satisfies `f`.
pub open spec fn first_where<A>(s: Seq<A>, f: spec_fn(A) -> bool) -> Option<int>
    decreases s.len(),
{
    if s.len() == 0 {
        None
    } else {
        match first_where(s.drop_last(), f) {
            Some(i) => Some(i),
            None => if f(s.last()) { Some(s.len() - 1) } else { None },
        }
    }
}

/// What the first match is.
pub proof fn lemma_first_where<A>(s: Seq<A>, f: spec_fn(A) -> bool)
    ensures
        match first_where(s, f) {
            Some(i) => 0 <= i < s.len() && f(s[i]) && forall|j: int| 0 <= j < i ==> !f(#[trigger] s[j]),
            None => forall|j: int| 0 <= j < s.len() ==> !f(#[trigger] s[j]),
        },
    decreases s.len(),
{
    if s.len() > 0 {
        let init = s.drop_last();
        lemma_first_where(init, f);
        match first_where(init, f) {
            Some(i) => {
                assert forall|j: int| 0 <= j < i implies !f(#[trigger] s[j]) by {
                    assert(s[j] == init[j]);
                }
                assert(s[i] == init[i]);
            },
            None => {
                assert forall|j: int| 0 <= j < s.len() - 1 implies !f(#[trigger] s[j]) by {
                    assert(s[j] == init[j]);
                }
            },
        }
    }
}

/// A search of a prefix that ends without a match continues with the next
/// element.
pub proof fn lemma_first_where_step<A>(s: Seq<A>, f: spec_fn(A) -> bool, k: int)
    requires
        0 <= k < s.len(),
        first_where(s.subrange(0, k), f) is None,
    ensures
        first_where(s.subrange(0, k + 1), f) == (if f(s[k]) { Some(k) } else { None::<int> }),
{
    assert(s.subrange(0, k + 1).drop_last() =~= s.subrange(0, k));
}

/// A match found in a prefix is the first match of the whole.
pub proof fn lemma_first_where_prefix<A>(s: Seq<A>, f: spec_fn(A) -> bool, k: int)
    requires
        0 <= k <= s.len(),
        first_where(s.subrange(0, k), f) is Some,
    ensures
        first_where(s, f) == first_where(s.subrange(0, k), f),
    decreases s.len() - k,
{
    if k == s.len() {
        assert(s.subrange(0, k) =~= s);
    } else {
        assert(s.subrange(0, k + 1).drop_last() =~= s.subrange(0, k));
        lemma_first_where_prefix(s, f, k + 1);
    }
}

/// A search that ends without a match over the whole.
pub proof fn lemma_first_where_all<A>(s: Seq<A>, f: spec_fn(A) -> bool)
    ensures
        first_where(s.subrange(0, s.len() as int), f) == first_where(s, f),
{
    assert(s.subrange(0, s.len() as int) =~= s);
}

/// Index of the first workspace with the name.
pub open spec fn find_workspace(ws: Seq<WorkspaceSpec>, name: Seq<char>) -> Option<int> {
    first_where(ws, |w: WorkspaceSpec| w.name@ == name)
}

/// Index of the first project with the name.
pub open spec fn find_project(ps: Seq<ProjectManifest>, name: Seq<char>) -> Option<int> {
    first_where(ps, |p: ProjectManifest| p.name@ == name)
}

/// Index of the first task with the name.
pub open spec fn find_task(ts: Seq<(TaskName, Vec<TaskCommand>)>, name: Seq<char>) -> Option<int> {
    first_where(ts, |t: (TaskName, Vec<TaskCommand>)| t.0@ == name)
}

/// Index of the first command run in the workspace.
pub open spec fn find_command(cs: Seq<TaskCommand>, workspace: Seq<char>) -> Option<int> {
    first_where(cs, |c: TaskCommand| c.workspace@ == workspace)
}

/// The command at the indices, resolved against its workspace.
pub open spec fn build_step(ps: Seq<ProjectManifest>, pi: int, ti: int, ci: int) -> Result<StepModel, DiagnosticModel> {
    let p = ps[pi];
    let t = p.tasks@[ti].0@;
    let c = p.tasks@[ti].1@[ci];
    match find_workspace(p.workspaces@, c.workspace@) {
        None => Err(with_project_model(
            error_model("task.workspace_missing"@, "task `"@ + t + "` references missing workspace `"@ + c.workspace@ + "`"@),
            p.name@,
        )),
        Some(wi) => match join_project_spec(p.path@, p.workspaces@[wi].root@) {
            Err(d) => Err(d),
            Ok(cwd) => Ok(StepModel {
                project: p.name@,
                workspace: c.workspace@,
                task: t,
                cwd,
                program: c.command.program@,
                args: strs(c.command.args@),
                project_index: pi,
                workspace_index: wi,
            }),
        },
    }
}

/// Error for a prerequisite cycle.
pub open spec fn cycle_error(project: Seq<char>) -> DiagnosticModel {
    with_project_model(error_model("task.dependency_cycle"@, "task prerequisite cycle detected"@), project)
}

/// What planning has produced so far: the keys planned and the outcomes in
/// order.
pub struct PlanModel {
    pub seen: Seq<TaskKey>,
    pub out: Seq<Result<StepModel, DiagnosticModel>>,
}

/// The outcome appended.
pub open spec fn emit(st: PlanModel, o: Result<StepModel, DiagnosticModel>) -> PlanModel {
    PlanModel { seen: st.seen, out: st.out.push(o) }
}

/// Plans a command after its prerequisites: nothing when it is planned
/// already, a cycle error when it is on the stack of commands being planned.
pub open spec fn visit(ps: Seq<ProjectManifest>, pi: int, ti: int, ci: int, stack: Seq<TaskKey>, st: PlanModel) -> PlanModel
    decreases open_keys(all_keys(ps), stack), 0nat, 0nat,
{
    if !valid_at(ps, pi, ti, ci) {
        st
    } else {
        let key = key_at(ps, pi, ti, ci);
        if st.seen.contains(key) {
            st
        } else if stack.contains(key) {
            emit(st, Err(cycle_error(ps[pi].name@)))
        } else {
            proof {
                lemma_key_listed(ps, pi, ti, ci);
                lemma_push_closes(all_keys(ps), stack, key);
            }
            let deps = ps[pi].tasks@[ti].1@[ci].depends_on@;
            let after = visit_deps(ps, deps, deps.len(), stack.push(key), st);
            PlanModel { seen: after.seen.push(key), out: after.out.push(build_step(ps, pi, ti, ci)) }
        }
    }
}

/// Plans the first `n` prerequisites in order.
pub open spec fn visit_deps(ps: Seq<ProjectManifest>, deps: Seq<TaskDependency>, n: nat, stack: Seq<TaskKey>, st: PlanModel) -> PlanModel
    decreases open_keys(all_keys(ps), stack), 1nat, n,
{
    if n == 0 || n > deps.len() {
        st
    } else {
        visit_dep(ps, deps[n - 1], stack, visit_deps(ps, deps, (n - 1) as nat, stack, st))
    }
}

/// Plans one prerequisite, or reports what it names that does not exist.
pub open spec fn visit_dep(ps: Seq<ProjectManifest>, d: TaskDependency, stack: Seq<TaskKey>, st: PlanModel) -> PlanModel
    decreases open_keys(all_keys(ps), stack), 1nat, 0nat,
{
    match find_project(ps, d.project@) {
        None => emit(st, Err(with_project_model(
            error_model("task.dependency_project_missing"@, "task prerequisite references missing project `"@ + d.project@ + "`"@),
            d.project@,
        ))),
        Some(pi) => match find_task(ps[pi].tasks@, d.task@) {
            None => emit(st, Err(with_project_model(
                error_model("task.dependency_task_missing"@, "task prerequisite references missing task `"@ + d.task@ + "`"@),
                ps[pi].name@,
            ))),
            Some(ti) => match find_command(ps[pi].tasks@[ti].1@, d.workspace@) {
                None => emit(st, Err(with_project_model(
                    error_model("task.dependency_workspace_missing"@, "task prerequisite references missing workspace `"@ + d.workspace@ + "`"@),
                    ps[pi].name@,
                ))),
                Some(ci) => visit(ps, pi, ti, ci, stack, st),
            },
        },
    }
}


// ---------------------------------------------------------------------------
// Searching
// ---------------------------------------------------------------------------

fn find_workspace_exec(ws: &Vec<WorkspaceSpec>, name: &crate::domain::WorkspaceName) -> (r: Option<usize>)
    ensures
        match r {
            Some(i) => find_workspace(ws@, name@) == Some(i as int),
            None => find_workspace(ws@, name@) is None,
        },
{
    let ghost f = |w: WorkspaceSpec| w.name@ == name@;
    let mut i: usize = 0;
    assert(ws@.subrange(0, 0) =~= Seq::<WorkspaceSpec>::empty());
    while i < ws.len()
        invariant
            i <= ws.len(),
            f == (|w: WorkspaceSpec| w.name@ == name@),
            first_where(ws@.subrange(0, i as int), f) is None,
        decreases ws.len() - i,
    {
        proof {
            lemma_first_where_step(ws@, f, i as int);
        }
        if ws[i].name.same(name) {
            proof {
                lemma_first_where_prefix(ws@, f, i as int + 1);
            }
            return Some(i);
        }
        i = i + 1;
    }
    proof {
        lemma_first_where_all(ws@, f);
    }
    None
}

pub(crate) fn find_project_exec(ps: &Vec<ProjectManifest>, name: &crate::domain::ProjectName) -> (r: Option<usize>)
    ensures
        match r {
            Some(i) => find_project(ps@, name@) == Some(i as int),
            None => find_project(ps@, name@) is None,
        },
{
    let ghost f = |p: ProjectManifest| p.name@ == name@;
    let mut i: usize = 0;
    assert(ps@.subrange(0, 0) =~= Seq::<ProjectManifest>::empty());
    while i < ps.len()
        invariant
            i <= ps.len(),
            f == (|p: ProjectManifest| p.name@ == name@),
            first_where(ps@.subrange(0, i as int), f) is None,
        decreases ps.len() - i,
    {
        proof {
            lemma_first_where_step(ps@, f, i as int);
        }
        if ps[i].name.same(name) {
            proof {
                lemma_first_where_prefix(ps@, f, i as int + 1);
            }
            return Some(i);
        }
        i = i + 1;
    }
    proof {
        lemma_first_where_all(ps@, f);
    }
    None
}

fn find_task_exec(ts: &Vec<(TaskName, Vec<TaskCommand>)>, name: &TaskName) -> (r: Option<usize>)
    ensures
        match r {
            Some(i) => find_task(ts@, name@) == Some(i as int),
            None => find_task(ts@, name@) is None,
        },
{
    let ghost f = |t: (TaskName, Vec<TaskCommand>)| t.0@ == name@;
    let mut i: usize = 0;
    assert(ts@.subrange(0, 0) =~= Seq::<(TaskName, Vec<TaskCommand>)>::empty());
    while i < ts.len()
        invariant
            i <= ts.len(),
            f == (|t: (TaskName, Vec<TaskCommand>)| t.0@ == name@),
            first_where(ts@.subrange(0, i as int), f) is None,
        decreases ts.len() - i,
    {
        proof {
            lemma_first_where_step(ts@, f, i as int);
        }
        if ts[i].0.same(name) {
            proof {
                lemma_first_where_prefix(ts@, f, i as int + 1);
            }
            return Some(i);
        }
        i = i + 1;
    }
    proof {
        lemma_first_where_all(ts@, f);
    }
    None
}

fn find_command_exec(cs: &Vec<TaskCommand>, workspace: &crate::domain::WorkspaceName) -> (r: Option<usize>)
    ensures
        match r {
            Some(i) => find_command(cs@, workspace@) == Some(i as int),
            None => find_command(cs@, workspace@) is None,
        },
{
    let ghost f = |c: TaskCommand| c.workspace@ == workspace@;
    let mut i: usize = 0;
    assert(cs@.subrange(0, 0) =~= Seq::<TaskCommand>::empty());
    while i < cs.len()
        invariant
            i <= cs.len(),
            f == (|c: TaskCommand| c.workspace@ == workspace@),
            first_where(cs@.subrange(0, i as int), f) is None,
        decreases cs.len() - i,
    {
        proof {
            lemma_first_where_step(cs@, f, i as int);
        }
        if cs[i].workspace.same(workspace) {
            proof {
                lemma_first_where_prefix(cs@, f, i as int + 1);
            }
            return Some(i);
        }
        i = i + 1;
    }
    proof {
        lemma_first_where_all(cs@, f);
    }
    None
}

// ---------------------------------------------------------------------------
// Planning
// ---------------------------------------------------------------------------

/// A resolved command: which project, workspace and task it belongs to,
/// where it runs, what it runs, and where its workspace is declared.
#[derive(Debug)]
pub struct TaskStep {
    pub project: crate::domain::ProjectName,
    pub workspace: crate::domain::WorkspaceName,
    pub task: TaskName,
    pub cwd: RepoRelativePath,
    pub program: String,
    pub args: Vec<String>,
    pub project_index: usize,
    pub workspace_index: usize,
}

impl View for TaskStep {
    type V = StepModel;

    open spec fn view(&self) -> StepModel {
        StepModel {
            project: self.project@,
            workspace: self.workspace@,
            task: self.task@,
            cwd: self.cwd@,
            program: self.program@,
            args: strs(self.args@),
            project_index: self.project_index as int,
            workspace_index: self.workspace_index as int,
        }
    }
}

/// The abstract value of a planning outcome.
pub open spec fn outcome_view(o: Result<TaskStep, Diagnostic>) -> Result<StepModel, DiagnosticModel> {
    match o {
        Ok(s) => Ok(s@),
        Err(d) => Err(d@),
    }
}

/// The abstract values of planning outcomes.
pub open spec fn outcome_views(v: Seq<Result<TaskStep, Diagnostic>>) -> Seq<Result<StepModel, DiagnosticModel>> {
    v.map_values(|o: Result<TaskStep, Diagnostic>| outcome_view(o))
}

/// Views of planned keys.
pub open spec fn key_views(v: Seq<(String, String, String)>) -> Seq<TaskKey> {
    v.map_values(|k: (String, String, String)| (k.0@, k.1@, k.2@))
}

struct PlanState {
    seen: Vec<(String, String, String)>,
    out: Vec<Result<TaskStep, Diagnostic>>,
}

impl PlanState {
    spec fn model(&self) -> PlanModel {
        PlanModel { seen: key_views(self.seen@), out: outcome_views(self.out@) }
    }

    fn emit(&mut self, o: Result<TaskStep, Diagnostic>)
        ensures
            final(self).model() == emit(old(self).model(), outcome_view(o)),
    {
        let ghost before = self.model();
        self.out.push(o);
        assert(outcome_views(self.out@) =~= before.out.push(outcome_view(o)));
    }
}

fn copy_strings(v: &Vec<String>) -> (r: Vec<String>)
    ensures
        strs(r@) == strs(v@),
{
    let mut out: Vec<String> = Vec::new();
    let mut i: usize = 0;
    while i < v.len()
        invariant
            i <= v.len(),
            strs(out@) == strs(v@).subrange(0, i as int),
        decreases v.len() - i,
    {
        let ghost prev = strs(out@);
        out.push(owned(v[i].as_str()));
        assert(strs(out@) =~= prev.push(strs(v@)[i as int]));
        assert(strs(v@).subrange(0, i as int + 1) =~= strs(v@).subrange(0, i as int).push(strs(v@)[i as int]));
        i = i + 1;
    }
    assert(strs(v@).subrange(0, v.len() as int) =~= strs(v@));
    out
}

fn key_in(v: &Vec<(String, String, String)>, p: &str, w: &str, t: &str) -> (r: bool)
    ensures
        r == key_views(v@).contains((p@, w@, t@)),
{
    let mut i: usize = 0;
    while i < v.len()
        invariant
            i <= v.len(),
            forall|j: int| 0 <= j < i ==> key_views(v@)[j] != (p@, w@, t@),
        decreases v.len() - i,
    {
        if str_eq(v[i].0.as_str(), p) && str_eq(v[i].1.as_str(), w) && str_eq(v[i].2.as_str(), t) {
            assert(key_views(v@)[i as int] == (p@, w@, t@));
            return true;
        }
        i = i + 1;
    }
    false
}

fn build_step_exec(snapshot: &RepoSnapshot, pi: usize, ti: usize, ci: usize) -> (r: Result<TaskStep, Diagnostic>)
    requires
        valid_at(snapshot.projects@, pi as int, ti as int, ci as int),
    ensures
        outcome_view(r) == build_step(snapshot.projects@, pi as int, ti as int, ci as int),
{
    let p = &snapshot.projects[pi];
    let entry = &p.tasks[ti];
    let c = &entry.1[ci];
    match find_workspace_exec(&p.workspaces, &c.workspace) {
        None => {
            let mut msg = concat3("task `", entry.0.as_str(), "` references missing workspace `");
            push_str(&mut msg, c.workspace.as_str());
            push_str(&mut msg, "`");
            Err(Diagnostic::error("task.workspace_missing", msg.as_str()).with_project(p.name.as_str()))
        },
        Some(wi) => {
            proof {
                lemma_first_where(p.workspaces@, |w: WorkspaceSpec| w.name@ == c.workspace@);
            }
            match p.path.join_project(&p.workspaces[wi].root) {
                Err(d) => Err(d),
                Ok(cwd) => Ok(TaskStep {
                    project: p.name.duplicate(),
                    workspace: c.workspace.duplicate(),
                    task: entry.0.duplicate(),
                    cwd,
                    program: owned(c.command.program.as_str()),
                    args: copy_strings(&c.command.args),
                    project_index: pi,
                    workspace_index: wi,
                }),
            }
        },
    }
}


fn visit_exec(snapshot: &RepoSnapshot, pi: usize, ti: usize, ci: usize, stack: &mut Vec<(String, String, String)>, st: &mut PlanState)
    requires
        valid_at(snapshot.projects@, pi as int, ti as int, ci as int),
    ensures
        key_views(final(stack)@) == key_views(old(stack)@),
        final(st).model() == visit(snapshot.projects@, pi as int, ti as int, ci as int, key_views(old(stack)@), old(st).model()),
    decreases open_keys(all_keys(snapshot.projects@), key_views(old(stack)@)), 0nat, 0nat,
{
    let ghost ps = snapshot.projects@;
    let ghost key = key_at(ps, pi as int, ti as int, ci as int);
    let ghost stack0 = key_views(stack@);
    let p = &snapshot.projects[pi];
    let entry = &p.tasks[ti];
    let c = &entry.1[ci];
    if key_in(&st.seen, p.name.as_str(), c.workspace.as_str(), entry.0.as_str()) {
        return;
    }
    if key_in(stack, p.name.as_str(), c.workspace.as_str(), entry.0.as_str()) {
        st.emit(Err(Diagnostic::error("task.dependency_cycle", "task prerequisite cycle detected").with_project(p.name.as_str())));
        return;
    }
    proof {
        lemma_key_listed(ps, pi as int, ti as int, ci as int);
        lemma_push_closes(all_keys(ps), stack0, key);
    }
    stack.push((owned(p.name.as_str()), owned(c.workspace.as_str()), owned(entry.0.as_str())));
    let ghost stk = key_views(stack@);
    assert(stk =~= stack0.push(key));
    assert(stack@.len() == stk.len());
    let ghost st0 = st.model();
    let deps = &c.depends_on;
    let mut i: usize = 0;
    while i < deps.len()
        invariant
            i <= deps.len(),
            ps == snapshot.projects@,
            stk == stack0.push(key),
            key_views(stack@) == stk,
            stack@.len() == stk.len(),
            stack0 == key_views(old(stack)@),
            open_keys(all_keys(ps), stk) < open_keys(all_keys(ps), stack0),
            st.model() == visit_deps(ps, deps@, i as nat, stk, st0),
        decreases deps.len() - i,
    {
        visit_dep_exec(snapshot, &deps[i], stack, st);
        assert(stack@.len() == key_views(stack@).len());
        i = i + 1;
    }
    stack.pop();
    assert(key_views(stack@) =~= stack0) by {
        assert(key_views(stack@) =~= stk.drop_last());
    }
    let ghost after = st.model();
    st.seen.push((owned(p.name.as_str()), owned(c.workspace.as_str()), owned(entry.0.as_str())));
    assert(key_views(st.seen@) =~= after.seen.push(key));
    let step = build_step_exec(snapshot, pi, ti, ci);
    st.out.push(step);
    assert(outcome_views(st.out@) =~= after.out.push(build_step(ps, pi as int, ti as int, ci as int)));
}

fn visit_dep_exec(snapshot: &RepoSnapshot, d: &TaskDependency, stack: &mut Vec<(String, String, String)>, st: &mut PlanState)
    ensures
        key_views(final(stack)@) == key_views(old(stack)@),
        final(st).model() == visit_dep(snapshot.projects@, *d, key_views(old(stack)@), old(st).model()),
    decreases open_keys(all_keys(snapshot.projects@), key_views(old(stack)@)), 1nat, 0nat,
{
    let ghost ps = snapshot.projects@;
    match find_project_exec(&snapshot.projects, &d.project) {
        None => {
            let msg = concat3("task prerequisite references missing project `", d.project.as_str(), "`");
            st.emit(Err(Diagnostic::error("task.dependency_project_missing", msg.as_str()).with_project(d.project.as_str())));
        },
        Some(pi) => {
            proof {
                lemma_first_where(ps, |p: ProjectManifest| p.name@ == d.project@);
            }
            let p = &snapshot.projects[pi];
            match find_task_exec(&p.tasks, &d.task) {
                None => {
                    let msg = concat3("task prerequisite references missing task `", d.task.as_str(), "`");
                    st.emit(Err(Diagnostic::error("task.dependency_task_missing", msg.as_str()).with_project(p.name.as_str())));
                },
                Some(ti) => {
                    proof {
                        lemma_first_where(p.tasks@, |t: (TaskName, Vec<TaskCommand>)| t.0@ == d.task@);
                    }
                    match find_command_exec(&p.tasks[ti].1, &d.workspace) {
                        None => {
                            let msg = concat3("task prerequisite references missing workspace `", d.workspace.as_str(), "`");
                            st.emit(Err(Diagnostic::error("task.dependency_workspace_missing", msg.as_str()).with_project(p.name.as_str())));
                        },
                        Some(ci) => {
                            proof {
                                lemma_first_where(p.tasks@[ti as int].1@, |c: TaskCommand| c.workspace@ == d.workspace@);
                            }
                            visit_exec(snapshot, pi, ti, ci, stack, st);
                        },
                    }
                },
            }
        },
    }
}


// ---------------------------------------------------------------------------
// Selecting what to plan
// ---------------------------------------------------------------------------

/// The report behind an optional reference.
pub open spec fn opt_report(a: Option<&crate::requests::AffectedReport>) -> Option<crate::requests::AffectedReport> {
    match a {
        Some(x) => Some(*x),
        None => None,
    }
}

/// Which commands a run asks for: explicit filters (empty means all) and,
/// for an affected run, the affected projects and workspaces.
pub struct Selection {
    pub projects: Seq<Seq<char>>,
    pub tasks: Seq<Seq<char>>,
    pub workspaces: Seq<Seq<char>>,
    pub affected: Option<(Seq<Seq<char>>, Seq<Seq<char>>)>,
}

/// Empty filters let everything through.
pub open spec fn passes(filter: Seq<Seq<char>>, x: Seq<char>) -> bool {
    filter.len() == 0 || filter.contains(x)
}

/// The project is selected.
pub open spec fn project_selected(sel: Selection, name: Seq<char>) -> bool {
    passes(sel.projects, name) && match sel.affected {
        Some(a) => a.0.contains(name),
        None => true,
    }
}

/// A command in the workspace is selected.
pub open spec fn workspace_selected(sel: Selection, id: Seq<char>) -> bool {
    passes(sel.workspaces, id) && match sel.affected {
        Some(a) => a.1.contains(id),
        None => true,
    }
}

/// Plans the first `n` commands of a task, in order.
pub open spec fn plan_commands(ps: Seq<ProjectManifest>, sel: Selection, pi: int, ti: int, n: nat, st: PlanModel) -> PlanModel
    decreases n,
{
    if n == 0 {
        st
    } else {
        let prev = plan_commands(ps, sel, pi, ti, (n - 1) as nat, st);
        let c = ps[pi].tasks@[ti].1@[n - 1];
        if workspace_selected(sel, crate::affected::workspace_id(ps[pi].name@, c.workspace@)) {
            visit(ps, pi, ti, n - 1, Seq::empty(), prev)
        } else {
            prev
        }
    }
}

/// Plans the selected commands of the first `n` tasks of a project.
pub open spec fn plan_project_tasks(ps: Seq<ProjectManifest>, sel: Selection, pi: int, n: nat, st: PlanModel) -> PlanModel
    decreases n,
{
    if n == 0 {
        st
    } else {
        let prev = plan_project_tasks(ps, sel, pi, (n - 1) as nat, st);
        let t = ps[pi].tasks@[n - 1];
        if passes(sel.tasks, t.0@) {
            plan_commands(ps, sel, pi, n - 1, t.1@.len(), prev)
        } else {
            prev
        }
    }
}

/// Plans the selected commands of the first `n` projects.
pub open spec fn plan_projects(ps: Seq<ProjectManifest>, sel: Selection, n: nat, st: PlanModel) -> PlanModel
    decreases n,
{
    if n == 0 {
        st
    } else {
        let prev = plan_projects(ps, sel, (n - 1) as nat, st);
        if project_selected(sel, ps[n - 1].name@) {
            plan_project_tasks(ps, sel, n - 1, ps[n - 1].tasks@.len(), prev)
        } else {
            prev
        }
    }
}

/// The planned outcomes of a selection, in order.
pub open spec fn planned(ps: Seq<ProjectManifest>, sel: Selection) -> Seq<Result<StepModel, DiagnosticModel>> {
    plan_projects(ps, sel, ps.len(), PlanModel { seen: Seq::empty(), out: Seq::empty() }).out
}

/// The selection a run request makes.
pub open spec fn selection_of(req: crate::requests::TaskRunRequest, affected: Option<crate::requests::AffectedReport>) -> Selection {
    Selection {
        projects: crate::affected::name_views(req.projects@),
        tasks: crate::affected::task_views(req.tasks@),
        workspaces: strs(req.workspaces@),
        affected: match affected {
            Some(a) => Some((
                crate::affected::name_views(a.directly_affected@) + crate::affected::name_views(a.transitively_affected@),
                strs(a.workspaces@),
            )),
            None => None,
        },
    }
}

fn contains_name(v: &Vec<crate::domain::ProjectName>, n: &crate::domain::ProjectName) -> (r: bool)
    ensures
        r == crate::affected::name_views(v@).contains(n@),
{
    let mut i: usize = 0;
    while i < v.len()
        invariant
            i <= v.len(),
            forall|k: int| 0 <= k < i ==> crate::affected::name_views(v@)[k] != n@,
        decreases v.len() - i,
    {
        if v[i].same(n) {
            assert(crate::affected::name_views(v@)[i as int] == n@);
            return true;
        }
        i = i + 1;
    }
    false
}

fn contains_task_name(v: &Vec<TaskName>, n: &TaskName) -> (r: bool)
    ensures
        r == crate::affected::task_views(v@).contains(n@),
{
    let mut i: usize = 0;
    while i < v.len()
        invariant
            i <= v.len(),
            forall|k: int| 0 <= k < i ==> crate::affected::task_views(v@)[k] != n@,
        decreases v.len() - i,
    {
        if v[i].same(n) {
            assert(crate::affected::task_views(v@)[i as int] == n@);
            return true;
        }
        i = i + 1;
    }
    false
}

fn contains_text(v: &Vec<String>, s: &str) -> (r: bool)
    ensures
        r == strs(v@).contains(s@),
{
    let mut i: usize = 0;
    while i < v.len()
        invariant
            i <= v.len(),
            forall|k: int| 0 <= k < i ==> strs(v@)[k] != s@,
        decreases v.len() - i,
    {
        if str_eq(v[i].as_str(), s) {
            assert(strs(v@)[i as int] == s@);
            return true;
        }
        i = i + 1;
    }
    false
}

fn project_selected_exec(request: &crate::requests::TaskRunRequest, affected: Option<&crate::requests::AffectedReport>, name: &crate::domain::ProjectName)
    -> (r: bool)
    ensures
        r == project_selected(selection_of(*request, opt_report(affected)), name@),
{
    if !(request.projects.len() == 0 || contains_name(&request.projects, name)) {
        return false;
    }
    match affected {
        None => true,
        Some(a) => {
            let d = contains_name(&a.directly_affected, name);
            let t = contains_name(&a.transitively_affected, name);
            proof {
                let dv = crate::affected::name_views(a.directly_affected@);
                let tv = crate::affected::name_views(a.transitively_affected@);
                if d {
                    let k = choose|k: int| 0 <= k < dv.len() && dv[k] == name@;
                    assert((dv + tv)[k] == name@);
                }
                if t {
                    let k = choose|k: int| 0 <= k < tv.len() && tv[k] == name@;
                    assert((dv + tv)[dv.len() + k] == name@);
                }
                if (dv + tv).contains(name@) {
                    let k = choose|k: int| 0 <= k < (dv + tv).len() && (dv + tv)[k] == name@;
                    if k < dv.len() {
                        assert(dv[k] == name@);
                    } else {
                        assert(tv[k - dv.len()] == name@);
                    }
                }
            }
            d || t
        },
    }
}

fn workspace_selected_exec(request: &crate::requests::TaskRunRequest, affected: Option<&crate::requests::AffectedReport>, id: &str) -> (r: bool)
    ensures
        r == workspace_selected(selection_of(*request, opt_report(affected)), id@),
{
    if !(request.workspaces.len() == 0 || contains_text(&request.workspaces, id)) {
        return false;
    }
    match affected {
        None => true,
        Some(a) => contains_text(&a.workspaces, id),
    }
}

/// Plans the selected commands, prerequisites first and each once; what
/// cannot be resolved is an error at its place.
pub fn plan_task_steps(snapshot: &RepoSnapshot, request: &crate::requests::TaskRunRequest, affected: Option<&crate::requests::AffectedReport>)
    -> (r: Vec<Result<TaskStep, Diagnostic>>)
    ensures
        outcome_views(r@) == planned(snapshot.projects@, selection_of(*request, opt_report(affected))),
{
    let ghost ps = snapshot.projects@;
    let ghost sel = selection_of(*request, opt_report(affected));
    let ghost st0 = PlanModel { seen: Seq::empty(), out: Seq::empty() };
    let mut st = PlanState { seen: Vec::new(), out: Vec::new() };
    let mut stack: Vec<(String, String, String)> = Vec::new();
    assert(st.model() =~= st0) by {
        assert(key_views(st.seen@) =~= Seq::<TaskKey>::empty());
        assert(outcome_views(st.out@) =~= Seq::<Result<StepModel, DiagnosticModel>>::empty());
    }
    let mut pi: usize = 0;
    while pi < snapshot.projects.len()
        invariant
            pi <= snapshot.projects.len(),
            ps == snapshot.projects@,
            sel == selection_of(*request, opt_report(affected)),
            stack@.len() == 0,
            st.model() == plan_projects(ps, sel, pi as nat, st0),
        decreases snapshot.projects.len() - pi,
    {
        let p = &snapshot.projects[pi];
        if project_selected_exec(request, affected, &p.name) {
            let ghost before = st.model();
            let mut ti: usize = 0;
            while ti < p.tasks.len()
                invariant
                    ti <= p.tasks.len(),
                    pi < ps.len(),
                    ps == snapshot.projects@,
                    *p == ps[pi as int],
                    sel == selection_of(*request, opt_report(affected)),
                    stack@.len() == 0,
                    st.model() == plan_project_tasks(ps, sel, pi as int, ti as nat, before),
                decreases p.tasks.len() - ti,
            {
                let entry = &p.tasks[ti];
                if request.tasks.len() == 0 || contains_task_name(&request.tasks, &entry.0) {
                    let ghost mid = st.model();
                    let mut ci: usize = 0;
                    while ci < entry.1.len()
                        invariant
                            ci <= entry.1.len(),
                            pi < ps.len(),
                            ti < ps[pi as int].tasks@.len(),
                            ps == snapshot.projects@,
                            *p == ps[pi as int],
                            *entry == ps[pi as int].tasks@[ti as int],
                            sel == selection_of(*request, opt_report(affected)),
                            stack@.len() == 0,
                            st.model() == plan_commands(ps, sel, pi as int, ti as int, ci as nat, mid),
                        decreases entry.1.len() - ci,
                    {
                        let id = concat3(p.name.as_str(), ":", entry.1[ci].workspace.as_str());
                        if workspace_selected_exec(request, affected, id.as_str()) {
                            assert(key_views(stack@) =~= Seq::<TaskKey>::empty());
                            visit_exec(snapshot, pi, ti, ci, &mut stack, &mut st);
                            assert(stack@.len() == key_views(stack@).len());
                        }
                        ci = ci + 1;
                    }
                }
                ti = ti + 1;
            }
        }
        pi = pi + 1;
    }
    st.out
}

// ---------------------------------------------------------------------------
// Commands
// ---------------------------------------------------------------------------

/// Whether two toolchains are the same one.
pub open spec fn same_toolchain(a: crate::domain::Toolchain, b: crate::domain::Toolchain) -> bool {
    match (a, b) {
        (crate::domain::Toolchain::Custom(x), crate::domain::Toolchain::Custom(y)) => x@ == y@,
        (crate::domain::Toolchain::Custom(_), _) => false,
        (_, crate::domain::Toolchain::Custom(_)) => false,
        _ => crate::domain::toolchain_text(a) == crate::domain::toolchain_text(b),
    }
}

fn same_toolchain_exec(a: &crate::domain::Toolchain, b: &crate::domain::Toolchain) -> (r: bool)
    ensures
        r == same_toolchain(*a, *b),
{
    match (a, b) {
        (crate::domain::Toolchain::Custom(x), crate::domain::Toolchain::Custom(y)) => str_eq(x.as_str(), y.as_str()),
        (crate::domain::Toolchain::Custom(_), _) => false,
        (_, crate::domain::Toolchain::Custom(_)) => false,
        _ => str_eq(a.as_str(), b.as_str()),
    }
}

/// `Extend::extend` of `BTreeMap` with another map: every entry of `more`
/// is inserted in turn, so its entries win over those already held.
#[verifier::external_body]
fn extend_env(env: &mut std::collections::BTreeMap<String, String>, more: std::collections::BTreeMap<String, String>)
    ensures
        env_entries(*final(env)) == env_entries(*old(env)).union_prefer_right(env_entries(more)),
{
    env.extend(more);
}

/// `std::path::PathBuf::from` on a `String`; the path is opaque here, so
/// nothing is stated of it.
#[verifier::external_body]
pub(crate) fn path_buf_of(s: String) -> std::path::PathBuf {
    std::path::PathBuf::from(s)
}

/// The overlays of the adapters for a toolchain, merged in adapter order
/// (later entries win), or `None` once one of them fails.
pub open spec fn toolchain_overlays(
    adapters: Seq<Box<dyn crate::runner::ToolchainAdapter>>,
    toolchain: crate::domain::Toolchain,
    workspace: WorkspaceSpec,
) -> Option<Map<Seq<char>, Seq<char>>>
    decreases adapters.len(),
{
    if adapters.len() == 0 {
        Some(crate::runner::no_entries())
    } else {
        let before = toolchain_overlays(adapters.drop_last(), toolchain, workspace);
        let adapter = adapters.last();
        if same_toolchain(adapter.handled(), toolchain) {
            match (before, adapter.overlay(workspace)) {
                (Some(m), Some(o)) => Some(m.union_prefer_right(o)),
                _ => None,
            }
        } else {
            before
        }
    }
}

/// The environment of a workspace's commands: the overlays of every adapter
/// for its toolchain, none when it declares no toolchain; it fails when one
/// of those adapters fails.
pub fn toolchain_env(workspace: &WorkspaceSpec, adapters: &Vec<Box<dyn crate::runner::ToolchainAdapter>>)
    -> (r: Result<std::collections::BTreeMap<String, String>, RepoctlError>)
    ensures
        match workspace.toolchain {
            None => r matches Ok(m) && env_entries(m) == crate::runner::no_entries(),
            Some(t) => match r {
                Ok(m) => toolchain_overlays(adapters@, t, *workspace) == Some(env_entries(m)),
                Err(_) => toolchain_overlays(adapters@, t, *workspace) is None,
            },
        },
{
    let mut env: std::collections::BTreeMap<String, String> = empty_env();
    let toolchain = match &workspace.toolchain {
        Some(t) => t,
        None => return Ok(env),
    };
    let ghost t = *toolchain;
    let mut i: usize = 0;
    assert(adapters@.subrange(0, 0) =~= Seq::<Box<dyn crate::runner::ToolchainAdapter>>::empty());
    while i < adapters.len()
        invariant
            i <= adapters.len(),
            workspace.toolchain == Some(t),
            *toolchain == t,
            toolchain_overlays(adapters@.subrange(0, i as int), t, *workspace) == Some(env_entries(env)),
        decreases adapters.len() - i,
    {
        let adapter = &adapters[i];
        assert(adapters@.subrange(0, i + 1).drop_last() =~= adapters@.subrange(0, i as int));
        if same_toolchain_exec(&adapter.toolchain(), toolchain) {
            let input = crate::runner::ToolchainEnvironmentInput { workspace };
            match adapter.environment(&input) {
                Ok(more) => extend_env(&mut env, more),
                Err(e) => {
                    proof { lemma_overlays_stay_failed(adapters@, t, *workspace, i as int + 1); }
                    return Err(e);
                },
            }
        }
        i = i + 1;
    }
    assert(adapters@.subrange(0, i as int) =~= adapters@);
    Ok(env)
}

/// Once the overlays of a prefix of the adapters fail, so do those of every
/// longer prefix.
proof fn lemma_overlays_stay_failed(
    adapters: Seq<Box<dyn crate::runner::ToolchainAdapter>>,
    toolchain: crate::domain::Toolchain,
    workspace: WorkspaceSpec,
    k: int,
)
    requires
        0 <= k <= adapters.len(),
        toolchain_overlays(adapters.subrange(0, k), toolchain, workspace) is None,
    ensures
        toolchain_overlays(adapters, toolchain, workspace) is None,
    decreases adapters.len() - k,
{
    if k < adapters.len() {
        assert(adapters.subrange(0, k + 1).drop_last() =~= adapters.subrange(0, k));
        lemma_overlays_stay_failed(adapters, toolchain, workspace, k + 1);
    } else {
        assert(adapters.subrange(0, k) =~= adapters);
    }
}

/// The command matches the step it was made from.
pub open spec fn command_matches(c: crate::requests::ProcessCommand, s: StepModel) -> bool {
    &&& c.project matches Some(p) && p@ == s.project
    &&& c.workspace matches Some(w) && w@ == s.workspace
    &&& c.task matches Some(t) && t@ == s.task
    &&& c.cwd@ == s.cwd
    &&& c.program@ == s.program
    &&& strs(c.args@) == s.args
    &&& c.absolute_cwd is Some
}

/// The workspace a step runs in.
pub open spec fn step_workspace(ps: Seq<ProjectManifest>, s: StepModel) -> WorkspaceSpec {
    ps[s.project_index].workspaces@[s.workspace_index]
}

/// A step planned from the snapshot names a workspace of it.
pub open spec fn step_in(ps: Seq<ProjectManifest>, s: StepModel) -> bool {
    0 <= s.project_index < ps.len() && 0 <= s.workspace_index < ps[s.project_index].workspaces@.len()
}

/// The process command for a planned step, its environment from the
/// toolchain adapters.
pub fn command_for_step(snapshot: &RepoSnapshot, step: TaskStep, adapters: &Vec<Box<dyn crate::runner::ToolchainAdapter>>)
    -> (r: Result<crate::requests::ProcessCommand, RepoctlError>)
    requires
        step_in(snapshot.projects@, step@),
    ensures
        match r {
            Ok(c) => command_matches(c, step@),
            Err(_) => step_workspace(snapshot.projects@, step@).toolchain is Some,
        },
        step_workspace(snapshot.projects@, step@).toolchain is None ==> r is Ok,
        match step_workspace(snapshot.projects@, step@).toolchain {
            None => r matches Ok(c) && env_entries(c.env) == crate::runner::no_entries(),
            Some(t) => match r {
                Ok(c) => toolchain_overlays(adapters@, t, step_workspace(snapshot.projects@, step@)) == Some(env_entries(c.env)),
                Err(_) => toolchain_overlays(adapters@, t, step_workspace(snapshot.projects@, step@)) is None,
            },
        },
{
    let workspace = &snapshot.projects[step.project_index].workspaces[step.workspace_index];
    let env = toolchain_env(workspace, adapters)?;
    let absolute = snapshot.root.join(&step.cwd);
    let ghost sv = step@;
    let command = crate::requests::ProcessCommand {
        project: Some(step.project),
        workspace: Some(step.workspace),
        task: Some(step.task),
        cwd: step.cwd,
        absolute_cwd: Some(path_buf_of(absolute)),
        program: step.program,
        args: step.args,
        env,
    };
    Ok(command)
}


// ---------------------------------------------------------------------------
// Planned steps name workspaces of the snapshot
// ---------------------------------------------------------------------------

/// Every planned step names a workspace of the snapshot.
pub open spec fn steps_in(ps: Seq<ProjectManifest>, out: Seq<Result<StepModel, DiagnosticModel>>) -> bool {
    forall|k: int| 0 <= k < out.len() ==> match #[trigger] out[k] {
        Ok(s) => step_in(ps, s),
        Err(_) => true,
    }
}

proof fn lemma_steps_in_push(ps: Seq<ProjectManifest>, out: Seq<Result<StepModel, DiagnosticModel>>, o: Result<StepModel, DiagnosticModel>)
    requires
        steps_in(ps, out),
        match o {
            Ok(s) => step_in(ps, s),
            Err(_) => true,
        },
    ensures
        steps_in(ps, out.push(o)),
{
    assert forall|k: int| 0 <= k < out.push(o).len() implies match #[trigger] out.push(o)[k] {
        Ok(s) => step_in(ps, s),
        Err(_) => true,
    } by {
        if k < out.len() {
            assert(out.push(o)[k] == out[k]);
        }
    }
}

proof fn lemma_build_step_in(ps: Seq<ProjectManifest>, pi: int, ti: int, ci: int)
    requires
        valid_at(ps, pi, ti, ci),
    ensures
        match build_step(ps, pi, ti, ci) {
            Ok(s) => step_in(ps, s),
            Err(_) => true,
        },
{
    let c = ps[pi].tasks@[ti].1@[ci];
    lemma_first_where(ps[pi].workspaces@, |w: WorkspaceSpec| w.name@ == c.workspace@);
}

proof fn lemma_visit_in(ps: Seq<ProjectManifest>, pi: int, ti: int, ci: int, stack: Seq<TaskKey>, st: PlanModel)
    requires
        steps_in(ps, st.out),
    ensures
        steps_in(ps, visit(ps, pi, ti, ci, stack, st).out),
    decreases open_keys(all_keys(ps), stack), 0nat, 0nat,
{
    if valid_at(ps, pi, ti, ci) {
        let key = key_at(ps, pi, ti, ci);
        if st.seen.contains(key) {
        } else if stack.contains(key) {
            lemma_steps_in_push(ps, st.out, Err(cycle_error(ps[pi].name@)));
        } else {
            lemma_key_listed(ps, pi, ti, ci);
            lemma_push_closes(all_keys(ps), stack, key);
            let deps = ps[pi].tasks@[ti].1@[ci].depends_on@;
            lemma_visit_deps_in(ps, deps, deps.len(), stack.push(key), st);
            let after = visit_deps(ps, deps, deps.len(), stack.push(key), st);
            lemma_build_step_in(ps, pi, ti, ci);
            lemma_steps_in_push(ps, after.out, build_step(ps, pi, ti, ci));
        }
    }
}

proof fn lemma_visit_deps_in(ps: Seq<ProjectManifest>, deps: Seq<TaskDependency>, n: nat, stack: Seq<TaskKey>, st: PlanModel)
    requires
        steps_in(ps, st.out),
    ensures
        steps_in(ps, visit_deps(ps, deps, n, stack, st).out),
    decreases open_keys(all_keys(ps), stack), 1nat, n,
{
    if n > 0 && n <= deps.len() {
        lemma_visit_deps_in(ps, deps, (n - 1) as nat, stack, st);
        lemma_visit_dep_in(ps, deps[n - 1], stack, visit_deps(ps, deps, (n - 1) as nat, stack, st));
    }
}

proof fn lemma_visit_dep_in(ps: Seq<ProjectManifest>, d: TaskDependency, stack: Seq<TaskKey>, st: PlanModel)
    requires
        steps_in(ps, st.out),
    ensures
        steps_in(ps, visit_dep(ps, d, stack, st).out),
    decreases open_keys(all_keys(ps), stack), 1nat, 0nat,
{
    match find_project(ps, d.project@) {
        None => {
            lemma_steps_in_push(ps, st.out, Err(with_project_model(
                error_model("task.dependency_project_missing"@, "task prerequisite references missing project `"@ + d.project@ + "`"@),
                d.project@,
            )));
        },
        Some(pi) => match find_task(ps[pi].tasks@, d.task@) {
            None => {
                lemma_steps_in_push(ps, st.out, Err(with_project_model(
                    error_model("task.dependency_task_missing"@, "task prerequisite references missing task `"@ + d.task@ + "`"@),
                    ps[pi].name@,
                )));
            },
            Some(ti) => match find_command(ps[pi].tasks@[ti].1@, d.workspace@) {
                None => {
                    lemma_steps_in_push(ps, st.out, Err(with_project_model(
                        error_model("task.dependency_workspace_missing"@, "task prerequisite references missing workspace `"@ + d.workspace@ + "`"@),
                        ps[pi].name@,
                    )));
                },
                Some(ci) => {
                    lemma_visit_in(ps, pi, ti, ci, stack, st);
                },
            },
        },
    }
}

proof fn lemma_plan_commands_in(ps: Seq<ProjectManifest>, sel: Selection, pi: int, ti: int, n: nat, st: PlanModel)
    requires
        steps_in(ps, st.out),
    ensures
        steps_in(ps, plan_commands(ps, sel, pi, ti, n, st).out),
    decreases n,
{
    if n > 0 {
        lemma_plan_commands_in(ps, sel, pi, ti, (n - 1) as nat, st);
        lemma_visit_in(ps, pi, ti, n - 1, Seq::empty(), plan_commands(ps, sel, pi, ti, (n - 1) as nat, st));
    }
}

proof fn lemma_plan_tasks_in(ps: Seq<ProjectManifest>, sel: Selection, pi: int, n: nat, st: PlanModel)
    requires
        steps_in(ps, st.out),
    ensures
        steps_in(ps, plan_project_tasks(ps, sel, pi, n, st).out),
    decreases n,
{
    if n > 0 {
        lemma_plan_tasks_in(ps, sel, pi, (n - 1) as nat, st);
        let prev = plan_project_tasks(ps, sel, pi, (n - 1) as nat, st);
        lemma_plan_commands_in(ps, sel, pi, n - 1, ps[pi].tasks@[n - 1].1@.len(), prev);
    }
}

proof fn lemma_plan_projects_in(ps: Seq<ProjectManifest>, sel: Selection, n: nat, st: PlanModel)
    requires
        steps_in(ps, st.out),
    ensures
        steps_in(ps, plan_projects(ps, sel, n, st).out),
    decreases n,
{
    if n > 0 {
        lemma_plan_projects_in(ps, sel, (n - 1) as nat, st);
        let prev = plan_projects(ps, sel, (n - 1) as nat, st);
        lemma_plan_tasks_in(ps, sel, n - 1, ps[n - 1].tasks@.len(), prev);
    }
}

/// Every step planned from the snapshot names one of its workspaces.
pub proof fn lemma_planned_in(ps: Seq<ProjectManifest>, sel: Selection)
    ensures
        steps_in(ps, planned(ps, sel)),
{
    let st0 = PlanModel { seen: Seq::empty(), out: Seq::empty() };
    lemma_plan_projects_in(ps, sel, ps.len(), st0);
}

/// A run whose planned outcomes are all steps; where one is not, the first
/// such, or the first step whose adapters failed.
pub open spec fn commands_outcome(
    ps: Seq<ProjectManifest>,
    steps: Seq<Result<StepModel, DiagnosticModel>>,
    r: Result<Vec<crate::requests::ProcessCommand>, RepoctlError>,
) -> bool {
    match r {
        Ok(cs) => cs@.len() == steps.len() && forall|k: int| 0 <= k < steps.len() ==> match #[trigger] steps[k] {
            Ok(s) => command_matches(cs@[k], s),
            Err(_) => false,
        },
        Err(e) => exists|k: int| 0 <= k < steps.len() && (forall|j: int| 0 <= j < k ==> (#[trigger] steps[j]) is Ok) && match #[trigger] steps[k] {
            Err(d) => error_diagnostics(e) == seq![d],
            Ok(s) => step_workspace(ps, s).toolchain is Some,
        },
    }
}

/// Every planned outcome is a step whose workspace declares no toolchain,
/// so no adapter is consulted.
pub open spec fn plain_steps(ps: Seq<ProjectManifest>, steps: Seq<Result<StepModel, DiagnosticModel>>) -> bool {
    forall|k: int| 0 <= k < steps.len() ==> match #[trigger] steps[k] {
        Ok(s) => step_workspace(ps, s).toolchain is None,
        Err(_) => false,
    }
}

/// The commands of a task run, prerequisites first: the first planning
/// error, or adapter failure, ends planning with that error.
pub fn plan_task_commands(
    snapshot: &RepoSnapshot,
    request: &crate::requests::TaskRunRequest,
    affected: Option<&crate::requests::AffectedReport>,
    adapters: &Vec<Box<dyn crate::runner::ToolchainAdapter>>,
) -> (r: Result<Vec<crate::requests::ProcessCommand>, RepoctlError>)
    ensures
        commands_outcome(snapshot.projects@, planned(snapshot.projects@, selection_of(*request, opt_report(affected))), r),
        plain_steps(snapshot.projects@, planned(snapshot.projects@, selection_of(*request, opt_report(affected)))) ==> r is Ok,
{
    let ghost ps = snapshot.projects@;
    let ghost sel = selection_of(*request, opt_report(affected));
    let steps = plan_task_steps(snapshot, request, affected);
    let ghost sv = outcome_views(steps@);
    proof {
        lemma_planned_in(ps, sel);
    }
    let mut commands: Vec<crate::requests::ProcessCommand> = Vec::new();
    let mut steps = steps;
    let ghost orig = steps@;
    let mut k: usize = 0;
    let n = steps.len();
    assert(orig.subrange(0, n as int) =~= orig);
    while k < n
        invariant
            n == orig.len(),
            k <= n,
            sv == outcome_views(orig),
            sv == planned(ps, sel),
            ps == snapshot.projects@,
            sel == selection_of(*request, opt_report(affected)),
            steps_in(ps, sv),
            steps@ == orig.subrange(k as int, n as int),
            commands@.len() == k,
            forall|j: int| 0 <= j < k ==> match #[trigger] sv[j] {
                Ok(s) => command_matches(commands@[j], s),
                Err(_) => false,
            },
        decreases n - k,
    {
        let item = steps.remove(0);
        assert(item == orig[k as int]);
        assert(steps@ =~= orig.subrange(k as int + 1, n as int));
        assert(sv[k as int] == outcome_view(item));
        match item {
            Err(d) => {
                let e = RepoctlError::diagnostic(d);
                assert(error_diagnostics(e) =~= seq![d@]);
                assert(forall|j: int| 0 <= j < k ==> (#[trigger] sv[j]) is Ok);
                assert(sv[k as int] == Err::<StepModel, DiagnosticModel>(d@));
                assert(match sv[k as int] {
                    Err(dd) => error_diagnostics(e) == seq![dd],
                    Ok(s) => step_workspace(ps, s).toolchain is Some,
                });
                assert(!plain_steps(ps, sv));
                assert(commands_outcome(ps, sv, Err::<Vec<crate::requests::ProcessCommand>, RepoctlError>(e)));
                return Err(e);
            },
            Ok(step) => {
                match command_for_step(snapshot, step, adapters) {
                    Ok(c) => {
                        commands.push(c);
                    },
                    Err(e) => {
                        assert(forall|j: int| 0 <= j < k ==> (#[trigger] sv[j]) is Ok);
                        assert(match sv[k as int] {
                            Err(dd) => error_diagnostics(e) == seq![dd],
                            Ok(s) => step_workspace(ps, s).toolchain is Some,
                        });
                        assert(!plain_steps(ps, sv));
                        assert(commands_outcome(ps, sv, Err::<Vec<crate::requests::ProcessCommand>, RepoctlError>(e)));
                        return Err(e);
                    },
                }
            },
        }
        k = k + 1;
    }
    Ok(commands)
}


// ---------------------------------------------------------------------------
// Each command is planned once
// ---------------------------------------------------------------------------

/// Keys of the planned steps, in order.
pub open spec fn step_keys(out: Seq<Result<StepModel, DiagnosticModel>>) -> Seq<TaskKey>
    decreases out.len(),
{
    if out.len() == 0 {
        Seq::empty()
    } else {
        step_keys(out.drop_last()) + match out.last() {
            Ok(s) => seq![(s.project, s.workspace, s.task)],
            Err(_) => Seq::empty(),
        }
    }
}

/// Planned keys are distinct, every planned step's key is among them, and
/// no two planned steps share a key.
pub open spec fn plan_ok(st: PlanModel) -> bool {
    &&& st.seen.no_duplicates()
    &&& forall|x: TaskKey| step_keys(st.out).contains(x) ==> st.seen.contains(x)
    &&& step_keys(st.out).no_duplicates()
}

/// `b` planned everything `a` had, and what it added is off the stack.
pub open spec fn grows_off(a: PlanModel, b: PlanModel, stack: Seq<TaskKey>) -> bool {
    &&& forall|x: TaskKey| a.seen.contains(x) ==> b.seen.contains(x)
    &&& forall|x: TaskKey| b.seen.contains(x) && !a.seen.contains(x) ==> !stack.contains(x)
}

proof fn lemma_emit_ok(st: PlanModel, d: DiagnosticModel)
    requires
        plan_ok(st),
    ensures
        plan_ok(emit(st, Err(d))),
        grows_off(st, emit(st, Err(d)), Seq::empty()),
{
    let out = st.out.push(Err::<StepModel, DiagnosticModel>(d));
    assert(out.drop_last() =~= st.out);
    assert(step_keys(out) =~= step_keys(st.out));
}

proof fn lemma_visit_ok(ps: Seq<ProjectManifest>, pi: int, ti: int, ci: int, stack: Seq<TaskKey>, st: PlanModel)
    requires
        plan_ok(st),
    ensures
        plan_ok(visit(ps, pi, ti, ci, stack, st)),
        grows_off(st, visit(ps, pi, ti, ci, stack, st), stack),
    decreases open_keys(all_keys(ps), stack), 0nat, 0nat,
{
    if valid_at(ps, pi, ti, ci) {
        let key = key_at(ps, pi, ti, ci);
        if st.seen.contains(key) {
        } else if stack.contains(key) {
            lemma_emit_ok(st, cycle_error(ps[pi].name@));
        } else {
            lemma_key_listed(ps, pi, ti, ci);
            lemma_push_closes(all_keys(ps), stack, key);
            let deps = ps[pi].tasks@[ti].1@[ci].depends_on@;
            let inner = stack.push(key);
            lemma_visit_deps_ok(ps, deps, deps.len(), inner, st);
            let after = visit_deps(ps, deps, deps.len(), inner, st);
            assert(inner.contains(key)) by {
                assert(inner[stack.len() as int] == key);
            }
            assert(!after.seen.contains(key));
            let seen = after.seen.push(key);
            let step = build_step(ps, pi, ti, ci);
            let out = after.out.push(step);
            assert(seen.no_duplicates()) by {
                assert forall|i: int, j: int| 0 <= i < seen.len() && 0 <= j < seen.len() && i != j implies seen[i] != seen[j] by {
                    if i == after.seen.len() {
                        assert(after.seen.contains(seen[j]));
                    } else if j == after.seen.len() {
                        assert(after.seen.contains(seen[i]));
                    }
                }
            }
            assert(out.drop_last() =~= after.out);
            assert(out.last() == step);
            let tail = match step {
                Ok(s) => seq![(s.project, s.workspace, s.task)],
                Err(_) => Seq::<TaskKey>::empty(),
            };
            assert(step_keys(out) == step_keys(after.out) + tail);
            assert(forall|k: int| 0 <= k < tail.len() ==> tail[k] == key);
            assert forall|x: TaskKey| step_keys(out).contains(x) implies seen.contains(x) by {
                let k = choose|k: int| 0 <= k < step_keys(out).len() && step_keys(out)[k] == x;
                if k < step_keys(after.out).len() {
                    assert(step_keys(after.out)[k] == x);
                    assert(step_keys(after.out).contains(x));
                    assert(after.seen.contains(x));
                    let m = choose|m: int| 0 <= m < after.seen.len() && after.seen[m] == x;
                    assert(seen[m] == after.seen[m]);
                } else {
                    assert(tail[k - step_keys(after.out).len()] == x);
                    assert(seen[after.seen.len() as int] == key);
                }
            }
            assert(step_keys(out).no_duplicates()) by {
                let a = step_keys(after.out);
                let b = step_keys(out);
                assert(!a.contains(key)) by {
                    if a.contains(key) {
                        assert(after.seen.contains(key));
                    }
                }
                assert forall|i: int, j: int| 0 <= i < b.len() && 0 <= j < b.len() && i != j implies b[i] != b[j] by {
                    if i >= a.len() {
                        assert(b[i] == key);
                        assert(b[j] == a[j]);
                    } else if j >= a.len() {
                        assert(b[j] == key);
                        assert(b[i] == a[i]);
                    } else {
                        assert(b[i] == a[i] && b[j] == a[j]);
                    }
                }
            }
            assert forall|x: TaskKey| st.seen.contains(x) implies seen.contains(x) by {
                let m = choose|m: int| 0 <= m < after.seen.len() && after.seen[m] == x;
                assert(seen[m] == x);
            }
            assert forall|x: TaskKey| seen.contains(x) && !st.seen.contains(x) implies !stack.contains(x) by {
                let m = choose|m: int| 0 <= m < seen.len() && seen[m] == x;
                if m < after.seen.len() {
                    assert(after.seen[m] == x);
                    assert(after.seen.contains(x));
                    assert(!inner.contains(x));
                    if stack.contains(x) {
                        let q = choose|q: int| 0 <= q < stack.len() && stack[q] == x;
                        assert(inner[q] == x);
                    }
                }
            }
        }
    }
}

proof fn lemma_visit_deps_ok(ps: Seq<ProjectManifest>, deps: Seq<TaskDependency>, n: nat, stack: Seq<TaskKey>, st: PlanModel)
    requires
        plan_ok(st),
    ensures
        plan_ok(visit_deps(ps, deps, n, stack, st)),
        grows_off(st, visit_deps(ps, deps, n, stack, st), stack),
    decreases open_keys(all_keys(ps), stack), 1nat, n,
{
    if n > 0 && n <= deps.len() {
        lemma_visit_deps_ok(ps, deps, (n - 1) as nat, stack, st);
        let mid = visit_deps(ps, deps, (n - 1) as nat, stack, st);
        lemma_visit_dep_ok(ps, deps[n - 1], stack, mid);
    }
}

proof fn lemma_visit_dep_ok(ps: Seq<ProjectManifest>, d: TaskDependency, stack: Seq<TaskKey>, st: PlanModel)
    requires
        plan_ok(st),
    ensures
        plan_ok(visit_dep(ps, d, stack, st)),
        grows_off(st, visit_dep(ps, d, stack, st), stack),
    decreases open_keys(all_keys(ps), stack), 1nat, 0nat,
{
    match find_project(ps, d.project@) {
        None => {
            lemma_emit_ok(st, with_project_model(
                error_model("task.dependency_project_missing"@, "task prerequisite references missing project `"@ + d.project@ + "`"@),
                d.project@,
            ));
        },
        Some(pi) => match find_task(ps[pi].tasks@, d.task@) {
            None => {
                lemma_emit_ok(st, with_project_model(
                    error_model("task.dependency_task_missing"@, "task prerequisite references missing task `"@ + d.task@ + "`"@),
                    ps[pi].name@,
                ));
            },
            Some(ti) => match find_command(ps[pi].tasks@[ti].1@, d.workspace@) {
                None => {
                    lemma_emit_ok(st, with_project_model(
                        error_model("task.dependency_workspace_missing"@, "task prerequisite references missing workspace `"@ + d.workspace@ + "`"@),
                        ps[pi].name@,
                    ));
                },
                Some(ci) => {
                    lemma_visit_ok(ps, pi, ti, ci, stack, st);
                },
            },
        },
    }
}

proof fn lemma_plan_commands_ok(ps: Seq<ProjectManifest>, sel: Selection, pi: int, ti: int, n: nat, st: PlanModel)
    requires
        plan_ok(st),
    ensures
        plan_ok(plan_commands(ps, sel, pi, ti, n, st)),
    decreases n,
{
    if n > 0 {
        lemma_plan_commands_ok(ps, sel, pi, ti, (n - 1) as nat, st);
        lemma_visit_ok(ps, pi, ti, n - 1, Seq::empty(), plan_commands(ps, sel, pi, ti, (n - 1) as nat, st));
    }
}

proof fn lemma_plan_tasks_ok(ps: Seq<ProjectManifest>, sel: Selection, pi: int, n: nat, st: PlanModel)
    requires
        plan_ok(st),
    ensures
        plan_ok(plan_project_tasks(ps, sel, pi, n, st)),
    decreases n,
{
    if n > 0 {
        lemma_plan_tasks_ok(ps, sel, pi, (n - 1) as nat, st);
        let prev = plan_project_tasks(ps, sel, pi, (n - 1) as nat, st);
        lemma_plan_commands_ok(ps, sel, pi, n - 1, ps[pi].tasks@[n - 1].1@.len(), prev);
    }
}

proof fn lemma_plan_projects_ok(ps: Seq<ProjectManifest>, sel: Selection, n: nat, st: PlanModel)
    requires
        plan_ok(st),
    ensures
        plan_ok(plan_projects(ps, sel, n, st)),
    decreases n,
{
    if n > 0 {
        lemma_plan_projects_ok(ps, sel, (n - 1) as nat, st);
        let prev = plan_projects(ps, sel, (n - 1) as nat, st);
        lemma_plan_tasks_ok(ps, sel, n - 1, ps[n - 1].tasks@.len(), prev);
    }
}

/// The planned steps' keys, which lie within the distinct planned keys.
pub proof fn lemma_planned_ok(ps: Seq<ProjectManifest>, sel: Selection)
    ensures
        plan_ok(plan_projects(ps, sel, ps.len(), PlanModel { seen: Seq::empty(), out: Seq::empty() })),
{
    let st0 = PlanModel { seen: Seq::empty(), out: Seq::empty() };
    assert(step_keys(st0.out) =~= Seq::<TaskKey>::empty());
    lemma_plan_projects_ok(ps, sel, ps.len(), st0);
}


// ---------------------------------------------------------------------------
// Prerequisites come first
// ---------------------------------------------------------------------------

/// The command a prerequisite names, by its indices.
pub open spec fn resolve(ps: Seq<ProjectManifest>, d: TaskDependency) -> Option<(int, int, int)> {
    match find_project(ps, d.project@) {
        None => None,
        Some(pi) => match find_task(ps[pi].tasks@, d.task@) {
            None => None,
            Some(ti) => match find_command(ps[pi].tasks@[ti].1@, d.workspace@) {
                None => None,
                Some(ci) => Some((pi, ti, ci)),
            },
        },
    }
}

proof fn lemma_visit_covers(ps: Seq<ProjectManifest>, pi: int, ti: int, ci: int, stack: Seq<TaskKey>, st: PlanModel)
    requires
        valid_at(ps, pi, ti, ci),
    ensures
        visit(ps, pi, ti, ci, stack, st).seen.contains(key_at(ps, pi, ti, ci)) || stack.contains(key_at(ps, pi, ti, ci)),
{
    let key = key_at(ps, pi, ti, ci);
    if !st.seen.contains(key) && !stack.contains(key) {
        lemma_key_listed(ps, pi, ti, ci);
        lemma_push_closes(all_keys(ps), stack, key);
        let deps = ps[pi].tasks@[ti].1@[ci].depends_on@;
        let after = visit_deps(ps, deps, deps.len(), stack.push(key), st);
        assert(after.seen.push(key)[after.seen.len() as int] == key);
    }
}

proof fn lemma_resolved_valid(ps: Seq<ProjectManifest>, d: TaskDependency)
    ensures
        resolve(ps, d) matches Some(ix) ==> valid_at(ps, ix.0, ix.1, ix.2),
{
    lemma_first_where(ps, |p: ProjectManifest| p.name@ == d.project@);
    if let Some(pi) = find_project(ps, d.project@) {
        lemma_first_where(ps[pi].tasks@, |t: (TaskName, Vec<TaskCommand>)| t.0@ == d.task@);
        if let Some(ti) = find_task(ps[pi].tasks@, d.task@) {
            lemma_first_where(ps[pi].tasks@[ti].1@, |c: TaskCommand| c.workspace@ == d.workspace@);
        }
    }
}

proof fn lemma_deps_covered(ps: Seq<ProjectManifest>, deps: Seq<TaskDependency>, n: nat, stack: Seq<TaskKey>, st: PlanModel)
    requires
        plan_ok(st),
        n <= deps.len(),
    ensures
        forall|i: int| 0 <= i < n ==> match #[trigger] resolve(ps, deps[i]) {
            Some(ix) => visit_deps(ps, deps, n, stack, st).seen.contains(key_at(ps, ix.0, ix.1, ix.2))
                || stack.contains(key_at(ps, ix.0, ix.1, ix.2)),
            None => true,
        },
    decreases n,
{
    if n > 0 {
        lemma_deps_covered(ps, deps, (n - 1) as nat, stack, st);
        lemma_visit_deps_ok(ps, deps, (n - 1) as nat, stack, st);
        let mid = visit_deps(ps, deps, (n - 1) as nat, stack, st);
        let d = deps[n - 1];
        lemma_visit_dep_ok(ps, d, stack, mid);
        let fin = visit_deps(ps, deps, n, stack, st);
        assert(fin == visit_dep(ps, d, stack, mid));
        lemma_resolved_valid(ps, d);
        if let Some(ix) = resolve(ps, d) {
            lemma_visit_covers(ps, ix.0, ix.1, ix.2, stack, mid);
        }
    }
}

/// A command is planned after each prerequisite it names, unless that
/// prerequisite is the command itself or one already being planned further
/// up (a cycle, which is reported): when the command is planned, its
/// resolvable prerequisites are planned already.
pub proof fn law_prerequisites_first(ps: Seq<ProjectManifest>, pi: int, ti: int, ci: int, stack: Seq<TaskKey>, st: PlanModel)
    requires
        valid_at(ps, pi, ti, ci),
        plan_ok(st),
        !st.seen.contains(key_at(ps, pi, ti, ci)),
        !stack.contains(key_at(ps, pi, ti, ci)),
    ensures
        visit(ps, pi, ti, ci, stack, st).seen.last() == key_at(ps, pi, ti, ci),
        forall|i: int| 0 <= i < ps[pi].tasks@[ti].1@[ci].depends_on@.len() ==> match #[trigger] resolve(ps, ps[pi].tasks@[ti].1@[ci].depends_on@[i]) {
            Some(ix) => key_at(ps, ix.0, ix.1, ix.2) == key_at(ps, pi, ti, ci) || stack.contains(key_at(ps, ix.0, ix.1, ix.2))
                || visit(ps, pi, ti, ci, stack, st).seen.drop_last().contains(key_at(ps, ix.0, ix.1, ix.2)),
            None => true,
        },
{
    let key = key_at(ps, pi, ti, ci);
    lemma_key_listed(ps, pi, ti, ci);
    lemma_push_closes(all_keys(ps), stack, key);
    let deps = ps[pi].tasks@[ti].1@[ci].depends_on@;
    let inner = stack.push(key);
    lemma_deps_covered(ps, deps, deps.len(), inner, st);
    let after = visit_deps(ps, deps, deps.len(), inner, st);
    let r = visit(ps, pi, ti, ci, stack, st);
    assert(r.seen == after.seen.push(key));
    assert(r.seen.drop_last() =~= after.seen);
    assert forall|i: int| 0 <= i < deps.len() implies match #[trigger] resolve(ps, deps[i]) {
        Some(ix) => key_at(ps, ix.0, ix.1, ix.2) == key || stack.contains(key_at(ps, ix.0, ix.1, ix.2))
            || r.seen.drop_last().contains(key_at(ps, ix.0, ix.1, ix.2)),
        None => true,
    } by {
        if let Some(ix) = resolve(ps, deps[i]) {
            let k2 = key_at(ps, ix.0, ix.1, ix.2);
            if inner.contains(k2) && k2 != key {
                let q = choose|q: int| 0 <= q < inner.len() && inner[q] == k2;
                assert(q < stack.len());
                assert(stack[q] == k2);
            }
        }
    }
}


// ---------------------------------------------------------------------------
// Run plans
// ---------------------------------------------------------------------------

/// The concurrency a request asks for: one when absent; zero is an error.
pub open spec fn requested_concurrency(c: Option<u32>) -> Option<nat> {
    match c {
        None => Some(1),
        Some(n) => if n == 0 { None } else { Some(n as nat) },
    }
}

/// The run plan of a request: its commands and concurrency.
pub fn task_run_plan(
    snapshot: &RepoSnapshot,
    request: &crate::requests::TaskRunRequest,
    affected: Option<&crate::requests::AffectedReport>,
    adapters: &Vec<Box<dyn crate::runner::ToolchainAdapter>>,
) -> (r: Result<crate::requests::TaskRunPlan, RepoctlError>)
    ensures
        match r {
            Ok(plan) => commands_outcome(snapshot.projects@, planned(snapshot.projects@, selection_of(*request, opt_report(affected))), Ok(plan.commands))
                && requested_concurrency(request.concurrency) == Some(plan.concurrency as nat),
            Err(e) => commands_outcome(snapshot.projects@, planned(snapshot.projects@, selection_of(*request, opt_report(affected))), Err(e))
                || (requested_concurrency(request.concurrency) is None
                    && error_diagnostics(e) == seq![error_model("repoctl.internal"@, "invalid zero concurrency"@)]),
        },
        plain_steps(snapshot.projects@, planned(snapshot.projects@, selection_of(*request, opt_report(affected))))
            && requested_concurrency(request.concurrency) is Some ==> r is Ok,
{
    let commands = plan_task_commands(snapshot, request, affected, adapters)?;
    let concurrency: usize = match request.concurrency {
        None => 1,
        Some(n) => {
            if n == 0 {
                proof {
                    reveal_strlit("invalid zero concurrency");
                }
                let e = RepoctlError::Internal(owned("invalid zero concurrency"));
                return Err(e);
            }
            n as usize
        },
    };
    Ok(crate::requests::TaskRunPlan { commands, concurrency })
}


/// Why a run planned no command. For an affected run with listed files or
/// both refs, `changed_files` are the files found and `affected` their
/// report; otherwise they are not looked at.
pub open spec fn empty_plan_diagnostic(
    req: crate::requests::TaskRunRequest,
    changed_files: Seq<RepoRelativePath>,
    affected: crate::requests::AffectedReport,
) -> DiagnosticModel {
    if req.affected && req.changed_files@.len() == 0 && (req.base is None || req.head is None) {
        crate::diagnostic::plain("task.plan.no_base_head"@, crate::diagnostic::Severity::Warning,
            "affected task planning requires --base and --head or --changed-file"@)
    } else if req.affected {
        if changed_files.len() == 0 {
            crate::diagnostic::plain("task.plan.no_changed_files"@, crate::diagnostic::Severity::Warning,
                "no changed files were found for affected task planning"@)
        } else if affected.directly_affected@.len() == 0 && affected.transitively_affected@.len() == 0 {
            crate::diagnostic::plain("task.plan.no_affected_projects"@, crate::diagnostic::Severity::Warning,
                "changed files did not match any project or graph-wide surface"@)
        } else if affected.tasks@.len() == 0 {
            crate::diagnostic::plain("task.plan.no_matching_task"@, crate::diagnostic::Severity::Warning,
                "affected projects do not declare the requested task"@)
        } else {
            error_model("task.plan.unresolved_command"@,
                "affected report included task ids, but no runnable command could be resolved"@)
        }
    } else {
        crate::diagnostic::plain("task.plan.no_matching_task"@, crate::diagnostic::Severity::Warning,
            "no project or workspace declares the requested task"@)
    }
}

/// Explains a run that planned no command.
pub fn no_task_plan_diagnostics(
    request: &crate::requests::TaskRunRequest,
    changed_files: &Vec<RepoRelativePath>,
    affected: &crate::requests::AffectedReport,
) -> (r: Vec<Diagnostic>)
    ensures
        crate::diagnostic::models(r@) == seq![empty_plan_diagnostic(*request, changed_files@, *affected)],
{
    let d = if request.affected && request.changed_files.len() == 0 && (request.base.is_none() || request.head.is_none()) {
        Diagnostic::warning("task.plan.no_base_head", "affected task planning requires --base and --head or --changed-file")
    } else if request.affected {
        if changed_files.len() == 0 {
            Diagnostic::warning("task.plan.no_changed_files", "no changed files were found for affected task planning")
        } else if affected.directly_affected.len() == 0 && affected.transitively_affected.len() == 0 {
            Diagnostic::warning("task.plan.no_affected_projects", "changed files did not match any project or graph-wide surface")
        } else if affected.tasks.len() == 0 {
            Diagnostic::warning("task.plan.no_matching_task", "affected projects do not declare the requested task")
        } else {
            Diagnostic::error("task.plan.unresolved_command", "affected report included task ids, but no runnable command could be resolved")
        }
    } else {
        Diagnostic::warning("task.plan.no_matching_task", "no project or workspace declares the requested task")
    };
    let ghost dm = d@;
    let mut out: Vec<Diagnostic> = Vec::new();
    out.push(d);
    assert(crate::diagnostic::models(out@) =~= seq![dm]);
    out
}

} // verus!
