//! Boundary policy rules.
use vstd::prelude::*;

use crate::diagnostic::{
    Diagnostic, DiagnosticModel, RepoctlError, error_model, models, opt_view, with_help_model,
    with_path_model, with_project_model,
};
use crate::domain::{
    EdgeKind, EdgeModel, ProjectKind, ProjectManifest, RepoSnapshot, edge_views, kind_debug,
    project_node_id,
};
use crate::ports::{PolicyContext, PolicyRule};
use crate::text::{concat2, concat3, owned, push_str};

verus! {

// ---------------------------------------------------------------------------
// Projects by graph node
// ---------------------------------------------------------------------------

/// The project whose node id is `id`; the last one when several share it,
/// as a node-keyed map built in order keeps it.
pub open spec fn project_at_node(ps: Seq<ProjectManifest>, id: Seq<char>) -> Option<ProjectManifest>
    decreases ps.len(),
{
    if ps.len() == 0 {
        None
    } else if project_node_id(ps.last().name@) == id {
        Some(ps.last())
    } else {
        project_at_node(ps.drop_last(), id)
    }
}

fn find_project_at_node<'a>(ps: &'a Vec<ProjectManifest>, id: &str) -> (r: Option<&'a ProjectManifest>)
    ensures
        match r {
            Some(p) => project_at_node(ps@, id@) == Some(*p),
            None => project_at_node(ps@, id@) is None,
        },
{
    let mut i: usize = ps.len();
    assert(ps@.subrange(0, ps@.len() as int) =~= ps@);
    while i > 0
        invariant
            i <= ps.len(),
            project_at_node(ps@, id@) == project_at_node(ps@.subrange(0, i as int), id@),
        decreases i,
    {
        let ghost sub = ps@.subrange(0, i as int);
        assert(sub.last() == ps@[i - 1]);
        assert(sub.drop_last() =~= ps@.subrange(0, i - 1));
        let node = ps[i - 1].node_id();
        if crate::text::str_eq(node.as_str(), id) {
            return Some(&ps[i - 1]);
        }
        i = i - 1;
    }
    None
}

/// A policy violation reported against a project: located at its manifest,
/// naming the project, with the offending dependency as help when known.
pub open spec fn policy_error_model(code: Seq<char>, message: Seq<char>, p: ProjectManifest, evidence: Option<Seq<char>>) -> DiagnosticModel {
    let d = with_project_model(with_path_model(error_model(code, message), p.source@), p.name@);
    match evidence {
        Some(e) => with_help_model(d, "offending dependency: "@ + e),
        None => d,
    }
}

fn policy_error(code: &str, message: &str, project: &ProjectManifest, evidence: &Option<String>) -> (d: Diagnostic)
    ensures
        d@ == policy_error_model(code@, message@, *project, opt_view(*evidence)),
{
    let d = Diagnostic::error(code, message).with_path(project.source.as_str()).with_project(project.name.as_str());
    match evidence {
        Some(e) => d.with_help(concat2("offending dependency: ", e.as_str()).as_str()),
        None => d,
    }
}

// ---------------------------------------------------------------------------
// Edge rules
// ---------------------------------------------------------------------------

/// Which edge rule is meant.
#[derive(Clone, Copy, Debug, PartialEq, Eq, Structural)]
pub enum EdgeRule {
    /// App-to-app dependencies.
    CrossApp,
    /// Framework or foundation dependencies on apps.
    ProjectKind,
    /// App dependencies on framework internals.
    FrameworkFacade,
    /// App dependencies on foundation internals.
    FoundationClient,
}

/// The diagnostics one rule reports for one edge.
pub open spec fn edge_rule_diags(rule: EdgeRule, e: EdgeModel, ps: Seq<ProjectManifest>) -> Seq<DiagnosticModel> {
    match rule {
        EdgeRule::CrossApp => if e.kind != EdgeKind::DependsOnProject {
            Seq::empty()
        } else {
            match (project_at_node(ps, e.from), project_at_node(ps, e.to)) {
                (Some(s), Some(t)) => if s.kind == ProjectKind::App && t.kind == ProjectKind::App {
                    seq![policy_error_model(
                        "policy.cross_app_dependency"@,
                        "app `"@ + s.name@ + "` must not depend on app `"@ + t.name@ + "`"@,
                        s,
                        e.evidence,
                    )]
                } else {
                    Seq::empty()
                },
                _ => Seq::empty(),
            }
        },
        EdgeRule::ProjectKind => if e.kind != EdgeKind::DependsOnProject {
            Seq::empty()
        } else {
            match (project_at_node(ps, e.from), project_at_node(ps, e.to)) {
                (Some(s), Some(t)) => if t.kind == ProjectKind::App
                    && (s.kind == ProjectKind::Framework || s.kind == ProjectKind::FoundationService) {
                    seq![policy_error_model(
                        "policy.project_kind_dependency"@,
                        kind_debug(s.kind) + " `"@ + s.name@ + "` must not depend on app `"@ + t.name@ + "`"@,
                        s,
                        e.evidence,
                    )]
                } else {
                    Seq::empty()
                },
                _ => Seq::empty(),
            }
        },
        EdgeRule::FrameworkFacade => if e.kind != EdgeKind::UsesFrameworkInternal {
            Seq::empty()
        } else {
            match project_at_node(ps, e.from) {
                Some(s) => if s.kind == ProjectKind::App {
                    seq![policy_error_model(
                        "policy.framework_internal_dependency"@,
                        "app `"@ + s.name@ + "` must depend on framework facades only"@,
                        s,
                        e.evidence,
                    )]
                } else {
                    Seq::empty()
                },
                None => Seq::empty(),
            }
        },
        EdgeRule::FoundationClient => if e.kind != EdgeKind::UsesFoundationInternal {
            Seq::empty()
        } else {
            match project_at_node(ps, e.from) {
                Some(s) => if s.kind == ProjectKind::App {
                    seq![with_help_model(
                        policy_error_model(
                            "policy.foundation_internal_dependency"@,
                            "app `"@ + s.name@ + "` must use foundation public clients instead of internals"@,
                            s,
                            e.evidence,
                        ),
                        "depend on foundations.<service>.client"@,
                    )]
                } else {
                    Seq::empty()
                },
                None => Seq::empty(),
            }
        },
    }
}

/// The diagnostics one rule reports over all edges, in edge order.
pub open spec fn edge_rule_report(rule: EdgeRule, es: Seq<EdgeModel>, ps: Seq<ProjectManifest>) -> Seq<DiagnosticModel>
    decreases es.len(),
{
    if es.len() == 0 {
        Seq::empty()
    } else {
        edge_rule_report(rule, es.drop_last(), ps) + edge_rule_diags(rule, es.last(), ps)
    }
}

fn edge_rule_check(rule: EdgeRule, edge: &crate::domain::GraphEdge, ps: &Vec<ProjectManifest>) -> (r: Option<Diagnostic>)
    ensures
        match r {
            Some(d) => edge_rule_diags(rule, edge@, ps@) == seq![d@],
            None => edge_rule_diags(rule, edge@, ps@) == Seq::<DiagnosticModel>::empty(),
        },
{
    match rule {
        EdgeRule::CrossApp | EdgeRule::ProjectKind => {
            if edge.kind != EdgeKind::DependsOnProject {
                return None;
            }
            let source = match find_project_at_node(ps, edge.from.as_str()) {
                Some(p) => p,
                None => return None,
            };
            let target = match find_project_at_node(ps, edge.to.as_str()) {
                Some(p) => p,
                None => return None,
            };
            if rule == EdgeRule::CrossApp {
                if source.kind == ProjectKind::App && target.kind == ProjectKind::App {
                    let mut msg = concat3("app `", source.name.as_str(), "` must not depend on app `");
                    push_str(&mut msg, target.name.as_str());
                    push_str(&mut msg, "`");
                    return Some(policy_error("policy.cross_app_dependency", msg.as_str(), source, &edge.evidence));
                }
                None
            } else {
                if target.kind == ProjectKind::App
                    && (source.kind == ProjectKind::Framework || source.kind == ProjectKind::FoundationService) {
                    let mut msg = concat3(crate::domain::kind_debug_exec(source.kind), " `", source.name.as_str());
                    push_str(&mut msg, "` must not depend on app `");
                    push_str(&mut msg, target.name.as_str());
                    push_str(&mut msg, "`");
                    return Some(policy_error("policy.project_kind_dependency", msg.as_str(), source, &edge.evidence));
                }
                None
            }
        },
        EdgeRule::FrameworkFacade => {
            if edge.kind != EdgeKind::UsesFrameworkInternal {
                return None;
            }
            match find_project_at_node(ps, edge.from.as_str()) {
                Some(source) => if source.kind == ProjectKind::App {
                    let msg = concat3("app `", source.name.as_str(), "` must depend on framework facades only");
                    Some(policy_error("policy.framework_internal_dependency", msg.as_str(), source, &edge.evidence))
                } else {
                    None
                },
                None => None,
            }
        },
        EdgeRule::FoundationClient => {
            if edge.kind != EdgeKind::UsesFoundationInternal {
                return None;
            }
            match find_project_at_node(ps, edge.from.as_str()) {
                Some(source) => if source.kind == ProjectKind::App {
                    let msg = concat3("app `", source.name.as_str(), "` must use foundation public clients instead of internals");
                    let d = policy_error("policy.foundation_internal_dependency", msg.as_str(), source, &edge.evidence);
                    Some(d.with_help("depend on foundations.<service>.client"))
                } else {
                    None
                },
                None => None,
            }
        },
    }
}

/// Evaluates one edge rule over the snapshot's graph.
pub fn evaluate_edge_rule(rule: EdgeRule, snapshot: &RepoSnapshot) -> (r: Vec<Diagnostic>)
    ensures
        models(r@) == edge_rule_report(rule, edge_views(snapshot.graph.edges@), snapshot.projects@),
{
    let ghost es = edge_views(snapshot.graph.edges@);
    let mut out: Vec<Diagnostic> = Vec::new();
    let mut i: usize = 0;
    assert(es.subrange(0, 0) =~= Seq::<EdgeModel>::empty());
    assert(models(out@) =~= Seq::<DiagnosticModel>::empty());
    while i < snapshot.graph.edges.len()
        invariant
            i <= snapshot.graph.edges.len(),
            es == edge_views(snapshot.graph.edges@),
            models(out@) == edge_rule_report(rule, es.subrange(0, i as int), snapshot.projects@),
        decreases snapshot.graph.edges.len() - i,
    {
        let ghost before = models(out@);
        match edge_rule_check(rule, &snapshot.graph.edges[i], &snapshot.projects) {
            Some(d) => {
                out.push(d);
                assert(models(out@) =~= before + seq![d@]);
            },
            None => {
                assert(before + Seq::<DiagnosticModel>::empty() =~= before);
            },
        }
        assert(es.subrange(0, i as int + 1).drop_last() =~= es.subrange(0, i as int));
        i = i + 1;
    }
    assert(es.subrange(0, es.len() as int) =~= es);
    out
}

/// Denies app-to-app dependencies.
#[derive(Clone, Copy, Debug, Default)]
pub struct CrossAppDependencyRule;

/// Denies framework and foundation dependencies on app projects.
#[derive(Clone, Copy, Debug, Default)]
pub struct ProjectKindDependencyRule;

/// Denies app dependencies on framework internal areas.
#[derive(Clone, Copy, Debug, Default)]
pub struct FrameworkFacadeOnlyRule;

/// Denies app dependencies on foundation internals.
#[derive(Clone, Copy, Debug, Default)]
pub struct FoundationPublicClientOnlyRule;

impl PolicyRule for CrossAppDependencyRule {
    fn name(&self) -> (s: &'static str)
        ensures
            s@ == "no-cross-app-dependency"@,
    {
        "no-cross-app-dependency"
    }

    fn evaluate(&self, context: &PolicyContext) -> (r: Result<Vec<Diagnostic>, RepoctlError>)
        ensures
            match r {
                Ok(v) => models(v@) == edge_rule_report(EdgeRule::CrossApp, edge_views(context.snapshot.graph.edges@), context.snapshot.projects@),
                Err(_) => false,
            },
    {
        Ok(evaluate_edge_rule(EdgeRule::CrossApp, context.snapshot))
    }
}

impl PolicyRule for ProjectKindDependencyRule {
    fn name(&self) -> (s: &'static str)
        ensures
            s@ == "project-kind-dependency"@,
    {
        "project-kind-dependency"
    }

    fn evaluate(&self, context: &PolicyContext) -> (r: Result<Vec<Diagnostic>, RepoctlError>)
        ensures
            match r {
                Ok(v) => models(v@) == edge_rule_report(EdgeRule::ProjectKind, edge_views(context.snapshot.graph.edges@), context.snapshot.projects@),
                Err(_) => false,
            },
    {
        Ok(evaluate_edge_rule(EdgeRule::ProjectKind, context.snapshot))
    }
}

impl PolicyRule for FrameworkFacadeOnlyRule {
    fn name(&self) -> (s: &'static str)
        ensures
            s@ == "app-must-use-framework-facade"@,
    {
        "app-must-use-framework-facade"
    }

    fn evaluate(&self, context: &PolicyContext) -> (r: Result<Vec<Diagnostic>, RepoctlError>)
        ensures
            match r {
                Ok(v) => models(v@) == edge_rule_report(EdgeRule::FrameworkFacade, edge_views(context.snapshot.graph.edges@), context.snapshot.projects@),
                Err(_) => false,
            },
    {
        Ok(evaluate_edge_rule(EdgeRule::FrameworkFacade, context.snapshot))
    }
}

impl PolicyRule for FoundationPublicClientOnlyRule {
    fn name(&self) -> (s: &'static str)
        ensures
            s@ == "app-must-use-foundation-client"@,
    {
        "app-must-use-foundation-client"
    }

    fn evaluate(&self, context: &PolicyContext) -> (r: Result<Vec<Diagnostic>, RepoctlError>)
        ensures
            match r {
                Ok(v) => models(v@) == edge_rule_report(EdgeRule::FoundationClient, edge_views(context.snapshot.graph.edges@), context.snapshot.projects@),
                Err(_) => false,
            },
    {
        Ok(evaluate_edge_rule(EdgeRule::FoundationClient, context.snapshot))
    }
}

// ---------------------------------------------------------------------------
// Changed-file rules
// ---------------------------------------------------------------------------

/// Error for a built-in glob that does not compile.
pub open spec fn builtin_glob_error(pattern: Seq<char>, message: Seq<char>) -> Seq<char> {
    "invalid built-in glob `"@ + pattern + "`: "@ + message
}

fn builtin_glob(pattern: &str) -> (r: Result<(), RepoctlError>)
    requires
        !pattern@.contains('\\'),
    ensures
        match r {
            Ok(()) => crate::domain::glob_parse(pattern@) is Ok,
            Err(e) => match crate::domain::glob_parse(pattern@) {
                Err(m) => e == RepoctlError::Internal(e->Internal_0) && e->Internal_0@ == builtin_glob_error(pattern@, m),
                Ok(_) => false,
            },
        },
{
    match crate::domain::glob_check(pattern) {
        Ok(()) => Ok(()),
        Err(m) => {
            let mut msg = concat3("invalid built-in glob `", pattern, "`: ");
            push_str(&mut msg, m.as_str());
            Err(RepoctlError::Internal(msg))
        },
    }
}

/// A project's do-not-edit pattern, made repo-relative unless it starts
/// with `**/`.
pub open spec fn do_not_edit_pattern(root: Seq<char>, pattern: Seq<char>) -> Seq<char> {
    if crate::text::has_prefix(pattern, "**/"@) {
        pattern
    } else {
        root + "/"@ + pattern
    }
}

/// The pattern compiles and matches the file.
pub open spec fn pattern_hits(root: Seq<char>, pattern: Seq<char>, f: Seq<char>) -> bool {
    let full = do_not_edit_pattern(root, pattern);
    crate::domain::glob_parse(full) is Ok && crate::domain::glob_matches(full, f)
}

/// A changed file inside a project that matches one of its do-not-edit
/// patterns.
pub open spec fn project_generated(p: ProjectManifest, f: Seq<char>) -> bool {
    crate::domain::path_below(f, p.path@)
        && exists|k: int| 0 <= k < p.ai.do_not_edit@.len() && pattern_hits(p.path@, (#[trigger] p.ai.do_not_edit@[k])@, f)
}

/// A changed file that is generated code.
pub open spec fn generated_file(ps: Seq<ProjectManifest>, f: Seq<char>) -> bool {
    crate::domain::glob_matches("**/generated/**"@, f)
        || exists|i: int| 0 <= i < ps.len() && project_generated(#[trigger] ps[i], f)
}

/// The diagnostics for generated files among the changed files, in order.
pub open spec fn generated_report(fs: Seq<Seq<char>>, ps: Seq<ProjectManifest>) -> Seq<DiagnosticModel>
    decreases fs.len(),
{
    if fs.len() == 0 {
        Seq::empty()
    } else {
        generated_report(fs.drop_last(), ps) + if generated_file(ps, fs.last()) {
            seq![with_path_model(
                error_model("policy.generated_code_readonly"@, "generated file `"@ + fs.last() + "` must not be edited directly"@),
                fs.last(),
            )]
        } else {
            Seq::empty()
        }
    }
}

fn project_generated_match(project: &ProjectManifest, file: &crate::domain::RepoRelativePath) -> (r: bool)
    ensures
        r == project_generated(*project, file@),
{
    if !file.starts_with(&project.path) {
        return false;
    }
    let ghost root = project.path@;
    let ghost pats = project.ai.do_not_edit@;
    let mut k: usize = 0;
    while k < project.ai.do_not_edit.len()
        invariant
            k <= project.ai.do_not_edit.len(),
            root == project.path@,
            pats == project.ai.do_not_edit@,
            crate::domain::path_below(file@, project.path@),
            forall|j: int| 0 <= j < k ==> !pattern_hits(root, (#[trigger] pats[j])@, file@),
        decreases project.ai.do_not_edit.len() - k,
    {
        let glob = &project.ai.do_not_edit[k];
        proof {
            use_type_invariant(glob);
            use_type_invariant(&project.path);
            use_type_invariant(file);
            reveal_strlit("/");
        }
        let pattern = glob.as_str();
        let pc = crate::text::chars_of(pattern);
        let star = crate::text::chars_of("**/");
        proof {
            reveal_strlit("**/");
        }
        let full = if crate::text::starts_with(&pc, &star) {
            owned(pattern)
        } else {
            let mut f = concat2(project.path.as_str(), "/");
            push_str(&mut f, pattern);
            f
        };
        assert(full@ == do_not_edit_pattern(root, pats[k as int]@));
        match crate::domain::glob_is_match(full.as_str(), file.as_str()) {
            Some(true) => {
                assert(pattern_hits(root, pats[k as int]@, file@));
                return true;
            },
            _ => {},
        }
        k = k + 1;
    }
    false
}

fn is_generated_file(generated: bool, ps: &Vec<ProjectManifest>, file: &crate::domain::RepoRelativePath) -> (r: bool)
    requires
        generated == crate::domain::glob_matches("**/generated/**"@, file@),
    ensures
        r == generated_file(ps@, file@),
{
    if generated {
        return true;
    }
    let mut i: usize = 0;
    while i < ps.len()
        invariant
            i <= ps.len(),
            forall|j: int| 0 <= j < i ==> !project_generated(#[trigger] ps@[j], file@),
        decreases ps.len() - i,
    {
        if project_generated_match(&ps[i], file) {
            return true;
        }
        i = i + 1;
    }
    false
}

/// Views of repo-relative paths.
pub open spec fn path_list(v: Seq<crate::domain::RepoRelativePath>) -> Seq<Seq<char>> {
    v.map_values(|p: crate::domain::RepoRelativePath| p@)
}

/// Denies direct edits to generated code paths.
#[derive(Clone, Copy, Debug, Default)]
pub struct GeneratedCodeReadonlyRule;

impl PolicyRule for GeneratedCodeReadonlyRule {
    fn name(&self) -> (s: &'static str)
        ensures
            s@ == "generated-code-readonly"@,
    {
        "generated-code-readonly"
    }

    fn evaluate(&self, context: &PolicyContext) -> (r: Result<Vec<Diagnostic>, RepoctlError>)
        ensures
            match r {
                Ok(v) => crate::domain::glob_parse("**/generated/**"@) is Ok
                    && models(v@) == generated_report(path_list(context.changed_files@), context.snapshot.projects@),
                Err(e) => match crate::domain::glob_parse("**/generated/**"@) {
                    Err(m) => e == RepoctlError::Internal(e->Internal_0) && e->Internal_0@ == builtin_glob_error("**/generated/**"@, m),
                    Ok(_) => false,
                },
            },
    {
        proof {
            reveal_strlit("**/generated/**");
        }
        builtin_glob("**/generated/**")?;
        let ghost fs = path_list(context.changed_files@);
        let ghost ps = context.snapshot.projects@;
        let mut out: Vec<Diagnostic> = Vec::new();
        let mut i: usize = 0;
        assert(fs.subrange(0, 0) =~= Seq::<Seq<char>>::empty());
        assert(models(out@) =~= Seq::<DiagnosticModel>::empty());
        while i < context.changed_files.len()
            invariant
                i <= context.changed_files.len(),
                fs == path_list(context.changed_files@),
                ps == context.snapshot.projects@,
                crate::domain::glob_parse("**/generated/**"@) is Ok,
                models(out@) == generated_report(fs.subrange(0, i as int), ps),
            decreases context.changed_files.len() - i,
        {
            let file = &context.changed_files[i];
            proof {
                reveal_strlit("**/generated/**");
                use_type_invariant(file);
            }
            let global = match crate::domain::glob_is_match("**/generated/**", file.as_str()) {
                Some(b) => b,
                None => false,
            };
            let ghost before = models(out@);
            assert(fs.subrange(0, i as int + 1).drop_last() =~= fs.subrange(0, i as int));
            assert(fs.subrange(0, i as int + 1).last() == file@);
            if is_generated_file(global, &context.snapshot.projects, file) {
                let msg = concat3("generated file `", file.as_str(), "` must not be edited directly");
                out.push(Diagnostic::error("policy.generated_code_readonly", msg.as_str()).with_path(file.as_str()));
                assert(models(out@) =~= before + seq![models(out@).last()]);
            } else {
                assert(models(out@) =~= before + Seq::<DiagnosticModel>::empty());
            }
            i = i + 1;
        }
        assert(fs.subrange(0, fs.len() as int) =~= fs);
        Ok(out)
    }
}

// ---------------------------------------------------------------------------
// Sorted, deduplicated text lists
// ---------------------------------------------------------------------------

/// The strictly increasing list of the distinct texts in `xs`.
pub open spec fn sorted_distinct(xs: Seq<Seq<char>>) -> Seq<Seq<char>> {
    choose|s: Seq<Seq<char>>| crate::ports::strictly_sorted(s) && s.to_set() == xs.to_set()
}

/// Two strictly increasing lists with the same elements are equal.
pub proof fn lemma_sorted_set_unique(a: Seq<Seq<char>>, b: Seq<Seq<char>>)
    requires
        crate::ports::strictly_sorted(a),
        crate::ports::strictly_sorted(b),
        a.to_set() == b.to_set(),
    ensures
        a == b,
    decreases a.len(),
{
    if a.len() == 0 {
        if b.len() > 0 {
            assert(b.to_set().contains(b[0]));
        }
        assert(a =~= b);
    } else {
        assert(a.to_set().contains(a[0]));
        assert(b.len() > 0);
        assert(b.to_set().contains(b[0]));
        let j = choose|j: int| 0 <= j < b.len() && b[j] == a[0];
        let i = choose|i: int| 0 <= i < a.len() && a[i] == b[0];
        if a[0] != b[0] {
            assert(j > 0 && i > 0);
            assert(crate::text::seq_lt(b[0], b[j]));
            assert(crate::text::seq_lt(a[0], a[i]));
            crate::text::lemma_lt_transitive(a[0], b[0], a[0]);
            crate::text::lemma_lt_irreflexive(a[0]);
        }
        let a1 = a.drop_first();
        let b1 = b.drop_first();
        assert forall|x: Seq<char>| a1.to_set().contains(x) <==> b1.to_set().contains(x) by {
            if a1.contains(x) {
                let k = choose|k: int| 0 <= k < a1.len() && a1[k] == x;
                assert(a[k + 1] == x);
                assert(crate::text::seq_lt(a[0], a[k + 1]));
                if x == b[0] {
                    crate::text::lemma_lt_irreflexive(x);
                }
                assert(b.to_set().contains(x));
                let m = choose|m: int| 0 <= m < b.len() && b[m] == x;
                assert(m != 0);
                assert(b1[m - 1] == x);
            }
            if b1.contains(x) {
                let k = choose|k: int| 0 <= k < b1.len() && b1[k] == x;
                assert(b[k + 1] == x);
                assert(crate::text::seq_lt(b[0], b[k + 1]));
                if x == a[0] {
                    crate::text::lemma_lt_irreflexive(x);
                }
                assert(a.to_set().contains(x));
                let m = choose|m: int| 0 <= m < a.len() && a[m] == x;
                assert(m != 0);
                assert(a1[m - 1] == x);
            }
        }
        assert(a1.to_set() =~= b1.to_set());
        lemma_sorted_set_unique(a1, b1);
        assert(a =~= seq![a[0]] + a1);
        assert(b =~= seq![b[0]] + b1);
    }
}

/// Sorts texts and drops repeats.
pub fn sort_dedup(values: &Vec<String>) -> (r: Vec<String>)
    ensures
        crate::text::strs(r@) == sorted_distinct(crate::text::strs(values@)),
        crate::ports::strictly_sorted(crate::text::strs(r@)),
        crate::text::strs(r@).to_set() == crate::text::strs(values@).to_set(),
{
    let ghost xs = crate::text::strs(values@);
    let mut out: Vec<String> = Vec::new();
    let mut i: usize = 0;
    assert(crate::text::strs(out@).to_set() =~= xs.subrange(0, 0).to_set());
    while i < values.len()
        invariant
            i <= values.len(),
            xs == crate::text::strs(values@),
            crate::ports::strictly_sorted(crate::text::strs(out@)),
            crate::text::strs(out@).to_set() == xs.subrange(0, i as int).to_set(),
        decreases values.len() - i,
    {
        let x = &values[i];
        let ghost os = crate::text::strs(out@);
        let mut p: usize = 0;
        while p < out.len() && crate::text::str_lt(out[p].as_str(), x.as_str())
            invariant
                p <= out.len(),
                os == crate::text::strs(out@),
                forall|k: int| 0 <= k < p ==> crate::text::seq_lt(#[trigger] os[k], x@),
            decreases out.len() - p,
        {
            p = p + 1;
        }
        assert(xs[i as int] == x@);
        assert(xs.subrange(0, i as int + 1) =~= xs.subrange(0, i as int).push(x@));
        assert(xs.subrange(0, i as int + 1).to_set() =~= xs.subrange(0, i as int).to_set().insert(x@)) by {
            let pre = xs.subrange(0, i as int);
            let t = pre.push(x@);
            assert forall|y: Seq<char>| t.contains(y) <==> (pre.contains(y) || y == x@) by {
                if t.contains(y) {
                    let k = choose|k: int| 0 <= k < t.len() && t[k] == y;
                    if k < pre.len() {
                        assert(pre[k] == y);
                    }
                }
                if pre.contains(y) {
                    let k = choose|k: int| 0 <= k < pre.len() && pre[k] == y;
                    assert(t[k] == y);
                }
                if y == x@ {
                    assert(t[pre.len() as int] == y);
                }
            }
        }
        if p < out.len() && crate::text::str_eq(out[p].as_str(), x.as_str()) {
            assert(os[p as int] == x@);
            assert(os.to_set() =~= xs.subrange(0, i as int + 1).to_set()) by {
                assert(os.contains(x@));
            }
        } else {
            proof {
                if p < os.len() {
                    crate::text::lemma_lt_trichotomy(os[p as int], x@);
                }
                let vs = os.map_values(|_k: Seq<char>| Seq::<u8>::empty());
                crate::ports::lemma_sorted_insert(os, vs, p as int, x@, Seq::<u8>::empty());
                assert(os.insert(p as int, x@).to_set() =~= os.to_set().insert(x@)) by {
                    let t = os.insert(p as int, x@);
                    assert forall|y: Seq<char>| t.contains(y) <==> (os.contains(y) || y == x@) by {
                        if t.contains(y) {
                            let k = choose|k: int| 0 <= k < t.len() && t[k] == y;
                            if k < p {
                                assert(os[k] == y);
                            } else if k > p {
                                assert(os[k - 1] == y);
                            }
                        }
                        if os.contains(y) {
                            let k = choose|k: int| 0 <= k < os.len() && os[k] == y;
                            if k < p {
                                assert(t[k] == y);
                            } else {
                                assert(t[k + 1] == y);
                            }
                        }
                        if y == x@ {
                            assert(t[p as int] == y);
                        }
                    }
                }
            }
            out.insert(p, x.clone());
            assert(crate::text::strs(out@) =~= os.insert(p as int, x@));
        }
        i = i + 1;
    }
    assert(xs.subrange(0, xs.len() as int) =~= xs);
    proof {
        let r = crate::text::strs(out@);
        assert(crate::ports::strictly_sorted(r) && r.to_set() == xs.to_set());
        let c = sorted_distinct(xs);
        lemma_sorted_set_unique(r, c);
    }
    out
}

// ---------------------------------------------------------------------------
// High-risk infrastructure changes
// ---------------------------------------------------------------------------

/// Views of owner handles.
pub open spec fn owner_views(v: Seq<crate::domain::OwnerHandle>) -> Seq<Seq<char>> {
    v.map_values(|o: crate::domain::OwnerHandle| o@)
}

/// Owners of every project containing the file, in project order.
pub open spec fn containing_owners(ps: Seq<ProjectManifest>, f: Seq<char>) -> Seq<Seq<char>>
    decreases ps.len(),
{
    if ps.len() == 0 {
        Seq::empty()
    } else {
        containing_owners(ps.drop_last(), f) + if crate::domain::path_below(f, ps.last().path@) {
            owner_views(ps.last().owners@)
        } else {
            Seq::empty()
        }
    }
}

/// Owners whose approval a changed file needs: the production-change owners and
/// the owners of the projects containing it, sorted and without repeats;
/// `@platform` when there are none.
pub open spec fn reviewers(snapshot: RepoSnapshot, f: Seq<char>) -> Seq<Seq<char>> {
    let s = sorted_distinct(
        owner_views(snapshot.repo_manifest.policies.prod_change_required_owners@) + containing_owners(snapshot.projects@, f),
    );
    if s.len() == 0 {
        seq!["@platform"@]
    } else {
        s
    }
}

fn push_owners(out: &mut Vec<String>, owners: &Vec<crate::domain::OwnerHandle>)
    ensures
        crate::text::strs(final(out)@) == crate::text::strs(old(out)@) + owner_views(owners@),
{
    let ghost start = crate::text::strs(out@);
    let mut i: usize = 0;
    while i < owners.len()
        invariant
            i <= owners.len(),
            crate::text::strs(out@) == start + owner_views(owners@).subrange(0, i as int),
        decreases owners.len() - i,
    {
        let ghost prev = crate::text::strs(out@);
        out.push(owned(owners[i].as_str()));
        assert(crate::text::strs(out@) =~= prev.push(owners@[i as int]@));
        assert(owner_views(owners@)[i as int] == owners@[i as int]@);
        assert(owner_views(owners@).subrange(0, i as int + 1) =~= owner_views(owners@).subrange(0, i as int).push(owners@[i as int]@));
        i = i + 1;
        assert(crate::text::strs(out@) =~= start + owner_views(owners@).subrange(0, i as int));
    }
    assert(owner_views(owners@).subrange(0, owners@.len() as int) =~= owner_views(owners@));
}

/// Owners whose approval a changed file needs.
pub fn required_reviewers(snapshot: &RepoSnapshot, file: &crate::domain::RepoRelativePath) -> (r: Vec<String>)
    ensures
        crate::text::strs(r@) == reviewers(*snapshot, file@),
{
    let mut candidates: Vec<String> = Vec::new();
    assert(crate::text::strs(candidates@) =~= Seq::<Seq<char>>::empty());
    push_owners(&mut candidates, &snapshot.repo_manifest.policies.prod_change_required_owners);
    let ghost base = crate::text::strs(candidates@);
    let ghost ps = snapshot.projects@;
    let mut i: usize = 0;
    assert(ps.subrange(0, 0) =~= Seq::<ProjectManifest>::empty());
    assert(base + containing_owners(ps.subrange(0, 0), file@) =~= base);
    while i < snapshot.projects.len()
        invariant
            i <= snapshot.projects.len(),
            ps == snapshot.projects@,
            crate::text::strs(candidates@) == base + containing_owners(ps.subrange(0, i as int), file@),
        decreases snapshot.projects.len() - i,
    {
        let ghost before = crate::text::strs(candidates@);
        assert(ps.subrange(0, i as int + 1).drop_last() =~= ps.subrange(0, i as int));
        assert(ps.subrange(0, i as int + 1).last() == ps[i as int]);
        if snapshot.projects[i].contains_path(file) {
            push_owners(&mut candidates, &snapshot.projects[i].owners);
            assert(crate::text::strs(candidates@) =~= base + containing_owners(ps.subrange(0, i as int + 1), file@));
        } else {
            assert(crate::text::strs(candidates@) =~= base + containing_owners(ps.subrange(0, i as int + 1), file@));
        }
        i = i + 1;
    }
    assert(ps.subrange(0, ps.len() as int) =~= ps);
    let mut out = sort_dedup(&candidates);
    if out.len() == 0 {
        out.push(owned("@platform"));
        assert(crate::text::strs(out@) =~= seq!["@platform"@]);
    }
    out
}

/// Joins texts with a separator.
pub fn join_strings(values: &Vec<String>, sep: &str) -> (r: String)
    ensures
        r@ == crate::text::join_with(crate::text::strs(values@), sep@),
{
    let mut parts: Vec<Vec<char>> = Vec::new();
    let mut i: usize = 0;
    while i < values.len()
        invariant
            i <= values.len(),
            parts@.len() == i,
            forall|k: int| 0 <= k < i ==> (#[trigger] parts@[k])@ == values@[k]@,
        decreases values.len() - i,
    {
        parts.push(crate::text::chars_of(values[i].as_str()));
        i = i + 1;
    }
    assert(crate::text::pieces(parts@) =~= crate::text::strs(values@));
    let joined = crate::text::join_exec(&parts, &crate::text::chars_of(sep));
    crate::text::string_of(&joined)
}

/// Globs that mark high-risk infrastructure paths.
pub open spec fn high_risk_patterns() -> Seq<Seq<char>> {
    seq![
        "core-infra/**"@,
        "apps/*/iac/stacks/prod/**"@,
        "apps/*/iac/stacks/prod*"@,
        "foundations/*/iac/stacks/prod/**"@,
        "foundations/*/iac/stacks/prod*"@,
    ]
}

/// A changed file matched by a high-risk glob.
pub open spec fn high_risk_file(f: Seq<char>) -> bool {
    exists|k: int| 0 <= k < 5 && crate::domain::glob_matches(#[trigger] high_risk_patterns()[k], f)
}

/// All high-risk globs compile.
pub open spec fn high_risk_globs_compile() -> bool {
    forall|k: int| 0 <= k < 5 ==> (#[trigger] crate::domain::glob_parse(high_risk_patterns()[k])) is Ok
}

/// The warnings for high-risk files among the changed files, in order.
pub open spec fn high_risk_report(fs: Seq<Seq<char>>, snapshot: RepoSnapshot) -> Seq<DiagnosticModel>
    decreases fs.len(),
{
    if fs.len() == 0 {
        Seq::empty()
    } else {
        high_risk_report(fs.drop_last(), snapshot) + if high_risk_file(fs.last()) {
            seq![with_help_model(
                with_path_model(
                    crate::diagnostic::plain(
                        "policy.high_risk_iac"@,
                        crate::diagnostic::Severity::Warning,
                        "high-risk infrastructure change `"@ + fs.last() + "` requires review"@,
                    ),
                    fs.last(),
                ),
                "required approvers: "@ + crate::text::join_with(reviewers(snapshot, fs.last()), ", "@),
            )]
        } else {
            Seq::empty()
        }
    }
}

proof fn lemma_high_risk_pattern_len(k: int)
    requires
        0 <= k < 5,
    ensures
        high_risk_patterns()[k].len() <= 1025,
        !high_risk_patterns()[k].contains('\\'),
{
    reveal_strlit("core-infra/**");
    reveal_strlit("apps/*/iac/stacks/prod/**");
    reveal_strlit("apps/*/iac/stacks/prod*");
    reveal_strlit("foundations/*/iac/stacks/prod/**");
    reveal_strlit("foundations/*/iac/stacks/prod*");
}

fn high_risk_pattern(k: usize) -> (p: &'static str)
    requires
        k < 5,
    ensures
        p@ == high_risk_patterns()[k as int],
{
    if k == 0 {
        "core-infra/**"
    } else if k == 1 {
        "apps/*/iac/stacks/prod/**"
    } else if k == 2 {
        "apps/*/iac/stacks/prod*"
    } else if k == 3 {
        "foundations/*/iac/stacks/prod/**"
    } else {
        "foundations/*/iac/stacks/prod*"
    }
}

fn is_high_risk(file: &str) -> (r: bool)
    requires
        high_risk_globs_compile(),
        !file@.contains('\\'),
    ensures
        r == high_risk_file(file@),
{
    let mut k: usize = 0;
    while k < 5
        invariant
            k <= 5,
            high_risk_globs_compile(),
            !file@.contains('\\'),
            forall|j: int| 0 <= j < k ==> !crate::domain::glob_matches(#[trigger] high_risk_patterns()[j], file@),
        decreases 5 - k,
    {
        let p = high_risk_pattern(k);
        assert(crate::domain::glob_parse(high_risk_patterns()[k as int]) is Ok);
        proof {
            lemma_high_risk_pattern_len(k as int);
        }
        match crate::domain::glob_is_match(p, file) {
            Some(true) => {
                return true;
            },
            _ => {},
        }
        k = k + 1;
    }
    false
}

/// Reports high-risk infrastructure changes.
#[derive(Clone, Copy, Debug, Default)]
pub struct HighRiskIacRule;

impl PolicyRule for HighRiskIacRule {
    fn name(&self) -> (s: &'static str)
        ensures
            s@ == "high-risk-iac"@,
    {
        "high-risk-iac"
    }

    fn evaluate(&self, context: &PolicyContext) -> (r: Result<Vec<Diagnostic>, RepoctlError>)
        ensures
            match r {
                Ok(v) => high_risk_globs_compile()
                    && models(v@) == high_risk_report(path_list(context.changed_files@), *context.snapshot),
                Err(e) => exists|k: int| 0 <= k < 5 && (forall|j: int| 0 <= j < k ==> (#[trigger] crate::domain::glob_parse(high_risk_patterns()[j])) is Ok)
                    && match crate::domain::glob_parse(#[trigger] high_risk_patterns()[k]) {
                        Err(m) => e == RepoctlError::Internal(e->Internal_0) && e->Internal_0@ == builtin_glob_error(high_risk_patterns()[k], m),
                        Ok(_) => false,
                    },
            },
    {
        let mut k: usize = 0;
        while k < 5
            invariant
                k <= 5,
                forall|j: int| 0 <= j < k ==> (#[trigger] crate::domain::glob_parse(high_risk_patterns()[j])) is Ok,
            decreases 5 - k,
        {
            proof {
                lemma_high_risk_pattern_len(k as int);
            }
            match builtin_glob(high_risk_pattern(k)) {
                Ok(()) => {},
                Err(e) => {
                    return Err(e);
                },
            }
            k = k + 1;
        }
        let ghost fs = path_list(context.changed_files@);
        let mut out: Vec<Diagnostic> = Vec::new();
        let mut i: usize = 0;
        assert(fs.subrange(0, 0) =~= Seq::<Seq<char>>::empty());
        assert(models(out@) =~= Seq::<DiagnosticModel>::empty());
        while i < context.changed_files.len()
            invariant
                i <= context.changed_files.len(),
                fs == path_list(context.changed_files@),
                high_risk_globs_compile(),
                models(out@) == high_risk_report(fs.subrange(0, i as int), *context.snapshot),
            decreases context.changed_files.len() - i,
        {
            let file = &context.changed_files[i];
            proof {
                use_type_invariant(file);
            }
            let ghost before = models(out@);
            assert(fs.subrange(0, i as int + 1).drop_last() =~= fs.subrange(0, i as int));
            assert(fs.subrange(0, i as int + 1).last() == file@);
            if is_high_risk(file.as_str()) {
                let reviewers = required_reviewers(context.snapshot, file);
                let msg = concat3("high-risk infrastructure change `", file.as_str(), "` requires review");
                let help = concat2("required approvers: ", join_strings(&reviewers, ", ").as_str());
                out.push(Diagnostic::warning("policy.high_risk_iac", msg.as_str()).with_path(file.as_str()).with_help(help.as_str()));
                assert(models(out@) =~= before + seq![models(out@).last()]);
            } else {
                assert(models(out@) =~= before + Seq::<DiagnosticModel>::empty());
            }
            i = i + 1;
        }
        assert(fs.subrange(0, fs.len() as int) =~= fs);
        Ok(out)
    }
}

// ---------------------------------------------------------------------------
// The rule set
// ---------------------------------------------------------------------------

/// Path a diagnostic is located at, if any.
pub open spec fn source_path(d: DiagnosticModel) -> Option<Seq<char>> {
    match d.source {
        Some(s) => Some(s.path),
        None => None,
    }
}

/// Order of diagnostics: by code, message, project, then path.
pub open spec fn diag_lt(a: DiagnosticModel, b: DiagnosticModel) -> bool {
    if a.code != b.code {
        crate::text::seq_lt(a.code, b.code)
    } else if a.message != b.message {
        crate::text::seq_lt(a.message, b.message)
    } else if a.project != b.project {
        crate::graph::opt_lt(a.project, b.project)
    } else {
        crate::graph::opt_lt(source_path(a), source_path(b))
    }
}

proof fn lemma_opt_lt_props(a: Option<Seq<char>>, b: Option<Seq<char>>, c: Option<Seq<char>>)
    ensures
        !crate::graph::opt_lt(a, a),
        crate::graph::opt_lt(a, b) && crate::graph::opt_lt(b, c) ==> crate::graph::opt_lt(a, c),
{
    if let Some(x) = a {
        crate::text::lemma_lt_irreflexive(x);
    }
    if crate::graph::opt_lt(a, b) && crate::graph::opt_lt(b, c) {
        if let (Some(x), Some(y), Some(z)) = (a, b, c) {
            crate::text::lemma_lt_transitive(x, y, z);
        }
    }
}

/// Diagnostic order is irreflexive and transitive.
pub proof fn lemma_diag_lt(a: DiagnosticModel, b: DiagnosticModel, c: DiagnosticModel)
    ensures
        !diag_lt(a, a),
        diag_lt(a, b) && diag_lt(b, c) ==> diag_lt(a, c),
{
    crate::text::lemma_lt_irreflexive(a.code);
    crate::text::lemma_lt_irreflexive(a.message);
    lemma_opt_lt_props(a.project, b.project, c.project);
    lemma_opt_lt_props(source_path(a), source_path(b), source_path(c));
    if crate::text::seq_lt(a.code, b.code) && crate::text::seq_lt(b.code, c.code) {
        crate::text::lemma_lt_transitive(a.code, b.code, c.code);
    }
    if crate::text::seq_lt(a.message, b.message) && crate::text::seq_lt(b.message, c.message) {
        crate::text::lemma_lt_transitive(a.message, b.message, c.message);
    }
    if a.code == c.code && crate::text::seq_lt(a.code, b.code) && crate::text::seq_lt(b.code, c.code) {
        crate::text::lemma_lt_irreflexive(a.code);
    }
    if a.message == c.message && crate::text::seq_lt(a.message, b.message) && crate::text::seq_lt(b.message, c.message) {
        crate::text::lemma_lt_irreflexive(a.message);
    }
}

/// Diagnostics ordered by code, message, project and path.
pub open spec fn diags_ordered(ds: Seq<DiagnosticModel>) -> bool {
    forall|i: int, j: int| 0 <= i < j < ds.len() ==> !diag_lt(#[trigger] ds[j], #[trigger] ds[i])
}

fn opt_text_lt(a: &Option<String>, b: &Option<String>) -> (r: bool)
    ensures
        r == crate::graph::opt_lt(opt_view(*a), opt_view(*b)),
{
    match (a, b) {
        (None, Some(_)) => true,
        (Some(x), Some(y)) => crate::text::str_lt(x.as_str(), y.as_str()),
        _ => false,
    }
}

fn source_path_of(d: &Diagnostic) -> (r: Option<String>)
    ensures
        opt_view(r) == source_path(d@),
{
    match &d.source {
        Some(s) => Some(s.path.clone()),
        None => None,
    }
}

fn diag_before(a: &Diagnostic, b: &Diagnostic) -> (r: bool)
    ensures
        r == diag_lt(a@, b@),
{
    if a.code != b.code {
        crate::text::str_lt(a.code.as_str(), b.code.as_str())
    } else if a.message != b.message {
        crate::text::str_lt(a.message.as_str(), b.message.as_str())
    } else if !crate::domain::same_opt(&a.project, &b.project) {
        opt_text_lt(&a.project, &b.project)
    } else {
        opt_text_lt(&source_path_of(a), &source_path_of(b))
    }
}

/// Where a diagnostic goes among ordered ones: before the first that it
/// sorts before, so after every one with an equal key.
pub open spec fn insertion_point(s: Seq<DiagnosticModel>, x: DiagnosticModel) -> int
    decreases s.len(),
{
    if s.len() == 0 {
        0
    } else if diag_lt(x, s[0]) {
        0
    } else {
        1 + insertion_point(s.drop_first(), x)
    }
}

/// Diagnostics sorted by key, those with equal keys in their original
/// order (a stable sort).
pub open spec fn stable_sorted(xs: Seq<DiagnosticModel>) -> Seq<DiagnosticModel>
    decreases xs.len(),
{
    if xs.len() == 0 {
        Seq::empty()
    } else {
        let s = stable_sorted(xs.drop_last());
        s.insert(insertion_point(s, xs.last()), xs.last())
    }
}

proof fn lemma_insertion_point(s: Seq<DiagnosticModel>, x: DiagnosticModel, p: int)
    requires
        0 <= p <= s.len(),
        forall|k: int| 0 <= k < p ==> !diag_lt(x, #[trigger] s[k]),
        p == s.len() || diag_lt(x, s[p]),
    ensures
        insertion_point(s, x) == p,
    decreases s.len(),
{
    if s.len() > 0 && p > 0 {
        assert(!diag_lt(x, s[0]));
        let t = s.drop_first();
        assert forall|k: int| 0 <= k < p - 1 implies !diag_lt(x, #[trigger] t[k]) by {
            assert(t[k] == s[k + 1]);
        }
        if p < s.len() {
            assert(t[p - 1] == s[p]);
        }
        lemma_insertion_point(t, x, p - 1);
    }
}

/// Sorts diagnostics by code, message, project and path, keeping the
/// order of equal keys.
pub fn sort_diagnostics(diagnostics: Vec<Diagnostic>) -> (r: Vec<Diagnostic>)
    ensures
        models(r@) == stable_sorted(models(diagnostics@)),
        diags_ordered(models(r@)),
        models(r@).to_multiset() == models(diagnostics@).to_multiset(),
{
    broadcast use vstd::seq_lib::group_to_multiset_ensures;
    let ghost all = models(diagnostics@);
    let n = diagnostics.len();
    let mut rest = diagnostics;
    let mut out: Vec<Diagnostic> = Vec::new();
    let mut i: usize = 0;
    while rest.len() > 0
        invariant
            all.len() == n,
            i + rest@.len() == all.len(),
            models(rest@) == all.subrange(i as int, all.len() as int),
            diags_ordered(models(out@)),
            models(out@).to_multiset() == all.subrange(0, i as int).to_multiset(),
            models(out@) == stable_sorted(all.subrange(0, i as int)),
        decreases rest.len(),
    {
        let ghost rest_before = rest@;
        assert(models(rest_before)[0] == all[i as int]);
        let x = rest.remove(0);
        assert(x@ == all[i as int]);
        let ghost os = models(out@);
        let mut p: usize = 0;
        while p < out.len() && !diag_before(&x, &out[p])
            invariant
                p <= out.len(),
                os == models(out@),
                forall|k: int| 0 <= k < p ==> !diag_lt(x@, #[trigger] os[k]),
            decreases out.len() - p,
        {
            p = p + 1;
        }
        proof {
            lemma_insertion_point(os, x@, p as int);
            assert(all.subrange(0, i as int + 1).drop_last() =~= all.subrange(0, i as int));
            let es = os.insert(p as int, x@);
            assert forall|a: int, b: int| 0 <= a < b < es.len() implies !diag_lt(#[trigger] es[b], #[trigger] es[a]) by {
                if b < p {
                } else if b == p {
                } else if a < p {
                    if diag_lt(os[b - 1], os[a]) {
                        if b - 1 > p {
                            lemma_diag_lt(os[p as int], os[b - 1], os[a]);
                        }
                        lemma_diag_lt(x@, os[p as int], os[a]);
                    }
                } else if a == p {
                    if diag_lt(os[b - 1], x@) {
                        lemma_diag_lt(os[b - 1], x@, os[p as int]);
                        if b - 1 > p {
                            assert(!diag_lt(os[b - 1], os[p as int]));
                        } else {
                            lemma_diag_lt(os[p as int], x@, x@);
                        }
                    }
                } else {
                }
            }
            crate::graph::lemma_multiset_insert(os, p as int, x@);
        }
        out.insert(p, x);
        assert(models(out@) =~= os.insert(p as int, x@));
        proof {
            vstd::seq_lib::to_multiset_build(all.subrange(0, i as int), x@);
            assert(all.subrange(0, i as int + 1) =~= all.subrange(0, i as int).push(x@));
        }
        i = i + 1;
        assert(models(rest@) =~= models(rest_before).drop_first());
        assert(models(rest@) =~= all.subrange(i as int, all.len() as int));
    }
    assert(all.subrange(0, all.len() as int) =~= all);
    out
}

/// Everything the rule set reports, rule by rule: cross-app, project-kind,
/// framework-facade and foundation-client edges, then generated files and
/// high-risk infrastructure changes.
pub open spec fn policy_report(snapshot: RepoSnapshot, changed: Seq<Seq<char>>) -> Seq<DiagnosticModel> {
    let es = edge_views(snapshot.graph.edges@);
    let ps = snapshot.projects@;
    edge_rule_report(EdgeRule::CrossApp, es, ps)
        + edge_rule_report(EdgeRule::ProjectKind, es, ps)
        + edge_rule_report(EdgeRule::FrameworkFacade, es, ps)
        + edge_rule_report(EdgeRule::FoundationClient, es, ps)
        + generated_report(changed, ps)
        + high_risk_report(changed, snapshot)
}

/// All built-in globs compile.
pub open spec fn policy_globs_compile() -> bool {
    crate::domain::glob_parse("**/generated/**"@) is Ok && high_risk_globs_compile()
}

/// The error of the first rule that fails: the generated-code rule when its
/// glob does not compile, else the high-risk rule at its first glob that
/// does not compile.
pub open spec fn first_rule_error(e: RepoctlError) -> bool {
    match crate::domain::glob_parse("**/generated/**"@) {
        Err(m) => e == RepoctlError::Internal(e->Internal_0) && e->Internal_0@ == builtin_glob_error("**/generated/**"@, m),
        Ok(_) => exists|k: int| 0 <= k < 5 && (forall|j: int| 0 <= j < k ==> (#[trigger] crate::domain::glob_parse(high_risk_patterns()[j])) is Ok)
            && match crate::domain::glob_parse(#[trigger] high_risk_patterns()[k]) {
                Err(m) => e == RepoctlError::Internal(e->Internal_0) && e->Internal_0@ == builtin_glob_error(high_risk_patterns()[k], m),
                Ok(_) => false,
            },
    }
}

/// Evaluates the boundary policy rule set.
#[derive(Clone, Copy, Debug, Default)]
pub struct PolicyEngine;

impl PolicyEngine {
    /// Evaluates all rules against a snapshot; the diagnostics come ordered
    /// by code, message, project and path.
    pub fn evaluate(&self, snapshot: &RepoSnapshot, changed_files: &[crate::domain::RepoRelativePath]) -> (r: Result<Vec<Diagnostic>, RepoctlError>)
        ensures
            match r {
                Ok(v) => policy_globs_compile() && diags_ordered(models(v@))
                    && models(v@) == stable_sorted(policy_report(*snapshot, path_list(changed_files@)))
                    && models(v@).to_multiset() == policy_report(*snapshot, path_list(changed_files@)).to_multiset(),
                Err(e) => !policy_globs_compile() && first_rule_error(e),
            },
    {
        let context = PolicyContext { snapshot, changed_files };
        let mut all = CrossAppDependencyRule.evaluate(&context)?;
        let mut more = ProjectKindDependencyRule.evaluate(&context)?;
        all.append(&mut more);
        let mut more = FrameworkFacadeOnlyRule.evaluate(&context)?;
        all.append(&mut more);
        let mut more = FoundationPublicClientOnlyRule.evaluate(&context)?;
        all.append(&mut more);
        let mut more = match GeneratedCodeReadonlyRule.evaluate(&context) {
            Ok(v) => v,
            Err(e) => {
                return Err(e);
            },
        };
        all.append(&mut more);
        let mut more = match HighRiskIacRule.evaluate(&context) {
            Ok(v) => v,
            Err(e) => {
                return Err(e);
            },
        };
        all.append(&mut more);
        let ghost changed = path_list(changed_files@);
        assert(models(all@) =~= policy_report(*snapshot, changed));
        Ok(sort_diagnostics(all))
    }
}

} // verus!
