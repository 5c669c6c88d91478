//! Repository discovery: which files are project manifests, and the checks
//! that turn parsed manifests into the validated project list of a snapshot.
use vstd::prelude::*;

use crate::diagnostic::{
    Diagnostic, DiagnosticModel, RepoctlError, Severity, error_diagnostics, error_model, models, with_path_model,
    with_project_model,
};
use crate::domain::{
    DependencyTarget, ProjectDependency, ProjectManifest, RepoManifest, RepoRelativePath, convention_diagnostics,
    join_project_spec, validate_project_convention,
};
use crate::ports::path_views;
use crate::text::{chars_of, concat3, has_suffix, push_str, seq_lt, str_eq, str_lt};

verus! {

broadcast use vstd::seq_lib::group_to_multiset_ensures;

// ---------------------------------------------------------------------------
// Manifest paths
// ---------------------------------------------------------------------------

/// A project manifest file.
pub open spec fn is_project_manifest(p: Seq<char>) -> bool {
    has_suffix(p, "project.yaml"@)
}

/// Paths in order: no later path sorts before an earlier one.
pub open spec fn paths_ordered(ps: Seq<Seq<char>>) -> bool {
    forall|i: int, j: int| 0 <= i < j < ps.len() ==> !seq_lt(#[trigger] ps[j], #[trigger] ps[i])
}

/// The project manifests among the walked files, sorted by path.
pub fn project_manifest_paths(files: &Vec<RepoRelativePath>) -> (r: Vec<RepoRelativePath>)
    ensures
        paths_ordered(path_views(r@)),
        path_views(r@).to_multiset() == path_views(files@).filter(|p: Seq<char>| is_project_manifest(p)).to_multiset(),
{
    let ghost keep = |p: Seq<char>| is_project_manifest(p);
    let ghost fs = path_views(files@);
    let mut out: Vec<RepoRelativePath> = Vec::new();
    let suffix = chars_of("project.yaml");
    proof {
        reveal_strlit("project.yaml");
    }
    let mut i: usize = 0;
    assert(fs.subrange(0, 0).filter(keep) =~= Seq::<Seq<char>>::empty()) by {
        assert(fs.subrange(0, 0) =~= Seq::<Seq<char>>::empty());
        Seq::<Seq<char>>::empty().lemma_filter_eq_filter_alt(keep);
    }
    assert(path_views(out@) =~= Seq::<Seq<char>>::empty());
    while i < files.len()
        invariant
            i <= files.len(),
            fs == path_views(files@),
            keep == (|p: Seq<char>| is_project_manifest(p)),
            suffix@ == "project.yaml"@,
            paths_ordered(path_views(out@)),
            path_views(out@).to_multiset() == fs.subrange(0, i as int).filter(keep).to_multiset(),
        decreases files.len() - i,
    {
        proof {
            assert(fs.subrange(0, i as int + 1) =~= fs.subrange(0, i as int).push(fs[i as int]));
            fs.subrange(0, i as int).lemma_filter_push(fs[i as int], keep);
        }
        let f = &files[i];
        if crate::text::ends_with(&chars_of(f.as_str()), &suffix) {
            let ghost before = path_views(out@);
            let mut p: usize = out.len();
            while p > 0 && str_lt(f.as_str(), out[p - 1].as_str())
                invariant
                    p <= out.len(),
                    before == path_views(out@),
                    forall|k: int| p <= k < out.len() ==> seq_lt(f@, #[trigger] before[k]),
                decreases p,
            {
                p = p - 1;
            }
            proof {
                assert forall|a: int, b: int| 0 <= a < b < before.insert(p as int, f@).len() implies
                    !seq_lt(#[trigger] before.insert(p as int, f@)[b], #[trigger] before.insert(p as int, f@)[a]) by {
                    let s = before.insert(p as int, f@);
                    if a < p && b == p {
                        assert(s[a] == before[a] && s[b] == f@);
                        if seq_lt(f@, before[a]) {
                            let q = (p - 1) as int;
                            assert(!seq_lt(f@, before[q]));
                            if a < q {
                                assert(!seq_lt(before[q], before[a]));
                                crate::text::lemma_lt_trichotomy(before[a], before[q]);
                                if seq_lt(before[a], before[q]) {
                                    crate::text::lemma_lt_transitive(f@, before[a], before[q]);
                                }
                            }
                        }
                    } else if a == p && b > p {
                        assert(s[b] == before[b - 1]);
                        assert(seq_lt(f@, before[b - 1]));
                        crate::text::lemma_lt_irreflexive(f@);
                        if seq_lt(before[b - 1], f@) {
                            crate::text::lemma_lt_transitive(f@, before[b - 1], f@);
                        }
                    } else if a < p && b > p {
                        assert(s[a] == before[a] && s[b] == before[b - 1]);
                    } else if b < p {
                        assert(s[a] == before[a] && s[b] == before[b]);
                    } else {
                        assert(s[a] == before[a - 1] && s[b] == before[b - 1]);
                    }
                }
            }
            out.insert(p, f.duplicate());
            assert(path_views(out@) =~= before.insert(p as int, f@));
            proof {
                crate::graph::lemma_multiset_insert(before, p as int, f@);
            }
        }
        i = i + 1;
    }
    assert(fs.subrange(0, files.len() as int) =~= fs);
    out
}


// ---------------------------------------------------------------------------
// Checks over the parsed projects
// ---------------------------------------------------------------------------

/// `d` tied to the project's manifest file and to the project.
pub open spec fn about(d: DiagnosticModel, p: ProjectManifest) -> DiagnosticModel {
    with_project_model(with_path_model(d, p.source@), p.name@)
}

fn about_exec(d: Diagnostic, p: &ProjectManifest) -> (r: Diagnostic)
    ensures
        r@ == about(d@, *p),
{
    d.with_path(p.source.as_str()).with_project(p.name.as_str())
}

/// Error for a project without owners when the repo sets no default.
pub open spec fn owner_missing_error(p: ProjectManifest) -> DiagnosticModel {
    about(error_model("manifest.project.owner_missing"@, "project `"@ + p.name@ + "` must declare at least one owner"@), p)
}

/// Owners of a project once the repo default is applied.
pub open spec fn owners_after(repo: RepoManifest, p: ProjectManifest) -> Seq<Seq<char>> {
    if p.owners@.len() == 0 {
        match repo.default_owner {
            Some(o) => seq![o@],
            None => Seq::empty(),
        }
    } else {
        crate::policy::owner_views(p.owners@)
    }
}

/// `a` is `b` with the repo default owner applied.
pub open spec fn defaulted(repo: RepoManifest, a: ProjectManifest, b: ProjectManifest) -> bool {
    &&& a == (ProjectManifest { owners: a.owners, ..b })
    &&& crate::policy::owner_views(a.owners@) == owners_after(repo, b)
}

/// Errors for projects without owners, in order.
pub open spec fn owner_diagnostics(repo: RepoManifest, ps: Seq<ProjectManifest>) -> Seq<DiagnosticModel>
    decreases ps.len(),
{
    if ps.len() == 0 {
        Seq::empty()
    } else {
        owner_diagnostics(repo, ps.drop_last()) + if ps.last().owners@.len() == 0 && repo.default_owner is None {
            seq![owner_missing_error(ps.last())]
        } else {
            Seq::empty()
        }
    }
}

/// Gives projects without owners the repo's default owner, and reports
/// those left without one.
pub fn apply_repo_defaults(repo_manifest: &RepoManifest, projects: &mut Vec<ProjectManifest>, diagnostics: &mut Vec<Diagnostic>)
    ensures
        final(projects)@.len() == old(projects)@.len(),
        forall|k: int| 0 <= k < old(projects)@.len() ==> defaulted(*repo_manifest, #[trigger] final(projects)@[k], old(projects)@[k]),
        models(final(diagnostics)@) == models(old(diagnostics)@) + owner_diagnostics(*repo_manifest, old(projects)@),
{
    let ghost ps0 = projects@;
    let ghost d0 = models(diagnostics@);
    let mut i: usize = 0;
    assert(ps0.subrange(0, 0) =~= Seq::<ProjectManifest>::empty());
    assert(models(diagnostics@) =~= d0 + owner_diagnostics(*repo_manifest, ps0.subrange(0, 0)));
    while i < projects.len()
        invariant
            i <= projects.len(),
            projects@.len() == ps0.len(),
            forall|k: int| 0 <= k < i ==> defaulted(*repo_manifest, #[trigger] projects@[k], ps0[k]),
            forall|k: int| i <= k < ps0.len() ==> #[trigger] projects@[k] == ps0[k],
            models(diagnostics@) == d0 + owner_diagnostics(*repo_manifest, ps0.subrange(0, i as int)),
        decreases projects.len() - i,
    {
        assert(ps0.subrange(0, i as int + 1).drop_last() =~= ps0.subrange(0, i as int));
        assert(projects@[i as int] == ps0[i as int]);
        let ghost dm = models(diagnostics@);
        if projects[i].owners.len() == 0 {
            match &repo_manifest.default_owner {
                Some(owner) => {
                    let mut p = projects.remove(i);
                    let ghost before = p;
                    p.owners.push(owner.duplicate());
                    assert(crate::policy::owner_views(p.owners@) =~= seq![owner@]);
                    projects.insert(i, p);
                    assert(models(diagnostics@) =~= dm + Seq::<DiagnosticModel>::empty());
                },
                None => {
                    proof {
                        reveal_strlit("manifest.project.owner_missing");
                    }
                    let p = &projects[i];
                    let msg = concat3("project `", p.name.as_str(), "` must declare at least one owner");
                    let d = about_exec(Diagnostic::error("manifest.project.owner_missing", msg.as_str()), p);
                    diagnostics.push(d);
                    assert(models(diagnostics@) =~= dm + seq![owner_missing_error(ps0[i as int])]);
                    assert(crate::policy::owner_views(projects@[i as int].owners@) =~= Seq::<Seq<char>>::empty());
                },
            }
        } else {
            assert(models(diagnostics@) =~= dm + Seq::<DiagnosticModel>::empty());
        }
        i = i + 1;
    }
    assert(ps0.subrange(0, ps0.len() as int) =~= ps0);
}

/// Error for a project whose name an earlier project already has.
pub open spec fn duplicate_name_error(p: ProjectManifest) -> DiagnosticModel {
    about(error_model("manifest.project.duplicate_name"@, "duplicate project name `"@ + p.name@ + "`"@), p)
}

/// Some earlier project has the name.
pub open spec fn named_before(ps: Seq<ProjectManifest>, n: int, name: Seq<char>) -> bool {
    exists|j: int| 0 <= j < n && (#[trigger] ps[j]).name@ == name
}

/// Errors for repeated project names, in order.
pub open spec fn name_diagnostics(ps: Seq<ProjectManifest>) -> Seq<DiagnosticModel>
    decreases ps.len(),
{
    if ps.len() == 0 {
        Seq::empty()
    } else {
        name_diagnostics(ps.drop_last()) + if named_before(ps, ps.len() - 1, ps.last().name@) {
            seq![duplicate_name_error(ps.last())]
        } else {
            Seq::empty()
        }
    }
}

proof fn lemma_named_before_prefix(ps: Seq<ProjectManifest>, n: int, name: Seq<char>)
    requires
        0 <= n <= ps.len(),
    ensures
        named_before(ps.subrange(0, n), n, name) == named_before(ps, n, name),
{
    if named_before(ps, n, name) {
        let j = choose|j: int| 0 <= j < n && (#[trigger] ps[j]).name@ == name;
        assert(ps.subrange(0, n)[j] == ps[j]);
    }
    if named_before(ps.subrange(0, n), n, name) {
        let j = choose|j: int| 0 <= j < n && (#[trigger] ps.subrange(0, n)[j]).name@ == name;
        assert(ps.subrange(0, n)[j] == ps[j]);
    }
}

/// Reports project names used more than once.
pub fn validate_project_names(projects: &Vec<ProjectManifest>) -> (r: Vec<Diagnostic>)
    ensures
        models(r@) == name_diagnostics(projects@),
{
    let ghost ps = projects@;
    let mut out: Vec<Diagnostic> = Vec::new();
    let mut i: usize = 0;
    assert(ps.subrange(0, 0) =~= Seq::<ProjectManifest>::empty());
    assert(models(out@) =~= name_diagnostics(ps.subrange(0, 0)));
    while i < projects.len()
        invariant
            i <= projects.len(),
            ps == projects@,
            models(out@) == name_diagnostics(ps.subrange(0, i as int)),
        decreases projects.len() - i,
    {
        let ghost pre = ps.subrange(0, i as int + 1);
        assert(pre.drop_last() =~= ps.subrange(0, i as int));
        assert(pre.last() == ps[i as int]);
        proof {
            lemma_named_before_prefix(ps, i as int, ps[i as int].name@);
            assert forall|j: int| 0 <= j < i implies #[trigger] pre[j] == ps[j] by {}
            if named_before(ps, i as int, ps[i as int].name@) {
                let j = choose|j: int| 0 <= j < i && (#[trigger] ps[j]).name@ == ps[i as int].name@;
                assert(pre[j] == ps[j]);
            }
            if named_before(pre, i as int, ps[i as int].name@) {
                let j = choose|j: int| 0 <= j < i && (#[trigger] pre[j]).name@ == ps[i as int].name@;
                assert(pre[j] == ps[j]);
            }
        }
        let mut seen = false;
        let mut j: usize = 0;
        while j < i
            invariant
                j <= i,
                i < projects.len(),
                ps == projects@,
                seen == named_before(ps, j as int, ps[i as int].name@),
            decreases i - j,
        {
            if projects[j].name.same(&projects[i].name) {
                seen = true;
            }
            proof {
                if named_before(ps, j as int + 1, ps[i as int].name@) && !named_before(ps, j as int, ps[i as int].name@) {
                    let q = choose|q: int| 0 <= q < j + 1 && (#[trigger] ps[q]).name@ == ps[i as int].name@;
                    assert(q == j);
                }
                if named_before(ps, j as int, ps[i as int].name@) {
                    let q = choose|q: int| 0 <= q < j && (#[trigger] ps[q]).name@ == ps[i as int].name@;
                    assert(0 <= q < j + 1);
                }
                if projects@[j as int].name@ == ps[i as int].name@ {
                    assert(ps[j as int].name@ == ps[i as int].name@);
                }
            }
            j = j + 1;
        }
        let ghost dm = models(out@);
        if seen {
            proof {
                reveal_strlit("manifest.project.duplicate_name");
            }
            let p = &projects[i];
            let msg = concat3("duplicate project name `", p.name.as_str(), "`");
            out.push(about_exec(Diagnostic::error("manifest.project.duplicate_name", msg.as_str()), p));
            assert(models(out@) =~= dm + seq![duplicate_name_error(ps[i as int])]);
        } else {
            assert(models(out@) =~= dm + Seq::<DiagnosticModel>::empty());
        }
        i = i + 1;
    }
    assert(ps.subrange(0, ps.len() as int) =~= ps);
    out
}


/// Error for a manifest that is not at its declared project path.
pub open spec fn path_mismatch_error(p: ProjectManifest, expected: Seq<char>) -> DiagnosticModel {
    crate::diagnostic::with_help_model(
        about(
            error_model(
                "manifest.project.path_mismatch"@,
                "project `"@ + p.name@ + "` declares path `"@ + p.path@ + "` but manifest is at `"@ + p.source@ + "`"@,
            ),
            p,
        ),
        "move the manifest to `"@ + expected + "` or update `path`"@,
    )
}

/// What a project's manifest location yields, given the manifest file
/// name as a project-relative path.
pub open spec fn location_diagnostic(p: ProjectManifest, manifest: Seq<char>) -> Seq<DiagnosticModel> {
    match join_project_spec(p.path@, manifest) {
        Ok(expected) => if expected == p.source@ {
            Seq::empty()
        } else {
            seq![path_mismatch_error(p, expected)]
        },
        Err(d) => seq![with_path_model(d, p.source@)],
    }
}

/// Errors for manifests away from their declared project paths, in order.
pub open spec fn location_diagnostics(ps: Seq<ProjectManifest>) -> Seq<DiagnosticModel>
    decreases ps.len(),
{
    match crate::check::normalized_path("project.yaml"@, true) {
        Err(_) => Seq::empty(),
        Ok(m) => if ps.len() == 0 {
            Seq::empty()
        } else {
            location_diagnostics(ps.drop_last()) + location_diagnostic(ps.last(), m)
        },
    }
}

/// Reports project manifests that are not at `<path>/project.yaml`.
pub fn validate_manifest_locations(projects: &Vec<ProjectManifest>) -> (r: Vec<Diagnostic>)
    ensures
        models(r@) == location_diagnostics(projects@),
{
    let ghost ps = projects@;
    let mut out: Vec<Diagnostic> = Vec::new();
    let manifest = match crate::domain::ProjectRelativePath::new("project.yaml") {
        Ok(m) => m,
        Err(_) => {
            assert(models(out@) =~= Seq::<DiagnosticModel>::empty());
            return out;
        },
    };
    let mut i: usize = 0;
    assert(ps.subrange(0, 0) =~= Seq::<ProjectManifest>::empty());
    assert(models(out@) =~= location_diagnostics(ps.subrange(0, 0)));
    while i < projects.len()
        invariant
            i <= projects.len(),
            ps == projects@,
            crate::check::normalized_path("project.yaml"@, true) == Ok::<Seq<char>, DiagnosticModel>(manifest@),
            models(out@) == location_diagnostics(ps.subrange(0, i as int)),
        decreases projects.len() - i,
    {
        assert(ps.subrange(0, i as int + 1).drop_last() =~= ps.subrange(0, i as int));
        let p = &projects[i];
        let ghost dm = models(out@);
        match p.path.join_project(&manifest) {
            Ok(expected) => {
                if !str_eq(expected.as_str(), p.source.as_str()) {
                    proof {
                        reveal_strlit("manifest.project.path_mismatch");
                    }
                    let mut msg = concat3("project `", p.name.as_str(), "` declares path `");
                    push_str(&mut msg, p.path.as_str());
                    push_str(&mut msg, "` but manifest is at `");
                    push_str(&mut msg, p.source.as_str());
                    push_str(&mut msg, "`");
                    let help = concat3("move the manifest to `", expected.as_str(), "` or update `path`");
                    let d = about_exec(Diagnostic::error("manifest.project.path_mismatch", msg.as_str()), p).with_help(help.as_str());
                    out.push(d);
                    assert(models(out@) =~= dm + seq![path_mismatch_error(*p, expected@)]);
                } else {
                    assert(models(out@) =~= dm + Seq::<DiagnosticModel>::empty());
                }
            },
            Err(d) => {
                let ghost dv = d@;
                out.push(d.with_path(p.source.as_str()));
                assert(models(out@) =~= dm + seq![with_path_model(dv, p.source@)]);
            },
        }
        i = i + 1;
    }
    assert(ps.subrange(0, ps.len() as int) =~= ps);
    out
}

/// Error for a dependency on a project that does not exist.
pub open spec fn unknown_dependency_error(p: ProjectManifest, target: Seq<char>) -> DiagnosticModel {
    about(error_model("manifest.dependency.unknown_project"@, "project `"@ + p.name@ + "` depends on unknown project `"@ + target + "`"@), p)
}

/// Some project has the name.
pub open spec fn known_project(all: Seq<ProjectManifest>, name: Seq<char>) -> bool {
    exists|j: int| 0 <= j < all.len() && (#[trigger] all[j]).name@ == name
}

/// Errors for one project's dependencies on unknown projects, in order.
pub open spec fn dependency_errors(all: Seq<ProjectManifest>, p: ProjectManifest, ds: Seq<ProjectDependency>) -> Seq<DiagnosticModel>
    decreases ds.len(),
{
    if ds.len() == 0 {
        Seq::empty()
    } else {
        dependency_errors(all, p, ds.drop_last()) + match ds.last().target {
            DependencyTarget::Project(t) => if known_project(all, t@) {
                Seq::empty()
            } else {
                seq![unknown_dependency_error(p, t@)]
            },
            DependencyTarget::ProtoPackage(_) => Seq::empty(),
        }
    }
}

/// Errors for dependencies on unknown projects, project by project.
pub open spec fn dependency_diagnostics(all: Seq<ProjectManifest>, ps: Seq<ProjectManifest>) -> Seq<DiagnosticModel>
    decreases ps.len(),
{
    if ps.len() == 0 {
        Seq::empty()
    } else {
        dependency_diagnostics(all, ps.drop_last()) + dependency_errors(all, ps.last(), ps.last().depends_on@)
    }
}

fn knows_project(all: &Vec<ProjectManifest>, name: &crate::domain::ProjectName) -> (r: bool)
    ensures
        r == known_project(all@, name@),
{
    let mut j: usize = 0;
    while j < all.len()
        invariant
            j <= all.len(),
            forall|q: int| 0 <= q < j ==> (#[trigger] all@[q]).name@ != name@,
        decreases all.len() - j,
    {
        if all[j].name.same(name) {
            return true;
        }
        j = j + 1;
    }
    false
}

/// Reports dependencies on projects that do not exist.
pub fn validate_project_dependencies(projects: &Vec<ProjectManifest>) -> (r: Vec<Diagnostic>)
    ensures
        models(r@) == dependency_diagnostics(projects@, projects@),
{
    let ghost ps = projects@;
    let mut out: Vec<Diagnostic> = Vec::new();
    let mut i: usize = 0;
    assert(ps.subrange(0, 0) =~= Seq::<ProjectManifest>::empty());
    assert(models(out@) =~= dependency_diagnostics(ps, ps.subrange(0, 0)));
    while i < projects.len()
        invariant
            i <= projects.len(),
            ps == projects@,
            models(out@) == dependency_diagnostics(ps, ps.subrange(0, i as int)),
        decreases projects.len() - i,
    {
        assert(ps.subrange(0, i as int + 1).drop_last() =~= ps.subrange(0, i as int));
        let p = &projects[i];
        let ghost start = models(out@);
        let ghost ds = p.depends_on@;
        let mut k: usize = 0;
        assert(ds.subrange(0, 0) =~= Seq::<ProjectDependency>::empty());
        assert(models(out@) =~= start + dependency_errors(ps, *p, ds.subrange(0, 0)));
        while k < p.depends_on.len()
            invariant
                k <= p.depends_on.len(),
                ps == projects@,
                ds == p.depends_on@,
                models(out@) == start + dependency_errors(ps, *p, ds.subrange(0, k as int)),
            decreases p.depends_on.len() - k,
        {
            assert(ds.subrange(0, k as int + 1).drop_last() =~= ds.subrange(0, k as int));
            let ghost dm = models(out@);
            match &p.depends_on[k].target {
                DependencyTarget::Project(t) => {
                    if !knows_project(projects, t) {
                        proof {
                            reveal_strlit("manifest.dependency.unknown_project");
                        }
                        let mut msg = concat3("project `", p.name.as_str(), "` depends on unknown project `");
                        push_str(&mut msg, t.as_str());
                        push_str(&mut msg, "`");
                        out.push(about_exec(Diagnostic::error("manifest.dependency.unknown_project", msg.as_str()), p));
                        assert(models(out@) =~= dm + seq![unknown_dependency_error(*p, t@)]);
                    } else {
                        assert(models(out@) =~= dm + Seq::<DiagnosticModel>::empty());
                    }
                },
                DependencyTarget::ProtoPackage(_) => {
                    assert(models(out@) =~= dm + Seq::<DiagnosticModel>::empty());
                },
            }
            k = k + 1;
        }
        assert(ds.subrange(0, ds.len() as int) =~= ds);
        i = i + 1;
    }
    assert(ps.subrange(0, ps.len() as int) =~= ps);
    out
}


/// Path-convention errors of the projects, in order.
pub open spec fn convention_all(ps: Seq<ProjectManifest>) -> Seq<DiagnosticModel>
    decreases ps.len(),
{
    if ps.len() == 0 {
        Seq::empty()
    } else {
        convention_all(ps.drop_last()) + convention_diagnostics(ps.last().kind, ps.last().name@, ps.last().path@, ps.last().source@)
    }
}

fn append_all(out: &mut Vec<Diagnostic>, more: Vec<Diagnostic>)
    ensures
        models(final(out)@) == models(old(out)@) + models(more@),
{
    let ghost a = models(out@);
    let ghost b = models(more@);
    let mut more = more;
    out.append(&mut more);
    assert(models(out@) =~= a + b);
}

// ---------------------------------------------------------------------------
// Assembling the project list
// ---------------------------------------------------------------------------

/// Diagnostics of the manifests that failed to parse, in order.
pub open spec fn parse_diagnostics(rs: Seq<Result<ProjectManifest, RepoctlError>>) -> Seq<DiagnosticModel>
    decreases rs.len(),
{
    if rs.len() == 0 {
        Seq::empty()
    } else {
        parse_diagnostics(rs.drop_last()) + match rs.last() {
            Ok(_) => Seq::empty(),
            Err(e) => error_diagnostics(e),
        }
    }
}

/// The manifests that parsed, in order.
pub open spec fn parsed_projects(rs: Seq<Result<ProjectManifest, RepoctlError>>) -> Seq<ProjectManifest>
    decreases rs.len(),
{
    if rs.len() == 0 {
        Seq::empty()
    } else {
        parsed_projects(rs.drop_last()) + match rs.last() {
            Ok(p) => seq![p],
            Err(_) => Seq::empty(),
        }
    }
}

/// Every diagnostic of discovery, in the order it is reported: parse
/// failures, missing owners, repeated names, misplaced manifests, unknown
/// dependencies, path conventions.
pub open spec fn discovery_diagnostics(repo: RepoManifest, rs: Seq<Result<ProjectManifest, RepoctlError>>) -> Seq<DiagnosticModel> {
    let ps = parsed_projects(rs);
    parse_diagnostics(rs) + owner_diagnostics(repo, ps) + name_diagnostics(ps) + location_diagnostics(ps)
        + dependency_diagnostics(ps, ps) + convention_all(ps)
}

/// Some diagnostic is an error.
pub open spec fn has_error(ds: Seq<DiagnosticModel>) -> bool {
    exists|k: int| 0 <= k < ds.len() && (#[trigger] ds[k]).severity == Severity::Error
}

/// Projects in name order.
pub open spec fn names_ordered(ps: Seq<ProjectManifest>) -> bool {
    forall|i: int, j: int| 0 <= i < j < ps.len() ==> !seq_lt(#[trigger] ps[j].name@, #[trigger] ps[i].name@)
}

fn sort_by_name(ps: Vec<ProjectManifest>) -> (r: Vec<ProjectManifest>)
    ensures
        names_ordered(r@),
        r@.to_multiset() == ps@.to_multiset(),
{
    let ghost input = ps@;
    let mut rest = ps;
    let mut out: Vec<ProjectManifest> = Vec::new();
    let mut taken: usize = 0;
    let n = rest.len();
    assert(input.subrange(0, 0) =~= Seq::<ProjectManifest>::empty());
    while rest.len() > 0
        invariant
            taken + rest@.len() == n,
            n == input.len(),
            rest@ == input.subrange(taken as int, n as int),
            names_ordered(out@),
            out@.to_multiset() == input.subrange(0, taken as int).to_multiset(),
        decreases rest@.len(),
    {
        let item = rest.remove(0);
        assert(item == input[taken as int]);
        let ghost before = out@;
        let mut p: usize = out.len();
        while p > 0 && str_lt(item.name.as_str(), out[p - 1].name.as_str())
            invariant
                p <= out.len(),
                before == out@,
                forall|k: int| p <= k < out.len() ==> seq_lt(item.name@, #[trigger] before[k].name@),
            decreases p,
        {
            p = p - 1;
        }
        proof {
            let f = item.name@;
            let s = before.insert(p as int, item);
            assert forall|a: int, b: int| 0 <= a < b < s.len() implies !seq_lt(#[trigger] s[b].name@, #[trigger] s[a].name@) by {
                if a < p && b == p {
                    assert(s[a] == before[a] && s[b] == item);
                    if seq_lt(f, before[a].name@) {
                        let q = (p - 1) as int;
                        assert(!seq_lt(f, before[q].name@));
                        if a < q {
                            assert(!seq_lt(before[q].name@, before[a].name@));
                            crate::text::lemma_lt_trichotomy(before[a].name@, before[q].name@);
                            if seq_lt(before[a].name@, before[q].name@) {
                                crate::text::lemma_lt_transitive(f, before[a].name@, before[q].name@);
                            }
                        }
                    }
                } else if a == p && b > p {
                    assert(s[b] == before[b - 1]);
                    assert(seq_lt(f, before[b - 1].name@));
                    crate::text::lemma_lt_irreflexive(f);
                    if seq_lt(before[b - 1].name@, f) {
                        crate::text::lemma_lt_transitive(f, before[b - 1].name@, f);
                    }
                } else if a < p && b > p {
                    assert(s[a] == before[a] && s[b] == before[b - 1]);
                } else if b < p {
                    assert(s[a] == before[a] && s[b] == before[b]);
                } else {
                    assert(s[a] == before[a - 1] && s[b] == before[b - 1]);
                }
            }
            crate::graph::lemma_multiset_insert(before, p as int, item);
            assert(input.subrange(0, taken as int + 1) =~= input.subrange(0, taken as int).push(item));
        }
        out.insert(p, item);
        assert(rest@ =~= input.subrange(taken as int + 1, n as int));
        taken = taken + 1;
    }
    assert(input.subrange(0, n as int) =~= input);
    out
}

/// Turns the parsed project manifests into the project list of a snapshot:
/// repo defaults applied, every check run, and the list sorted by name; any
/// error-level diagnostic makes discovery fail with all of them.
#[verifier::rlimit(40)]
#[verifier::spinoff_prover]
pub fn assemble_projects(repo_manifest: &RepoManifest, parsed: Vec<Result<ProjectManifest, RepoctlError>>)
    -> (r: Result<Vec<ProjectManifest>, RepoctlError>)
    ensures
        match r {
            Ok(ps) => !has_error(discovery_diagnostics(*repo_manifest, parsed@))
                && names_ordered(ps@)
                && ps@.len() == parsed_projects(parsed@).len()
                && (forall|k: int| 0 <= k < ps@.len() ==> exists|j: int| 0 <= j < ps@.len()
                    && defaulted(*repo_manifest, #[trigger] ps@[k], parsed_projects(parsed@)[j]))
                && (forall|j: int| 0 <= j < ps@.len() ==> exists|k: int| 0 <= k < ps@.len()
                    && defaulted(*repo_manifest, ps@[k], #[trigger] parsed_projects(parsed@)[j])),
            Err(e) => has_error(discovery_diagnostics(*repo_manifest, parsed@))
                && error_diagnostics(e) == discovery_diagnostics(*repo_manifest, parsed@),
        },
{
    let ghost rs = parsed@;
    let mut diagnostics: Vec<Diagnostic> = Vec::new();
    let mut projects: Vec<ProjectManifest> = Vec::new();
    let mut rest = parsed;
    let n = rest.len();
    let mut taken: usize = 0;
    assert(rs.subrange(0, 0) =~= Seq::<Result<ProjectManifest, RepoctlError>>::empty());
    assert(models(diagnostics@) =~= parse_diagnostics(rs.subrange(0, 0)));
    assert(projects@ =~= parsed_projects(rs.subrange(0, 0)));
    while rest.len() > 0
        invariant
            taken + rest@.len() == n,
            n == rs.len(),
            rest@ == rs.subrange(taken as int, n as int),
            models(diagnostics@) == parse_diagnostics(rs.subrange(0, taken as int)),
            projects@ == parsed_projects(rs.subrange(0, taken as int)),
        decreases rest@.len(),
    {
        let item = rest.remove(0);
        assert(item == rs[taken as int]);
        assert(rs.subrange(0, taken as int + 1).drop_last() =~= rs.subrange(0, taken as int));
        assert(rs.subrange(0, taken as int + 1).last() == item);
        let ghost dm = models(diagnostics@);
        let ghost pm = projects@;
        match item {
            Ok(p) => {
                projects.push(p);
                assert(models(diagnostics@) =~= dm + Seq::<DiagnosticModel>::empty());
            },
            Err(e) => {
                append_all(&mut diagnostics, e.diagnostics());
                assert(projects@ =~= pm + Seq::<ProjectManifest>::empty());
            },
        }
        assert(rest@ =~= rs.subrange(taken as int + 1, n as int));
        taken = taken + 1;
    }
    assert(rs.subrange(0, n as int) =~= rs);
    let ghost ps0 = projects@;
    let names = validate_project_names(&projects);
    let locations = validate_manifest_locations(&projects);
    let dependencies = validate_project_dependencies(&projects);
    let mut conventions: Vec<Diagnostic> = Vec::new();
    let mut i: usize = 0;
    assert(ps0.subrange(0, 0) =~= Seq::<ProjectManifest>::empty());
    assert(models(conventions@) =~= convention_all(ps0.subrange(0, 0)));
    while i < projects.len()
        invariant
            i <= projects.len(),
            ps0 == projects@,
            models(conventions@) == convention_all(ps0.subrange(0, i as int)),
        decreases projects.len() - i,
    {
        assert(ps0.subrange(0, i as int + 1).drop_last() =~= ps0.subrange(0, i as int));
        append_all(&mut conventions, validate_project_convention(&projects[i]));
        i = i + 1;
    }
    assert(ps0.subrange(0, ps0.len() as int) =~= ps0);
    apply_repo_defaults(repo_manifest, &mut projects, &mut diagnostics);
    append_all(&mut diagnostics, names);
    append_all(&mut diagnostics, locations);
    append_all(&mut diagnostics, dependencies);
    append_all(&mut diagnostics, conventions);
    let ghost all = models(diagnostics@);
    assert(all =~= discovery_diagnostics(*repo_manifest, rs));
    assert(ps0 == parsed_projects(rs));
    let mut k: usize = 0;
    while k < diagnostics.len()
        invariant
            k <= diagnostics.len(),
            all == models(diagnostics@),
            all == discovery_diagnostics(*repo_manifest, rs),
            rs == parsed@,
            ps0 == parsed_projects(rs),
            projects@.len() == ps0.len(),
            forall|q: int| 0 <= q < ps0.len() ==> defaulted(*repo_manifest, #[trigger] projects@[q], ps0[q]),
            forall|q: int| 0 <= q < k ==> (#[trigger] all[q]).severity != Severity::Error,
        decreases diagnostics.len() - k,
    {
        let is_error = match diagnostics[k].severity {
            Severity::Error => true,
            _ => false,
        };
        if is_error {
            assert(all[k as int].severity == Severity::Error);
            assert(has_error(all));
            let e = RepoctlError::Diagnostics { diagnostics };
            assert(error_diagnostics(e) == all);
            return Err(e);
        }
        k = k + 1;
    }
    assert(!has_error(all));
    let ghost ps1 = projects@;
    let sorted = sort_by_name(projects);
    assert(sorted@.len() == ps1.len()) by {
        vstd::seq_lib::to_multiset_len(sorted@);
        vstd::seq_lib::to_multiset_len(ps1);
    }
    proof {
        assert forall|k: int| 0 <= k < sorted@.len() implies exists|j: int| 0 <= j < sorted@.len()
            && defaulted(*repo_manifest, #[trigger] sorted@[k], ps0[j]) by {
            vstd::seq_lib::to_multiset_contains(sorted@, sorted@[k]);
            assert(sorted@.to_multiset().count(sorted@[k]) > 0);
            vstd::seq_lib::to_multiset_contains(ps1, sorted@[k]);
            let j = choose|j: int| 0 <= j < ps1.len() && ps1[j] == sorted@[k];
            assert(defaulted(*repo_manifest, ps1[j], ps0[j]));
        }
        assert forall|j: int| 0 <= j < sorted@.len() implies exists|k: int| 0 <= k < sorted@.len()
            && defaulted(*repo_manifest, sorted@[k], #[trigger] ps0[j]) by {
            assert(defaulted(*repo_manifest, ps1[j], ps0[j]));
            vstd::seq_lib::to_multiset_contains(ps1, ps1[j]);
            assert(ps1.to_multiset().count(ps1[j]) > 0);
            vstd::seq_lib::to_multiset_contains(sorted@, ps1[j]);
            let k = choose|k: int| 0 <= k < sorted@.len() && sorted@[k] == ps1[j];
        }
    }
    Ok(sorted)
}

} // verus!
