//! Provider package capabilities: which infrastructure workspaces use a
//! provider field that their package version may lack, or changed their
//! provider lockfiles.
use vstd::prelude::*;

use crate::cli::{append_diagnostics, append_table, append_title, diagnostics_section, row_views, table_text, title_text};
use crate::diagnostic::{Diagnostic, DiagnosticModel, Severity, models, plain};
use crate::domain::{ProjectManifest, RepoRelativePath, RepoSnapshot, WorkspaceSpec, join_project_spec};
use crate::pr::PrProviderSurface;
use crate::render::{counted, counted_exec};
use crate::text::{has_suffix, is_digit, owned, push_str, strs};

verus! {

/// One provider capability finding of a workspace.
#[derive(Clone, Debug)]
pub struct ProviderCapabilityReport {
    /// Workspace id in `project:workspace` form.
    pub workspace: String,
    /// Provider package.
    pub package: String,
    /// Package version as declared.
    pub version: String,
    /// Resource concerned.
    pub resource: String,
    /// Field concerned.
    pub field: String,
    /// Capability status.
    pub status: String,
    /// What to do about it.
    pub advice: String,
    /// Diagnostics of the finding.
    pub diagnostics: Vec<Diagnostic>,
}

/// The index of the first ASCII digit at or after `i`, or the length.
pub open spec fn first_digit_from(s: Seq<char>, i: int) -> int
    decreases s.len() - i,
{
    if i < 0 || i >= s.len() {
        s.len() as int
    } else if is_digit(s[i]) {
        i
    } else {
        first_digit_from(s, i + 1)
    }
}

/// The end of the run of ASCII digits that starts at `i`.
pub open spec fn digit_run_end(s: Seq<char>, i: int) -> int
    decreases s.len() - i,
{
    if i < 0 || i >= s.len() || !is_digit(s[i]) {
        i
    } else {
        digit_run_end(s, i + 1)
    }
}

/// The first run of ASCII digits of a version: its major version.
pub open spec fn major_digits(v: Seq<char>) -> Seq<char> {
    let a = first_digit_from(v, 0);
    v.subrange(a, digit_run_end(v, a))
}

/// The number a run of ASCII digits spells.
pub open spec fn digits_value(d: Seq<char>) -> nat
    decreases d.len(),
{
    if d.len() == 0 {
        0
    } else {
        digits_value(d.drop_last()) * 10 + ((d.last() as int - '0' as int) as nat)
    }
}

/// Whether a declared `@pulumi/aws` version supports `invokedViaFunctionUrl`:
/// its major version reads as a 64-bit number of at least 7.
pub open spec fn supports_function_url(v: Seq<char>) -> bool {
    let d = major_digits(v);
    d.len() > 0 && digits_value(d) <= u64::MAX && digits_value(d) >= 7
}

proof fn lemma_first_digit_bounds(s: Seq<char>, i: int)
    requires
        0 <= i <= s.len(),
    ensures
        i <= first_digit_from(s, i) <= s.len(),
    decreases s.len() - i,
{
    if i < s.len() && !is_digit(s[i]) {
        lemma_first_digit_bounds(s, i + 1);
    }
}

proof fn lemma_run_bounds(s: Seq<char>, i: int)
    requires
        0 <= i <= s.len(),
    ensures
        i <= digit_run_end(s, i) <= s.len(),
        forall|k: int| i <= k < digit_run_end(s, i) ==> is_digit(#[trigger] s[k]),
    decreases s.len() - i,
{
    if i < s.len() && is_digit(s[i]) {
        lemma_run_bounds(s, i + 1);
    }
}

proof fn lemma_value_grows(d: Seq<char>, k: int)
    requires
        0 <= k <= d.len(),
        forall|j: int| 0 <= j < d.len() ==> is_digit(#[trigger] d[j]),
    ensures
        digits_value(d.subrange(0, k)) <= digits_value(d),
    decreases d.len() - k,
{
    if k < d.len() {
        lemma_value_grows(d, k + 1);
        assert(d.subrange(0, k + 1).drop_last() =~= d.subrange(0, k));
    } else {
        assert(d.subrange(0, k) =~= d);
    }
}

/// Whether a declared `@pulumi/aws` version supports the
/// `invokedViaFunctionUrl` field of `aws.lambda.Permission`.
pub fn version_supports_invoked_via_function_url(version: &str) -> (r: bool)
    ensures
        r == supports_function_url(version@),
{
    let cs = crate::text::chars_of(version);
    let n = cs.len();
    let mut i: usize = 0;
    while i < n && !('0' <= cs[i] && cs[i] <= '9')
        invariant
            i <= n,
            n == cs@.len(),
            cs@ == version@,
            first_digit_from(cs@, 0) == first_digit_from(cs@, i as int),
        decreases n - i,
    {
        i = i + 1;
    }
    let start = i;
    proof {
        lemma_run_bounds(cs@, start as int);
    }
    let ghost end = digit_run_end(cs@, start as int);
    let ghost d = cs@.subrange(start as int, end);
    let mut value: u64 = 0;
    while i < n && '0' <= cs[i] && cs[i] <= '9'
        invariant
            start <= i <= end,
            end == digit_run_end(cs@, start as int),
            start == first_digit_from(cs@, 0),
            cs@ == version@,
            n == cs@.len(),
            end <= n,
            d == cs@.subrange(start as int, end),
            digit_run_end(cs@, start as int) == digit_run_end(cs@, i as int),
            forall|k: int| start <= k < end ==> is_digit(#[trigger] cs@[k]),
            value == digits_value(cs@.subrange(start as int, i as int)),
        decreases n - i,
    {
        proof {
            lemma_run_bounds(cs@, i as int + 1);
            assert(is_digit(cs@[i as int]));
            assert(digit_run_end(cs@, i as int) == digit_run_end(cs@, i as int + 1));
        }
        let digit = (cs[i] as u32 - '0' as u32) as u64;
        assert(cs@.subrange(start as int, i as int + 1).drop_last() =~= cs@.subrange(start as int, i as int));
        if value > (u64::MAX - digit) / 10 {
            proof {
                assert(d.subrange(0, i - start + 1) =~= cs@.subrange(start as int, i as int + 1));
                assert forall|j: int| 0 <= j < d.len() implies is_digit(#[trigger] d[j]) by {
                    assert(d[j] == cs@[start + j]);
                }
                lemma_value_grows(d, i - start + 1);
                let v = value as int;
                let g = digit as int;
                assert(v * 10 + g > u64::MAX) by (nonlinear_arith)
                    requires v > (u64::MAX - g) / 10, 0 <= g <= 9;
                assert(digits_value(cs@.subrange(start as int, i as int + 1)) == v * 10 + g);
            }
            return false;
        }
        value = value * 10 + digit;
        i = i + 1;
    }
    assert(digit_run_end(cs@, i as int) == i as int);
    assert(d =~= cs@.subrange(start as int, i as int));
    i > start && value >= 7
}

/// Whether a changed file is a Node package manifest or lockfile.
pub open spec fn package_file(f: Seq<char>) -> bool {
    has_suffix(f, "package.json"@) || has_suffix(f, "package-lock.json"@) || has_suffix(f, "pnpm-lock.yaml"@)
        || has_suffix(f, "yarn.lock"@)
}

/// Whether any changed file is a package manifest or lockfile, which may
/// carry a provider major upgrade.
pub fn provider_major_changed(changed_files: &[RepoRelativePath]) -> (r: bool)
    ensures
        r == exists|k: int| 0 <= k < changed_files@.len() && package_file((#[trigger] changed_files@[k])@),
{
    let mut i: usize = 0;
    while i < changed_files.len()
        invariant
            i <= changed_files@.len(),
            forall|k: int| 0 <= k < i ==> !package_file((#[trigger] changed_files@[k])@),
        decreases changed_files.len() - i,
    {
        let cs = crate::text::chars_of(changed_files[i].as_str());
        proof {
            reveal_strlit("package.json");
            reveal_strlit("package-lock.json");
            reveal_strlit("pnpm-lock.yaml");
            reveal_strlit("yarn.lock");
        }
        if crate::text::ends_with(&cs, &crate::text::chars_of("package.json"))
            || crate::text::ends_with(&cs, &crate::text::chars_of("package-lock.json"))
            || crate::text::ends_with(&cs, &crate::text::chars_of("pnpm-lock.yaml"))
            || crate::text::ends_with(&cs, &crate::text::chars_of("yarn.lock"))
        {
            return true;
        }
        i = i + 1;
    }
    false
}

/// Whether a workspace is selected: no selector, or one naming its id or
/// its root path.
pub fn workspace_selected(selector: Option<&str>, workspace_id: &str, workspace_root: &str) -> (r: bool)
    ensures
        r == match selector {
            Some(s) => s@ == workspace_id@ || s@ == workspace_root@,
            None => true,
        },
{
    match selector {
        Some(s) => crate::text::str_eq(s, workspace_id) || crate::text::str_eq(s, workspace_root),
        None => true,
    }
}

/// A warning with the given code and message.
pub open spec fn warning_model(code: Seq<char>, message: Seq<char>) -> DiagnosticModel {
    plain(code, Severity::Warning, message)
}

/// The finding of a workspace that declares `@pulumi/aws` at `version`:
/// the field is missing when the workspace uses it and the version lacks
/// it, else a review when a package file changed, else none. Each part is
/// given as (resource, field, status, advice, diagnostic).
pub open spec fn capability_finding(
    version: Seq<char>,
    uses_function_url: bool,
    major_changed: bool,
) -> Option<(Seq<char>, Seq<char>, Seq<char>, Seq<char>, DiagnosticModel)> {
    if uses_function_url && !supports_function_url(version) {
        Some((
            "aws.lambda.Permission"@,
            "invokedViaFunctionUrl"@,
            "missing"@,
            "avoid a blind provider major upgrade; use a compatibility adapter or preview every impacted stack before upgrading"@,
            warning_model("provider.capability.missing"@,
                "local Pulumi AWS package may not support invokedViaFunctionUrl"@),
        ))
    } else if major_changed {
        Some((
            "provider-migration"@,
            "major-version"@,
            "review"@,
            "run ordered Pulumi previews for all stacks before accepting provider migration state churn"@,
            warning_model("provider.capability.major_upgrade_review"@,
                "provider package or lockfile changed and may require broad stack previews"@),
        ))
    } else {
        None
    }
}

/// A finding of the given workspace and version, with these parts.
pub open spec fn report_holds(
    rep: ProviderCapabilityReport,
    workspace: Seq<char>,
    version: Seq<char>,
    f: (Seq<char>, Seq<char>, Seq<char>, Seq<char>, DiagnosticModel),
) -> bool {
    &&& rep.workspace@ == workspace
    &&& rep.package@ == "@pulumi/aws"@
    &&& rep.version@ == version
    &&& rep.resource@ == f.0
    &&& rep.field@ == f.1
    &&& rep.status@ == f.2
    &&& rep.advice@ == f.3
    &&& models(rep.diagnostics@) == seq![f.4]
}

/// The finding of one workspace that declares `@pulumi/aws` at `version`,
/// given whether its sources use `invokedViaFunctionUrl` and whether a
/// package file changed.
pub fn workspace_capability(
    workspace_id: &str,
    version: &str,
    uses_function_url: bool,
    major_changed: bool,
) -> (r: Option<ProviderCapabilityReport>)
    ensures
        match r {
            Some(rep) => match capability_finding(version@, uses_function_url, major_changed) {
                Some(f) => report_holds(rep, workspace_id@, version@, f),
                None => false,
            },
            None => capability_finding(version@, uses_function_url, major_changed) is None,
        },
{
    let (resource, field, status, advice, code, message) = if uses_function_url
        && !version_supports_invoked_via_function_url(version) {
        (
            "aws.lambda.Permission",
            "invokedViaFunctionUrl",
            "missing",
            "avoid a blind provider major upgrade; use a compatibility adapter or preview every impacted stack before upgrading",
            "provider.capability.missing",
            "local Pulumi AWS package may not support invokedViaFunctionUrl",
        )
    } else if major_changed {
        (
            "provider-migration",
            "major-version",
            "review",
            "run ordered Pulumi previews for all stacks before accepting provider migration state churn",
            "provider.capability.major_upgrade_review",
            "provider package or lockfile changed and may require broad stack previews",
        )
    } else {
        return None;
    };
    let d = Diagnostic::warning(code, message);
    let diagnostics = vec![d];
    assert(models(diagnostics@) =~= seq![diagnostics@[0]@]);
    Some(ProviderCapabilityReport {
        workspace: owned(workspace_id),
        package: owned("@pulumi/aws"),
        version: owned(version),
        resource: owned(resource),
        field: owned(field),
        status: owned(status),
        advice: owned(advice),
        diagnostics,
    })
}

/// The deploy-surface view of a finding, for a pull request summary.
pub open spec fn surface_of(r: ProviderCapabilityReport) -> (Seq<char>, Seq<char>, Seq<char>, Seq<char>, Seq<char>) {
    (r.package@, r.version@, r.workspace@, r.status@, r.field@)
}

/// The deploy-surface views of findings, in order.
pub fn provider_surfaces(reports: &Vec<ProviderCapabilityReport>) -> (r: Vec<PrProviderSurface>)
    ensures
        r@.len() == reports@.len(),
        forall|k: int| 0 <= k < r@.len() ==> ((#[trigger] r@[k]).package@, r@[k].version@, r@[k].workspace@,
            r@[k].status@, r@[k].field@) == surface_of(reports@[k]),
{
    let mut out: Vec<PrProviderSurface> = Vec::new();
    let mut i: usize = 0;
    while i < reports.len()
        invariant
            i <= reports@.len(),
            out@.len() == i,
            forall|k: int| 0 <= k < i ==> ((#[trigger] out@[k]).package@, out@[k].version@, out@[k].workspace@,
                out@[k].status@, out@[k].field@) == surface_of(reports@[k]),
        decreases reports.len() - i,
    {
        let rep = &reports[i];
        out.push(PrProviderSurface {
            package: owned(rep.package.as_str()),
            version: owned(rep.version.as_str()),
            workspace: owned(rep.workspace.as_str()),
            status: owned(rep.status.as_str()),
            field: owned(rep.field.as_str()),
        });
        i = i + 1;
    }
    out
}

/// The row of a finding: workspace, package, version, field, status and
/// advice.
pub open spec fn report_row(r: ProviderCapabilityReport) -> Seq<Seq<char>> {
    seq![r.workspace@, r.package@, r.version@, r.field@, r.status@, r.advice@]
}

/// The diagnostics of all findings, in order.
pub open spec fn all_diagnostics(rs: Seq<ProviderCapabilityReport>) -> Seq<DiagnosticModel>
    decreases rs.len(),
{
    if rs.len() == 0 {
        Seq::empty()
    } else {
        all_diagnostics(rs.drop_last()) + models(rs.last().diagnostics@)
    }
}

/// The human-readable text of provider capability findings: a counted
/// table, then the findings' diagnostics.
pub open spec fn provider_report_text(rs: Seq<ProviderCapabilityReport>) -> Seq<char> {
    let t0 = title_text("Provider capabilities"@);
    let t1 = t0 + table_text(t0, counted("Reports"@, rs.len()),
        seq!["Workspace"@, "Package"@, "Version"@, "Field"@, "Status"@, "Advice"@],
        rs.map_values(|r: ProviderCapabilityReport| report_row(r)));
    t1 + diagnostics_section(t1, all_diagnostics(rs))
}

fn report_rows(reports: &Vec<ProviderCapabilityReport>) -> (rows: Vec<Vec<String>>)
    ensures
        row_views(rows@) == reports@.map_values(|r: ProviderCapabilityReport| report_row(r)),
{
    let ghost want = reports@.map_values(|r: ProviderCapabilityReport| report_row(r));
    let mut rows: Vec<Vec<String>> = Vec::new();
    let mut k: usize = 0;
    while k < reports.len()
        invariant
            k <= reports.len(),
            want == reports@.map_values(|r: ProviderCapabilityReport| report_row(r)),
            row_views(rows@) == want.subrange(0, k as int),
        decreases reports.len() - k,
    {
        let r = &reports[k];
        let row = vec![
            owned(r.workspace.as_str()), owned(r.package.as_str()), owned(r.version.as_str()),
            owned(r.field.as_str()), owned(r.status.as_str()), owned(r.advice.as_str()),
        ];
        assert(strs(row@) =~= want[k as int]);
        let ghost prev = row_views(rows@);
        rows.push(row);
        assert(row_views(rows@) =~= prev.push(want[k as int]));
        assert(want.subrange(0, k as int + 1) =~= want.subrange(0, k as int).push(want[k as int]));
        k = k + 1;
    }
    assert(want.subrange(0, reports.len() as int) =~= want);
    rows
}

pub(crate) fn collect_diagnostics(reports: &Vec<ProviderCapabilityReport>) -> (r: Vec<Diagnostic>)
    ensures
        models(r@) == all_diagnostics(reports@),
{
    let mut out: Vec<Diagnostic> = Vec::new();
    let mut i: usize = 0;
    while i < reports.len()
        invariant
            i <= reports.len(),
            models(out@) == all_diagnostics(reports@.subrange(0, i as int)),
        decreases reports.len() - i,
    {
        let ds = &reports[i].diagnostics;
        let ghost before = models(out@);
        let mut j: usize = 0;
        while j < ds.len()
            invariant
                j <= ds.len(),
                *ds == reports@[i as int].diagnostics,
                models(out@) == before + models(ds@).subrange(0, j as int),
            decreases ds.len() - j,
        {
            let ghost prev = models(out@);
            out.push(ds[j].duplicate());
            assert(models(out@) =~= prev.push(ds@[j as int]@));
            assert(models(ds@).subrange(0, j as int + 1) =~= models(ds@).subrange(0, j as int).push(ds@[j as int]@));
            j = j + 1;
        }
        assert(models(ds@).subrange(0, ds.len() as int) =~= models(ds@));
        assert(reports@.subrange(0, i as int + 1).drop_last() =~= reports@.subrange(0, i as int));
        i = i + 1;
    }
    assert(reports@.subrange(0, reports.len() as int) =~= reports@);
    out
}

/// Renders provider capability findings.
pub fn render_provider_capabilities(reports: &Vec<ProviderCapabilityReport>) -> (r: String)
    ensures
        r@ == provider_report_text(reports@),
{
    let mut output = String::new();
    append_title(&mut output, "Provider capabilities");
    let title = counted_exec("Reports", reports.len());
    let hs = vec![owned("Workspace"), owned("Package"), owned("Version"), owned("Field"), owned("Status"), owned("Advice")];
    assert(strs(hs@) =~= seq!["Workspace"@, "Package"@, "Version"@, "Field"@, "Status"@, "Advice"@]);
    append_table(&mut output, title.as_str(), &hs, &report_rows(reports));
    let ds = collect_diagnostics(reports);
    append_diagnostics(&mut output, &ds);
    output
}

/// The inspected workspaces of one project, in order: each workspace's id
/// (`project:workspace`) and root, kept when the selector names it; the
/// first root that cannot be joined is the error.
pub open spec fn project_workspaces(
    p: ProjectManifest,
    ws: Seq<WorkspaceSpec>,
    selector: Option<Seq<char>>,
) -> Result<Seq<(Seq<char>, Seq<char>)>, DiagnosticModel>
    decreases ws.len(),
{
    if ws.len() == 0 {
        Ok(Seq::empty())
    } else {
        match project_workspaces(p, ws.drop_last(), selector) {
            Err(d) => Err(d),
            Ok(prev) => {
                let w = ws.last();
                let id = p.name@ + ":"@ + w.name@;
                match join_project_spec(p.path@, w.root@) {
                    Err(d) => Err(d),
                    Ok(root) => Ok(
                        if selected_by(selector, id, root) {
                            prev.push((id, root))
                        } else {
                            prev
                        },
                    ),
                }
            },
        }
    }
}

/// Whether a selector picks a workspace, by id or by root.
pub open spec fn selected_by(selector: Option<Seq<char>>, id: Seq<char>, root: Seq<char>) -> bool {
    match selector {
        Some(s) => s == id || s == root,
        None => true,
    }
}

/// The inspected workspaces of all projects, project by project.
pub open spec fn inspected_workspaces(
    ps: Seq<ProjectManifest>,
    selector: Option<Seq<char>>,
) -> Result<Seq<(Seq<char>, Seq<char>)>, DiagnosticModel>
    decreases ps.len(),
{
    if ps.len() == 0 {
        Ok(Seq::empty())
    } else {
        match inspected_workspaces(ps.drop_last(), selector) {
            Err(d) => Err(d),
            Ok(prev) => match project_workspaces(ps.last(), ps.last().workspaces@, selector) {
                Err(d) => Err(d),
                Ok(more) => Ok(prev + more),
            },
        }
    }
}

/// Workspace ids and roots as plain values.
pub open spec fn entry_views(v: Seq<(String, RepoRelativePath)>) -> Seq<(Seq<char>, Seq<char>)> {
    v.map_values(|e: (String, RepoRelativePath)| (e.0@, e.1@))
}

/// Lists the workspaces whose provider packages are inspected: every
/// workspace of every project, or those the selector names by id or root.
pub fn provider_workspaces(snapshot: &RepoSnapshot, selector: Option<&str>) -> (r: Result<Vec<(String, RepoRelativePath)>, Diagnostic>)
    ensures
        match r {
            Ok(v) => inspected_workspaces(snapshot.projects@, opt_str(selector)) == Ok::<Seq<(Seq<char>, Seq<char>)>, DiagnosticModel>(entry_views(v@)),
            Err(d) => inspected_workspaces(snapshot.projects@, opt_str(selector)) == Err::<Seq<(Seq<char>, Seq<char>)>, DiagnosticModel>(d@),
        },
{
    let ghost sel = opt_str(selector);
    let ps = &snapshot.projects;
    let mut out: Vec<(String, RepoRelativePath)> = Vec::new();
    let mut k: usize = 0;
    assert(ps@.subrange(0, 0) =~= Seq::<ProjectManifest>::empty());
    assert(entry_views(out@) =~= Seq::<(Seq<char>, Seq<char>)>::empty());
    while k < ps.len()
        invariant
            k <= ps.len(),
            *ps == snapshot.projects,
            sel == opt_str(selector),
            inspected_workspaces(ps@.subrange(0, k as int), sel) == Ok::<Seq<(Seq<char>, Seq<char>)>, DiagnosticModel>(entry_views(out@)),
        decreases ps.len() - k,
    {
        let p = &ps[k];
        let ghost before = entry_views(out@);
        assert(ps@.subrange(0, k as int + 1).drop_last() =~= ps@.subrange(0, k as int));
        assert(ps@.subrange(0, k as int + 1).last() == *p);
        let ws = &p.workspaces;
        let ghost added: Seq<(Seq<char>, Seq<char>)> = Seq::empty();
        let mut j: usize = 0;
        assert(ws@.subrange(0, 0) =~= Seq::<WorkspaceSpec>::empty());
        assert(entry_views(out@) =~= before + added);
        while j < ws.len()
            invariant
                j <= ws.len(),
                k < ps.len(),
                *ps == snapshot.projects,
                *p == ps@[k as int],
                *ws == p.workspaces,
                sel == opt_str(selector),
                inspected_workspaces(ps@.subrange(0, k as int), sel) == Ok::<Seq<(Seq<char>, Seq<char>)>, DiagnosticModel>(before),
                ps@.subrange(0, k as int + 1).drop_last() == ps@.subrange(0, k as int),
                entry_views(out@) == before + added,
                project_workspaces(*p, ws@.subrange(0, j as int), sel) == Ok::<Seq<(Seq<char>, Seq<char>)>, DiagnosticModel>(added),
            decreases ws.len() - j,
        {
            let w = &ws[j];
            assert(ws@.subrange(0, j as int + 1).drop_last() =~= ws@.subrange(0, j as int));
            assert(ws@.subrange(0, j as int + 1).last() == *w);
            let mut id = owned(p.name.as_str());
            push_str(&mut id, ":");
            push_str(&mut id, w.name.as_str());
            let root = match p.path.join_project(&w.root) {
                Ok(root) => root,
                Err(d) => {
                    proof {
                        lemma_project_error_stays(*p, ws@, j as int + 1, sel);
                        lemma_error_stays(ps@, k as int + 1, sel);
                    }
                    return Err(d);
                },
            };
            if workspace_selected(selector, id.as_str(), root.as_str()) {
                let ghost prev = entry_views(out@);
                out.push((id, root));
                assert(entry_views(out@) =~= prev.push((out@.last().0@, out@.last().1@)));
                proof {
                    added = added.push((p.name@ + ":"@ + w.name@, root@));
                }
                assert(entry_views(out@) =~= before + added);
            }
            j = j + 1;
        }
        assert(ws@.subrange(0, ws.len() as int) =~= ws@);
        k = k + 1;
    }
    assert(ps@.subrange(0, ps.len() as int) =~= ps@);
    Ok(out)
}

/// The text of an optional string.
pub open spec fn opt_str(s: Option<&str>) -> Option<Seq<char>> {
    match s {
        Some(t) => Some(t@),
        None => None,
    }
}

proof fn lemma_project_error_stays(p: ProjectManifest, ws: Seq<WorkspaceSpec>, j: int, sel: Option<Seq<char>>)
    requires
        0 < j <= ws.len(),
        project_workspaces(p, ws.subrange(0, j), sel) is Err,
    ensures
        project_workspaces(p, ws, sel) == project_workspaces(p, ws.subrange(0, j), sel),
    decreases ws.len() - j,
{
    if j < ws.len() {
        assert(ws.subrange(0, j + 1).drop_last() =~= ws.subrange(0, j));
        lemma_project_error_stays(p, ws, j + 1, sel);
    } else {
        assert(ws.subrange(0, j) =~= ws);
    }
}

proof fn lemma_error_stays(ps: Seq<ProjectManifest>, k: int, sel: Option<Seq<char>>)
    requires
        0 < k <= ps.len(),
        inspected_workspaces(ps.subrange(0, k), sel) is Err,
    ensures
        inspected_workspaces(ps, sel) == inspected_workspaces(ps.subrange(0, k), sel),
    decreases ps.len() - k,
{
    if k < ps.len() {
        assert(ps.subrange(0, k + 1).drop_last() =~= ps.subrange(0, k));
        lemma_error_stays(ps, k + 1, sel);
    } else {
        assert(ps.subrange(0, k) =~= ps);
    }
}

/// The finding of one inspected workspace, given its id, the declared
/// `@pulumi/aws` version when it has one, and whether its sources use
/// `invokedViaFunctionUrl`: none without a version.
pub open spec fn probe_finding(probe: (String, Option<String>, bool), major_changed: bool)
    -> Option<(Seq<char>, Seq<char>, (Seq<char>, Seq<char>, Seq<char>, Seq<char>, DiagnosticModel))> {
    match probe.1 {
        None => None,
        Some(v) => match capability_finding(v@, probe.2, major_changed) {
            None => None,
            Some(f) => Some((probe.0@, v@, f)),
        },
    }
}

/// The findings of the inspected workspaces, in order.
pub open spec fn probe_findings(probes: Seq<(String, Option<String>, bool)>, major_changed: bool)
    -> Seq<(Seq<char>, Seq<char>, (Seq<char>, Seq<char>, Seq<char>, Seq<char>, DiagnosticModel))>
    decreases probes.len(),
{
    if probes.len() == 0 {
        Seq::empty()
    } else {
        let prev = probe_findings(probes.drop_last(), major_changed);
        match probe_finding(probes.last(), major_changed) {
            Some(e) => prev.push(e),
            None => prev,
        }
    }
}

/// The provider capability findings of the inspected workspaces: for each,
/// in order, its id, the declared `@pulumi/aws` version when it has one,
/// and whether its sources use `invokedViaFunctionUrl`; a changed package
/// manifest or lockfile asks for a review of every workspace.
pub fn capability_reports(probes: &Vec<(String, Option<String>, bool)>, changed_files: &[RepoRelativePath])
    -> (r: Vec<ProviderCapabilityReport>)
    ensures
        ({
            let es = probe_findings(probes@, exists|k: int| 0 <= k < changed_files@.len() && package_file((#[trigger] changed_files@[k])@));
            &&& r@.len() == es.len()
            &&& forall|k: int| 0 <= k < r@.len() ==> report_holds(#[trigger] r@[k], es[k].0, es[k].1, es[k].2)
        }),
{
    let major = provider_major_changed(changed_files);
    let ghost es = probe_findings(probes@, major);
    let mut out: Vec<ProviderCapabilityReport> = Vec::new();
    let mut i: usize = 0;
    while i < probes.len()
        invariant
            i <= probes.len(),
            out@.len() == probe_findings(probes@.subrange(0, i as int), major).len(),
            forall|k: int| 0 <= k < out@.len() ==> report_holds(#[trigger] out@[k],
                probe_findings(probes@.subrange(0, i as int), major)[k].0,
                probe_findings(probes@.subrange(0, i as int), major)[k].1,
                probe_findings(probes@.subrange(0, i as int), major)[k].2),
        decreases probes.len() - i,
    {
        let ghost prev = probe_findings(probes@.subrange(0, i as int), major);
        assert(probes@.subrange(0, i as int + 1).drop_last() =~= probes@.subrange(0, i as int));
        assert(probes@.subrange(0, i as int + 1).last() == probes@[i as int]);
        let probe = &probes[i];
        match &probe.1 {
            Some(version) => {
                match workspace_capability(probe.0.as_str(), version.as_str(), probe.2, major) {
                    Some(rep) => {
                        out.push(rep);
                    },
                    None => {},
                }
            },
            None => {},
        }
        i = i + 1;
    }
    assert(probes@.subrange(0, probes.len() as int) =~= probes@);
    out
}

} // verus!
