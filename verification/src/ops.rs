//! The operations plan and its human-readable text.
use vstd::prelude::*;

use crate::affected::name_views;
use crate::cli::{append_diagnostics, append_table, append_title, command_line, command_line_text, diagnostics_section, row_views, table_text, title_text};
use crate::diagnostic::{Diagnostic, DiagnosticModel, models};
use crate::domain::{IacProvider, ProjectKind, ProjectManifest, ProjectName, RepoSnapshot, join_project_spec};
use crate::facade::{IacTarget, TargetModel, iac_plan_command, is_plan_command};
use crate::pr::{PrCdnSurface, PrDnsSurface, PrProviderSurface, proxied_text};
use crate::render::{append_command_table, append_list_section, command_table_text, counted, counted_exec, list_section_text};
use crate::requests::{AffectedReport, ProcessCommand, TaskRunReport};
use crate::text::{has_prefix, join_with, owned, push_str, seq_lt, str_lt, strs};

verus! {

/// One infrastructure preview of an operations plan.
#[derive(Clone, Debug)]
pub struct IacPreview {
    /// Owning project; `None` for the shared core infrastructure.
    pub project: Option<ProjectName>,
    /// Infrastructure workspace.
    pub workspace: String,
    /// Target stack.
    pub stack: String,
    /// The command that previews the change.
    pub preview_command: ProcessCommand,
}

/// One health probe of an operations plan.
#[derive(Clone, Debug)]
pub struct ProbeSpec {
    /// Probe name.
    pub name: String,
    /// HTTP method.
    pub method: String,
    /// Probed URL.
    pub url: String,
}

/// A non-mutating operations plan.
#[derive(Clone, Debug)]
pub struct OpsPlan {
    /// Plan id.
    pub id: String,
    /// Target environments.
    pub environments: Vec<String>,
    /// The affected projects, workspaces and tasks.
    pub affected: AffectedReport,
    /// The task dry-run.
    pub task_plan: TaskRunReport,
    /// Infrastructure previews.
    pub iac: Vec<IacPreview>,
    /// Declared DNS records.
    pub dns: Vec<PrDnsSurface>,
    /// Declared CDN checks.
    pub cdn: Vec<PrCdnSurface>,
    /// Provider capability findings.
    pub provider_capabilities: Vec<PrProviderSurface>,
    /// Health probes.
    pub probes: Vec<ProbeSpec>,
    /// Environment variables the operations need.
    pub required_env: Vec<String>,
    /// Production gaps still open.
    pub production_gaps: Vec<String>,
    /// Diagnostics.
    pub diagnostics: Vec<Diagnostic>,
}

/// The affected project names: the directly affected, then the transitively
/// affected.
pub open spec fn affected_names(a: AffectedReport) -> Seq<Seq<char>> {
    name_views(a.directly_affected@) + name_views(a.transitively_affected@)
}

/// The row of an infrastructure preview: project (`core-infra` when shared),
/// workspace, stack and preview command line.
pub open spec fn iac_row(o: IacPreview) -> Seq<Seq<char>> {
    seq![
        match o.project {
            Some(p) => p@,
            None => "core-infra"@,
        },
        o.workspace@,
        o.stack@,
        command_line_text(o.preview_command.program@, strs(o.preview_command.args@)),
    ]
}

/// The row of a DNS record: record, target and expected proxying.
pub open spec fn dns_row(d: PrDnsSurface) -> Seq<Seq<char>> {
    seq![d.record@, d.expected_target@, proxied_text(d.expected_proxied)]
}

/// The row of a CDN check: provider, alias and the expected headers.
pub open spec fn cdn_row(c: PrCdnSurface) -> Seq<Seq<char>> {
    seq![c.provider@, c.alias@, join_with(strs(c.expected_response_headers@), ", "@)]
}

/// The row of a provider capability finding.
pub open spec fn provider_row(p: PrProviderSurface) -> Seq<Seq<char>> {
    seq![p.workspace@, p.package@, p.version@, p.status@]
}

/// The row of a probe: name, method and URL.
pub open spec fn probe_row(p: ProbeSpec) -> Seq<Seq<char>> {
    seq![p.name@, p.method@, p.url@]
}

/// The human-readable text of an operations plan: title and id, the
/// environments and affected projects, the task dry-run, the counted IaC,
/// DNS, CDN, provider and probe tables, the required environment, the
/// production gaps and the diagnostics.
pub open spec fn ops_plan_text(plan: OpsPlan) -> Seq<char> {
    let t0 = title_text("Operations plan"@) + "Id: "@ + plan.id@ + "\n"@;
    let t1 = t0 + list_section_text(t0, "Environments"@, strs(plan.environments@));
    let t2 = t1 + list_section_text(t1, "Affected projects"@, affected_names(plan.affected));
    let t3 = t2 + command_table_text(t2, "Task dry-run"@, plan.task_plan.commands@);
    let t4 = t3 + table_text(t3, counted("IaC previews"@, plan.iac@.len()),
        seq!["Project"@, "Workspace"@, "Stack"@, "Command"@], plan.iac@.map_values(|o: IacPreview| iac_row(o)));
    let t5 = t4 + table_text(t4, counted("DNS"@, plan.dns@.len()),
        seq!["Record"@, "Target"@, "Proxied"@], plan.dns@.map_values(|d: PrDnsSurface| dns_row(d)));
    let t6 = t5 + table_text(t5, counted("CDN"@, plan.cdn@.len()),
        seq!["Provider"@, "Alias"@, "Headers"@], plan.cdn@.map_values(|c: PrCdnSurface| cdn_row(c)));
    let t7 = t6 + table_text(t6, counted("Provider capabilities"@, plan.provider_capabilities@.len()),
        seq!["Workspace"@, "Package"@, "Version"@, "Status"@],
        plan.provider_capabilities@.map_values(|p: PrProviderSurface| provider_row(p)));
    let t8 = t7 + table_text(t7, counted("Probes"@, plan.probes@.len()),
        seq!["Name"@, "Method"@, "URL"@], plan.probes@.map_values(|p: ProbeSpec| probe_row(p)));
    let t9 = t8 + list_section_text(t8, "Required env"@, strs(plan.required_env@));
    let t10 = t9 + list_section_text(t9, "Production gaps"@, strs(plan.production_gaps@));
    t10 + diagnostics_section(t10, models(plan.diagnostics@))
}

fn affected_name_strings(a: &AffectedReport) -> (r: Vec<String>)
    ensures
        strs(r@) == affected_names(*a),
{
    let mut out = crate::render::name_strings(&a.directly_affected);
    let more = &a.transitively_affected;
    let ghost first = strs(out@);
    let mut i: usize = 0;
    while i < more.len()
        invariant
            i <= more.len(),
            *more == a.transitively_affected,
            strs(out@) == first + name_views(more@).subrange(0, i as int),
        decreases more.len() - i,
    {
        let ghost prev = strs(out@);
        out.push(owned(more[i].as_str()));
        assert(strs(out@) =~= prev.push(more@[i as int]@));
        assert(name_views(more@).subrange(0, i as int + 1) =~= name_views(more@).subrange(0, i as int).push(more@[i as int]@));
        i = i + 1;
    }
    assert(name_views(more@).subrange(0, more.len() as int) =~= name_views(more@));
    out
}

fn iac_rows(items: &Vec<IacPreview>) -> (rows: Vec<Vec<String>>)
    ensures
        row_views(rows@) == items@.map_values(|o: IacPreview| iac_row(o)),
{
    let ghost want = items@.map_values(|o: IacPreview| iac_row(o));
    let mut rows: Vec<Vec<String>> = Vec::new();
    let mut k: usize = 0;
    while k < items.len()
        invariant
            k <= items.len(),
            want == items@.map_values(|o: IacPreview| iac_row(o)),
            row_views(rows@) == want.subrange(0, k as int),
        decreases items.len() - k,
    {
        let o = &items[k];
        let project = match &o.project {
            Some(p) => owned(p.as_str()),
            None => owned("core-infra"),
        };
        let row = vec![project, owned(o.workspace.as_str()), owned(o.stack.as_str()), command_line(&o.preview_command)];
        assert(strs(row@) =~= want[k as int]);
        let ghost prev = row_views(rows@);
        rows.push(row);
        assert(row_views(rows@) =~= prev.push(want[k as int]));
        assert(want.subrange(0, k as int + 1) =~= want.subrange(0, k as int).push(want[k as int]));
        k = k + 1;
    }
    assert(want.subrange(0, items.len() as int) =~= want);
    rows
}

fn dns_rows(items: &Vec<PrDnsSurface>) -> (rows: Vec<Vec<String>>)
    ensures
        row_views(rows@) == items@.map_values(|d: PrDnsSurface| dns_row(d)),
{
    let ghost want = items@.map_values(|d: PrDnsSurface| dns_row(d));
    let mut rows: Vec<Vec<String>> = Vec::new();
    let mut k: usize = 0;
    while k < items.len()
        invariant
            k <= items.len(),
            want == items@.map_values(|d: PrDnsSurface| dns_row(d)),
            row_views(rows@) == want.subrange(0, k as int),
        decreases items.len() - k,
    {
        let d = &items[k];
        let proxied = match d.expected_proxied {
            Some(true) => owned("true"),
            Some(false) => owned("false"),
            None => owned("unknown"),
        };
        let row = vec![owned(d.record.as_str()), owned(d.expected_target.as_str()), proxied];
        assert(strs(row@) =~= want[k as int]);
        let ghost prev = row_views(rows@);
        rows.push(row);
        assert(row_views(rows@) =~= prev.push(want[k as int]));
        assert(want.subrange(0, k as int + 1) =~= want.subrange(0, k as int).push(want[k as int]));
        k = k + 1;
    }
    assert(want.subrange(0, items.len() as int) =~= want);
    rows
}

fn cdn_rows(items: &Vec<PrCdnSurface>) -> (rows: Vec<Vec<String>>)
    ensures
        row_views(rows@) == items@.map_values(|c: PrCdnSurface| cdn_row(c)),
{
    let ghost want = items@.map_values(|c: PrCdnSurface| cdn_row(c));
    let mut rows: Vec<Vec<String>> = Vec::new();
    let mut k: usize = 0;
    while k < items.len()
        invariant
            k <= items.len(),
            want == items@.map_values(|c: PrCdnSurface| cdn_row(c)),
            row_views(rows@) == want.subrange(0, k as int),
        decreases items.len() - k,
    {
        let c = &items[k];
        let headers = crate::policy::join_strings(&c.expected_response_headers, ", ");
        let row = vec![owned(c.provider.as_str()), owned(c.alias.as_str()), headers];
        assert(strs(row@) =~= want[k as int]);
        let ghost prev = row_views(rows@);
        rows.push(row);
        assert(row_views(rows@) =~= prev.push(want[k as int]));
        assert(want.subrange(0, k as int + 1) =~= want.subrange(0, k as int).push(want[k as int]));
        k = k + 1;
    }
    assert(want.subrange(0, items.len() as int) =~= want);
    rows
}

fn provider_rows(items: &Vec<PrProviderSurface>) -> (rows: Vec<Vec<String>>)
    ensures
        row_views(rows@) == items@.map_values(|p: PrProviderSurface| provider_row(p)),
{
    let ghost want = items@.map_values(|p: PrProviderSurface| provider_row(p));
    let mut rows: Vec<Vec<String>> = Vec::new();
    let mut k: usize = 0;
    while k < items.len()
        invariant
            k <= items.len(),
            want == items@.map_values(|p: PrProviderSurface| provider_row(p)),
            row_views(rows@) == want.subrange(0, k as int),
        decreases items.len() - k,
    {
        let p = &items[k];
        let row = vec![owned(p.workspace.as_str()), owned(p.package.as_str()), owned(p.version.as_str()), owned(p.status.as_str())];
        assert(strs(row@) =~= want[k as int]);
        let ghost prev = row_views(rows@);
        rows.push(row);
        assert(row_views(rows@) =~= prev.push(want[k as int]));
        assert(want.subrange(0, k as int + 1) =~= want.subrange(0, k as int).push(want[k as int]));
        k = k + 1;
    }
    assert(want.subrange(0, items.len() as int) =~= want);
    rows
}

fn probe_rows(items: &Vec<ProbeSpec>) -> (rows: Vec<Vec<String>>)
    ensures
        row_views(rows@) == items@.map_values(|p: ProbeSpec| probe_row(p)),
{
    let ghost want = items@.map_values(|p: ProbeSpec| probe_row(p));
    let mut rows: Vec<Vec<String>> = Vec::new();
    let mut k: usize = 0;
    while k < items.len()
        invariant
            k <= items.len(),
            want == items@.map_values(|p: ProbeSpec| probe_row(p)),
            row_views(rows@) == want.subrange(0, k as int),
        decreases items.len() - k,
    {
        let p = &items[k];
        let row = vec![owned(p.name.as_str()), owned(p.method.as_str()), owned(p.url.as_str())];
        assert(strs(row@) =~= want[k as int]);
        let ghost prev = row_views(rows@);
        rows.push(row);
        assert(row_views(rows@) =~= prev.push(want[k as int]));
        assert(want.subrange(0, k as int + 1) =~= want.subrange(0, k as int).push(want[k as int]));
        k = k + 1;
    }
    assert(want.subrange(0, items.len() as int) =~= want);
    rows
}

/// Renders the human-readable text of an operations plan.
#[verifier::rlimit(80)]
#[verifier::spinoff_prover]
pub fn render_ops_plan(plan: &OpsPlan) -> (r: String)
    ensures
        r@ == ops_plan_text(*plan),
{
    let ghost t0 = title_text("Operations plan"@) + "Id: "@ + plan.id@ + "\n"@;
    let ghost t1 = t0 + list_section_text(t0, "Environments"@, strs(plan.environments@));
    let ghost t2 = t1 + list_section_text(t1, "Affected projects"@, affected_names(plan.affected));
    let ghost t3 = t2 + command_table_text(t2, "Task dry-run"@, plan.task_plan.commands@);
    let ghost t4 = t3 + table_text(t3, counted("IaC previews"@, plan.iac@.len()),
        seq!["Project"@, "Workspace"@, "Stack"@, "Command"@], plan.iac@.map_values(|o: IacPreview| iac_row(o)));
    let ghost t5 = t4 + table_text(t4, counted("DNS"@, plan.dns@.len()),
        seq!["Record"@, "Target"@, "Proxied"@], plan.dns@.map_values(|d: PrDnsSurface| dns_row(d)));
    let ghost t6 = t5 + table_text(t5, counted("CDN"@, plan.cdn@.len()),
        seq!["Provider"@, "Alias"@, "Headers"@], plan.cdn@.map_values(|c: PrCdnSurface| cdn_row(c)));
    let ghost t7 = t6 + table_text(t6, counted("Provider capabilities"@, plan.provider_capabilities@.len()),
        seq!["Workspace"@, "Package"@, "Version"@, "Status"@],
        plan.provider_capabilities@.map_values(|p: PrProviderSurface| provider_row(p)));
    let ghost t8 = t7 + table_text(t7, counted("Probes"@, plan.probes@.len()),
        seq!["Name"@, "Method"@, "URL"@], plan.probes@.map_values(|p: ProbeSpec| probe_row(p)));
    let ghost t9 = t8 + list_section_text(t8, "Required env"@, strs(plan.required_env@));
    let ghost t10 = t9 + list_section_text(t9, "Production gaps"@, strs(plan.production_gaps@));
    let mut output = String::new();
    append_title(&mut output, "Operations plan");
    push_str(&mut output, "Id: ");
    push_str(&mut output, plan.id.as_str());
    push_str(&mut output, "\n");
    assert(output@ =~= t0);
    append_list_section(&mut output, "Environments", &plan.environments);
    assert(output@ == t1);
    let names = affected_name_strings(&plan.affected);
    append_list_section(&mut output, "Affected projects", &names);
    assert(output@ == t2);
    append_command_table(&mut output, "Task dry-run", &plan.task_plan.commands);
    assert(output@ == t3);
    let title = counted_exec("IaC previews", plan.iac.len());
    let hs = vec![owned("Project"), owned("Workspace"), owned("Stack"), owned("Command")];
    assert(strs(hs@) =~= seq!["Project"@, "Workspace"@, "Stack"@, "Command"@]);
    append_table(&mut output, title.as_str(), &hs, &iac_rows(&plan.iac));
    assert(output@ == t4);
    let title = counted_exec("DNS", plan.dns.len());
    let hs = vec![owned("Record"), owned("Target"), owned("Proxied")];
    assert(strs(hs@) =~= seq!["Record"@, "Target"@, "Proxied"@]);
    append_table(&mut output, title.as_str(), &hs, &dns_rows(&plan.dns));
    assert(output@ == t5);
    let title = counted_exec("CDN", plan.cdn.len());
    let hs = vec![owned("Provider"), owned("Alias"), owned("Headers")];
    assert(strs(hs@) =~= seq!["Provider"@, "Alias"@, "Headers"@]);
    append_table(&mut output, title.as_str(), &hs, &cdn_rows(&plan.cdn));
    assert(output@ == t6);
    let title = counted_exec("Provider capabilities", plan.provider_capabilities.len());
    let hs = vec![owned("Workspace"), owned("Package"), owned("Version"), owned("Status")];
    assert(strs(hs@) =~= seq!["Workspace"@, "Package"@, "Version"@, "Status"@]);
    append_table(&mut output, title.as_str(), &hs, &provider_rows(&plan.provider_capabilities));
    assert(output@ == t7);
    let title = counted_exec("Probes", plan.probes.len());
    let hs = vec![owned("Name"), owned("Method"), owned("URL")];
    assert(strs(hs@) =~= seq!["Name"@, "Method"@, "URL"@]);
    append_table(&mut output, title.as_str(), &hs, &probe_rows(&plan.probes));
    assert(output@ == t8);
    append_list_section(&mut output, "Required env", &plan.required_env);
    append_list_section(&mut output, "Production gaps", &plan.production_gaps);
    assert(output@ == t10);
    append_diagnostics(&mut output, &plan.diagnostics);
    output
}

// ---------------------------------------------------------------------------
// Infrastructure previews
// ---------------------------------------------------------------------------

/// The order in which project kinds are previewed: core infrastructure
/// first, tools last.
pub open spec fn ops_rank(k: ProjectKind) -> nat {
    match k {
        ProjectKind::CoreInfra | ProjectKind::CoreInfraComponent => 0,
        ProjectKind::Framework => 1,
        ProjectKind::FoundationService => 2,
        ProjectKind::App => 3,
        ProjectKind::ProtoRoot => 4,
        ProjectKind::Tool => 5,
    }
}

/// Whether project `a` is previewed before project `b`: by kind rank, then
/// by name.
pub open spec fn ops_before(a: ProjectManifest, b: ProjectManifest) -> bool {
    ops_rank(a.kind) < ops_rank(b.kind) || (ops_rank(a.kind) == ops_rank(b.kind) && seq_lt(a.name@, b.name@))
}

/// Where a project goes among ordered ones: after every one it does not
/// come before.
pub open spec fn ops_slot(s: Seq<ProjectManifest>, x: ProjectManifest) -> int
    decreases s.len(),
{
    if s.len() == 0 {
        0
    } else if ops_before(x, s[0]) {
        0
    } else {
        1 + ops_slot(s.drop_first(), x)
    }
}

/// Projects in preview order, those with equal keys in their given order.
pub open spec fn ops_sorted(xs: Seq<ProjectManifest>) -> Seq<ProjectManifest>
    decreases xs.len(),
{
    if xs.len() == 0 {
        Seq::empty()
    } else {
        let s = ops_sorted(xs.drop_last());
        s.insert(ops_slot(s, xs.last()), xs.last())
    }
}

/// The affected projects that declare infrastructure, in snapshot order.
pub open spec fn iac_candidates(ps: Seq<ProjectManifest>, names: Seq<Seq<char>>) -> Seq<ProjectManifest>
    decreases ps.len(),
{
    if ps.len() == 0 {
        Seq::empty()
    } else {
        let prev = iac_candidates(ps.drop_last(), names);
        let p = ps.last();
        if names.contains(p.name@) && p.iac is Some {
            prev.push(p)
        } else {
            prev
        }
    }
}

/// One preview target per environment.
pub open spec fn env_targets(project: Option<Seq<char>>, root: Seq<char>, provider: IacProvider, core: bool, envs: Seq<Seq<char>>) -> Seq<TargetModel> {
    envs.map_values(|e: Seq<char>| TargetModel { project, root, provider, stack: e, core })
}

/// The preview targets of the ordered projects; the first infrastructure
/// root that cannot be joined is the error.
pub open spec fn project_ops_targets(ps: Seq<ProjectManifest>, envs: Seq<Seq<char>>) -> Result<Seq<TargetModel>, DiagnosticModel>
    decreases ps.len(),
{
    if ps.len() == 0 {
        Ok(Seq::empty())
    } else {
        match project_ops_targets(ps.drop_last(), envs) {
            Err(d) => Err(d),
            Ok(prev) => {
                let p = ps.last();
                match p.iac {
                    None => Ok(prev),
                    Some(iac) => match join_project_spec(p.path@, iac.root@) {
                        Err(d) => Err(d),
                        Ok(root) => Ok(prev + env_targets(Some(p.name@), root, iac.provider, false, envs)),
                    },
                }
            },
        }
    }
}

/// The preview targets of an operations plan: the core infrastructure
/// stacks, one per environment, when a changed file lies under its root
/// (by text prefix); then, per environment, the infrastructure of each
/// affected project, core infrastructure kinds first and by name.
pub open spec fn ops_targets(
    snapshot: RepoSnapshot,
    names: Seq<Seq<char>>,
    files: Seq<Seq<char>>,
    envs: Seq<Seq<char>>,
) -> Result<Seq<TargetModel>, DiagnosticModel> {
    let core_root = snapshot.repo_manifest.core_infra_root@;
    let core = if exists|k: int| 0 <= k < files.len() && has_prefix(#[trigger] files[k], core_root) {
        env_targets(None, core_root, IacProvider::Pulumi, true, envs)
    } else {
        Seq::empty()
    };
    match project_ops_targets(ops_sorted(iac_candidates(snapshot.projects@, names)), envs) {
        Err(d) => Err(d),
        Ok(more) => Ok(core + more),
    }
}

/// A preview of exactly this target.
pub open spec fn preview_holds(pv: IacPreview, t: TargetModel) -> bool {
    &&& (match pv.project {
        Some(n) => t.project == Some(n@),
        None => t.project is None,
    })
    &&& pv.workspace@ == t.root
    &&& pv.stack@ == t.stack
    &&& is_plan_command(t, pv.preview_command)
}

proof fn lemma_ops_slot(s: Seq<ProjectManifest>, x: ProjectManifest, p: int)
    requires
        0 <= p <= s.len(),
        forall|k: int| 0 <= k < p ==> !ops_before(x, #[trigger] s[k]),
        p == s.len() || ops_before(x, s[p]),
    ensures
        ops_slot(s, x) == p,
    decreases s.len(),
{
    if s.len() > 0 && p > 0 {
        assert(!ops_before(x, s[0]));
        let t = s.drop_first();
        assert forall|k: int| 0 <= k < p - 1 implies !ops_before(x, #[trigger] t[k]) by {
            assert(t[k] == s[k + 1]);
        }
        if p < s.len() {
            assert(t[p - 1] == s[p]);
        }
        lemma_ops_slot(t, x, p - 1);
    }
}

fn ops_rank_exec(k: ProjectKind) -> (r: u8)
    ensures
        r as nat == ops_rank(k),
{
    match k {
        ProjectKind::CoreInfra | ProjectKind::CoreInfraComponent => 0,
        ProjectKind::Framework => 1,
        ProjectKind::FoundationService => 2,
        ProjectKind::App => 3,
        ProjectKind::ProtoRoot => 4,
        ProjectKind::Tool => 5,
    }
}

fn ops_before_exec(a: &ProjectManifest, b: &ProjectManifest) -> (r: bool)
    ensures
        r == ops_before(*a, *b),
{
    let ra = ops_rank_exec(a.kind);
    let rb = ops_rank_exec(b.kind);
    ra < rb || (ra == rb && str_lt(a.name.as_str(), b.name.as_str()))
}

/// The projects at the given indices.
pub open spec fn at_indices(ps: Seq<ProjectManifest>, ix: Seq<usize>) -> Seq<ProjectManifest> {
    ix.map_values(|i: usize| ps[i as int])
}

fn candidate_indices(ps: &Vec<ProjectManifest>, names: &Vec<String>) -> (r: Vec<usize>)
    ensures
        forall|k: int| 0 <= k < r@.len() ==> (#[trigger] r@[k]) < ps@.len(),
        at_indices(ps@, r@) == iac_candidates(ps@, strs(names@)),
{
    let mut out: Vec<usize> = Vec::new();
    let mut i: usize = 0;
    while i < ps.len()
        invariant
            i <= ps.len(),
            forall|k: int| 0 <= k < out@.len() ==> (#[trigger] out@[k]) < ps@.len(),
            at_indices(ps@, out@) == iac_candidates(ps@.subrange(0, i as int), strs(names@)),
        decreases ps.len() - i,
    {
        assert(ps@.subrange(0, i as int + 1).drop_last() =~= ps@.subrange(0, i as int));
        assert(ps@.subrange(0, i as int + 1).last() == ps@[i as int]);
        let p = &ps[i];
        let named = crate::adoption::text_in(names, p.name.as_str());
        if named && p.iac.is_some() {
            let ghost prev = at_indices(ps@, out@);
            out.push(i);
            assert(at_indices(ps@, out@) =~= prev.push(ps@[i as int]));
        }
        i = i + 1;
    }
    assert(ps@.subrange(0, ps.len() as int) =~= ps@);
    out
}

fn sort_indices(ps: &Vec<ProjectManifest>, ix: Vec<usize>) -> (r: Vec<usize>)
    requires
        forall|k: int| 0 <= k < ix@.len() ==> (#[trigger] ix@[k]) < ps@.len(),
    ensures
        forall|k: int| 0 <= k < r@.len() ==> (#[trigger] r@[k]) < ps@.len(),
        at_indices(ps@, r@) == ops_sorted(at_indices(ps@, ix@)),
{
    let ghost all = at_indices(ps@, ix@);
    let n = ix.len();
    let mut rest = ix;
    let mut out: Vec<usize> = Vec::new();
    let mut i: usize = 0;
    while rest.len() > 0
        invariant
            all.len() == n,
            i + rest@.len() == all.len(),
            forall|k: int| 0 <= k < rest@.len() ==> (#[trigger] rest@[k]) < ps@.len(),
            forall|k: int| 0 <= k < out@.len() ==> (#[trigger] out@[k]) < ps@.len(),
            at_indices(ps@, rest@) == all.subrange(i as int, all.len() as int),
            at_indices(ps@, out@) == ops_sorted(all.subrange(0, i as int)),
        decreases rest.len(),
    {
        let ghost rest_before = rest@;
        assert(at_indices(ps@, rest_before)[0] == all[i as int]);
        let x = rest.remove(0);
        let ghost os = at_indices(ps@, out@);
        let mut p: usize = 0;
        while p < out.len() && !ops_before_exec(&ps[x], &ps[out[p]])
            invariant
                p <= out.len(),
                x < ps@.len(),
                forall|k: int| 0 <= k < out@.len() ==> (#[trigger] out@[k]) < ps@.len(),
                os == at_indices(ps@, out@),
                forall|k: int| 0 <= k < p ==> !ops_before(ps@[x as int], #[trigger] os[k]),
            decreases out.len() - p,
        {
            p = p + 1;
        }
        proof {
            lemma_ops_slot(os, ps@[x as int], p as int);
            assert(all.subrange(0, i as int + 1).drop_last() =~= all.subrange(0, i as int));
        }
        out.insert(p, x);
        assert(at_indices(ps@, out@) =~= os.insert(p as int, ps@[x as int]));
        i = i + 1;
        assert(at_indices(ps@, rest@) =~= at_indices(ps@, rest_before).drop_first());
        assert(at_indices(ps@, rest@) =~= all.subrange(i as int, all.len() as int));
    }
    assert(all.subrange(0, all.len() as int) =~= all);
    out
}

/// The name of an optional project.
pub open spec fn opt_name(o: Option<ProjectName>) -> Option<Seq<char>> {
    match o {
        Some(n) => Some(n@),
        None => None,
    }
}

fn push_env_previews(
    out: &mut Vec<IacPreview>,
    snapshot: &RepoSnapshot,
    project: &Option<ProjectName>,
    root: &crate::domain::RepoRelativePath,
    provider: IacProvider,
    core: bool,
    envs: &Vec<String>,
    Ghost(acc): Ghost<Seq<TargetModel>>,
)
    requires
        old(out)@.len() == acc.len(),
        forall|k: int| 0 <= k < acc.len() ==> preview_holds(#[trigger] old(out)@[k], acc[k]),
    ensures
        ({
            let all = acc + env_targets(opt_name(*project), root@, provider, core, strs(envs@));
            &&& final(out)@.len() == all.len()
            &&& forall|k: int| 0 <= k < all.len() ==> preview_holds(#[trigger] final(out)@[k], all[k])
        }),
{
    let ghost pv = opt_name(*project);
    let ghost ts = env_targets(pv, root@, provider, core, strs(envs@));
    let mut i: usize = 0;
    while i < envs.len()
        invariant
            i <= envs.len(),
            ts == env_targets(pv, root@, provider, core, strs(envs@)),
            pv == opt_name(*project),
            out@.len() == acc.len() + i,
            forall|k: int| 0 <= k < acc.len() + i ==> preview_holds(#[trigger] out@[k], (acc + ts)[k]),
        decreases envs.len() - i,
    {
        let owner = match project {
            Some(n) => Some(n.duplicate()),
            None => None,
        };
        let target = IacTarget {
            project: owner,
            root: root.duplicate(),
            provider,
            stack: owned(envs[i].as_str()),
            core,
        };
        assert(target@ == ts[i as int]);
        let command = iac_plan_command(snapshot, &target);
        let preview = IacPreview {
            project: target.project,
            workspace: owned(root.as_str()),
            stack: target.stack,
            preview_command: command,
        };
        out.push(preview);
        assert(preview_holds(out@[acc.len() + i], (acc + ts)[acc.len() + i]));
        i = i + 1;
    }
}

proof fn lemma_targets_error_stays(ps: Seq<ProjectManifest>, k: int, envs: Seq<Seq<char>>)
    requires
        0 < k <= ps.len(),
        project_ops_targets(ps.subrange(0, k), envs) is Err,
    ensures
        project_ops_targets(ps, envs) == project_ops_targets(ps.subrange(0, k), envs),
    decreases ps.len() - k,
{
    if k < ps.len() {
        assert(ps.subrange(0, k + 1).drop_last() =~= ps.subrange(0, k));
        lemma_targets_error_stays(ps, k + 1, envs);
    } else {
        assert(ps.subrange(0, k) =~= ps);
    }
}

/// Plans the infrastructure previews of an operations plan: the core
/// infrastructure stacks when a changed file lies under its root, then the
/// stacks of each affected project that declares infrastructure, one per
/// environment.
pub fn ops_iac_previews(
    snapshot: &RepoSnapshot,
    affected: &AffectedReport,
    changed_files: &Vec<crate::domain::RepoRelativePath>,
    environments: &Vec<String>,
) -> (r: Result<Vec<IacPreview>, Diagnostic>)
    ensures
        match r {
            Ok(v) => match ops_targets(*snapshot, affected_names(*affected), crate::ports::path_views(changed_files@), strs(environments@)) {
                Ok(ts) => v@.len() == ts.len() && forall|k: int| 0 <= k < ts.len() ==> preview_holds(#[trigger] v@[k], ts[k]),
                Err(_) => false,
            },
            Err(d) => ops_targets(*snapshot, affected_names(*affected), crate::ports::path_views(changed_files@), strs(environments@))
                == Err::<Seq<TargetModel>, DiagnosticModel>(d@),
        },
{
    let ghost files = crate::ports::path_views(changed_files@);
    let ghost envs = strs(environments@);
    let core_root = crate::text::chars_of(snapshot.repo_manifest.core_infra_root.as_str());
    let mut touches_core = false;
    let mut i: usize = 0;
    while i < changed_files.len()
        invariant
            i <= changed_files.len(),
            files == crate::ports::path_views(changed_files@),
            core_root@ == snapshot.repo_manifest.core_infra_root@,
            touches_core == exists|k: int| 0 <= k < i && has_prefix(#[trigger] files[k], core_root@),
        decreases changed_files.len() - i,
    {
        if crate::text::starts_with(&crate::text::chars_of(changed_files[i].as_str()), &core_root) {
            touches_core = true;
        }
        proof {
            if touches_core && !(exists|k: int| 0 <= k < i && has_prefix(#[trigger] files[k], core_root@)) {
                assert(has_prefix(files[i as int], core_root@));
            }
        }
        i = i + 1;
    }
    let mut out: Vec<IacPreview> = Vec::new();
    let ghost core_ts: Seq<TargetModel> = Seq::empty();
    if touches_core {
        push_env_previews(&mut out, snapshot, &None, &snapshot.repo_manifest.core_infra_root, IacProvider::Pulumi, true,
            environments, Ghost(Seq::empty()));
        proof {
            core_ts = env_targets(None, core_root@, IacProvider::Pulumi, true, envs);
            assert(Seq::<TargetModel>::empty() + core_ts =~= core_ts);
        }
    } else {
        assert(core_ts =~= Seq::<TargetModel>::empty());
    }
    let names = affected_name_strings(affected);
    let ps = &snapshot.projects;
    let ix = candidate_indices(ps, &names);
    let order = sort_indices(ps, ix);
    let ghost sorted = ops_sorted(iac_candidates(ps@, strs(names@)));
    let ghost acc = core_ts;
    let mut k: usize = 0;
    assert(sorted.subrange(0, 0) =~= Seq::<ProjectManifest>::empty());
    assert(core_ts + Seq::<TargetModel>::empty() =~= core_ts);
    while k < order.len()
        invariant
            k <= order.len(),
            *ps == snapshot.projects,
            envs == strs(environments@),
            forall|q: int| 0 <= q < order@.len() ==> (#[trigger] order@[q]) < ps@.len(),
            at_indices(ps@, order@) == sorted,
            strs(names@) == affected_names(*affected),
            sorted == ops_sorted(iac_candidates(ps@, strs(names@))),
            files == crate::ports::path_views(changed_files@),
            core_root@ == snapshot.repo_manifest.core_infra_root@,
            core_ts == (if exists|q: int| 0 <= q < files.len() && has_prefix(#[trigger] files[q], core_root@) {
                env_targets(None, core_root@, IacProvider::Pulumi, true, envs)
            } else {
                Seq::<TargetModel>::empty()
            }),
            match project_ops_targets(sorted.subrange(0, k as int), envs) {
                Ok(ts) => acc == core_ts + ts,
                Err(_) => false,
            },
            out@.len() == acc.len(),
            forall|q: int| 0 <= q < acc.len() ==> preview_holds(#[trigger] out@[q], acc[q]),
        decreases order.len() - k,
    {
        let p = &ps[order[k]];
        assert(sorted[k as int] == *p);
        assert(sorted.subrange(0, k as int + 1).drop_last() =~= sorted.subrange(0, k as int));
        assert(sorted.subrange(0, k as int + 1).last() == *p);
        match &p.iac {
            Some(iac) => {
                let root = match p.path.join_project(&iac.root) {
                    Ok(root) => root,
                    Err(d) => {
                        proof {
                            assert(join_project_spec(p.path@, iac.root@) == Err::<Seq<char>, DiagnosticModel>(d@));
                            assert(project_ops_targets(sorted.subrange(0, k as int + 1), envs) == Err::<Seq<TargetModel>, DiagnosticModel>(d@));
                            lemma_targets_error_stays(sorted, k as int + 1, envs);
                            assert(strs(names@) == affected_names(*affected));
                            assert(project_ops_targets(sorted, envs) == Err::<Seq<TargetModel>, DiagnosticModel>(d@));
                        }
                        return Err(d);
                    },
                };
                let owner = Some(p.name.duplicate());
                push_env_previews(&mut out, snapshot, &owner, &root, iac.provider, false, environments, Ghost(acc));
                proof {
                    let more = env_targets(Some(p.name@), root@, iac.provider, false, envs);
                    assert((core_ts + project_ops_targets(sorted.subrange(0, k as int), envs)->Ok_0) + more
                        =~= core_ts + (project_ops_targets(sorted.subrange(0, k as int), envs)->Ok_0 + more));
                    acc = acc + more;
                }
            },
            None => {},
        }
        k = k + 1;
    }
    assert(sorted.subrange(0, order.len() as int) =~= sorted);
    Ok(out)
}

// ---------------------------------------------------------------------------
// Plan parts
// ---------------------------------------------------------------------------

/// The environments a plan targets: those requested, else `staging`.
pub open spec fn plan_environments_spec(requested: Seq<Seq<char>>) -> Seq<Seq<char>> {
    if requested.len() == 0 {
        seq!["staging"@]
    } else {
        requested
    }
}

/// The environments a plan targets: those requested, else `staging`.
pub fn plan_environments(requested: Vec<String>) -> (r: Vec<String>)
    ensures
        strs(r@) == plan_environments_spec(strs(requested@)),
{
    if requested.len() == 0 {
        let r = vec![owned("staging")];
        assert(strs(r@) =~= seq!["staging"@]);
        r
    } else {
        requested
    }
}

/// The environment variables the operations of a plan need.
pub open spec fn required_env_spec() -> Seq<Seq<char>> {
    seq!["AWS_PROFILE"@, "AWS_REGION"@, "AWS_DEFAULT_REGION"@, "CLOUDFLARE_API_TOKEN"@, "CLOUDFLARE_ZONE_ID"@]
}

/// The environment variables the operations of a plan need.
pub fn required_env() -> (r: Vec<String>)
    ensures
        strs(r@) == required_env_spec(),
{
    let r = vec![
        owned("AWS_PROFILE"), owned("AWS_REGION"), owned("AWS_DEFAULT_REGION"), owned("CLOUDFLARE_API_TOKEN"),
        owned("CLOUDFLARE_ZONE_ID"),
    ];
    assert(strs(r@) =~= required_env_spec());
    r
}

/// A warning with the given code and message.
pub open spec fn ops_warning(code: Seq<char>, message: Seq<char>) -> DiagnosticModel {
    crate::diagnostic::plain(code, crate::diagnostic::Severity::Warning, message)
}

/// The diagnostics of a plan: a warning when there was no change set to
/// compare (no explicit changed file, none found, and no full git range), a
/// warning when nothing is affected, the task plan's diagnostics, review
/// warnings when DNS or CDN intent is present, and the provider findings'
/// diagnostics.
pub open spec fn ops_plan_diagnostics_spec(
    explicit_changed: nat,
    changed: nat,
    range_given: bool,
    affected: AffectedReport,
    task_diagnostics: Seq<DiagnosticModel>,
    dns: nat,
    cdn: nat,
    providers: Seq<crate::provider::ProviderCapabilityReport>,
) -> Seq<DiagnosticModel> {
    (if explicit_changed == 0 && changed == 0 && !range_given {
        seq![ops_warning("ops.plan.no_base_head"@,
            "ops plan could not compare a git range without --base/--head or --changed-file"@)]
    } else {
        Seq::empty()
    }) + (if affected.directly_affected@.len() == 0 && affected.transitively_affected@.len() == 0 {
        seq![ops_warning("ops.plan.no_affected_projects"@, "no projects were affected by the selected change set"@)]
    } else {
        Seq::empty()
    }) + task_diagnostics + (if dns > 0 {
        seq![ops_warning("ops.plan.dns_review_required"@,
            "DNS intent is present; verify authoritative provider, record target, and proxy mode"@)]
    } else {
        Seq::empty()
    }) + (if cdn > 0 {
        seq![ops_warning("ops.plan.cdn_review_required"@,
            "CDN intent is present; verify response headers prove the expected serving layer"@)]
    } else {
        Seq::empty()
    }) + crate::provider::all_diagnostics(providers)
}

fn push_all(out: &mut Vec<Diagnostic>, more: &Vec<Diagnostic>)
    ensures
        models(final(out)@) == models(old(out)@) + models(more@),
{
    let ghost start = models(out@);
    let mut i: usize = 0;
    while i < more.len()
        invariant
            i <= more.len(),
            models(out@) == start + models(more@).subrange(0, i as int),
        decreases more.len() - i,
    {
        let ghost prev = models(out@);
        out.push(more[i].duplicate());
        assert(models(out@) =~= prev.push(more@[i as int]@));
        assert(models(more@).subrange(0, i as int + 1) =~= models(more@).subrange(0, i as int).push(more@[i as int]@));
        i = i + 1;
    }
    assert(models(more@).subrange(0, more.len() as int) =~= models(more@));
}

/// Collects the diagnostics of an operations plan.
pub fn ops_plan_diagnostics(
    explicit_changed: usize,
    changed_files: &Vec<crate::domain::RepoRelativePath>,
    base: &Option<String>,
    head: &Option<String>,
    affected: &AffectedReport,
    task_plan: &TaskRunReport,
    dns: &Vec<PrDnsSurface>,
    cdn: &Vec<PrCdnSurface>,
    provider_capabilities: &Vec<crate::provider::ProviderCapabilityReport>,
) -> (r: Vec<Diagnostic>)
    ensures
        models(r@) == ops_plan_diagnostics_spec(explicit_changed as nat, changed_files@.len(), base is Some && head is Some,
            *affected, models(task_plan.diagnostics@), dns@.len(), cdn@.len(), provider_capabilities@),
{
    let mut out: Vec<Diagnostic> = Vec::new();
    let ghost d0 = models(out@);
    if explicit_changed == 0 && changed_files.len() == 0 && (base.is_none() || head.is_none()) {
        out.push(Diagnostic::warning(
            "ops.plan.no_base_head",
            "ops plan could not compare a git range without --base/--head or --changed-file",
        ));
    }
    if affected.directly_affected.len() == 0 && affected.transitively_affected.len() == 0 {
        out.push(Diagnostic::warning("ops.plan.no_affected_projects", "no projects were affected by the selected change set"));
    }
    let ghost d2 = models(out@);
    assert(d2 =~= (if explicit_changed == 0 && changed_files@.len() == 0 && !(base is Some && head is Some) {
        seq![ops_warning("ops.plan.no_base_head"@,
            "ops plan could not compare a git range without --base/--head or --changed-file"@)]
    } else {
        Seq::empty()
    }) + (if affected.directly_affected@.len() == 0 && affected.transitively_affected@.len() == 0 {
        seq![ops_warning("ops.plan.no_affected_projects"@, "no projects were affected by the selected change set"@)]
    } else {
        Seq::empty()
    }));
    push_all(&mut out, &task_plan.diagnostics);
    let ghost d3 = models(out@);
    if dns.len() > 0 {
        out.push(Diagnostic::warning(
            "ops.plan.dns_review_required",
            "DNS intent is present; verify authoritative provider, record target, and proxy mode",
        ));
    }
    if cdn.len() > 0 {
        out.push(Diagnostic::warning(
            "ops.plan.cdn_review_required",
            "CDN intent is present; verify response headers prove the expected serving layer",
        ));
    }
    let ghost d5 = models(out@);
    assert(d5 =~= d3 + (if dns@.len() > 0 {
        seq![ops_warning("ops.plan.dns_review_required"@,
            "DNS intent is present; verify authoritative provider, record target, and proxy mode"@)]
    } else {
        Seq::empty()
    }) + (if cdn@.len() > 0 {
        seq![ops_warning("ops.plan.cdn_review_required"@,
            "CDN intent is present; verify response headers prove the expected serving layer"@)]
    } else {
        Seq::empty()
    }));
    let more = crate::provider::collect_diagnostics(provider_capabilities);
    push_all(&mut out, &more);
    assert(models(out@) =~= ops_plan_diagnostics_spec(explicit_changed as nat, changed_files@.len(), base is Some && head is Some,
        *affected, models(task_plan.diagnostics@), dns@.len(), cdn@.len(), provider_capabilities@));
    out
}

} // verus!
