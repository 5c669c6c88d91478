//! The markdown of a pull request impact summary.
use vstd::prelude::*;

use crate::diagnostic::{Diagnostic, DiagnosticModel, models};
use crate::domain::RepoRelativePath;
use crate::requests::AffectedReport;
use crate::text::{owned, push_str, strs};

verus! {

/// A declared DNS record of the deploy surface.
#[derive(Clone, Debug)]
pub struct PrDnsSurface {
    /// Record name.
    pub record: String,
    /// DNS provider.
    pub provider: String,
    /// Expected record target.
    pub expected_target: String,
    /// Whether the record is expected to be proxied, when declared.
    pub expected_proxied: Option<bool>,
}

/// A declared CDN check of the deploy surface.
#[derive(Clone, Debug)]
pub struct PrCdnSurface {
    /// CDN provider.
    pub provider: String,
    /// Alias served.
    pub alias: String,
    /// Response headers expected from the alias.
    pub expected_response_headers: Vec<String>,
}

/// A provider capability finding of the deploy surface, each part as text.
#[derive(Clone, Debug)]
pub struct PrProviderSurface {
    /// Provider package.
    pub package: String,
    /// Package version.
    pub version: String,
    /// Workspace holding the package.
    pub workspace: String,
    /// Capability status.
    pub status: String,
    /// Capability field.
    pub field: String,
}

/// The operational context of a pull request: its deploy surface and the
/// production gaps still open.
#[derive(Clone, Debug, Default)]
pub struct PrOperationalContext {
    /// Declared DNS records.
    pub dns: Vec<PrDnsSurface>,
    /// Declared CDN checks.
    pub cdn: Vec<PrCdnSurface>,
    /// Provider capability findings.
    pub provider_capabilities: Vec<PrProviderSurface>,
    /// Production gaps still open.
    pub production_gaps: Vec<String>,
}

/// One bullet per item, each item in backticks.
pub open spec fn code_bullets(items: Seq<Seq<char>>) -> Seq<char>
    decreases items.len(),
{
    if items.len() == 0 {
        Seq::empty()
    } else {
        code_bullets(items.drop_last()) + "- `"@ + items.last() + "`\n"@
    }
}

/// One bullet per item, as plain text.
pub open spec fn plain_bullets(items: Seq<Seq<char>>) -> Seq<char>
    decreases items.len(),
{
    if items.len() == 0 {
        Seq::empty()
    } else {
        plain_bullets(items.drop_last()) + "- "@ + items.last() + "\n"@
    }
}

/// How the expected proxying of a record reads.
pub open spec fn proxied_text(p: Option<bool>) -> Seq<char> {
    match p {
        Some(true) => "true"@,
        Some(false) => "false"@,
        None => "unknown"@,
    }
}

/// The line of a DNS record.
pub open spec fn dns_line(d: PrDnsSurface) -> Seq<char> {
    "- DNS `"@ + d.record@ + "` via `"@ + d.provider@ + "` target `"@ + d.expected_target@ + "` proxied `"@
        + proxied_text(d.expected_proxied) + "`\n"@
}

/// The line of a CDN check.
pub open spec fn cdn_line(c: PrCdnSurface) -> Seq<char> {
    "- CDN `"@ + c.provider@ + "` serves `"@ + c.alias@ + "` with headers `"@
        + crate::text::join_with(strs(c.expected_response_headers@), ", "@) + "`\n"@
}

/// The line of a provider capability finding.
pub open spec fn provider_line(p: PrProviderSurface) -> Seq<char> {
    "- Provider `"@ + p.package@ + "` `"@ + p.version@ + "` in `"@ + p.workspace@ + "`: `"@ + p.status@ + "` `"@
        + p.field@ + "`\n"@
}

/// The line of a diagnostic.
pub open spec fn diagnostic_bullet(d: DiagnosticModel) -> Seq<char> {
    "- `"@ + d.code + "`: "@ + d.message + "\n"@
}

/// The lines of the DNS records, in order.
pub open spec fn dns_lines(v: Seq<PrDnsSurface>) -> Seq<char>
    decreases v.len(),
{
    if v.len() == 0 { Seq::empty() } else { dns_lines(v.drop_last()) + dns_line(v.last()) }
}

/// The lines of the CDN checks, in order.
pub open spec fn cdn_lines(v: Seq<PrCdnSurface>) -> Seq<char>
    decreases v.len(),
{
    if v.len() == 0 { Seq::empty() } else { cdn_lines(v.drop_last()) + cdn_line(v.last()) }
}

/// The lines of the provider findings, in order.
pub open spec fn provider_lines(v: Seq<PrProviderSurface>) -> Seq<char>
    decreases v.len(),
{
    if v.len() == 0 { Seq::empty() } else { provider_lines(v.drop_last()) + provider_line(v.last()) }
}

/// The lines of the diagnostics, in order.
pub open spec fn diagnostic_bullets(v: Seq<DiagnosticModel>) -> Seq<char>
    decreases v.len(),
{
    if v.len() == 0 { Seq::empty() } else { diagnostic_bullets(v.drop_last()) + diagnostic_bullet(v.last()) }
}

/// The deploy surface section's body: a note when nothing is declared, the
/// DNS, CDN and provider lines, then the diagnostics.
pub open spec fn deploy_surface(ops: PrOperationalContext, diagnostics: Seq<DiagnosticModel>) -> Seq<char> {
    (if ops.dns@.len() == 0 && ops.cdn@.len() == 0 && ops.provider_capabilities@.len() == 0 {
        "- No declared DNS, CDN, or provider-capability surface found.\n"@
    } else {
        Seq::empty()
    }) + dns_lines(ops.dns@) + cdn_lines(ops.cdn@) + provider_lines(ops.provider_capabilities@)
        + diagnostic_bullets(diagnostics)
}

/// The fixed list of suggested commands.
pub open spec fn suggested_commands() -> Seq<char> {
    "- `repoctl graph validate`\n"@ + "- `repoctl affected --tasks check,test,build`\n"@
        + "- `repoctl run check --affected --dry-run`\n"@
        + "- `repoctl ops plan --env staging --tasks check,test,build --format json`\n"@
        + "- `repoctl ops verify --plan target/repoctl/ops-plan.json`\n"@ + "- `repoctl provider capabilities`\n"@
}

/// The open gaps section, absent when there are none.
pub open spec fn gaps_section(gaps: Seq<Seq<char>>) -> Seq<char> {
    if gaps.len() == 0 {
        Seq::empty()
    } else {
        "\n## Unresolved Gaps\n"@ + plain_bullets(gaps)
    }
}

/// The markdown of a pull request impact summary: changed files, affected
/// projects (direct, then transitive), tasks, risk flags, the deploy
/// surface with the diagnostics, suggested approvers and commands, and the
/// open gaps.
pub open spec fn pr_summary_markdown(
    changed_files: Seq<Seq<char>>,
    affected: AffectedReport,
    diagnostics: Seq<DiagnosticModel>,
    ops: PrOperationalContext,
) -> Seq<char> {
    "# PR Impact Summary\n\n"@ + "## Changed Files\n"@ + code_bullets(changed_files)
        + "\n## Affected Projects\n"@
        + code_bullets(crate::affected::name_views(affected.directly_affected@) + crate::affected::name_views(affected.transitively_affected@))
        + "\n## Affected Tasks\n"@ + code_bullets(strs(affected.tasks@))
        + "\n## Risk Flags\n"@ + code_bullets(strs(affected.risk_flags@))
        + "\n## Deploy Surface\n"@ + deploy_surface(ops, diagnostics)
        + "\n## Suggested Approvers\n"@ + code_bullets(crate::policy::owner_views(affected.suggested_reviewers@))
        + "\n## Suggested Commands\n"@ + suggested_commands()
        + gaps_section(strs(ops.production_gaps@))
}

fn append_code_bullets(out: &mut String, items: &Vec<String>)
    ensures
        final(out)@ == old(out)@ + code_bullets(strs(items@)),
{
    let ghost start = out@;
    let mut i: usize = 0;
    while i < items.len()
        invariant
            i <= items.len(),
            out@ == start + code_bullets(strs(items@).subrange(0, i as int)),
        decreases items.len() - i,
    {
        assert(strs(items@).subrange(0, i as int + 1).drop_last() =~= strs(items@).subrange(0, i as int));
        push_str(out, "- `");
        push_str(out, items[i].as_str());
        push_str(out, "`\n");
        i = i + 1;
    }
    assert(strs(items@).subrange(0, items.len() as int) =~= strs(items@));
}

fn append_plain_bullets(out: &mut String, items: &Vec<String>)
    ensures
        final(out)@ == old(out)@ + plain_bullets(strs(items@)),
{
    let ghost start = out@;
    let mut i: usize = 0;
    while i < items.len()
        invariant
            i <= items.len(),
            out@ == start + plain_bullets(strs(items@).subrange(0, i as int)),
        decreases items.len() - i,
    {
        assert(strs(items@).subrange(0, i as int + 1).drop_last() =~= strs(items@).subrange(0, i as int));
        push_str(out, "- ");
        push_str(out, items[i].as_str());
        push_str(out, "\n");
        i = i + 1;
    }
    assert(strs(items@).subrange(0, items.len() as int) =~= strs(items@));
}

fn path_strings(v: &Vec<RepoRelativePath>) -> (r: Vec<String>)
    ensures
        strs(r@) == crate::policy::path_list(v@),
{
    let mut out: Vec<String> = Vec::new();
    let mut i: usize = 0;
    while i < v.len()
        invariant
            i <= v.len(),
            strs(out@) == crate::policy::path_list(v@).subrange(0, i as int),
        decreases v.len() - i,
    {
        let ghost prev = strs(out@);
        out.push(owned(v[i].as_str()));
        assert(strs(out@) =~= prev.push(v@[i as int]@));
        assert(crate::policy::path_list(v@).subrange(0, i as int + 1)
            =~= crate::policy::path_list(v@).subrange(0, i as int).push(v@[i as int]@));
        i = i + 1;
    }
    assert(crate::policy::path_list(v@).subrange(0, v.len() as int) =~= crate::policy::path_list(v@));
    out
}

fn append_deploy_surface(out: &mut String, ops: &PrOperationalContext, diagnostics: &Vec<Diagnostic>)
    ensures
        final(out)@ == old(out)@ + deploy_surface(*ops, models(diagnostics@)),
{
    let ghost start = out@;
    if ops.dns.len() == 0 && ops.cdn.len() == 0 && ops.provider_capabilities.len() == 0 {
        push_str(out, "- No declared DNS, CDN, or provider-capability surface found.\n");
    }
    let ghost head = out@;
    let mut i: usize = 0;
    while i < ops.dns.len()
        invariant
            i <= ops.dns.len(),
            out@ == head + dns_lines(ops.dns@.subrange(0, i as int)),
        decreases ops.dns.len() - i,
    {
        assert(ops.dns@.subrange(0, i as int + 1).drop_last() =~= ops.dns@.subrange(0, i as int));
        let d = &ops.dns[i];
        push_str(out, "- DNS `");
        push_str(out, d.record.as_str());
        push_str(out, "` via `");
        push_str(out, d.provider.as_str());
        push_str(out, "` target `");
        push_str(out, d.expected_target.as_str());
        push_str(out, "` proxied `");
        match d.expected_proxied {
            Some(true) => push_str(out, "true"),
            Some(false) => push_str(out, "false"),
            None => push_str(out, "unknown"),
        }
        push_str(out, "`\n");
        i = i + 1;
    }
    assert(ops.dns@.subrange(0, ops.dns.len() as int) =~= ops.dns@);
    let ghost after_dns = out@;
    let mut i: usize = 0;
    while i < ops.cdn.len()
        invariant
            i <= ops.cdn.len(),
            out@ == after_dns + cdn_lines(ops.cdn@.subrange(0, i as int)),
        decreases ops.cdn.len() - i,
    {
        assert(ops.cdn@.subrange(0, i as int + 1).drop_last() =~= ops.cdn@.subrange(0, i as int));
        let c = &ops.cdn[i];
        push_str(out, "- CDN `");
        push_str(out, c.provider.as_str());
        push_str(out, "` serves `");
        push_str(out, c.alias.as_str());
        push_str(out, "` with headers `");
        let headers = crate::policy::join_strings(&c.expected_response_headers, ", ");
        push_str(out, headers.as_str());
        push_str(out, "`\n");
        i = i + 1;
    }
    assert(ops.cdn@.subrange(0, ops.cdn.len() as int) =~= ops.cdn@);
    let ghost after_cdn = out@;
    let mut i: usize = 0;
    while i < ops.provider_capabilities.len()
        invariant
            i <= ops.provider_capabilities.len(),
            out@ == after_cdn + provider_lines(ops.provider_capabilities@.subrange(0, i as int)),
        decreases ops.provider_capabilities.len() - i,
    {
        assert(ops.provider_capabilities@.subrange(0, i as int + 1).drop_last()
            =~= ops.provider_capabilities@.subrange(0, i as int));
        let p = &ops.provider_capabilities[i];
        push_str(out, "- Provider `");
        push_str(out, p.package.as_str());
        push_str(out, "` `");
        push_str(out, p.version.as_str());
        push_str(out, "` in `");
        push_str(out, p.workspace.as_str());
        push_str(out, "`: `");
        push_str(out, p.status.as_str());
        push_str(out, "` `");
        push_str(out, p.field.as_str());
        push_str(out, "`\n");
        i = i + 1;
    }
    assert(ops.provider_capabilities@.subrange(0, ops.provider_capabilities.len() as int) =~= ops.provider_capabilities@);
    let ghost after_providers = out@;
    let mut i: usize = 0;
    while i < diagnostics.len()
        invariant
            i <= diagnostics.len(),
            out@ == after_providers + diagnostic_bullets(models(diagnostics@).subrange(0, i as int)),
        decreases diagnostics.len() - i,
    {
        assert(models(diagnostics@).subrange(0, i as int + 1).drop_last() =~= models(diagnostics@).subrange(0, i as int));
        let d = &diagnostics[i];
        push_str(out, "- `");
        push_str(out, d.code.as_str());
        push_str(out, "`: ");
        push_str(out, d.message.as_str());
        push_str(out, "\n");
        i = i + 1;
    }
    assert(models(diagnostics@).subrange(0, diagnostics.len() as int) =~= models(diagnostics@));
}

/// Renders the markdown of a pull request impact summary.
pub fn render_pr_summary(
    changed_files: &Vec<RepoRelativePath>,
    affected: &AffectedReport,
    diagnostics: &Vec<Diagnostic>,
    operations: &PrOperationalContext,
) -> (r: String)
    ensures
        r@ == pr_summary_markdown(crate::policy::path_list(changed_files@), *affected, models(diagnostics@), *operations),
{
    let mut markdown = owned("# PR Impact Summary\n\n");
    push_str(&mut markdown, "## Changed Files\n");
    append_code_bullets(&mut markdown, &path_strings(changed_files));
    push_str(&mut markdown, "\n## Affected Projects\n");
    let mut projects = crate::render::name_strings(&affected.directly_affected);
    let mut transitive = crate::render::name_strings(&affected.transitively_affected);
    let ghost direct_views = strs(projects@);
    let ghost transitive_views = strs(transitive@);
    projects.append(&mut transitive);
    assert(strs(projects@) =~= direct_views + transitive_views);
    append_code_bullets(&mut markdown, &projects);
    push_str(&mut markdown, "\n## Affected Tasks\n");
    append_code_bullets(&mut markdown, &affected.tasks);
    push_str(&mut markdown, "\n## Risk Flags\n");
    append_code_bullets(&mut markdown, &affected.risk_flags);
    push_str(&mut markdown, "\n## Deploy Surface\n");
    append_deploy_surface(&mut markdown, operations, diagnostics);
    push_str(&mut markdown, "\n## Suggested Approvers\n");
    append_code_bullets(&mut markdown, &crate::render::owner_strings(&affected.suggested_reviewers));
    push_str(&mut markdown, "\n## Suggested Commands\n");
    push_str(&mut markdown, "- `repoctl graph validate`\n");
    push_str(&mut markdown, "- `repoctl affected --tasks check,test,build`\n");
    push_str(&mut markdown, "- `repoctl run check --affected --dry-run`\n");
    push_str(&mut markdown, "- `repoctl ops plan --env staging --tasks check,test,build --format json`\n");
    push_str(&mut markdown, "- `repoctl ops verify --plan target/repoctl/ops-plan.json`\n");
    push_str(&mut markdown, "- `repoctl provider capabilities`\n");
    if operations.production_gaps.len() > 0 {
        push_str(&mut markdown, "\n## Unresolved Gaps\n");
        append_plain_bullets(&mut markdown, &operations.production_gaps);
    }
    markdown
}

} // verus!
