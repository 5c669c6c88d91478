//! Human-readable text of the command-line reports.
use vstd::prelude::*;

use crate::cli::{
    append_diagnostics, append_each_diagnostic, append_table, append_title, command_line, command_line_text,
    command_scope, diagnostics_section, diagnostics_text, row_views, scope_text, section_gap, table_text,
    title_text,
};
use crate::diagnostic::{DiagnosticModel, models};
use crate::requests::{
    AffectedReport, CodegenCheckReport, ExplainReport, FileOperation, HygieneReport, IacFacadeReport, InitPlan, ProcessCommand,
    ProtoFacadeReport, RenderPlan, TaskCommandOutput, TaskRunReport, TemplateListReport, CiWorkflowReport,
};
use crate::domain::{EdgeKind, GraphEdge, GraphNode};
use crate::text::{decimal, decimal_exec, owned, push_chars, push_str, strs};

verus! {

// ---------------------------------------------------------------------------
// Sections
// ---------------------------------------------------------------------------

/// `title (n)`.
pub open spec fn counted(title: Seq<char>, n: nat) -> Seq<char> {
    title + " ("@ + decimal(n) + ")"@
}

pub(crate) fn counted_exec(title: &str, n: usize) -> (r: String)
    ensures
        r@ == counted(title@, n as nat),
{
    let mut r = owned(title);
    push_str(&mut r, " (");
    push_chars(&mut r, &decimal_exec(n));
    push_str(&mut r, ")");
    r
}

/// Indented items, one per line.
pub open spec fn list_items_text(items: Seq<Seq<char>>) -> Seq<char>
    decreases items.len(),
{
    if items.len() == 0 {
        Seq::empty()
    } else {
        list_items_text(items.drop_last()) + "  "@ + items.last() + "\n"@
    }
}

/// A counted list after `out`: `(none)` when empty.
pub open spec fn list_section_text(out: Seq<char>, title: Seq<char>, items: Seq<Seq<char>>) -> Seq<char> {
    section_gap(out) + counted(title, items.len()) + "\n"@ + if items.len() == 0 {
        "  (none)\n"@
    } else {
        list_items_text(items)
    }
}

fn push_gap(output: &mut String)
    ensures
        final(output)@ == old(output)@ + section_gap(old(output)@),
{
    let cs = crate::text::chars_of(output.as_str());
    let nn = crate::text::chars_of("\n\n");
    proof {
        reveal_strlit("\n\n");
        reveal_strlit("\n");
    }
    if !crate::text::ends_with(&cs, &nn) {
        push_str(output, "\n");
    } else {
        assert(output@ =~= old(output)@ + Seq::<char>::empty());
    }
}

/// Appends a counted list of items.
pub fn append_list_section(output: &mut String, title: &str, items: &Vec<String>)
    ensures
        final(output)@ == old(output)@ + list_section_text(old(output)@, title@, strs(items@)),
{
    let ghost start = output@;
    push_gap(output);
    let heading = counted_exec(title, items.len());
    push_str(output, heading.as_str());
    push_str(output, "\n");
    if items.len() == 0 {
        push_str(output, "  (none)\n");
        assert(output@ =~= start + list_section_text(start, title@, strs(items@)));
        return;
    }
    let ghost head = output@;
    let mut i: usize = 0;
    assert(strs(items@).subrange(0, 0) =~= Seq::<Seq<char>>::empty());
    assert(output@ =~= head + list_items_text(strs(items@).subrange(0, 0)));
    while i < items.len()
        invariant
            i <= items.len(),
            output@ == head + list_items_text(strs(items@).subrange(0, i as int)),
        decreases items.len() - i,
    {
        push_str(output, "  ");
        push_str(output, items[i].as_str());
        push_str(output, "\n");
        assert(strs(items@).subrange(0, i as int + 1).drop_last() =~= strs(items@).subrange(0, i as int));
        i = i + 1;
        assert(output@ =~= head + list_items_text(strs(items@).subrange(0, i as int)));
    }
    assert(strs(items@).subrange(0, items.len() as int) =~= strs(items@));
    assert(output@ =~= start + list_section_text(start, title@, strs(items@)));
}

/// The first `n` items, numbered from one.
pub open spec fn numbered_items_text(items: Seq<Seq<char>>, n: nat) -> Seq<char>
    decreases n,
{
    if n == 0 {
        Seq::empty()
    } else {
        numbered_items_text(items, (n - 1) as nat) + "  "@ + decimal(n) + ". "@ + items[n - 1] + "\n"@
    }
}

/// A numbered list after `out`; nothing when empty.
pub open spec fn numbered_section_text(out: Seq<char>, title: Seq<char>, items: Seq<Seq<char>>) -> Seq<char> {
    if items.len() == 0 {
        Seq::empty()
    } else {
        section_gap(out) + title + "\n"@ + numbered_items_text(items, items.len())
    }
}

/// Appends a numbered list of items, when there are any.
pub fn append_numbered_section(output: &mut String, title: &str, items: &Vec<String>)
    ensures
        final(output)@ == old(output)@ + numbered_section_text(old(output)@, title@, strs(items@)),
{
    let ghost start = output@;
    if items.len() == 0 {
        assert(output@ =~= start + Seq::<char>::empty());
        return;
    }
    push_gap(output);
    push_str(output, title);
    push_str(output, "\n");
    let ghost head = output@;
    let mut i: usize = 0;
    assert(output@ =~= head + numbered_items_text(strs(items@), 0));
    while i < items.len()
        invariant
            i <= items.len(),
            output@ == head + numbered_items_text(strs(items@), i as nat),
        decreases items.len() - i,
    {
        push_str(output, "  ");
        push_chars(output, &decimal_exec(i + 1));
        push_str(output, ". ");
        push_str(output, items[i].as_str());
        push_str(output, "\n");
        i = i + 1;
        assert(output@ =~= head + numbered_items_text(strs(items@), i as nat));
    }
    assert(output@ =~= start + numbered_section_text(start, title@, strs(items@)));
}

/// Rows of file operations: operation and path.
pub open spec fn operation_rows(ops: Seq<FileOperation>) -> Seq<Seq<Seq<char>>> {
    ops.map_values(|o: FileOperation| seq![o.operation@, o.path@])
}

/// A counted table of file operations after `out`.
pub open spec fn operation_table_text(out: Seq<char>, title: Seq<char>, ops: Seq<FileOperation>) -> Seq<char> {
    table_text(out, counted(title, ops.len()), seq!["Operation"@, "Path"@], operation_rows(ops))
}

/// Appends a counted table of file operations.
pub fn append_operation_table(output: &mut String, title: &str, operations: &Vec<FileOperation>)
    ensures
        final(output)@ == old(output)@ + operation_table_text(old(output)@, title@, operations@),
{
    let heading = counted_exec(title, operations.len());
    let mut headers: Vec<String> = Vec::new();
    headers.push(owned("Operation"));
    headers.push(owned("Path"));
    proof {
        reveal_strlit("Operation");
        reveal_strlit("Path");
    }
    assert(strs(headers@) =~= seq!["Operation"@, "Path"@]);
    let mut rows: Vec<Vec<String>> = Vec::new();
    let mut i: usize = 0;
    while i < operations.len()
        invariant
            i <= operations.len(),
            rows@.len() == i,
            forall|k: int| 0 <= k < i ==> strs((#[trigger] rows@[k])@) == seq![operations@[k].operation@, operations@[k].path@],
        decreases operations.len() - i,
    {
        let mut row: Vec<String> = Vec::new();
        row.push(owned(operations[i].operation.as_str()));
        row.push(owned(operations[i].path.as_str()));
        assert(strs(row@) =~= seq![operations@[i as int].operation@, operations@[i as int].path@]);
        rows.push(row);
        i = i + 1;
    }
    assert(row_views(rows@) =~= operation_rows(operations@));
    append_table(output, heading.as_str(), &headers, &rows);
}

/// Optional views of a command's scope parts.
pub open spec fn command_scope_text(c: ProcessCommand) -> Seq<char> {
    scope_text(
        match c.project { Some(p) => Some(p@), None => None },
        match c.workspace { Some(w) => Some(w@), None => None },
        match c.task { Some(t) => Some(t@), None => None },
    )
}

/// Rows of commands: scope, directory and command line.
pub open spec fn command_rows(cs: Seq<ProcessCommand>) -> Seq<Seq<Seq<char>>> {
    cs.map_values(|c: ProcessCommand| seq![command_scope_text(c), c.cwd@, command_line_text(c.program@, strs(c.args@))])
}

/// A counted table of commands after `out`.
pub open spec fn command_table_text(out: Seq<char>, title: Seq<char>, cs: Seq<ProcessCommand>) -> Seq<char> {
    table_text(out, counted(title, cs.len()), seq!["Scope"@, "Directory"@, "Command"@], command_rows(cs))
}

/// Appends a counted table of commands.
pub fn append_command_table(output: &mut String, title: &str, commands: &Vec<ProcessCommand>)
    ensures
        final(output)@ == old(output)@ + command_table_text(old(output)@, title@, commands@),
{
    let heading = counted_exec(title, commands.len());
    let mut headers: Vec<String> = Vec::new();
    headers.push(owned("Scope"));
    headers.push(owned("Directory"));
    headers.push(owned("Command"));
    proof {
        reveal_strlit("Scope");
        reveal_strlit("Directory");
        reveal_strlit("Command");
    }
    assert(strs(headers@) =~= seq!["Scope"@, "Directory"@, "Command"@]);
    let mut rows: Vec<Vec<String>> = Vec::new();
    let mut i: usize = 0;
    while i < commands.len()
        invariant
            i <= commands.len(),
            rows@.len() == i,
            forall|k: int| 0 <= k < i ==> strs((#[trigger] rows@[k])@) == seq![
                command_scope_text(commands@[k]),
                commands@[k].cwd@,
                command_line_text(commands@[k].program@, strs(commands@[k].args@)),
            ],
        decreases commands.len() - i,
    {
        let c = &commands[i];
        let mut row: Vec<String> = Vec::new();
        row.push(command_scope(c));
        row.push(owned(c.cwd.as_str()));
        row.push(command_line(c));
        assert(strs(row@) =~= seq![command_scope_text(*c), c.cwd@, command_line_text(c.program@, strs(c.args@))]);
        rows.push(row);
        i = i + 1;
    }
    assert(row_views(rows@) =~= command_rows(commands@));
    append_table(output, heading.as_str(), &headers, &rows);
}


// ---------------------------------------------------------------------------
// Reports
// ---------------------------------------------------------------------------

/// Text of the repository initialization plan.
pub open spec fn init_plan_text(p: InitPlan) -> Seq<char> {
    let a = title_text("Repository initialization plan"@);
    let b = a + operation_table_text(a, "Files and directories"@, p.operations@);
    let c = b + diagnostics_section(b, models(p.warnings@));
    c + numbered_section_text(c, "Next steps"@, strs(p.next_steps@))
}

/// Renders the repository initialization plan.
pub fn render_init_plan(plan: &InitPlan) -> (r: String)
    ensures
        r@ == init_plan_text(*plan),
{
    let mut output = String::new();
    append_title(&mut output, "Repository initialization plan");
    append_operation_table(&mut output, "Files and directories", &plan.operations);
    append_diagnostics(&mut output, &plan.warnings);
    append_numbered_section(&mut output, "Next steps", &plan.next_steps);
    output
}

/// Text of a render plan.
pub open spec fn render_plan_text(p: RenderPlan) -> Seq<char> {
    let a = title_text("Planned changes"@);
    let b = a + operation_table_text(a, "Files and directories"@, p.operations@);
    b + diagnostics_section(b, models(p.diagnostics@))
}

/// Renders a render plan.
pub fn render_render_plan(plan: &RenderPlan) -> (r: String)
    ensures
        r@ == render_plan_text(*plan),
{
    let mut output = String::new();
    append_title(&mut output, "Planned changes");
    append_operation_table(&mut output, "Files and directories", &plan.operations);
    append_diagnostics(&mut output, &plan.diagnostics);
    output
}

/// Renders diagnostics one after another.
pub fn render_diagnostics(diagnostics: &Vec<crate::diagnostic::Diagnostic>) -> (r: String)
    ensures
        r@ == diagnostics_text(models(diagnostics@)),
{
    let mut output = String::new();
    append_each_diagnostic(&mut output, diagnostics);
    assert(output@ =~= diagnostics_text(models(diagnostics@)));
    output
}

/// Text of a validation report: the success message when it has no
/// diagnostics, else the diagnostics.
pub open spec fn validation_text(ds: Seq<DiagnosticModel>, success: Seq<char>) -> Seq<char> {
    if ds.len() == 0 {
        success + "\n"@
    } else {
        diagnostics_text(ds)
    }
}

/// Renders a validation report.
pub fn render_validation_report(report: &crate::diagnostic::ValidationReport, success_message: &str) -> (r: String)
    ensures
        r@ == validation_text(models(report.diagnostics@), success_message@),
{
    if report.diagnostics.len() == 0 {
        let mut out = owned(success_message);
        push_str(&mut out, "\n");
        out
    } else {
        render_diagnostics(&report.diagnostics)
    }
}

fn copy_diagnostics(v: &Vec<crate::diagnostic::Diagnostic>) -> (r: Vec<crate::diagnostic::Diagnostic>)
    ensures
        models(r@) == models(v@),
{
    let mut out: Vec<crate::diagnostic::Diagnostic> = Vec::new();
    let mut i: usize = 0;
    while i < v.len()
        invariant
            i <= v.len(),
            models(out@) == models(v@).subrange(0, i as int),
        decreases v.len() - i,
    {
        let ghost prev = models(out@);
        out.push(v[i].duplicate());
        assert(models(out@) =~= prev.push(v@[i as int]@));
        assert(models(v@).subrange(0, i as int + 1) =~= models(v@).subrange(0, i as int).push(v@[i as int]@));
        i = i + 1;
    }
    assert(models(v@).subrange(0, v.len() as int) =~= models(v@));
    out
}

/// Renders a generated-code check.
pub fn render_codegen_report(report: &CodegenCheckReport) -> (r: String)
    ensures
        r@ == validation_text(models(report.diagnostics@), "Generated-code check passed."@),
{
    let validation = crate::diagnostic::ValidationReport { diagnostics: copy_diagnostics(&report.diagnostics) };
    render_validation_report(&validation, "Generated-code check passed.")
}

/// Renders the template list.
pub fn render_template_list(report: &TemplateListReport) -> (r: String)
    ensures
        r@ == crate::cli::template_list_text(report.templates@, models(report.diagnostics@)),
{
    crate::cli::format_template_list_human(report)
}

/// Text of a hygiene report.
pub open spec fn hygiene_text(r: HygieneReport) -> Seq<char> {
    let a = title_text("Hygiene"@);
    let b = a + diagnostics_section(a, models(r.diagnostics@));
    let c = b + operation_table_text(b, "Cleanable operations"@, r.operations@);
    c + if r.diagnostics@.len() == 0 { "No generated artifact leakage found.\n"@ } else { Seq::empty() }
}

/// Renders a hygiene report.
pub fn render_hygiene_report(report: &HygieneReport) -> (r: String)
    ensures
        r@ == hygiene_text(*report),
{
    let mut output = String::new();
    append_title(&mut output, "Hygiene");
    append_diagnostics(&mut output, &report.diagnostics);
    append_operation_table(&mut output, "Cleanable operations", &report.operations);
    if report.diagnostics.len() == 0 {
        push_str(&mut output, "No generated artifact leakage found.\n");
    }
    output
}

/// Text of an infrastructure plan report.
pub open spec fn iac_text(r: IacFacadeReport) -> Seq<char> {
    let a = title_text("IaC plan"@);
    let b = a + command_table_text(a, "Commands"@, r.commands@);
    let c = b + list_section_text(b, "Risk flags"@, strs(r.risk_flags@));
    c + diagnostics_section(c, models(r.diagnostics@))
}

/// Renders an infrastructure plan report.
pub fn render_iac_report(report: &IacFacadeReport) -> (r: String)
    ensures
        r@ == iac_text(*report),
{
    let mut output = String::new();
    append_title(&mut output, "IaC plan");
    append_command_table(&mut output, "Commands", &report.commands);
    append_list_section(&mut output, "Risk flags", &report.risk_flags);
    append_diagnostics(&mut output, &report.diagnostics);
    output
}

pub(crate) fn name_strings(v: &Vec<crate::domain::ProjectName>) -> (r: Vec<String>)
    ensures
        strs(r@) == crate::affected::name_views(v@),
{
    let mut out: Vec<String> = Vec::new();
    let mut i: usize = 0;
    while i < v.len()
        invariant
            i <= v.len(),
            strs(out@) == crate::affected::name_views(v@).subrange(0, i as int),
        decreases v.len() - i,
    {
        let ghost prev = strs(out@);
        out.push(owned(v[i].as_str()));
        assert(strs(out@) =~= prev.push(v@[i as int]@));
        assert(crate::affected::name_views(v@).subrange(0, i as int + 1) =~= crate::affected::name_views(v@).subrange(0, i as int).push(v@[i as int]@));
        i = i + 1;
    }
    assert(crate::affected::name_views(v@).subrange(0, v.len() as int) =~= crate::affected::name_views(v@));
    out
}

pub(crate) fn owner_strings(v: &Vec<crate::domain::OwnerHandle>) -> (r: Vec<String>)
    ensures
        strs(r@) == crate::policy::owner_views(v@),
{
    let mut out: Vec<String> = Vec::new();
    let mut i: usize = 0;
    while i < v.len()
        invariant
            i <= v.len(),
            strs(out@) == crate::policy::owner_views(v@).subrange(0, i as int),
        decreases v.len() - i,
    {
        let ghost prev = strs(out@);
        out.push(owned(v[i].as_str()));
        assert(strs(out@) =~= prev.push(v@[i as int]@));
        assert(crate::policy::owner_views(v@).subrange(0, i as int + 1) =~= crate::policy::owner_views(v@).subrange(0, i as int).push(v@[i as int]@));
        i = i + 1;
    }
    assert(crate::policy::owner_views(v@).subrange(0, v.len() as int) =~= crate::policy::owner_views(v@));
    out
}

/// Text of a proto report.
pub open spec fn proto_text(r: ProtoFacadeReport) -> Seq<char> {
    let a = title_text("Proto report"@);
    let b = a + list_section_text(a, "Owners"@, crate::affected::name_views(r.owners@));
    let c = b + list_section_text(b, "Consumers"@, crate::affected::name_views(r.consumers@));
    let d = c + command_table_text(c, "Commands"@, r.commands@);
    d + diagnostics_section(d, models(r.diagnostics@))
}

/// Renders a proto report.
pub fn render_proto_report(report: &ProtoFacadeReport) -> (r: String)
    ensures
        r@ == proto_text(*report),
{
    let mut output = String::new();
    append_title(&mut output, "Proto report");
    append_list_section(&mut output, "Owners", &name_strings(&report.owners));
    append_list_section(&mut output, "Consumers", &name_strings(&report.consumers));
    append_command_table(&mut output, "Commands", &report.commands);
    append_diagnostics(&mut output, &report.diagnostics);
    output
}

/// Rows of explanations: source, target, reason.
pub open spec fn reason_rows(rs: Seq<crate::requests::AffectedReason>) -> Seq<Seq<Seq<char>>> {
    rs.map_values(|r: crate::requests::AffectedReason| seq![r.source@, r.target@, r.reason@])
}

/// Text of an affected report.
pub open spec fn affected_text(r: AffectedReport) -> Seq<char> {
    let a = title_text("Affected summary"@);
    let b = a + list_section_text(a, "Direct projects"@, crate::affected::name_views(r.directly_affected@));
    let c = b + list_section_text(b, "Transitive projects"@, crate::affected::name_views(r.transitively_affected@));
    let d = c + list_section_text(c, "Workspaces"@, strs(r.workspaces@));
    let e = d + list_section_text(d, "Tasks"@, strs(r.tasks@));
    let f = e + list_section_text(e, "Risk flags"@, strs(r.risk_flags@));
    let g = f + list_section_text(f, "Suggested approvers"@, crate::policy::owner_views(r.suggested_reviewers@));
    let h = g + table_text(g, counted("Reasons"@, r.reasons@.len()), seq!["Source"@, "Target"@, "Reason"@], reason_rows(r.reasons@));
    h + diagnostics_section(h, models(r.diagnostics@))
}

/// Renders an affected report.
pub fn render_affected(report: &AffectedReport) -> (r: String)
    ensures
        r@ == affected_text(*report),
{
    let mut output = String::new();
    append_title(&mut output, "Affected summary");
    append_list_section(&mut output, "Direct projects", &name_strings(&report.directly_affected));
    append_list_section(&mut output, "Transitive projects", &name_strings(&report.transitively_affected));
    append_list_section(&mut output, "Workspaces", &report.workspaces);
    append_list_section(&mut output, "Tasks", &report.tasks);
    append_list_section(&mut output, "Risk flags", &report.risk_flags);
    append_list_section(&mut output, "Suggested approvers", &owner_strings(&report.suggested_reviewers));
    let heading = counted_exec("Reasons", report.reasons.len());
    let mut headers: Vec<String> = Vec::new();
    headers.push(owned("Source"));
    headers.push(owned("Target"));
    headers.push(owned("Reason"));
    proof {
        reveal_strlit("Source");
        reveal_strlit("Target");
        reveal_strlit("Reason");
    }
    assert(strs(headers@) =~= seq!["Source"@, "Target"@, "Reason"@]);
    let mut rows: Vec<Vec<String>> = Vec::new();
    let mut i: usize = 0;
    while i < report.reasons.len()
        invariant
            i <= report.reasons.len(),
            rows@.len() == i,
            forall|k: int| 0 <= k < i ==> strs((#[trigger] rows@[k])@) == seq![
                report.reasons@[k].source@,
                report.reasons@[k].target@,
                report.reasons@[k].reason@,
            ],
        decreases report.reasons.len() - i,
    {
        let reason = &report.reasons[i];
        let mut row: Vec<String> = Vec::new();
        row.push(owned(reason.source.as_str()));
        row.push(owned(reason.target.as_str()));
        row.push(owned(reason.reason.as_str()));
        assert(strs(row@) =~= seq![reason.source@, reason.target@, reason.reason@]);
        rows.push(row);
        i = i + 1;
    }
    assert(row_views(rows@) =~= reason_rows(report.reasons@));
    append_table(&mut output, heading.as_str(), &headers, &rows);
    append_diagnostics(&mut output, &report.diagnostics);
    output
}

/// Name of an edge kind as `Debug` writes it.
pub open spec fn edge_kind_name(kind: EdgeKind) -> Seq<char> {
    match kind {
        EdgeKind::DependsOnProject => "DependsOnProject"@,
        EdgeKind::ContainsWorkspace => "ContainsWorkspace"@,
        EdgeKind::ConsumesProto => "ConsumesProto"@,
        EdgeKind::OwnsProto => "OwnsProto"@,
        EdgeKind::UsesFrameworkFacade => "UsesFrameworkFacade"@,
        EdgeKind::UsesFrameworkInternal => "UsesFrameworkInternal"@,
        EdgeKind::UsesFoundationClient => "UsesFoundationClient"@,
        EdgeKind::UsesFoundationInternal => "UsesFoundationInternal"@,
        EdgeKind::UsesCoreInfraModule => "UsesCoreInfraModule"@,
        EdgeKind::UsesCoreInfraInternalModule => "UsesCoreInfraInternalModule"@,
        EdgeKind::OwnsIac => "OwnsIac"@,
        EdgeKind::RunsTask => "RunsTask"@,
    }
}

/// Name of an edge kind as `Debug` writes it.
pub fn edge_kind_debug(kind: EdgeKind) -> (s: &'static str)
    ensures
        s@ == edge_kind_name(kind),
{
    match kind {
        EdgeKind::DependsOnProject => "DependsOnProject",
        EdgeKind::ContainsWorkspace => "ContainsWorkspace",
        EdgeKind::ConsumesProto => "ConsumesProto",
        EdgeKind::OwnsProto => "OwnsProto",
        EdgeKind::UsesFrameworkFacade => "UsesFrameworkFacade",
        EdgeKind::UsesFrameworkInternal => "UsesFrameworkInternal",
        EdgeKind::UsesFoundationClient => "UsesFoundationClient",
        EdgeKind::UsesFoundationInternal => "UsesFoundationInternal",
        EdgeKind::UsesCoreInfraModule => "UsesCoreInfraModule",
        EdgeKind::UsesCoreInfraInternalModule => "UsesCoreInfraInternalModule",
        EdgeKind::OwnsIac => "OwnsIac",
        EdgeKind::RunsTask => "RunsTask",
    }
}

/// Rows of nodes: id and label.
pub open spec fn node_rows(ns: Seq<GraphNode>) -> Seq<Seq<Seq<char>>> {
    ns.map_values(|n: GraphNode| seq![n.id@, n.label@])
}

/// Rows of edges: source, target and kind.
pub open spec fn edge_rows(es: Seq<GraphEdge>) -> Seq<Seq<Seq<char>>> {
    es.map_values(|e: GraphEdge| seq![e.from@, e.to@, edge_kind_name(e.kind)])
}

/// Text of an explanation: its diagnostics when it has any, else the
/// selector with tables of the matching nodes and their edges.
pub open spec fn explain_text(r: ExplainReport) -> Seq<char> {
    if r.diagnostics@.len() > 0 {
        diagnostics_text(models(r.diagnostics@))
    } else {
        let a = "Explanation for `"@ + r.selector@ + "`\n"@ + "\n"@;
        let b = a + table_text(a, counted("Nodes"@, r.nodes@.len()), seq!["Id"@, "Label"@], node_rows(r.nodes@));
        b + table_text(b, counted("Edges"@, r.edges@.len()), seq!["From"@, "To"@, "Kind"@], edge_rows(r.edges@))
    }
}

/// Renders an explanation.
pub fn render_explain(report: &ExplainReport) -> (r: String)
    ensures
        r@ == explain_text(*report),
{
    if report.diagnostics.len() > 0 {
        return render_diagnostics(&report.diagnostics);
    }
    let mut output = owned("Explanation for `");
    push_str(&mut output, report.selector.as_str());
    push_str(&mut output, "`\n");
    push_str(&mut output, "\n");
    node_table(&mut output, &report.nodes);
    edge_table(&mut output, &report.edges);
    output
}

// ---------------------------------------------------------------------------
// Task reports
// ---------------------------------------------------------------------------

/// Decimal text of an integer, with `-` before a negative one.
pub open spec fn int_text(i: int) -> Seq<char> {
    if i < 0 {
        "-"@ + decimal((-i) as nat)
    } else {
        decimal(i as nat)
    }
}

pub(crate) fn int_text_exec(i: i32) -> (r: String)
    ensures
        r@ == int_text(i as int),
{
    let mut r = String::new();
    if i < 0 {
        push_str(&mut r, "-");
        let m: i64 = -(i as i64);
        push_chars(&mut r, &decimal_exec(m as usize));
    } else {
        push_chars(&mut r, &decimal_exec(i as usize));
    }
    r
}

/// Rows of command results: project, workspace, task and exit status.
pub open spec fn output_rows(os: Seq<TaskCommandOutput>) -> Seq<Seq<Seq<char>>> {
    os.map_values(|o: TaskCommandOutput| seq![o.project@, o.workspace@, o.task@, int_text(o.output.status as int)])
}

/// Results whose command failed.
pub open spec fn failed() -> spec_fn(TaskCommandOutput) -> bool {
    |o: TaskCommandOutput| o.output.status != 0
}

/// Lines of a stream, indented, at most the first twenty.
pub open spec fn snippet_lines(ls: Seq<Seq<char>>) -> Seq<char>
    decreases ls.len(),
{
    if ls.len() == 0 {
        Seq::empty()
    } else {
        snippet_lines(ls.drop_last()) + "    "@ + ls.last() + "\n"@
    }
}

/// The first twenty lines, or all when there are fewer.
pub open spec fn first_lines(ls: Seq<Seq<char>>) -> Seq<Seq<char>> {
    if ls.len() <= 20 {
        ls
    } else {
        ls.subrange(0, 20)
    }
}

/// A labelled stream: nothing when it holds only whitespace.
pub open spec fn stream_text(label: Seq<char>, value: Seq<char>) -> Seq<char> {
    if crate::text::trim(value).len() == 0 {
        Seq::empty()
    } else {
        "  "@ + label + ":\n"@ + snippet_lines(first_lines(crate::affected::text_lines(value)))
    }
}

/// One failed command's scope and streams.
pub open spec fn failure_text(o: TaskCommandOutput) -> Seq<char> {
    o.project@ + ":"@ + o.workspace@ + ":"@ + o.task@ + "\n"@
        + stream_text("stdout"@, o.output.stdout@) + stream_text("stderr"@, o.output.stderr@)
}

/// Each failed command's scope and streams.
pub open spec fn failures_text(fs: Seq<TaskCommandOutput>) -> Seq<char>
    decreases fs.len(),
{
    if fs.len() == 0 {
        Seq::empty()
    } else {
        failures_text(fs.drop_last()) + failure_text(fs.last())
    }
}

fn append_failure(output: &mut String, o: &TaskCommandOutput)
    ensures
        final(output)@ == old(output)@ + failure_text(*o),
{
    let ghost start = output@;
    push_str(output, o.project.as_str());
    push_str(output, ":");
    push_str(output, o.workspace.as_str());
    push_str(output, ":");
    push_str(output, o.task.as_str());
    push_str(output, "\n");
    proof {
        reveal_strlit("stdout");
        reveal_strlit("stderr");
    }
    append_stream_snippet(output, "stdout", o.output.stdout.as_str());
    append_stream_snippet(output, "stderr", o.output.stderr.as_str());
    assert(output@ =~= start + failure_text(*o));
}

/// The output of failed commands after `out`; nothing when none failed.
pub open spec fn failed_output_text(out: Seq<char>, os: Seq<TaskCommandOutput>) -> Seq<char> {
    let fs = os.filter(failed());
    if fs.len() == 0 {
        Seq::empty()
    } else {
        section_gap(out) + counted("Failure output"@, fs.len()) + "\n"@ + failures_text(fs)
    }
}

fn lines_of(s: &str) -> (r: Vec<String>)
    ensures
        strs(r@) == crate::affected::text_lines(s@),
{
    let parts = crate::text::split_exec(&crate::text::chars_of(s), '\n');
    let ghost ps = crate::text::split_on(s@, '\n');
    proof {
        crate::text::lemma_split_acc_len(s@, '\n');
    }
    let mut lines: Vec<String> = Vec::new();
    let mut i: usize = 0;
    while i + 1 < parts.len()
        invariant
            i + 1 <= parts.len(),
            crate::text::pieces(parts@) == ps,
            strs(lines@) == ps.drop_last().subrange(0, i as int).map_values(|p: Seq<char>| crate::affected::strip_cr(p)),
        decreases parts.len() - i,
    {
        let ghost prev = strs(lines@);
        let p = &parts[i];
        let line = if p.len() > 0 && p[p.len() - 1] == '\r' {
            crate::text::slice_chars(p, 0, p.len() - 1)
        } else {
            crate::text::slice_chars(p, 0, p.len())
        };
        assert(line@ == crate::affected::strip_cr(ps[i as int]));
        lines.push(crate::text::string_of(&line));
        assert(strs(lines@) =~= prev.push(crate::affected::strip_cr(ps[i as int])));
        assert(ps.drop_last().subrange(0, i as int + 1).map_values(|p: Seq<char>| crate::affected::strip_cr(p))
            =~= ps.drop_last().subrange(0, i as int).map_values(|p: Seq<char>| crate::affected::strip_cr(p)).push(crate::affected::strip_cr(ps[i as int])));
        i = i + 1;
    }
    assert(ps.drop_last().subrange(0, ps.len() - 1) =~= ps.drop_last());
    let last = &parts[parts.len() - 1];
    assert(last@ == ps.last());
    if last.len() > 0 {
        let ghost prev = strs(lines@);
        lines.push(crate::text::string_of(last));
        assert(strs(lines@) =~= prev.push(ps.last()));
    }
    lines
}

/// Appends a labelled stream, its first twenty lines indented.
pub fn append_stream_snippet(output: &mut String, label: &str, value: &str)
    ensures
        final(output)@ == old(output)@ + stream_text(label@, value@),
{
    if crate::text::trim_exec(&crate::text::chars_of(value)).len() == 0 {
        assert(output@ =~= old(output)@ + Seq::<char>::empty());
        return;
    }
    let ghost start = output@;
    push_str(output, "  ");
    push_str(output, label);
    push_str(output, ":\n");
    let lines = lines_of(value);
    let ghost ls = first_lines(strs(lines@));
    let n: usize = if lines.len() <= 20 { lines.len() } else { 20 };
    let ghost head = output@;
    let mut i: usize = 0;
    assert(ls.subrange(0, 0) =~= Seq::<Seq<char>>::empty());
    assert(output@ =~= head + snippet_lines(ls.subrange(0, 0)));
    while i < n
        invariant
            i <= n,
            n == ls.len(),
            n <= lines.len(),
            ls == first_lines(strs(lines@)),
            output@ == head + snippet_lines(ls.subrange(0, i as int)),
        decreases n - i,
    {
        assert(ls[i as int] == lines@[i as int]@);
        push_str(output, "    ");
        push_str(output, lines[i].as_str());
        push_str(output, "\n");
        assert(ls.subrange(0, i as int + 1).drop_last() =~= ls.subrange(0, i as int));
        i = i + 1;
        assert(output@ =~= head + snippet_lines(ls.subrange(0, i as int)));
    }
    assert(ls.subrange(0, n as int) =~= ls);
}

/// Appends the output of the failed commands of a task report.
pub fn append_failed_output(output: &mut String, report: &TaskRunReport)
    ensures
        final(output)@ == old(output)@ + failed_output_text(old(output)@, report.outputs@),
{
    let ghost os = report.outputs@;
    let ghost keep = failed();
    let mut count: usize = 0;
    let mut i: usize = 0;
    assert(os.subrange(0, 0).filter(keep) =~= Seq::<TaskCommandOutput>::empty()) by {
        assert(os.subrange(0, 0) =~= Seq::<TaskCommandOutput>::empty());
        Seq::<TaskCommandOutput>::empty().lemma_filter_eq_filter_alt(keep);
    }
    while i < report.outputs.len()
        invariant
            i <= report.outputs.len(),
            os == report.outputs@,
            keep == failed(),
            count == os.subrange(0, i as int).filter(keep).len(),
            count <= i,
        decreases report.outputs.len() - i,
    {
        proof {
            assert(os.subrange(0, i as int + 1) =~= os.subrange(0, i as int).push(os[i as int]));
            os.subrange(0, i as int).lemma_filter_push(os[i as int], keep);
        }
        if report.outputs[i].output.status != 0 {
            count = count + 1;
        }
        i = i + 1;
    }
    assert(os.subrange(0, os.len() as int) =~= os);
    if count == 0 {
        assert(output@ =~= old(output)@ + Seq::<char>::empty());
        return;
    }
    let ghost start = output@;
    push_gap(output);
    let heading = counted_exec("Failure output", count);
    push_str(output, heading.as_str());
    push_str(output, "\n");
    let ghost head = output@;
    let mut i: usize = 0;
    assert(os.subrange(0, 0).filter(keep) =~= Seq::<TaskCommandOutput>::empty()) by {
        assert(os.subrange(0, 0) =~= Seq::<TaskCommandOutput>::empty());
        Seq::<TaskCommandOutput>::empty().lemma_filter_eq_filter_alt(keep);
    }
    assert(output@ =~= head + failures_text(os.subrange(0, 0).filter(keep)));
    while i < report.outputs.len()
        invariant
            i <= report.outputs.len(),
            os == report.outputs@,
            keep == failed(),
            output@ == head + failures_text(os.subrange(0, i as int).filter(keep)),
        decreases report.outputs.len() - i,
    {
        let ghost before = os.subrange(0, i as int).filter(keep);
        proof {
            assert(os.subrange(0, i as int + 1) =~= os.subrange(0, i as int).push(os[i as int]));
            os.subrange(0, i as int).lemma_filter_push(os[i as int], keep);
        }
        let o = &report.outputs[i];
        if o.output.status != 0 {
            let ghost prev = output@;
            append_failure(output, o);
            assert(before.push(*o).drop_last() =~= before);
            assert(failures_text(before.push(*o)) == failures_text(before) + failure_text(*o));
            assert(output@ =~= head + failures_text(before.push(*o)));
        }
        i = i + 1;
    }
    assert(output@ =~= start + failed_output_text(start, os));
}

/// Text of a task report.
pub open spec fn task_report_text(r: TaskRunReport) -> Seq<char> {
    let a = title_text("Task report"@);
    let b = a + command_table_text(a, "Planned commands"@, r.commands@);
    let c = b + table_text(
        b,
        counted("Results"@, r.outputs@.len()),
        seq!["Project"@, "Workspace"@, "Task"@, "Status"@],
        output_rows(r.outputs@),
    );
    let d = c + failed_output_text(c, r.outputs@);
    d + diagnostics_section(d, models(r.diagnostics@))
}

/// Renders a task report.
pub fn render_task_report(report: &TaskRunReport) -> (r: String)
    ensures
        r@ == task_report_text(*report),
{
    let mut output = String::new();
    append_title(&mut output, "Task report");
    append_command_table(&mut output, "Planned commands", &report.commands);
    let heading = counted_exec("Results", report.outputs.len());
    let mut headers: Vec<String> = Vec::new();
    headers.push(owned("Project"));
    headers.push(owned("Workspace"));
    headers.push(owned("Task"));
    headers.push(owned("Status"));
    proof {
        reveal_strlit("Project");
        reveal_strlit("Workspace");
        reveal_strlit("Task");
        reveal_strlit("Status");
    }
    assert(strs(headers@) =~= seq!["Project"@, "Workspace"@, "Task"@, "Status"@]);
    let mut rows: Vec<Vec<String>> = Vec::new();
    let mut i: usize = 0;
    while i < report.outputs.len()
        invariant
            i <= report.outputs.len(),
            rows@.len() == i,
            forall|k: int| 0 <= k < i ==> strs((#[trigger] rows@[k])@) == seq![
                report.outputs@[k].project@,
                report.outputs@[k].workspace@,
                report.outputs@[k].task@,
                int_text(report.outputs@[k].output.status as int),
            ],
        decreases report.outputs.len() - i,
    {
        let o = &report.outputs[i];
        let mut row: Vec<String> = Vec::new();
        row.push(owned(o.project.as_str()));
        row.push(owned(o.workspace.as_str()));
        row.push(owned(o.task.as_str()));
        row.push(int_text_exec(o.output.status));
        assert(strs(row@) =~= seq![o.project@, o.workspace@, o.task@, int_text(o.output.status as int)]);
        rows.push(row);
        i = i + 1;
    }
    assert(row_views(rows@) =~= output_rows(report.outputs@));
    append_table(&mut output, heading.as_str(), &headers, &rows);
    append_failed_output(&mut output, report);
    append_diagnostics(&mut output, &report.diagnostics);
    output
}

// ---------------------------------------------------------------------------
// CI workflow
// ---------------------------------------------------------------------------

/// Some operation plans to write a file.
pub open spec fn plans_a_file(ops: Seq<FileOperation>) -> bool {
    exists|k: int| 0 <= k < ops.len() && (#[trigger] ops[k]).operation@ == "plan-file"@
}

/// Text of a CI workflow report.
pub open spec fn ci_workflow_text(r: CiWorkflowReport) -> Seq<char> {
    let a = title_text("CI workflow"@);
    let b = a + "Path: "@ + r.path@ + "\n"@ + "Bytes: "@ + decimal(crate::cli::ulen(r.content@)) + "\n"@;
    let c = b + operation_table_text(b, "Operations"@, r.operations@);
    let d = c + diagnostics_section(c, models(r.diagnostics@));
    d + if plans_a_file(r.operations@) {
        "\nWrite it with:\n  repoctl ci workflow --provider github-actions --write\n"@
    } else {
        Seq::empty()
    }
}

/// Renders a CI workflow report.
pub fn render_ci_workflow(report: &CiWorkflowReport) -> (r: String)
    ensures
        r@ == ci_workflow_text(*report),
{
    let mut output = String::new();
    append_title(&mut output, "CI workflow");
    push_str(&mut output, "Path: ");
    push_str(&mut output, report.path.as_str());
    push_str(&mut output, "\n");
    push_str(&mut output, "Bytes: ");
    let n = report.content.as_str().len();
    push_chars(&mut output, &decimal_exec(n));
    push_str(&mut output, "\n");
    append_operation_table(&mut output, "Operations", &report.operations);
    append_diagnostics(&mut output, &report.diagnostics);
    let mut planned = false;
    let mut i: usize = 0;
    proof {
        reveal_strlit("plan-file");
    }
    while i < report.operations.len()
        invariant
            i <= report.operations.len(),
            planned == exists|k: int| 0 <= k < i && (#[trigger] report.operations@[k]).operation@ == "plan-file"@,
        decreases report.operations.len() - i,
    {
        if crate::text::str_eq(report.operations[i].operation.as_str(), "plan-file") {
            planned = true;
        }
        i = i + 1;
    }
    if planned {
        push_str(&mut output, "\nWrite it with:\n  repoctl ci workflow --provider github-actions --write\n");
    }
    output
}


// ---------------------------------------------------------------------------
// Graph and CI matrix
// ---------------------------------------------------------------------------

fn node_table(output: &mut String, nodes: &Vec<GraphNode>)
    ensures
        final(output)@ == old(output)@ + table_text(old(output)@, counted("Nodes"@, nodes@.len()), seq!["Id"@, "Label"@], node_rows(nodes@)),
{
    proof {
        reveal_strlit("Id");
        reveal_strlit("Label");
    }
    let heading = counted_exec("Nodes", nodes.len());
    let mut headers: Vec<String> = Vec::new();
    headers.push(owned("Id"));
    headers.push(owned("Label"));
    assert(strs(headers@) =~= seq!["Id"@, "Label"@]);
    let mut rows: Vec<Vec<String>> = Vec::new();
    let mut i: usize = 0;
    while i < nodes.len()
        invariant
            i <= nodes.len(),
            rows@.len() == i,
            forall|k: int| 0 <= k < i ==> strs((#[trigger] rows@[k])@) == seq![nodes@[k].id@, nodes@[k].label@],
        decreases nodes.len() - i,
    {
        let mut row: Vec<String> = Vec::new();
        row.push(owned(nodes[i].id.as_str()));
        row.push(owned(nodes[i].label.as_str()));
        assert(strs(row@) =~= seq![nodes@[i as int].id@, nodes@[i as int].label@]);
        rows.push(row);
        i = i + 1;
    }
    assert(row_views(rows@) =~= node_rows(nodes@));
    append_table(output, heading.as_str(), &headers, &rows);
}

fn edge_table(output: &mut String, edges: &Vec<GraphEdge>)
    ensures
        final(output)@ == old(output)@ + table_text(old(output)@, counted("Edges"@, edges@.len()), seq!["From"@, "To"@, "Kind"@], edge_rows(edges@)),
{
    proof {
        reveal_strlit("From");
        reveal_strlit("To");
        reveal_strlit("Kind");
    }
    let heading = counted_exec("Edges", edges.len());
    let mut headers: Vec<String> = Vec::new();
    headers.push(owned("From"));
    headers.push(owned("To"));
    headers.push(owned("Kind"));
    assert(strs(headers@) =~= seq!["From"@, "To"@, "Kind"@]);
    let mut rows: Vec<Vec<String>> = Vec::new();
    let mut i: usize = 0;
    while i < edges.len()
        invariant
            i <= edges.len(),
            rows@.len() == i,
            forall|k: int| 0 <= k < i ==> strs((#[trigger] rows@[k])@) == seq![edges@[k].from@, edges@[k].to@, edge_kind_name(edges@[k].kind)],
        decreases edges.len() - i,
    {
        let e = &edges[i];
        let mut row: Vec<String> = Vec::new();
        row.push(owned(e.from.as_str()));
        row.push(owned(e.to.as_str()));
        row.push(owned(edge_kind_debug(e.kind)));
        assert(strs(row@) =~= seq![e.from@, e.to@, edge_kind_name(e.kind)]);
        rows.push(row);
        i = i + 1;
    }
    assert(row_views(rows@) =~= edge_rows(edges@));
    append_table(output, heading.as_str(), &headers, &rows);
}

/// Text of the repository graph.
pub open spec fn graph_print_text(r: crate::requests::GraphPrintReport) -> Seq<char> {
    let a = title_text("Repository graph"@);
    let b = a + table_text(a, counted("Nodes"@, r.snapshot.graph.nodes@.len()), seq!["Id"@, "Label"@], node_rows(r.snapshot.graph.nodes@));
    b + table_text(b, counted("Edges"@, r.snapshot.graph.edges@.len()), seq!["From"@, "To"@, "Kind"@], edge_rows(r.snapshot.graph.edges@))
}

/// Renders the repository graph.
pub fn render_graph_print(report: &crate::requests::GraphPrintReport) -> (r: String)
    ensures
        r@ == graph_print_text(*report),
{
    let mut output = String::new();
    append_title(&mut output, "Repository graph");
    node_table(&mut output, &report.snapshot.graph.nodes);
    edge_table(&mut output, &report.snapshot.graph.edges);
    output
}

/// Rows of CI matrix entries: project, workspace and task.
pub open spec fn entry_rows(es: Seq<(String, String, String)>) -> Seq<Seq<Seq<char>>> {
    es.map_values(|e: (String, String, String)| seq![e.0@, e.1@, e.2@])
}

/// Text of a CI matrix, given each entry's project, workspace and task.
pub open spec fn ci_matrix_text(es: Seq<(String, String, String)>) -> Seq<char> {
    let a = title_text("CI matrix"@);
    a + table_text(a, counted("Entries"@, es.len()), seq!["Project"@, "Workspace"@, "Task"@], entry_rows(es))
}

/// Renders a CI matrix from each entry's project, workspace and task.
pub fn render_ci_matrix(entries: &Vec<(String, String, String)>) -> (r: String)
    ensures
        r@ == ci_matrix_text(entries@),
{
    let mut output = String::new();
    append_title(&mut output, "CI matrix");
    proof {
        reveal_strlit("Project");
        reveal_strlit("Workspace");
        reveal_strlit("Task");
    }
    let heading = counted_exec("Entries", entries.len());
    let mut headers: Vec<String> = Vec::new();
    headers.push(owned("Project"));
    headers.push(owned("Workspace"));
    headers.push(owned("Task"));
    assert(strs(headers@) =~= seq!["Project"@, "Workspace"@, "Task"@]);
    let mut rows: Vec<Vec<String>> = Vec::new();
    let mut i: usize = 0;
    while i < entries.len()
        invariant
            i <= entries.len(),
            rows@.len() == i,
            forall|k: int| 0 <= k < i ==> strs((#[trigger] rows@[k])@) == seq![entries@[k].0@, entries@[k].1@, entries@[k].2@],
        decreases entries.len() - i,
    {
        let e = &entries[i];
        let mut row: Vec<String> = Vec::new();
        row.push(owned(e.0.as_str()));
        row.push(owned(e.1.as_str()));
        row.push(owned(e.2.as_str()));
        assert(strs(row@) =~= seq![e.0@, e.1@, e.2@]);
        rows.push(row);
        i = i + 1;
    }
    assert(row_views(rows@) =~= entry_rows(entries@));
    append_table(&mut output, heading.as_str(), &headers, &rows);
    output
}

} // verus!
