//! The adoption plan and its human-readable text.
use vstd::prelude::*;

use crate::adoption::{AdoptedSource, confidence_text};
use crate::cli::{append_diagnostics, append_table, append_title, diagnostics_section, kind_label, row_views, table_text, title_text};
use crate::diagnostic::{Diagnostic, models};
use crate::domain::RepoRelativePath;
use crate::render::{append_command_table, append_operation_table, command_table_text, operation_table_text};
use crate::requests::{DependencyRewrite, FileOperation, ProjectManifestSynthesis, VerificationPlan};
use crate::text::{decimal, decimal_exec, join_with, owned, push_chars, push_str, strs};

verus! {

/// One file operation of an adoption.
#[derive(Clone, Debug)]
pub struct AdoptionFileOperation {
    /// Operation id.
    pub id: String,
    /// Operation kind.
    pub operation: String,
    /// Source file path, when the operation copies one.
    pub source_path: Option<String>,
    /// Destination path relative to the destination repo root.
    pub destination_path: RepoRelativePath,
    /// Replacement content, when the operation writes text.
    pub content: Option<String>,
    /// File checksum, when known.
    pub checksum: Option<String>,
}

/// Adoption plan.
#[derive(Clone, Debug)]
pub struct AdoptionPlan {
    /// Source root.
    pub source_root: String,
    /// Destination repo root.
    pub dest_root: String,
    /// Source repository decisions.
    pub sources: Vec<AdoptedSource>,
    /// Copy operations.
    pub operations: Vec<AdoptionFileOperation>,
    /// Dependency rewrite operations.
    pub dependency_rewrites: Vec<DependencyRewrite>,
    /// Synthesized manifests.
    pub manifest_syntheses: Vec<ProjectManifestSynthesis>,
    /// CI file operations.
    pub ci_operations: Vec<FileOperation>,
    /// Verification plan.
    pub verification: VerificationPlan,
    /// Diagnostics.
    pub diagnostics: Vec<Diagnostic>,
}

/// How many sources are not skipped.
pub open spec fn selected_count(sources: Seq<AdoptedSource>) -> nat
    decreases sources.len(),
{
    if sources.len() == 0 {
        0
    } else {
        selected_count(sources.drop_last()) + if sources.last().skipped { 0nat } else { 1nat }
    }
}

/// The placement row of a source.
pub open spec fn placement_row(s: AdoptedSource) -> Seq<Seq<char>> {
    seq![
        s.name@,
        if s.skipped { "skipped"@ } else { s.destination_path@ },
        kind_label(s.inferred_kind),
        confidence_text(s.confidence_percent as nat),
        if s.override_applied { "override"@ } else { join_with(strs(s.reasons@), "; "@) },
    ]
}

/// The placement rows, one per source.
pub open spec fn placement_rows(sources: Seq<AdoptedSource>) -> Seq<Seq<Seq<char>>> {
    sources.map_values(|s: AdoptedSource| placement_row(s))
}

/// The rewrite rows: file, package and new value.
pub open spec fn rewrite_rows(rs: Seq<DependencyRewrite>) -> Seq<Seq<Seq<char>>> {
    rs.map_values(|r: DependencyRewrite| seq![r.file@, r.package@, r.to@])
}

/// The copy rows: operation and destination.
pub open spec fn copy_rows(ops: Seq<AdoptionFileOperation>) -> Seq<Seq<Seq<char>>> {
    ops.map_values(|o: AdoptionFileOperation| seq![o.operation@, o.destination_path@])
}

/// The prerequisite rows: tool and reason.
pub open spec fn prerequisite_rows(plan: AdoptionPlan) -> Seq<Seq<Seq<char>>> {
    plan.verification.prerequisites@.map_values(|t: crate::requests::ToolPrerequisite| seq![t.tool@, t.reason@])
}

/// The line counting the sources.
pub open spec fn source_counts(sources: Seq<AdoptedSource>) -> Seq<char> {
    decimal(sources.len()) + " source repos, "@ + decimal(selected_count(sources)) + " selected, "@
        + decimal((sources.len() - selected_count(sources)) as nat) + " skipped\n"@
}

/// The closing list of next commands.
pub open spec fn adoption_next_commands() -> Seq<char> {
    "\nNext commands:\n"@
        + "  repoctl adopt plan --source <source> --dest <dest> --format json > target/repoctl/adopt-plan.json\n"@
        + "  repoctl adopt apply --plan target/repoctl/adopt-plan.json\n"@
        + "  repoctl adopt verify --plan target/repoctl/adopt-plan.json\n"@
}

/// The human-readable text of an adoption plan: title and counts, the
/// placement, rewrite and copy tables, CI operations, verification commands,
/// prerequisites when there are any, diagnostics, and the next commands.
pub open spec fn adoption_plan_text(plan: AdoptionPlan) -> Seq<char> {
    let t0 = title_text("Adoption plan"@) + source_counts(plan.sources@);
    let t1 = t0 + table_text(t0, "Placement"@,
        seq!["Source"@, "Destination"@, "Kind"@, "Confidence"@, "Decision"@], placement_rows(plan.sources@));
    let t2 = t1 + table_text(t1, "Dependency rewrites"@, seq!["File"@, "Package"@, "To"@], rewrite_rows(plan.dependency_rewrites@));
    let t3 = t2 + table_text(t2, "Copy operations"@, seq!["Operation"@, "Destination"@], copy_rows(plan.operations@));
    let t4 = t3 + operation_table_text(t3, "CI operations"@, plan.ci_operations@);
    let t5 = t4 + command_table_text(t4, "Verification"@, plan.verification.commands@);
    let t6 = if plan.verification.prerequisites@.len() == 0 {
        t5
    } else {
        t5 + table_text(t5, "Prerequisites"@, seq!["Tool"@, "Reason"@], prerequisite_rows(plan))
    };
    let t7 = t6 + diagnostics_section(t6, models(plan.diagnostics@));
    t7 + adoption_next_commands()
}

fn placement_row_exec(s: &AdoptedSource) -> (r: Vec<String>)
    ensures
        strs(r@) == placement_row(*s),
{
    let destination = if s.skipped { owned("skipped") } else { owned(s.destination_path.as_str()) };
    let kind = owned(crate::cli::project_kind_label(s.inferred_kind));
    let p = s.confidence_percent as usize;
    let mut confidence = String::new();
    push_chars(&mut confidence, &decimal_exec(p / 100));
    push_str(&mut confidence, ".");
    push_chars(&mut confidence, &decimal_exec((p % 100) / 10));
    push_chars(&mut confidence, &decimal_exec(p % 10));
    let decision = if s.override_applied { owned("override") } else { crate::policy::join_strings(&s.reasons, "; ") };
    let r = vec![owned(s.name.as_str()), destination, kind, confidence, decision];
    assert(strs(r@) =~= placement_row(*s));
    r
}

fn placement_rows_exec(sources: &Vec<AdoptedSource>) -> (rows: Vec<Vec<String>>)
    ensures
        row_views(rows@) == placement_rows(sources@),
{
    let mut rows: Vec<Vec<String>> = Vec::new();
    let mut k: usize = 0;
    while k < sources.len()
        invariant
            k <= sources.len(),
            row_views(rows@) == placement_rows(sources@).subrange(0, k as int),
        decreases sources.len() - k,
    {
        let row = placement_row_exec(&sources[k]);
        let ghost prev = row_views(rows@);
        rows.push(row);
        assert(row_views(rows@) =~= prev.push(placement_row(sources@[k as int])));
        assert(placement_rows(sources@).subrange(0, k as int + 1)
            =~= placement_rows(sources@).subrange(0, k as int).push(placement_row(sources@[k as int])));
        k = k + 1;
    }
    assert(placement_rows(sources@).subrange(0, sources.len() as int) =~= placement_rows(sources@));
    rows
}

fn rewrite_rows_exec(rewrites: &Vec<DependencyRewrite>) -> (rows: Vec<Vec<String>>)
    ensures
        row_views(rows@) == rewrite_rows(rewrites@),
{
    let mut rows: Vec<Vec<String>> = Vec::new();
    let mut k: usize = 0;
    while k < rewrites.len()
        invariant
            k <= rewrites.len(),
            row_views(rows@) == rewrite_rows(rewrites@).subrange(0, k as int),
        decreases rewrites.len() - k,
    {
        let rw = &rewrites[k];
        let row = vec![owned(rw.file.as_str()), owned(rw.package.as_str()), owned(rw.to.as_str())];
        assert(strs(row@) =~= rewrite_rows(rewrites@)[k as int]);
        let ghost prev = row_views(rows@);
        rows.push(row);
        assert(row_views(rows@) =~= prev.push(rewrite_rows(rewrites@)[k as int]));
        assert(rewrite_rows(rewrites@).subrange(0, k as int + 1)
            =~= rewrite_rows(rewrites@).subrange(0, k as int).push(rewrite_rows(rewrites@)[k as int]));
        k = k + 1;
    }
    assert(rewrite_rows(rewrites@).subrange(0, rewrites.len() as int) =~= rewrite_rows(rewrites@));
    rows
}

fn copy_rows_exec(operations: &Vec<AdoptionFileOperation>) -> (rows: Vec<Vec<String>>)
    ensures
        row_views(rows@) == copy_rows(operations@),
{
    let mut rows: Vec<Vec<String>> = Vec::new();
    let mut k: usize = 0;
    while k < operations.len()
        invariant
            k <= operations.len(),
            row_views(rows@) == copy_rows(operations@).subrange(0, k as int),
        decreases operations.len() - k,
    {
        let op = &operations[k];
        let row = vec![owned(op.operation.as_str()), owned(op.destination_path.as_str())];
        assert(strs(row@) =~= copy_rows(operations@)[k as int]);
        let ghost prev = row_views(rows@);
        rows.push(row);
        assert(row_views(rows@) =~= prev.push(copy_rows(operations@)[k as int]));
        assert(copy_rows(operations@).subrange(0, k as int + 1)
            =~= copy_rows(operations@).subrange(0, k as int).push(copy_rows(operations@)[k as int]));
        k = k + 1;
    }
    assert(copy_rows(operations@).subrange(0, operations.len() as int) =~= copy_rows(operations@));
    rows
}

fn prerequisite_rows_exec(plan: &AdoptionPlan) -> (rows: Vec<Vec<String>>)
    ensures
        row_views(rows@) == prerequisite_rows(*plan),
{
    let tools = &plan.verification.prerequisites;
    let mut rows: Vec<Vec<String>> = Vec::new();
    let mut k: usize = 0;
    while k < tools.len()
        invariant
            k <= tools.len(),
            *tools == plan.verification.prerequisites,
            row_views(rows@) == prerequisite_rows(*plan).subrange(0, k as int),
        decreases tools.len() - k,
    {
        let t = &tools[k];
        let row = vec![owned(t.tool.as_str()), owned(t.reason.as_str())];
        assert(strs(row@) =~= prerequisite_rows(*plan)[k as int]);
        let ghost prev = row_views(rows@);
        rows.push(row);
        assert(row_views(rows@) =~= prev.push(prerequisite_rows(*plan)[k as int]));
        assert(prerequisite_rows(*plan).subrange(0, k as int + 1)
            =~= prerequisite_rows(*plan).subrange(0, k as int).push(prerequisite_rows(*plan)[k as int]));
        k = k + 1;
    }
    assert(prerequisite_rows(*plan).subrange(0, tools.len() as int) =~= prerequisite_rows(*plan));
    rows
}

fn selected_sources(sources: &Vec<AdoptedSource>) -> (n: usize)
    ensures
        n as nat == selected_count(sources@),
        n <= sources.len(),
{
    let mut selected: usize = 0;
    let mut i: usize = 0;
    while i < sources.len()
        invariant
            i <= sources.len(),
            selected as nat == selected_count(sources@.subrange(0, i as int)),
            selected <= i,
        decreases sources.len() - i,
    {
        assert(sources@.subrange(0, i as int + 1).drop_last() =~= sources@.subrange(0, i as int));
        if !sources[i].skipped {
            selected = selected + 1;
        }
        i = i + 1;
    }
    assert(sources@.subrange(0, sources.len() as int) =~= sources@);
    selected
}

/// Renders the human-readable text of an adoption plan.
#[verifier::rlimit(80)]
#[verifier::spinoff_prover]
pub fn render_adoption_plan(plan: &AdoptionPlan) -> (r: String)
    ensures
        r@ == adoption_plan_text(*plan),
{
    let ghost t0 = title_text("Adoption plan"@) + source_counts(plan.sources@);
    let ghost t1 = t0 + table_text(t0, "Placement"@,
        seq!["Source"@, "Destination"@, "Kind"@, "Confidence"@, "Decision"@], placement_rows(plan.sources@));
    let ghost t2 = t1 + table_text(t1, "Dependency rewrites"@, seq!["File"@, "Package"@, "To"@], rewrite_rows(plan.dependency_rewrites@));
    let ghost t3 = t2 + table_text(t2, "Copy operations"@, seq!["Operation"@, "Destination"@], copy_rows(plan.operations@));
    let ghost t4 = t3 + operation_table_text(t3, "CI operations"@, plan.ci_operations@);
    let ghost t5 = t4 + command_table_text(t4, "Verification"@, plan.verification.commands@);
    let ghost t6 = if plan.verification.prerequisites@.len() == 0 {
        t5
    } else {
        t5 + table_text(t5, "Prerequisites"@, seq!["Tool"@, "Reason"@], prerequisite_rows(*plan))
    };
    let ghost t7 = t6 + diagnostics_section(t6, models(plan.diagnostics@));
    let mut output = String::new();
    append_title(&mut output, "Adoption plan");
    assert(output@ =~= title_text("Adoption plan"@));
    let selected = selected_sources(&plan.sources);
    push_chars(&mut output, &decimal_exec(plan.sources.len()));
    push_str(&mut output, " source repos, ");
    push_chars(&mut output, &decimal_exec(selected));
    push_str(&mut output, " selected, ");
    push_chars(&mut output, &decimal_exec(plan.sources.len() - selected));
    push_str(&mut output, " skipped\n");
    assert(output@ =~= t0);
    let rows = placement_rows_exec(&plan.sources);
    let hs = vec![owned("Source"), owned("Destination"), owned("Kind"), owned("Confidence"), owned("Decision")];
    assert(strs(hs@) =~= seq!["Source"@, "Destination"@, "Kind"@, "Confidence"@, "Decision"@]);
    append_table(&mut output, "Placement", &hs, &rows);
    assert(output@ == t1);
    let rows = rewrite_rows_exec(&plan.dependency_rewrites);
    let hs = vec![owned("File"), owned("Package"), owned("To")];
    assert(strs(hs@) =~= seq!["File"@, "Package"@, "To"@]);
    append_table(&mut output, "Dependency rewrites", &hs, &rows);
    assert(output@ == t2);
    let rows = copy_rows_exec(&plan.operations);
    let hs = vec![owned("Operation"), owned("Destination")];
    assert(strs(hs@) =~= seq!["Operation"@, "Destination"@]);
    append_table(&mut output, "Copy operations", &hs, &rows);
    assert(output@ == t3);
    append_operation_table(&mut output, "CI operations", &plan.ci_operations);
    append_command_table(&mut output, "Verification", &plan.verification.commands);
    assert(output@ == t5);
    if plan.verification.prerequisites.len() > 0 {
        let rows = prerequisite_rows_exec(plan);
        let hs = vec![owned("Tool"), owned("Reason")];
        assert(strs(hs@) =~= seq!["Tool"@, "Reason"@]);
        append_table(&mut output, "Prerequisites", &hs, &rows);
    }
    assert(output@ == t6);
    append_diagnostics(&mut output, &plan.diagnostics);
    assert(output@ == t7);
    push_str(&mut output, "\nNext commands:\n");
    push_str(&mut output, "  repoctl adopt plan --source <source> --dest <dest> --format json > target/repoctl/adopt-plan.json\n");
    push_str(&mut output, "  repoctl adopt apply --plan target/repoctl/adopt-plan.json\n");
    push_str(&mut output, "  repoctl adopt verify --plan target/repoctl/adopt-plan.json\n");
    assert(output@ =~= t7 + adoption_next_commands());
    output
}

} // verus!
