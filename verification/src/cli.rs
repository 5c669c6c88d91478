//! Command-line logic: project paths for `repoctl new`, argument parsing
//! and the human-readable report text.
use vstd::prelude::*;

use crate::diagnostic::{
    Diagnostic, DiagnosticModel, RepoctlError, Severity, error_model, with_help_model,
    with_path_model,
};
use crate::check::normalized_path;
use crate::domain::{ProjectKind, RepoName};
use crate::text::{
    chars_of, concat2, concat3, owned, push_chars, push_str, split_exec, split_on, string_of,
    strs, trim, trim_char, trim_char_exec, trim_exec,
};

verus! {

// ---------------------------------------------------------------------------
// Project kinds on the command line
// ---------------------------------------------------------------------------

/// Directory under which `repoctl new` places a kind, for the kinds it can
/// create.
pub open spec fn project_root_spec(kind: ProjectKind) -> Option<Seq<char>> {
    match kind {
        ProjectKind::App => Some("apps"@),
        ProjectKind::Framework => Some("frameworks"@),
        ProjectKind::FoundationService => Some("foundations"@),
        _ => None,
    }
}

/// Error for a kind `repoctl new` cannot create.
pub open spec fn unsupported_kind_error() -> DiagnosticModel {
    error_model("new.kind.unsupported"@, "new project supports app, framework, and foundation-service"@)
}

/// Directory under which `repoctl new` places a kind.
pub fn project_root(kind: ProjectKind) -> (r: Result<&'static str, Diagnostic>)
    ensures
        match r {
            Ok(s) => project_root_spec(kind) == Some(s@),
            Err(d) => project_root_spec(kind) is None && d@ == unsupported_kind_error(),
        },
{
    match kind {
        ProjectKind::App => Ok("apps"),
        ProjectKind::Framework => Ok("frameworks"),
        ProjectKind::FoundationService => Ok("foundations"),
        _ => Err(Diagnostic::error("new.kind.unsupported", "new project supports app, framework, and foundation-service")),
    }
}

/// Subcommand of `repoctl new` for a kind.
pub open spec fn kind_command(kind: ProjectKind) -> Seq<char> {
    match kind {
        ProjectKind::App => "app"@,
        ProjectKind::Framework => "framework"@,
        ProjectKind::FoundationService => "foundation"@,
        _ => "project"@,
    }
}

/// Subcommand of `repoctl new` for a kind.
pub fn project_kind_command(kind: ProjectKind) -> (s: &'static str)
    ensures
        s@ == kind_command(kind),
{
    match kind {
        ProjectKind::App => "app",
        ProjectKind::Framework => "framework",
        ProjectKind::FoundationService => "foundation",
        _ => "project",
    }
}

/// Words naming a kind in prompts and messages.
pub open spec fn kind_words(kind: ProjectKind) -> Seq<char> {
    match kind {
        ProjectKind::App => "app"@,
        ProjectKind::Framework => "framework"@,
        ProjectKind::FoundationService => "foundation service"@,
        ProjectKind::ProtoRoot => "proto root"@,
        ProjectKind::CoreInfra => "core infrastructure"@,
        ProjectKind::CoreInfraComponent => "core infrastructure component"@,
        ProjectKind::Tool => "tool"@,
    }
}

/// Words naming a kind in prompts and messages.
pub fn project_kind_words(kind: ProjectKind) -> (s: &'static str)
    ensures
        s@ == kind_words(kind),
{
    match kind {
        ProjectKind::App => "app",
        ProjectKind::Framework => "framework",
        ProjectKind::FoundationService => "foundation service",
        ProjectKind::ProtoRoot => "proto root",
        ProjectKind::CoreInfra => "core infrastructure",
        ProjectKind::CoreInfraComponent => "core infrastructure component",
        ProjectKind::Tool => "tool",
    }
}

/// Example project name for a kind.
pub open spec fn kind_example(kind: ProjectKind) -> Seq<char> {
    match kind {
        ProjectKind::App => "catalog"@,
        ProjectKind::Framework => "core"@,
        ProjectKind::FoundationService => "identity"@,
        ProjectKind::ProtoRoot => "protos"@,
        ProjectKind::CoreInfra => "core-infra"@,
        ProjectKind::CoreInfraComponent => "network"@,
        ProjectKind::Tool => "repoctl"@,
    }
}

/// Example project name for a kind.
pub fn example_slug(kind: ProjectKind) -> (s: &'static str)
    ensures
        s@ == kind_example(kind),
{
    match kind {
        ProjectKind::App => "catalog",
        ProjectKind::Framework => "core",
        ProjectKind::FoundationService => "identity",
        ProjectKind::ProtoRoot => "protos",
        ProjectKind::CoreInfra => "core-infra",
        ProjectKind::CoreInfraComponent => "network",
        ProjectKind::Tool => "repoctl",
    }
}

/// Subcommand that creates projects under a known root directory.
pub open spec fn root_command(root: Seq<char>) -> Seq<char> {
    if root == "apps"@ {
        "app"@
    } else if root == "frameworks"@ {
        "framework"@
    } else if root == "foundations"@ {
        "foundation"@
    } else {
        "project"@
    }
}

/// Subcommand that creates projects under a known root directory.
pub fn root_to_command(root: &str) -> (s: &'static str)
    ensures
        s@ == root_command(root@),
{
    if crate::text::str_eq(root, "apps") {
        "app"
    } else if crate::text::str_eq(root, "frameworks") {
        "framework"
    } else if crate::text::str_eq(root, "foundations") {
        "foundation"
    } else {
        "project"
    }
}

/// Error for a missing project name.
pub open spec fn missing_path_error(kind: ProjectKind) -> DiagnosticModel {
    error_model("new.path.required"@, "missing "@ + kind_words(kind) + " name or path"@)
}

/// Error for a missing project name.
pub fn missing_path_diagnostic(kind: ProjectKind) -> (d: Diagnostic)
    ensures
        d@ == missing_path_error(kind),
{
    let msg = concat3("missing ", project_kind_words(kind), " name or path");
    Diagnostic::error("new.path.required", msg.as_str())
}

// ---------------------------------------------------------------------------
// Project paths for `repoctl new`
// ---------------------------------------------------------------------------

/// One of the directories that hold created projects.
pub open spec fn known_root(s: Seq<char>) -> bool {
    s == "apps"@ || s == "frameworks"@ || s == "foundations"@
}

/// Error for a path that names only the kind's directory.
pub open spec fn missing_slug_error(root: Seq<char>, kind: ProjectKind) -> DiagnosticModel {
    with_help_model(
        error_model("new.path.missing_slug"@, "project path must include a name below `"@ + root + "/`"@),
        "use `"@ + root + "/"@ + kind_example(kind) + "` or just `"@ + kind_example(kind) + "`"@,
    )
}

/// Error for a path under another kind's directory.
pub open spec fn kind_mismatch_error(kind: ProjectKind, root: Seq<char>, trimmed: Seq<char>) -> DiagnosticModel {
    let parts = split_on(trimmed, '/');
    with_help_model(
        with_path_model(
            error_model(
                "new.path.kind_mismatch"@,
                "`"@ + kind_command(kind) + "` creates "@ + kind_words(kind) + " projects, so the path must live under `"@ + root + "/`"@,
            ),
            trimmed,
        ),
        "use `"@ + root + "/"@ + parts.last() + "` or run `repoctl new "@ + root_command(parts[0]) + " "@ + trimmed + "`"@,
    )
}

/// Where `repoctl new` places a project of `kind` given the path or name
/// typed: surrounding whitespace and slashes are dropped; a bare name goes
/// under the kind's directory; a path under the kind's directory is kept;
/// a path under another kind's directory, the directory alone, or nothing
/// at all is refused.
pub open spec fn new_project_path(kind: ProjectKind, path: Option<Seq<char>>) -> Result<Seq<char>, DiagnosticModel> {
    match path {
        None => Err(missing_path_error(kind)),
        Some(p) => {
            let raw = trim(p);
            let t = trim_char(raw, '/');
            if raw.len() == 0 || t.len() == 0 {
                Err(missing_path_error(kind))
            } else {
                match project_root_spec(kind) {
                    None => Err(unsupported_kind_error()),
                    Some(root) => if t == root {
                        Err(missing_slug_error(root, kind))
                    } else if known_root(split_on(t, '/')[0]) {
                        if split_on(t, '/')[0] == root {
                            normalized_path(t, false)
                        } else {
                            Err(kind_mismatch_error(kind, root, t))
                        }
                    } else {
                        normalized_path(root + "/"@ + t, false)
                    },
                }
            }
        },
    }
}

/// Normalizes the path or name given to `repoctl new`.
pub fn normalize_new_project_path(kind: ProjectKind, path: Option<&str>) -> (r: Result<crate::domain::RepoRelativePath, Diagnostic>)
    ensures
        match r {
            Ok(p) => new_project_path(kind, match path { Some(s) => Some(s@), None => None }) == Ok::<Seq<char>, DiagnosticModel>(p@),
            Err(d) => new_project_path(kind, match path { Some(s) => Some(s@), None => None }) == Err::<Seq<char>, DiagnosticModel>(d@),
        },
{
    let p = match path {
        None => {
            return Err(missing_path_diagnostic(kind));
        },
        Some(p) => p,
    };
    let raw = trim_exec(&chars_of(p));
    if raw.len() == 0 {
        return Err(missing_path_diagnostic(kind));
    }
    let t = trim_char_exec(&raw, '/');
    if t.len() == 0 {
        return Err(missing_path_diagnostic(kind));
    }
    let root = project_root(kind)?;
    let root_chars = chars_of(root);
    let trimmed = string_of(&t);
    if crate::text::seq_eq(&t, &root_chars) {
        let example = example_slug(kind);
        let msg = concat3("project path must include a name below `", root, "/`");
        let mut help = concat3("use `", root, "/");
        push_str(&mut help, example);
        push_str(&mut help, "` or just `");
        push_str(&mut help, example);
        push_str(&mut help, "`");
        return Err(Diagnostic::error("new.path.missing_slug", msg.as_str()).with_help(help.as_str()));
    }
    let parts = split_exec(&t, '/');
    proof {
        crate::text::lemma_split_acc_len(t@, '/');
    }
    let first = string_of(&parts[0]);
    let apps = crate::text::str_eq(first.as_str(), "apps");
    let frameworks = crate::text::str_eq(first.as_str(), "frameworks");
    let foundations = crate::text::str_eq(first.as_str(), "foundations");
    if apps || frameworks || foundations {
        if crate::text::str_eq(first.as_str(), root) {
            crate::domain::RepoRelativePath::new(trimmed.as_str())
        } else {
            let mut msg = concat3("`", project_kind_command(kind), "` creates ");
            push_str(&mut msg, project_kind_words(kind));
            push_str(&mut msg, " projects, so the path must live under `");
            push_str(&mut msg, root);
            push_str(&mut msg, "/`");
            let last = string_of(&parts[parts.len() - 1]);
            let mut help = concat3("use `", root, "/");
            push_str(&mut help, last.as_str());
            push_str(&mut help, "` or run `repoctl new ");
            push_str(&mut help, root_to_command(first.as_str()));
            push_str(&mut help, " ");
            push_str(&mut help, trimmed.as_str());
            push_str(&mut help, "`");
            Err(Diagnostic::error("new.path.kind_mismatch", msg.as_str()).with_path(trimmed.as_str()).with_help(help.as_str()))
        }
    } else {
        let mut joined = concat2(root, "/");
        push_str(&mut joined, trimmed.as_str());
        crate::domain::RepoRelativePath::new(joined.as_str())
    }
}

/// Where `repoctl init` creates the repository: the explicit root when one
/// is given, else a directory named after the repository.
pub fn init_repo_root(explicit_root: Option<&str>, name: &RepoName) -> (r: String)
    ensures
        r@ == match explicit_root {
            Some(p) => p@,
            None => name@,
        },
{
    match explicit_root {
        Some(p) => owned(p),
        None => owned(name.as_str()),
    }
}

// ---------------------------------------------------------------------------
// Report text
// ---------------------------------------------------------------------------

/// Byte length of text, as `str::len` reports it.
pub open spec fn ulen(s: Seq<char>) -> nat {
    (vstd::utf8::encode_utf8(s).len() as usize) as nat
}

/// `n` copies of a character.
pub open spec fn repeat_char(c: char, n: nat) -> Seq<char> {
    Seq::new(n, |_i: int| c)
}

fn push_repeat(out: &mut String, c: char, n: usize)
    ensures
        final(out)@ == old(out)@ + repeat_char(c, n as nat),
{
    let ghost start = out@;
    let mut i: usize = 0;
    while i < n
        invariant
            i <= n,
            out@ == start + repeat_char(c, i as nat),
        decreases n - i,
    {
        crate::text::push_char(out, c);
        i = i + 1;
        assert(out@ =~= start + repeat_char(c, i as nat));
    }
}

/// A blank line before a section unless the text already ends with one.
pub open spec fn section_gap(out: Seq<char>) -> Seq<char> {
    if crate::text::has_suffix(out, "\n\n"@) {
        Seq::empty()
    } else {
        "\n"@
    }
}

fn push_section_gap(out: &mut String)
    ensures
        final(out)@ == old(out)@ + section_gap(old(out)@),
{
    let cs = chars_of(out.as_str());
    let nn = chars_of("\n\n");
    proof {
        reveal_strlit("\n\n");
    }
    if !crate::text::ends_with(&cs, &nn) {
        crate::text::push_char(out, '\n');
        assert(out@ =~= old(out)@ + "\n"@) by {
            reveal_strlit("\n");
        }
    } else {
        assert(out@ =~= old(out)@ + Seq::<char>::empty());
    }
}

/// A labelled line when the value is present.
pub open spec fn opt_line(label: Seq<char>, value: Option<Seq<char>>) -> Seq<char> {
    match value {
        Some(v) => label + v + "\n"@,
        None => Seq::empty(),
    }
}

/// Path and span lines of a diagnostic's location.
pub open spec fn location_text(source: Option<crate::diagnostic::SourceModel>) -> Seq<char> {
    match source {
        Some(src) => "  path: "@ + src.path + "\n"@ + match src.span {
            Some(sp) => "  span: "@ + crate::text::decimal(sp.line as nat) + ":"@ + crate::text::decimal(sp.column as nat) + "\n"@,
            None => Seq::empty(),
        },
        None => Seq::empty(),
    }
}

/// Text of one diagnostic: severity and message, code, then whichever of
/// path, span, project, workspace and help it carries.
pub open spec fn diagnostic_text(d: DiagnosticModel) -> Seq<char> {
    crate::diagnostic::severity_text(d.severity) + ": "@ + d.message + "\n"@
        + "  code: "@ + d.code + "\n"@
        + location_text(d.source)
        + opt_line("  project: "@, d.project)
        + opt_line("  workspace: "@, d.workspace)
        + opt_line("  help: "@, d.help)
}

fn push_line(out: &mut String, label: &str, value: &str)
    ensures
        final(out)@ == old(out)@ + label@ + value@ + "\n"@,
{
    push_str(out, label);
    push_str(out, value);
    push_str(out, "\n");
}

fn push_opt_line(out: &mut String, label: &str, value: &Option<String>)
    ensures
        final(out)@ == old(out)@ + opt_line(label@, crate::diagnostic::opt_view(*value)),
{
    match value {
        Some(v) => push_line(out, label, v.as_str()),
        None => {
            assert(out@ =~= old(out)@ + Seq::<char>::empty());
        },
    }
}

fn push_location(out: &mut String, source: &Option<Box<crate::diagnostic::DiagnosticSource>>)
    ensures
        final(out)@ == old(out)@ + location_text(match *source {
            Some(s) => Some(s@),
            None => None,
        }),
{
    let ghost start = out@;
    match source {
        Some(src) => {
            push_line(out, "  path: ", src.path.as_str());
            let ghost mid = out@;
            match &src.span {
                Some(sp) => {
                    push_str(out, "  span: ");
                    push_chars(out, &crate::text::decimal_exec(sp.line));
                    push_str(out, ":");
                    push_chars(out, &crate::text::decimal_exec(sp.column));
                    push_str(out, "\n");
                    assert(out@ =~= start + location_text(Some(src@)));
                },
                None => {
                    assert(out@ =~= start + location_text(Some(src@)));
                },
            }
        },
        None => {
            assert(out@ =~= start + Seq::<char>::empty());
        },
    }
}

/// Appends the text of one diagnostic.
pub fn append_diagnostic(output: &mut String, diagnostic: &Diagnostic)
    ensures
        final(output)@ == old(output)@ + diagnostic_text(diagnostic@),
{
    let ghost start = output@;
    let ghost d = diagnostic@;
    push_str(output, crate::diagnostic::severity_label(&diagnostic.severity));
    push_line(output, ": ", diagnostic.message.as_str());
    push_line(output, "  code: ", diagnostic.code.as_str());
    let ghost head = output@;
    assert(head =~= start + (crate::diagnostic::severity_text(d.severity) + ": "@ + d.message + "\n"@ + "  code: "@ + d.code + "\n"@));
    push_location(output, &diagnostic.source);
    let ghost a = output@;
    push_opt_line(output, "  project: ", &diagnostic.project);
    let ghost b = output@;
    push_opt_line(output, "  workspace: ", &diagnostic.workspace);
    let ghost c = output@;
    push_opt_line(output, "  help: ", &diagnostic.help);
    assert(output@ =~= start + diagnostic_text(d));
}

/// Text of several diagnostics, one after another.
pub open spec fn diagnostics_text(ds: Seq<DiagnosticModel>) -> Seq<char>
    decreases ds.len(),
{
    if ds.len() == 0 {
        Seq::empty()
    } else {
        diagnostics_text(ds.drop_last()) + diagnostic_text(ds.last())
    }
}

/// A diagnostics section after `out`: nothing when there are none, else a
/// counted heading and each diagnostic.
pub open spec fn diagnostics_section(out: Seq<char>, ds: Seq<DiagnosticModel>) -> Seq<char> {
    if ds.len() == 0 {
        Seq::empty()
    } else {
        section_gap(out) + "Diagnostics ("@ + crate::text::decimal(ds.len()) + ")\n"@ + diagnostics_text(ds)
    }
}

/// Appends the text of each diagnostic.
pub fn append_each_diagnostic(output: &mut String, diagnostics: &Vec<Diagnostic>)
    ensures
        final(output)@ == old(output)@ + diagnostics_text(crate::diagnostic::models(diagnostics@)),
{
    let ghost start = output@;
    let ghost ds = crate::diagnostic::models(diagnostics@);
    let mut i: usize = 0;
    assert(ds.subrange(0, 0) =~= Seq::<DiagnosticModel>::empty());
    assert(output@ =~= start + diagnostics_text(ds.subrange(0, 0)));
    while i < diagnostics.len()
        invariant
            i <= diagnostics.len(),
            ds == crate::diagnostic::models(diagnostics@),
            output@ == start + diagnostics_text(ds.subrange(0, i as int)),
        decreases diagnostics.len() - i,
    {
        append_diagnostic(output, &diagnostics[i]);
        assert(ds.subrange(0, i as int + 1).drop_last() =~= ds.subrange(0, i as int));
        i = i + 1;
        assert(output@ =~= start + diagnostics_text(ds.subrange(0, i as int)));
    }
    assert(ds.subrange(0, ds.len() as int) =~= ds);
}

/// Appends a counted diagnostics section, when there are diagnostics.
pub fn append_diagnostics(output: &mut String, diagnostics: &Vec<Diagnostic>)
    ensures
        final(output)@ == old(output)@ + diagnostics_section(old(output)@, crate::diagnostic::models(diagnostics@)),
{
    if diagnostics.len() == 0 {
        assert(output@ =~= old(output)@ + Seq::<char>::empty());
        return;
    }
    let ghost start = output@;
    push_section_gap(output);
    push_str(output, "Diagnostics (");
    push_chars(output, &crate::text::decimal_exec(diagnostics.len()));
    push_str(output, ")\n");
    append_each_diagnostic(output, diagnostics);
    assert(output@ =~= start + diagnostics_section(start, crate::diagnostic::models(diagnostics@)));
}

/// A title underlined with dashes, then a blank line.
pub open spec fn title_text(title: Seq<char>) -> Seq<char> {
    title + "\n"@ + repeat_char('-', ulen(title)) + "\n"@ + "\n"@
}

/// Appends an underlined title.
pub fn append_title(output: &mut String, title: &str)
    ensures
        final(output)@ == old(output)@ + title_text(title@),
{
    let ghost start = output@;
    let n = title.len();
    push_str(output, title);
    push_str(output, "\n");
    push_repeat(output, '-', n);
    push_str(output, "\n");
    push_str(output, "\n");
    assert(output@ =~= start + title_text(title@));
}

// ---------------------------------------------------------------------------
// Tables
// ---------------------------------------------------------------------------

/// Larger of two numbers.
pub open spec fn max_nat(a: nat, b: nat) -> nat {
    if a >= b {
        a
    } else {
        b
    }
}

/// Column widths after taking a row into account: each column as wide as
/// its widest cell, with new columns for cells past the last one.
pub open spec fn widen(ws: Seq<nat>, cells: Seq<Seq<char>>) -> Seq<nat> {
    Seq::new(
        if ws.len() >= cells.len() { ws.len() } else { cells.len() },
        |i: int| if i < ws.len() {
            if i < cells.len() {
                max_nat(ws[i], ulen(cells[i]))
            } else {
                ws[i]
            }
        } else {
            ulen(cells[i])
        },
    )
}

/// Column widths of a table: header widths widened by each row in turn.
pub open spec fn column_widths(headers: Seq<Seq<char>>, rows: Seq<Seq<Seq<char>>>) -> Seq<nat>
    decreases rows.len(),
{
    if rows.len() == 0 {
        headers.map_values(|h: Seq<char>| ulen(h))
    } else {
        widen(column_widths(headers, rows.drop_last()), rows.last())
    }
}

/// A cell padded with spaces to at least `width` characters.
pub open spec fn pad_to(cell: Seq<char>, width: nat) -> Seq<char> {
    if cell.len() < width {
        cell + repeat_char(' ', (width - cell.len()) as nat)
    } else {
        cell
    }
}

/// The first `n` cells of a row: two spaces between cells, every cell but
/// the row's last padded to its column width.
pub open spec fn cells_text(ws: Seq<nat>, cells: Seq<Seq<char>>, n: nat) -> Seq<char>
    decreases n,
{
    if n == 0 {
        Seq::empty()
    } else {
        let i = n - 1;
        cells_text(ws, cells, i as nat)
            + (if i > 0 { "  "@ } else { Seq::empty() })
            + (if n == cells.len() {
                cells[i]
            } else {
                pad_to(cells[i], if i < ws.len() { ws[i] } else { ulen(cells[i]) })
            })
    }
}

/// One table row and its line break.
pub open spec fn row_text(ws: Seq<nat>, cells: Seq<Seq<char>>) -> Seq<char> {
    cells_text(ws, cells, cells.len()) + "\n"@
}

/// Rows of a table, in order.
pub open spec fn rows_text(ws: Seq<nat>, rows: Seq<Seq<Seq<char>>>) -> Seq<char>
    decreases rows.len(),
{
    if rows.len() == 0 {
        Seq::empty()
    } else {
        rows_text(ws, rows.drop_last()) + row_text(ws, rows.last())
    }
}

/// A titled table after `out`: `(none)` when there are no rows, else the
/// header, a dashed rule and the rows, columns aligned.
pub open spec fn table_text(out: Seq<char>, title: Seq<char>, headers: Seq<Seq<char>>, rows: Seq<Seq<Seq<char>>>) -> Seq<char> {
    section_gap(out) + title + "\n"@ + if rows.len() == 0 {
        "  (none)\n"@
    } else {
        let ws = column_widths(headers, rows);
        row_text(ws, headers) + row_text(ws, ws.map_values(|w: nat| repeat_char('-', w))) + rows_text(ws, rows)
    }
}

/// Character sequences of rows of strings.
pub open spec fn row_views(rows: Seq<Vec<String>>) -> Seq<Seq<Seq<char>>> {
    rows.map_values(|r: Vec<String>| strs(r@))
}

/// Widths as natural numbers.
pub open spec fn width_views(ws: Seq<usize>) -> Seq<nat> {
    ws.map_values(|w: usize| w as nat)
}

fn pad_cell(out: &mut String, cell: &str, width: usize)
    ensures
        final(out)@ == old(out)@ + pad_to(cell@, width as nat),
{
    let n = chars_of(cell).len();
    push_str(out, cell);
    if n < width {
        push_repeat(out, ' ', width - n);
    } else {
        assert(out@ =~= old(out)@ + cell@);
    }
}

/// Appends one table row.
pub fn append_table_row(output: &mut String, widths: &Vec<usize>, cells: &Vec<String>)
    ensures
        final(output)@ == old(output)@ + row_text(width_views(widths@), strs(cells@)),
{
    let ghost start = output@;
    let ghost ws = width_views(widths@);
    let ghost cs = strs(cells@);
    let mut i: usize = 0;
    while i < cells.len()
        invariant
            i <= cells.len(),
            ws == width_views(widths@),
            cs == strs(cells@),
            output@ == start + cells_text(ws, cs, i as nat),
        decreases cells.len() - i,
    {
        let ghost before = output@;
        if i > 0 {
            push_str(output, "  ");
        }
        let ghost mid = output@;
        assert(cs[i as int] == cells@[i as int]@);
        if i + 1 == cells.len() {
            push_str(output, cells[i].as_str());
        } else if i < widths.len() {
            pad_cell(output, cells[i].as_str(), widths[i]);
        } else {
            let w = cells[i].as_str().len();
            pad_cell(output, cells[i].as_str(), w);
        }
        assert(output@ =~= start + cells_text(ws, cs, (i + 1) as nat));
        i = i + 1;
    }
    push_str(output, "\n");
}

fn widths_of(headers: &Vec<String>, rows: &Vec<Vec<String>>) -> (ws: Vec<usize>)
    ensures
        width_views(ws@) == column_widths(strs(headers@), row_views(rows@)),
{
    let ghost hs = strs(headers@);
    let ghost rs = row_views(rows@);
    let mut ws: Vec<usize> = Vec::new();
    let mut h: usize = 0;
    while h < headers.len()
        invariant
            h <= headers.len(),
            hs == strs(headers@),
            ws@.len() == h,
            forall|k: int| 0 <= k < h ==> (#[trigger] ws@[k]) as nat == ulen(hs[k]),
        decreases headers.len() - h,
    {
        ws.push(headers[h].as_str().len());
        h = h + 1;
    }
    assert(width_views(ws@) =~= column_widths(hs, rs.subrange(0, 0)));
    let mut r: usize = 0;
    while r < rows.len()
        invariant
            r <= rows.len(),
            hs == strs(headers@),
            rs == row_views(rows@),
            width_views(ws@) == column_widths(hs, rs.subrange(0, r as int)),
        decreases rows.len() - r,
    {
        let row = &rows[r];
        let ghost base = width_views(ws@);
        let ghost cells = strs(row@);
        let mut j: usize = 0;
        assert(width_views(ws@) =~= widen(base, cells.subrange(0, 0)));
        while j < row.len()
            invariant
                j <= row.len(),
                cells == strs(row@),
                width_views(ws@) == widen(base, cells.subrange(0, j as int)),
            decreases row.len() - j,
        {
            let len = row[j].as_str().len();
            assert(cells[j as int] == row@[j as int]@);
            assert(len as nat == ulen(cells[j as int]));
            let ghost prev = width_views(ws@);
            let ghost c0 = cells.subrange(0, j as int);
            let ghost c1 = cells.subrange(0, j as int + 1);
            assert(forall|i: int| 0 <= i < j ==> c1[i] == c0[i]);
            assert(c1[j as int] == cells[j as int]);
            assert(c0.len() == j);
            assert(prev.len() == ws@.len());
            assert(prev.len() == (if base.len() >= j { base.len() } else { j as nat }));
            if j < ws.len() {
                assert(j < base.len());
                if ws[j] < len {
                    ws.set(j, len);
                }
            } else {
                assert(j >= base.len());
                ws.push(len);
            }
            assert forall|i: int| 0 <= i < width_views(ws@).len() implies width_views(ws@)[i] == widen(base, c1)[i] by {
                if i < prev.len() {
                    assert(prev[i] == widen(base, c0)[i]);
                }
                if i != j {
                    assert(width_views(ws@)[i] == prev[i]);
                }
            }
            assert(width_views(ws@) =~= widen(base, c1));
            j = j + 1;
        }
        assert(cells.subrange(0, cells.len() as int) =~= cells);
        assert(rs[r as int] == cells);
        assert(rs.subrange(0, r as int + 1).drop_last() =~= rs.subrange(0, r as int));
        r = r + 1;
    }
    assert(rs.subrange(0, rs.len() as int) =~= rs);
    ws
}

/// Appends a titled table with aligned columns.
pub fn append_table(output: &mut String, title: &str, headers: &Vec<String>, rows: &Vec<Vec<String>>)
    ensures
        final(output)@ == old(output)@ + table_text(old(output)@, title@, strs(headers@), row_views(rows@)),
{
    let ghost start = output@;
    push_section_gap(output);
    push_str(output, title);
    push_str(output, "\n");
    if rows.len() == 0 {
        push_str(output, "  (none)\n");
        assert(output@ =~= start + table_text(start, title@, strs(headers@), row_views(rows@)));
        return;
    }
    let widths = widths_of(headers, rows);
    let ghost ws = width_views(widths@);
    let ghost before_rows = output@;
    append_table_row(output, &widths, headers);
    let mut rule: Vec<String> = Vec::new();
    let mut k: usize = 0;
    while k < widths.len()
        invariant
            k <= widths.len(),
            ws == width_views(widths@),
            rule@.len() == k,
            forall|m: int| 0 <= m < k ==> (#[trigger] rule@[m])@ == repeat_char('-', ws[m]),
        decreases widths.len() - k,
    {
        let mut dashes = String::new();
        push_repeat(&mut dashes, '-', widths[k]);
        assert(dashes@ =~= repeat_char('-', ws[k as int]));
        rule.push(dashes);
        k = k + 1;
    }
    assert(strs(rule@) =~= ws.map_values(|w: nat| repeat_char('-', w)));
    append_table_row(output, &widths, &rule);
    let ghost rs = row_views(rows@);
    let ghost after_header = output@;
    let mut r: usize = 0;
    assert(after_header =~= after_header + rows_text(ws, rs.subrange(0, 0)));
    while r < rows.len()
        invariant
            r <= rows.len(),
            ws == width_views(widths@),
            rs == row_views(rows@),
            output@ == after_header + rows_text(ws, rs.subrange(0, r as int)),
        decreases rows.len() - r,
    {
        append_table_row(output, &widths, &rows[r]);
        assert(rs.subrange(0, r as int + 1).drop_last() =~= rs.subrange(0, r as int));
        r = r + 1;
        assert(output@ =~= after_header + rows_text(ws, rs.subrange(0, r as int)));
    }
    assert(rs.subrange(0, rs.len() as int) =~= rs);
    assert(output@ =~= start + table_text(start, title@, strs(headers@), rs));
}

// ---------------------------------------------------------------------------
// Reports
// ---------------------------------------------------------------------------

/// Table rows of template summaries: source, kind, name.
pub open spec fn template_rows(ts: Seq<crate::requests::TemplateSummary>) -> Seq<Seq<Seq<char>>> {
    ts.map_values(|t: crate::requests::TemplateSummary| seq![t.source@, t.kind@, t.name@])
}

/// Text of the template list up to its diagnostics.
pub open spec fn template_list_body(ts: Seq<crate::requests::TemplateSummary>) -> Seq<char> {
    let a = title_text("Available templates"@);
    let b = a + table_text(
        a,
        "Templates ("@ + crate::text::decimal(ts.len()) + ")"@,
        seq!["Source"@, "Kind"@, "Name"@],
        template_rows(ts),
    );
    b + if ts.len() > 0 {
        "\nRender a template with:\n"@ + "  repoctl template render <source> --input name=<name>\n"@
    } else {
        Seq::empty()
    }
}

/// Human-readable template list: a title, a table of templates, a hint on
/// rendering one, then any diagnostics.
pub open spec fn template_list_text(ts: Seq<crate::requests::TemplateSummary>, ds: Seq<DiagnosticModel>) -> Seq<char> {
    template_list_body(ts) + diagnostics_section(template_list_body(ts), ds)
}

/// Formats the template list for people.
pub fn format_template_list_human(report: &crate::requests::TemplateListReport) -> (r: String)
    ensures
        r@ == template_list_text(report.templates@, crate::diagnostic::models(report.diagnostics@)),
{
    let mut output = String::new();
    append_title(&mut output, "Available templates");
    let ghost a = output@;
    assert(a =~= title_text("Available templates"@));
    let mut title = owned("Templates (");
    push_chars(&mut title, &crate::text::decimal_exec(report.templates.len()));
    push_str(&mut title, ")");
    let mut headers: Vec<String> = Vec::new();
    headers.push(owned("Source"));
    headers.push(owned("Kind"));
    headers.push(owned("Name"));
    assert(strs(headers@) =~= seq!["Source"@, "Kind"@, "Name"@]);
    let mut rows: Vec<Vec<String>> = Vec::new();
    let mut i: usize = 0;
    while i < report.templates.len()
        invariant
            i <= report.templates.len(),
            rows@.len() == i,
            forall|k: int| 0 <= k < i ==> strs((#[trigger] rows@[k])@) == seq![
                report.templates@[k].source@,
                report.templates@[k].kind@,
                report.templates@[k].name@,
            ],
        decreases report.templates.len() - i,
    {
        let t = &report.templates[i];
        let mut row: Vec<String> = Vec::new();
        row.push(t.source.clone());
        row.push(t.kind.clone());
        row.push(t.name.clone());
        assert(strs(row@) =~= seq![t.source@, t.kind@, t.name@]);
        rows.push(row);
        i = i + 1;
    }
    assert(row_views(rows@) =~= template_rows(report.templates@));
    append_table(&mut output, title.as_str(), &headers, &rows);
    let ghost b = output@;
    if report.templates.len() > 0 {
        push_str(&mut output, "\nRender a template with:\n");
        push_str(&mut output, "  repoctl template render <source> --input name=<name>\n");
    }
    assert(output@ =~= template_list_body(report.templates@));
    append_diagnostics(&mut output, &report.diagnostics);
    output
}

/// Label of a project kind as manifests spell it.
pub open spec fn kind_label(kind: ProjectKind) -> Seq<char> {
    match kind {
        ProjectKind::App => "app"@,
        ProjectKind::Framework => "framework"@,
        ProjectKind::FoundationService => "foundation-service"@,
        ProjectKind::ProtoRoot => "proto-root"@,
        ProjectKind::CoreInfra => "core-infra"@,
        ProjectKind::CoreInfraComponent => "core-infra-component"@,
        ProjectKind::Tool => "tool"@,
    }
}

/// Label of a project kind as manifests spell it.
pub fn project_kind_label(kind: ProjectKind) -> (s: &'static str)
    ensures
        s@ == kind_label(kind),
{
    match kind {
        ProjectKind::App => "app",
        ProjectKind::Framework => "framework",
        ProjectKind::FoundationService => "foundation-service",
        ProjectKind::ProtoRoot => "proto-root",
        ProjectKind::CoreInfra => "core-infra",
        ProjectKind::CoreInfraComponent => "core-infra-component",
        ProjectKind::Tool => "tool",
    }
}

// ---------------------------------------------------------------------------
// Commands
// ---------------------------------------------------------------------------

/// Scope of a planned command: project, workspace and task joined by `:`
/// as far as they are known, or `-`.
pub open spec fn scope_text(project: Option<Seq<char>>, workspace: Option<Seq<char>>, task: Option<Seq<char>>) -> Seq<char> {
    match (project, workspace, task) {
        (Some(p), Some(w), Some(t)) => p + ":"@ + w + ":"@ + t,
        (Some(p), Some(w), None) => p + ":"@ + w,
        (Some(p), None, Some(t)) => p + ":"@ + t,
        (Some(p), None, None) => p,
        (None, None, Some(t)) => t,
        _ => "-"@,
    }
}

/// Scope of a planned command.
pub fn command_scope(command: &crate::requests::ProcessCommand) -> (r: String)
    ensures
        r@ == scope_text(
            match command.project { Some(p) => Some(p@), None => None },
            match command.workspace { Some(w) => Some(w@), None => None },
            match command.task { Some(t) => Some(t@), None => None },
        ),
{
    match (&command.project, &command.workspace, &command.task) {
        (Some(p), Some(w), Some(t)) => {
            let mut r = concat3(p.as_str(), ":", w.as_str());
            push_str(&mut r, ":");
            push_str(&mut r, t.as_str());
            r
        },
        (Some(p), Some(w), None) => concat3(p.as_str(), ":", w.as_str()),
        (Some(p), None, Some(t)) => concat3(p.as_str(), ":", t.as_str()),
        (Some(p), None, None) => owned(p.as_str()),
        (None, None, Some(t)) => owned(t.as_str()),
        _ => owned("-"),
    }
}

/// Characters shown without quoting.
pub open spec fn plain_arg_char(c: char) -> bool {
    crate::text::is_alnum(c) || c == '-' || c == '_' || c == '.' || c == '/' || c == ':'
}

/// `v` with each `'` written as `'\''`.
pub open spec fn escape_quotes(v: Seq<char>) -> Seq<char>
    decreases v.len(),
{
    if v.len() == 0 {
        Seq::empty()
    } else {
        escape_quotes(v.drop_last()) + if v.last() == '\'' {
            seq!['\'', '\\', '\'', '\'']
        } else {
            seq![v.last()]
        }
    }
}

/// An argument as a shell would need it: unchanged when every character is
/// plain, else in single quotes.
pub open spec fn shell_arg(v: Seq<char>) -> Seq<char> {
    if forall|i: int| 0 <= i < v.len() ==> plain_arg_char(#[trigger] v[i]) {
        v
    } else {
        seq!['\''] + escape_quotes(v) + seq!['\'']
    }
}

/// Quotes an argument for display when a shell would need it.
pub fn shell_display_arg(value: &str) -> (r: String)
    ensures
        r@ == shell_arg(value@),
{
    let cs = chars_of(value);
    let mut plain = true;
    let mut i: usize = 0;
    while i < cs.len()
        invariant
            i <= cs.len(),
            cs@ == value@,
            plain == forall|k: int| 0 <= k < i ==> plain_arg_char(#[trigger] cs@[k]),
        decreases cs.len() - i,
    {
        let c = cs[i];
        let ok = ('a' <= c && c <= 'z') || ('A' <= c && c <= 'Z') || ('0' <= c && c <= '9')
            || c == '-' || c == '_' || c == '.' || c == '/' || c == ':';
        if !ok {
            assert(!plain_arg_char(cs@[i as int]));
        }
        plain = plain && ok;
        i = i + 1;
    }
    if plain {
        return owned(value);
    }
    let mut out = String::new();
    crate::text::push_char(&mut out, '\'');
    let mut j: usize = 0;
    assert(out@ =~= seq!['\''] + escape_quotes(cs@.subrange(0, 0)));
    while j < cs.len()
        invariant
            j <= cs.len(),
            out@ == seq!['\''] + escape_quotes(cs@.subrange(0, j as int)),
        decreases cs.len() - j,
    {
        let ghost before = out@;
        if cs[j] == '\'' {
            crate::text::push_char(&mut out, '\'');
            crate::text::push_char(&mut out, '\\');
            crate::text::push_char(&mut out, '\'');
            crate::text::push_char(&mut out, '\'');
        } else {
            crate::text::push_char(&mut out, cs[j]);
        }
        assert(cs@.subrange(0, j as int + 1).drop_last() =~= cs@.subrange(0, j as int));
        j = j + 1;
        assert(out@ =~= seq!['\''] + escape_quotes(cs@.subrange(0, j as int)));
    }
    assert(cs@.subrange(0, cs@.len() as int) =~= cs@);
    crate::text::push_char(&mut out, '\'');
    assert(out@ =~= seq!['\''] + escape_quotes(value@) + seq!['\'']);
    out
}

/// A planned command as one display line: program and arguments, each
/// quoted when needed, separated by spaces.
pub open spec fn command_line_text(program: Seq<char>, args: Seq<Seq<char>>) -> Seq<char> {
    crate::text::join_with(seq![program].add(args).map_values(|a: Seq<char>| shell_arg(a)), " "@)
}

/// A planned command as one display line.
pub fn command_line(command: &crate::requests::ProcessCommand) -> (r: String)
    ensures
        r@ == command_line_text(command.program@, strs(command.args@)),
{
    let ghost all = seq![command.program@].add(strs(command.args@));
    let mut parts: Vec<String> = Vec::new();
    parts.push(shell_display_arg(command.program.as_str()));
    let mut i: usize = 0;
    while i < command.args.len()
        invariant
            i <= command.args.len(),
            all == seq![command.program@].add(strs(command.args@)),
            parts@.len() == i + 1,
            forall|k: int| 0 <= k <= i ==> (#[trigger] parts@[k])@ == shell_arg(all[k]),
        decreases command.args.len() - i,
    {
        assert(all[i as int + 1] == command.args@[i as int]@);
        parts.push(shell_display_arg(command.args[i].as_str()));
        i = i + 1;
    }
    assert(strs(parts@) =~= all.map_values(|a: Seq<char>| shell_arg(a)));
    crate::policy::join_strings(&parts, " ")
}

// ---------------------------------------------------------------------------
// Arguments
// ---------------------------------------------------------------------------

/// Error for an invalid changed-file argument.
pub open spec fn changed_file_problem(v: Seq<char>) -> Option<DiagnosticModel> {
    match normalized_path(v, false) {
        Ok(_) => None,
        Err(d) => Some(with_help_model(with_path_model(d, v), "changed files must be repo-relative paths without traversal"@)),
    }
}

/// Reads changed-file arguments as repo-relative paths.
pub fn parse_changed_files(values: &Vec<String>) -> (r: Result<Vec<crate::domain::RepoRelativePath>, RepoctlError>)
    ensures
        match r {
            Ok(v) => crate::manifest::first_err(strs(values@).map_values(|x: Seq<char>| changed_file_problem(x)), 0) is None
                && v@.len() == values@.len()
                && forall|k: int| 0 <= k < v@.len() ==> normalized_path(values@[k]@, false) == Ok::<Seq<char>, DiagnosticModel>((#[trigger] v@[k])@),
            Err(e) => match crate::manifest::first_err(strs(values@).map_values(|x: Seq<char>| changed_file_problem(x)), 0) {
                Some(d) => crate::diagnostic::error_diagnostics(e) == seq![d],
                None => false,
            },
        },
{
    let ghost ps = strs(values@).map_values(|x: Seq<char>| changed_file_problem(x));
    let mut out: Vec<crate::domain::RepoRelativePath> = Vec::new();
    let mut i: usize = 0;
    while i < values.len()
        invariant
            i <= values.len(),
            ps == strs(values@).map_values(|x: Seq<char>| changed_file_problem(x)),
            crate::manifest::first_err(ps, 0) == crate::manifest::first_err(ps, i as int),
            out@.len() == i,
            forall|k: int| 0 <= k < i ==> normalized_path(values@[k]@, false) == Ok::<Seq<char>, DiagnosticModel>((#[trigger] out@[k])@),
        decreases values.len() - i,
    {
        assert(strs(values@)[i as int] == values@[i as int]@);
        match crate::domain::RepoRelativePath::new(values[i].as_str()) {
            Ok(p) => out.push(p),
            Err(d) => {
                let d = d.with_path(values[i].as_str()).with_help("changed files must be repo-relative paths without traversal");
                assert(ps[i as int] == Some(d@));
                return Err(RepoctlError::diagnostic(d));
            },
        }
        i = i + 1;
    }
    Ok(out)
}

/// Reads task arguments as task names.
pub fn parse_tasks(values: &Vec<String>) -> (r: Result<Vec<crate::domain::TaskName>, RepoctlError>)
    ensures
        match r {
            Ok(v) => crate::manifest::first_err(strs(values@).map_values(|x: Seq<char>| crate::check::ident_problem("task name"@, x, 64, false)), 0) is None
                && v@.len() == values@.len()
                && forall|k: int| 0 <= k < v@.len() ==> (#[trigger] v@[k])@ == values@[k]@,
            Err(e) => match crate::manifest::first_err(strs(values@).map_values(|x: Seq<char>| crate::check::ident_problem("task name"@, x, 64, false)), 0) {
                Some(d) => crate::diagnostic::error_diagnostics(e) == seq![d],
                None => false,
            },
        },
{
    let ghost ps = strs(values@).map_values(|x: Seq<char>| crate::check::ident_problem("task name"@, x, 64, false));
    let mut out: Vec<crate::domain::TaskName> = Vec::new();
    let mut i: usize = 0;
    while i < values.len()
        invariant
            i <= values.len(),
            ps == strs(values@).map_values(|x: Seq<char>| crate::check::ident_problem("task name"@, x, 64, false)),
            crate::manifest::first_err(ps, 0) == crate::manifest::first_err(ps, i as int),
            out@.len() == i,
            forall|k: int| 0 <= k < i ==> (#[trigger] out@[k])@ == values@[k]@,
        decreases values.len() - i,
    {
        assert(strs(values@)[i as int] == values@[i as int]@);
        match crate::domain::TaskName::new(values[i].as_str()) {
            Ok(t) => out.push(t),
            Err(d) => {
                assert(ps[i as int] == Some(d@));
                return Err(RepoctlError::diagnostic(d));
            },
        }
        i = i + 1;
    }
    Ok(out)
}

/// Reads project arguments as project names.
pub fn parse_projects(values: &Vec<String>) -> (r: Result<Vec<crate::domain::ProjectName>, RepoctlError>)
    ensures
        match r {
            Ok(v) => crate::manifest::first_err(strs(values@).map_values(|x: Seq<char>| crate::check::ident_problem("project name"@, x, 128, true)), 0) is None
                && v@.len() == values@.len()
                && forall|k: int| 0 <= k < v@.len() ==> (#[trigger] v@[k])@ == values@[k]@,
            Err(e) => match crate::manifest::first_err(strs(values@).map_values(|x: Seq<char>| crate::check::ident_problem("project name"@, x, 128, true)), 0) {
                Some(d) => crate::diagnostic::error_diagnostics(e) == seq![d],
                None => false,
            },
        },
{
    let ghost ps = strs(values@).map_values(|x: Seq<char>| crate::check::ident_problem("project name"@, x, 128, true));
    let mut out: Vec<crate::domain::ProjectName> = Vec::new();
    let mut i: usize = 0;
    while i < values.len()
        invariant
            i <= values.len(),
            ps == strs(values@).map_values(|x: Seq<char>| crate::check::ident_problem("project name"@, x, 128, true)),
            crate::manifest::first_err(ps, 0) == crate::manifest::first_err(ps, i as int),
            out@.len() == i,
            forall|k: int| 0 <= k < i ==> (#[trigger] out@[k])@ == values@[k]@,
        decreases values.len() - i,
    {
        assert(strs(values@)[i as int] == values@[i as int]@);
        match crate::domain::ProjectName::new(values[i].as_str()) {
            Ok(t) => out.push(t),
            Err(d) => {
                assert(ps[i as int] == Some(d@));
                return Err(RepoctlError::diagnostic(d));
            },
        }
        i = i + 1;
    }
    Ok(out)
}

/// Problem of a `project:workspace` selector.
pub open spec fn workspace_selector_problem(v: Seq<char>) -> Option<DiagnosticModel> {
    match crate::text::split_once_spec(v, ':') {
        None => Some(with_help_model(
            error_model("task.workspace.invalid"@, "workspace selectors must use project:workspace syntax"@),
            "example: --workspace apps.catalog:api"@,
        )),
        Some((p, w)) => crate::manifest::either(
            crate::check::ident_problem("project name"@, p, 128, true),
            crate::check::ident_problem("workspace name"@, w, 128, false),
        ),
    }
}

/// Checks `project:workspace` selectors.
pub fn parse_workspaces(values: &Vec<String>) -> (r: Result<Vec<String>, RepoctlError>)
    ensures
        match r {
            Ok(v) => crate::manifest::first_err(strs(values@).map_values(|x: Seq<char>| workspace_selector_problem(x)), 0) is None
                && strs(v@) == strs(values@),
            Err(e) => match crate::manifest::first_err(strs(values@).map_values(|x: Seq<char>| workspace_selector_problem(x)), 0) {
                Some(d) => crate::diagnostic::error_diagnostics(e) == seq![d],
                None => false,
            },
        },
{
    let ghost ps = strs(values@).map_values(|x: Seq<char>| workspace_selector_problem(x));
    let mut out: Vec<String> = Vec::new();
    let mut i: usize = 0;
    while i < values.len()
        invariant
            i <= values.len(),
            ps == strs(values@).map_values(|x: Seq<char>| workspace_selector_problem(x)),
            crate::manifest::first_err(ps, 0) == crate::manifest::first_err(ps, i as int),
            out@.len() == i,
            forall|k: int| 0 <= k < i ==> (#[trigger] out@[k])@ == values@[k]@,
        decreases values.len() - i,
    {
        assert(strs(values@)[i as int] == values@[i as int]@);
        let cs = chars_of(values[i].as_str());
        match crate::text::split_once_exec(&cs, ':') {
            None => {
                let d = Diagnostic::error("task.workspace.invalid", "workspace selectors must use project:workspace syntax")
                    .with_help("example: --workspace apps.catalog:api");
                assert(ps[i as int] == Some(d@));
                return Err(RepoctlError::diagnostic(d));
            },
            Some((p, w)) => {
                match crate::domain::ProjectName::new(string_of(&p).as_str()) {
                    Ok(_) => {},
                    Err(d) => {
                        assert(ps[i as int] == Some(d@));
                        return Err(RepoctlError::diagnostic(d));
                    },
                }
                match crate::domain::WorkspaceName::new(string_of(&w).as_str()) {
                    Ok(_) => {},
                    Err(d) => {
                        assert(ps[i as int] == Some(d@));
                        return Err(RepoctlError::diagnostic(d));
                    },
                }
            },
        }
        out.push(values[i].clone());
        i = i + 1;
    }
    assert(strs(out@) =~= strs(values@));
    Ok(out)
}

/// The two sides of `left=right`, or the error for a malformed assignment.
pub open spec fn assignment_spec(v: Seq<char>, code: Seq<char>, help: Seq<char>) -> Result<(Seq<char>, Seq<char>), DiagnosticModel> {
    match crate::text::split_once_spec(v, '=') {
        Some((l, r)) => if l.len() > 0 && r.len() > 0 {
            Ok((l, r))
        } else {
            Err(with_help_model(error_model(code, "invalid assignment `"@ + v + "`"@), help))
        },
        None => Err(with_help_model(error_model(code, "invalid assignment `"@ + v + "`"@), help)),
    }
}

/// Splits a `SOURCE=VALUE` argument; both sides must be non-empty.
pub fn parse_assignment(value: &str, code: &str, help: &str) -> (r: Result<(String, String), RepoctlError>)
    ensures
        match r {
            Ok((a, b)) => assignment_spec(value@, code@, help@) == Ok::<(Seq<char>, Seq<char>), DiagnosticModel>((a@, b@)),
            Err(e) => match assignment_spec(value@, code@, help@) {
                Err(d) => crate::diagnostic::error_diagnostics(e) == seq![d],
                Ok(_) => false,
            },
        },
{
    let cs = chars_of(value);
    match crate::text::split_once_exec(&cs, '=') {
        Some((l, r)) => {
            if l.len() > 0 && r.len() > 0 {
                return Ok((string_of(&l), string_of(&r)));
            }
        },
        None => {},
    }
    let mut msg = concat2("invalid assignment `", value);
    push_str(&mut msg, "`");
    Err(RepoctlError::diagnostic(Diagnostic::error(code, msg.as_str()).with_help(help)))
}

/// Result of reading a project kind argument.
pub open spec fn kind_arg_spec(v: Seq<char>) -> Result<ProjectKind, DiagnosticModel> {
    if v == "app"@ {
        Ok(ProjectKind::App)
    } else if v == "framework"@ {
        Ok(ProjectKind::Framework)
    } else if v == "foundation-service"@ {
        Ok(ProjectKind::FoundationService)
    } else if v == "proto-root"@ {
        Ok(ProjectKind::ProtoRoot)
    } else if v == "core-infra"@ {
        Ok(ProjectKind::CoreInfra)
    } else if v == "core-infra-component"@ {
        Ok(ProjectKind::CoreInfraComponent)
    } else if v == "tool"@ {
        Ok(ProjectKind::Tool)
    } else {
        Err(with_help_model(
            error_model("adoption.kind.invalid"@, "unsupported project kind `"@ + v + "`"@),
            "valid kinds: app, framework, foundation-service, core-infra-component, tool"@,
        ))
    }
}

/// Reads a project kind argument; every kind is accepted here.
pub fn parse_project_kind_arg(value: &str) -> (r: Result<ProjectKind, RepoctlError>)
    ensures
        match r {
            Ok(k) => kind_arg_spec(value@) == Ok::<ProjectKind, DiagnosticModel>(k),
            Err(e) => match kind_arg_spec(value@) {
                Err(d) => crate::diagnostic::error_diagnostics(e) == seq![d],
                Ok(_) => false,
            },
        },
{
    if crate::text::str_eq(value, "app") {
        Ok(ProjectKind::App)
    } else if crate::text::str_eq(value, "framework") {
        Ok(ProjectKind::Framework)
    } else if crate::text::str_eq(value, "foundation-service") {
        Ok(ProjectKind::FoundationService)
    } else if crate::text::str_eq(value, "proto-root") {
        Ok(ProjectKind::ProtoRoot)
    } else if crate::text::str_eq(value, "core-infra") {
        Ok(ProjectKind::CoreInfra)
    } else if crate::text::str_eq(value, "core-infra-component") {
        Ok(ProjectKind::CoreInfraComponent)
    } else if crate::text::str_eq(value, "tool") {
        Ok(ProjectKind::Tool)
    } else {
        let mut msg = concat2("unsupported project kind `", value);
        push_str(&mut msg, "`");
        Err(RepoctlError::diagnostic(
            Diagnostic::error("adoption.kind.invalid", msg.as_str())
                .with_help("valid kinds: app, framework, foundation-service, core-infra-component, tool"),
        ))
    }
}

/// The error for a template source in neither form.
pub open spec fn template_source_error() -> DiagnosticModel {
    with_help_model(
        error_model("template.source.invalid"@, "template source must use builtin:<name> or local:<repo-relative-path>"@),
        "example: repoctl template render builtin:app --input name=catalog"@,
    )
}

/// Reads a template source argument.
pub fn parse_template_source(value: &str) -> (r: Result<crate::domain::TemplateSource, RepoctlError>)
    ensures
        crate::text::has_prefix(value@, "builtin:"@) ==> (r matches Ok(crate::domain::TemplateSource::Builtin { name }) && name@ == value@.skip(8)),
        !crate::text::has_prefix(value@, "builtin:"@) && crate::text::has_prefix(value@, "local:"@) ==> match normalized_path(value@.skip(6), false) {
            Ok(p) => r matches Ok(crate::domain::TemplateSource::Local { root }) && root@ == p,
            Err(d) => r matches Err(e) && crate::diagnostic::error_diagnostics(e) == seq![d],
        },
        !crate::text::has_prefix(value@, "builtin:"@) && !crate::text::has_prefix(value@, "local:"@) ==> (r matches Err(e)
            && crate::diagnostic::error_diagnostics(e) == seq![template_source_error()]),
{
    let cs = chars_of(value);
    let builtin = chars_of("builtin:");
    let local = chars_of("local:");
    proof {
        reveal_strlit("builtin:");
        reveal_strlit("local:");
    }
    if crate::text::starts_with(&cs, &builtin) {
        let name = string_of(&crate::text::slice_chars(&cs, 8, cs.len()));
        assert(name@ =~= value@.skip(8));
        return Ok(crate::domain::TemplateSource::Builtin { name });
    }
    if crate::text::starts_with(&cs, &local) {
        let root = string_of(&crate::text::slice_chars(&cs, 6, cs.len()));
        assert(root@ =~= value@.skip(6));
        return match crate::domain::RepoRelativePath::new(root.as_str()) {
            Ok(p) => Ok(crate::domain::TemplateSource::Local { root: p }),
            Err(d) => Err(RepoctlError::diagnostic(d)),
        };
    }
    Err(RepoctlError::diagnostic(
        Diagnostic::error("template.source.invalid", "template source must use builtin:<name> or local:<repo-relative-path>")
            .with_help("example: repoctl template render builtin:app --input name=catalog"),
    ))
}

/// Characters allowed in template input keys.
pub open spec fn input_key_char(c: char) -> bool {
    crate::text::is_alnum(c) || c == '_'
}

/// The key and raw value of a `key=value` template input, or its error.
pub open spec fn template_input_spec(v: Seq<char>) -> Result<(Seq<char>, Seq<char>), DiagnosticModel> {
    match crate::text::split_once_spec(v, '=') {
        None => Err(with_help_model(
            error_model("template.input.invalid"@, "template input must use key=value syntax"@),
            "example: --input name=catalog"@,
        )),
        Some((k, raw)) => if k.len() == 0 || exists|i: int| 0 <= i < k.len() && !input_key_char(#[trigger] k[i]) {
            Err(error_model(
                "template.input.invalid_key"@,
                "template input keys may only contain ASCII letters, numbers, and underscore"@,
            ))
        } else {
            Ok((k, raw))
        },
    }
}

/// Splits a `key=value` template input and checks its key.
pub fn split_template_input(value: &str) -> (r: Result<(String, String), RepoctlError>)
    ensures
        match r {
            Ok((k, v)) => template_input_spec(value@) == Ok::<(Seq<char>, Seq<char>), DiagnosticModel>((k@, v@)),
            Err(e) => match template_input_spec(value@) {
                Err(d) => crate::diagnostic::error_diagnostics(e) == seq![d],
                Ok(_) => false,
            },
        },
{
    let cs = chars_of(value);
    let (k, raw) = match crate::text::split_once_exec(&cs, '=') {
        None => {
            return Err(RepoctlError::diagnostic(
                Diagnostic::error("template.input.invalid", "template input must use key=value syntax")
                    .with_help("example: --input name=catalog"),
            ));
        },
        Some(parts) => parts,
    };
    let mut ok = k.len() > 0;
    let mut i: usize = 0;
    while i < k.len()
        invariant
            i <= k.len(),
            ok == (k@.len() > 0 && forall|j: int| 0 <= j < i ==> input_key_char(#[trigger] k@[j])),
        decreases k.len() - i,
    {
        let c = k[i];
        let good = ('a' <= c && c <= 'z') || ('A' <= c && c <= 'Z') || ('0' <= c && c <= '9') || c == '_';
        if !good {
            assert(!input_key_char(k@[i as int]));
        }
        ok = ok && good;
        i = i + 1;
    }
    if !ok {
        return Err(RepoctlError::diagnostic(Diagnostic::error(
            "template.input.invalid_key",
            "template input keys may only contain ASCII letters, numbers, and underscore",
        )));
    }
    Ok((string_of(&k), string_of(&raw)))
}


// ---------------------------------------------------------------------------
// Adoption overrides
// ---------------------------------------------------------------------------

/// The first error among item results, in order.
pub open spec fn first_error<X>(rs: Seq<Result<X, DiagnosticModel>>) -> Option<DiagnosticModel>
    decreases rs.len(),
{
    if rs.len() == 0 {
        None
    } else {
        match first_error(rs.drop_last()) {
            Some(d) => Some(d),
            None => match rs.last() {
                Err(d) => Some(d),
                Ok(_) => None,
            },
        }
    }
}

/// A placement override `SOURCE=DEST`.
pub open spec fn path_override_spec(v: Seq<char>) -> Result<(Seq<char>, Seq<char>), DiagnosticModel> {
    match assignment_spec(v, "adoption.map.invalid"@, "use SOURCE=DEST, for example operon=frameworks/operon"@) {
        Err(d) => Err(d),
        Ok((source, target)) => match normalized_path(target, false) {
            Err(d) => Err(d),
            Ok(p) => Ok((source, p)),
        },
    }
}

/// A project-kind override `SOURCE=KIND`.
pub open spec fn kind_override_spec(v: Seq<char>) -> Result<(Seq<char>, ProjectKind), DiagnosticModel> {
    match assignment_spec(v, "adoption.kind.invalid"@, "use SOURCE=KIND, for example skills=tool"@) {
        Err(d) => Err(d),
        Ok((source, kind)) => match kind_arg_spec(kind) {
            Err(d) => Err(d),
            Ok(k) => Ok((source, k)),
        },
    }
}

/// An owner override `SOURCE=@owner`.
pub open spec fn owner_override_spec(v: Seq<char>) -> Result<(Seq<char>, Seq<char>), DiagnosticModel> {
    match assignment_spec(v, "adoption.owner.invalid"@, "use SOURCE=@owner, for example operon=@platform"@) {
        Err(d) => Err(d),
        Ok((source, owner)) => match crate::domain::owner_problem(owner) {
            Some(d) => Err(d),
            None => Ok((source, owner)),
        },
    }
}

proof fn lemma_first_error_push<X>(rs: Seq<Result<X, DiagnosticModel>>, r: Result<X, DiagnosticModel>)
    requires
        first_error(rs) is None,
    ensures
        first_error(rs.push(r)) == match r {
            Err(d) => Some(d),
            Ok(_) => None::<DiagnosticModel>,
        },
{
    assert(rs.push(r).drop_last() =~= rs);
}

proof fn lemma_first_error_extends<X>(rs: Seq<Result<X, DiagnosticModel>>, k: int)
    requires
        0 <= k <= rs.len(),
        first_error(rs.subrange(0, k)) is Some,
    ensures
        first_error(rs) == first_error(rs.subrange(0, k)),
    decreases rs.len() - k,
{
    if k == rs.len() {
        assert(rs.subrange(0, k) =~= rs);
    } else {
        assert(rs.subrange(0, k + 1).drop_last() =~= rs.subrange(0, k));
        lemma_first_error_extends(rs, k + 1);
    }
}

/// Reads placement overrides, in order; the first malformed one is the
/// error.
pub fn parse_path_overrides(values: &Vec<String>) -> (r: Result<Vec<(String, crate::domain::RepoRelativePath)>, RepoctlError>)
    ensures
        match r {
            Ok(es) => first_error(strs(values@).map_values(|v: Seq<char>| path_override_spec(v))) is None
                && es@.len() == values@.len()
                && forall|k: int| 0 <= k < es@.len() ==> path_override_spec(values@[k]@) == Ok::<(Seq<char>, Seq<char>), DiagnosticModel>(((#[trigger] es@[k]).0@, es@[k].1@)),
            Err(e) => match first_error(strs(values@).map_values(|v: Seq<char>| path_override_spec(v))) {
                Some(d) => crate::diagnostic::error_diagnostics(e) == seq![d],
                None => false,
            },
        },
{
    let ghost rs = strs(values@).map_values(|v: Seq<char>| path_override_spec(v));
    let mut out: Vec<(String, crate::domain::RepoRelativePath)> = Vec::new();
    let mut i: usize = 0;
    assert(rs.subrange(0, 0) =~= Seq::<Result<(Seq<char>, Seq<char>), DiagnosticModel>>::empty());
    while i < values.len()
        invariant
            i <= values.len(),
            rs == strs(values@).map_values(|v: Seq<char>| path_override_spec(v)),
            first_error(rs.subrange(0, i as int)) is None,
            out@.len() == i,
            forall|k: int| 0 <= k < i ==> path_override_spec(values@[k]@) == Ok::<(Seq<char>, Seq<char>), DiagnosticModel>(((#[trigger] out@[k]).0@, out@[k].1@)),
        decreases values.len() - i,
    {
        assert(rs.subrange(0, i as int + 1) =~= rs.subrange(0, i as int).push(rs[i as int]));
        assert(rs[i as int] == path_override_spec(values@[i as int]@));
        proof {
            lemma_first_error_push(rs.subrange(0, i as int), rs[i as int]);
        }
        let (source, target) = match parse_assignment(values[i].as_str(), "adoption.map.invalid", "use SOURCE=DEST, for example operon=frameworks/operon") {
            Ok(pair) => pair,
            Err(e) => {
                proof {
                    lemma_first_error_extends(rs, i as int + 1);
                }
                return Err(e);
            },
        };
        match crate::domain::RepoRelativePath::new(target.as_str()) {
            Ok(p) => {
                out.push((source, p));
            },
            Err(d) => {
                proof {
                    lemma_first_error_extends(rs, i as int + 1);
                }
                let e = RepoctlError::diagnostic(d);
                assert(crate::diagnostic::error_diagnostics(e) =~= seq![d@]);
                return Err(e);
            },
        }
        i = i + 1;
    }
    assert(rs.subrange(0, values.len() as int) =~= rs);
    Ok(out)
}

/// Reads project-kind overrides, in order; the first malformed one is the
/// error.
pub fn parse_kind_overrides(values: &Vec<String>) -> (r: Result<Vec<(String, ProjectKind)>, RepoctlError>)
    ensures
        match r {
            Ok(es) => first_error(strs(values@).map_values(|v: Seq<char>| kind_override_spec(v))) is None
                && es@.len() == values@.len()
                && forall|k: int| 0 <= k < es@.len() ==> kind_override_spec(values@[k]@) == Ok::<(Seq<char>, ProjectKind), DiagnosticModel>(((#[trigger] es@[k]).0@, es@[k].1)),
            Err(e) => match first_error(strs(values@).map_values(|v: Seq<char>| kind_override_spec(v))) {
                Some(d) => crate::diagnostic::error_diagnostics(e) == seq![d],
                None => false,
            },
        },
{
    let ghost rs = strs(values@).map_values(|v: Seq<char>| kind_override_spec(v));
    let mut out: Vec<(String, ProjectKind)> = Vec::new();
    let mut i: usize = 0;
    assert(rs.subrange(0, 0) =~= Seq::<Result<(Seq<char>, ProjectKind), DiagnosticModel>>::empty());
    while i < values.len()
        invariant
            i <= values.len(),
            rs == strs(values@).map_values(|v: Seq<char>| kind_override_spec(v)),
            first_error(rs.subrange(0, i as int)) is None,
            out@.len() == i,
            forall|k: int| 0 <= k < i ==> kind_override_spec(values@[k]@) == Ok::<(Seq<char>, ProjectKind), DiagnosticModel>(((#[trigger] out@[k]).0@, out@[k].1)),
        decreases values.len() - i,
    {
        assert(rs.subrange(0, i as int + 1) =~= rs.subrange(0, i as int).push(rs[i as int]));
        assert(rs[i as int] == kind_override_spec(values@[i as int]@));
        proof {
            lemma_first_error_push(rs.subrange(0, i as int), rs[i as int]);
        }
        let (source, kind) = match parse_assignment(values[i].as_str(), "adoption.kind.invalid", "use SOURCE=KIND, for example skills=tool") {
            Ok(pair) => pair,
            Err(e) => {
                proof {
                    lemma_first_error_extends(rs, i as int + 1);
                }
                return Err(e);
            },
        };
        match parse_project_kind_arg(kind.as_str()) {
            Ok(k) => {
                out.push((source, k));
            },
            Err(e) => {
                proof {
                    lemma_first_error_extends(rs, i as int + 1);
                }
                return Err(e);
            },
        }
        i = i + 1;
    }
    assert(rs.subrange(0, values.len() as int) =~= rs);
    Ok(out)
}

/// Reads owner overrides, in order; the first malformed one is the error.
pub fn parse_owner_overrides(values: &Vec<String>) -> (r: Result<Vec<(String, crate::domain::OwnerHandle)>, RepoctlError>)
    ensures
        match r {
            Ok(es) => first_error(strs(values@).map_values(|v: Seq<char>| owner_override_spec(v))) is None
                && es@.len() == values@.len()
                && forall|k: int| 0 <= k < es@.len() ==> owner_override_spec(values@[k]@) == Ok::<(Seq<char>, Seq<char>), DiagnosticModel>(((#[trigger] es@[k]).0@, es@[k].1@)),
            Err(e) => match first_error(strs(values@).map_values(|v: Seq<char>| owner_override_spec(v))) {
                Some(d) => crate::diagnostic::error_diagnostics(e) == seq![d],
                None => false,
            },
        },
{
    let ghost rs = strs(values@).map_values(|v: Seq<char>| owner_override_spec(v));
    let mut out: Vec<(String, crate::domain::OwnerHandle)> = Vec::new();
    let mut i: usize = 0;
    assert(rs.subrange(0, 0) =~= Seq::<Result<(Seq<char>, Seq<char>), DiagnosticModel>>::empty());
    while i < values.len()
        invariant
            i <= values.len(),
            rs == strs(values@).map_values(|v: Seq<char>| owner_override_spec(v)),
            first_error(rs.subrange(0, i as int)) is None,
            out@.len() == i,
            forall|k: int| 0 <= k < i ==> owner_override_spec(values@[k]@) == Ok::<(Seq<char>, Seq<char>), DiagnosticModel>(((#[trigger] out@[k]).0@, out@[k].1@)),
        decreases values.len() - i,
    {
        assert(rs.subrange(0, i as int + 1) =~= rs.subrange(0, i as int).push(rs[i as int]));
        assert(rs[i as int] == owner_override_spec(values@[i as int]@));
        proof {
            lemma_first_error_push(rs.subrange(0, i as int), rs[i as int]);
        }
        let (source, owner) = match parse_assignment(values[i].as_str(), "adoption.owner.invalid", "use SOURCE=@owner, for example operon=@platform") {
            Ok(pair) => pair,
            Err(e) => {
                proof {
                    lemma_first_error_extends(rs, i as int + 1);
                }
                return Err(e);
            },
        };
        match crate::domain::OwnerHandle::new(owner.as_str()) {
            Ok(o) => {
                out.push((source, o));
            },
            Err(d) => {
                proof {
                    lemma_first_error_extends(rs, i as int + 1);
                }
                let e = RepoctlError::diagnostic(d);
                assert(crate::diagnostic::error_diagnostics(e) =~= seq![d@]);
                return Err(e);
            },
        }
        i = i + 1;
    }
    assert(rs.subrange(0, values.len() as int) =~= rs);
    Ok(out)
}

/// Output format chosen on the command line.
#[derive(Clone, Copy, Debug, PartialEq, Eq, Structural)]
pub enum OutputFormat {
    /// Text for people.
    Human,
    /// JSON for automation.
    Json,
    /// GitHub Actions payloads.
    GithubActions,
}

/// The adoption report format for an output format.
pub fn adoption_output_format(format: OutputFormat) -> (r: crate::requests::AdoptionOutputFormat)
    ensures
        r == match format {
            OutputFormat::Human => crate::requests::AdoptionOutputFormat::Human,
            OutputFormat::Json => crate::requests::AdoptionOutputFormat::Json,
            OutputFormat::GithubActions => crate::requests::AdoptionOutputFormat::GitHubActions,
        },
{
    match format {
        OutputFormat::Human => crate::requests::AdoptionOutputFormat::Human,
        OutputFormat::Json => crate::requests::AdoptionOutputFormat::Json,
        OutputFormat::GithubActions => crate::requests::AdoptionOutputFormat::GitHubActions,
    }
}

} // verus!

verus! {

// ---------------------------------------------------------------------------
// Template input values
// ---------------------------------------------------------------------------

/// The value of a template input given on the command line.
#[derive(Clone, Debug, PartialEq, Eq)]
pub enum TemplateInputValue {
    /// `true` or `false`.
    Bool(bool),
    /// A decimal integer that fits in 64 signed bits.
    Integer(i64),
    /// Any other text.
    Text(String),
}

/// The abstract value of a template input value.
pub enum InputValueModel {
    Bool(bool),
    Integer(int),
    Text(Seq<char>),
}

impl View for TemplateInputValue {
    type V = InputValueModel;

    open spec fn view(&self) -> InputValueModel {
        match self {
            TemplateInputValue::Bool(b) => InputValueModel::Bool(*b),
            TemplateInputValue::Integer(n) => InputValueModel::Integer(*n as int),
            TemplateInputValue::Text(s) => InputValueModel::Text(s@),
        }
    }
}

/// The number a non-empty run of decimal digits stands for.
pub open spec fn digits_value(d: Seq<char>) -> int
    decreases d.len(),
{
    if d.len() == 0 {
        0
    } else {
        digits_value(d.drop_last()) * 10 + (d.last() as int - '0' as int)
    }
}

/// A non-empty run of decimal digits.
pub open spec fn all_digits(d: Seq<char>) -> bool {
    d.len() > 0 && forall|i: int| 0 <= i < d.len() ==> crate::text::is_digit(#[trigger] d[i])
}

/// The integer a text spells as `i64::from_str` reads it: an optional `+` or
/// `-`, then decimal digits, within the 64-bit signed range.
pub open spec fn i64_text(s: Seq<char>) -> Option<int> {
    let d = s.skip(sign_len(s));
    if !all_digits(d) {
        None
    } else {
        let v = if s.len() > 0 && s[0] == '-' { -digits_value(d) } else { digits_value(d) };
        if i64::MIN <= v && v <= i64::MAX {
            Some(v)
        } else {
            None
        }
    }
}

/// The length of a leading `+` or `-`.
pub open spec fn sign_len(s: Seq<char>) -> int {
    if s.len() > 0 && (s[0] == '-' || s[0] == '+') {
        1
    } else {
        0
    }
}

/// A template input value: `true` and `false` are booleans, integer text is
/// a number, anything else stays text.
pub open spec fn input_value(s: Seq<char>) -> InputValueModel {
    if s == "true"@ {
        InputValueModel::Bool(true)
    } else if s == "false"@ {
        InputValueModel::Bool(false)
    } else {
        match i64_text(s) {
            Some(n) => InputValueModel::Integer(n),
            None => InputValueModel::Text(s),
        }
    }
}

proof fn lemma_digits_grow(d: Seq<char>, k: int)
    requires
        0 <= k <= d.len(),
        forall|i: int| 0 <= i < d.len() ==> crate::text::is_digit(#[trigger] d[i]),
    ensures
        0 <= digits_value(d.subrange(0, k)) <= digits_value(d),
    decreases d.len() - k,
{
    if k == d.len() {
        assert(d.subrange(0, k) =~= d);
        lemma_digits_nonneg(d);
    } else {
        let a = d.subrange(0, k);
        let b = d.subrange(0, k + 1);
        assert(b.drop_last() =~= a);
        assert(crate::text::is_digit(b.last()));
        lemma_digits_nonneg(a);
        lemma_digits_grow(d, k + 1);
    }
}

proof fn lemma_digits_nonneg(d: Seq<char>)
    requires
        forall|i: int| 0 <= i < d.len() ==> crate::text::is_digit(#[trigger] d[i]),
    ensures
        digits_value(d) >= 0,
    decreases d.len(),
{
    if d.len() > 0 {
        assert(crate::text::is_digit(d.last()));
        lemma_digits_nonneg(d.drop_last());
    }
}

/// Reads an integer as `i64::from_str` does.
fn parse_i64(s: &Vec<char>) -> (r: Option<i64>)
    ensures
        match r {
            Some(n) => i64_text(s@) == Some(n as int),
            None => i64_text(s@) is None,
        },
{
    let negative = s.len() > 0 && s[0] == '-';
    let start: usize = if s.len() > 0 && (s[0] == '-' || s[0] == '+') { 1 } else { 0 };
    let ghost d = s@.skip(start as int);
    assert(start == sign_len(s@));
    if start >= s.len() {
        assert(d.len() == 0);
        return None;
    }
    let limit: i128 = if negative { 9223372036854775808 } else { 9223372036854775807 };
    let mut acc: i128 = 0;
    let mut i: usize = start;
    while i < s.len()
        invariant
            start <= i <= s.len(),
            start < s.len(),
            start == sign_len(s@),
            negative == (s@.len() > 0 && s@[0] == '-'),
            d == s@.skip(start as int),
            limit == (if negative { 9223372036854775808i128 } else { 9223372036854775807i128 }),
            0 <= acc <= limit,
            acc == digits_value(d.subrange(0, i - start)),
            forall|j: int| 0 <= j < i - start ==> crate::text::is_digit(#[trigger] d[j]),
        decreases s.len() - i,
    {
        let c = s[i];
        assert(d[i - start] == c);
        if !('0' <= c && c <= '9') {
            assert(!crate::text::is_digit(d[i - start]));
            assert(!all_digits(d));
            return None;
        }
        let digit: i128 = (c as u32 - '0' as u32) as i128;
        assert(d.subrange(0, i - start + 1).drop_last() =~= d.subrange(0, i - start));
        assert(d.subrange(0, i - start + 1).last() == c);
        let next: i128 = acc * 10 + digit;
        if next > limit {
            proof {
                if all_digits(d) {
                    lemma_digits_grow(d, i - start + 1);
                }
            }
            return None;
        }
        acc = next;
        i = i + 1;
    }
    assert(d.subrange(0, d.len() as int) =~= d);
    assert(all_digits(d));
    let value: i64 = if negative { (-acc) as i64 } else { acc as i64 };
    Some(value)
}

} // verus!

verus! {

/// Reads the value of a template input.
pub fn parse_template_input_value(value: &str) -> (r: TemplateInputValue)
    ensures
        r@ == input_value(value@),
{
    proof {
        reveal_strlit("true");
        reveal_strlit("false");
    }
    if str_eq_lit(value, "true") {
        return TemplateInputValue::Bool(true);
    }
    if str_eq_lit(value, "false") {
        return TemplateInputValue::Bool(false);
    }
    match parse_i64(&chars_of(value)) {
        Some(n) => TemplateInputValue::Integer(n),
        None => TemplateInputValue::Text(owned(value)),
    }
}

fn str_eq_lit(a: &str, b: &str) -> (r: bool)
    ensures
        r == (a@ == b@),
{
    crate::text::str_eq(a, b)
}

/// A template input `key=value`: its checked key and its value.
pub open spec fn template_input_entry(v: Seq<char>) -> Result<(Seq<char>, InputValueModel), DiagnosticModel> {
    match template_input_spec(v) {
        Err(d) => Err(d),
        Ok((k, raw)) => Ok((k, input_value(raw))),
    }
}

/// Reads template inputs, in order; the first malformed one is the error.
/// A later input with the same key takes the place of an earlier one where
/// the inputs are gathered by key.
pub fn parse_template_inputs(values: &Vec<String>) -> (r: Result<Vec<(String, TemplateInputValue)>, RepoctlError>)
    ensures
        match r {
            Ok(es) => first_error(strs(values@).map_values(|v: Seq<char>| template_input_entry(v))) is None
                && es@.len() == values@.len()
                && forall|k: int| 0 <= k < es@.len() ==> template_input_entry(values@[k]@)
                    == Ok::<(Seq<char>, InputValueModel), DiagnosticModel>(((#[trigger] es@[k]).0@, es@[k].1@)),
            Err(e) => match first_error(strs(values@).map_values(|v: Seq<char>| template_input_entry(v))) {
                Some(d) => crate::diagnostic::error_diagnostics(e) == seq![d],
                None => false,
            },
        },
{
    let ghost rs = strs(values@).map_values(|v: Seq<char>| template_input_entry(v));
    let mut out: Vec<(String, TemplateInputValue)> = Vec::new();
    let mut i: usize = 0;
    assert(rs.subrange(0, 0) =~= Seq::<Result<(Seq<char>, InputValueModel), DiagnosticModel>>::empty());
    while i < values.len()
        invariant
            i <= values.len(),
            rs == strs(values@).map_values(|v: Seq<char>| template_input_entry(v)),
            first_error(rs.subrange(0, i as int)) is None,
            out@.len() == i,
            forall|k: int| 0 <= k < i ==> template_input_entry(values@[k]@)
                == Ok::<(Seq<char>, InputValueModel), DiagnosticModel>(((#[trigger] out@[k]).0@, out@[k].1@)),
        decreases values.len() - i,
    {
        assert(rs.subrange(0, i as int + 1) =~= rs.subrange(0, i as int).push(rs[i as int]));
        assert(rs[i as int] == template_input_entry(values@[i as int]@));
        proof {
            lemma_first_error_push(rs.subrange(0, i as int), rs[i as int]);
        }
        match split_template_input(values[i].as_str()) {
            Ok((key, raw)) => {
                let v = parse_template_input_value(raw.as_str());
                out.push((key, v));
            },
            Err(e) => {
                proof {
                    lemma_first_error_extends(rs, i as int + 1);
                }
                return Err(e);
            },
        }
        i = i + 1;
    }
    assert(rs.subrange(0, values.len() as int) =~= rs);
    Ok(out)
}

// ---------------------------------------------------------------------------
// Exit codes
// ---------------------------------------------------------------------------

/// The exit status of a command that failed with an error: 4 for an
/// internal error, 3 for the environment or I/O, 1 for diagnostics.
pub open spec fn error_exit_status(e: RepoctlError) -> u8 {
    match e {
        RepoctlError::Internal(_) => 4,
        RepoctlError::Environment(_) | RepoctlError::Io { .. } => 3,
        RepoctlError::Diagnostic { .. } | RepoctlError::Diagnostics { .. } => 1,
    }
}

/// The exit status of a command that failed with an error.
pub fn error_exit_code(error: &RepoctlError) -> (r: u8)
    ensures
        r == error_exit_status(*error),
{
    match error {
        RepoctlError::Internal(_) => 4,
        RepoctlError::Environment(_) | RepoctlError::Io { .. } => 3,
        RepoctlError::Diagnostic { .. } | RepoctlError::Diagnostics { .. } => 1,
    }
}

/// The exit status of a command that reported diagnostics: 1 when one is an
/// error, else 0.
pub fn diagnostics_exit_code(diagnostics: &Vec<Diagnostic>) -> (r: u8)
    ensures
        r == (if crate::diagnostic::has_error(diagnostics@) { 1u8 } else { 0u8 }),
{
    let mut i: usize = 0;
    while i < diagnostics.len()
        invariant
            i <= diagnostics.len(),
            forall|k: int| 0 <= k < i ==> diagnostics@[k].severity != Severity::Error,
        decreases diagnostics.len() - i,
    {
        if diagnostics[i].severity == Severity::Error {
            return 1;
        }
        i = i + 1;
    }
    0
}

} // verus!
