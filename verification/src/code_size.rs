//! Code-size rules: the findings for one scanned source file.
use vstd::prelude::*;

use crate::diagnostic::{Diagnostic, DiagnosticModel, copy_opt, error_model, models, opt_view};
use crate::domain::{ProjectName, RepoRelativePath};
use crate::inspect::effective_count;
use crate::text::{decimal, decimal_exec, owned, push_chars, push_str, seq_lt, str_lt, strs};

verus! {

/// The kind of a code-size rule.
#[derive(Clone, Copy, Debug, PartialEq, Eq, Structural)]
pub enum CodeSizeRuleKind {
    /// Whole-file effective lines.
    File,
    /// Function-like spans.
    Function,
    /// Block spans.
    Block,
}

/// The kind of a syntax span found in a source file.
#[derive(Clone, Copy, Debug, PartialEq, Eq, Structural)]
pub enum SyntaxSpanKind {
    /// A function-like item.
    Function,
    /// A block.
    Block,
    /// A comment.
    Comment,
    /// A test item.
    Test,
}

/// A syntax span: its kind, node kind, symbol, lines (from 1) and bytes.
#[derive(Clone, Debug)]
pub struct SyntaxSpan {
    /// Span kind.
    pub kind: SyntaxSpanKind,
    /// Syntax node kind.
    pub node_kind: String,
    /// Enclosing symbol, when known.
    pub symbol: Option<String>,
    /// First line, from 1.
    pub start_line: u32,
    /// Last line.
    pub end_line: u32,
    /// First byte.
    pub start_byte: usize,
    /// Byte after the last.
    pub end_byte: usize,
}

/// A code-size rule as it applies to one file.
#[derive(Clone, Debug)]
pub struct CodeSizeRule {
    /// Whether the rule runs.
    pub enabled: bool,
    /// Largest allowed size, at least 1.
    pub max_lines: u32,
    /// Whether test code counts.
    pub include_tests: bool,
    /// Severity reported, as text.
    pub severity: String,
}

/// A code-size finding.
#[derive(Clone, Debug)]
pub struct CodeSizeFinding {
    /// Rule broken.
    pub rule: CodeSizeRuleKind,
    /// Severity, as text.
    pub severity: String,
    /// File path.
    pub path: RepoRelativePath,
    /// Project holding the file.
    pub project: Option<ProjectName>,
    /// File language, as text.
    pub language: String,
    /// Symbol, when known.
    pub symbol: Option<String>,
    /// Syntax node kind.
    pub node_kind: Option<String>,
    /// First line.
    pub start_line: u32,
    /// Last line.
    pub end_line: u32,
    /// Lines measured.
    pub measured_lines: u32,
    /// Physical lines of the file, for file findings.
    pub physical_lines: Option<u32>,
    /// Limit broken.
    pub limit: u32,
    /// Human-readable message.
    pub message: String,
}

/// A finding as plain values.
pub struct FindingModel {
    pub rule: CodeSizeRuleKind,
    pub severity: Seq<char>,
    pub path: Seq<char>,
    pub project: Option<Seq<char>>,
    pub language: Seq<char>,
    pub symbol: Option<Seq<char>>,
    pub node_kind: Option<Seq<char>>,
    pub start_line: u32,
    pub end_line: u32,
    pub measured_lines: u32,
    pub physical_lines: Option<u32>,
    pub limit: u32,
    pub message: Seq<char>,
}

impl View for CodeSizeFinding {
    type V = FindingModel;

    open spec fn view(&self) -> FindingModel {
        FindingModel {
            rule: self.rule,
            severity: self.severity@,
            path: self.path@,
            project: match self.project {
                Some(p) => Some(p@),
                None => None,
            },
            language: self.language@,
            symbol: opt_view(self.symbol),
            node_kind: opt_view(self.node_kind),
            start_line: self.start_line,
            end_line: self.end_line,
            measured_lines: self.measured_lines,
            physical_lines: self.physical_lines,
            limit: self.limit,
            message: self.message@,
        }
    }
}

/// Everything the rules read about one scanned file: the rules resolved
/// for its path, the rule kinds asked for (all when none), the file and its
/// bytes, physical lines, whether it is a test path, whether parsing met an
/// error, and its syntax spans.
#[derive(Clone, Debug)]
pub struct RuleEvaluation {
    /// Rule kinds asked for; empty asks for all.
    pub requested: Vec<CodeSizeRuleKind>,
    /// The file rule for this path.
    pub file_rule: CodeSizeRule,
    /// The function rule for this path.
    pub function_rule: CodeSizeRule,
    /// The block rule for this path.
    pub block_rule: CodeSizeRule,
    /// File path.
    pub path: RepoRelativePath,
    /// Project holding the file.
    pub project: Option<ProjectName>,
    /// File language, as text.
    pub language: String,
    /// File bytes.
    pub bytes: Vec<u8>,
    /// Physical line count.
    pub physical_lines: u32,
    /// Whether the file is a test file.
    pub test_path: bool,
    /// Whether the parse met an error.
    pub has_error: bool,
    /// Syntax spans.
    pub spans: Vec<SyntaxSpan>,
}

/// Whether a rule kind is asked for.
pub open spec fn requested(ks: Seq<CodeSizeRuleKind>, k: CodeSizeRuleKind) -> bool {
    ks.len() == 0 || ks.contains(k)
}

/// The rule of a kind.
pub open spec fn rule_of(e: RuleEvaluation, k: CodeSizeRuleKind) -> CodeSizeRule {
    match k {
        CodeSizeRuleKind::File => e.file_rule,
        CodeSizeRuleKind::Function => e.function_rule,
        CodeSizeRuleKind::Block => e.block_rule,
    }
}

/// A count as a line number: 0 reads as 1.
pub open spec fn line_number(n: u32) -> u32 {
    if n == 0 { 1 } else { n }
}

/// The byte ranges left out of the file count: comments, and tests when
/// tests do not count.
pub open spec fn file_exclusions(spans: Seq<SyntaxSpan>, include_tests: bool) -> Seq<(usize, usize)>
    decreases spans.len(),
{
    if spans.len() == 0 {
        Seq::empty()
    } else {
        let s = spans.last();
        file_exclusions(spans.drop_last(), include_tests) + if s.kind == SyntaxSpanKind::Comment
            || (!include_tests && s.kind == SyntaxSpanKind::Test) {
            seq![(s.start_byte, s.end_byte)]
        } else {
            Seq::empty()
        }
    }
}

/// The file's effective line count under its rule.
pub open spec fn file_count(e: RuleEvaluation) -> nat {
    effective_count(e.bytes@, file_exclusions(e.spans@, e.file_rule.include_tests))
}

/// The message of a finding.
pub open spec fn finding_message(k: CodeSizeRuleKind, symbol: Option<Seq<char>>, node_kind: Seq<char>, measured: nat, max: nat) -> Seq<char> {
    let tail = " lines, limit "@ + decimal(max);
    match k {
        CodeSizeRuleKind::File => "file has "@ + decimal(measured) + " effective LOC, limit "@ + decimal(max),
        CodeSizeRuleKind::Function => match symbol {
            Some(s) => "function "@ + s + " spans "@ + decimal(measured) + tail,
            None => "function-like `"@ + node_kind + "` spans "@ + decimal(measured) + tail,
        },
        CodeSizeRuleKind::Block => match symbol {
            Some(s) => "block in "@ + s + " spans "@ + decimal(measured) + tail,
            None => "block `"@ + node_kind + "` spans "@ + decimal(measured) + tail,
        },
    }
}

/// The whole-file finding, when the file rule is asked for, runs on this
/// file, and the effective count is over its limit.
pub open spec fn file_findings(e: RuleEvaluation) -> Seq<FindingModel> {
    let r = e.file_rule;
    if requested(e.requested@, CodeSizeRuleKind::File) && r.enabled && (r.include_tests || !e.test_path)
        && file_count(e) <= u32::MAX && file_count(e) > r.max_lines {
        seq![FindingModel {
            rule: CodeSizeRuleKind::File,
            severity: r.severity@,
            path: e.path@,
            project: match e.project { Some(p) => Some(p@), None => None },
            language: e.language@,
            symbol: None,
            node_kind: Some("source_file"@),
            start_line: 1,
            end_line: line_number(e.physical_lines),
            measured_lines: file_count(e) as u32,
            physical_lines: Some(line_number(e.physical_lines)),
            limit: r.max_lines,
            message: finding_message(CodeSizeRuleKind::File, None, Seq::empty(), file_count(e), r.max_lines as nat),
        }]
    } else {
        Seq::empty()
    }
}

/// A span lies inside a test span.
pub open spec fn in_test_range(s: SyntaxSpan, spans: Seq<SyntaxSpan>) -> bool {
    exists|k: int| 0 <= k < spans.len() && (#[trigger] spans[k]).kind == SyntaxSpanKind::Test
        && s.start_byte >= spans[k].start_byte && s.end_byte <= spans[k].end_byte
}

/// Lines a span covers.
pub open spec fn span_lines(s: SyntaxSpan) -> nat {
    (if s.end_line >= s.start_line { s.end_line - s.start_line } else { 0int }) as nat + 1
}

/// The finding for one span, if any.
pub open spec fn span_finding(e: RuleEvaluation, s: SyntaxSpan) -> Seq<FindingModel> {
    let k = match s.kind {
        SyntaxSpanKind::Function => Some(CodeSizeRuleKind::Function),
        SyntaxSpanKind::Block => Some(CodeSizeRuleKind::Block),
        _ => None,
    };
    match k {
        None => Seq::empty(),
        Some(k) => {
            let r = rule_of(e, k);
            if requested(e.requested@, k) && r.enabled && !((e.test_path || in_test_range(s, e.spans@)) && !r.include_tests)
                && span_lines(s) > r.max_lines {
                seq![FindingModel {
                    rule: k,
                    severity: r.severity@,
                    path: e.path@,
                    project: match e.project { Some(p) => Some(p@), None => None },
                    language: e.language@,
                    symbol: opt_view(s.symbol),
                    node_kind: Some(s.node_kind@),
                    start_line: s.start_line,
                    end_line: s.end_line,
                    measured_lines: span_lines(s) as u32,
                    physical_lines: None,
                    limit: r.max_lines,
                    message: finding_message(k, opt_view(s.symbol), s.node_kind@, span_lines(s), r.max_lines as nat),
                }]
            } else {
                Seq::empty()
            }
        },
    }
}

/// The findings of the spans, in order.
pub open spec fn span_findings(e: RuleEvaluation, spans: Seq<SyntaxSpan>) -> Seq<FindingModel>
    decreases spans.len(),
{
    if spans.len() == 0 {
        Seq::empty()
    } else {
        span_findings(e, spans.drop_last()) + span_finding(e, spans.last())
    }
}

/// Every finding for a file: the whole-file one, then, unless parsing met an
/// error, those of its function and block spans in order.
pub open spec fn code_size_findings(e: RuleEvaluation) -> Seq<FindingModel> {
    file_findings(e) + if e.has_error { Seq::empty() } else { span_findings(e, e.spans@) }
}

/// The views of findings.
pub open spec fn finding_views(v: Seq<CodeSizeFinding>) -> Seq<FindingModel> {
    v.map_values(|f: CodeSizeFinding| f@)
}

fn is_requested(ks: &Vec<CodeSizeRuleKind>, k: CodeSizeRuleKind) -> (r: bool)
    ensures
        r == requested(ks@, k),
{
    if ks.len() == 0 {
        return true;
    }
    let mut i: usize = 0;
    while i < ks.len()
        invariant
            i <= ks.len(),
            forall|j: int| 0 <= j < i ==> ks@[j] != k,
        decreases ks.len() - i,
    {
        if ks[i] == k {
            assert(ks@[i as int] == k);
            return true;
        }
        i = i + 1;
    }
    false
}

fn copy_path(p: &RepoRelativePath) -> (r: RepoRelativePath)
    ensures
        r@ == p@,
{
    p.duplicate()
}

fn copy_project(p: &Option<ProjectName>) -> (r: Option<ProjectName>)
    ensures
        (match r { Some(x) => Some(x@), None => None::<Seq<char>> })
            == (match *p { Some(x) => Some(x@), None => None::<Seq<char>> }),
{
    match p {
        Some(x) => Some(x.duplicate()),
        None => None,
    }
}

fn message_exec(k: CodeSizeRuleKind, symbol: &Option<String>, node_kind: &str, measured: u32, max: u32) -> (r: String)
    ensures
        r@ == finding_message(k, opt_view(*symbol), node_kind@, measured as nat, max as nat),
{
    let mut m = String::new();
    match k {
        CodeSizeRuleKind::File => {
            push_str(&mut m, "file has ");
            push_chars(&mut m, &decimal_exec(measured as usize));
            push_str(&mut m, " effective LOC, limit ");
            push_chars(&mut m, &decimal_exec(max as usize));
            return m;
        },
        CodeSizeRuleKind::Function => match symbol {
            Some(s) => {
                push_str(&mut m, "function ");
                push_str(&mut m, s.as_str());
                push_str(&mut m, " spans ");
            },
            None => {
                push_str(&mut m, "function-like `");
                push_str(&mut m, node_kind);
                push_str(&mut m, "` spans ");
            },
        },
        CodeSizeRuleKind::Block => match symbol {
            Some(s) => {
                push_str(&mut m, "block in ");
                push_str(&mut m, s.as_str());
                push_str(&mut m, " spans ");
            },
            None => {
                push_str(&mut m, "block `");
                push_str(&mut m, node_kind);
                push_str(&mut m, "` spans ");
            },
        },
    }
    push_chars(&mut m, &decimal_exec(measured as usize));
    push_str(&mut m, " lines, limit ");
    push_chars(&mut m, &decimal_exec(max as usize));
    m
}

fn exclusions_exec(spans: &Vec<SyntaxSpan>, include_tests: bool) -> (r: Vec<(usize, usize)>)
    ensures
        r@ == file_exclusions(spans@, include_tests),
{
    let mut out: Vec<(usize, usize)> = Vec::new();
    let mut i: usize = 0;
    while i < spans.len()
        invariant
            i <= spans.len(),
            out@ == file_exclusions(spans@.subrange(0, i as int), include_tests),
        decreases spans.len() - i,
    {
        assert(spans@.subrange(0, i as int + 1).drop_last() =~= spans@.subrange(0, i as int));
        let s = &spans[i];
        if s.kind == SyntaxSpanKind::Comment || (!include_tests && s.kind == SyntaxSpanKind::Test) {
            let ghost before = out@;
            out.push((s.start_byte, s.end_byte));
            assert(out@ =~= before + seq![(s.start_byte, s.end_byte)]);
        } else {
            assert(out@ =~= out@ + Seq::<(usize, usize)>::empty());
        }
        i = i + 1;
    }
    assert(spans@.subrange(0, spans.len() as int) =~= spans@);
    out
}

fn in_test_range_exec(s: &SyntaxSpan, spans: &Vec<SyntaxSpan>) -> (r: bool)
    ensures
        r == in_test_range(*s, spans@),
{
    let mut i: usize = 0;
    while i < spans.len()
        invariant
            i <= spans.len(),
            forall|k: int| 0 <= k < i ==> !((#[trigger] spans@[k]).kind == SyntaxSpanKind::Test
                && s.start_byte >= spans@[k].start_byte && s.end_byte <= spans@[k].end_byte),
        decreases spans.len() - i,
    {
        let t = &spans[i];
        if t.kind == SyntaxSpanKind::Test && s.start_byte >= t.start_byte && s.end_byte <= t.end_byte {
            assert(spans@[i as int] == *t);
            return true;
        }
        i = i + 1;
    }
    false
}

fn span_finding_exec(e: &RuleEvaluation, s: &SyntaxSpan) -> (r: Option<CodeSizeFinding>)
    requires
        s.start_line >= 1,
    ensures
        match r {
            Some(f) => span_finding(*e, *s) == seq![f@],
            None => span_finding(*e, *s) == Seq::<FindingModel>::empty(),
        },
{
    let k = match s.kind {
        SyntaxSpanKind::Function => CodeSizeRuleKind::Function,
        SyntaxSpanKind::Block => CodeSizeRuleKind::Block,
        _ => {
            return None;
        },
    };
    let r = match k {
        CodeSizeRuleKind::Function => &e.function_rule,
        _ => &e.block_rule,
    };
    if !is_requested(&e.requested, k) || !r.enabled {
        return None;
    }
    let in_test = e.test_path || in_test_range_exec(s, &e.spans);
    if in_test && !r.include_tests {
        return None;
    }
    let diff = if s.end_line >= s.start_line { s.end_line - s.start_line } else { 0 };
    if diff >= r.max_lines {
        let measured = diff + 1;
        let f = CodeSizeFinding {
            rule: k,
            severity: owned(r.severity.as_str()),
            path: copy_path(&e.path),
            project: copy_project(&e.project),
            language: owned(e.language.as_str()),
            symbol: copy_opt(&s.symbol),
            node_kind: Some(owned(s.node_kind.as_str())),
            start_line: s.start_line,
            end_line: s.end_line,
            measured_lines: measured,
            physical_lines: None,
            limit: r.max_lines,
            message: message_exec(k, &s.symbol, s.node_kind.as_str(), measured, r.max_lines),
        };
        assert(f@ == span_finding(*e, *s)[0]);
        assert(span_finding(*e, *s) =~= seq![f@]);
        Some(f)
    } else {
        None
    }
}

/// Evaluates the code-size rules for one scanned file; span lines count
/// from 1.
pub fn evaluate_rules(e: &RuleEvaluation) -> (r: Vec<CodeSizeFinding>)
    requires
        forall|k: int| 0 <= k < e.spans@.len() ==> (#[trigger] e.spans@[k]).start_line >= 1,
    ensures
        finding_views(r@) == code_size_findings(*e),
{
    let mut findings: Vec<CodeSizeFinding> = Vec::new();
    let fr = &e.file_rule;
    if is_requested(&e.requested, CodeSizeRuleKind::File) && fr.enabled && (fr.include_tests || !e.test_path) {
        let excluded = exclusions_exec(&e.spans, fr.include_tests);
        match crate::inspect::effective_lines(&e.bytes, &excluded) {
            Some(n) => {
                if n > fr.max_lines {
                    let physical = if e.physical_lines == 0 { 1 } else { e.physical_lines };
                    let f = CodeSizeFinding {
                        rule: CodeSizeRuleKind::File,
                        severity: owned(fr.severity.as_str()),
                        path: copy_path(&e.path),
                        project: copy_project(&e.project),
                        language: owned(e.language.as_str()),
                        symbol: None,
                        node_kind: Some(owned("source_file")),
                        start_line: 1,
                        end_line: physical,
                        measured_lines: n,
                        physical_lines: Some(physical),
                        limit: fr.max_lines,
                        message: message_exec(CodeSizeRuleKind::File, &None, "", n, fr.max_lines),
                    };
                    findings.push(f);
                }
            },
            None => {},
        }
    }
    assert(finding_views(findings@) =~= file_findings(*e));
    if e.has_error {
        assert(code_size_findings(*e) =~= file_findings(*e));
        return findings;
    }
    let ghost head = finding_views(findings@);
    let mut i: usize = 0;
    while i < e.spans.len()
        invariant
            i <= e.spans.len(),
            !e.has_error,
            forall|k: int| 0 <= k < e.spans@.len() ==> (#[trigger] e.spans@[k]).start_line >= 1,
            head == file_findings(*e),
            finding_views(findings@) == head + span_findings(*e, e.spans@.subrange(0, i as int)),
        decreases e.spans.len() - i,
    {
        assert(e.spans@.subrange(0, i as int + 1).drop_last() =~= e.spans@.subrange(0, i as int));
        let ghost before = finding_views(findings@);
        match span_finding_exec(e, &e.spans[i]) {
            Some(f) => {
                findings.push(f);
                assert(finding_views(findings@) =~= before + span_finding(*e, e.spans@[i as int]));
            },
            None => {
                assert(finding_views(findings@) =~= before + span_finding(*e, e.spans@[i as int]));
            },
        }
        i = i + 1;
    }
    assert(e.spans@.subrange(0, e.spans.len() as int) =~= e.spans@);
    findings
}

// ---------------------------------------------------------------------------
// Scanning files and summing up
// ---------------------------------------------------------------------------

/// Why a file is skipped before its syntax is looked at: over the size
/// limit (checked on its length before reading), or binary content.
pub open spec fn skip_reason(len: u64, max_file_bytes: u64, bytes: Seq<u8>) -> Option<Seq<char>> {
    if len > max_file_bytes {
        Some("file_too_large_to_scan"@)
    } else if crate::inspect::binary_content(bytes) {
        Some("binary_file_skipped"@)
    } else {
        None
    }
}

/// The reason a file is skipped before parsing, if any: `len` is its size
/// on disk, `bytes` its content (not looked at when the size is over the
/// limit).
pub fn scan_skip(len: u64, max_file_bytes: u64, bytes: &Vec<u8>) -> (r: Option<String>)
    ensures
        match r {
            Some(s) => skip_reason(len, max_file_bytes, bytes@) == Some(s@),
            None => skip_reason(len, max_file_bytes, bytes@) is None,
        },
{
    if len > max_file_bytes {
        Some(owned("file_too_large_to_scan"))
    } else if crate::inspect::is_binary(bytes) {
        Some(owned("binary_file_skipped"))
    } else {
        None
    }
}

/// What scanning one file gave.
#[derive(Debug)]
pub enum ScanResult {
    /// Scanned: its findings and diagnostics.
    Scanned {
        /// Findings of the file.
        findings: Vec<CodeSizeFinding>,
        /// Diagnostics of the file.
        diagnostics: Vec<Diagnostic>,
    },
    /// Skipped, with the reason.
    Skipped {
        /// Skip reason.
        reason: String,
    },
    /// Failed, with its diagnostic and the reason.
    Errored {
        /// The failure.
        diagnostic: Diagnostic,
        /// Skip reason.
        reason: String,
    },
}

/// Counts of skipped files by reason, in increasing reason order.
pub open spec fn skip_keys_sorted(m: Seq<(String, u64)>) -> bool {
    forall|i: int, j: int| 0 <= i < j < m.len() ==> seq_lt(#[trigger] m[i].0@, #[trigger] m[j].0@)
}

/// One more skip for a reason: its count goes up by one (saturating), or a
/// new reason is added in order with a count of one.
pub open spec fn bump(m: Seq<(Seq<char>, u64)>, r: Seq<char>) -> Seq<(Seq<char>, u64)>
    decreases m.len(),
{
    if m.len() == 0 {
        seq![(r, 1u64)]
    } else if m[0].0 == r {
        m.update(0, (r, if m[0].1 == u64::MAX { u64::MAX } else { (m[0].1 + 1) as u64 }))
    } else if seq_lt(r, m[0].0) {
        seq![(r, 1u64)] + m
    } else {
        seq![m[0]] + bump(m.drop_first(), r)
    }
}

/// The skip counts as plain values.
pub open spec fn skip_views(m: Seq<(String, u64)>) -> Seq<(Seq<char>, u64)> {
    m.map_values(|e: (String, u64)| (e.0@, e.1))
}

proof fn lemma_bump_skips_smaller(m: Seq<(Seq<char>, u64)>, r: Seq<char>, i: int)
    requires
        0 <= i <= m.len(),
        forall|k: int| 0 <= k < i ==> seq_lt(#[trigger] m[k].0, r),
    ensures
        bump(m, r) == m.subrange(0, i) + bump(m.subrange(i, m.len() as int), r),
    decreases i,
{
    if i > 0 {
        crate::text::lemma_lt_irreflexive(r);
        assert(m[0].0 != r) by {
            if m[0].0 == r {
                assert(seq_lt(m[0].0, r));
            }
        }
        assert(!seq_lt(r, m[0].0)) by {
            if seq_lt(r, m[0].0) {
                crate::text::lemma_lt_transitive(r, m[0].0, r);
            }
        }
        let t = m.drop_first();
        assert forall|k: int| 0 <= k < i - 1 implies seq_lt(#[trigger] t[k].0, r) by {
            assert(t[k] == m[k + 1]);
        }
        lemma_bump_skips_smaller(t, r, i - 1);
        assert(t.subrange(0, i - 1) =~= m.subrange(1, i));
        assert(t.subrange(i - 1, t.len() as int) =~= m.subrange(i, m.len() as int));
        assert(seq![m[0]] + m.subrange(1, i) =~= m.subrange(0, i));
    } else {
        assert(m.subrange(0, 0) + bump(m.subrange(0, m.len() as int), r) =~= bump(m, r)) by {
            assert(m.subrange(0, m.len() as int) =~= m);
        }
    }
}

fn bump_skip(m: &mut Vec<(String, u64)>, r: &str)
    requires
        skip_keys_sorted(old(m)@),
    ensures
        skip_views(final(m)@) == bump(skip_views(old(m)@), r@),
        skip_keys_sorted(final(m)@),
{
    let ghost v = skip_views(m@);
    assert forall|a: int, b: int| 0 <= a < b < v.len() implies seq_lt(#[trigger] v[a].0, #[trigger] v[b].0) by {
        assert(v[a].0 == m@[a].0@ && v[b].0 == m@[b].0@);
    }
    let mut i: usize = 0;
    while i < m.len() && str_lt(m[i].0.as_str(), r)
        invariant
            i <= m.len(),
            v == skip_views(m@),
            forall|k: int| 0 <= k < i ==> seq_lt(#[trigger] v[k].0, r@),
        decreases m.len() - i,
    {
        i = i + 1;
    }
    proof {
        lemma_bump_skips_smaller(v, r@, i as int);
    }
    let ghost rest = v.subrange(i as int, v.len() as int);
    if i < m.len() && crate::text::str_eq(m[i].0.as_str(), r) {
        let count = m[i].1;
        let next = if count == u64::MAX { u64::MAX } else { count + 1 };
        let key = owned(m[i].0.as_str());
        m.set(i, (key, next));
        proof {
            assert(rest[0].0 == r@);
            assert(skip_views(m@) =~= v.subrange(0, i as int) + rest.update(0, (r@, next)));
            assert forall|a: int, b: int| 0 <= a < b < m@.len() implies seq_lt(#[trigger] m@[a].0@, #[trigger] m@[b].0@) by {
                assert(m@[a].0@ == v[a].0 && m@[b].0@ == v[b].0);
            }
        }
    } else {
        proof {
            if i < m.len() {
                crate::text::lemma_lt_trichotomy(r@, v[i as int].0);
                assert(rest[0].0 == v[i as int].0);
            }
        }
        m.insert(i, (owned(r), 1));
        proof {
            assert(skip_views(m@) =~= v.subrange(0, i as int) + (seq![(r@, 1u64)] + rest));
            assert forall|a: int, b: int| 0 <= a < b < m@.len() implies seq_lt(#[trigger] m@[a].0@, #[trigger] m@[b].0@) by {
                if b < i {
                    assert(m@[a].0@ == v[a].0 && m@[b].0@ == v[b].0);
                } else if b == i {
                    assert(m@[a].0@ == v[a].0);
                } else if a < i {
                    assert(m@[a].0@ == v[a].0 && m@[b].0@ == v[b - 1].0);
                } else if a == i {
                    assert(m@[b].0@ == v[b - 1].0);
                    if b - 1 > i {
                        crate::text::lemma_lt_transitive(r@, v[i as int].0, v[b - 1].0);
                    }
                } else {
                    assert(m@[a].0@ == v[a - 1].0 && m@[b].0@ == v[b - 1].0);
                }
            }
        }
    }
}

/// The rank of a rule kind in the findings order.
pub open spec fn rule_rank(k: CodeSizeRuleKind) -> nat {
    match k {
        CodeSizeRuleKind::File => 0,
        CodeSizeRuleKind::Function => 1,
        CodeSizeRuleKind::Block => 2,
    }
}

/// Text of an optional text, empty when absent.
pub open spec fn or_empty(o: Option<Seq<char>>) -> Seq<char> {
    match o {
        Some(t) => t,
        None => Seq::empty(),
    }
}

/// Order of findings: by path, first line, rule rank, symbol, then node
/// kind.
pub open spec fn finding_lt(a: FindingModel, b: FindingModel) -> bool {
    if a.path != b.path {
        seq_lt(a.path, b.path)
    } else if a.start_line != b.start_line {
        a.start_line < b.start_line
    } else if rule_rank(a.rule) != rule_rank(b.rule) {
        rule_rank(a.rule) < rule_rank(b.rule)
    } else if or_empty(a.symbol) != or_empty(b.symbol) {
        seq_lt(or_empty(a.symbol), or_empty(b.symbol))
    } else {
        seq_lt(or_empty(a.node_kind), or_empty(b.node_kind))
    }
}

/// Where a finding goes among ordered ones: before the first it sorts
/// before, after every one with an equal key.
pub open spec fn finding_slot(s: Seq<FindingModel>, x: FindingModel) -> int
    decreases s.len(),
{
    if s.len() == 0 {
        0
    } else if finding_lt(x, s[0]) {
        0
    } else {
        1 + finding_slot(s.drop_first(), x)
    }
}

/// Findings sorted by key, equal keys in their original order.
pub open spec fn sorted_findings(xs: Seq<FindingModel>) -> Seq<FindingModel>
    decreases xs.len(),
{
    if xs.len() == 0 {
        Seq::empty()
    } else {
        let s = sorted_findings(xs.drop_last());
        s.insert(finding_slot(s, xs.last()), xs.last())
    }
}

proof fn lemma_finding_slot(s: Seq<FindingModel>, x: FindingModel, p: int)
    requires
        0 <= p <= s.len(),
        forall|k: int| 0 <= k < p ==> !finding_lt(x, #[trigger] s[k]),
        p == s.len() || finding_lt(x, s[p]),
    ensures
        finding_slot(s, x) == p,
    decreases s.len(),
{
    if s.len() > 0 && p > 0 {
        assert(!finding_lt(x, s[0]));
        let t = s.drop_first();
        assert forall|k: int| 0 <= k < p - 1 implies !finding_lt(x, #[trigger] t[k]) by {
            assert(t[k] == s[k + 1]);
        }
        if p < s.len() {
            assert(t[p - 1] == s[p]);
        }
        lemma_finding_slot(t, x, p - 1);
    }
}

fn opt_text(o: &Option<String>) -> (r: String)
    ensures
        r@ == or_empty(opt_view(*o)),
{
    match o {
        Some(t) => owned(t.as_str()),
        None => String::new(),
    }
}

fn rank_exec(k: CodeSizeRuleKind) -> (r: u8)
    ensures
        r as nat == rule_rank(k),
{
    match k {
        CodeSizeRuleKind::File => 0,
        CodeSizeRuleKind::Function => 1,
        CodeSizeRuleKind::Block => 2,
    }
}

fn finding_before(a: &CodeSizeFinding, b: &CodeSizeFinding) -> (r: bool)
    ensures
        r == finding_lt(a@, b@),
{
    if !crate::text::str_eq(a.path.as_str(), b.path.as_str()) {
        str_lt(a.path.as_str(), b.path.as_str())
    } else if a.start_line != b.start_line {
        a.start_line < b.start_line
    } else if rank_exec(a.rule) != rank_exec(b.rule) {
        rank_exec(a.rule) < rank_exec(b.rule)
    } else {
        let sa = opt_text(&a.symbol);
        let sb = opt_text(&b.symbol);
        if !crate::text::str_eq(sa.as_str(), sb.as_str()) {
            str_lt(sa.as_str(), sb.as_str())
        } else {
            let na = opt_text(&a.node_kind);
            let nb = opt_text(&b.node_kind);
            str_lt(na.as_str(), nb.as_str())
        }
    }
}

/// Sorts findings by path, first line, rule, symbol and node kind, keeping
/// the order of equal keys.
pub fn sort_findings(findings: Vec<CodeSizeFinding>) -> (r: Vec<CodeSizeFinding>)
    ensures
        finding_views(r@) == sorted_findings(finding_views(findings@)),
{
    let ghost all = finding_views(findings@);
    let n = findings.len();
    let mut rest = findings;
    let mut out: Vec<CodeSizeFinding> = Vec::new();
    let mut i: usize = 0;
    while rest.len() > 0
        invariant
            all.len() == n,
            i + rest@.len() == all.len(),
            finding_views(rest@) == all.subrange(i as int, all.len() as int),
            finding_views(out@) == sorted_findings(all.subrange(0, i as int)),
        decreases rest.len(),
    {
        let ghost rest_before = rest@;
        assert(finding_views(rest_before)[0] == all[i as int]);
        let x = rest.remove(0);
        let ghost os = finding_views(out@);
        let mut p: usize = 0;
        while p < out.len() && !finding_before(&x, &out[p])
            invariant
                p <= out.len(),
                os == finding_views(out@),
                forall|k: int| 0 <= k < p ==> !finding_lt(x@, #[trigger] os[k]),
            decreases out.len() - p,
        {
            p = p + 1;
        }
        proof {
            lemma_finding_slot(os, x@, p as int);
            assert(all.subrange(0, i as int + 1).drop_last() =~= all.subrange(0, i as int));
        }
        out.insert(p, x);
        assert(finding_views(out@) =~= os.insert(p as int, x@));
        i = i + 1;
        assert(finding_views(rest@) =~= finding_views(rest_before).drop_first());
        assert(finding_views(rest@) =~= all.subrange(i as int, all.len() as int));
    }
    assert(all.subrange(0, all.len() as int) =~= all);
    out
}

/// The totals and lists of a code-size inspection.
#[derive(Debug)]
pub struct ScanSummary {
    /// Files selected.
    pub files_considered: u64,
    /// Files scanned.
    pub files_scanned: u64,
    /// Files skipped, for every reason.
    pub files_skipped: u64,
    /// Files that failed.
    pub files_errored: u64,
    /// Findings.
    pub finding_count: u64,
    /// Files with at least one finding.
    pub files_with_findings: u64,
    /// Findings, sorted.
    pub findings: Vec<CodeSizeFinding>,
    /// Diagnostics, in order.
    pub diagnostics: Vec<Diagnostic>,
    /// Skipped files by reason, in reason order.
    pub skipped: Vec<(String, u64)>,
}

/// How many results are of each kind.
pub open spec fn scanned_count(rs: Seq<ScanResult>) -> nat
    decreases rs.len(),
{
    if rs.len() == 0 { 0 } else { scanned_count(rs.drop_last()) + if rs.last() is Scanned { 1nat } else { 0nat } }
}

/// How many results failed.
pub open spec fn errored_count(rs: Seq<ScanResult>) -> nat
    decreases rs.len(),
{
    if rs.len() == 0 { 0 } else { errored_count(rs.drop_last()) + if rs.last() is Errored { 1nat } else { 0nat } }
}

/// The findings of the scanned results, in order.
pub open spec fn result_findings(rs: Seq<ScanResult>) -> Seq<FindingModel>
    decreases rs.len(),
{
    if rs.len() == 0 {
        Seq::empty()
    } else {
        result_findings(rs.drop_last()) + match rs.last() {
            ScanResult::Scanned { findings, .. } => finding_views(findings@),
            _ => Seq::empty(),
        }
    }
}

/// The diagnostics of the results, in order.
pub open spec fn result_diagnostics(rs: Seq<ScanResult>) -> Seq<crate::diagnostic::DiagnosticModel>
    decreases rs.len(),
{
    if rs.len() == 0 {
        Seq::empty()
    } else {
        result_diagnostics(rs.drop_last()) + match rs.last() {
            ScanResult::Scanned { diagnostics, .. } => models(diagnostics@),
            ScanResult::Errored { diagnostic, .. } => seq![diagnostic@],
            ScanResult::Skipped { .. } => Seq::empty(),
        }
    }
}

/// The skip counts after the results' skips and failures are counted.
pub open spec fn result_skips(m: Seq<(Seq<char>, u64)>, rs: Seq<ScanResult>) -> Seq<(Seq<char>, u64)>
    decreases rs.len(),
{
    if rs.len() == 0 {
        m
    } else {
        let before = result_skips(m, rs.drop_last());
        match rs.last() {
            ScanResult::Skipped { reason } => bump(before, reason@),
            ScanResult::Errored { reason, .. } => bump(before, reason@),
            ScanResult::Scanned { .. } => before,
        }
    }
}

/// Sum of the skip counts.
pub open spec fn skip_total(m: Seq<(Seq<char>, u64)>) -> nat
    decreases m.len(),
{
    if m.len() == 0 { 0 } else { skip_total(m.drop_last()) + (m.last().1 as nat) }
}

/// The paths of findings.
pub open spec fn finding_paths(fs: Seq<FindingModel>) -> Seq<Seq<char>> {
    fs.map_values(|f: FindingModel| f.path)
}

/// The summary of an inspection, given the files selected, the skips and
/// diagnostics already counted, and each file's scan result in order.
pub open spec fn summary_ok(
    files_considered: u64,
    skipped: Seq<(Seq<char>, u64)>,
    diagnostics: Seq<crate::diagnostic::DiagnosticModel>,
    rs: Seq<ScanResult>,
    r: ScanSummary,
) -> bool {
    let fs = sorted_findings(result_findings(rs));
    &&& r.files_considered == files_considered
    &&& r.files_scanned == scanned_count(rs)
    &&& r.files_errored == errored_count(rs)
    &&& skip_views(r.skipped@) == result_skips(skipped, rs)
    &&& r.files_skipped == skip_total(result_skips(skipped, rs))
    &&& finding_views(r.findings@) == fs
    &&& r.finding_count == fs.len()
    &&& r.files_with_findings == crate::policy::sorted_distinct(finding_paths(fs)).len()
    &&& models(r.diagnostics@) == diagnostics + result_diagnostics(rs)
}

fn skip_sum(m: &Vec<(String, u64)>) -> (r: Option<u64>)
    ensures
        match r {
            Some(n) => n == skip_total(skip_views(m@)),
            None => skip_total(skip_views(m@)) > u64::MAX,
        },
{
    let mut total: u64 = 0;
    let mut i: usize = 0;
    while i < m.len()
        invariant
            i <= m.len(),
            total == skip_total(skip_views(m@).subrange(0, i as int)),
        decreases m.len() - i,
    {
        assert(skip_views(m@).subrange(0, i as int + 1).drop_last() =~= skip_views(m@).subrange(0, i as int));
        let c = m[i].1;
        if total > u64::MAX - c {
            proof {
                lemma_skip_total_prefix(skip_views(m@), i as int + 1);
            }
            return None;
        }
        total = total + c;
        i = i + 1;
    }
    assert(skip_views(m@).subrange(0, m.len() as int) =~= skip_views(m@));
    Some(total)
}

proof fn lemma_skip_total_prefix(m: Seq<(Seq<char>, u64)>, k: int)
    requires
        0 <= k <= m.len(),
    ensures
        skip_total(m.subrange(0, k)) <= skip_total(m),
    decreases m.len() - k,
{
    if k < m.len() {
        lemma_skip_total_prefix(m, k + 1);
        assert(m.subrange(0, k + 1).drop_last() =~= m.subrange(0, k));
    } else {
        assert(m.subrange(0, k) =~= m);
    }
}

/// Sums up an inspection: counts each file's scan result, joins findings
/// and diagnostics in order, counts skips by reason, and sorts the
/// findings; `None` when the skip total does not fit in 64 bits.
pub fn summarize_scans(
    files_considered: u64,
    skipped: Vec<(String, u64)>,
    diagnostics: Vec<Diagnostic>,
    results: Vec<ScanResult>,
) -> (r: Option<ScanSummary>)
    requires
        skip_keys_sorted(skipped@),
    ensures
        match r {
            Some(s) => summary_ok(files_considered, skip_views(skipped@), models(diagnostics@), results@, s),
            None => skip_total(result_skips(skip_views(skipped@), results@)) > u64::MAX,
        },
{
    let ghost rs = results@;
    let ghost m0 = skip_views(skipped@);
    let ghost d0 = models(diagnostics@);
    let mut skipped = skipped;
    let mut diagnostics = diagnostics;
    let mut findings: Vec<CodeSizeFinding> = Vec::new();
    let mut scanned: u64 = 0;
    let mut errored: u64 = 0;
    let mut results = results;
    let n = results.len();
    let mut i: usize = 0;
    while results.len() > 0
        invariant
            rs.len() == n,
            i + results@.len() == n,
            results@ == rs.subrange(i as int, n as int),
            skip_keys_sorted(skipped@),
            skip_views(skipped@) == result_skips(m0, rs.subrange(0, i as int)),
            finding_views(findings@) == result_findings(rs.subrange(0, i as int)),
            models(diagnostics@) == d0 + result_diagnostics(rs.subrange(0, i as int)),
            scanned == scanned_count(rs.subrange(0, i as int)),
            errored == errored_count(rs.subrange(0, i as int)),
            scanned <= i,
            errored <= i,
        decreases results.len(),
    {
        let ghost prefix = rs.subrange(0, i as int);
        assert(rs.subrange(0, i as int + 1).drop_last() =~= prefix);
        assert(results@[0] == rs[i as int]);
        let result = results.remove(0);
        let ghost fb = finding_views(findings@);
        let ghost db = models(diagnostics@);
        match result {
            ScanResult::Scanned { findings: mut more, diagnostics: mut extra } => {
                let ghost mv = finding_views(more@);
                let ghost ev = models(extra@);
                findings.append(&mut more);
                diagnostics.append(&mut extra);
                assert(finding_views(findings@) =~= fb + mv);
                assert(models(diagnostics@) =~= db + ev);
                scanned = scanned + 1;
            },
            ScanResult::Skipped { reason } => {
                bump_skip(&mut skipped, reason.as_str());
                assert(finding_views(findings@) =~= fb + Seq::<FindingModel>::empty());
                assert(models(diagnostics@) =~= db + Seq::<crate::diagnostic::DiagnosticModel>::empty());
            },
            ScanResult::Errored { diagnostic, reason } => {
                bump_skip(&mut skipped, reason.as_str());
                let ghost dv = diagnostic@;
                diagnostics.push(diagnostic);
                assert(models(diagnostics@) =~= db + seq![dv]);
                assert(finding_views(findings@) =~= fb + Seq::<FindingModel>::empty());
                errored = errored + 1;
            },
        }
        i = i + 1;
        assert(results@ =~= rs.subrange(i as int, n as int));
    }
    assert(rs.subrange(0, n as int) =~= rs);
    let total = match skip_sum(&skipped) {
        Some(t) => t,
        None => {
            return None;
        },
    };
    let sorted = sort_findings(findings);
    let mut paths: Vec<String> = Vec::new();
    let mut k: usize = 0;
    while k < sorted.len()
        invariant
            k <= sorted.len(),
            strs(paths@) == finding_paths(finding_views(sorted@)).subrange(0, k as int),
        decreases sorted.len() - k,
    {
        let ghost prev = strs(paths@);
        paths.push(owned(sorted[k].path.as_str()));
        assert(strs(paths@) =~= prev.push(finding_paths(finding_views(sorted@))[k as int]));
        assert(finding_paths(finding_views(sorted@)).subrange(0, k as int + 1)
            =~= finding_paths(finding_views(sorted@)).subrange(0, k as int).push(finding_paths(finding_views(sorted@))[k as int]));
        k = k + 1;
    }
    assert(finding_paths(finding_views(sorted@)).subrange(0, sorted.len() as int) =~= finding_paths(finding_views(sorted@)));
    let distinct = crate::policy::sort_dedup(&paths);
    let finding_count = sorted.len() as u64;
    let files_with_findings = distinct.len() as u64;
    Some(ScanSummary {
        files_considered,
        files_scanned: scanned,
        files_skipped: total,
        files_errored: errored,
        finding_count,
        files_with_findings,
        findings: sorted,
        diagnostics,
        skipped,
    })
}

// ---------------------------------------------------------------------------
// Choosing the files to scan
// ---------------------------------------------------------------------------

/// The first pattern from index `i` on that does not compile, with its
/// error.
pub open spec fn bad_glob_from(ps: Seq<Seq<char>>, i: int) -> Option<(int, Seq<char>)>
    decreases ps.len() - i,
{
    if 0 <= i < ps.len() {
        match crate::domain::glob_parse(ps[i]) {
            Err(m) => Some((i, m)),
            Ok(_) => bad_glob_from(ps, i + 1),
        }
    } else {
        None
    }
}

/// The configuration error of a scan's patterns: the first exclude glob that
/// does not compile, else the first generated-code pattern that does not
/// (the first seven are the built-in ones).
pub open spec fn scan_glob_error(excludes: Seq<Seq<char>>, generated: Seq<Seq<char>>) -> Option<DiagnosticModel> {
    match bad_glob_from(excludes, 0) {
        Some((k, m)) => Some(error_model("inspect.code_size.config_invalid"@,
            "invalid inspection glob `"@ + excludes[k] + "`: "@ + m)),
        None => match bad_glob_from(generated, 0) {
            Some((k, m)) => Some(error_model("inspect.code_size.config_invalid"@,
                (if k < 7 { "invalid built-in generated-code glob `"@ } else { "invalid generated-code glob `"@ })
                    + generated[k] + "`: "@ + m)),
            None => None,
        },
    }
}

/// Whether one of the patterns matches the path.
pub open spec fn any_glob_matches(ps: Seq<Seq<char>>, path: Seq<char>) -> bool {
    exists|i: int| 0 <= i < ps.len() && crate::domain::glob_matches(#[trigger] ps[i], path)
}

/// Why a selected file is left out before scanning: an exclude glob matches
/// it, or it is generated code and generated code is skipped.
pub open spec fn candidate_skip(excludes: Seq<Seq<char>>, generated: Seq<Seq<char>>, skip_generated: bool, path: Seq<char>) -> Option<Seq<char>> {
    if any_glob_matches(excludes, path) {
        Some("excluded_by_config"@)
    } else if skip_generated && any_glob_matches(generated, path) {
        Some("generated_code"@)
    } else {
        None
    }
}

/// The files kept for scanning, in order.
pub open spec fn kept_candidates(excludes: Seq<Seq<char>>, generated: Seq<Seq<char>>, skip_generated: bool, files: Seq<Seq<char>>) -> Seq<Seq<char>>
    decreases files.len(),
{
    if files.len() == 0 {
        Seq::empty()
    } else {
        let rest = kept_candidates(excludes, generated, skip_generated, files.drop_last());
        if candidate_skip(excludes, generated, skip_generated, files.last()) is None {
            rest.push(files.last())
        } else {
            rest
        }
    }
}

/// The skip counts after the files left out are counted, in order.
pub open spec fn candidate_skips(m: Seq<(Seq<char>, u64)>, excludes: Seq<Seq<char>>, generated: Seq<Seq<char>>, skip_generated: bool, files: Seq<Seq<char>>) -> Seq<(Seq<char>, u64)>
    decreases files.len(),
{
    if files.len() == 0 {
        m
    } else {
        let before = candidate_skips(m, excludes, generated, skip_generated, files.drop_last());
        match candidate_skip(excludes, generated, skip_generated, files.last()) {
            Some(r) => bump(before, r),
            None => before,
        }
    }
}

/// Patterns that can be handed to the matcher.
pub open spec fn matchable(ps: Seq<String>) -> bool {
    forall|k: int| 0 <= k < ps.len() ==> (#[trigger] ps[k])@.len() <= 1025 && !ps[k]@.contains('\\')
}

fn first_bad_glob(ps: &Vec<String>) -> (r: Option<(usize, String)>)
    requires
        matchable(ps@),
    ensures
        match r {
            Some((k, m)) => k < ps.len() && bad_glob_from(strs(ps@), 0) == Some((k as int, m@)),
            None => bad_glob_from(strs(ps@), 0) is None,
        },
{
    let ghost v = strs(ps@);
    let mut i: usize = 0;
    while i < ps.len()
        invariant
            i <= ps.len(),
            v == strs(ps@),
            matchable(ps@),
            bad_glob_from(v, 0) == bad_glob_from(v, i as int),
        decreases ps.len() - i,
    {
        match crate::domain::glob_check(ps[i].as_str()) {
            Err(m) => {
                return Some((i, m));
            },
            Ok(()) => {},
        }
        i = i + 1;
    }
    None
}

fn any_match(ps: &Vec<String>, path: &RepoRelativePath) -> (r: bool)
    requires
        matchable(ps@),
        bad_glob_from(strs(ps@), 0) is None,
    ensures
        r == any_glob_matches(strs(ps@), path@),
{
    proof {
        use_type_invariant(path);
    }
    let ghost v = strs(ps@);
    let mut i: usize = 0;
    while i < ps.len()
        invariant
            i <= ps.len(),
            v == strs(ps@),
            matchable(ps@),
            !path@.contains('\\'),
            bad_glob_from(v, i as int) is None,
            forall|q: int| 0 <= q < i ==> !crate::domain::glob_matches(#[trigger] v[q], path@),
        decreases ps.len() - i,
    {
        match crate::domain::glob_is_match(ps[i].as_str(), path.as_str()) {
            Some(true) => {
                return true;
            },
            Some(false) => {},
            None => {},
        }
        i = i + 1;
    }
    false
}

fn glob_strings(gs: &Vec<crate::domain::RepoGlob>) -> (r: Vec<String>)
    ensures
        strs(r@) == crate::graph::glob_views(gs@),
        matchable(r@),
{
    let mut out: Vec<String> = Vec::new();
    let mut i: usize = 0;
    while i < gs.len()
        invariant
            i <= gs.len(),
            strs(out@) == crate::graph::glob_views(gs@).subrange(0, i as int),
            matchable(out@),
        decreases gs.len() - i,
    {
        let g = &gs[i];
        proof {
            use_type_invariant(g);
        }
        let ghost prev = strs(out@);
        out.push(owned(g.as_str()));
        assert(strs(out@) =~= prev.push(gs@[i as int]@));
        assert(crate::graph::glob_views(gs@).subrange(0, i as int + 1) =~= crate::graph::glob_views(gs@).subrange(0, i as int).push(gs@[i as int]@));
        i = i + 1;
    }
    assert(crate::graph::glob_views(gs@).subrange(0, gs.len() as int) =~= crate::graph::glob_views(gs@));
    out
}

/// The generated-code patterns of a snapshot: the built-in ones, then each
/// project's do-not-edit globs.
pub open spec fn snapshot_generated(snapshot: crate::domain::RepoSnapshot) -> Seq<Seq<char>> {
    crate::inspect::builtin_generated_patterns() + crate::inspect::project_patterns(snapshot.projects@)
}

/// Leaves out the selected files that an exclude glob matches, and, when
/// generated code is skipped, those that a generated-code pattern of the
/// snapshot matches, counting each by its reason; every pattern is
/// compiled first, and the first that does not compile is the error.
pub fn filter_candidates(
    snapshot: &crate::domain::RepoSnapshot,
    files: &Vec<RepoRelativePath>,
    excludes: &Vec<crate::domain::RepoGlob>,
    skip_generated: bool,
    skipped: &mut Vec<(String, u64)>,
) -> (r: Result<Vec<RepoRelativePath>, Diagnostic>)
    requires
        skip_keys_sorted(old(skipped)@),
    ensures
        skip_keys_sorted(final(skipped)@),
        match r {
            Ok(kept) => {
                &&& scan_glob_error(crate::graph::glob_views(excludes@), snapshot_generated(*snapshot)) is None
                &&& crate::ports::path_views(kept@) == kept_candidates(crate::graph::glob_views(excludes@),
                    snapshot_generated(*snapshot), skip_generated, crate::ports::path_views(files@))
                &&& skip_views(final(skipped)@) == candidate_skips(skip_views(old(skipped)@),
                    crate::graph::glob_views(excludes@), snapshot_generated(*snapshot), skip_generated,
                    crate::ports::path_views(files@))
            },
            Err(d) => {
                &&& scan_glob_error(crate::graph::glob_views(excludes@), snapshot_generated(*snapshot)) == Some(d@)
                &&& final(skipped)@ == old(skipped)@
            },
        },
{
    let ex = glob_strings(excludes);
    let generated = crate::inspect::generated_code_patterns(snapshot);
    let ghost exv = crate::graph::glob_views(excludes@);
    let ghost gv = snapshot_generated(*snapshot);
    match first_bad_glob(&ex) {
        Some((k, m)) => {
            let mut msg = crate::text::concat3("invalid inspection glob `", ex[k].as_str(), "`: ");
            push_str(&mut msg, m.as_str());
            return Err(Diagnostic::error("inspect.code_size.config_invalid", msg.as_str()));
        },
        None => {},
    }
    match first_bad_glob(&generated) {
        Some((k, m)) => {
            let mut msg = if k < 7 {
                owned("invalid built-in generated-code glob `")
            } else {
                owned("invalid generated-code glob `")
            };
            push_str(&mut msg, generated[k].as_str());
            push_str(&mut msg, "`: ");
            push_str(&mut msg, m.as_str());
            proof {
                assert(strs(generated@)[k as int] == generated@[k as int]@);
            }
            return Err(Diagnostic::error("inspect.code_size.config_invalid", msg.as_str()));
        },
        None => {},
    }
    let ghost fv = crate::ports::path_views(files@);
    let ghost m0 = skip_views(skipped@);
    let mut kept: Vec<RepoRelativePath> = Vec::new();
    let mut i: usize = 0;
    while i < files.len()
        invariant
            i <= files.len(),
            fv == crate::ports::path_views(files@),
            exv == strs(ex@),
            gv == strs(generated@),
            matchable(ex@),
            matchable(generated@),
            bad_glob_from(exv, 0) is None,
            bad_glob_from(gv, 0) is None,
            skip_keys_sorted(skipped@),
            crate::ports::path_views(kept@) == kept_candidates(exv, gv, skip_generated, fv.subrange(0, i as int)),
            skip_views(skipped@) == candidate_skips(m0, exv, gv, skip_generated, fv.subrange(0, i as int)),
        decreases files.len() - i,
    {
        let f = &files[i];
        assert(fv.subrange(0, i as int + 1).drop_last() =~= fv.subrange(0, i as int));
        assert(fv.subrange(0, i as int + 1).last() == f@);
        if any_match(&ex, f) {
            bump_skip(skipped, "excluded_by_config");
        } else if skip_generated && any_match(&generated, f) {
            bump_skip(skipped, "generated_code");
        } else {
            let ghost prev = crate::ports::path_views(kept@);
            kept.push(f.clone());
            assert(crate::ports::path_views(kept@) =~= prev.push(f@));
        }
        i = i + 1;
    }
    assert(fv.subrange(0, files.len() as int) =~= fv);
    Ok(kept)
}

/// The error when more files are left to scan than the limit allows.
pub open spec fn too_many_files(count: nat, max_files: nat) -> Option<DiagnosticModel> {
    if count > max_files {
        Some(error_model("inspect.code_size.too_many_files"@,
            "code-size inspection selected "@ + decimal(count) + " files, limit "@ + decimal(max_files)))
    } else {
        None
    }
}

/// Checks the number of files left to scan against the limit.
pub fn file_limit(count: usize, max_files: usize) -> (r: Option<Diagnostic>)
    ensures
        match r {
            Some(d) => too_many_files(count as nat, max_files as nat) == Some(d@),
            None => too_many_files(count as nat, max_files as nat) is None,
        },
{
    if count > max_files {
        let mut msg = owned("code-size inspection selected ");
        push_chars(&mut msg, &decimal_exec(count));
        push_str(&mut msg, " files, limit ");
        push_chars(&mut msg, &decimal_exec(max_files));
        Some(Diagnostic::error("inspect.code_size.too_many_files", msg.as_str()))
    } else {
        None
    }
}

} // verus!
