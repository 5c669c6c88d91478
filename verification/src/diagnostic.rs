//! Stable diagnostics and error types.
use vstd::prelude::*;

use crate::text::{concat2, owned, push_str};

verus! {

/// Severity level for a repoctl diagnostic.
#[derive(Clone, Copy, Debug, PartialEq, Eq, Structural)]
pub enum Severity {
    /// Informational diagnostic that does not affect success.
    Info,
    /// Warning diagnostic that should be reviewed but does not fail validation.
    Warning,
    /// Error diagnostic that fails the requested operation.
    Error,
}

/// One-based source span for diagnostics when line and column are known.
#[derive(Clone, Copy, Debug, PartialEq, Eq, Structural)]
pub struct SourceSpan {
    /// One-based line number.
    pub line: usize,
    /// One-based column number.
    pub column: usize,
}

/// File and optional span associated with a diagnostic.
#[derive(Clone, Debug, PartialEq, Eq)]
pub struct DiagnosticSource {
    /// Repo-relative or absolute path depending on the caller boundary.
    pub path: String,
    /// Optional line and column.
    pub span: Option<SourceSpan>,
}

/// Abstract value of a [`DiagnosticSource`].
pub struct SourceModel {
    pub path: Seq<char>,
    pub span: Option<SourceSpan>,
}

impl View for DiagnosticSource {
    type V = SourceModel;

    open spec fn view(&self) -> SourceModel {
        SourceModel { path: self.path@, span: self.span }
    }
}

/// Stable, actionable diagnostic returned by repoctl operations.
#[derive(Clone, Debug, PartialEq, Eq)]
pub struct Diagnostic {
    /// Stable machine-readable code.
    pub code: String,
    /// Severity for exit-code and renderer decisions.
    pub severity: Severity,
    /// Human-readable summary.
    pub message: String,
    /// Source location if the diagnostic can be tied to one file.
    pub source: Option<Box<DiagnosticSource>>,
    /// Project context when known.
    pub project: Option<String>,
    /// Workspace context when known.
    pub workspace: Option<String>,
    /// Remediation hint when a clear next step exists.
    pub help: Option<String>,
}

/// Abstract value of a [`Diagnostic`].
pub struct DiagnosticModel {
    pub code: Seq<char>,
    pub severity: Severity,
    pub message: Seq<char>,
    pub source: Option<SourceModel>,
    pub project: Option<Seq<char>>,
    pub workspace: Option<Seq<char>>,
    pub help: Option<Seq<char>>,
}

/// View of an optional string.
pub open spec fn opt_view(o: Option<String>) -> Option<Seq<char>> {
    match o {
        Some(s) => Some(s@),
        None => None,
    }
}

impl View for Diagnostic {
    type V = DiagnosticModel;

    open spec fn view(&self) -> DiagnosticModel {
        DiagnosticModel {
            code: self.code@,
            severity: self.severity,
            message: self.message@,
            source: match self.source {
                Some(s) => Some(s@),
                None => None,
            },
            project: opt_view(self.project),
            workspace: opt_view(self.workspace),
            help: opt_view(self.help),
        }
    }
}

/// A diagnostic of the given severity with only a code and a message.
pub open spec fn plain(code: Seq<char>, severity: Severity, message: Seq<char>) -> DiagnosticModel {
    DiagnosticModel {
        code,
        severity,
        message,
        source: None,
        project: None,
        workspace: None,
        help: None,
    }
}

/// An error diagnostic with only a code and a message.
pub open spec fn error_model(code: Seq<char>, message: Seq<char>) -> DiagnosticModel {
    plain(code, Severity::Error, message)
}

/// `d` with its source path replaced.
pub open spec fn with_path_model(d: DiagnosticModel, path: Seq<char>) -> DiagnosticModel {
    DiagnosticModel { source: Some(SourceModel { path, span: None }), ..d }
}

/// `d` with its help replaced.
pub open spec fn with_help_model(d: DiagnosticModel, help: Seq<char>) -> DiagnosticModel {
    DiagnosticModel { help: Some(help), ..d }
}

/// `d` with its project replaced.
pub open spec fn with_project_model(d: DiagnosticModel, project: Seq<char>) -> DiagnosticModel {
    DiagnosticModel { project: Some(project), ..d }
}

/// Copies an optional string.
pub fn copy_opt(o: &Option<String>) -> (r: Option<String>)
    ensures
        opt_view(r) == opt_view(*o),
{
    match o {
        Some(s) => Some(s.clone()),
        None => None,
    }
}

impl Diagnostic {
    /// Creates an error diagnostic.
    pub fn error(code: &str, message: &str) -> (d: Self)
        ensures
            d@ == error_model(code@, message@),
    {
        Diagnostic {
            code: owned(code),
            severity: Severity::Error,
            message: owned(message),
            source: None,
            project: None,
            workspace: None,
            help: None,
        }
    }

    /// Creates a warning diagnostic.
    pub fn warning(code: &str, message: &str) -> (d: Self)
        ensures
            d@ == plain(code@, Severity::Warning, message@),
    {
        Diagnostic {
            code: owned(code),
            severity: Severity::Warning,
            message: owned(message),
            source: None,
            project: None,
            workspace: None,
            help: None,
        }
    }

    /// Adds source path context.
    pub fn with_path(self, path: &str) -> (d: Self)
        ensures
            d@ == with_path_model(self@, path@),
    {
        let mut d = self;
        d.source = Some(Box::new(DiagnosticSource { path: owned(path), span: None }));
        d
    }

    /// Adds project context.
    pub fn with_project(self, project: &str) -> (d: Self)
        ensures
            d@ == with_project_model(self@, project@),
    {
        let mut d = self;
        d.project = Some(owned(project));
        d
    }

    /// Adds workspace context.
    pub fn with_workspace(self, workspace: &str) -> (d: Self)
        ensures
            d@ == (DiagnosticModel { workspace: Some(workspace@), ..self@ }),
    {
        let mut d = self;
        d.workspace = Some(owned(workspace));
        d
    }

    /// Adds remediation help.
    pub fn with_help(self, help: &str) -> (d: Self)
        ensures
            d@ == with_help_model(self@, help@),
    {
        let mut d = self;
        d.help = Some(owned(help));
        d
    }

    /// A copy with the same abstract value.
    pub fn duplicate(&self) -> (d: Self)
        ensures
            d@ == self@,
    {
        Diagnostic {
            code: self.code.clone(),
            severity: self.severity,
            message: self.message.clone(),
            source: match &self.source {
                Some(s) => Some(Box::new(DiagnosticSource { path: s.path.clone(), span: s.span })),
                None => None,
            },
            project: copy_opt(&self.project),
            workspace: copy_opt(&self.workspace),
            help: copy_opt(&self.help),
        }
    }

    /// Renders the one-line form `code [severity] path: message`, or
    /// `code [severity] message` when no path is known.
    pub fn to_line(&self) -> (s: String)
        ensures
            s@ == diagnostic_line(self@),
    {
        let mut out = self.code.clone();
        push_str(&mut out, " [");
        push_str(&mut out, severity_label(&self.severity));
        push_str(&mut out, "] ");
        match &self.source {
            Some(source) => {
                push_str(&mut out, source.path.as_str());
                push_str(&mut out, ": ");
            },
            None => {},
        }
        push_str(&mut out, self.message.as_str());
        out
    }
}

/// The one-line rendering of a diagnostic.
pub open spec fn diagnostic_line(d: DiagnosticModel) -> Seq<char> {
    d.code + " ["@ + severity_text(d.severity) + "] "@ + match d.source {
        Some(s) => s.path + ": "@,
        None => Seq::empty(),
    } + d.message
}

/// Lowercase label of a severity.
pub open spec fn severity_text(severity: Severity) -> Seq<char> {
    match severity {
        Severity::Info => "info"@,
        Severity::Warning => "warning"@,
        Severity::Error => "error"@,
    }
}

/// Lowercase label of a severity.
pub fn severity_label(severity: &Severity) -> (s: &'static str)
    ensures
        s@ == severity_text(*severity),
{
    match severity {
        Severity::Info => "info",
        Severity::Warning => "warning",
        Severity::Error => "error",
    }
}

/// The models of a list of diagnostics.
pub open spec fn models(v: Seq<Diagnostic>) -> Seq<DiagnosticModel> {
    Seq::new(v.len(), |i: int| v[i]@)
}

/// Some diagnostic in the list has error severity.
pub open spec fn has_error(v: Seq<Diagnostic>) -> bool {
    exists|i: int| 0 <= i < v.len() && v[i].severity == Severity::Error
}

/// Copies a list of diagnostics.
pub fn copy_diagnostics(v: &Vec<Diagnostic>) -> (r: Vec<Diagnostic>)
    ensures
        models(r@) == models(v@),
{
    let mut r: Vec<Diagnostic> = Vec::new();
    let mut i: usize = 0;
    while i < v.len()
        invariant
            i <= v.len(),
            models(r@) == models(v@).subrange(0, i as int),
        decreases v.len() - i,
    {
        let ghost before = models(r@);
        let d = v[i].duplicate();
        r.push(d);
        assert(models(r@) =~= before.push(v@[i as int]@));
        assert(models(v@).subrange(0, i + 1) =~= models(v@).subrange(0, i as int).push(v@[i as int]@));
        i = i + 1;
    }
    assert(models(v@).subrange(0, v@.len() as int) =~= models(v@));
    r
}

/// A report containing zero or more diagnostics.
#[derive(Clone, Debug, PartialEq, Eq)]
pub struct ValidationReport {
    /// Diagnostics produced by the operation.
    pub diagnostics: Vec<Diagnostic>,
}

impl ValidationReport {
    /// Creates a report from diagnostics.
    pub fn new(diagnostics: Vec<Diagnostic>) -> (r: Self)
        ensures
            r.diagnostics == diagnostics,
    {
        ValidationReport { diagnostics }
    }

    /// Returns true when no error-severity diagnostics are present.
    pub fn is_success(&self) -> (r: bool)
        ensures
            r == !has_error(self.diagnostics@),
    {
        let mut i: usize = 0;
        while i < self.diagnostics.len()
            invariant
                i <= self.diagnostics.len(),
                forall|k: int| 0 <= k < i ==> self.diagnostics@[k].severity != Severity::Error,
            decreases self.diagnostics.len() - i,
        {
            if self.diagnostics[i].severity == Severity::Error {
                return false;
            }
            i = i + 1;
        }
        true
    }

    /// Adds one diagnostic.
    pub fn push(&mut self, diagnostic: Diagnostic)
        ensures
            final(self).diagnostics@ == old(self).diagnostics@.push(diagnostic),
    {
        self.diagnostics.push(diagnostic);
    }
}

/// Error type used by repoctl facade and capability services.
#[derive(Debug)]
pub enum RepoctlError {
    /// A single controlled diagnostic.
    Diagnostic {
        /// Diagnostic payload.
        diagnostic: Box<Diagnostic>,
    },
    /// Multiple controlled diagnostics.
    Diagnostics {
        /// Diagnostic payloads.
        diagnostics: Vec<Diagnostic>,
    },
    /// Filesystem operation failed.
    Io {
        /// Path being accessed.
        path: String,
        /// Rendered source error.
        message: String,
    },
    /// External environment or toolchain is unavailable.
    Environment(String),
    /// Internal bug surfaced as a controlled error.
    Internal(String),
}

impl RepoctlError {
    /// Creates a diagnostic error.
    pub fn diagnostic(diagnostic: Diagnostic) -> (e: Self)
        ensures
            e matches RepoctlError::Diagnostic { diagnostic: d } && *d == diagnostic,
    {
        RepoctlError::Diagnostic { diagnostic: Box::new(diagnostic) }
    }

    /// Creates an I/O error with path context; `message` is the rendered
    /// operating-system error.
    pub fn io(path: &str, message: &str) -> (e: Self)
        ensures
            e matches RepoctlError::Io { path: p, message: m } && p@ == path@ && m@ == message@,
    {
        RepoctlError::Io { path: owned(path), message: owned(message) }
    }

    /// Returns diagnostics embedded in the error, if any.
    pub fn diagnostics(&self) -> (r: Vec<Diagnostic>)
        ensures
            models(r@) == error_diagnostics(*self),
    {
        match self {
            RepoctlError::Diagnostic { diagnostic } => {
                let mut r: Vec<Diagnostic> = Vec::new();
                r.push(diagnostic.duplicate());
                assert(models(r@) =~= seq![diagnostic@]);
                r
            },
            RepoctlError::Diagnostics { diagnostics } => copy_diagnostics(diagnostics),
            RepoctlError::Io { path, message } => {
                let mut text = concat2("I/O error at ", path.as_str());
                push_str(&mut text, ": ");
                push_str(&mut text, message.as_str());
                let mut r: Vec<Diagnostic> = Vec::new();
                r.push(Diagnostic::error("repoctl.io", text.as_str()));
                assert(models(r@) =~= error_diagnostics(*self));
                r
            },
            RepoctlError::Environment(message) => {
                let mut r: Vec<Diagnostic> = Vec::new();
                r.push(Diagnostic::error("repoctl.environment", message.as_str()));
                assert(models(r@) =~= error_diagnostics(*self));
                r
            },
            RepoctlError::Internal(message) => {
                let mut r: Vec<Diagnostic> = Vec::new();
                r.push(Diagnostic::error("repoctl.internal", message.as_str()));
                assert(models(r@) =~= error_diagnostics(*self));
                r
            },
        }
    }
}

/// The diagnostics an error stands for.
pub open spec fn error_diagnostics(e: RepoctlError) -> Seq<DiagnosticModel> {
    match e {
        RepoctlError::Diagnostic { diagnostic } => seq![diagnostic@],
        RepoctlError::Diagnostics { diagnostics } => models(diagnostics@),
        RepoctlError::Io { path, message } => seq![
            error_model("repoctl.io"@, "I/O error at "@ + path@ + ": "@ + message@),
        ],
        RepoctlError::Environment(message) => seq![
            error_model("repoctl.environment"@, message@),
        ],
        RepoctlError::Internal(message) => seq![error_model("repoctl.internal"@, message@)],
    }
}

} // verus!
