//! Validated domain model: names, paths, commands, dependencies, manifests
//! and the repository graph.
use vstd::prelude::*;

use std::collections::BTreeMap;

use crate::check::{
    byte_len, byte_len_exceeds, copy_chars, ident_problem, normalize_relative_path,
    normalized_path, path_text_problem, reject_shell_syntax, shell_syntax_problem,
    split_command, split_command_spec, strings_of, validate_ascii_identifier, validate_path_text,
    all_space, all_space_exec,
};
use crate::diagnostic::{
    Diagnostic, DiagnosticModel, copy_opt, error_model, opt_view, with_path_model,
};
use crate::text::{
    chars_of, concat2, ends_with, has_prefix, has_suffix, is_alnum, is_digit, is_lower, owned,
    pieces, push_str, slice_chars, starts_with, str_eq, string_of, strs,
};

verus! {

/// Longest name, in bytes.
pub const NAME_MAX_BYTES: usize = 128;

/// Longest owner handle, in bytes.
pub const OWNER_MAX_BYTES: usize = 64;

/// Longest task name, in bytes.
pub const TASK_MAX_BYTES: usize = 64;

/// Longest schema id, in bytes.
pub const SCHEMA_MAX_BYTES: usize = 96;

/// Longest command word, in bytes.
pub const COMMAND_PART_MAX_BYTES: usize = 256;

/// Most words in a command.
pub const COMMAND_ARG_LIMIT: usize = 64;

/// Repository layout supported by repoctl.
#[derive(Clone, Copy, Debug, PartialEq, Eq, Structural)]
pub enum RepoLayout {
    /// Functional top-level layout.
    Functional,
}

// ---------------------------------------------------------------------------
// Names
// ---------------------------------------------------------------------------

/// Name of a repo.
#[derive(Clone, Debug, PartialEq, Eq, PartialOrd, Ord, Hash)]
pub struct RepoName(String);

impl View for RepoName {
    type V = Seq<char>;

    closed spec fn view(&self) -> Seq<char> {
        self.0@
    }
}

impl RepoName {
    /// Validates and creates a repo name: 1 to 128 bytes of lowercase
    /// letters, digits, `-` and `_`.
    pub fn new(value: &str) -> (r: Result<Self, Diagnostic>)
        ensures
            match r {
                Ok(n) => n@ == value@ && ident_problem("repo name"@, value@, 128, false) is None,
                Err(d) => ident_problem("repo name"@, value@, 128, false) == Some(d@),
            },
    {
        let cs = chars_of(value);
        validate_ascii_identifier("repo name", &cs, NAME_MAX_BYTES, false)?;
        Ok(RepoName(owned(value)))
    }

    /// Returns the repo name as a string slice.
    pub fn as_str(&self) -> (s: &str)
        ensures
            s@ == self@,
    {
        self.0.as_str()
    }
}

/// Globally unique project identifier.
#[derive(Clone, Debug, PartialEq, Eq, PartialOrd, Ord, Hash)]
pub struct ProjectName(String);

impl View for ProjectName {
    type V = Seq<char>;

    closed spec fn view(&self) -> Seq<char> {
        self.0@
    }
}

impl ProjectName {
    /// Validates and creates a project name: 1 to 128 bytes of lowercase
    /// letters, digits, `-`, `_` and single inner dots.
    pub fn new(value: &str) -> (r: Result<Self, Diagnostic>)
        ensures
            match r {
                Ok(n) => n@ == value@ && ident_problem("project name"@, value@, 128, true) is None,
                Err(d) => ident_problem("project name"@, value@, 128, true) == Some(d@),
            },
    {
        let cs = chars_of(value);
        validate_ascii_identifier("project name", &cs, NAME_MAX_BYTES, true)?;
        Ok(ProjectName(owned(value)))
    }

    /// Returns the project name as a string slice.
    pub fn as_str(&self) -> (s: &str)
        ensures
            s@ == self@,
    {
        self.0.as_str()
    }

    /// Whether two project names are equal.
    pub fn same(&self, other: &ProjectName) -> (r: bool)
        ensures
            r == (self@ == other@),
    {
        self.0 == other.0
    }

    /// A copy with the same name.
    pub fn duplicate(&self) -> (r: Self)
        ensures
            r@ == self@,
    {
        ProjectName(self.0.clone())
    }

    /// The name whose text is `value`, a text taken from another project
    /// name.
    pub(crate) fn from_name_text(value: String) -> (r: Self)
        ensures
            r@ == value@,
    {
        ProjectName(value)
    }
}

/// Workspace identifier unique within a project.
#[derive(Clone, Debug, PartialEq, Eq, PartialOrd, Ord, Hash)]
pub struct WorkspaceName(String);

impl View for WorkspaceName {
    type V = Seq<char>;

    closed spec fn view(&self) -> Seq<char> {
        self.0@
    }
}

impl WorkspaceName {
    /// Validates and creates a workspace name: 1 to 128 bytes of lowercase
    /// letters, digits, `-` and `_`.
    pub fn new(value: &str) -> (r: Result<Self, Diagnostic>)
        ensures
            match r {
                Ok(n) => n@ == value@ && ident_problem("workspace name"@, value@, 128, false) is None,
                Err(d) => ident_problem("workspace name"@, value@, 128, false) == Some(d@),
            },
    {
        let cs = chars_of(value);
        validate_ascii_identifier("workspace name", &cs, NAME_MAX_BYTES, false)?;
        Ok(WorkspaceName(owned(value)))
    }

    /// Returns the workspace name as a string slice.
    pub fn as_str(&self) -> (s: &str)
        ensures
            s@ == self@,
    {
        self.0.as_str()
    }

    /// Whether two workspace names are equal.
    pub fn same(&self, other: &WorkspaceName) -> (r: bool)
        ensures
            r == (self@ == other@),
    {
        self.0 == other.0
    }

    /// A copy with the same name.
    pub fn duplicate(&self) -> (r: Self)
        ensures
            r@ == self@,
    {
        WorkspaceName(self.0.clone())
    }
}

/// The diagnostic an owner-handle check yields, or `None` when accepted.
pub open spec fn owner_problem(v: Seq<char>) -> Option<DiagnosticModel> {
    if v.len() == 0 || v[0] != '@' {
        Some(error_model("manifest.owner.invalid"@, "owner handle must start with @"@))
    } else {
        ident_problem("owner handle"@, v.drop_first(), 63, false)
    }
}

/// Owner handle such as `@platform`.
#[derive(Clone, Debug, PartialEq, Eq, PartialOrd, Ord, Hash)]
pub struct OwnerHandle(String);

impl View for OwnerHandle {
    type V = Seq<char>;

    closed spec fn view(&self) -> Seq<char> {
        self.0@
    }
}

impl OwnerHandle {
    /// Validates and creates an owner handle: `@` followed by 1 to 63 bytes
    /// of lowercase letters, digits, `-` and `_`.
    pub fn new(value: &str) -> (r: Result<Self, Diagnostic>)
        ensures
            match r {
                Ok(n) => n@ == value@ && owner_problem(value@) is None,
                Err(d) => owner_problem(value@) == Some(d@),
            },
    {
        let cs = chars_of(value);
        if cs.len() == 0 || cs[0] != '@' {
            return Err(Diagnostic::error("manifest.owner.invalid", "owner handle must start with @"));
        }
        let rest = slice_chars(&cs, 1, cs.len());
        assert(rest@ =~= value@.drop_first());
        validate_ascii_identifier("owner handle", &rest, OWNER_MAX_BYTES - 1, false)?;
        Ok(OwnerHandle(owned(value)))
    }

    /// Returns the owner handle as a string slice.
    pub fn as_str(&self) -> (s: &str)
        ensures
            s@ == self@,
    {
        self.0.as_str()
    }

    /// A copy with the same handle.
    pub fn duplicate(&self) -> (r: Self)
        ensures
            r@ == self@,
    {
        OwnerHandle(self.0.clone())
    }
}

/// Task identifier unique within a project manifest.
#[derive(Clone, Debug, PartialEq, Eq, PartialOrd, Ord, Hash)]
pub struct TaskName(String);

impl View for TaskName {
    type V = Seq<char>;

    closed spec fn view(&self) -> Seq<char> {
        self.0@
    }
}

impl TaskName {
    /// Validates and creates a task name: 1 to 64 bytes of lowercase letters,
    /// digits, `-` and `_`.
    pub fn new(value: &str) -> (r: Result<Self, Diagnostic>)
        ensures
            match r {
                Ok(n) => n@ == value@ && ident_problem("task name"@, value@, 64, false) is None,
                Err(d) => ident_problem("task name"@, value@, 64, false) == Some(d@),
            },
    {
        let cs = chars_of(value);
        validate_ascii_identifier("task name", &cs, TASK_MAX_BYTES, false)?;
        Ok(TaskName(owned(value)))
    }

    /// Returns the task name as a string slice.
    pub fn as_str(&self) -> (s: &str)
        ensures
            s@ == self@,
    {
        self.0.as_str()
    }

    /// Whether two task names are equal.
    pub fn same(&self, other: &TaskName) -> (r: bool)
        ensures
            r == (self@ == other@),
    {
        self.0 == other.0
    }

    /// A copy with the same name.
    pub fn duplicate(&self) -> (r: Self)
        ensures
            r@ == self@,
    {
        TaskName(self.0.clone())
    }
}

/// Character allowed in schema ids.
pub open spec fn schema_char(c: char) -> bool {
    is_alnum(c) || c == '.' || c == '/' || c == '-' || c == '_'
}

/// The diagnostic a schema-id check yields, or `None` when accepted.
pub open spec fn schema_problem(v: Seq<char>) -> Option<DiagnosticModel> {
    if v.len() == 0 || byte_len(v) > 96 {
        Some(error_model("manifest.schema.invalid"@, "schema id must be non-empty and length-bounded"@))
    } else if exists|i: int| 0 <= i < v.len() && !schema_char(#[trigger] v[i]) {
        Some(error_model("manifest.schema.invalid"@, "schema id contains unsupported characters"@))
    } else {
        None
    }
}

/// Manifest schema identifier.
#[derive(Clone, Debug, PartialEq, Eq, PartialOrd, Ord, Hash)]
pub struct SchemaId(String);

impl View for SchemaId {
    type V = Seq<char>;

    closed spec fn view(&self) -> Seq<char> {
        self.0@
    }
}

impl SchemaId {
    /// Validates and creates a schema identifier: 1 to 96 bytes of ASCII
    /// letters, digits, `.`, `/`, `-` and `_`.
    #[verifier::loop_isolation(false)]
    pub fn new(value: &str) -> (r: Result<Self, Diagnostic>)
        ensures
            match r {
                Ok(n) => n@ == value@ && schema_problem(value@) is None,
                Err(d) => schema_problem(value@) == Some(d@),
            },
    {
        let cs = chars_of(value);
        if cs.len() == 0 || byte_len_exceeds(&cs, SCHEMA_MAX_BYTES) {
            return Err(Diagnostic::error("manifest.schema.invalid", "schema id must be non-empty and length-bounded"));
        }
        let mut i: usize = 0;
        while i < cs.len()
            invariant
                i <= cs.len(),
                cs@ == value@,
                forall|k: int| 0 <= k < i ==> schema_char(cs@[k]),
            decreases cs.len() - i,
        {
            let c = cs[i];
            let ok = ('a' <= c && c <= 'z') || ('A' <= c && c <= 'Z') || ('0' <= c && c <= '9')
                || c == '.' || c == '/' || c == '-' || c == '_';
            if !ok {
                assert(!schema_char(value@[i as int]));
                return Err(Diagnostic::error("manifest.schema.invalid", "schema id contains unsupported characters"));
            }
            i = i + 1;
        }
        Ok(SchemaId(owned(value)))
    }

    /// Returns the schema identifier as a string slice.
    pub fn as_str(&self) -> (s: &str)
        ensures
            s@ == self@,
    {
        self.0.as_str()
    }
}

/// Proto package identifier.
#[derive(Clone, Debug, PartialEq, Eq, PartialOrd, Ord, Hash)]
pub struct ProtoPackageName(String);

impl View for ProtoPackageName {
    type V = Seq<char>;

    closed spec fn view(&self) -> Seq<char> {
        self.0@
    }
}

impl ProtoPackageName {
    /// Validates and creates a proto package name: 1 to 128 bytes of
    /// lowercase letters, digits, `-`, `_` and single inner dots.
    pub fn new(value: &str) -> (r: Result<Self, Diagnostic>)
        ensures
            match r {
                Ok(n) => n@ == value@ && ident_problem("proto package"@, value@, 128, true) is None,
                Err(d) => ident_problem("proto package"@, value@, 128, true) == Some(d@),
            },
    {
        let cs = chars_of(value);
        validate_ascii_identifier("proto package", &cs, NAME_MAX_BYTES, true)?;
        Ok(ProtoPackageName(owned(value)))
    }

    /// Returns the proto package name as a string slice.
    pub fn as_str(&self) -> (s: &str)
        ensures
            s@ == self@,
    {
        self.0.as_str()
    }
}

// ---------------------------------------------------------------------------
// Paths
// ---------------------------------------------------------------------------

/// `s` lies at or below `prefix`: equal to it, `prefix` is the root `.`, or
/// `s` begins with `prefix/`.
pub open spec fn path_below(s: Seq<char>, prefix: Seq<char>) -> bool {
    s == prefix || prefix == seq!['.'] || has_prefix(s, prefix.push('/'))
}

/// Result of joining a project-relative path below a repo-relative path.
pub open spec fn join_project_spec(base: Seq<char>, child: Seq<char>) -> Result<Seq<char>, DiagnosticModel> {
    if child == seq!['.'] {
        Ok(base)
    } else if base == seq!['.'] {
        normalized_path(child, false)
    } else {
        normalized_path(base + seq!['/'] + child, false)
    }
}

/// Repo-relative path that cannot escape the repo root.
#[derive(Debug, PartialEq, Eq, PartialOrd, Ord, Hash)]
pub struct RepoRelativePath(String);

impl Clone for RepoRelativePath {
    /// A copy with the same text.
    fn clone(&self) -> (r: Self)
        ensures
            r@ == self@,
    {
        proof {
            use_type_invariant(self);
        }
        RepoRelativePath(self.0.clone())
    }
}

impl View for RepoRelativePath {
    type V = Seq<char>;

    closed spec fn view(&self) -> Seq<char> {
        self.0@
    }
}

impl Default for RepoRelativePath {
    /// The root path `.`.
    fn default() -> (r: Self)
        ensures
            r@ == seq!['.'],
    {
        RepoRelativePath::root()
    }
}

impl RepoRelativePath {
    /// A repo-relative path is never longer than the path limit and holds
    /// no backslash.
    #[verifier::type_invariant]
    pub open spec fn bounded(&self) -> bool {
        self@.len() <= 512 && !self@.contains('\\')
    }

    /// Validates and normalizes a repo-relative path: empty and `.`
    /// segments are dropped, `..`, absolute paths and the bare root are
    /// rejected.
    pub fn new(value: &str) -> (r: Result<Self, Diagnostic>)
        ensures
            match r {
                Ok(p) => normalized_path(value@, false) == Ok::<Seq<char>, DiagnosticModel>(p@),
                Err(d) => normalized_path(value@, false) == Err::<Seq<char>, DiagnosticModel>(d@),
            },
    {
        let cs = chars_of(value);
        let s = normalize_relative_path(&cs, false)?;
        proof {
            crate::check::lemma_normalized_len(value@, false);
            crate::laws::law_normalization_is_idempotent(value@, false);
        }
        Ok(RepoRelativePath(s))
    }

    /// Creates the root path `.`.
    pub fn root() -> (r: Self)
        ensures
            r@ == seq!['.'],
    {
        let mut s = String::new();
        crate::text::push_char(&mut s, '.');
        assert(s@ =~= seq!['.']);
        RepoRelativePath(s)
    }

    /// Returns the path as a string slice.
    pub fn as_str(&self) -> (s: &str)
        ensures
            s@ == self@,
    {
        self.0.as_str()
    }

    /// A copy of the path.
    pub fn duplicate(&self) -> (r: Self)
        ensures
            r@ == self@,
    {
        proof {
            use_type_invariant(self);
        }
        RepoRelativePath(self.0.clone())
    }

    /// The path whose text is `value`, a text taken from another
    /// repo-relative path.
    pub(crate) fn from_path_text(value: String) -> (r: Self)
        requires
            value@.len() <= 512,
            !value@.contains('\\'),
        ensures
            r@ == value@,
    {
        RepoRelativePath(value)
    }

    /// Joins a project-relative path below this repo-relative path.
    pub fn join_project(&self, child: &ProjectRelativePath) -> (r: Result<Self, Diagnostic>)
        ensures
            match r {
                Ok(p) => join_project_spec(self@, child@) == Ok::<Seq<char>, DiagnosticModel>(p@),
                Err(d) => join_project_spec(self@, child@) == Err::<Seq<char>, DiagnosticModel>(d@),
            },
    {
        let c = chars_of(child.as_str());
        if c.len() == 1 && c[0] == '.' {
            assert(child@ =~= seq!['.']);
            return Ok(self.duplicate());
        }
        assert(child@ != seq!['.']) by {
            if child@ == seq!['.'] {
                assert(child@.len() == 1);
            }
        }
        let b = chars_of(self.as_str());
        let joined = if b.len() == 1 && b[0] == '.' {
            assert(self@ =~= seq!['.']);
            c
        } else {
            assert(self@ != seq!['.']) by {
                if self@ == seq!['.'] {
                    assert(self@.len() == 1);
                }
            }
            let mut j = copy_chars(&b);
            j.push('/');
            crate::text::append_chars(&mut j, &c);
            assert(j@ =~= self@ + seq!['/'] + child@);
            j
        };
        let s = normalize_relative_path(&joined, false)?;
        proof {
            crate::check::lemma_normalized_len(joined@, false);
            crate::laws::law_normalization_is_idempotent(joined@, false);
        }
        Ok(RepoRelativePath(s))
    }

    /// Returns true if this path begins with the given repo-relative prefix.
    pub fn starts_with(&self, prefix: &RepoRelativePath) -> (r: bool)
        ensures
            r == path_below(self@, prefix@),
    {
        let s = chars_of(self.as_str());
        let p = chars_of(prefix.as_str());
        if crate::text::seq_eq(&s, &p) {
            return true;
        }
        if p.len() == 1 && p[0] == '.' {
            assert(prefix@ =~= seq!['.']);
            return true;
        }
        assert(prefix@ != seq!['.']) by {
            if prefix@ == seq!['.'] {
                assert(prefix@.len() == 1);
            }
        }
        let mut q = copy_chars(&p);
        q.push('/');
        starts_with(&s, &q)
    }
}

/// Project-relative path that cannot escape its project root.
#[derive(Clone, Debug, PartialEq, Eq, PartialOrd, Ord, Hash)]
pub struct ProjectRelativePath(String);

impl View for ProjectRelativePath {
    type V = Seq<char>;

    closed spec fn view(&self) -> Seq<char> {
        self.0@
    }
}

impl ProjectRelativePath {
    /// Validates and normalizes a project-relative path; the root `.` is
    /// allowed.
    pub fn new(value: &str) -> (r: Result<Self, Diagnostic>)
        ensures
            match r {
                Ok(p) => normalized_path(value@, true) == Ok::<Seq<char>, DiagnosticModel>(p@),
                Err(d) => normalized_path(value@, true) == Err::<Seq<char>, DiagnosticModel>(d@),
            },
    {
        let cs = chars_of(value);
        let s = normalize_relative_path(&cs, true)?;
        Ok(ProjectRelativePath(s))
    }

    /// Creates the root path `.`.
    pub fn root() -> (r: Self)
        ensures
            r@ == seq!['.'],
    {
        let mut s = String::new();
        crate::text::push_char(&mut s, '.');
        assert(s@ =~= seq!['.']);
        ProjectRelativePath(s)
    }

    /// Returns the path as a string slice.
    pub fn as_str(&self) -> (s: &str)
        ensures
            s@ == self@,
    {
        self.0.as_str()
    }
}


// ---------------------------------------------------------------------------
// Globs and roots
// ---------------------------------------------------------------------------

/// What `globset::Glob::new` gives for a pattern: success, or its error
/// rendered with `Display`. It is only applied to patterns without a backslash,
/// on which `globset` parses alike on every platform (backslash escapes are
/// the one platform-dependent default of `Glob::new`).
pub uninterp spec fn glob_parse(pattern: Seq<char>) -> Result<(), Seq<char>>;

/// Compiles `pattern` with `globset::Glob::new` and reports whether it
/// parses, with the rendered error when it does not. The outcome is named by
/// `glob_parse`; nothing more of it is stated.
#[verifier::external_body]
pub(crate) fn glob_check(pattern: &str) -> (r: Result<(), String>)
    requires
        !pattern@.contains('\\'),
    ensures
        match r {
            Ok(()) => glob_parse(pattern@) == Ok::<(), Seq<char>>(()),
            Err(m) => glob_parse(pattern@) == Err::<(), Seq<char>>(m@),
        },
{
    match globset::Glob::new(pattern) {
        Ok(_) => Ok(()),
        Err(error) => Err(error.to_string()),
    }
}

/// Whether `globset` matches the path against the compiled pattern
/// (`GlobMatcher::is_match` on the result of `Glob::new`). It is only
/// applied to a pattern and a path without a backslash, on which matching does
/// not depend on the platform (only a backslash in a path is rewritten as a
/// separator off Unix).
pub uninterp spec fn glob_matches(pattern: Seq<char>, path: Seq<char>) -> bool;

/// Compiles `pattern` with `globset::Glob::new` and matches `path` with
/// `GlobMatcher::is_match`; `None` when the pattern does not compile. The
/// match is named only for a path without a backslash; for a path with one the
/// answer depends on the platform and nothing is stated of it.
/// `compile_matcher` panics when the pattern's regex exceeds the 10 MiB NFA
/// limit of `globset`, so the pattern is bounded to what a repo path and a
/// glob joined together can hold: the regex is built in byte mode, each glob
/// token turns into a few states, so a pattern of this length stays far
/// below the limit.
#[verifier::external_body]
pub(crate) fn glob_is_match(pattern: &str, path: &str) -> (r: Option<bool>)
    requires
        pattern@.len() <= 1025,
        !pattern@.contains('\\'),
    ensures
        match r {
            None => glob_parse(pattern@) is Err,
            Some(b) => glob_parse(pattern@) is Ok && (!path@.contains('\\') ==> b == glob_matches(pattern@, path@)),
        },
{
    match globset::Glob::new(pattern) {
        Ok(glob) => Some(glob.compile_matcher().is_match(path)),
        Err(_) => None,
    }
}

/// Result of checking a glob pattern, given what the glob parser said of it.
pub open spec fn glob_result(value: Seq<char>, parsed: Result<(), Seq<char>>) -> Result<Seq<char>, DiagnosticModel> {
    match path_text_problem(value, true) {
        Some(d) => Err(d),
        None => match parsed {
            Ok(()) => Ok(value),
            Err(m) => Err(error_model("manifest.glob.invalid"@, "invalid glob pattern `"@ + value + "`: "@ + m)),
        },
    }
}

/// Glob pattern scoped to repo-relative or project-relative paths.
#[derive(Debug, PartialEq, Eq, PartialOrd, Ord, Hash)]
pub struct RepoGlob(String);

impl Clone for RepoGlob {
    /// A copy with the same text.
    fn clone(&self) -> (r: Self)
        ensures
            r@ == self@,
    {
        proof {
            use_type_invariant(self);
        }
        RepoGlob(self.0.clone())
    }
}

impl View for RepoGlob {
    type V = Seq<char>;

    closed spec fn view(&self) -> Seq<char> {
        self.0@
    }
}

impl RepoGlob {
    /// A glob is never longer than the path limit and holds no backslash.
    #[verifier::type_invariant]
    pub open spec fn bounded(&self) -> bool {
        self@.len() <= 512 && !self@.contains('\\')
    }

    /// Validates a glob pattern and rejects path traversal.
    pub fn new(value: &str) -> (r: Result<Self, Diagnostic>)
        ensures
            match r {
                Ok(g) => glob_result(value@, glob_parse(value@)) == Ok::<Seq<char>, DiagnosticModel>(g@),
                Err(d) => glob_result(value@, glob_parse(value@)) == Err::<Seq<char>, DiagnosticModel>(d@),
            },
    {
        let cs = chars_of(value);
        validate_path_text(&cs, true)?;
        let parsed = glob_check(value);
        Self::from_parse(value, parsed)
    }

    /// Builds a glob from its text and what the glob parser said of it.
    pub fn from_parse(value: &str, parsed: Result<(), String>) -> (r: Result<Self, Diagnostic>)
        ensures
            match r {
                Ok(g) => glob_result(value@, str_result(parsed)) == Ok::<Seq<char>, DiagnosticModel>(g@),
                Err(d) => glob_result(value@, str_result(parsed)) == Err::<Seq<char>, DiagnosticModel>(d@),
            },
    {
        let cs = chars_of(value);
        validate_path_text(&cs, true)?;
        proof {
            crate::check::lemma_byte_len_at_least_len(value@);
        }
        match parsed {
            Ok(()) => Ok(RepoGlob(owned(value))),
            Err(m) => {
                let mut msg = concat2("invalid glob pattern `", value);
                push_str(&mut msg, "`: ");
                push_str(&mut msg, m.as_str());
                Err(Diagnostic::error("manifest.glob.invalid", msg.as_str()))
            },
        }
    }

    /// Returns the glob as a string slice.
    pub fn as_str(&self) -> (s: &str)
        ensures
            s@ == self@,
    {
        self.0.as_str()
    }
}

/// The view of a result carrying a string error.
pub open spec fn str_result(r: Result<(), String>) -> Result<(), Seq<char>> {
    match r {
        Ok(()) => Ok(()),
        Err(m) => Err(m@),
    }
}

/// Asks `camino::Utf8Path::is_absolute` whether `path` is absolute. Its
/// answer depends on the platform the program was built for, so nothing is
/// stated of it.
#[verifier::external_body]
fn utf8_path_is_absolute(path: &str) -> bool {
    camino::Utf8Path::new(path).is_absolute()
}

/// Joins `path` onto `base` with `camino::Utf8Path::join`. The separator
/// and the handling of absolute `path` depend on the platform, so nothing is
/// stated of the result.
#[verifier::external_body]
fn utf8_path_join(base: &str, path: &str) -> String {
    camino::Utf8Path::new(base).join(path).into_string()
}

/// Absolute repository root.
#[derive(Clone, Debug, PartialEq, Eq)]
pub struct RepoRoot {
    /// Absolute UTF-8 path to the repository root.
    pub absolute: String,
}

impl RepoRoot {
    /// Creates a repository root from an absolute UTF-8 path.
    pub fn new(path: &str) -> (r: Result<Self, Diagnostic>)
        ensures
            match r {
                Ok(root) => root.absolute@ == path@,
                Err(d) => d@ == error_model("repo.root.relative"@, "repo root must be an absolute path"@),
            },
    {
        let absolute = utf8_path_is_absolute(path);
        Self::from_check(path, absolute)
    }

    /// Builds a root from a path and whether the platform calls it absolute.
    pub fn from_check(path: &str, absolute: bool) -> (r: Result<Self, Diagnostic>)
        ensures
            match r {
                Ok(root) => absolute && root.absolute@ == path@,
                Err(d) => !absolute && d@ == error_model("repo.root.relative"@, "repo root must be an absolute path"@),
            },
    {
        if !absolute {
            return Err(Diagnostic::error("repo.root.relative", "repo root must be an absolute path"));
        }
        Ok(RepoRoot { absolute: owned(path) })
    }

    /// Joins a repo-relative path against the absolute root.
    pub fn join(&self, path: &RepoRelativePath) -> (r: String)
        ensures
            path@ == seq!['.'] ==> r@ == self.absolute@,
    {
        let p = chars_of(path.as_str());
        if p.len() == 1 && p[0] == '.' {
            assert(path@ =~= seq!['.']);
            return self.absolute.clone();
        }
        utf8_path_join(self.absolute.as_str(), path.as_str())
    }
}

// ---------------------------------------------------------------------------
// Kinds and enums
// ---------------------------------------------------------------------------

/// Project kind.
#[derive(Clone, Copy, Debug, PartialEq, Eq, Structural)]
pub enum ProjectKind {
    /// Product or service application boundary.
    App,
    /// Shared capability extracted behind public facades.
    Framework,
    /// Company-level foundation service.
    FoundationService,
    /// Central proto source ownership project.
    ProtoRoot,
    /// Shared infrastructure baseline.
    CoreInfra,
    /// Independently owned component under the core infrastructure lane.
    CoreInfraComponent,
    /// Developer, agent, or repository automation tooling.
    Tool,
}

/// Workspace execution toolchain.
#[derive(Clone, Debug, PartialEq, Eq)]
pub enum Toolchain {
    /// Cargo toolchain.
    Cargo,
    /// npm toolchain.
    Npm,
    /// pnpm toolchain.
    Pnpm,
    /// Yarn toolchain.
    Yarn,
    /// Bun toolchain.
    Bun,
    /// uv toolchain.
    Uv,
    /// Custom toolchain name.
    Custom(String),
}

/// Manifest spelling of a toolchain.
pub open spec fn toolchain_text(t: Toolchain) -> Seq<char> {
    match t {
        Toolchain::Cargo => "cargo"@,
        Toolchain::Npm => "npm"@,
        Toolchain::Pnpm => "pnpm"@,
        Toolchain::Yarn => "yarn"@,
        Toolchain::Bun => "bun"@,
        Toolchain::Uv => "uv"@,
        Toolchain::Custom(s) => s@,
    }
}

/// Character allowed in toolchain names.
pub open spec fn toolchain_char(c: char) -> bool {
    is_lower(c) || is_digit(c) || c == '-'
}

/// The diagnostic a toolchain check yields, or `None` when accepted.
pub open spec fn toolchain_problem(v: Seq<char>) -> Option<DiagnosticModel> {
    if v.len() == 0 || byte_len(v) > 128 {
        Some(error_model("manifest.workspace.toolchain"@, "toolchain must be non-empty and length-bounded"@))
    } else if exists|i: int| 0 <= i < v.len() && !toolchain_char(#[trigger] v[i]) {
        Some(error_model("manifest.workspace.toolchain"@, "toolchain contains unsupported characters"@))
    } else {
        None
    }
}

/// One of the toolchains with a variant of its own.
pub open spec fn known_toolchain(v: Seq<char>) -> bool {
    v == "cargo"@ || v == "npm"@ || v == "pnpm"@ || v == "yarn"@ || v == "bun"@ || v == "uv"@
}

impl Toolchain {
    /// Parses a manifest toolchain value.
    #[verifier::loop_isolation(false)]
    pub fn parse(value: &str) -> (r: Result<Self, Diagnostic>)
        ensures
            match r {
                Ok(t) => toolchain_problem(value@) is None && toolchain_text(t) == value@ && (t is Custom <==> !known_toolchain(value@)),
                Err(d) => toolchain_problem(value@) == Some(d@),
            },
    {
        let cs = chars_of(value);
        if cs.len() == 0 || byte_len_exceeds(&cs, NAME_MAX_BYTES) {
            return Err(Diagnostic::error("manifest.workspace.toolchain", "toolchain must be non-empty and length-bounded"));
        }
        let mut i: usize = 0;
        while i < cs.len()
            invariant
                i <= cs.len(),
                cs@ == value@,
                forall|k: int| 0 <= k < i ==> toolchain_char(cs@[k]),
            decreases cs.len() - i,
        {
            let c = cs[i];
            if !(('a' <= c && c <= 'z') || ('0' <= c && c <= '9') || c == '-') {
                assert(!toolchain_char(value@[i as int]));
                return Err(Diagnostic::error("manifest.workspace.toolchain", "toolchain contains unsupported characters"));
            }
            i = i + 1;
        }
        if str_eq(value, "cargo") {
            Ok(Toolchain::Cargo)
        } else if str_eq(value, "npm") {
            Ok(Toolchain::Npm)
        } else if str_eq(value, "pnpm") {
            Ok(Toolchain::Pnpm)
        } else if str_eq(value, "yarn") {
            Ok(Toolchain::Yarn)
        } else if str_eq(value, "bun") {
            Ok(Toolchain::Bun)
        } else if str_eq(value, "uv") {
            Ok(Toolchain::Uv)
        } else {
            Ok(Toolchain::Custom(owned(value)))
        }
    }

    /// Returns the manifest representation.
    pub fn as_str(&self) -> (s: &str)
        ensures
            s@ == toolchain_text(*self),
    {
        match self {
            Toolchain::Cargo => "cargo",
            Toolchain::Npm => "npm",
            Toolchain::Pnpm => "pnpm",
            Toolchain::Yarn => "yarn",
            Toolchain::Bun => "bun",
            Toolchain::Uv => "uv",
            Toolchain::Custom(value) => value.as_str(),
        }
    }
}

/// Workspace language.
#[derive(Clone, Copy, Debug, PartialEq, Eq, Structural)]
pub enum WorkspaceLanguage {
    /// Rust workspace.
    Rust,
    /// TypeScript or JavaScript workspace.
    TypeScript,
    /// Python workspace.
    Python,
    /// Protocol buffer workspace.
    Proto,
    /// Infrastructure workspace.
    Iac,
}

/// Project visibility.
#[derive(Clone, Copy, Debug, Default, PartialEq, Eq, Structural)]
pub enum Visibility {
    /// Internal project visibility.
    #[default]
    Internal,
    /// Public project visibility.
    Public,
}

/// `IaC` provider.
#[derive(Clone, Copy, Debug, PartialEq, Eq, Structural)]
pub enum IacProvider {
    /// Pulumi provider.
    Pulumi,
    /// Terraform provider.
    Terraform,
    /// `OpenTofu` provider.
    OpenTofu,
}

/// Generated-code placement policy.
#[derive(Clone, Copy, Debug, Default, PartialEq, Eq, Structural)]
pub enum GeneratedCodePolicy {
    /// Generated code lives under each consumer project.
    #[default]
    ConsumerLocal,
}

/// Policy enforcement mode.
#[derive(Clone, Copy, Debug, Default, PartialEq, Eq, Structural)]
pub enum PolicyMode {
    /// Deny the matched condition.
    #[default]
    Deny,
    /// Warn on the matched condition.
    Warn,
    /// Allow the matched condition.
    Allow,
}

// ---------------------------------------------------------------------------
// Manifests
// ---------------------------------------------------------------------------

/// Validated repo-level manifest.
#[derive(Clone, Debug, PartialEq, Eq)]
pub struct RepoManifest {
    /// Manifest schema id.
    pub schema: SchemaId,
    /// Repository name.
    pub name: RepoName,
    /// Required repository layout.
    pub layout: RepoLayout,
    /// Default owner used when project manifests omit owners.
    pub default_owner: Option<OwnerHandle>,
    /// Proto source root.
    pub protos_root: RepoRelativePath,
    /// Core infrastructure root.
    pub core_infra_root: RepoRelativePath,
    /// Agent skills root.
    pub agent_skills_root: RepoRelativePath,
    /// Second agent skills root.
    pub claude_skills_root: RepoRelativePath,
    /// Context output root.
    pub context_output: RepoRelativePath,
    /// Generated-code policy.
    pub generated_code_policy: GeneratedCodePolicy,
    /// Global policy settings.
    pub policies: RepoPolicySet,
}

/// Repo-level policy configuration.
#[derive(Clone, Debug, Default, PartialEq, Eq)]
pub struct RepoPolicySet {
    /// Cross-app dependency policy mode.
    pub cross_app_dependency: PolicyMode,
    /// Framework internal dependency policy mode.
    pub framework_internal_dependency: PolicyMode,
    /// Generated-code direct-edit policy mode.
    pub generated_code_direct_edit: PolicyMode,
    /// Required owners for production changes.
    pub prod_change_required_owners: Vec<OwnerHandle>,
}

/// Validated workspace specification.
#[derive(Clone, Debug, PartialEq, Eq)]
pub struct WorkspaceSpec {
    /// Workspace id.
    pub name: WorkspaceName,
    /// Workspace language.
    pub language: WorkspaceLanguage,
    /// Optional execution toolchain such as `npm`, `bun`, or `uv`.
    pub toolchain: Option<Toolchain>,
    /// Workspace root relative to the project root.
    pub root: ProjectRelativePath,
    /// Workspace manifest path relative to the project root.
    pub manifest: ProjectRelativePath,
    /// Optional lockfile path relative to the project root.
    pub lockfile: Option<ProjectRelativePath>,
    /// Optional repo-level target directory.
    pub target_dir: Option<RepoRelativePath>,
    /// Optional repo-level cache directory.
    pub cache_dir: Option<RepoRelativePath>,
}

/// Task command declared for a workspace.
#[derive(Clone, Debug, PartialEq, Eq)]
pub struct TaskCommand {
    /// Workspace that should execute the command.
    pub workspace: WorkspaceName,
    /// Command in argv form.
    pub command: CommandSpec,
    /// Commands that must run before this command.
    pub depends_on: Vec<TaskDependency>,
}

/// Task prerequisite edge.
#[derive(Clone, Debug, PartialEq, Eq, PartialOrd, Ord)]
pub struct TaskDependency {
    /// Project containing the prerequisite task.
    pub project: ProjectName,
    /// Workspace containing the prerequisite task.
    pub workspace: WorkspaceName,
    /// Task to run first.
    pub task: TaskName,
}

/// Task run plan command in argv form.
#[derive(Clone, Debug, PartialEq, Eq)]
pub struct CommandSpec {
    /// Executable program.
    pub program: String,
    /// Command arguments.
    pub args: Vec<String>,
}

/// Result of parsing a command line into a program and its arguments.
pub open spec fn command_parse(v: Seq<char>) -> Result<(Seq<char>, Seq<Seq<char>>), DiagnosticModel> {
    if all_space(v) || byte_len(v) > 256 * 64 {
        Err(error_model("manifest.command.invalid"@, "command must be non-empty and length-bounded"@))
    } else if shell_syntax_problem(v) is Some {
        Err(shell_syntax_problem(v)->0)
    } else {
        match split_command_spec(v) {
            Err(d) => Err(d),
            Ok(parts) => if parts.len() == 0 {
                Err(error_model("manifest.command.invalid"@, "command must include a program"@))
            } else if parts.len() > 64 {
                Err(error_model("manifest.command.too_many_args"@, "command has too many arguments"@))
            } else if exists|k: int| 0 <= k < parts.len() && byte_len(#[trigger] parts[k]) > 256 {
                Err(error_model("manifest.command.part_too_long"@, "command part exceeds byte limit"@))
            } else {
                Ok((parts[0], parts.drop_first()))
            },
        }
    }
}

impl CommandSpec {
    /// Parses a command string into argv form: no shell syntax, at most 64
    /// words of at most 256 bytes, quotes and backslash escapes honoured.
    #[verifier::loop_isolation(false)]
    pub fn parse(value: &str) -> (r: Result<Self, Diagnostic>)
        ensures
            match r {
                Ok(c) => command_parse(value@) == Ok::<(Seq<char>, Seq<Seq<char>>), DiagnosticModel>((c.program@, strs(c.args@))),
                Err(d) => command_parse(value@) == Err::<(Seq<char>, Seq<Seq<char>>), DiagnosticModel>(d@),
            },
    {
        let cs = chars_of(value);
        if all_space_exec(&cs) || byte_len_exceeds(&cs, COMMAND_PART_MAX_BYTES * COMMAND_ARG_LIMIT) {
            return Err(Diagnostic::error("manifest.command.invalid", "command must be non-empty and length-bounded"));
        }
        reject_shell_syntax(&cs)?;
        let parts = split_command(&cs)?;
        if parts.len() == 0 {
            return Err(Diagnostic::error("manifest.command.invalid", "command must include a program"));
        }
        if parts.len() > COMMAND_ARG_LIMIT {
            return Err(Diagnostic::error("manifest.command.too_many_args", "command has too many arguments"));
        }
        let mut i: usize = 0;
        while i < parts.len()
            invariant
                i <= parts.len(),
                forall|k: int| 0 <= k < i ==> byte_len(#[trigger] pieces(parts@)[k]) <= 256,
            decreases parts.len() - i,
        {
            if byte_len_exceeds(&parts[i], COMMAND_PART_MAX_BYTES) {
                assert(byte_len(pieces(parts@)[i as int]) > 256);
                return Err(Diagnostic::error("manifest.command.part_too_long", "command part exceeds byte limit"));
            }
            i = i + 1;
        }
        let program = string_of(&parts[0]);
        let args = strings_of(&parts, 1);
        assert(strs(args@) =~= pieces(parts@).drop_first());
        Ok(CommandSpec { program, args })
    }
}

/// Dependency target surface requested by a manifest or discovered adapter.
#[derive(Clone, Copy, Debug, PartialEq, Eq, Structural)]
pub enum DependencySurface {
    /// No specific surface was requested.
    Unspecified,
    /// Public facade of a framework.
    FrameworkFacade,
    /// Internal area of a framework.
    FrameworkInternal,
    /// Public client of a foundation service.
    FoundationPublicClient,
    /// Internal area of a foundation service.
    FoundationInternal,
    /// Public module of core infrastructure.
    CoreInfraPublicModule,
    /// Internal module of core infrastructure.
    CoreInfraInternalModule,
}

/// Dependency target.
#[derive(Clone, Debug, PartialEq, Eq)]
pub enum DependencyTarget {
    /// Dependency points to a project.
    Project(ProjectName),
    /// Dependency points to a proto package.
    ProtoPackage(ProtoPackageName),
}

/// Validated dependency declaration.
#[derive(Clone, Debug, PartialEq, Eq)]
pub struct ProjectDependency {
    /// Raw dependency id as written in the manifest.
    pub id: String,
    /// Resolved target.
    pub target: DependencyTarget,
    /// Requested dependency surface.
    pub surface: DependencySurface,
}

/// Parsed meaning of a dependency id: the target's name, whether it is a
/// proto package, and the requested surface.
pub struct DependencyMeaning {
    pub name: Seq<char>,
    pub proto: bool,
    pub surface: DependencySurface,
}

/// `v` without its last `n` characters.
pub open spec fn drop_suffix(v: Seq<char>, n: nat) -> Seq<char> {
    v.subrange(0, v.len() - n)
}

/// Checks a project-name part and pairs it with a surface.
pub open spec fn project_meaning(name: Seq<char>, surface: DependencySurface) -> Result<DependencyMeaning, DiagnosticModel> {
    match ident_problem("project name"@, name, 128, true) {
        Some(d) => Err(d),
        None => Ok(DependencyMeaning { name, proto: false, surface }),
    }
}

/// Result of parsing a dependency declaration: `protos.*` names a proto
/// package; a `.client`, `.internal` or `.facade` suffix selects a surface of
/// the named project.
pub open spec fn dependency_parse(v: Seq<char>) -> Result<DependencyMeaning, DiagnosticModel> {
    if has_prefix(v, "protos."@) {
        match ident_problem("proto package"@, v, 128, true) {
            Some(d) => Err(d),
            None => Ok(DependencyMeaning { name: v, proto: true, surface: DependencySurface::Unspecified }),
        }
    } else if has_suffix(v, ".client"@) {
        project_meaning(drop_suffix(v, ".client"@.len()), DependencySurface::FoundationPublicClient)
    } else if has_suffix(v, ".internal"@) {
        let s = drop_suffix(v, ".internal"@.len());
        project_meaning(
            s,
            if has_prefix(s, "frameworks."@) {
                DependencySurface::FrameworkInternal
            } else if has_prefix(s, "foundations."@) {
                DependencySurface::FoundationInternal
            } else {
                DependencySurface::Unspecified
            },
        )
    } else if has_suffix(v, ".facade"@) {
        project_meaning(drop_suffix(v, ".facade"@.len()), DependencySurface::FrameworkFacade)
    } else {
        project_meaning(v, DependencySurface::Unspecified)
    }
}

/// The meaning a dependency value carries.
pub open spec fn dependency_meaning(d: ProjectDependency) -> DependencyMeaning {
    match d.target {
        DependencyTarget::Project(n) => DependencyMeaning { name: n@, proto: false, surface: d.surface },
        DependencyTarget::ProtoPackage(n) => DependencyMeaning { name: n@, proto: true, surface: d.surface },
    }
}

impl ProjectDependency {
    /// Parses a dependency declaration.
    pub fn parse(value: &str) -> (r: Result<Self, Diagnostic>)
        ensures
            match r {
                Ok(d) => d.id@ == value@ && dependency_parse(value@) == Ok::<DependencyMeaning, DiagnosticModel>(dependency_meaning(d)),
                Err(e) => dependency_parse(value@) == Err::<DependencyMeaning, DiagnosticModel>(e@),
            },
    {
        let v = chars_of(value);
        let protos = chars_of("protos.");
        if starts_with(&v, &protos) {
            let name = ProtoPackageName::new(value)?;
            return Ok(ProjectDependency {
                id: owned(value),
                target: DependencyTarget::ProtoPackage(name),
                surface: DependencySurface::Unspecified,
            });
        }
        let client = chars_of(".client");
        let internal = chars_of(".internal");
        let facade = chars_of(".facade");
        let (stem, surface) = if ends_with(&v, &client) {
            (slice_chars(&v, 0, v.len() - client.len()), DependencySurface::FoundationPublicClient)
        } else if ends_with(&v, &internal) {
            let stem = slice_chars(&v, 0, v.len() - internal.len());
            let frameworks = chars_of("frameworks.");
            let foundations = chars_of("foundations.");
            let surface = if starts_with(&stem, &frameworks) {
                DependencySurface::FrameworkInternal
            } else if starts_with(&stem, &foundations) {
                DependencySurface::FoundationInternal
            } else {
                DependencySurface::Unspecified
            };
            (stem, surface)
        } else if ends_with(&v, &facade) {
            (slice_chars(&v, 0, v.len() - facade.len()), DependencySurface::FrameworkFacade)
        } else {
            (copy_chars(&v), DependencySurface::Unspecified)
        };
        let stem_text = string_of(&stem);
        let name = ProjectName::new(stem_text.as_str())?;
        Ok(ProjectDependency { id: owned(value), target: DependencyTarget::Project(name), surface })
    }
}


/// Project proto ownership and consumption specification.
#[derive(Clone, Debug, Default, PartialEq, Eq)]
pub struct ProjectProtoSpec {
    /// Proto glob patterns owned by the project.
    pub owns: Vec<RepoGlob>,
    /// Proto glob patterns consumed by the project.
    pub consumes: Vec<RepoGlob>,
}

/// Project `IaC` specification.
#[derive(Clone, Debug, PartialEq, Eq)]
pub struct IacSpec {
    /// `IaC` root relative to the project root.
    pub root: ProjectRelativePath,
    /// `IaC` provider.
    pub provider: IacProvider,
    /// Declared stack names.
    pub stacks: Vec<String>,
}

/// Project deployment specification.
#[derive(Clone, Debug, PartialEq, Eq)]
pub struct DeploySpec {
    /// Deploy root relative to the project root.
    pub root: ProjectRelativePath,
    /// Environment names.
    pub environments: Vec<String>,
}

/// Project AI edit policy.
#[derive(Clone, Debug, Default, PartialEq, Eq)]
pub struct ProjectAiSpec {
    /// Editable path globs.
    pub editable: Vec<RepoGlob>,
    /// Do-not-edit path globs.
    pub do_not_edit: Vec<RepoGlob>,
    /// Documentation paths.
    pub docs: Vec<ProjectRelativePath>,
}

/// Public and internal project areas used for boundary classification.
/// Each map is a list of `(language, paths)` entries with distinct languages.
#[derive(Clone, Debug, Default, PartialEq, Eq)]
pub struct ProjectAreas {
    /// Public facade paths keyed by language.
    pub public_facades: Vec<(String, Vec<ProjectRelativePath>)>,
    /// Public client paths keyed by language.
    pub public_clients: Vec<(String, Vec<ProjectRelativePath>)>,
    /// Internal paths keyed by language.
    pub internal: Vec<(String, Vec<ProjectRelativePath>)>,
    /// Public core-infra modules.
    pub public_modules: Vec<ProjectRelativePath>,
    /// Internal core-infra modules.
    pub internal_modules: Vec<ProjectRelativePath>,
}

/// Validated project manifest.
#[derive(Clone, Debug, PartialEq)]
pub struct ProjectManifest {
    /// Manifest schema id.
    pub schema: SchemaId,
    /// Project id.
    pub name: ProjectName,
    /// Project kind.
    pub kind: ProjectKind,
    /// Project root path in the repository.
    pub path: RepoRelativePath,
    /// Project owners.
    pub owners: Vec<OwnerHandle>,
    /// Project visibility.
    pub visibility: Visibility,
    /// Workspaces declared by the project.
    pub workspaces: Vec<WorkspaceSpec>,
    /// Project dependencies declared in the manifest.
    pub depends_on: Vec<ProjectDependency>,
    /// Task definitions keyed by task name, with distinct task names.
    pub tasks: Vec<(TaskName, Vec<TaskCommand>)>,
    /// Optional `IaC` specification.
    pub iac: Option<IacSpec>,
    /// Optional deployment specification.
    pub deploy: Option<DeploySpec>,
    /// Optional proto specification.
    pub protos: ProjectProtoSpec,
    /// Optional AI policy specification.
    pub ai: ProjectAiSpec,
    /// Public and internal areas.
    pub areas: ProjectAreas,
    /// Project-local policy flags.
    pub policies: BTreeMap<String, serde_json::Value>,
    /// Source manifest path.
    pub source: RepoRelativePath,
}

/// Graph node id of a project.
pub open spec fn project_node_id(name: Seq<char>) -> Seq<char> {
    "project:"@ + name
}

impl ProjectManifest {
    /// Returns the project node id.
    pub fn node_id(&self) -> (s: String)
        ensures
            s@ == project_node_id(self.name@),
    {
        concat2("project:", self.name.as_str())
    }

    /// Returns true when the project owns the given repo-relative path.
    pub fn contains_path(&self, path: &RepoRelativePath) -> (r: bool)
        ensures
            r == path_below(path@, self.path@),
    {
        path.starts_with(&self.path)
    }
}

/// Template manifest.
#[derive(Clone, Debug, PartialEq)]
pub struct TemplateManifest {
    /// Manifest schema id.
    pub schema: SchemaId,
    /// Template name.
    pub name: String,
    /// Template kind.
    pub kind: String,
    /// Template engine.
    pub engine: String,
    /// Template inputs.
    pub inputs: Vec<TemplateInput>,
    /// Template file mappings.
    pub files: Vec<TemplateFile>,
    /// Post-render validation commands.
    pub post_render_validate: Vec<CommandSpec>,
}

/// Template source selector.
#[derive(Clone, Debug, PartialEq, Eq)]
pub enum TemplateSource {
    /// Built-in template by stable name.
    Builtin {
        /// Built-in template name.
        name: String,
    },
    /// Repository-local template root.
    Local {
        /// Repo-relative template root.
        root: RepoRelativePath,
    },
}

/// Resolved template source and manifest.
#[derive(Clone, Debug, PartialEq)]
pub struct ResolvedTemplateSource {
    /// Source root used to resolve template files.
    pub root: RepoRelativePath,
    /// Parsed template manifest.
    pub manifest: TemplateManifest,
}

/// Template input declaration.
#[derive(Clone, Debug, PartialEq)]
pub struct TemplateInput {
    /// Input name.
    pub name: String,
    /// Input type.
    pub input_type: String,
    /// Whether the input is required.
    pub required: bool,
    /// Optional JSON default value.
    pub default: Option<serde_json::Value>,
}

/// Template file declaration.
#[derive(Clone, Debug, PartialEq, Eq)]
pub struct TemplateFile {
    /// Template source path.
    pub source: ProjectRelativePath,
    /// Render target expression.
    pub target: String,
    /// Render mode.
    pub mode: String,
    /// Optional condition expression.
    pub when: Option<String>,
}

// ---------------------------------------------------------------------------
// Graph
// ---------------------------------------------------------------------------

/// Graph node kind.
#[derive(Clone, Copy, Debug, PartialEq, Eq, Structural)]
pub enum GraphNodeKind {
    /// Project node.
    Project,
    /// Workspace node.
    Workspace,
    /// Proto package or glob node.
    ProtoPackage,
    /// Infrastructure target node.
    IacTarget,
    /// Template node.
    Template,
}

/// Graph node.
#[derive(Clone, Debug, PartialEq, Eq)]
pub struct GraphNode {
    /// Stable graph node id.
    pub id: String,
    /// Node kind.
    pub kind: GraphNodeKind,
    /// Human-readable label.
    pub label: String,
    /// Owning project when applicable.
    pub project: Option<ProjectName>,
    /// Owning workspace when applicable.
    pub workspace: Option<WorkspaceName>,
}

/// Abstract value of a [`GraphNode`].
pub struct NodeModel {
    pub id: Seq<char>,
    pub kind: GraphNodeKind,
    pub label: Seq<char>,
    pub project: Option<Seq<char>>,
    pub workspace: Option<Seq<char>>,
}

impl View for GraphNode {
    type V = NodeModel;

    open spec fn view(&self) -> NodeModel {
        NodeModel {
            id: self.id@,
            kind: self.kind,
            label: self.label@,
            project: match self.project {
                Some(p) => Some(p@),
                None => None,
            },
            workspace: match self.workspace {
                Some(w) => Some(w@),
                None => None,
            },
        }
    }
}

impl GraphNode {
    /// A copy of the node.
    pub fn duplicate(&self) -> (r: Self)
        ensures
            r@ == self@,
    {
        GraphNode {
            id: self.id.clone(),
            kind: self.kind,
            label: self.label.clone(),
            project: match &self.project {
                Some(p) => Some(p.duplicate()),
                None => None,
            },
            workspace: match &self.workspace {
                Some(w) => Some(w.duplicate()),
                None => None,
            },
        }
    }
}

/// Graph edge kind.
#[derive(Clone, Copy, Debug, PartialEq, Eq, Structural)]
pub enum EdgeKind {
    /// Project dependency edge.
    DependsOnProject,
    /// Project contains workspace edge.
    ContainsWorkspace,
    /// Project consumes proto edge.
    ConsumesProto,
    /// Project owns proto edge.
    OwnsProto,
    /// Project uses framework facade edge.
    UsesFrameworkFacade,
    /// Project uses framework internal edge.
    UsesFrameworkInternal,
    /// Project uses foundation public client edge.
    UsesFoundationClient,
    /// Project uses foundation internal edge.
    UsesFoundationInternal,
    /// Project uses public core infrastructure module edge.
    UsesCoreInfraModule,
    /// Project uses internal core infrastructure module edge.
    UsesCoreInfraInternalModule,
    /// Project owns `IaC` target edge.
    OwnsIac,
    /// Project runs task edge.
    RunsTask,
}

/// Graph edge.
#[derive(Clone, Debug, PartialEq, Eq)]
pub struct GraphEdge {
    /// Source node id.
    pub from: String,
    /// Target node id.
    pub to: String,
    /// Edge kind.
    pub kind: EdgeKind,
    /// Evidence path or manifest value.
    pub evidence: Option<String>,
}

/// Abstract value of a [`GraphEdge`].
pub struct EdgeModel {
    pub from: Seq<char>,
    pub to: Seq<char>,
    pub kind: EdgeKind,
    pub evidence: Option<Seq<char>>,
}

impl View for GraphEdge {
    type V = EdgeModel;

    open spec fn view(&self) -> EdgeModel {
        EdgeModel { from: self.from@, to: self.to@, kind: self.kind, evidence: opt_view(self.evidence) }
    }
}

/// Whether two optional strings are equal.
pub fn same_opt(a: &Option<String>, b: &Option<String>) -> (r: bool)
    ensures
        r == (opt_view(*a) == opt_view(*b)),
{
    match (a, b) {
        (Some(x), Some(y)) => *x == *y,
        (None, None) => true,
        _ => false,
    }
}

impl GraphEdge {
    /// A copy of the edge.
    pub fn duplicate(&self) -> (r: Self)
        ensures
            r@ == self@,
    {
        GraphEdge { from: self.from.clone(), to: self.to.clone(), kind: self.kind, evidence: copy_opt(&self.evidence) }
    }
}

impl GraphEdge {
    /// Whether two edges have the same endpoints, kind and evidence.
    pub fn same(&self, other: &GraphEdge) -> (r: bool)
        ensures
            r == (self@ == other@),
    {
        self.from == other.from && self.to == other.to && self.kind == other.kind && same_opt(&self.evidence, &other.evidence)
    }
}

/// Repository graph.
#[derive(Clone, Debug, Default, PartialEq, Eq)]
pub struct RepoGraph {
    /// Graph nodes.
    pub nodes: Vec<GraphNode>,
    /// Graph edges.
    pub edges: Vec<GraphEdge>,
}

/// Some node in `nodes` has the id `id`.
pub open spec fn has_node_id(nodes: Seq<GraphNode>, id: Seq<char>) -> bool {
    exists|i: int| 0 <= i < nodes.len() && (#[trigger] nodes[i]).id@ == id
}

/// The nodes after adding `node` unless its id is already present.
pub open spec fn with_node(nodes: Seq<GraphNode>, node: GraphNode) -> Seq<GraphNode> {
    if has_node_id(nodes, node.id@) {
        nodes
    } else {
        nodes.push(node)
    }
}

/// Some edge in `edges` equals `edge`.
pub open spec fn has_edge(edges: Seq<GraphEdge>, edge: EdgeModel) -> bool {
    exists|i: int| 0 <= i < edges.len() && (#[trigger] edges[i])@ == edge
}

/// The edges after adding `edge` unless an equal edge is already present.
pub open spec fn with_edge(edges: Seq<GraphEdge>, edge: GraphEdge) -> Seq<GraphEdge> {
    if has_edge(edges, edge@) {
        edges
    } else {
        edges.push(edge)
    }
}

/// Views of a list of nodes.
pub open spec fn node_views(v: Seq<GraphNode>) -> Seq<NodeModel> {
    v.map_values(|n: GraphNode| n@)
}

/// Views of a list of edges.
pub open spec fn edge_views(v: Seq<GraphEdge>) -> Seq<EdgeModel> {
    v.map_values(|e: GraphEdge| e@)
}

impl RepoGraph {
    /// A copy of the graph.
    pub fn duplicate(&self) -> (r: Self)
        ensures
            node_views(r.nodes@) == node_views(self.nodes@),
            edge_views(r.edges@) == edge_views(self.edges@),
    {
        let mut nodes: Vec<GraphNode> = Vec::new();
        let mut i: usize = 0;
        while i < self.nodes.len()
            invariant
                i <= self.nodes.len(),
                nodes@.len() == i,
                forall|k: int| 0 <= k < i ==> (#[trigger] nodes@[k])@ == self.nodes@[k]@,
            decreases self.nodes.len() - i,
        {
            nodes.push(self.nodes[i].duplicate());
            i = i + 1;
        }
        let mut edges: Vec<GraphEdge> = Vec::new();
        let mut j: usize = 0;
        while j < self.edges.len()
            invariant
                j <= self.edges.len(),
                edges@.len() == j,
                forall|k: int| 0 <= k < j ==> (#[trigger] edges@[k])@ == self.edges@[k]@,
            decreases self.edges.len() - j,
        {
            edges.push(self.edges[j].duplicate());
            j = j + 1;
        }
        assert(node_views(nodes@) =~= node_views(self.nodes@));
        assert(edge_views(edges@) =~= edge_views(self.edges@));
        RepoGraph { nodes, edges }
    }
}

impl RepoGraph {
    /// Adds a graph node if no node with its id is already present.
    pub fn add_node(&mut self, node: GraphNode)
        ensures
            final(self).nodes@ == with_node(old(self).nodes@, node),
            final(self).edges@ == old(self).edges@,
    {
        let mut i: usize = 0;
        while i < self.nodes.len()
            invariant
                i <= self.nodes.len(),
                forall|k: int| 0 <= k < i ==> (#[trigger] self.nodes@[k]).id@ != node.id@,
            decreases self.nodes.len() - i,
        {
            if self.nodes[i].id == node.id {
                return;
            }
            i = i + 1;
        }
        self.nodes.push(node);
    }

    /// Adds a graph edge if no equal edge is already present.
    pub fn add_edge(&mut self, edge: GraphEdge)
        ensures
            final(self).edges@ == with_edge(old(self).edges@, edge),
            final(self).nodes@ == old(self).nodes@,
    {
        let mut i: usize = 0;
        while i < self.edges.len()
            invariant
                i <= self.edges.len(),
                forall|k: int| 0 <= k < i ==> (#[trigger] self.edges@[k])@ != edge@,
            decreases self.edges.len() - i,
        {
            if self.edges[i].same(&edge) {
                return;
            }
            i = i + 1;
        }
        self.edges.push(edge);
    }
}

/// Reads the system clock: seconds since the Unix epoch, `None` when the
/// clock is set before it. The value depends on the time of the call, so
/// nothing is stated of it.
#[verifier::external_body]
fn unix_seconds_now() -> Option<u64> {
    match std::time::SystemTime::now().duration_since(std::time::UNIX_EPOCH) {
        Ok(duration) => Some(duration.as_secs()),
        Err(_) => None,
    }
}

/// Snapshot of the discovered repository.
#[derive(Clone, Debug, PartialEq)]
pub struct RepoSnapshot {
    /// Absolute repository root.
    pub root: RepoRoot,
    /// Repo-level manifest.
    pub repo_manifest: RepoManifest,
    /// Discovered project manifests.
    pub projects: Vec<ProjectManifest>,
    /// Built repository graph.
    pub graph: RepoGraph,
    /// Generated-code policy.
    pub generated_policy: GeneratedCodePolicy,
    /// Unix timestamp in seconds when discovery completed.
    pub discovered_at_unix: u64,
}

impl RepoSnapshot {
    /// Creates a repository snapshot stamped with the current time.
    pub fn new(root: RepoRoot, repo_manifest: RepoManifest, projects: Vec<ProjectManifest>, graph: RepoGraph) -> (r: Self)
        ensures
            r.root == root,
            r.repo_manifest == repo_manifest,
            r.projects == projects,
            r.graph == graph,
            r.generated_policy == repo_manifest.generated_code_policy,
    {
        let discovered_at_unix = match unix_seconds_now() {
            Some(seconds) => seconds,
            None => 0,
        };
        let generated_policy = repo_manifest.generated_code_policy;
        RepoSnapshot { root, repo_manifest, projects, graph, generated_policy, discovered_at_unix }
    }

    /// Finds the first project with the given name.
    pub fn project(&self, name: &ProjectName) -> (r: Option<&ProjectManifest>)
        ensures
            match r {
                Some(p) => exists|i: int|
                    0 <= i < self.projects@.len() && self.projects@[i] == *p && p.name@ == name@
                        && forall|j: int| 0 <= j < i ==> (#[trigger] self.projects@[j]).name@ != name@,
                None => forall|i: int| 0 <= i < self.projects@.len() ==> (#[trigger] self.projects@[i]).name@ != name@,
            },
    {
        let mut i: usize = 0;
        while i < self.projects.len()
            invariant
                i <= self.projects.len(),
                forall|k: int| 0 <= k < i ==> (#[trigger] self.projects@[k]).name@ != name@,
            decreases self.projects.len() - i,
        {
            if self.projects[i].name.same(name) {
                return Some(&self.projects[i]);
            }
            i = i + 1;
        }
        None
    }
}

/// Directory a project kind must live under.
pub open spec fn kind_prefix(kind: ProjectKind) -> Seq<char> {
    match kind {
        ProjectKind::App => "apps/"@,
        ProjectKind::Framework => "frameworks/"@,
        ProjectKind::FoundationService => "foundations/"@,
        ProjectKind::ProtoRoot => "protos"@,
        ProjectKind::CoreInfra => "core-infra"@,
        ProjectKind::CoreInfraComponent => "core-infra/"@,
        ProjectKind::Tool => "tools/"@,
    }
}

/// Variant name of a project kind.
pub open spec fn kind_debug(kind: ProjectKind) -> Seq<char> {
    match kind {
        ProjectKind::App => "App"@,
        ProjectKind::Framework => "Framework"@,
        ProjectKind::FoundationService => "FoundationService"@,
        ProjectKind::ProtoRoot => "ProtoRoot"@,
        ProjectKind::CoreInfra => "CoreInfra"@,
        ProjectKind::CoreInfraComponent => "CoreInfraComponent"@,
        ProjectKind::Tool => "Tool"@,
    }
}

/// The proto root and core infrastructure live exactly at their directory;
/// other kinds live below theirs.
pub open spec fn follows_convention(kind: ProjectKind, path: Seq<char>) -> bool {
    match kind {
        ProjectKind::ProtoRoot | ProjectKind::CoreInfra => path == kind_prefix(kind),
        _ => has_prefix(path, kind_prefix(kind)),
    }
}

/// Diagnostics for a project that breaks its kind's path convention.
pub open spec fn convention_diagnostics(kind: ProjectKind, name: Seq<char>, path: Seq<char>, source: Seq<char>) -> Seq<DiagnosticModel> {
    if follows_convention(kind, path) {
        Seq::empty()
    } else {
        seq![
            with_path_model(
                error_model(
                    "manifest.project.path_convention"@,
                    "project `"@ + name + "` of kind "@ + kind_debug(kind) + " must live under `"@ + kind_prefix(kind) + "`"@,
                ),
                source,
            ),
        ]
    }
}

/// Directory a project kind must live under.
pub fn kind_prefix_exec(kind: ProjectKind) -> (s: &'static str)
    ensures
        s@ == kind_prefix(kind),
{
    match kind {
        ProjectKind::App => "apps/",
        ProjectKind::Framework => "frameworks/",
        ProjectKind::FoundationService => "foundations/",
        ProjectKind::ProtoRoot => "protos",
        ProjectKind::CoreInfra => "core-infra",
        ProjectKind::CoreInfraComponent => "core-infra/",
        ProjectKind::Tool => "tools/",
    }
}

/// Variant name of a project kind.
pub fn kind_debug_exec(kind: ProjectKind) -> (s: &'static str)
    ensures
        s@ == kind_debug(kind),
{
    match kind {
        ProjectKind::App => "App",
        ProjectKind::Framework => "Framework",
        ProjectKind::FoundationService => "FoundationService",
        ProjectKind::ProtoRoot => "ProtoRoot",
        ProjectKind::CoreInfra => "CoreInfra",
        ProjectKind::CoreInfraComponent => "CoreInfraComponent",
        ProjectKind::Tool => "Tool",
    }
}

/// Validates project path conventions for the supported kinds.
pub fn validate_project_convention(project: &ProjectManifest) -> (r: Vec<Diagnostic>)
    ensures
        crate::diagnostic::models(r@) == convention_diagnostics(project.kind, project.name@, project.path@, project.source@),
{
    let prefix = kind_prefix_exec(project.kind);
    let path = chars_of(project.path.as_str());
    let pre = chars_of(prefix);
    let valid = match project.kind {
        ProjectKind::ProtoRoot | ProjectKind::CoreInfra => crate::text::seq_eq(&path, &pre),
        _ => starts_with(&path, &pre),
    };
    let mut r: Vec<Diagnostic> = Vec::new();
    if !valid {
        let mut msg = concat2("project `", project.name.as_str());
        push_str(&mut msg, "` of kind ");
        push_str(&mut msg, kind_debug_exec(project.kind));
        push_str(&mut msg, " must live under `");
        push_str(&mut msg, prefix);
        push_str(&mut msg, "`");
        let d = Diagnostic::error("manifest.project.path_convention", msg.as_str()).with_path(project.source.as_str());
        r.push(d);
        assert(crate::diagnostic::models(r@) =~= convention_diagnostics(project.kind, project.name@, project.path@, project.source@));
    } else {
        assert(crate::diagnostic::models(r@) =~= Seq::<DiagnosticModel>::empty());
    }
    r
}

} // verus!
