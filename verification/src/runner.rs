//! Task-runner logic: toolchain environments, affected-analysis helpers and
//! the text utilities the runner uses.
use vstd::prelude::*;

use std::collections::BTreeMap;

use crate::diagnostic::RepoctlError;
use crate::domain::{RepoRelativePath, Toolchain, WorkspaceSpec};
use crate::text::{
    chars_of, concat2, has_infix, has_prefix, has_suffix, is_alnum, is_digit, is_space, join_with,
    owned, push_str, slice_chars, split_on, string_of, strs,
};

verus! {

// ---------------------------------------------------------------------------
// Toolchain environments
// ---------------------------------------------------------------------------

/// Input passed to toolchain adapters.
#[derive(Debug)]
pub struct ToolchainEnvironmentInput<'a> {
    /// Workspace whose commands will run.
    pub workspace: &'a WorkspaceSpec,
}

/// What an environment map holds: each key and its value, by their text.
pub uninterp spec fn env_entries(m: BTreeMap<String, String>) -> Map<Seq<char>, Seq<char>>;

/// No entries.
pub open spec fn no_entries() -> Map<Seq<char>, Seq<char>> {
    Map::empty()
}

/// `BTreeMap::new`: a map with no entries.
#[verifier::external_body]
pub(crate) fn empty_env() -> (env: BTreeMap<String, String>)
    ensures
        env_entries(env) == no_entries(),
{
    BTreeMap::new()
}

/// `BTreeMap::insert`: afterwards the key maps to the value and every other
/// entry is unchanged (`String` keys are ordered and compared by their text).
#[verifier::external_body]
pub(crate) fn insert_env(env: &mut BTreeMap<String, String>, key: String, value: String)
    ensures
        env_entries(*final(env)) == env_entries(*old(env)).insert(key@, value@),
{
    env.insert(key, value);
}

/// The entries of a map holding at most the given one.
pub open spec fn entry_map(entry: Option<(Seq<char>, Seq<char>)>) -> Map<Seq<char>, Seq<char>> {
    match entry {
        Some((k, v)) => no_entries().insert(k, v),
        None => no_entries(),
    }
}

/// Supplies environment variables for a toolchain's commands.
pub trait ToolchainAdapter {
    /// The toolchain the adapter handles.
    spec fn handled(&self) -> Toolchain;

    /// The overlay the adapter gives a workspace's commands, `None` where it
    /// fails.
    spec fn overlay(&self, workspace: WorkspaceSpec) -> Option<Map<Seq<char>, Seq<char>>>;

    /// Toolchain handled by the adapter.
    fn toolchain(&self) -> (t: Toolchain)
        ensures
            t == self.handled();

    /// Environment overlay for a workspace's commands.
    fn environment(&self, input: &ToolchainEnvironmentInput) -> (r: Result<BTreeMap<String, String>, RepoctlError>)
        ensures
            match r {
                Ok(m) => self.overlay(*input.workspace) == Some(env_entries(m)),
                Err(_) => self.overlay(*input.workspace) is None,
            };
}

/// The variable an adapter sets, with the repo-relative directory it points
/// to, when the workspace declares that directory.
pub open spec fn dir_entry(var: Seq<char>, dir: Option<RepoRelativePath>) -> Option<(Seq<char>, Seq<char>)> {
    match dir {
        Some(d) => Some((var, d@)),
        None => None,
    }
}

fn dir_variable(var: &str, dir: &Option<RepoRelativePath>) -> (r: Option<(String, String)>)
    ensures
        match r {
            Some((k, v)) => dir_entry(var@, *dir) == Some((k@, v@)),
            None => dir_entry(var@, *dir) is None,
        },
{
    match dir {
        Some(d) => Some((owned(var), owned(d.as_str()))),
        None => None,
    }
}

fn env_of(entry: Option<(String, String)>) -> (r: BTreeMap<String, String>)
    ensures
        env_entries(r) == entry_map(match entry {
            Some((k, v)) => Some((k@, v@)),
            None => None,
        }),
{
    let mut env: BTreeMap<String, String> = empty_env();
    match entry {
        Some((k, v)) => {
            insert_env(&mut env, k, v);
        },
        None => {},
    }
    env
}

/// Rust task environment adapter: the workspace target directory as
/// `CARGO_TARGET_DIR`.
#[derive(Clone, Copy, Debug, Default)]
pub struct RustToolchainAdapter;

impl RustToolchainAdapter {
    /// The variable set for a workspace, if any.
    pub fn entry(&self, workspace: &WorkspaceSpec) -> (r: Option<(String, String)>)
        ensures
            match r {
                Some((k, v)) => dir_entry("CARGO_TARGET_DIR"@, workspace.target_dir) == Some((k@, v@)),
                None => dir_entry("CARGO_TARGET_DIR"@, workspace.target_dir) is None,
            },
    {
        dir_variable("CARGO_TARGET_DIR", &workspace.target_dir)
    }
}

impl ToolchainAdapter for RustToolchainAdapter {
    open spec fn handled(&self) -> Toolchain {
        Toolchain::Cargo
    }

    open spec fn overlay(&self, workspace: WorkspaceSpec) -> Option<Map<Seq<char>, Seq<char>>> {
        Some(entry_map(dir_entry("CARGO_TARGET_DIR"@, workspace.target_dir)))
    }

    fn toolchain(&self) -> (t: Toolchain)
        ensures
            t == Toolchain::Cargo,
    {
        Toolchain::Cargo
    }

    fn environment(&self, input: &ToolchainEnvironmentInput) -> (r: Result<BTreeMap<String, String>, RepoctlError>)
        ensures
            r is Ok,
    {
        Ok(env_of(self.entry(input.workspace)))
    }
}

/// npm task environment adapter: the workspace cache directory as
/// `NPM_CONFIG_CACHE`.
#[derive(Clone, Copy, Debug, Default)]
pub struct NpmToolchainAdapter;

impl NpmToolchainAdapter {
    /// The variable set for a workspace, if any.
    pub fn entry(&self, workspace: &WorkspaceSpec) -> (r: Option<(String, String)>)
        ensures
            match r {
                Some((k, v)) => dir_entry("NPM_CONFIG_CACHE"@, workspace.cache_dir) == Some((k@, v@)),
                None => dir_entry("NPM_CONFIG_CACHE"@, workspace.cache_dir) is None,
            },
    {
        dir_variable("NPM_CONFIG_CACHE", &workspace.cache_dir)
    }
}

impl ToolchainAdapter for NpmToolchainAdapter {
    open spec fn handled(&self) -> Toolchain {
        Toolchain::Npm
    }

    open spec fn overlay(&self, workspace: WorkspaceSpec) -> Option<Map<Seq<char>, Seq<char>>> {
        Some(entry_map(dir_entry("NPM_CONFIG_CACHE"@, workspace.cache_dir)))
    }

    fn toolchain(&self) -> (t: Toolchain)
        ensures
            t == Toolchain::Npm,
    {
        Toolchain::Npm
    }

    fn environment(&self, input: &ToolchainEnvironmentInput) -> (r: Result<BTreeMap<String, String>, RepoctlError>)
        ensures
            r is Ok,
    {
        Ok(env_of(self.entry(input.workspace)))
    }
}

/// pnpm task environment adapter: the workspace cache directory as
/// `PNPM_STORE_DIR`.
#[derive(Clone, Copy, Debug, Default)]
pub struct PnpmToolchainAdapter;

impl PnpmToolchainAdapter {
    /// The variable set for a workspace, if any.
    pub fn entry(&self, workspace: &WorkspaceSpec) -> (r: Option<(String, String)>)
        ensures
            match r {
                Some((k, v)) => dir_entry("PNPM_STORE_DIR"@, workspace.cache_dir) == Some((k@, v@)),
                None => dir_entry("PNPM_STORE_DIR"@, workspace.cache_dir) is None,
            },
    {
        dir_variable("PNPM_STORE_DIR", &workspace.cache_dir)
    }
}

impl ToolchainAdapter for PnpmToolchainAdapter {
    open spec fn handled(&self) -> Toolchain {
        Toolchain::Pnpm
    }

    open spec fn overlay(&self, workspace: WorkspaceSpec) -> Option<Map<Seq<char>, Seq<char>>> {
        Some(entry_map(dir_entry("PNPM_STORE_DIR"@, workspace.cache_dir)))
    }

    fn toolchain(&self) -> (t: Toolchain)
        ensures
            t == Toolchain::Pnpm,
    {
        Toolchain::Pnpm
    }

    fn environment(&self, input: &ToolchainEnvironmentInput) -> (r: Result<BTreeMap<String, String>, RepoctlError>)
        ensures
            r is Ok,
    {
        Ok(env_of(self.entry(input.workspace)))
    }
}

/// Yarn task environment adapter: the workspace cache directory as
/// `YARN_CACHE_FOLDER`.
#[derive(Clone, Copy, Debug, Default)]
pub struct YarnToolchainAdapter;

impl YarnToolchainAdapter {
    /// The variable set for a workspace, if any.
    pub fn entry(&self, workspace: &WorkspaceSpec) -> (r: Option<(String, String)>)
        ensures
            match r {
                Some((k, v)) => dir_entry("YARN_CACHE_FOLDER"@, workspace.cache_dir) == Some((k@, v@)),
                None => dir_entry("YARN_CACHE_FOLDER"@, workspace.cache_dir) is None,
            },
    {
        dir_variable("YARN_CACHE_FOLDER", &workspace.cache_dir)
    }
}

impl ToolchainAdapter for YarnToolchainAdapter {
    open spec fn handled(&self) -> Toolchain {
        Toolchain::Yarn
    }

    open spec fn overlay(&self, workspace: WorkspaceSpec) -> Option<Map<Seq<char>, Seq<char>>> {
        Some(entry_map(dir_entry("YARN_CACHE_FOLDER"@, workspace.cache_dir)))
    }

    fn toolchain(&self) -> (t: Toolchain)
        ensures
            t == Toolchain::Yarn,
    {
        Toolchain::Yarn
    }

    fn environment(&self, input: &ToolchainEnvironmentInput) -> (r: Result<BTreeMap<String, String>, RepoctlError>)
        ensures
            r is Ok,
    {
        Ok(env_of(self.entry(input.workspace)))
    }
}

/// Bun task environment adapter: the workspace cache directory as
/// `BUN_INSTALL_CACHE_DIR`.
#[derive(Clone, Copy, Debug, Default)]
pub struct BunToolchainAdapter;

impl BunToolchainAdapter {
    /// The variable set for a workspace, if any.
    pub fn entry(&self, workspace: &WorkspaceSpec) -> (r: Option<(String, String)>)
        ensures
            match r {
                Some((k, v)) => dir_entry("BUN_INSTALL_CACHE_DIR"@, workspace.cache_dir) == Some((k@, v@)),
                None => dir_entry("BUN_INSTALL_CACHE_DIR"@, workspace.cache_dir) is None,
            },
    {
        dir_variable("BUN_INSTALL_CACHE_DIR", &workspace.cache_dir)
    }
}

impl ToolchainAdapter for BunToolchainAdapter {
    open spec fn handled(&self) -> Toolchain {
        Toolchain::Bun
    }

    open spec fn overlay(&self, workspace: WorkspaceSpec) -> Option<Map<Seq<char>, Seq<char>>> {
        Some(entry_map(dir_entry("BUN_INSTALL_CACHE_DIR"@, workspace.cache_dir)))
    }

    fn toolchain(&self) -> (t: Toolchain)
        ensures
            t == Toolchain::Bun,
    {
        Toolchain::Bun
    }

    fn environment(&self, input: &ToolchainEnvironmentInput) -> (r: Result<BTreeMap<String, String>, RepoctlError>)
        ensures
            r is Ok,
    {
        Ok(env_of(self.entry(input.workspace)))
    }
}

/// uv task environment adapter: the workspace cache directory as
/// `UV_CACHE_DIR`.
#[derive(Clone, Copy, Debug, Default)]
pub struct UvToolchainAdapter;

impl UvToolchainAdapter {
    /// The variable set for a workspace, if any.
    pub fn entry(&self, workspace: &WorkspaceSpec) -> (r: Option<(String, String)>)
        ensures
            match r {
                Some((k, v)) => dir_entry("UV_CACHE_DIR"@, workspace.cache_dir) == Some((k@, v@)),
                None => dir_entry("UV_CACHE_DIR"@, workspace.cache_dir) is None,
            },
    {
        dir_variable("UV_CACHE_DIR", &workspace.cache_dir)
    }
}

impl ToolchainAdapter for UvToolchainAdapter {
    open spec fn handled(&self) -> Toolchain {
        Toolchain::Uv
    }

    open spec fn overlay(&self, workspace: WorkspaceSpec) -> Option<Map<Seq<char>, Seq<char>>> {
        Some(entry_map(dir_entry("UV_CACHE_DIR"@, workspace.cache_dir)))
    }

    fn toolchain(&self) -> (t: Toolchain)
        ensures
            t == Toolchain::Uv,
    {
        Toolchain::Uv
    }

    fn environment(&self, input: &ToolchainEnvironmentInput) -> (r: Result<BTreeMap<String, String>, RepoctlError>)
        ensures
            r is Ok,
    {
        Ok(env_of(self.entry(input.workspace)))
    }
}

// ---------------------------------------------------------------------------
// Affected-analysis helpers
// ---------------------------------------------------------------------------

/// Whether a proto pattern covers a path: `prefix/**` covers every path
/// starting with `prefix`, any other pattern only itself.
pub open spec fn simple_glob_match(pattern: Seq<char>, path: Seq<char>) -> bool {
    if has_suffix(pattern, "/**"@) {
        has_prefix(path, pattern.subrange(0, pattern.len() - 3))
    } else {
        pattern == path
    }
}

/// Whether a proto pattern covers a path.
pub fn glob_match(pattern: &str, path: &str) -> (r: bool)
    ensures
        r == simple_glob_match(pattern@, path@),
{
    let p = chars_of(pattern);
    let suffix = chars_of("/**");
    proof {
        reveal_strlit("/**");
    }
    if crate::text::ends_with(&p, &suffix) {
        let prefix = slice_chars(&p, 0, p.len() - 3);
        crate::text::starts_with(&chars_of(path), &prefix)
    } else {
        crate::text::str_eq(pattern, path)
    }
}

/// The project named by a `project:<name>` node id.
pub open spec fn node_project(node: Seq<char>) -> Option<Seq<char>> {
    if has_prefix(node, "project:"@) {
        Some(node.skip(8))
    } else {
        None
    }
}

/// The project named by a `project:<name>` node id.
pub fn project_from_node(node: &str) -> (r: Option<String>)
    ensures
        match r {
            Some(s) => node_project(node@) == Some(s@),
            None => node_project(node@) is None,
        },
{
    let cs = chars_of(node);
    let prefix = chars_of("project:");
    proof {
        reveal_strlit("project:");
    }
    if crate::text::starts_with(&cs, &prefix) {
        let rest = string_of(&slice_chars(&cs, 8, cs.len()));
        assert(rest@ =~= node@.skip(8));
        Some(rest)
    } else {
        None
    }
}

/// Explains why a project is affected by a path.
pub fn reason(path: &RepoRelativePath, project: &crate::domain::ProjectName, message: &str) -> (r: crate::requests::AffectedReason)
    ensures
        r.source@ == path@,
        r.target@ == project@,
        r.reason@ == message@,
{
    crate::requests::AffectedReason { source: owned(path.as_str()), target: owned(project.as_str()), reason: owned(message) }
}

/// Distinct values in increasing order.
pub fn unique_strings(values: &Vec<String>) -> (r: Vec<String>)
    ensures
        strs(r@) == crate::policy::sorted_distinct(strs(values@)),
{
    crate::policy::sort_dedup(values)
}

// ---------------------------------------------------------------------------
// Text utilities
// ---------------------------------------------------------------------------

/// Session names keep ASCII letters, digits, `-` and `_`; every other
/// character becomes `-`.
pub open spec fn sanitized(name: Seq<char>) -> Seq<char> {
    name.map_values(|c: char| if is_alnum(c) || c == '-' || c == '_' { c } else { '-' })
}

/// Makes a name safe for use as a session file name.
pub fn sanitize_session_name(name: &str) -> (r: String)
    ensures
        r@ == sanitized(name@),
{
    let cs = chars_of(name);
    let mut out: Vec<char> = Vec::new();
    let mut i: usize = 0;
    while i < cs.len()
        invariant
            i <= cs.len(),
            cs@ == name@,
            out@ == sanitized(cs@.subrange(0, i as int)),
        decreases cs.len() - i,
    {
        let c = cs[i];
        let keep = ('a' <= c && c <= 'z') || ('A' <= c && c <= 'Z') || ('0' <= c && c <= '9') || c == '-' || c == '_';
        out.push(if keep { c } else { '-' });
        i = i + 1;
        assert(out@ =~= sanitized(cs@.subrange(0, i as int)));
    }
    assert(cs@.subrange(0, cs@.len() as int) =~= cs@);
    string_of(&out)
}

/// DNS zone of a record: its last two labels, or the record itself when it
/// has fewer.
pub open spec fn dns_zone(record: Seq<char>) -> Seq<char> {
    let parts = split_on(record, '.');
    if parts.len() >= 2 {
        parts[parts.len() - 2] + "."@ + parts[parts.len() - 1]
    } else {
        record
    }
}

/// DNS zone of a record.
pub fn infer_dns_zone(record: &str) -> (r: String)
    ensures
        r@ == dns_zone(record@),
{
    let parts = crate::text::split_exec(&chars_of(record), '.');
    if parts.len() >= 2 {
        let mut out = string_of(&parts[parts.len() - 2]);
        push_str(&mut out, ".");
        crate::text::push_chars(&mut out, &parts[parts.len() - 1]);
        out
    } else {
        owned(record)
    }
}

/// Value of a run of decimal digits.
pub open spec fn digits_value(ds: Seq<char>) -> nat
    decreases ds.len(),
{
    if ds.len() == 0 {
        0
    } else {
        digits_value(ds.drop_last()) * 10 + ((ds.last() as u32 - '0' as u32) as nat)
    }
}

/// The first run of digits in a version string.
pub open spec fn leading_digits(v: Seq<char>) -> Seq<char> {
    let start = first_digit(v, 0);
    v.subrange(start, digit_run_end(v, start))
}

/// Index of the first digit at or after `i`, or the length.
pub open spec fn first_digit(v: Seq<char>, i: int) -> int
    decreases v.len() - i,
{
    if i < 0 || i >= v.len() {
        v.len() as int
    } else if is_digit(v[i]) {
        i
    } else {
        first_digit(v, i + 1)
    }
}

/// End of the run of digits starting at `i`.
pub open spec fn digit_run_end(v: Seq<char>, i: int) -> int
    decreases v.len() - i,
{
    if i < 0 || i >= v.len() {
        if i < 0 { 0 } else { v.len() as int }
    } else if is_digit(v[i]) {
        digit_run_end(v, i + 1)
    } else {
        i
    }
}

/// A runtime version string names a major version of 7 or more: its first
/// run of digits reads as a `u64` of at least 7.
pub open spec fn supports_function_url(v: Seq<char>) -> bool {
    let ds = leading_digits(v);
    ds.len() > 0 && digits_value(ds) <= u64::MAX && digits_value(ds) >= 7
}

/// Whether a runtime version reports invocations through function URLs.
pub fn version_supports_invoked_via_function_url(version: &str) -> (r: bool)
    ensures
        r == supports_function_url(version@),
{
    let cs = chars_of(version);
    let mut start: usize = 0;
    while start < cs.len() && !('0' <= cs[start] && cs[start] <= '9')
        invariant
            start <= cs.len(),
            cs@ == version@,
            first_digit(cs@, 0) == first_digit(cs@, start as int),
        decreases cs.len() - start,
    {
        start = start + 1;
    }
    assert(first_digit(cs@, 0) == start);
    let mut end: usize = start;
    let mut value: u64 = 0;
    let mut overflow = false;
    while end < cs.len() && '0' <= cs[end] && cs[end] <= '9'
        invariant
            start <= end <= cs.len(),
            cs@ == version@,
            digit_run_end(cs@, start as int) == digit_run_end(cs@, end as int),
            overflow ==> digits_value(cs@.subrange(start as int, end as int)) > u64::MAX,
            !overflow ==> value == digits_value(cs@.subrange(start as int, end as int)),
        decreases cs.len() - end,
    {
        let d = (cs[end] as u32 - '0' as u32) as u64;
        let ghost before = cs@.subrange(start as int, end as int);
        assert(cs@.subrange(start as int, end as int + 1).drop_last() =~= before);
        assert(digits_value(cs@.subrange(start as int, end as int + 1)) == digits_value(before) * 10 + d);
        if !overflow {
            if value > (u64::MAX - d) / 10 {
                overflow = true;
                assert(digits_value(before) * 10 + d > u64::MAX) by (nonlinear_arith)
                    requires
                        value == digits_value(before),
                        value > (u64::MAX - d) / 10,
                        d <= 9,
                ;
            } else {
                assert(value * 10 + d <= u64::MAX) by (nonlinear_arith)
                    requires
                        value <= (u64::MAX - d) / 10,
                        d <= 9,
                ;
                value = value * 10 + d;
            }
        } else {
            assert(digits_value(before) * 10 + d > u64::MAX) by (nonlinear_arith)
                requires
                    digits_value(before) > u64::MAX,
            ;
        }
        end = end + 1;
    }
    assert(digit_run_end(cs@, start as int) == end);
    end > start && !overflow && value >= 7
}

// ---------------------------------------------------------------------------
// Redaction
// ---------------------------------------------------------------------------

/// Words of `s` and the word being read, splitting at whitespace.
pub open spec fn words_acc(s: Seq<char>) -> (Seq<Seq<char>>, Seq<char>)
    decreases s.len(),
{
    if s.len() == 0 {
        (Seq::empty(), Seq::empty())
    } else {
        let (ws, cur) = words_acc(s.drop_last());
        if is_space(s.last()) {
            if cur.len() > 0 {
                (ws.push(cur), Seq::empty())
            } else {
                (ws, Seq::empty())
            }
        } else {
            (ws, cur.push(s.last()))
        }
    }
}

/// The whitespace-separated words of `s`, as `str::split_whitespace`
/// yields them.
pub open spec fn words(s: Seq<char>) -> Seq<Seq<char>> {
    let (ws, cur) = words_acc(s);
    if cur.len() > 0 {
        ws.push(cur)
    } else {
        ws
    }
}

/// Splits at whitespace, dropping empty words.
pub fn split_words(s: &Vec<char>) -> (r: Vec<Vec<char>>)
    ensures
        crate::text::pieces(r@) == words(s@),
{
    let mut ws: Vec<Vec<char>> = Vec::new();
    let mut cur: Vec<char> = Vec::new();
    let mut i: usize = 0;
    while i < s.len()
        invariant
            i <= s.len(),
            (crate::text::pieces(ws@), cur@) == words_acc(s@.subrange(0, i as int)),
        decreases s.len() - i,
    {
        assert(s@.subrange(0, i as int + 1).drop_last() =~= s@.subrange(0, i as int));
        if crate::check::is_space_exec(s[i]) {
            if cur.len() > 0 {
                ws.push(cur);
                cur = Vec::new();
            }
        } else {
            cur.push(s[i]);
        }
        i = i + 1;
        assert(crate::text::pieces(ws@) =~= words_acc(s@.subrange(0, i as int)).0);
        assert(cur@ =~= words_acc(s@.subrange(0, i as int)).1);
    }
    assert(s@.subrange(0, s@.len() as int) =~= s@);
    if cur.len() > 0 {
        ws.push(cur);
    }
    assert(crate::text::pieces(ws@) =~= words(s@));
    ws
}

/// ASCII letters lowered, as `str::to_ascii_lowercase` does.
pub open spec fn ascii_lower(s: Seq<char>) -> Seq<char> {
    s.map_values(|c: char| if 'A' <= c && c <= 'Z' { ((c as u8) + 32) as char } else { c })
}

fn ascii_lower_exec(s: &Vec<char>) -> (r: Vec<char>)
    ensures
        r@ == ascii_lower(s@),
{
    let mut out: Vec<char> = Vec::new();
    let mut i: usize = 0;
    while i < s.len()
        invariant
            i <= s.len(),
            out@ == ascii_lower(s@.subrange(0, i as int)),
        decreases s.len() - i,
    {
        let c = s[i];
        let l = if 'A' <= c && c <= 'Z' { ((c as u8) + 32) as char } else { c };
        out.push(l);
        i = i + 1;
        assert(out@ =~= ascii_lower(s@.subrange(0, i as int)));
    }
    assert(s@.subrange(0, s@.len() as int) =~= s@);
    out
}

/// A word naming a header that carries credentials in the next two words.
pub open spec fn names_header(lower: Seq<char>) -> bool {
    has_infix(lower, "authorization"@) || has_infix(lower, "cookie"@)
}

/// A word naming a secret.
pub open spec fn names_secret(lower: Seq<char>) -> bool {
    has_infix(lower, "token"@) || has_infix(lower, "secret"@) || has_infix(lower, "api_key"@) || has_infix(lower, "apikey"@)
}

/// Words after redaction and how many following words are still to hide.
pub open spec fn redact_acc(parts: Seq<Seq<char>>) -> (Seq<Seq<char>>, nat)
    decreases parts.len(),
{
    if parts.len() == 0 {
        (Seq::empty(), 0)
    } else {
        let (out, skip) = redact_acc(parts.drop_last());
        let part = parts.last();
        if skip > 0 {
            (out.push("[REDACTED]"@), (skip - 1) as nat)
        } else if names_header(ascii_lower(part)) {
            (out.push("[REDACTED]"@), 2)
        } else if names_secret(ascii_lower(part)) {
            (out.push("[REDACTED]"@), if !part.contains('=') && !part.contains(':') { 1 } else { 0 })
        } else {
            (out.push(part), 0)
        }
    }
}

/// A command line with credential-like values hidden: a word naming an
/// authorization or cookie header hides itself and the next two words; a
/// word naming a token, secret or API key hides itself, and the next word
/// too unless it carries its value after `=` or `:`.
pub open spec fn redacted(value: Seq<char>) -> Seq<char> {
    join_with(redact_acc(words(value)).0, " "@)
}

/// Hides credential-like values in a command line.
pub fn redact_secret_like_values(value: &str) -> (r: String)
    ensures
        r@ == redacted(value@),
{
    let parts = split_words(&chars_of(value));
    let ghost ps = crate::text::pieces(parts@);
    let authorization = chars_of("authorization");
    let cookie = chars_of("cookie");
    let token = chars_of("token");
    let secret = chars_of("secret");
    let api_key = chars_of("api_key");
    let apikey = chars_of("apikey");
    let hidden = chars_of("[REDACTED]");
    let mut out: Vec<Vec<char>> = Vec::new();
    let mut skip: u8 = 0;
    let mut i: usize = 0;
    while i < parts.len()
        invariant
            i <= parts.len(),
            ps == crate::text::pieces(parts@),
            authorization@ == "authorization"@,
            cookie@ == "cookie"@,
            token@ == "token"@,
            secret@ == "secret"@,
            api_key@ == "api_key"@,
            apikey@ == "apikey"@,
            hidden@ == "[REDACTED]"@,
            (crate::text::pieces(out@), skip as nat) == redact_acc(ps.subrange(0, i as int)),
        decreases parts.len() - i,
    {
        assert(ps.subrange(0, i as int + 1).drop_last() =~= ps.subrange(0, i as int));
        assert(ps.subrange(0, i as int + 1).last() == parts@[i as int]@);
        let part = &parts[i];
        if skip > 0 {
            out.push(crate::check::copy_chars(&hidden));
            skip = skip - 1;
        } else {
            let lower = ascii_lower_exec(part);
            if crate::text::contains_seq(&lower, &authorization) || crate::text::contains_seq(&lower, &cookie) {
                out.push(crate::check::copy_chars(&hidden));
                skip = 2;
            } else if crate::text::contains_seq(&lower, &token) || crate::text::contains_seq(&lower, &secret)
                || crate::text::contains_seq(&lower, &api_key) || crate::text::contains_seq(&lower, &apikey) {
                out.push(crate::check::copy_chars(&hidden));
                if !crate::text::contains_char(part, '=') && !crate::text::contains_char(part, ':') {
                    skip = 1;
                }
            } else {
                out.push(crate::check::copy_chars(part));
            }
        }
        i = i + 1;
        assert(crate::text::pieces(out@) =~= redact_acc(ps.subrange(0, i as int)).0);
    }
    assert(ps.subrange(0, ps.len() as int) =~= ps);
    let joined = crate::text::join_exec(&out, &chars_of(" "));
    string_of(&joined)
}

} // verus!
