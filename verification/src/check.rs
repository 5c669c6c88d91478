//! Validators for identifiers, paths and commands used by the domain types.
use vstd::prelude::*;

use crate::diagnostic::{Diagnostic, DiagnosticModel, error_model};
use crate::text::{
    concat2, concat3, contains_char, contains_seq, has_infix, is_digit, is_lower, is_space, join_exec, join_with, pieces,
    split_exec, split_on, string_of,
};

verus! {

// ---------------------------------------------------------------------------
// Byte lengths
// ---------------------------------------------------------------------------

/// Number of bytes in the UTF-8 encoding of one character.
pub open spec fn char_width(c: char) -> nat {
    if (c as u32) < 0x80 {
        1
    } else if (c as u32) < 0x800 {
        2
    } else if (c as u32) < 0x10000 {
        3
    } else {
        4
    }
}

/// Number of bytes in the UTF-8 encoding of `s`.
pub open spec fn byte_len(s: Seq<char>) -> nat
    decreases s.len(),
{
    if s.len() == 0 {
        0
    } else {
        byte_len(s.drop_last()) + char_width(s.last())
    }
}

pub proof fn lemma_byte_len_prefix(s: Seq<char>, i: int)
    requires
        0 <= i <= s.len(),
    ensures
        byte_len(s.subrange(0, i)) <= byte_len(s),
    decreases s.len(),
{
    if i < s.len() {
        assert(s.drop_last().subrange(0, i) =~= s.subrange(0, i));
        lemma_byte_len_prefix(s.drop_last(), i);
    } else {
        assert(s.subrange(0, i) =~= s);
    }
}

pub proof fn lemma_byte_len_concat(a: Seq<char>, b: Seq<char>)
    ensures
        byte_len(a + b) == byte_len(a) + byte_len(b),
    decreases b.len(),
{
    if b.len() == 0 {
        assert(a + b =~= a);
    } else {
        assert((a + b).drop_last() =~= a + b.drop_last());
        lemma_byte_len_concat(a, b.drop_last());
    }
}

pub proof fn lemma_byte_len_at_least_len(s: Seq<char>)
    ensures
        byte_len(s) >= s.len(),
    decreases s.len(),
{
    if s.len() > 0 {
        lemma_byte_len_at_least_len(s.drop_last());
    }
}

/// Width of one character in UTF-8.
pub fn char_width_exec(c: char) -> (w: usize)
    ensures
        w == char_width(c),
{
    let code = c as u32;
    if code < 0x80 {
        1
    } else if code < 0x800 {
        2
    } else if code < 0x10000 {
        3
    } else {
        4
    }
}

/// Whether the UTF-8 encoding of `v` is longer than `limit` bytes.
pub fn byte_len_exceeds(v: &Vec<char>, limit: usize) -> (r: bool)
    requires
        limit <= usize::MAX - 4,
    ensures
        r == (byte_len(v@) > limit),
{
    let mut acc: usize = 0;
    let mut i: usize = 0;
    while i < v.len()
        invariant
            i <= v.len(),
            limit <= usize::MAX - 4,
            acc == byte_len(v@.subrange(0, i as int)),
            acc <= limit,
        decreases v.len() - i,
    {
        assert(v@.subrange(0, i + 1).drop_last() =~= v@.subrange(0, i as int));
        acc = acc + char_width_exec(v[i]);
        i = i + 1;
        if acc > limit {
            proof {
                lemma_byte_len_prefix(v@, i as int);
            }
            return true;
        }
    }
    assert(v@.subrange(0, v@.len() as int) =~= v@);
    false
}

/// Whitespace test matching `char::is_whitespace`.
pub fn is_space_exec(c: char) -> (r: bool)
    ensures
        r == is_space(c),
{
    c == ' ' || c == '\t' || c == '\n' || c == '\u{b}' || c == '\u{c}' || c == '\r' || c
        == '\u{85}' || c == '\u{a0}' || c == '\u{1680}' || ('\u{2000}' <= c && c <= '\u{200a}')
        || c == '\u{2028}' || c == '\u{2029}' || c == '\u{202f}' || c == '\u{205f}' || c
        == '\u{3000}'
}

/// Every character is whitespace.
pub open spec fn all_space(s: Seq<char>) -> bool {
    forall|i: int| 0 <= i < s.len() ==> is_space(s[i])
}

/// Whether every character of `v` is whitespace.
pub fn all_space_exec(v: &Vec<char>) -> (r: bool)
    ensures
        r == all_space(v@),
{
    let mut i: usize = 0;
    while i < v.len()
        invariant
            i <= v.len(),
            forall|k: int| 0 <= k < i ==> is_space(v@[k]),
        decreases v.len() - i,
    {
        if !is_space_exec(v[i]) {
            return false;
        }
        i = i + 1;
    }
    true
}

// ---------------------------------------------------------------------------
// Identifiers
// ---------------------------------------------------------------------------

/// Character allowed in identifiers.
pub open spec fn ident_char(c: char, allow_dot: bool) -> bool {
    is_lower(c) || is_digit(c) || c == '-' || c == '_' || (allow_dot && c == '.')
}

/// Outcome of scanning an identifier from the left.
pub enum IdentScan {
    Clean,
    BadChar,
    DoubleDot,
}

/// First problem met when scanning the first `n` characters of `v`.
pub open spec fn ident_scan(v: Seq<char>, allow_dot: bool, n: int) -> IdentScan
    decreases n,
{
    if n <= 0 {
        IdentScan::Clean
    } else {
        match ident_scan(v, allow_dot, n - 1) {
            IdentScan::Clean => {
                let c = v[n - 1];
                if !ident_char(c, allow_dot) {
                    IdentScan::BadChar
                } else if allow_dot && c == '.' && n >= 2 && v[n - 2] == '.' {
                    IdentScan::DoubleDot
                } else {
                    IdentScan::Clean
                }
            },
            other => other,
        }
    }
}

/// The diagnostic an identifier check yields, or `None` when `v` is accepted.
pub open spec fn ident_problem(label: Seq<char>, v: Seq<char>, max_bytes: nat, allow_dot: bool) -> Option<DiagnosticModel> {
    if v.len() == 0 || byte_len(v) > max_bytes {
        Some(error_model("manifest.identifier.invalid"@, label + " must be non-empty and length-bounded"@))
    } else {
        match ident_scan(v, allow_dot, v.len() as int) {
            IdentScan::BadChar => Some(error_model("manifest.identifier.invalid"@, label + " contains unsupported characters"@)),
            IdentScan::DoubleDot => Some(error_model("manifest.identifier.invalid"@, label + " cannot contain consecutive dots"@)),
            IdentScan::Clean => if allow_dot && (v[0] == '.' || v.last() == '.') {
                Some(error_model("manifest.identifier.invalid"@, label + " cannot start or end with a dot"@))
            } else {
                None
            },
        }
    }
}

/// An accepted identifier consists of allowed characters only.
pub proof fn lemma_ident_clean_chars(v: Seq<char>, allow_dot: bool, n: int)
    requires
        0 <= n <= v.len(),
        ident_scan(v, allow_dot, n) is Clean,
    ensures
        forall|k: int| 0 <= k < n ==> ident_char(v[k], allow_dot),
    decreases n,
{
    if n > 0 {
        lemma_ident_clean_chars(v, allow_dot, n - 1);
    }
}

/// Checks that `value` is a non-empty, length-bounded identifier of
/// lowercase letters, digits, `-` and `_`, and dots when `allow_dot` holds.
#[verifier::loop_isolation(false)]
pub fn validate_ascii_identifier(label: &str, value: &Vec<char>, max_bytes: usize, allow_dot: bool) -> (r: Result<(), Diagnostic>)
    requires
        max_bytes <= usize::MAX - 4,
    ensures
        match r {
            Ok(()) => ident_problem(label@, value@, max_bytes as nat, allow_dot) is None,
            Err(d) => ident_problem(label@, value@, max_bytes as nat, allow_dot) == Some(d@),
        },
{
    if value.len() == 0 || byte_len_exceeds(value, max_bytes) {
        let msg = concat2(label, " must be non-empty and length-bounded");
        return Err(Diagnostic::error("manifest.identifier.invalid", msg.as_str()));
    }
    let mut previous_dot = false;
    let mut i: usize = 0;
    while i < value.len()
        invariant
            i <= value.len(),
            ident_scan(value@, allow_dot, i as int) is Clean,
            previous_dot == (i > 0 && value@[i - 1] == '.'),
        decreases value.len() - i,
    {
        let c = value[i];
        let is_dot = c == '.';
        let allowed = ('a' <= c && c <= 'z') || ('0' <= c && c <= '9') || c == '-' || c == '_'
            || (allow_dot && is_dot);
        if !allowed {
            proof {
                assert(!ident_char(value@[i as int], allow_dot));
                assert(ident_scan(value@, allow_dot, i as int + 1) is BadChar);
                lemma_ident_scan_stays(value@, allow_dot, i as int + 1, value@.len() as int);
                assert(ident_scan(value@, allow_dot, value@.len() as int) is BadChar);
            }
            let msg = concat2(label, " contains unsupported characters");
            return Err(Diagnostic::error("manifest.identifier.invalid", msg.as_str()));
        }
        if allow_dot && is_dot && previous_dot {
            proof {
                lemma_ident_scan_stays(value@, allow_dot, i as int + 1, value@.len() as int);
            }
            let msg = concat2(label, " cannot contain consecutive dots");
            return Err(Diagnostic::error("manifest.identifier.invalid", msg.as_str()));
        }
        previous_dot = is_dot;
        i = i + 1;
    }
    if allow_dot && (value[0] == '.' || value[value.len() - 1] == '.') {
        let msg = concat2(label, " cannot start or end with a dot");
        return Err(Diagnostic::error("manifest.identifier.invalid", msg.as_str()));
    }
    Ok(())
}

/// Once the scan has met a problem, longer scans report the same problem.
pub proof fn lemma_ident_scan_stays(v: Seq<char>, allow_dot: bool, n: int, m: int)
    requires
        0 <= n <= m,
        !(ident_scan(v, allow_dot, n) is Clean),
    ensures
        ident_scan(v, allow_dot, m) == ident_scan(v, allow_dot, n),
    decreases m - n,
{
    if m > n {
        lemma_ident_scan_stays(v, allow_dot, n, m - 1);
    }
}

// ---------------------------------------------------------------------------
// Paths
// ---------------------------------------------------------------------------

/// Longest accepted path, in bytes.
pub const PATH_MAX_BYTES: usize = 512;

/// A path segment that is rejected: `..`, or one holding `*` when globs are not allowed.
pub open spec fn bad_segment(part: Seq<char>, allow_glob: bool) -> bool {
    part == seq!['.', '.'] || (!allow_glob && part.contains('*'))
}

/// The diagnostic a path-text check yields, or `None` when `v` is accepted.
pub open spec fn path_text_problem(v: Seq<char>, allow_glob: bool) -> Option<DiagnosticModel> {
    if v.len() == 0 || byte_len(v) > PATH_MAX_BYTES {
        Some(error_model("manifest.path.invalid"@, "path must be non-empty and length-bounded"@))
    } else if v.contains('\0') || v.contains('\\') {
        Some(error_model("manifest.path.invalid"@, "path must not contain NUL bytes or platform separators"@))
    } else if v[0] == '/' {
        Some(error_model("manifest.path.absolute"@, "path must be relative"@))
    } else if exists|k: int| 0 <= k < split_on(v, '/').len() && bad_segment(#[trigger] split_on(v, '/')[k], allow_glob) {
        Some(error_model("manifest.path.traversal"@, "path must not contain traversal or unsupported glob segments"@))
    } else {
        None
    }
}

/// Whether a segment is `..` or holds a disallowed `*`.
pub fn bad_segment_exec(part: &Vec<char>, allow_glob: bool) -> (r: bool)
    ensures
        r == bad_segment(part@, allow_glob),
{
    let is_up = part.len() == 2 && part[0] == '.' && part[1] == '.';
    assert(is_up == (part@ == seq!['.', '.'])) by {
        if part@ == seq!['.', '.'] {
            assert(part@.len() == 2);
        }
        if is_up {
            assert(part@ =~= seq!['.', '.']);
        }
    }
    is_up || (!allow_glob && contains_char(part, '*'))
}

/// Checks that a path is non-empty, bounded, relative, free of NUL bytes and
/// backslashes, and has no `..` segment (nor `*` unless `allow_glob`).
#[verifier::loop_isolation(false)]
pub fn validate_path_text(value: &Vec<char>, allow_glob: bool) -> (r: Result<(), Diagnostic>)
    ensures
        match r {
            Ok(()) => path_text_problem(value@, allow_glob) is None,
            Err(d) => path_text_problem(value@, allow_glob) == Some(d@),
        },
{
    if value.len() == 0 || byte_len_exceeds(value, PATH_MAX_BYTES) {
        return Err(Diagnostic::error("manifest.path.invalid", "path must be non-empty and length-bounded"));
    }
    if contains_char(value, '\0') || contains_char(value, '\\') {
        return Err(Diagnostic::error("manifest.path.invalid", "path must not contain NUL bytes or platform separators"));
    }
    if value[0] == '/' {
        return Err(Diagnostic::error("manifest.path.absolute", "path must be relative"));
    }
    let parts = split_exec(value, '/');
    let mut i: usize = 0;
    while i < parts.len()
        invariant
            i <= parts.len(),
            pieces(parts@) == split_on(value@, '/'),
            forall|k: int| 0 <= k < i ==> !bad_segment(split_on(value@, '/')[k], allow_glob),
        decreases parts.len() - i,
    {
        if bad_segment_exec(&parts[i], allow_glob) {
            assert(bad_segment(split_on(value@, '/')[i as int], allow_glob));
            assert(!value@.contains('\0'));
            assert(path_text_problem(value@, allow_glob) is Some);
            return Err(Diagnostic::error("manifest.path.traversal", "path must not contain traversal or unsupported glob segments"));
        }
        i = i + 1;
    }
    Ok(())
}


/// A segment that survives normalization: non-empty and not `.`.
pub open spec fn keep_segment(p: Seq<char>) -> bool {
    p.len() > 0 && p != seq!['.']
}

/// The segments that survive normalization, in order.
pub open spec fn kept_segments(parts: Seq<Seq<char>>) -> Seq<Seq<char>>
    decreases parts.len(),
{
    if parts.len() == 0 {
        Seq::empty()
    } else if keep_segment(parts.last()) {
        kept_segments(parts.drop_last()).push(parts.last())
    } else {
        kept_segments(parts.drop_last())
    }
}

/// Result of normalizing a relative path: its segments without empty and `.`
/// segments, joined by `/`; `.` for the root where the root is allowed.
pub open spec fn normalized_path(v: Seq<char>, allow_root: bool) -> Result<Seq<char>, DiagnosticModel> {
    match path_text_problem(v, false) {
        Some(d) => Err(d),
        None => if v == seq!['.'] {
            if allow_root {
                Ok(v)
            } else {
                Err(error_model("manifest.path.invalid"@, "repo-relative path cannot be the root path"@))
            }
        } else {
            let ks = kept_segments(split_on(v, '/'));
            if ks.len() == 0 {
                if allow_root {
                    Ok(seq!['.'])
                } else {
                    Err(error_model("manifest.path.invalid"@, "relative path must not be empty"@))
                }
            } else {
                Ok(join_with(ks, seq!['/']))
            }
        },
    }
}

/// Total length of a list of texts.
pub open spec fn total_len(parts: Seq<Seq<char>>) -> nat
    decreases parts.len(),
{
    if parts.len() == 0 {
        0
    } else {
        total_len(parts.drop_last()) + parts.last().len()
    }
}

proof fn lemma_join_len(parts: Seq<Seq<char>>)
    requires
        parts.len() >= 1,
    ensures
        join_with(parts, seq!['/']).len() + 1 == total_len(parts) + parts.len(),
    decreases parts.len(),
{
    if parts.len() > 1 {
        lemma_join_len(parts.drop_last());
        let sep = seq!['/'];
        assert(join_with(parts, sep) == join_with(parts.drop_last(), sep) + sep + parts.last());
    } else {
        assert(parts.drop_last().len() == 0);
        assert(total_len(parts.drop_last()) == 0);
        assert(join_with(parts, seq!['/']) == parts[0]);
    }
}

proof fn lemma_split_acc_total(s: Seq<char>, c: char)
    ensures
        total_len(crate::text::split_acc(s, c).0) + crate::text::split_acc(s, c).0.len()
            + crate::text::split_acc(s, c).1.len() == s.len(),
    decreases s.len(),
{
    if s.len() > 0 {
        lemma_split_acc_total(s.drop_last(), c);
        let (parts, cur) = crate::text::split_acc(s.drop_last(), c);
        if s.last() == c {
            assert(parts.push(cur).drop_last() =~= parts);
        }
    }
}

proof fn lemma_kept_total(parts: Seq<Seq<char>>)
    ensures
        total_len(kept_segments(parts)) <= total_len(parts),
        kept_segments(parts).len() <= parts.len(),
    decreases parts.len(),
{
    if parts.len() > 0 {
        lemma_kept_total(parts.drop_last());
        if keep_segment(parts.last()) {
            assert(kept_segments(parts.drop_last()).push(parts.last()).drop_last() =~= kept_segments(parts.drop_last()));
        }
    }
}

/// A normalized path is never longer than what it was normalized from, so
/// never longer than the path limit.
pub proof fn lemma_normalized_len(v: Seq<char>, allow_root: bool)
    ensures
        normalized_path(v, allow_root) matches Ok(p) ==> p.len() <= v.len() && p.len() <= 512,
{
    if normalized_path(v, allow_root) is Ok {
        lemma_byte_len_at_least_len(v);
        if v != seq!['.'] {
            let parts = split_on(v, '/');
            let ks = kept_segments(parts);
            if ks.len() > 0 {
                lemma_split_acc_total(v, '/');
                let (ps, cur) = crate::text::split_acc(v, '/');
                assert(parts.drop_last() =~= ps);
                assert(total_len(parts) == total_len(ps) + cur.len());
                lemma_kept_total(parts);
                lemma_join_len(ks);
                lemma_join_len(parts);
            }
        }
    }
}

/// Validates and normalizes a relative path.
#[verifier::loop_isolation(false)]
pub fn normalize_relative_path(value: &Vec<char>, allow_root: bool) -> (r: Result<String, Diagnostic>)
    ensures
        match r {
            Ok(s) => normalized_path(value@, allow_root) == Ok::<Seq<char>, DiagnosticModel>(s@),
            Err(d) => normalized_path(value@, allow_root) == Err::<Seq<char>, DiagnosticModel>(d@),
        },
{
    match validate_path_text(value, false) {
        Err(d) => return Err(d),
        Ok(()) => {},
    }
    if value.len() == 1 && value[0] == '.' {
        assert(value@ =~= seq!['.']);
        if allow_root {
            return Ok(string_of(value));
        } else {
            return Err(Diagnostic::error("manifest.path.invalid", "repo-relative path cannot be the root path"));
        }
    }
    assert(value@ != seq!['.']) by {
        if value@ == seq!['.'] {
            assert(value@.len() == 1);
        }
    }
    let parts = split_exec(value, '/');
    let mut kept: Vec<Vec<char>> = Vec::new();
    let mut i: usize = 0;
    while i < parts.len()
        invariant
            i <= parts.len(),
            pieces(parts@) == split_on(value@, '/'),
            pieces(kept@) == kept_segments(split_on(value@, '/').subrange(0, i as int)),
        decreases parts.len() - i,
    {
        let ghost before = pieces(kept@);
        let ghost prefix = split_on(value@, '/').subrange(0, i as int);
        assert(split_on(value@, '/').subrange(0, i + 1).drop_last() =~= prefix);
        let part = &parts[i];
        let is_dot = part.len() == 1 && part[0] == '.';
        assert(is_dot == (part@ == seq!['.'])) by {
            if part@ == seq!['.'] {
                assert(part@.len() == 1);
            }
            if is_dot {
                assert(part@ =~= seq!['.']);
            }
        }
        if part.len() == 0 || is_dot {
            i = i + 1;
        } else {
            if part.len() == 2 && part[0] == '.' && part[1] == '.' {
                assert(part@ =~= seq!['.', '.']);
                assert(bad_segment(split_on(value@, '/')[i as int], false));
                assert(false);
                return Err(Diagnostic::error("manifest.path.traversal", "relative path cannot contain .."));
            }
            let p = copy_chars(part);
            kept.push(p);
            assert(pieces(kept@) =~= before.push(part@));
            i = i + 1;
        }
    }
    assert(split_on(value@, '/').subrange(0, parts.len() as int) =~= split_on(value@, '/'));
    if kept.len() == 0 {
        if allow_root {
            let mut root: Vec<char> = Vec::new();
            root.push('.');
            assert(root@ =~= seq!['.']);
            return Ok(string_of(&root));
        } else {
            return Err(Diagnostic::error("manifest.path.invalid", "relative path must not be empty"));
        }
    }
    let mut sep: Vec<char> = Vec::new();
    sep.push('/');
    assert(sep@ =~= seq!['/']);
    let joined = join_exec(&kept, &sep);
    Ok(string_of(&joined))
}

/// A copy of a character vector.
pub fn copy_chars(v: &Vec<char>) -> (r: Vec<char>)
    ensures
        r@ == v@,
{
    let mut r: Vec<char> = Vec::new();
    let mut i: usize = 0;
    while i < v.len()
        invariant
            i <= v.len(),
            r@ == v@.subrange(0, i as int),
        decreases v.len() - i,
    {
        r.push(v[i]);
        i = i + 1;
        assert(r@ =~= v@.subrange(0, i as int));
    }
    assert(v@.subrange(0, v@.len() as int) =~= v@);
    r
}

// ---------------------------------------------------------------------------
// Commands
// ---------------------------------------------------------------------------

/// Shell-only tokens, in the order in which they are looked for.
pub open spec fn shell_tokens() -> Seq<Seq<char>> {
    seq![
        seq!['&', '&'],
        seq!['|', '|'],
        seq!['|'],
        seq![';'],
        seq!['>'],
        seq!['<'],
        seq!['$', '('],
        seq!['`'],
        seq!['\n'],
        seq!['\r'],
        seq!['*'],
        seq!['?'],
        seq!['['],
    ]
}

/// The first shell token at index `i` or later that occurs in `v`.
pub open spec fn first_shell_token(v: Seq<char>, i: int) -> Option<Seq<char>>
    decreases 13 - i,
{
    if i < 0 || i >= 13 {
        None
    } else if has_infix(v, shell_tokens()[i]) {
        Some(shell_tokens()[i])
    } else {
        first_shell_token(v, i + 1)
    }
}

/// Diagnostic for a command holding a shell-only token.
pub open spec fn shell_syntax_problem(v: Seq<char>) -> Option<DiagnosticModel> {
    match first_shell_token(v, 0) {
        Some(t) => Some(error_model("manifest.command.shell_syntax"@, "command uses shell-only syntax `"@ + t + "`"@)),
        None => None,
    }
}

fn token1(a: char) -> (r: Vec<char>)
    ensures
        r@ == seq![a],
{
    let mut r: Vec<char> = Vec::new();
    r.push(a);
    assert(r@ =~= seq![a]);
    r
}

fn token2(a: char, b: char) -> (r: Vec<char>)
    ensures
        r@ == seq![a, b],
{
    let mut r: Vec<char> = Vec::new();
    r.push(a);
    r.push(b);
    assert(r@ =~= seq![a, b]);
    r
}

/// The shell-only tokens as character vectors.
fn shell_tokens_exec() -> (r: Vec<Vec<char>>)
    ensures
        pieces(r@) == shell_tokens(),
        r@.len() == 13,
{
    let mut r: Vec<Vec<char>> = Vec::new();
    r.push(token2('&', '&'));
    r.push(token2('|', '|'));
    r.push(token1('|'));
    r.push(token1(';'));
    r.push(token1('>'));
    r.push(token1('<'));
    r.push(token2('$', '('));
    r.push(token1('`'));
    r.push(token1('\n'));
    r.push(token1('\r'));
    r.push(token1('*'));
    r.push(token1('?'));
    r.push(token1('['));
    assert(pieces(r@) =~= shell_tokens());
    r
}

/// Rejects commands that use shell-only syntax such as pipes, redirects,
/// command separators, substitutions and globs.
#[verifier::loop_isolation(false)]
pub fn reject_shell_syntax(value: &Vec<char>) -> (r: Result<(), Diagnostic>)
    ensures
        match r {
            Ok(()) => shell_syntax_problem(value@) is None,
            Err(d) => shell_syntax_problem(value@) == Some(d@),
        },
{
    let tokens = shell_tokens_exec();
    let mut i: usize = 0;
    while i < tokens.len()
        invariant
            i <= tokens.len() == 13,
            first_shell_token(value@, 0) == first_shell_token(value@, i as int),
        decreases tokens.len() - i,
    {
        if contains_seq(value, &tokens[i]) {
            let t = string_of(&tokens[i]);
            let msg = concat3("command uses shell-only syntax `", t.as_str(), "`");
            return Err(Diagnostic::error("manifest.command.shell_syntax", msg.as_str()));
        }
        i = i + 1;
    }
    Ok(())
}

/// State of the argv splitter after some characters.
pub struct SplitState {
    pub parts: Seq<Seq<char>>,
    pub current: Seq<char>,
    pub quote: Option<char>,
    pub escaped: bool,
}

/// One character of the argv splitter: a backslash escapes the next
/// character, matching single or double quotes group text, and unquoted
/// whitespace ends a non-empty argument.
pub open spec fn split_step(st: SplitState, ch: char) -> SplitState {
    if st.escaped {
        SplitState { current: st.current.push(ch), escaped: false, ..st }
    } else if ch == '\\' {
        SplitState { escaped: true, ..st }
    } else {
        match st.quote {
            Some(q) => if ch == q {
                SplitState { quote: None, ..st }
            } else {
                SplitState { current: st.current.push(ch), ..st }
            },
            None => if ch == '\'' || ch == '"' {
                SplitState { quote: Some(ch), ..st }
            } else if is_space(ch) {
                if st.current.len() > 0 {
                    SplitState { parts: st.parts.push(st.current), current: Seq::empty(), ..st }
                } else {
                    st
                }
            } else {
                SplitState { current: st.current.push(ch), ..st }
            },
        }
    }
}

/// The splitter state after all of `v`.
pub open spec fn split_run(v: Seq<char>) -> SplitState
    decreases v.len(),
{
    if v.len() == 0 {
        SplitState { parts: Seq::empty(), current: Seq::empty(), quote: None, escaped: false }
    } else {
        split_step(split_run(v.drop_last()), v.last())
    }
}

/// The argv words of a command line, or the diagnostic for an unfinished
/// escape or quote.
pub open spec fn split_command_spec(v: Seq<char>) -> Result<Seq<Seq<char>>, DiagnosticModel> {
    let st = split_run(v);
    if st.escaped || st.quote is Some {
        Err(error_model("manifest.command.invalid"@, "command contains an unfinished escape or quote"@))
    } else if st.current.len() > 0 {
        Ok(st.parts.push(st.current))
    } else {
        Ok(st.parts)
    }
}

/// Splits a command line into argv words.
pub fn split_command(value: &Vec<char>) -> (r: Result<Vec<Vec<char>>, Diagnostic>)
    ensures
        match r {
            Ok(parts) => split_command_spec(value@) == Ok::<Seq<Seq<char>>, DiagnosticModel>(pieces(parts@)),
            Err(d) => split_command_spec(value@) == Err::<Seq<Seq<char>>, DiagnosticModel>(d@),
        },
{
    let mut parts: Vec<Vec<char>> = Vec::new();
    let mut current: Vec<char> = Vec::new();
    let mut quote: Option<char> = None;
    let mut escaped = false;
    let mut i: usize = 0;
    assert(value@.subrange(0, 0) =~= Seq::<char>::empty());
    assert(pieces(parts@) =~= Seq::<Seq<char>>::empty());
    assert(current@ =~= Seq::<char>::empty());
    while i < value.len()
        invariant
            i <= value.len(),
            split_run(value@.subrange(0, i as int)) == (SplitState {
                parts: pieces(parts@),
                current: current@,
                quote,
                escaped,
            }),
        decreases value.len() - i,
    {
        let ghost prefix = value@.subrange(0, i as int);
        assert(value@.subrange(0, i + 1).drop_last() =~= prefix);
        let ch = value[i];
        i = i + 1;
        if escaped {
            current.push(ch);
            escaped = false;
        } else if ch == '\\' {
            escaped = true;
        } else {
            match quote {
                Some(q) => {
                    if ch == q {
                        quote = None;
                    } else {
                        current.push(ch);
                    }
                },
                None => {
                    if ch == '\'' || ch == '"' {
                        quote = Some(ch);
                    } else if is_space_exec(ch) {
                        if current.len() > 0 {
                            let ghost before = pieces(parts@);
                            let done = current;
                            let ghost done_view = done@;
                            parts.push(done);
                            current = Vec::new();
                            assert(pieces(parts@) =~= before.push(done_view));
                        }
                    } else {
                        current.push(ch);
                    }
                },
            }
        }
    }
    assert(value@.subrange(0, value@.len() as int) =~= value@);
    if escaped || quote.is_some() {
        return Err(Diagnostic::error("manifest.command.invalid", "command contains an unfinished escape or quote"));
    }
    if current.len() > 0 {
        let ghost before = pieces(parts@);
        let ghost last = current@;
        parts.push(current);
        assert(pieces(parts@) =~= before.push(last));
    }
    Ok(parts)
}

/// Strings built from character vectors.
pub fn strings_of(v: &Vec<Vec<char>>, from: usize) -> (r: Vec<String>)
    requires
        from <= v.len(),
    ensures
        r@.len() == v@.len() - from,
        forall|k: int| 0 <= k < r@.len() ==> #[trigger] r@[k]@ == v@[k + from]@,
{
    let mut r: Vec<String> = Vec::new();
    let mut i: usize = from;
    while i < v.len()
        invariant
            from <= i <= v.len(),
            r@.len() == i - from,
            forall|k: int| 0 <= k < r@.len() ==> #[trigger] r@[k]@ == v@[k + from]@,
        decreases v.len() - i,
    {
        r.push(string_of(&v[i]));
        i = i + 1;
    }
    r
}

} // verus!
