//! Byte-level measures of source files for code-size inspection: binary
//! detection, line numbering, effective line counts, and the paths and
//! generated-code patterns a scan leaves out.
use vstd::prelude::*;

use crate::diagnostic::{Diagnostic, DiagnosticModel};
use crate::domain::{ProjectManifest, RepoGlob, RepoRelativePath, RepoSnapshot};
use crate::text::{chars_of, concat3, has_prefix, owned, str_eq, strs};

verus! {

// ---------------------------------------------------------------------------
// Binary files
// ---------------------------------------------------------------------------

/// How many leading bytes binary detection looks at.
pub const BINARY_PREFIX_BYTES: usize = 8192;

/// A file is binary when a NUL byte occurs in its first 8 KiB.
pub open spec fn binary_content(bytes: Seq<u8>) -> bool {
    exists|i: int| 0 <= i < bytes.len() && i < 8192 && bytes[i] == 0
}

/// Whether file content is binary.
pub fn is_binary(bytes: &Vec<u8>) -> (r: bool)
    ensures
        r == binary_content(bytes@),
{
    let mut i: usize = 0;
    while i < bytes.len() && i < BINARY_PREFIX_BYTES
        invariant
            i <= bytes.len(),
            i <= 8192,
            forall|j: int| 0 <= j < i ==> bytes@[j] != 0,
        decreases bytes.len() - i,
    {
        if bytes[i] == 0 {
            return true;
        }
        i = i + 1;
    }
    false
}

// ---------------------------------------------------------------------------
// Heavy paths and generated-code patterns
// ---------------------------------------------------------------------------

/// Directory names a scan never enters.
pub open spec fn heavy_dir_names() -> Seq<Seq<char>> {
    seq![
        ".git"@, "target"@, "node_modules"@, "dist"@, ".next"@, ".turbo"@, ".pnpm-store"@, ".yarn"@, ".cache"@,
        "build"@, "coverage"@,
    ]
}

/// A path with a heavy directory among its segments.
pub open spec fn heavy_path(p: Seq<char>) -> bool {
    exists|k: int| 0 <= k < crate::text::split_on(p, '/').len()
        && heavy_dir_names().contains(#[trigger] crate::text::split_on(p, '/')[k])
}

fn is_heavy_name(name: &Vec<char>) -> (r: bool)
    ensures
        r == heavy_dir_names().contains(name@),
{
    let names: [&str; 11] = [
        ".git", "target", "node_modules", "dist", ".next", ".turbo", ".pnpm-store", ".yarn", ".cache", "build",
        "coverage",
    ];
    let ghost ns = heavy_dir_names();
    assert(names@.map_values(|s: &str| s@) =~= ns);
    let mut i: usize = 0;
    while i < 11
        invariant
            i <= 11,
            ns == heavy_dir_names(),
            names@.map_values(|s: &str| s@) == ns,
            forall|j: int| 0 <= j < i ==> ns[j] != name@,
        decreases 11 - i,
    {
        if crate::text::seq_eq(&chars_of(names[i]), name) {
            assert(ns[i as int] == name@);
            return true;
        }
        i = i + 1;
    }
    false
}

/// Whether a path passes through a heavy directory.
pub fn is_heavy_path(path: &RepoRelativePath) -> (r: bool)
    ensures
        r == heavy_path(path@),
{
    let parts = crate::text::split_exec(&chars_of(path.as_str()), '/');
    let ghost ps = crate::text::pieces(parts@);
    let mut k: usize = 0;
    while k < parts.len()
        invariant
            k <= parts.len(),
            ps == crate::text::pieces(parts@),
            ps == crate::text::split_on(path@, '/'),
            forall|j: int| 0 <= j < k ==> !heavy_dir_names().contains(#[trigger] ps[j]),
        decreases parts.len() - k,
    {
        if is_heavy_name(&parts[k]) {
            assert(heavy_dir_names().contains(ps[k as int]));
            return true;
        }
        k = k + 1;
    }
    false
}

/// The built-in patterns of generated code.
pub open spec fn builtin_generated_patterns() -> Seq<Seq<char>> {
    seq![
        "**/generated/**"@, "**/*.pb.rs"@, "**/*.pb.go"@, "**/*_pb.py"@, "**/*.generated.ts"@,
        "**/*.generated.tsx"@, "**/openapi/**"@,
    ]
}

/// A project's do-not-edit glob as a repository pattern: global globs and
/// those of a project at the root stay as they are, others go below the
/// project's path.
pub open spec fn project_pattern(project_path: Seq<char>, glob: Seq<char>) -> Seq<char> {
    if has_prefix(glob, "**/"@) || project_path == "."@ {
        glob
    } else {
        project_path + "/"@ + glob
    }
}

/// A project's do-not-edit glob as a repository pattern.
pub fn project_generated_pattern(project: &ProjectManifest, glob: &RepoGlob) -> (r: String)
    ensures
        r@ == project_pattern(project.path@, glob@),
        r@.len() <= 1025,
        !r@.contains('\\'),
{
    proof {
        reveal_strlit("**/");
        reveal_strlit(".");
        reveal_strlit("/");
        use_type_invariant(&project.path);
        use_type_invariant(glob);
        let whole = project.path@ + "/"@ + glob@;
        assert(!whole.contains('\\')) by {
            if whole.contains('\\') {
                let i = choose|i: int| 0 <= i < whole.len() && whole[i] == '\\';
                if i < project.path@.len() {
                    assert(project.path@[i] == '\\');
                } else if i == project.path@.len() {
                    assert(whole[i] == '/');
                } else {
                    assert(glob@[i - project.path@.len() - 1] == '\\');
                }
            }
        }
    }
    if crate::text::starts_with(&chars_of(glob.as_str()), &chars_of("**/")) || str_eq(project.path.as_str(), ".") {
        owned(glob.as_str())
    } else {
        concat3(project.path.as_str(), "/", glob.as_str())
    }
}

/// The do-not-edit patterns of the projects, project by project.
pub open spec fn project_patterns(ps: Seq<ProjectManifest>) -> Seq<Seq<char>>
    decreases ps.len(),
{
    if ps.len() == 0 {
        Seq::empty()
    } else {
        let p = ps.last();
        project_patterns(ps.drop_last()) + crate::graph::glob_views(p.ai.do_not_edit@).map_values(
            |g: Seq<char>| project_pattern(p.path@, g),
        )
    }
}

/// The patterns of generated code a scan skips: the built-in ones, then
/// each project's do-not-edit globs.
pub fn generated_code_patterns(snapshot: &RepoSnapshot) -> (r: Vec<String>)
    ensures
        strs(r@) == builtin_generated_patterns() + project_patterns(snapshot.projects@),
        forall|k: int| 0 <= k < r@.len() ==> (#[trigger] r@[k])@.len() <= 1025 && !r@[k]@.contains('\\'),
{
    let builtin: [&str; 7] = [
        "**/generated/**", "**/*.pb.rs", "**/*.pb.go", "**/*_pb.py", "**/*.generated.ts", "**/*.generated.tsx",
        "**/openapi/**",
    ];
    let mut out: Vec<String> = Vec::new();
    let mut i: usize = 0;
    while i < 7
        invariant
            i <= 7,
            builtin@.map_values(|s: &str| s@) == builtin_generated_patterns(),
            strs(out@) == builtin_generated_patterns().subrange(0, i as int),
            forall|q: int| 0 <= q < out@.len() ==> (#[trigger] out@[q])@.len() <= 1025 && !out@[q]@.contains('\\'),
        decreases 7 - i,
    {
        let ghost prev = strs(out@);
        proof {
            reveal_strlit("**/generated/**");
            reveal_strlit("**/*.pb.rs");
            reveal_strlit("**/*.pb.go");
            reveal_strlit("**/*_pb.py");
            reveal_strlit("**/*.generated.ts");
            reveal_strlit("**/*.generated.tsx");
            reveal_strlit("**/openapi/**");
            assert(builtin@[i as int]@ == builtin_generated_patterns()[i as int]);
        }
        out.push(owned(builtin[i]));
        assert(strs(out@) =~= prev.push(builtin_generated_patterns()[i as int]));
        assert(builtin_generated_patterns().subrange(0, i as int + 1)
            =~= builtin_generated_patterns().subrange(0, i as int).push(builtin_generated_patterns()[i as int]));
        i = i + 1;
    }
    assert(builtin_generated_patterns().subrange(0, 7) =~= builtin_generated_patterns());
    let ps = &snapshot.projects;
    let mut k: usize = 0;
    assert(project_patterns(ps@.subrange(0, 0)) =~= Seq::<Seq<char>>::empty());
    while k < ps.len()
        invariant
            k <= ps.len(),
            ps@ == snapshot.projects@,
            strs(out@) == builtin_generated_patterns() + project_patterns(ps@.subrange(0, k as int)),
            forall|q: int| 0 <= q < out@.len() ==> (#[trigger] out@[q])@.len() <= 1025 && !out@[q]@.contains('\\'),
        decreases ps.len() - k,
    {
        let p = &ps[k];
        assert(ps@.subrange(0, k as int + 1).drop_last() =~= ps@.subrange(0, k as int));
        assert(ps@.subrange(0, k as int + 1).last() == *p);
        let ghost before = strs(out@);
        let ghost gs = crate::graph::glob_views(p.ai.do_not_edit@).map_values(|g: Seq<char>| project_pattern(p.path@, g));
        let mut j: usize = 0;
        while j < p.ai.do_not_edit.len()
            invariant
                j <= p.ai.do_not_edit.len(),
                gs == crate::graph::glob_views(p.ai.do_not_edit@).map_values(|g: Seq<char>| project_pattern(p.path@, g)),
                strs(out@) == before + gs.subrange(0, j as int),
                forall|q: int| 0 <= q < out@.len() ==> (#[trigger] out@[q])@.len() <= 1025 && !out@[q]@.contains('\\'),
            decreases p.ai.do_not_edit.len() - j,
        {
            let ghost prev = strs(out@);
            out.push(project_generated_pattern(p, &p.ai.do_not_edit[j]));
            assert(strs(out@) =~= prev.push(gs[j as int]));
            assert(gs.subrange(0, j as int + 1) =~= gs.subrange(0, j as int).push(gs[j as int]));
            j = j + 1;
        }
        assert(gs.subrange(0, gs.len() as int) =~= gs);
        k = k + 1;
        assert(strs(out@) =~= builtin_generated_patterns() + project_patterns(ps@.subrange(0, k as int)));
    }
    assert(ps@.subrange(0, ps@.len() as int) =~= ps@);
    out
}

} // verus!

verus! {

// ---------------------------------------------------------------------------
// Line index
// ---------------------------------------------------------------------------

/// The byte offsets at which the lines of the first `n` bytes start: 0, and
/// each offset after a newline that is still inside the content.
pub open spec fn starts_upto(bytes: Seq<u8>, n: nat) -> Seq<int>
    decreases n,
{
    if n == 0 {
        seq![0]
    } else {
        let rest = starts_upto(bytes, (n - 1) as nat);
        if bytes[n - 1] == 10 && n < bytes.len() {
            rest.push(n as int)
        } else {
            rest
        }
    }
}

/// The byte offsets at which the lines of the content start.
pub open spec fn line_starts(bytes: Seq<u8>) -> Seq<int> {
    starts_upto(bytes, bytes.len())
}

/// Offsets in strictly increasing order.
pub open spec fn increasing(s: Seq<int>) -> bool {
    forall|i: int, j: int| 0 <= i < j < s.len() ==> s[i] < s[j]
}

/// Line start offsets of a file, and how many physical lines it has.
#[derive(Clone, Debug)]
pub struct LineIndex {
    /// Byte offsets at which lines start, in increasing order.
    pub starts: Vec<usize>,
    /// Physical line count.
    pub physical_lines: u32,
}

/// The values of offsets.
pub open spec fn offsets(v: Seq<usize>) -> Seq<int> {
    v.map_values(|x: usize| x as int)
}

impl LineIndex {
    /// A well-formed index starts at offset 0 and increases.
    pub open spec fn wf(&self) -> bool {
        offsets(self.starts@).len() >= 1 && offsets(self.starts@)[0] == 0 && increasing(offsets(self.starts@))
    }
}

/// The warning when a file has more lines than a 32-bit count holds.
pub open spec fn line_overflow_warning() -> DiagnosticModel {
    crate::diagnostic::plain(
        "inspect.code_size.line_count_overflow"@,
        crate::diagnostic::Severity::Warning,
        "file line count exceeds supported range"@,
    )
}

proof fn lemma_starts_shape(bytes: Seq<u8>, n: nat)
    requires
        n <= bytes.len(),
    ensures
        starts_upto(bytes, n).len() >= 1,
        starts_upto(bytes, n)[0] == 0,
        increasing(starts_upto(bytes, n)),
        forall|k: int| 0 <= k < starts_upto(bytes, n).len() ==> 0 <= #[trigger] starts_upto(bytes, n)[k] <= n,
        starts_upto(bytes, n).len() <= n + 1,
    decreases n,
{
    if n > 0 {
        lemma_starts_shape(bytes, (n - 1) as nat);
    }
}

impl LineIndex {
    /// Indexes the line starts of file content; a file with more lines
    /// than a 32-bit count holds is refused with a warning.
    pub fn new(bytes: &Vec<u8>) -> (r: Result<Self, Diagnostic>)
        ensures
            match r {
                Ok(ix) => ix.wf() && offsets(ix.starts@) == line_starts(bytes@)
                    && ix.physical_lines == (if bytes@.len() == 0 { 0 } else { line_starts(bytes@).len() }),
                Err(d) => bytes@.len() > 0 && line_starts(bytes@).len() > u32::MAX && d@ == line_overflow_warning(),
            },
    {
        let mut starts: Vec<usize> = Vec::new();
        starts.push(0);
        let mut i: usize = 0;
        assert(offsets(starts@) =~= starts_upto(bytes@, 0));
        while i < bytes.len()
            invariant
                i <= bytes.len(),
                offsets(starts@) == starts_upto(bytes@, i as nat),
            decreases bytes.len() - i,
        {
            let ghost prev = offsets(starts@);
            if bytes[i] == 10 && i + 1 < bytes.len() {
                starts.push(i + 1);
                assert(offsets(starts@) =~= prev.push((i + 1) as int));
            }
            i = i + 1;
        }
        proof {
            lemma_starts_shape(bytes@, bytes@.len());
        }
        let physical_lines: u32 = if bytes.len() == 0 {
            0
        } else if starts.len() > 4294967295 {
            return Err(Diagnostic::warning(
                "inspect.code_size.line_count_overflow",
                "file line count exceeds supported range",
            ));
        } else {
            starts.len() as u32
        };
        Ok(LineIndex { starts, physical_lines })
    }
}

/// How many of the offsets are at most `b`.
pub open spec fn count_le(s: Seq<int>, b: int) -> nat
    decreases s.len(),
{
    if s.len() == 0 {
        0
    } else {
        count_le(s.drop_last(), b) + (if s.last() <= b { 1nat } else { 0nat })
    }
}

proof fn lemma_count_le_split(s: Seq<int>, b: int, k: int)
    requires
        0 <= k <= s.len(),
        forall|i: int| 0 <= i < k ==> s[i] <= b,
        forall|i: int| k <= i < s.len() ==> s[i] > b,
    ensures
        count_le(s, b) == k,
    decreases s.len(),
{
    if s.len() > 0 {
        if k == s.len() {
            lemma_count_le_split(s.drop_last(), b, k - 1);
        } else {
            lemma_count_le_split(s.drop_last(), b, k);
        }
    }
}

/// The line number of a byte offset: how many lines start at or before it,
/// at most the largest 32-bit count.
pub open spec fn line_of(starts: Seq<int>, b: int) -> int {
    if count_le(starts, b) > u32::MAX { u32::MAX as int } else { count_le(starts, b) as int }
}

impl LineIndex {
    /// The line a byte offset lies on, counting from 1.
    pub fn line_for_byte(&self, byte: usize) -> (r: u32)
        requires
            self.wf(),
        ensures
            r == line_of(offsets(self.starts@), byte as int),
            r >= 1,
    {
        let ghost s = offsets(self.starts@);
        let mut lo: usize = 0;
        let mut hi: usize = self.starts.len();
        while lo < hi
            invariant
                lo <= hi <= self.starts.len(),
                s == offsets(self.starts@),
                increasing(s),
                forall|i: int| 0 <= i < lo ==> s[i] <= byte,
                forall|i: int| hi <= i < s.len() ==> s[i] > byte,
            decreases hi - lo,
        {
            let mid = lo + (hi - lo) / 2;
            if self.starts[mid] <= byte {
                assert forall|i: int| 0 <= i < mid + 1 implies s[i] <= byte by {
                    if i < mid {
                        assert(s[i] < s[mid as int]);
                    }
                }
                lo = mid + 1;
            } else {
                assert forall|i: int| mid <= i < s.len() implies s[i] > byte by {
                    if i > mid {
                        assert(s[mid as int] < s[i]);
                    }
                }
                hi = mid;
            }
        }
        proof {
            lemma_count_le_split(s, byte as int, lo as int);
            assert(s[0] <= byte);
        }
        if lo > 4294967295 {
            4294967295
        } else {
            lo as u32
        }
    }

    /// The line a span starting at the offset begins on.
    pub fn line_for_start(&self, byte: usize) -> (r: u32)
        requires
            self.wf(),
        ensures
            r == line_of(offsets(self.starts@), byte as int),
    {
        self.line_for_byte(byte)
    }

    /// The line a span ending before the offset ends on: the line of the
    /// byte before it, line 1 for an empty prefix.
    pub fn line_for_end(&self, byte: usize) -> (r: u32)
        requires
            self.wf(),
        ensures
            r == (if byte == 0 { 1 } else { line_of(offsets(self.starts@), byte - 1) }),
    {
        if byte == 0 {
            return 1;
        }
        self.line_for_byte(byte - 1)
    }
}

} // verus!

verus! {

// ---------------------------------------------------------------------------
// Excluded ranges
// ---------------------------------------------------------------------------

/// A byte offset lies in one of the half-open ranges.
pub open spec fn covers(rs: Seq<(usize, usize)>, i: int) -> bool {
    exists|k: int| 0 <= k < rs.len() && (#[trigger] rs[k]).0 <= i && i < rs[k].1
}

/// Non-empty ranges within the content, in increasing order, each ending
/// before the next begins.
pub open spec fn canonical(rs: Seq<(usize, usize)>, len: int) -> bool {
    &&& forall|k: int| 0 <= k < rs.len() ==> (#[trigger] rs[k]).0 < rs[k].1 && rs[k].1 <= len
    &&& forall|k: int| 0 <= k < rs.len() - 1 ==> (#[trigger] rs[k]).1 < rs[k + 1].0
}

fn clip_ranges(ranges: &Vec<(usize, usize)>, len: usize) -> (r: Vec<(usize, usize)>)
    ensures
        forall|k: int| 0 <= k < r@.len() ==> (#[trigger] r@[k]).0 < r@[k].1 && r@[k].1 <= len,
        forall|i: int| 0 <= i < len ==> (covers(r@, i) <==> covers(ranges@, i)),
{
    let mut out: Vec<(usize, usize)> = Vec::new();
    let mut k: usize = 0;
    while k < ranges.len()
        invariant
            k <= ranges.len(),
            forall|j: int| 0 <= j < out@.len() ==> (#[trigger] out@[j]).0 < out@[j].1 && out@[j].1 <= len,
            forall|i: int| 0 <= i < len ==> (covers(out@, i) <==> covers(ranges@.subrange(0, k as int), i)),
        decreases ranges.len() - k,
    {
        let (s, e) = ranges[k];
        let cs = if s < len { s } else { len };
        let ce = if e < len { e } else { len };
        let ghost prev = out@;
        if cs < ce {
            out.push((cs, ce));
        }
        proof {
            let pre = ranges@.subrange(0, k as int);
            let pre1 = ranges@.subrange(0, k as int + 1);
            assert(pre1 =~= pre.push((s, e)));
            if cs < ce {
                assert(out@ =~= prev.push((cs, ce)));
            } else {
                assert(out@ =~= prev);
            }
            assert forall|i: int| 0 <= i < len implies (covers(out@, i) <==> covers(pre1, i)) by {
                if covers(pre1, i) {
                    let m = choose|m: int| 0 <= m < pre1.len() && (#[trigger] pre1[m]).0 <= i && i < pre1[m].1;
                    if m < pre.len() {
                        assert(pre[m] == pre1[m]);
                        assert(covers(pre, i));
                        assert(covers(prev, i));
                        let q = choose|q: int| 0 <= q < prev.len() && (#[trigger] prev[q]).0 <= i && i < prev[q].1;
                        assert(out@[q] == prev[q]);
                    } else {
                        assert(pre1[m] == (s, e));
                        assert(cs < ce);
                        assert(out@[prev.len() as int] == (cs, ce));
                    }
                }
                if covers(out@, i) {
                    let q = choose|q: int| 0 <= q < out@.len() && (#[trigger] out@[q]).0 <= i && i < out@[q].1;
                    if q < prev.len() {
                        assert(out@[q] == prev[q]);
                        assert(covers(prev, i));
                        assert(covers(pre, i));
                        let m = choose|m: int| 0 <= m < pre.len() && (#[trigger] pre[m]).0 <= i && i < pre[m].1;
                        assert(pre1[m] == pre[m]);
                    } else {
                        assert(out@[q] == (cs, ce));
                        assert(pre1[k as int] == (s, e));
                    }
                }
            }
        }
        k = k + 1;
    }
    assert(ranges@.subrange(0, ranges@.len() as int) =~= ranges@);
    out
}

/// Ranges ordered by their start.
pub open spec fn by_start(rs: Seq<(usize, usize)>) -> bool {
    forall|i: int, j: int| 0 <= i < j < rs.len() ==> (#[trigger] rs[i]).0 <= (#[trigger] rs[j]).0
}

fn sort_by_start(ranges: &Vec<(usize, usize)>) -> (r: Vec<(usize, usize)>)
    ensures
        by_start(r@),
        forall|x: (usize, usize)| r@.contains(x) <==> ranges@.contains(x),
{
    let mut out: Vec<(usize, usize)> = Vec::new();
    let mut k: usize = 0;
    while k < ranges.len()
        invariant
            k <= ranges.len(),
            by_start(out@),
            forall|x: (usize, usize)| out@.contains(x) <==> ranges@.subrange(0, k as int).contains(x),
        decreases ranges.len() - k,
    {
        let x = ranges[k];
        let ghost os = out@;
        let mut p: usize = 0;
        while p < out.len() && out[p].0 <= x.0
            invariant
                p <= out.len(),
                os == out@,
                forall|j: int| 0 <= j < p ==> (#[trigger] os[j]).0 <= x.0,
            decreases out.len() - p,
        {
            p = p + 1;
        }
        out.insert(p, x);
        proof {
            let ns = os.insert(p as int, x);
            assert(out@ =~= ns);
            assert forall|a: int, b: int| 0 <= a < b < ns.len() implies (#[trigger] ns[a]).0 <= (#[trigger] ns[b]).0 by {
                if b < p {
                    assert(ns[a] == os[a] && ns[b] == os[b]);
                } else if b == p {
                    assert(ns[a] == os[a]);
                } else if a < p {
                    assert(ns[a] == os[a] && ns[b] == os[b - 1]);
                    if b - 1 >= p {
                        assert(os[p as int].0 > x.0);
                        if b - 1 > p {
                            assert(os[p as int].0 <= os[b - 1].0);
                        }
                    }
                } else if a == p {
                    assert(ns[b] == os[b - 1]);
                    assert(os[p as int].0 > x.0);
                    if b - 1 > p {
                        assert(os[p as int].0 <= os[b - 1].0);
                    }
                } else {
                    assert(ns[a] == os[a - 1] && ns[b] == os[b - 1]);
                }
            }
            let pre = ranges@.subrange(0, k as int);
            let pre1 = ranges@.subrange(0, k as int + 1);
            assert(pre1 =~= pre.push(x));
            assert forall|y: (usize, usize)| ns.contains(y) <==> pre1.contains(y) by {
                if ns.contains(y) {
                    let q = choose|q: int| 0 <= q < ns.len() && ns[q] == y;
                    if q < p {
                        assert(os[q] == y);
                        assert(os.contains(y));
                        let m = choose|m: int| 0 <= m < pre.len() && pre[m] == y;
                        assert(pre1[m] == y);
                    } else if q == p {
                        assert(pre1[k as int] == y);
                    } else {
                        assert(os[q - 1] == y);
                        assert(os.contains(y));
                        let m = choose|m: int| 0 <= m < pre.len() && pre[m] == y;
                        assert(pre1[m] == y);
                    }
                }
                if pre1.contains(y) {
                    let m = choose|m: int| 0 <= m < pre1.len() && pre1[m] == y;
                    if m < pre.len() {
                        assert(pre[m] == y);
                        assert(pre.contains(y));
                        assert(os.contains(y));
                        let q = choose|q: int| 0 <= q < os.len() && os[q] == y;
                        if q < p {
                            assert(ns[q] == y);
                        } else {
                            assert(ns[q + 1] == y);
                        }
                    } else {
                        assert(ns[p as int] == y);
                    }
                }
            }
        }
        k = k + 1;
    }
    assert(ranges@.subrange(0, ranges@.len() as int) =~= ranges@);
    out
}

/// Merges excluded byte ranges: clipped to the content, sorted, and joined
/// where they overlap or touch, covering exactly the offsets the given
/// ranges cover inside the content.
pub fn normalized_ranges(ranges: &Vec<(usize, usize)>, len: usize) -> (r: Vec<(usize, usize)>)
    ensures
        canonical(r@, len as int),
        forall|i: int| 0 <= i < len ==> (covers(r@, i) <==> covers(ranges@, i)),
{
    let clipped = clip_ranges(ranges, len);
    let sorted = sort_by_start(&clipped);
    let ghost srt = sorted@;
    assert forall|j: int| 0 <= j < srt.len() implies (#[trigger] srt[j]).0 < srt[j].1 && srt[j].1 <= len by {
        assert(srt.contains(srt[j]));
        assert(clipped@.contains(srt[j]));
    }
    assert forall|i: int| 0 <= i < len implies (covers(srt, i) <==> covers(clipped@, i)) by {
        if covers(srt, i) {
            let q = choose|q: int| 0 <= q < srt.len() && (#[trigger] srt[q]).0 <= i && i < srt[q].1;
            assert(srt.contains(srt[q]));
            assert(clipped@.contains(srt[q]));
            let m = choose|m: int| 0 <= m < clipped@.len() && clipped@[m] == srt[q];
            assert(clipped@[m].0 <= i && i < clipped@[m].1);
        }
        if covers(clipped@, i) {
            let m = choose|m: int| 0 <= m < clipped@.len() && (#[trigger] clipped@[m]).0 <= i && i < clipped@[m].1;
            assert(clipped@.contains(clipped@[m]));
            assert(srt.contains(clipped@[m]));
            let q = choose|q: int| 0 <= q < srt.len() && srt[q] == clipped@[m];
            assert(srt[q].0 <= i && i < srt[q].1);
        }
    }
    let mut merged: Vec<(usize, usize)> = Vec::new();
    let mut k: usize = 0;
    while k < sorted.len()
        invariant
            k <= sorted.len(),
            srt == sorted@,
            by_start(srt),
            forall|j: int| 0 <= j < srt.len() ==> (#[trigger] srt[j]).0 < srt[j].1 && srt[j].1 <= len,
            canonical(merged@, len as int),
            merged@.len() > 0 ==> exists|j: int| 0 <= j < k && merged@.last().0 == (#[trigger] srt[j]).0,
            merged@.len() == 0 ==> k == 0,
            forall|i: int| covers(merged@, i) <==> covers(srt.subrange(0, k as int), i),
        decreases sorted.len() - k,
    {
        let (s, e) = sorted[k];
        let ghost ms = merged@;
        let ghost pre = srt.subrange(0, k as int);
        let ghost pre1 = srt.subrange(0, k as int + 1);
        assert(pre1 =~= pre.push((s, e)));
        let n = merged.len();
        if n > 0 && s <= merged[n - 1].1 {
            let (ls, le) = merged[n - 1];
            let ne = if le < e { e } else { le };
            proof {
                let j = choose|j: int| 0 <= j < k && ms.last().0 == (#[trigger] srt[j]).0;
                assert(srt[j].0 <= s);
            }
            merged.set(n - 1, (ls, ne));
            proof {
                let nm = merged@;
                assert(nm =~= ms.update(n - 1, (ls, ne)));
                assert forall|i: int| covers(nm, i) <==> covers(pre1, i) by {
                    if covers(nm, i) {
                        let q = choose|q: int| 0 <= q < nm.len() && (#[trigger] nm[q]).0 <= i && i < nm[q].1;
                        if q < n - 1 {
                            assert(nm[q] == ms[q]);
                            assert(covers(ms, i));
                        } else if i < le {
                            assert(covers(ms, i));
                        } else {
                            assert(pre1[k as int] == (s, e));
                        }
                        if covers(ms, i) {
                            assert(covers(pre, i));
                            let m = choose|m: int| 0 <= m < pre.len() && (#[trigger] pre[m]).0 <= i && i < pre[m].1;
                            assert(pre1[m] == pre[m]);
                        }
                    }
                    if covers(pre1, i) {
                        let m = choose|m: int| 0 <= m < pre1.len() && (#[trigger] pre1[m]).0 <= i && i < pre1[m].1;
                        if m < pre.len() {
                            assert(pre[m] == pre1[m]);
                            assert(covers(pre, i));
                            assert(covers(ms, i));
                            let q = choose|q: int| 0 <= q < ms.len() && (#[trigger] ms[q]).0 <= i && i < ms[q].1;
                            if q < n - 1 {
                                assert(nm[q] == ms[q]);
                            } else {
                                assert(nm[n - 1] == (ls, ne));
                            }
                        } else {
                            assert(nm[n - 1] == (ls, ne));
                        }
                    }
                }
                assert forall|q: int| 0 <= q < nm.len() - 1 implies (#[trigger] nm[q]).1 < nm[q + 1].0 by {
                    assert(nm[q] == ms[q]);
                    if q + 1 < n - 1 {
                        assert(nm[q + 1] == ms[q + 1]);
                    }
                }
            }
        } else {
            proof {
                if n > 0 {
                    let j = choose|j: int| 0 <= j < k && ms.last().0 == (#[trigger] srt[j]).0;
                    assert(srt[j].0 <= s);
                }
            }
            merged.push((s, e));
            proof {
                let nm = merged@;
                assert(nm =~= ms.push((s, e)));
                assert(nm.last().0 == srt[k as int].0);
                assert forall|i: int| covers(nm, i) <==> covers(pre1, i) by {
                    if covers(nm, i) {
                        let q = choose|q: int| 0 <= q < nm.len() && (#[trigger] nm[q]).0 <= i && i < nm[q].1;
                        if q < n {
                            assert(nm[q] == ms[q]);
                            assert(covers(ms, i));
                            assert(covers(pre, i));
                            let m = choose|m: int| 0 <= m < pre.len() && (#[trigger] pre[m]).0 <= i && i < pre[m].1;
                            assert(pre1[m] == pre[m]);
                        } else {
                            assert(pre1[k as int] == (s, e));
                        }
                    }
                    if covers(pre1, i) {
                        let m = choose|m: int| 0 <= m < pre1.len() && (#[trigger] pre1[m]).0 <= i && i < pre1[m].1;
                        if m < pre.len() {
                            assert(pre[m] == pre1[m]);
                            assert(covers(pre, i));
                            assert(covers(ms, i));
                            let q = choose|q: int| 0 <= q < ms.len() && (#[trigger] ms[q]).0 <= i && i < ms[q].1;
                            assert(nm[q] == ms[q]);
                        } else {
                            assert(nm[n as int] == (s, e));
                        }
                    }
                }
                assert forall|q: int| 0 <= q < nm.len() - 1 implies (#[trigger] nm[q]).1 < nm[q + 1].0 by {
                    assert(nm[q] == ms[q]);
                    if q + 1 < n {
                        assert(nm[q + 1] == ms[q + 1]);
                    }
                }
            }
        }
        k = k + 1;
    }
    assert(srt.subrange(0, srt.len() as int) =~= srt);
    merged
}

} // verus!

verus! {

// ---------------------------------------------------------------------------
// Effective lines
// ---------------------------------------------------------------------------

/// An ASCII whitespace byte: space, tab, line feed, form feed or carriage
/// return.
pub open spec fn ascii_whitespace(b: u8) -> bool {
    b == 32 || b == 9 || b == 10 || b == 12 || b == 13
}

/// A byte that counts as code: outside the excluded ranges and not
/// whitespace.
pub open spec fn code_byte(bytes: Seq<u8>, ranges: Seq<(usize, usize)>, i: int) -> bool {
    !covers(ranges, i) && !ascii_whitespace(bytes[i])
}

/// Over the first `n` bytes: how many finished lines hold code, and
/// whether the current line holds code so far.
pub open spec fn scan_lines(bytes: Seq<u8>, ranges: Seq<(usize, usize)>, n: nat) -> (nat, bool)
    decreases n,
{
    if n == 0 {
        (0, false)
    } else {
        let (c, h) = scan_lines(bytes, ranges, (n - 1) as nat);
        if bytes[n - 1] == 10 {
            (if h { c + 1 } else { c }, false)
        } else {
            (c, h || code_byte(bytes, ranges, n - 1))
        }
    }
}

/// Lines counted so far, the current one included when it holds code.
pub open spec fn lines_so_far(bytes: Seq<u8>, ranges: Seq<(usize, usize)>, n: nat) -> nat {
    let (c, h) = scan_lines(bytes, ranges, n);
    if h { c + 1 } else { c }
}

/// How many lines of the content hold code outside the excluded ranges.
pub open spec fn effective_count(bytes: Seq<u8>, ranges: Seq<(usize, usize)>) -> nat {
    lines_so_far(bytes, ranges, bytes.len())
}

proof fn lemma_lines_grow(bytes: Seq<u8>, ranges: Seq<(usize, usize)>, n: nat, m: nat)
    requires
        n <= m <= bytes.len(),
    ensures
        lines_so_far(bytes, ranges, n) <= lines_so_far(bytes, ranges, m),
    decreases m - n,
{
    if n < m {
        lemma_lines_grow(bytes, ranges, n, (m - 1) as nat);
    }
}

/// Counts the lines that hold code outside the excluded byte ranges; none
/// when the count does not fit in 32 bits.
pub fn effective_lines(bytes: &Vec<u8>, excluded_ranges: &Vec<(usize, usize)>) -> (r: Option<u32>)
    ensures
        match r {
            Some(n) => n == effective_count(bytes@, excluded_ranges@),
            None => effective_count(bytes@, excluded_ranges@) > u32::MAX,
        },
{
    if bytes.len() == 0 {
        return Some(0);
    }
    let ranges = normalized_ranges(excluded_ranges, bytes.len());
    let ghost ex = excluded_ranges@;
    let mut range_index: usize = 0;
    let mut count: u32 = 0;
    let mut line_has_code = false;
    let mut i: usize = 0;
    while i < bytes.len()
        invariant
            i <= bytes.len(),
            ex == excluded_ranges@,
            canonical(ranges@, bytes@.len() as int),
            forall|j: int| 0 <= j < bytes@.len() ==> (covers(ranges@, j) <==> covers(ex, j)),
            range_index <= ranges@.len(),
            forall|k: int| 0 <= k < range_index ==> (#[trigger] ranges@[k]).1 <= i,
            scan_lines(bytes@, ex, i as nat) == (count as nat, line_has_code),
        decreases bytes.len() - i,
    {
        let b = bytes[i];
        if b == 10 {
            if line_has_code {
                if count == 4294967295 {
                    proof {
                        assert(lines_so_far(bytes@, ex, (i + 1) as nat) == count as nat + 1);
                        lemma_lines_grow(bytes@, ex, (i + 1) as nat, bytes@.len());
                    }
                    return None;
                }
                count = count + 1;
            }
            line_has_code = false;
            i = i + 1;
            continue;
        }
        while range_index < ranges.len() && i >= ranges[range_index].1
            invariant
                range_index <= ranges@.len(),
                forall|k: int| 0 <= k < range_index ==> (#[trigger] ranges@[k]).1 <= i,
            decreases ranges.len() - range_index,
        {
            range_index = range_index + 1;
        }
        let excluded = range_index < ranges.len() && i >= ranges[range_index].0 && i < ranges[range_index].1;
        proof {
            lemma_pointer_excluded(ranges@, range_index as int, i as int, bytes@.len() as int);
        }
        if !excluded && !(b == 32 || b == 9 || b == 10 || b == 12 || b == 13) {
            line_has_code = true;
        }
        i = i + 1;
    }
    if line_has_code {
        if count == 4294967295 {
            return None;
        }
        count = count + 1;
    }
    Some(count)
}

/// With every range before the pointer ended and the pointed range not yet
/// ended, an offset is covered exactly when the pointed range holds it.
proof fn lemma_pointer_excluded(rs: Seq<(usize, usize)>, ri: int, i: int, len: int)
    requires
        canonical(rs, len),
        0 <= ri <= rs.len(),
        forall|k: int| 0 <= k < ri ==> (#[trigger] rs[k]).1 <= i,
        ri < rs.len() ==> i < rs[ri].1,
    ensures
        covers(rs, i) == (ri < rs.len() && rs[ri].0 <= i && i < rs[ri].1),
{
    if covers(rs, i) {
        let k = choose|k: int| 0 <= k < rs.len() && (#[trigger] rs[k]).0 <= i && i < rs[k].1;
        if k > ri {
            lemma_gap_chain(rs, ri, k);
        }
    }
}

/// In canonical ranges, a later range starts after an earlier one ends.
proof fn lemma_gap_chain(rs: Seq<(usize, usize)>, a: int, k: int)
    requires
        forall|q: int| 0 <= q < rs.len() ==> (#[trigger] rs[q]).0 < rs[q].1,
        forall|q: int| 0 <= q < rs.len() - 1 ==> (#[trigger] rs[q]).1 < rs[q + 1].0,
        0 <= a < k < rs.len(),
    ensures
        rs[a].1 < rs[k].0,
    decreases k - a,
{
    if a + 1 < k {
        lemma_gap_chain(rs, a + 1, k);
        assert(rs[a].1 < rs[a + 1].0);
    }
}

} // verus!
