//! A model of the file-system paths that the backup logic reasons about.
//!
//! A path is read, as `Path::components` reads it, as an optional prefix (on Windows a
//! drive such as `C:` or a UNC share such as `\\server\share`), an optional root (a
//! separator after the prefix), and its segments: the non-empty pieces between
//! separators, with `.` pieces left out. `/` always separates; on Windows `\` does too.

use vstd::prelude::*;
use crate::text::{ascii_lower, chars_of, string_of, to_ascii_lower};

verus! {

/// Reads `std::path::MAIN_SEPARATOR`, which its documentation gives as `/` on Unix and `\`
/// on Windows; which of the two it is depends on the platform and is not stated.
#[verifier::external_body]
fn main_separator() -> (r: char)
    ensures
        r == '/' || r == '\\',
{
    std::path::MAIN_SEPARATOR
}

/// The separator conventions of the platform the program runs on.
#[derive(Clone, Copy, Debug, PartialEq, Eq)]
pub struct PathStyle {
    pub separator: char,
}

impl PathStyle {
    /// The platform's own convention.
    pub fn native() -> (r: PathStyle)
        ensures
            r.separator == '/' || r.separator == '\\',
    {
        PathStyle { separator: main_separator() }
    }

    pub open spec fn is_sep(self, c: char) -> bool {
        c == '/' || c == self.separator
    }

    /// Windows compares paths without regard to ASCII case.
    pub open spec fn folds_case(self) -> bool {
        self.separator == '\\'
    }

    pub fn sep(&self, c: char) -> (r: bool)
        ensures
            r == self.is_sep(c),
    {
        c == '/' || c == self.separator
    }

    pub fn is_windows(&self) -> (r: bool)
        ensures
            r == self.folds_case(),
    {
        self.separator == '\\'
    }
}

/// A segment that counts as a path component: non-empty and not `.`.
pub open spec fn keeps_segment(cur: Seq<char>) -> bool {
    cur.len() > 0 && cur != seq!['.']
}

pub open spec fn finish_segment(done: Seq<Seq<char>>, cur: Seq<char>) -> Seq<Seq<char>> {
    if keeps_segment(cur) {
        done.push(cur)
    } else {
        done
    }
}

/// Left-to-right scan that splits `s` at separators; `done` holds the segments found so
/// far and `cur` the piece being read.
pub open spec fn seg_scan(
    s: Seq<char>,
    st: PathStyle,
    done: Seq<Seq<char>>,
    cur: Seq<char>,
) -> Seq<Seq<char>>
    decreases s.len(),
{
    if s.len() == 0 {
        finish_segment(done, cur)
    } else if st.is_sep(s[0]) {
        seg_scan(s.drop_first(), st, finish_segment(done, cur), seq![])
    } else {
        seg_scan(s.drop_first(), st, done, cur.push(s[0]))
    }
}

/// Index of the first separator in `s` at or after `i`, or the length of `s`.
pub open spec fn next_sep(s: Seq<char>, st: PathStyle, i: int) -> int
    decreases s.len() - i,
{
    if i < 0 || i >= s.len() {
        s.len() as int
    } else if st.is_sep(s[i]) {
        i
    } else {
        next_sep(s, st, i + 1)
    }
}

/// On Windows, `s` starts with a UNC prefix such as `\\server\share`.
pub open spec fn is_unc(s: Seq<char>, st: PathStyle) -> bool {
    st.folds_case() && s.len() >= 3 && st.is_sep(s[0]) && st.is_sep(s[1]) && !st.is_sep(s[2])
}

/// On Windows, `s` starts with a drive prefix such as `C:`.
pub open spec fn is_drive_prefixed(s: Seq<char>, st: PathStyle) -> bool {
    st.folds_case() && s.len() >= 2 && is_ascii_alpha(s[0]) && s[1] == ':'
}

/// Length of the Windows prefix that `s` starts with (the `Prefix` component of
/// `Path::components`): a drive `C:`, or `\\server\share`; 0 when there is none and on
/// other systems.
pub open spec fn prefix_len(s: Seq<char>, st: PathStyle) -> int {
    if is_drive_prefixed(s, st) {
        2
    } else if is_unc(s, st) {
        let a = next_sep(s, st, 2);
        if a >= s.len() {
            a
        } else {
            next_sep(s, st, a + 1)
        }
    } else {
        0
    }
}

/// The Windows prefix that path `s` starts with, as written (empty when there is none).
pub open spec fn prefix_of(s: Seq<char>, st: PathStyle) -> Seq<char> {
    s.take(prefix_len(s, st))
}

/// The segments of path `s`, after its prefix.
pub open spec fn segments(s: Seq<char>, st: PathStyle) -> Seq<Seq<char>> {
    seg_scan(s.skip(prefix_len(s, st)), st, seq![], seq![])
}

/// Whether path `s` has a root, as `Path::has_root` documents it: a separator right after
/// the prefix (or at the start when there is none), or any UNC prefix.
pub open spec fn has_root(s: Seq<char>, st: PathStyle) -> bool {
    is_unc(s, st) || (s.len() > prefix_len(s, st) && st.is_sep(s[prefix_len(s, st)]))
}

pub proof fn lemma_next_sep_bounds(s: Seq<char>, st: PathStyle, i: int)
    requires
        0 <= i,
    ensures
        next_sep(s, st, i) == s.len() || (i <= next_sep(s, st, i) < s.len() && st.is_sep(
            s[next_sep(s, st, i)],
        )),
        i <= s.len() ==> i <= next_sep(s, st, i) <= s.len(),
        i > s.len() ==> next_sep(s, st, i) == s.len(),
    decreases s.len() - i,
{
    if i < s.len() && !st.is_sep(s[i]) {
        lemma_next_sep_bounds(s, st, i + 1);
    }
}

/// The prefix is a part of the path.
pub proof fn lemma_prefix_len_bounds(s: Seq<char>, st: PathStyle)
    ensures
        0 <= prefix_len(s, st) <= s.len(),
{
    lemma_next_sep_bounds(s, st, 2);
    let a = next_sep(s, st, 2);
    lemma_next_sep_bounds(s, st, a + 1);
}

pub open spec fn dot_dot() -> Seq<char> {
    seq!['.', '.']
}

/// The file name of a path made of the segments `segs`: its last segment, unless there is
/// none or it is `..`.
pub open spec fn file_name_of(segs: Seq<Seq<char>>) -> Option<Seq<char>> {
    if segs.len() > 0 && segs.last() != dot_dot() {
        Some(segs.last())
    } else {
        None
    }
}

/// Index of the last occurrence of `c` in `s`, or -1.
pub open spec fn last_index_of(s: Seq<char>, c: char) -> int
    decreases s.len(),
{
    if s.len() == 0 {
        -1
    } else if s.last() == c {
        s.len() - 1
    } else {
        last_index_of(s.drop_last(), c)
    }
}

/// The extension of a file name: the part after its last `.`, unless it has no `.`
/// or its only `.` is the first character.
pub open spec fn extension_of(name: Seq<char>) -> Option<Seq<char>> {
    let d = last_index_of(name, '.');
    if d <= 0 {
        None
    } else {
        Some(name.subrange(d + 1, name.len() as int))
    }
}

/// The stem of a file name: the part before its last `.`, or the whole name when it has
/// no extension.
pub open spec fn stem_of(name: Seq<char>) -> Seq<char> {
    let d = last_index_of(name, '.');
    if d <= 0 {
        name
    } else {
        name.subrange(0, d)
    }
}

/// The parts joined with the separator between consecutive parts.
pub open spec fn join(parts: Seq<Seq<char>>, sep: char) -> Seq<char>
    decreases parts.len(),
{
    if parts.len() == 0 {
        seq![]
    } else if parts.len() == 1 {
        parts[0]
    } else {
        join(parts.drop_last(), sep) + seq![sep] + parts.last()
    }
}

/// The parts of a path as its comparison key lists them: the prefix (when there is one),
/// the root as a separator (when there is one), then the segments.
pub open spec fn key_parts(pre: Seq<char>, root: bool, segs: Seq<Seq<char>>, st: PathStyle) -> Seq<
    Seq<char>,
> {
    let p: Seq<Seq<char>> = if pre.len() > 0 {
        seq![pre]
    } else {
        seq![]
    };
    let r: Seq<Seq<char>> = if root {
        seq![seq![st.separator]]
    } else {
        seq![]
    };
    p + r + segs
}

/// The comparison key of a path: its parts (the prefix, the root, then the segments)
/// joined by the separator, ASCII-lowercased on Windows.
pub open spec fn path_key_spec(
    pre: Seq<char>,
    root: bool,
    segs: Seq<Seq<char>>,
    st: PathStyle,
) -> Seq<char> {
    let joined = join(key_parts(pre, root, segs, st), st.separator);
    if st.folds_case() {
        ascii_lower(joined)
    } else {
        joined
    }
}

/// The text of a path made of a prefix, a root flag and segments.
pub open spec fn render(pre: Seq<char>, root: bool, segs: Seq<Seq<char>>, st: PathStyle) -> Seq<
    char,
> {
    if root {
        pre + seq![st.separator] + join(segs, st.separator)
    } else {
        pre + join(segs, st.separator)
    }
}

/// `base` with the relative name `name` appended, as `Path::join` does: a separator is put
/// between them unless `base` is empty, already ends with a separator, or (on Windows)
/// is a bare drive such as `C:`.
pub open spec fn join_spec(base: Seq<char>, name: Seq<char>, st: PathStyle) -> Seq<char> {
    if base.len() == 0 || st.is_sep(base.last()) || (st.folds_case() && is_drive(base)) {
        base + name
    } else {
        base + seq![st.separator] + name
    }
}

pub open spec fn is_ascii_alpha(c: char) -> bool {
    ('a' <= c && c <= 'z') || ('A' <= c && c <= 'Z')
}

pub open spec fn is_drive(s: Seq<char>) -> bool {
    s.len() == 2 && is_ascii_alpha(s[0]) && s[1] == ':'
}

pub open spec fn seg_views(v: Seq<Vec<char>>) -> Seq<Seq<char>> {
    Seq::new(v.len(), |i: int| v[i]@)
}

/// A path split into its prefix, root flag and segments.
pub struct ParsedPath {
    pub prefix: Vec<char>,
    pub root: bool,
    pub segments: Vec<Vec<char>>,
}

impl ParsedPath {
    pub open spec fn segs(&self) -> Seq<Seq<char>> {
        seg_views(self.segments@)
    }

    /// Whether this path and `s` denote the same components.
    pub open spec fn models(&self, s: Seq<char>, st: PathStyle) -> bool {
        self.prefix@ == prefix_of(s, st) && self.root == has_root(s, st) && self.segs()
            == segments(s, st)
    }
}

fn finish_segment_exec(done: &mut Vec<Vec<char>>, cur: Vec<char>)
    ensures
        seg_views(final(done)@) == finish_segment(seg_views(old(done)@), cur@),
{
    let keep = cur.len() > 0 && !(cur.len() == 1 && cur[0] == '.');
    assert(keep == keeps_segment(cur@)) by {
        if cur@.len() == 1 {
            if cur@ == seq!['.'] {
                assert(cur@[0] == '.');
            }
            if cur@[0] == '.' {
                assert(cur@ =~= seq!['.']);
            }
        }
    }
    let ghost before = seg_views(done@);
    if keep {
        let ghost c = cur@;
        done.push(cur);
        assert(seg_views(done@) =~= before.push(c));
    }
}

fn next_sep_exec(s: &[char], st: PathStyle, i: usize) -> (r: usize)
    requires
        i <= s@.len(),
    ensures
        r == next_sep(s@, st, i as int),
{
    let mut j = i;
    while j < s.len() && !st.sep(s[j])
        invariant
            i <= j <= s@.len(),
            next_sep(s@, st, i as int) == next_sep(s@, st, j as int),
        decreases s@.len() - j,
    {
        j = j + 1;
    }
    j
}

fn prefix_len_exec(s: &[char], st: PathStyle) -> (r: usize)
    ensures
        r == prefix_len(s@, st),
{
    let n = s.len();
    if st.is_windows() && n >= 2 && (('a' <= s[0] && s[0] <= 'z') || ('A' <= s[0] && s[0] <= 'Z'))
        && s[1] == ':' {
        2
    } else if st.is_windows() && n >= 3 && st.sep(s[0]) && st.sep(s[1]) && !st.sep(s[2]) {
        let a = next_sep_exec(s, st, 2);
        proof {
            lemma_next_sep_bounds(s@, st, 2);
        }
        if a >= n {
            a
        } else {
            next_sep_exec(s, st, a + 1)
        }
    } else {
        0
    }
}

/// Splits a path into its prefix, root flag and segments.
pub fn parse_path(s: &[char], st: PathStyle) -> (r: ParsedPath)
    ensures
        r.models(s@, st),
{
    let plen = prefix_len_exec(s, st);
    proof {
        lemma_prefix_len_bounds(s@, st);
    }
    let prefix = subrange_chars(s, 0, plen);
    assert(prefix@ =~= prefix_of(s@, st));
    let unc = st.is_windows() && s.len() >= 3 && st.sep(s[0]) && st.sep(s[1]) && !st.sep(s[2]);
    let root = unc || (s.len() > plen && st.sep(s[plen]));
    let mut done: Vec<Vec<char>> = Vec::new();
    let mut cur: Vec<char> = Vec::new();
    let mut i: usize = plen;
    assert(seg_views(done@) =~= Seq::<Seq<char>>::empty());
    while i < s.len()
        invariant
            plen <= i <= s@.len(),
            segments(s@, st) == seg_scan(s@.skip(i as int), st, seg_views(done@), cur@),
        decreases s@.len() - i,
    {
        let c = s[i];
        assert(s@.skip(i as int).drop_first() =~= s@.skip(i + 1));
        assert(s@.skip(i as int)[0] == c);
        if st.sep(c) {
            let finished = cur;
            finish_segment_exec(&mut done, finished);
            cur = Vec::new();
            assert(cur@ =~= Seq::<char>::empty());
        } else {
            cur.push(c);
        }
        i = i + 1;
    }
    assert(s@.skip(i as int).len() == 0);
    finish_segment_exec(&mut done, cur);
    ParsedPath { prefix, root, segments: done }
}

/// `last_index_of` is -1 or a position of `c` in `s`.
pub proof fn lemma_last_index_bounds(s: Seq<char>, c: char)
    ensures
        -1 <= last_index_of(s, c) < s.len(),
        last_index_of(s, c) >= 0 ==> s[last_index_of(s, c)] == c,
    decreases s.len(),
{
    if s.len() > 0 && s.last() != c {
        lemma_last_index_bounds(s.drop_last(), c);
    }
}

/// Index of the last `c` in `s`, if any.
pub fn last_index(s: &[char], c: char) -> (r: Option<usize>)
    ensures
        match r {
            Some(i) => i as int == last_index_of(s@, c),
            None => last_index_of(s@, c) == -1,
        },
{
    let mut j: usize = s.len();
    assert(s@.take(s@.len() as int) =~= s@);
    while j > 0
        invariant
            j <= s@.len(),
            last_index_of(s@, c) == last_index_of(s@.take(j as int), c),
        decreases j,
    {
        assert(s@.take(j as int).drop_last() =~= s@.take(j - 1));
        if s[j - 1] == c {
            return Some(j - 1);
        }
        j = j - 1;
    }
    None
}

pub fn subrange_chars(s: &[char], from: usize, to: usize) -> (r: Vec<char>)
    requires
        from <= to <= s@.len(),
    ensures
        r@ == s@.subrange(from as int, to as int),
{
    let mut r: Vec<char> = Vec::new();
    let mut k = from;
    while k < to
        invariant
            from <= k <= to <= s@.len(),
            r@ =~= s@.subrange(from as int, k as int),
        decreases to - k,
    {
        r.push(s[k]);
        k = k + 1;
    }
    r
}

/// The extension of a file name.
pub fn extension(name: &[char]) -> (r: Option<Vec<char>>)
    ensures
        match r {
            Some(e) => extension_of(name@) == Some(e@),
            None => extension_of(name@) is None,
        },
{
    proof {
        lemma_last_index_bounds(name@, '.');
    }
    let n = name.len();
    match last_index(name, '.') {
        Some(d) => {
            assert(d < n);
            if d == 0 {
                None
            } else {
                Some(subrange_chars(name, d + 1, name.len()))
            }
        },
        None => None,
    }
}

/// The stem of a file name.
pub fn stem(name: &[char]) -> (r: Vec<char>)
    ensures
        r@ == stem_of(name@),
{
    proof {
        lemma_last_index_bounds(name@, '.');
    }
    match last_index(name, '.') {
        Some(d) => {
            if d == 0 {
                let r = subrange_chars(name, 0, name.len());
                assert(r@ =~= name@);
                r
            } else {
                subrange_chars(name, 0, d)
            }
        },
        None => {
            let r = subrange_chars(name, 0, name.len());
            assert(r@ =~= name@);
            r
        },
    }
}

pub fn is_dot_dot(seg: &[char]) -> (r: bool)
    ensures
        r == (seg@ == dot_dot()),
{
    let r = seg.len() == 2 && seg[0] == '.' && seg[1] == '.';
    proof {
        if seg@.len() == 2 && seg@[0] == '.' && seg@[1] == '.' {
            assert(seg@ =~= dot_dot());
        }
    }
    r
}

fn push_all(out: &mut Vec<char>, s: &[char])
    ensures
        final(out)@ == old(out)@ + s@,
{
    let mut k: usize = 0;
    while k < s.len()
        invariant
            k <= s@.len(),
            out@ =~= old(out)@ + s@.take(k as int),
        decreases s@.len() - k,
    {
        out.push(s[k]);
        k = k + 1;
    }
    assert(s@.take(s@.len() as int) =~= s@);
}

proof fn lemma_join_push(parts: Seq<Seq<char>>, p: Seq<char>, sep: char)
    requires
        parts.len() > 0,
    ensures
        join(parts.push(p), sep) == join(parts, sep) + seq![sep] + p,
{
    assert(parts.push(p).drop_last() =~= parts);
}

/// The first `k` segments joined with the separator.
fn join_prefix(segs: &Vec<Vec<char>>, k: usize, sep: char) -> (r: Vec<char>)
    requires
        k <= segs@.len(),
    ensures
        r@ == join(seg_views(segs@).take(k as int), sep),
{
    let mut out: Vec<char> = Vec::new();
    let mut i: usize = 0;
    assert(seg_views(segs@).take(0) =~= Seq::<Seq<char>>::empty());
    while i < k
        invariant
            i <= k <= segs@.len(),
            out@ == join(seg_views(segs@).take(i as int), sep),
        decreases k - i,
    {
        let ghost before = seg_views(segs@).take(i as int);
        assert(seg_views(segs@).take(i + 1) =~= before.push(segs@[i as int]@));
        if i > 0 {
            out.push(sep);
            proof {
                lemma_join_push(before, segs@[i as int]@, sep);
            }
        } else {
            assert(before.push(segs@[i as int]@).len() == 1);
        }
        push_all(&mut out, segs[i].as_slice());
        assert(out@ =~= join(seg_views(segs@).take(i + 1), sep));
        i = i + 1;
    }
    out
}

/// The text of the ancestor made of the prefix, the root and the first `k` segments.
pub fn render_prefix(p: &ParsedPath, k: usize, st: PathStyle) -> (r: Vec<char>)
    requires
        k <= p.segs().len(),
    ensures
        r@ == render(p.prefix@, p.root, p.segs().take(k as int), st),
{
    let body = join_prefix(&p.segments, k, st.separator);
    let mut out: Vec<char> = Vec::new();
    push_all(&mut out, p.prefix.as_slice());
    if p.root {
        out.push(st.separator);
    }
    push_all(&mut out, body.as_slice());
    out
}

/// The comparison key of the ancestor made of the prefix, the root and the first `k`
/// segments.
pub fn path_key_prefix(p: &ParsedPath, k: usize, st: PathStyle) -> (r: Vec<char>)
    requires
        k <= p.segs().len(),
    ensures
        r@ == path_key_spec(p.prefix@, p.root, p.segs().take(k as int), st),
{
    let mut parts: Vec<Vec<char>> = Vec::new();
    if p.prefix.len() > 0 {
        parts.push(subrange_chars(p.prefix.as_slice(), 0, p.prefix.len()));
    }
    if p.root {
        let mut r: Vec<char> = Vec::new();
        r.push(st.separator);
        parts.push(r);
    }
    let ghost head = seg_views(parts@);
    assert(head =~= key_parts(p.prefix@, p.root, Seq::empty(), st)) by {
        if p.prefix@.len() > 0 {
            assert(p.prefix@.subrange(0, p.prefix@.len() as int) =~= p.prefix@);
        }
    }
    let mut i: usize = 0;
    while i < k
        invariant
            i <= k <= p.segs().len(),
            head == key_parts(p.prefix@, p.root, Seq::empty(), st),
            seg_views(parts@) =~= head + p.segs().take(i as int),
        decreases k - i,
    {
        let ghost before = seg_views(parts@);
        let seg = subrange_chars(p.segments[i].as_slice(), 0, p.segments[i].len());
        assert(seg@ =~= p.segs()[i as int]);
        parts.push(seg);
        assert(seg_views(parts@) =~= before.push(seg@));
        assert(p.segs().take(i + 1) =~= p.segs().take(i as int).push(p.segs()[i as int]));
        i = i + 1;
    }
    assert(seg_views(parts@) =~= key_parts(p.prefix@, p.root, p.segs().take(k as int), st));
    let joined = join_prefix(&parts, parts.len(), st.separator);
    assert(seg_views(parts@).take(parts@.len() as int) =~= seg_views(parts@));
    if st.is_windows() {
        to_ascii_lower(joined.as_slice())
    } else {
        joined
    }
}

/// `base` with the relative name `name` appended.
pub fn join_name(base: &[char], name: &[char], st: PathStyle) -> (r: Vec<char>)
    ensures
        r@ == join_spec(base@, name@, st),
{
    let mut out: Vec<char> = Vec::new();
    push_all(&mut out, base);
    let n = base.len();
    let drive = n == 2 && (('a' <= base[0] && base[0] <= 'z') || ('A' <= base[0] && base[0] <= 'Z'))
        && base[1] == ':';
    let no_sep = n == 0 || st.sep(base[n - 1]) || (st.is_windows() && drive);
    if !no_sep {
        out.push(st.separator);
    }
    push_all(&mut out, name);
    out
}

/// `base` joined with a relative name, as a `String`.
pub fn join_str(base: &str, name: &str, st: PathStyle) -> (r: String)
    ensures
        r@ == join_spec(base@, name@, st),
{
    let b = chars_of(base);
    let n = chars_of(name);
    let j = join_name(b.as_slice(), n.as_slice(), st);
    string_of(j.as_slice())
}

} // verus!
