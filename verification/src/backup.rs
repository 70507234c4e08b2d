//! Which project files a backup run copies, and where each copy goes.

use vstd::prelude::*;
use crate::paths::{
    ParsedPath, PathStyle, prefix_of, dot_dot, extension, extension_of, file_name_of, has_root, is_dot_dot,
    join_name, join_spec, parse_path, path_key_prefix, path_key_spec, render, render_prefix,
    segments, stem, stem_of,
};
use crate::text::{
    ascii_lower, chars_equal, chars_of, contains, contains_chars, string_of, to_ascii_lower,
    trim, trim_chars,
};

verus! {

pub const TARGET_EXTENSION: &'static str = "prproj";

pub const EXCLUDE_PATH_KEYWORD: &'static str = "Auto-Save";

pub const FOLDER_NAME_REGEX: &'static str = "^\\d{6}\\(";

pub const BACKUP_SUFFIX: &'static str = "_Latest.prproj";

pub const DRIVE_WAIT_SECONDS: u64 = 300;

/// `prproj`, the extension of the files that are backed up (compared ignoring ASCII case).
pub open spec fn target_extension() -> Seq<char> {
    seq!['p', 'r', 'p', 'r', 'o', 'j']
}

/// `auto-save`: a path holding this text, in any ASCII case, is never backed up.
pub open spec fn excluded_keyword_lower() -> Seq<char> {
    seq!['a', 'u', 't', 'o', '-', 's', 'a', 'v', 'e']
}

/// `_Latest.prproj`, appended to the stem of each copied file.
pub open spec fn backup_suffix() -> Seq<char> {
    seq!['_', 'L', 'a', 't', 'e', 's', 't', '.', 'p', 'r', 'p', 'r', 'o', 'j']
}

/// `.part`, the suffix of the temporary file that a copy is written to first.
pub open spec fn part_suffix() -> Seq<char> {
    seq!['.', 'p', 'a', 'r', 't']
}

/// The text of `FOLDER_NAME_REGEX`.
pub open spec fn folder_name_regex() -> Seq<char> {
    seq!['^', '\\', 'd', '{', '6', '}', '\\', '(']
}

/// Whether `text` holds a match of the regular expression `pattern`, as
/// `regex::Regex::is_match` answers for the regex compiled from `pattern`.
pub uninterp spec fn regex_matches(pattern: Seq<char>, text: Seq<char>) -> bool;

/// Whether a folder name matches `FOLDER_NAME_REGEX` (`^\d{6}\(`, where `\d` is any
/// Unicode decimal digit).
pub open spec fn folder_pattern_matches(name: Seq<char>) -> bool {
    regex_matches(folder_name_regex(), name)
}

/// Lowercase form of a string as `str::to_lowercase` gives it (Unicode lowercase mapping).
pub uninterp spec fn unicode_lowercase(s: Seq<char>) -> Seq<char>;

pub open spec fn is_ascii_char(c: char) -> bool {
    (c as u32) < 128
}

/// Compiles `pattern` with `regex::Regex::new` and calls `Regex::is_match` on `text`;
/// `None` when the pattern does not compile. The answer is named `regex_matches`. For
/// `FOLDER_NAME_REGEX` the clauses state that it compiles and what it means for texts
/// whose first six characters are ASCII; which other characters count as digits (Unicode
/// `Nd`) is not stated.
#[verifier::external_body]
fn regex_is_match(pattern: &str, text: &str) -> (r: Option<bool>)
    ensures
        r matches Some(b) ==> b == regex_matches(pattern@, text@),
        pattern@ == folder_name_regex() ==> r is Some,
        pattern@ == folder_name_regex() && r == Some(true) ==> text@.len() >= 7 && text@[6]
            == '(' && forall|i: int|
            0 <= i < 6 && is_ascii_char(#[trigger] text@[i]) ==> '0' <= text@[i] <= '9',
        pattern@ == folder_name_regex() && text@.len() >= 7 && text@[6] == '(' && (forall|i: int|
            0 <= i < 6 ==> '0' <= #[trigger] text@[i] <= '9') ==> r == Some(true),
{
    match regex::Regex::new(pattern) {
        Ok(re) => Some(re.is_match(text)),
        Err(_) => None,
    }
}

/// Whether a folder name matches `FOLDER_NAME_REGEX`: a match has six digits and then
/// `(`, and six ASCII digits followed by `(` always match.
pub fn folder_name_matches(name: &str) -> (r: bool)
    ensures
        r == folder_pattern_matches(name@),
        r ==> name@.len() >= 7 && name@[6] == '(' && forall|i: int|
            0 <= i < 6 && is_ascii_char(#[trigger] name@[i]) ==> '0' <= name@[i] <= '9',
        name@.len() >= 7 && name@[6] == '(' && (forall|i: int|
            0 <= i < 6 ==> '0' <= #[trigger] name@[i] <= '9') ==> r,
{
    proof {
        reveal_strlit("^\\d{6}\\(");
    }
    assert(FOLDER_NAME_REGEX@ =~= folder_name_regex());
    match regex_is_match(FOLDER_NAME_REGEX, name) {
        Some(b) => b,
        None => false,
    }
}

/// Calls `str::to_lowercase`; its result is named `unicode_lowercase`. On a text made of
/// ASCII characters only, the Unicode lowercase mapping is the ASCII one.
#[verifier::external_body]
fn to_lowercase(s: &str) -> (r: String)
    ensures
        r@ == unicode_lowercase(s@),
        (forall|i: int| 0 <= i < s@.len() ==> is_ascii_char(#[trigger] s@[i])) ==> r@
            == ascii_lower(s@),
{
    s.to_lowercase()
}

/// Why a backup run could not start.
#[derive(Debug, Clone, PartialEq, Eq)]
pub enum BackupError {
    SourceMissing(String),
    DestinationMissing(String),
    Io { path: String, message: String },
}

/// How many files a run copied and how many failed.
#[derive(Debug, Clone, Copy, Default, PartialEq, Eq)]
pub struct JobSummary {
    pub copied: u32,
    pub errors: u32,
}

/// The files a run copied and those it failed on, with the error text of each failure.
#[derive(Debug, Default, Clone, PartialEq, Eq)]
pub struct JobOutcome {
    pub summary: JobSummary,
    pub copied_files: Vec<String>,
    pub errored_files: Vec<(String, String)>,
}

impl JobOutcome {
    /// The counters agree with the lists.
    pub open spec fn consistent(&self) -> bool {
        &&& self.summary.copied as nat == self.copied_files@.len()
        &&& self.summary.errors as nat == self.errored_files@.len()
    }

    pub fn new() -> (r: JobOutcome)
        ensures
            r.consistent(),
            r.summary.copied == 0 && r.summary.errors == 0,
            r.copied_files@.len() == 0,
            r.errored_files@.len() == 0,
    {
        JobOutcome {
            summary: JobSummary { copied: 0, errors: 0 },
            copied_files: Vec::new(),
            errored_files: Vec::new(),
        }
    }

    /// Records the result of copying the file at `path`: a success adds it to the copied
    /// files, a failure adds it with its error text to the failed ones.
    pub fn record(&mut self, path: String, result: Result<(), String>)
        requires
            old(self).summary.copied < u32::MAX,
            old(self).summary.errors < u32::MAX,
        ensures
            match result {
                Ok(()) => {
                    &&& final(self).summary.copied == old(self).summary.copied + 1
                    &&& final(self).summary.errors == old(self).summary.errors
                    &&& final(self).copied_files@ == old(self).copied_files@.push(path)
                    &&& final(self).errored_files@ == old(self).errored_files@
                },
                Err(message) => {
                    &&& final(self).summary.copied == old(self).summary.copied
                    &&& final(self).summary.errors == old(self).summary.errors + 1
                    &&& final(self).copied_files@ == old(self).copied_files@
                    &&& final(self).errored_files@ == old(self).errored_files@.push(
                        (path, message),
                    )
                },
            },
            old(self).consistent() ==> final(self).consistent(),
    {
        match result {
            Ok(()) => {
                self.summary.copied = self.summary.copied + 1;
                self.copied_files.push(path);
            },
            Err(message) => {
                self.summary.errors = self.summary.errors + 1;
                self.errored_files.push((path, message));
            },
        }
    }
}

/// A folder that is left out of the backup, with its canonical form when the file system
/// could resolve it.
#[derive(Debug, Clone, PartialEq, Eq)]
pub struct FolderRef {
    pub path: String,
    pub canonical: Option<String>,
}

/// What the walk over the source tree found out about one entry: its path, whether it is
/// a regular file, and the canonical form of each of its ancestors, listed in the order
/// of `path_ancestors` (the entry itself first); a missing or `None` item means that
/// ancestor could not be resolved.
#[derive(Debug, Clone, PartialEq, Eq)]
pub struct EntryFacts {
    pub path: String,
    pub is_file: bool,
    pub ancestor_canonical: Vec<Option<String>>,
    pub style: PathStyle,
}

pub open spec fn opt_view(o: Option<String>) -> Option<Seq<char>> {
    match o {
        Some(s) => Some(s@),
        None => None,
    }
}

impl EntryFacts {
    pub fn new(path: String, is_file: bool, ancestor_canonical: Vec<Option<String>>) -> (r: Self)
        ensures
            r.path == path,
            r.is_file == is_file,
            r.ancestor_canonical == ancestor_canonical,
            r.style.separator == '/' || r.style.separator == '\\',
    {
        EntryFacts { path, is_file, ancestor_canonical, style: PathStyle::native() }
    }

    /// Canonical form of the ancestor with the first `k` segments, if known.
    pub open spec fn canonical_at(&self, k: int) -> Option<Seq<char>> {
        let n = segments(self.path@, self.style).len();
        let i = n - k;
        if 0 <= i < self.ancestor_canonical@.len() {
            opt_view(self.ancestor_canonical@[i])
        } else {
            None
        }
    }
}

/// The ancestor folders of a path (the path itself first, the root or empty path last),
/// as `Path::ancestors` lists them.
pub open spec fn ancestors_spec(s: Seq<char>, st: PathStyle) -> Seq<Seq<char>> {
    let segs = segments(s, st);
    Seq::new(
        segs.len() + 1,
        |i: int| render(prefix_of(s, st), has_root(s, st), segs.take(segs.len() - i), st),
    )
}

/// The ancestor folders of `path`, the path itself first, as `ancestors_spec` lists them.
pub fn path_ancestors(path: &str, st: PathStyle) -> (r: Vec<String>)
    ensures
        strings_view(r@) == ancestors_spec(path@, st),
{
    let c = chars_of(path);
    let p = parse_path(c.as_slice(), st);
    let n = p.segments.len();
    let mut out: Vec<String> = Vec::new();
    let mut i: usize = 0;
    let ghost want = ancestors_spec(path@, st);
    while i < n
        invariant
            i <= n,
            n == p.segs().len(),
            p.models(path@, st),
            want == ancestors_spec(path@, st),
            strings_view(out@) =~= want.take(i as int),
        decreases n - i,
    {
        let v = render_prefix(&p, n - i, st);
        let ghost before = strings_view(out@);
        out.push(string_of(v.as_slice()));
        assert(strings_view(out@) =~= before.push(want[i as int]));
        i = i + 1;
    }
    let v = render_prefix(&p, 0, st);
    let ghost before = strings_view(out@);
    out.push(string_of(v.as_slice()));
    assert(strings_view(out@) =~= before.push(want[n as int]));
    assert(want.take(n as int).push(want[n as int]) =~= want);
    out
}

/// The name of the ancestor made of the first `k` segments.
pub open spec fn ancestor_name(segs: Seq<Seq<char>>, k: int) -> Option<Seq<char>> {
    file_name_of(segs.take(k))
}

/// Some folder above the entry (not the entry itself) has a name that matches the
/// project-folder pattern.
pub open spec fn has_project_ancestor(segs: Seq<Seq<char>>) -> bool {
    exists|k: int|
        1 <= k < segs.len() && (#[trigger] ancestor_name(segs, k) matches Some(nm)
            && folder_pattern_matches(nm))
}

/// The comparison key of a path text.
pub open spec fn key_of(s: Seq<char>, st: PathStyle) -> Seq<char> {
    path_key_spec(prefix_of(s, st), has_root(s, st), segments(s, st), st)
}

/// Whether the ancestor (prefix, root flag and segments, with its canonical form) is the
/// excluded folder `e`: the same components, or the same key, comparing canonical forms
/// when both are known and the paths as written otherwise.
pub open spec fn same_folder(
    pre: Seq<char>,
    root: bool,
    segs: Seq<Seq<char>>,
    canon: Option<Seq<char>>,
    e: Seq<char>,
    e_canon: Option<Seq<char>>,
    st: PathStyle,
) -> bool {
    ||| (pre == prefix_of(e, st) && root == has_root(e, st) && segs == segments(e, st))
    ||| match (canon, e_canon) {
        (Some(ca), Some(ce)) => key_of(ca, st) == key_of(ce, st),
        _ => path_key_spec(pre, root, segs, st) == key_of(e, st),
    }
}

pub open spec fn folder_refs_view(v: Seq<FolderRef>) -> Seq<(Seq<char>, Option<Seq<char>>)> {
    Seq::new(v.len(), |i: int| (v[i].path@, opt_view(v[i].canonical)))
}

/// Some ancestor of the entry is one of the excluded folders.
pub open spec fn under_excluded_folder(
    entry: EntryFacts,
    excluded: Seq<(Seq<char>, Option<Seq<char>>)>,
) -> bool {
    let st = entry.style;
    let pre = prefix_of(entry.path@, st);
    let root = has_root(entry.path@, st);
    let segs = segments(entry.path@, st);
    exists|k: int, j: int|
        0 <= k <= segs.len() && 0 <= j < excluded.len() && #[trigger] same_folder(
            pre,
            root,
            segs.take(k),
            entry.canonical_at(k),
            excluded[j].0,
            excluded[j].1,
            st,
        )
}

pub open spec fn strings_view(v: Seq<String>) -> Seq<Seq<char>> {
    Seq::new(v.len(), |i: int| v[i]@)
}

/// Some ancestor folder name, lowercased, is one of the given names.
pub open spec fn has_excluded_name(segs: Seq<Seq<char>>, names: Seq<Seq<char>>) -> bool {
    exists|k: int, j: int|
        1 <= k <= segs.len() && 0 <= j < names.len() && (#[trigger] ancestor_name(segs, k)
            matches Some(nm) && unicode_lowercase(nm) == #[trigger] names[j])
}

/// The file has the target extension, ignoring ASCII case.
pub open spec fn has_target_extension(segs: Seq<Seq<char>>) -> bool {
    file_name_of(segs) matches Some(name) && extension_of(name) matches Some(e) && ascii_lower(e)
        == target_extension()
}

/// Whether the entry is a file that a backup run copies.
pub open spec fn should_backup_spec(
    entry: EntryFacts,
    excluded: Seq<(Seq<char>, Option<Seq<char>>)>,
    names_lower: Seq<Seq<char>>,
) -> bool {
    let segs = segments(entry.path@, entry.style);
    &&& entry.is_file
    &&& has_target_extension(segs)
    &&& !contains(ascii_lower(entry.path@), excluded_keyword_lower())
    &&& has_project_ancestor(segs)
    &&& !(excluded.len() > 0 && under_excluded_folder(entry, excluded))
    &&& !(names_lower.len() > 0 && has_excluded_name(segs, names_lower))
}

fn target_extension_chars() -> (r: Vec<char>)
    ensures
        r@ == target_extension(),
{
    let r = chars_of(TARGET_EXTENSION);
    proof {
        reveal_strlit("prproj");
        assert(r@ =~= target_extension());
    }
    r
}

fn excluded_keyword_chars() -> (r: Vec<char>)
    ensures
        r@ == excluded_keyword_lower(),
{
    let k = chars_of(EXCLUDE_PATH_KEYWORD);
    let r = to_ascii_lower(k.as_slice());
    proof {
        reveal_strlit("Auto-Save");
        assert(r@ =~= excluded_keyword_lower());
    }
    r
}

fn backup_suffix_chars() -> (r: Vec<char>)
    ensures
        r@ == backup_suffix(),
{
    let r = chars_of(BACKUP_SUFFIX);
    proof {
        reveal_strlit("_Latest.prproj");
        assert(r@ =~= backup_suffix());
    }
    r
}

/// The file name of the ancestor with the first `k` segments.
fn ancestor_name_exec(p: &ParsedPath, k: usize) -> (r: Option<&Vec<char>>)
    requires
        k <= p.segs().len(),
    ensures
        match r {
            Some(v) => ancestor_name(p.segs(), k as int) == Some(v@),
            None => ancestor_name(p.segs(), k as int) is None,
        },
{
    if k == 0 {
        return None;
    }
    let seg = &p.segments[k - 1];
    assert(p.segs().take(k as int).last() == seg@);
    if is_dot_dot(seg.as_slice()) {
        None
    } else {
        Some(seg)
    }
}

fn has_project_ancestor_exec(p: &ParsedPath) -> (r: bool)
    ensures
        r == has_project_ancestor(p.segs()),
{
    let n = p.segments.len();
    let mut i: usize = 0;
    while i + 1 < n
        invariant
            i < n || i == 0,
            n == p.segs().len(),
            forall|m: int|
                1 <= m <= i ==> !(#[trigger] ancestor_name(p.segs(), m) matches Some(nm)
                    && folder_pattern_matches(nm)),
        decreases n - i,
    {
        let k = i + 1;
        match ancestor_name_exec(p, k) {
            Some(name) => {
                let s = string_of(name.as_slice());
                if folder_name_matches(s.as_str()) {
                    return true;
                }
            },
            None => {},
        }
        i = k;
    }
    false
}

fn has_excluded_name_exec(p: &ParsedPath, names: &[String]) -> (r: bool)
    ensures
        r == has_excluded_name(p.segs(), strings_view(names@)),
{
    let n = p.segments.len();
    let ghost nv = strings_view(names@);
    let mut i: usize = 0;
    while i < n
        invariant
            i <= n,
            n == p.segs().len(),
            nv == strings_view(names@),
            forall|m: int, j: int|
                1 <= m <= i && 0 <= j < nv.len() ==> !(#[trigger] ancestor_name(p.segs(), m)
                    matches Some(nm) && unicode_lowercase(nm) == #[trigger] nv[j]),
        decreases n - i,
    {
        let k = i + 1;
        match ancestor_name_exec(p, k) {
            Some(name) => {
                let s = string_of(name.as_slice());
                let lower = to_lowercase(s.as_str());
                let lc = chars_of(lower.as_str());
                let mut j: usize = 0;
                while j < names.len()
                    invariant
                        j <= names@.len(),
                        nv == strings_view(names@),
                        lc@ == unicode_lowercase(name@),
                        1 <= k <= n,
                        n == p.segs().len(),
                        ancestor_name(p.segs(), k as int) == Some(name@),
                        forall|i: int| 0 <= i < j ==> lc@ != #[trigger] nv[i],
                    decreases names@.len() - j,
                {
                    let nc = chars_of(names[j].as_str());
                    if chars_equal(lc.as_slice(), nc.as_slice()) {
                        assert(nv[j as int] == nc@);
                        assert(ancestor_name(p.segs(), k as int) == Some(name@));
                        assert(ancestor_name(p.segs(), k as int) matches Some(nm)
                            && unicode_lowercase(nm) == nv[j as int]);
                        return true;
                    }
                    j = j + 1;
                }
            },
            None => {},
        }
        i = k;
    }
    false
}

fn opt_chars(o: &Option<String>) -> (r: Option<Vec<char>>)
    ensures
        match r {
            Some(v) => opt_view(*o) == Some(v@),
            None => opt_view(*o) is None,
        },
{
    match o {
        Some(s) => Some(chars_of(s.as_str())),
        None => None,
    }
}

fn key_of_exec(s: &[char], st: PathStyle) -> (r: Vec<char>)
    ensures
        r@ == key_of(s@, st),
{
    let p = parse_path(s, st);
    let n = p.segments.len();
    let r = path_key_prefix(&p, n, st);
    assert(p.segs().take(n as int) =~= p.segs());
    r
}

fn segs_equal(p: &ParsedPath, k: usize, q: &ParsedPath) -> (r: bool)
    requires
        k <= p.segs().len(),
    ensures
        r == (p.segs().take(k as int) == q.segs()),
{
    if k != q.segments.len() {
        assert(p.segs().take(k as int).len() != q.segs().len());
        return false;
    }
    let mut i: usize = 0;
    while i < k
        invariant
            i <= k <= p.segs().len(),
            k == q.segs().len(),
            forall|m: int| 0 <= m < i ==> p.segs()[m] == q.segs()[m],
        decreases k - i,
    {
        if !chars_equal(p.segments[i].as_slice(), q.segments[i].as_slice()) {
            assert(p.segs().take(k as int)[i as int] != q.segs()[i as int]);
            return false;
        }
        i = i + 1;
    }
    assert(p.segs().take(k as int) =~= q.segs());
    true
}

fn same_folder_exec(
    p: &ParsedPath,
    k: usize,
    canon: &Option<String>,
    e: &FolderRef,
    st: PathStyle,
) -> (r: bool)
    requires
        k <= p.segs().len(),
    ensures
        r == same_folder(p.prefix@, p.root, p.segs().take(k as int), opt_view(*canon), e.path@,
            opt_view(e.canonical), st),
{
    let ec = chars_of(e.path.as_str());
    let ep = parse_path(ec.as_slice(), st);
    if chars_equal(p.prefix.as_slice(), ep.prefix.as_slice()) && p.root == ep.root && segs_equal(
        p,
        k,
        &ep,
    ) {
        return true;
    }
    let ca = opt_chars(canon);
    let ce = opt_chars(&e.canonical);
    match (ca, ce) {
        (Some(a), Some(b)) => {
            let ka = key_of_exec(a.as_slice(), st);
            let kb = key_of_exec(b.as_slice(), st);
            chars_equal(ka.as_slice(), kb.as_slice())
        },
        (ca, ce) => {
            assert(!(opt_view(*canon) is Some && opt_view(e.canonical) is Some));
            let ka = path_key_prefix(p, k, st);
            let kb = key_of_exec(ec.as_slice(), st);
            chars_equal(ka.as_slice(), kb.as_slice())
        },
    }
}

fn canonical_of(entry: &EntryFacts, n: usize, k: usize) -> (r: &Option<String>)
    requires
        k <= n,
        n == segments(entry.path@, entry.style).len(),
    ensures
        opt_view(*r) == entry.canonical_at(k as int),
{
    let i = n - k;
    if i < entry.ancestor_canonical.len() {
        &entry.ancestor_canonical[i]
    } else {
        &None
    }
}

fn excluded_at(entry: &EntryFacts, p: &ParsedPath, k: usize, excluded: &[FolderRef]) -> (r: bool)
    requires
        p.models(entry.path@, entry.style),
        k <= p.segs().len(),
    ensures
        r == exists|j: int|
            0 <= j < excluded@.len() && #[trigger] same_folder(
                p.prefix@,
                p.root,
                p.segs().take(k as int),
                entry.canonical_at(k as int),
                folder_refs_view(excluded@)[j].0,
                folder_refs_view(excluded@)[j].1,
                entry.style,
            ),
{
    let st = entry.style;
    let ghost ev = folder_refs_view(excluded@);
    let n = p.segments.len();
    let canon = canonical_of(entry, n, k);
    let mut j: usize = 0;
    while j < excluded.len()
        invariant
            j <= excluded@.len(),
            k <= n,
            n == p.segs().len(),
            p.models(entry.path@, st),
            st == entry.style,
            ev == folder_refs_view(excluded@),
            opt_view(*canon) == entry.canonical_at(k as int),
            forall|i: int|
                0 <= i < j ==> !#[trigger] same_folder(
                    p.prefix@,
                    p.root,
                    p.segs().take(k as int),
                    entry.canonical_at(k as int),
                    ev[i].0,
                    ev[i].1,
                    st,
                ),
        decreases excluded@.len() - j,
    {
        if same_folder_exec(p, k, canon, &excluded[j], st) {
            assert(same_folder(
                p.prefix@,
                p.root,
                p.segs().take(k as int),
                entry.canonical_at(k as int),
                ev[j as int].0,
                ev[j as int].1,
                st,
            ));
            return true;
        }
        j = j + 1;
    }
    false
}

fn under_excluded_folder_exec(entry: &EntryFacts, p: &ParsedPath, excluded: &[FolderRef]) -> (r:
    bool)
    requires
        p.models(entry.path@, entry.style),
    ensures
        r == under_excluded_folder(*entry, folder_refs_view(excluded@)),
{
    let st = entry.style;
    let ghost ev = folder_refs_view(excluded@);
    let n = p.segments.len();
    let mut k: usize = 0;
    while k < n
        invariant
            k <= n,
            n == p.segs().len(),
            p.models(entry.path@, st),
            st == entry.style,
            ev == folder_refs_view(excluded@),
            forall|m: int, j: int|
                0 <= m < k && 0 <= j < ev.len() ==> !#[trigger] same_folder(
                    p.prefix@,
                    p.root,
                    p.segs().take(m),
                    entry.canonical_at(m),
                    ev[j].0,
                    ev[j].1,
                    st,
                ),
        decreases n - k,
    {
        if excluded_at(entry, p, k, excluded) {
            return true;
        }
        k = k + 1;
    }
    excluded_at(entry, p, n, excluded)
}

/// Whether the walk entry is a project file that a run copies: a regular file with the
/// `prproj` extension (any ASCII case), whose path holds no `Auto-Save` (any ASCII case),
/// below a folder whose name matches `FOLDER_NAME_REGEX`, and not below an excluded
/// folder or a folder whose lowercased name is an excluded name. An empty list of
/// excluded folders or names excludes nothing.
pub fn should_backup(
    entry: &EntryFacts,
    excluded_folders: &[FolderRef],
    excluded_folder_names_lower: &[String],
) -> (r: bool)
    ensures
        r == should_backup_spec(
            *entry,
            folder_refs_view(excluded_folders@),
            strings_view(excluded_folder_names_lower@),
        ),
{
    let st = entry.style;
    if !entry.is_file {
        return false;
    }
    let chars = chars_of(entry.path.as_str());
    let p = parse_path(chars.as_slice(), st);
    let n = p.segments.len();
    assert(p.segs().take(n as int) =~= p.segs());
    let ext_ok = match ancestor_name_exec(&p, n) {
        Some(name) => {
            match extension(name.as_slice()) {
                Some(e) => {
                    let lower = to_ascii_lower(e.as_slice());
                    let target = target_extension_chars();
                    chars_equal(lower.as_slice(), target.as_slice())
                },
                None => false,
            }
        },
        None => false,
    };
    if !ext_ok {
        return false;
    }
    let lowered = to_ascii_lower(chars.as_slice());
    let keyword = excluded_keyword_chars();
    if contains_chars(lowered.as_slice(), keyword.as_slice()) {
        return false;
    }
    if !has_project_ancestor_exec(&p) {
        return false;
    }
    if excluded_folders.len() > 0 && under_excluded_folder_exec(entry, &p, excluded_folders) {
        return false;
    }
    if excluded_folder_names_lower.len() > 0 && has_excluded_name_exec(
        &p,
        excluded_folder_names_lower,
    ) {
        return false;
    }
    true
}

/// `names` without the blank ones (empty or whitespace only), each lowercased.
pub open spec fn lowered_names_spec(names: Seq<Seq<char>>) -> Seq<Seq<char>>
    decreases names.len(),
{
    if names.len() == 0 {
        seq![]
    } else {
        let rest = lowered_names_spec(names.drop_last());
        if trim(names.last()).len() == 0 {
            rest
        } else {
            rest.push(unicode_lowercase(names.last()))
        }
    }
}

/// The name a copy of the file named `name` gets: its stem followed by `_Latest.prproj`.
pub open spec fn backup_name(name: Seq<char>) -> Seq<char> {
    stem_of(name) + backup_suffix()
}

/// Where the copy of the file at `path` goes: the destination folder joined with the
/// backup name of its file name; none when the path has no file name.
pub open spec fn destination_for_spec(
    path: Seq<char>,
    destination: Seq<char>,
    st: PathStyle,
) -> Option<Seq<char>> {
    match file_name_of(segments(path, st)) {
        Some(name) => Some(join_spec(destination, backup_name(name), st)),
        None => None,
    }
}

/// One file to copy: from `source` to `destination`.
#[derive(Debug, Clone, PartialEq, Eq)]
pub struct PlannedCopy {
    pub source: String,
    pub destination: String,
}

/// The temporary path a copy is written to before it replaces `dest`: `dest` followed by
/// `.part`.
pub fn part_path(dest: &str) -> (r: String)
    ensures
        r@ == dest@ + part_suffix(),
{
    let d = chars_of(dest);
    let mut out: Vec<char> = Vec::new();
    let mut k: usize = 0;
    while k < d.len()
        invariant
            k <= d@.len(),
            out@ =~= d@.take(k as int),
        decreases d@.len() - k,
    {
        out.push(d[k]);
        k = k + 1;
    }
    out.push('.');
    out.push('p');
    out.push('a');
    out.push('r');
    out.push('t');
    assert(d@.take(d@.len() as int) =~= d@);
    assert(out@ =~= d@ + part_suffix());
    string_of(out.as_slice())
}

/// A backup run from a source tree into a flat destination folder.
pub struct BackupJob {
    source: String,
    destination: String,
    excluded_folders: Vec<String>,
    excluded_folder_names: Vec<String>,
    style: PathStyle,
}

/// The excluded folders paired with their canonical forms (missing ones unknown).
pub open spec fn folders_with_canonical(
    folders: Seq<Seq<char>>,
    canonical: Seq<Option<String>>,
) -> Seq<(Seq<char>, Option<Seq<char>>)> {
    Seq::new(
        folders.len(),
        |i: int|
            (folders[i], if i < canonical.len() {
                opt_view(canonical[i])
            } else {
                None
            }),
    )
}

/// The copies a run makes, in walk order: each entry that `should_backup` accepts and that
/// has a file name, paired with its place in the destination folder.
pub open spec fn plan_spec(
    entries: Seq<EntryFacts>,
    excluded: Seq<(Seq<char>, Option<Seq<char>>)>,
    names_lower: Seq<Seq<char>>,
    destination: Seq<char>,
    st: PathStyle,
) -> Seq<(Seq<char>, Seq<char>)>
    decreases entries.len(),
{
    if entries.len() == 0 {
        seq![]
    } else {
        let rest = plan_spec(entries.drop_last(), excluded, names_lower, destination, st);
        let e = entries.last();
        if should_backup_spec(e, excluded, names_lower) {
            match destination_for_spec(e.path@, destination, st) {
                Some(d) => rest.push((e.path@, d)),
                None => rest,
            }
        } else {
            rest
        }
    }
}

pub open spec fn copies_view(v: Seq<PlannedCopy>) -> Seq<(Seq<char>, Seq<char>)> {
    Seq::new(v.len(), |i: int| (v[i].source@, v[i].destination@))
}

impl BackupJob {
    pub closed spec fn source_path(&self) -> Seq<char> {
        self.source@
    }

    pub closed spec fn destination_path(&self) -> Seq<char> {
        self.destination@
    }

    pub closed spec fn excluded_folder_paths(&self) -> Seq<Seq<char>> {
        strings_view(self.excluded_folders@)
    }

    pub closed spec fn excluded_names(&self) -> Seq<Seq<char>> {
        strings_view(self.excluded_folder_names@)
    }

    pub closed spec fn path_style(&self) -> PathStyle {
        self.style
    }

    /// The folders a run leaves out: the configured ones and the destination itself.
    pub open spec fn run_excluded_folders(&self) -> Seq<Seq<char>> {
        self.excluded_folder_paths().push(self.destination_path())
    }

    pub fn new(source: String, destination: String) -> (r: BackupJob)
        ensures
            r.source_path() == source@,
            r.destination_path() == destination@,
            r.excluded_folder_paths().len() == 0,
            r.excluded_names().len() == 0,
            r.path_style().separator == '/' || r.path_style().separator == '\\',
    {
        let r = BackupJob {
            source,
            destination,
            excluded_folders: Vec::new(),
            excluded_folder_names: Vec::new(),
            style: PathStyle::native(),
        };
        assert(strings_view(r.excluded_folders@) =~= Seq::<Seq<char>>::empty());
        assert(strings_view(r.excluded_folder_names@) =~= Seq::<Seq<char>>::empty());
        r
    }

    pub fn with_excluded_folders(self, folders: Vec<String>) -> (r: BackupJob)
        ensures
            r.source_path() == self.source_path(),
            r.destination_path() == self.destination_path(),
            r.excluded_folder_paths() == strings_view(folders@),
            r.excluded_names() == self.excluded_names(),
            r.path_style() == self.path_style(),
    {
        let mut job = self;
        job.excluded_folders = folders;
        job
    }

    pub fn with_excluded_folder_names(self, names: Vec<String>) -> (r: BackupJob)
        ensures
            r.source_path() == self.source_path(),
            r.destination_path() == self.destination_path(),
            r.excluded_folder_paths() == self.excluded_folder_paths(),
            r.excluded_names() == strings_view(names@),
            r.path_style() == self.path_style(),
    {
        let mut job = self;
        job.excluded_folder_names = names;
        job
    }

    pub fn source(&self) -> (r: &str)
        ensures
            r@ == self.source_path(),
    {
        self.source.as_str()
    }

    pub fn destination(&self) -> (r: &str)
        ensures
            r@ == self.destination_path(),
    {
        self.destination.as_str()
    }

    /// A run starts only when both the source and the destination folder exist; the
    /// source is checked first.
    pub fn check_roots(&self, source_exists: bool, destination_exists: bool) -> (r: Result<
        (),
        BackupError,
    >)
        ensures
            !source_exists ==> (r matches Err(BackupError::SourceMissing(p)) && p@
                == self.source_path()),
            source_exists && !destination_exists ==> (r matches Err(
                BackupError::DestinationMissing(p),
            ) && p@ == self.destination_path()),
            source_exists && destination_exists ==> r is Ok,
    {
        if !source_exists {
            return Err(BackupError::SourceMissing(self.source.clone()));
        }
        if !destination_exists {
            return Err(BackupError::DestinationMissing(self.destination.clone()));
        }
        Ok(())
    }

    /// The folders a run leaves out, in order: the configured ones, then the destination.
    pub fn effective_excluded_folders(&self) -> (r: Vec<String>)
        ensures
            strings_view(r@) == self.run_excluded_folders(),
    {
        let mut r: Vec<String> = Vec::new();
        let mut i: usize = 0;
        while i < self.excluded_folders.len()
            invariant
                i <= self.excluded_folders@.len(),
                strings_view(r@) =~= strings_view(self.excluded_folders@).take(i as int),
            decreases self.excluded_folders@.len() - i,
        {
            let ghost before = strings_view(r@);
            let item = self.excluded_folders[i].clone();
            r.push(item);
            assert(strings_view(r@) =~= before.push(self.excluded_folders@[i as int]@));
            i = i + 1;
        }
        let ghost before = strings_view(r@);
        let d = self.destination.clone();
        r.push(d);
        assert(strings_view(r@) =~= before.push(self.destination@));
        assert(strings_view(self.excluded_folders@).take(i as int) =~= strings_view(
            self.excluded_folders@,
        ));
        assert(strings_view(r@) =~= self.run_excluded_folders());
        r
    }

    /// The configured excluded names that are not blank, each lowercased.
    pub fn lowered_excluded_names(&self) -> (r: Vec<String>)
        ensures
            strings_view(r@) == lowered_names_spec(self.excluded_names()),
    {
        let mut r: Vec<String> = Vec::new();
        let mut i: usize = 0;
        let ghost names = self.excluded_names();
        assert(names.take(0) =~= Seq::<Seq<char>>::empty());
        assert(strings_view(r@) =~= Seq::<Seq<char>>::empty());
        while i < self.excluded_folder_names.len()
            invariant
                i <= self.excluded_folder_names@.len(),
                names == self.excluded_names(),
                strings_view(r@) == lowered_names_spec(names.take(i as int)),
            decreases self.excluded_folder_names@.len() - i,
        {
            let n = &self.excluded_folder_names[i];
            let c = chars_of(n.as_str());
            let t = trim_chars(c.as_slice());
            assert(names.take(i + 1).drop_last() =~= names.take(i as int));
            assert(names.take(i + 1).last() == n@);
            if t.len() > 0 {
                let lower = to_lowercase(n.as_str());
                let ghost before = strings_view(r@);
                r.push(lower);
                assert(strings_view(r@) =~= before.push(unicode_lowercase(n@)));
            }
            i = i + 1;
        }
        assert(names.take(i as int) =~= names);
        r
    }

    /// Where the copy of the file at `path` goes, if the path has a file name.
    pub fn destination_for(&self, path: &str) -> (r: Option<String>)
        ensures
            match r {
                Some(d) => destination_for_spec(path@, self.destination_path(), self.path_style())
                    == Some(d@),
                None => destination_for_spec(path@, self.destination_path(), self.path_style())
                    is None,
            },
    {
        let c = chars_of(path);
        let p = parse_path(c.as_slice(), self.style);
        let n = p.segments.len();
        if n == 0 {
            return None;
        }
        let last = &p.segments[n - 1];
        assert(p.segs().last() == last@);
        if is_dot_dot(last.as_slice()) {
            return None;
        }
        let mut name = stem(last.as_slice());
        let suffix = backup_suffix_chars();
        let mut k: usize = 0;
        let ghost base = name@;
        while k < suffix.len()
            invariant
                k <= suffix@.len(),
                name@ =~= base + suffix@.take(k as int),
            decreases suffix@.len() - k,
        {
            name.push(suffix[k]);
            k = k + 1;
        }
        assert(suffix@.take(suffix@.len() as int) =~= suffix@);
        let d = chars_of(self.destination.as_str());
        let joined = join_name(d.as_slice(), name.as_slice(), self.style);
        Some(string_of(joined.as_slice()))
    }

    /// The copies a run makes from the entries its walk found. `excluded_canonical` holds
    /// the canonical forms of `effective_excluded_folders`, in the same order.
    pub fn plan(&self, entries: &[EntryFacts], excluded_canonical: &[Option<String>]) -> (r: Vec<
        PlannedCopy,
    >)
        ensures
            copies_view(r@) == plan_spec(
                entries@,
                folders_with_canonical(self.run_excluded_folders(), excluded_canonical@),
                lowered_names_spec(self.excluded_names()),
                self.destination_path(),
                self.path_style(),
            ),
    {
        let folders = self.effective_excluded_folders();
        let mut refs: Vec<FolderRef> = Vec::new();
        let mut i: usize = 0;
        let ghost fv = folders_with_canonical(self.run_excluded_folders(), excluded_canonical@);
        while i < folders.len()
            invariant
                i <= folders@.len(),
                strings_view(folders@) == self.run_excluded_folders(),
                fv == folders_with_canonical(self.run_excluded_folders(), excluded_canonical@),
                folder_refs_view(refs@) =~= fv.take(i as int),
            decreases folders@.len() - i,
        {
            let canonical = if i < excluded_canonical.len() {
                excluded_canonical[i].clone()
            } else {
                None
            };
            let ghost before = folder_refs_view(refs@);
            refs.push(FolderRef { path: folders[i].clone(), canonical });
            assert(folder_refs_view(refs@) =~= before.push(fv[i as int]));
            i = i + 1;
        }
        assert(fv.take(i as int) =~= fv);
        let names = self.lowered_excluded_names();
        let ghost nv = lowered_names_spec(self.excluded_names());
        let mut out: Vec<PlannedCopy> = Vec::new();
        let mut j: usize = 0;
        assert(entries@.take(0) =~= Seq::<EntryFacts>::empty());
        assert(copies_view(out@) =~= Seq::<(Seq<char>, Seq<char>)>::empty());
        while j < entries.len()
            invariant
                j <= entries@.len(),
                folder_refs_view(refs@) == fv,
                strings_view(names@) == nv,
                copies_view(out@) == plan_spec(
                    entries@.take(j as int),
                    fv,
                    nv,
                    self.destination_path(),
                    self.path_style(),
                ),
            decreases entries@.len() - j,
        {
            let e = &entries[j];
            assert(entries@.take(j + 1).drop_last() =~= entries@.take(j as int));
            assert(entries@.take(j + 1).last() == *e);
            if should_backup(e, refs.as_slice(), names.as_slice()) {
                match self.destination_for(e.path.as_str()) {
                    Some(d) => {
                        let ghost before = copies_view(out@);
                        let ghost dv = d@;
                        out.push(PlannedCopy { source: e.path.clone(), destination: d });
                        assert(copies_view(out@) =~= before.push((e.path@, dv)));
                    },
                    None => {},
                }
            }
            j = j + 1;
        }
        assert(entries@.take(j as int) =~= entries@);
        out
    }
}

/// Nothing at or below the destination folder is ever copied, even when the destination
/// lies inside the source tree: the destination is always among the excluded folders.
pub proof fn lemma_destination_subtree_never_copied(
    job: BackupJob,
    excluded_canonical: Seq<Option<String>>,
    names_lower: Seq<Seq<char>>,
    entry: EntryFacts,
    k: int,
)
    requires
        0 <= k <= segments(entry.path@, entry.style).len(),
        prefix_of(entry.path@, entry.style) == prefix_of(job.destination_path(), entry.style),
        has_root(entry.path@, entry.style) == has_root(job.destination_path(), entry.style),
        segments(entry.path@, entry.style).take(k) == segments(
            job.destination_path(),
            entry.style,
        ),
    ensures
        !should_backup_spec(
            entry,
            folders_with_canonical(job.run_excluded_folders(), excluded_canonical),
            names_lower,
        ),
{
    let ex = folders_with_canonical(job.run_excluded_folders(), excluded_canonical);
    let j = ex.len() - 1;
    assert(ex[j].0 == job.destination_path());
    let st = entry.style;
    assert(same_folder(
        prefix_of(entry.path@, st),
        has_root(entry.path@, st),
        segments(entry.path@, st).take(k),
        entry.canonical_at(k),
        ex[j].0,
        ex[j].1,
        st,
    ));
    assert(under_excluded_folder(entry, ex));
}

/// Excluding more folders or names never makes more files eligible: a file accepted with
/// the larger exclusions is accepted with any smaller ones.
pub proof fn lemma_exclusions_only_remove(
    entry: EntryFacts,
    small: Seq<(Seq<char>, Option<Seq<char>>)>,
    large: Seq<(Seq<char>, Option<Seq<char>>)>,
    small_names: Seq<Seq<char>>,
    large_names: Seq<Seq<char>>,
)
    requires
        forall|i: int| 0 <= i < small.len() ==> large.contains(#[trigger] small[i]),
        forall|i: int| 0 <= i < small_names.len() ==> large_names.contains(#[trigger] small_names[i]),
        should_backup_spec(entry, large, large_names),
    ensures
        should_backup_spec(entry, small, small_names),
{
    let st = entry.style;
    let pre = prefix_of(entry.path@, st);
    let root = has_root(entry.path@, st);
    let segs = segments(entry.path@, st);
    if small.len() > 0 && under_excluded_folder(entry, small) {
        let (k, j) = choose|k: int, j: int|
            0 <= k <= segs.len() && 0 <= j < small.len() && #[trigger] same_folder(
                pre,
                root,
                segs.take(k),
                entry.canonical_at(k),
                small[j].0,
                small[j].1,
                st,
            );
        assert(large.contains(small[j]));
        let jj = choose|jj: int| 0 <= jj < large.len() && large[jj] == small[j];
        assert(same_folder(
            pre,
            root,
            segs.take(k),
            entry.canonical_at(k),
            large[jj].0,
            large[jj].1,
            st,
        ));
        assert(under_excluded_folder(entry, large));
    }
    if small_names.len() > 0 && has_excluded_name(segs, small_names) {
        let (k, j) = choose|k: int, j: int|
            1 <= k <= segs.len() && 0 <= j < small_names.len() && (#[trigger] ancestor_name(segs, k) matches Some(nm) && unicode_lowercase(nm) == #[trigger] small_names[j]);
        assert(large_names.contains(small_names[j]));
        let jj = choose|jj: int| 0 <= jj < large_names.len() && large_names[jj] == small_names[j];
        assert(ancestor_name(segs, k) matches Some(nm) && unicode_lowercase(nm) == large_names[jj]);
        assert(has_excluded_name(segs, large_names));
    }
}

/// The files a run reports as copied and as failed (with the error text), when it tried
/// the copies `copies` in order and copying `copies[i]` gave `results[i]`.
pub open spec fn run_report(
    copies: Seq<PlannedCopy>,
    results: Seq<Result<(), String>>,
) -> (Seq<String>, Seq<(String, String)>)
    decreases copies.len(),
{
    if copies.len() == 0 {
        (seq![], seq![])
    } else {
        let i = copies.len() - 1;
        let (c, e) = run_report(copies.drop_last(), results);
        match results[i] {
            Ok(()) => (c.push(copies[i].source), e),
            Err(m) => (c, e.push((copies[i].source, m))),
        }
    }
}

pub open spec fn planned_sources(copies: Seq<PlannedCopy>) -> Seq<String> {
    Seq::new(copies.len(), |i: int| copies[i].source)
}

pub open spec fn failed_sources(e: Seq<(String, String)>) -> Seq<String> {
    Seq::new(e.len(), |i: int| e[i].0)
}

/// The outcome of a run that tried the planned copies `copies` in order, copying
/// `copies[i]` having given `results[i]`.
pub fn run_outcome(copies: &[PlannedCopy], results: &[Result<(), String>]) -> (r: JobOutcome)
    requires
        results@.len() == copies@.len(),
        copies@.len() < u32::MAX,
    ensures
        r.consistent(),
        (r.copied_files@, r.errored_files@) == run_report(copies@, results@),
{
    let mut out = JobOutcome::new();
    let n = copies.len();
    let mut i: usize = 0;
    assert(copies@.take(0) =~= Seq::<PlannedCopy>::empty());
    while i < n
        invariant
            i <= n,
            n == copies@.len(),
            n == results@.len(),
            n < u32::MAX,
            out.consistent(),
            out.copied_files@.len() + out.errored_files@.len() == i,
            (out.copied_files@, out.errored_files@) == run_report(copies@.take(i as int), results@),
        decreases n - i,
    {
        assert(copies@.take(i + 1).drop_last() =~= copies@.take(i as int));
        assert(copies@.take(i + 1)[i as int] == copies@[i as int]);
        let src = copies[i].source.clone();
        match &results[i] {
            Ok(()) => out.record(src, Ok(())),
            Err(m) => out.record(src, Err(m.clone())),
        }
        i = i + 1;
    }
    assert(copies@.take(n as int) =~= copies@);
    out
}

/// A run reports every planned copy exactly once: the copied files and the sources of the
/// failed copies are, together, the planned sources (counted with repetition).
pub proof fn lemma_run_reports_every_copy_once(
    copies: Seq<PlannedCopy>,
    results: Seq<Result<(), String>>,
)
    requires
        results.len() >= copies.len(),
    ensures
        run_report(copies, results).0.to_multiset().add(
            failed_sources(run_report(copies, results).1).to_multiset(),
        ) =~= planned_sources(copies).to_multiset(),
    decreases copies.len(),
{
    broadcast use vstd::seq_lib::to_multiset_build, vstd::multiset::group_multiset_axioms;

    let c = run_report(copies, results).0;
    let e = run_report(copies, results).1;
    if copies.len() == 0 {
        assert(c =~= Seq::<String>::empty());
        assert(failed_sources(e) =~= Seq::<String>::empty());
        assert(planned_sources(copies) =~= Seq::<String>::empty());
        vstd::seq_lib::to_multiset_len(c);
        vstd::seq_lib::to_multiset_len(failed_sources(e));
        vstd::seq_lib::to_multiset_len(planned_sources(copies));
        vstd::multiset::lemma_multiset_empty_len(c.to_multiset());
        vstd::multiset::lemma_multiset_empty_len(failed_sources(e).to_multiset());
        vstd::multiset::lemma_multiset_empty_len(planned_sources(copies).to_multiset());
    } else {
        let i = copies.len() - 1;
        let pre = copies.drop_last();
        let src = copies[i].source;
        lemma_run_reports_every_copy_once(pre, results);
        let c0 = run_report(pre, results).0;
        let e0 = run_report(pre, results).1;
        assert(c0.to_multiset().add(failed_sources(e0).to_multiset()) == planned_sources(
            pre,
        ).to_multiset());
        assert(planned_sources(copies) =~= planned_sources(pre).push(src));
        assert(planned_sources(copies).to_multiset() =~= planned_sources(pre).to_multiset().insert(
            src,
        ));
        match results[i] {
            Ok(()) => {
                assert(c == c0.push(src) && e == e0);
                assert(c.to_multiset() =~= c0.to_multiset().insert(src));
                assert(c.to_multiset().add(failed_sources(e).to_multiset()) =~= c0.to_multiset().add(
                    failed_sources(e0).to_multiset(),
                ).insert(src));
            },
            Err(m) => {
                assert(c == c0 && e == e0.push((src, m)));
                assert(failed_sources(e) =~= failed_sources(e0).push(src));
                assert(failed_sources(e).to_multiset() =~= failed_sources(e0).to_multiset().insert(
                    src,
                ));
                assert(c.to_multiset().add(failed_sources(e).to_multiset()) =~= c0.to_multiset().add(
                    failed_sources(e0).to_multiset(),
                ).insert(src));
            },
        }
        assert(c.to_multiset().add(failed_sources(e).to_multiset()) == planned_sources(
            pre,
        ).to_multiset().insert(src));
    }
}

/// Every copy a run plans is of an accepted entry, and lands directly in the destination
/// folder under the entry's stem followed by `_Latest.prproj`.
pub proof fn lemma_planned_copies_are_flat(
    entries: Seq<EntryFacts>,
    excluded: Seq<(Seq<char>, Option<Seq<char>>)>,
    names_lower: Seq<Seq<char>>,
    destination: Seq<char>,
    st: PathStyle,
    i: int,
)
    requires
        0 <= i < plan_spec(entries, excluded, names_lower, destination, st).len(),
    ensures
        exists|e: EntryFacts|
            #[trigger] entries.contains(e) && should_backup_spec(e, excluded, names_lower)
                && file_name_of(segments(e.path@, st)) is Some && plan_spec(
                entries,
                excluded,
                names_lower,
                destination,
                st,
            )[i] == (
                e.path@,
                join_spec(
                    destination,
                    stem_of(file_name_of(segments(e.path@, st))->0) + backup_suffix(),
                    st,
                ),
            ),
    decreases entries.len(),
{
    let rest = plan_spec(entries.drop_last(), excluded, names_lower, destination, st);
    let e = entries.last();
    if i < rest.len() {
        lemma_planned_copies_are_flat(entries.drop_last(), excluded, names_lower, destination, st, i);
        let e2 = choose|e2: EntryFacts|
            #[trigger] entries.drop_last().contains(e2) && should_backup_spec(
                e2,
                excluded,
                names_lower,
            ) && file_name_of(segments(e2.path@, st)) is Some && rest[i] == (
                e2.path@,
                join_spec(
                    destination,
                    stem_of(file_name_of(segments(e2.path@, st))->0) + backup_suffix(),
                    st,
                ),
            );
        let idx = choose|idx: int|
            0 <= idx < entries.drop_last().len() && entries.drop_last()[idx] == e2;
        assert(entries[idx] == e2);
        assert(entries.contains(e2));
    } else {
        assert(entries[entries.len() - 1] == e);
        assert(entries.contains(e));
    }
}

/// A plan leaves out no accepted file: every entry that `should_backup` accepts and whose
/// path has a file name is copied to the destination folder under its stem followed by
/// `_Latest.prproj`, whatever entries before or after it are rejected.
pub proof fn lemma_plan_copies_every_accepted_entry(
    entries: Seq<EntryFacts>,
    excluded: Seq<(Seq<char>, Option<Seq<char>>)>,
    names_lower: Seq<Seq<char>>,
    destination: Seq<char>,
    st: PathStyle,
    i: int,
)
    requires
        0 <= i < entries.len(),
        should_backup_spec(entries[i], excluded, names_lower),
        file_name_of(segments(entries[i].path@, st)) is Some,
    ensures
        plan_spec(entries, excluded, names_lower, destination, st).contains(
            (
                entries[i].path@,
                join_spec(
                    destination,
                    stem_of(file_name_of(segments(entries[i].path@, st))->0) + backup_suffix(),
                    st,
                ),
            ),
        ),
    decreases entries.len(),
{
    let e = entries[i];
    let want = (
        e.path@,
        join_spec(destination, stem_of(file_name_of(segments(e.path@, st))->0) + backup_suffix(), st),
    );
    let rest = plan_spec(entries.drop_last(), excluded, names_lower, destination, st);
    let all = plan_spec(entries, excluded, names_lower, destination, st);
    if i == entries.len() - 1 {
        assert(entries.last() == e);
        assert(all == rest.push(want));
        assert(all[rest.len() as int] == want);
    } else {
        assert(entries.drop_last()[i] == e);
        lemma_plan_copies_every_accepted_entry(
            entries.drop_last(),
            excluded,
            names_lower,
            destination,
            st,
            i,
        );
        let m = choose|m: int| 0 <= m < rest.len() && rest[m] == want;
        assert(all.len() >= rest.len());
        assert(all[m] == rest[m]);
    }
}

/// A file is never backed up when some folder on its path (or the file itself) has, once
/// lowercased, one of the excluded names: any ancestor, not only the parent folder.
pub proof fn lemma_excluded_name_anywhere_excludes(
    entry: EntryFacts,
    excluded: Seq<(Seq<char>, Option<Seq<char>>)>,
    names_lower: Seq<Seq<char>>,
    k: int,
    j: int,
)
    requires
        1 <= k <= segments(entry.path@, entry.style).len(),
        0 <= j < names_lower.len(),
        segments(entry.path@, entry.style)[k - 1] != seq!['.', '.'],
        unicode_lowercase(segments(entry.path@, entry.style)[k - 1]) == names_lower[j],
    ensures
        !should_backup_spec(entry, excluded, names_lower),
{
    let segs = segments(entry.path@, entry.style);
    assert(segs.take(k).last() == segs[k - 1]);
    assert(ancestor_name(segs, k) == Some(segs[k - 1]));
    assert(has_excluded_name(segs, names_lower));
}

} // verus!
