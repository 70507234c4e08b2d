//! Candidate Google Drive folders to offer as backup destinations.

use vstd::prelude::*;
use crate::paths::{PathStyle, prefix_of, has_root, join_spec, join_str, parse_path, segments};
use crate::text::{chars_equal, chars_of, string_of};

verus! {

/// How a candidate folder was found.
#[derive(Debug, Clone, Copy, PartialEq, Eq)]
pub enum DetectionSource {
    Registry,
    DriveLetter,
    Conventional,
}

/// A folder that looks like a Google Drive sync root, with the label to show for it.
#[derive(Debug, Clone, PartialEq, Eq)]
pub struct DriveCandidate {
    pub path: String,
    pub label: String,
    pub source: DetectionSource,
}

pub open spec fn google_drive() -> Seq<char> {
    seq!['G', 'o', 'o', 'g', 'l', 'e', ' ', 'D', 'r', 'i', 'v', 'e']
}

/// `Google Drive` in the user's home folder.
pub fn google_drive_path(home: &str, st: PathStyle) -> (r: String)
    ensures
        r@ == join_spec(home@, google_drive(), st),
{
    let name = "Google Drive";
    proof {
        reveal_strlit("Google Drive");
        assert(name@ =~= google_drive());
    }
    join_str(home, name, st)
}

/// The conventional candidate: `Google Drive` in the home folder, labelled
/// `Google Drive`, offered only when that folder exists (`google_drive_is_dir`).
pub fn from_conventional_paths_in(home: &str, google_drive_is_dir: bool) -> (r: Vec<
    DriveCandidate,
>)
    ensures
        !google_drive_is_dir ==> r@.len() == 0,
        google_drive_is_dir ==> r@.len() == 1 && r@[0].label@ == google_drive()
            && r@[0].source == DetectionSource::Conventional && exists|st: PathStyle|
            (st.separator == '/' || st.separator == '\\') && r@[0].path@ == join_spec(
                home@,
                google_drive(),
                st,
            ),
{
    let mut out: Vec<DriveCandidate> = Vec::new();
    if google_drive_is_dir {
        let st = PathStyle::native();
        let path = google_drive_path(home, st);
        let label = "Google Drive";
        proof {
            reveal_strlit("Google Drive");
            assert(label@ =~= google_drive());
        }
        out.push(
            DriveCandidate { path, label: label.to_owned(), source: DetectionSource::Conventional },
        );
    }
    out
}

/// The folder names looked for at the root of every drive letter.
pub open spec fn drive_folder_names() -> Seq<Seq<char>> {
    seq![
        seq!['マ', 'イ', 'ド', 'ラ', 'イ', 'ブ'],
        seq!['M', 'y', ' ', 'D', 'r', 'i', 'v', 'e'],
        seq!['共', '有', 'ド', 'ラ', 'イ', 'ブ'],
        seq!['S', 'h', 'a', 'r', 'e', 'd', ' ', 'd', 'r', 'i', 'v', 'e', 's'],
    ]
}

fn drive_folder_name(i: usize) -> (r: &'static str)
    requires
        i < 4,
    ensures
        r@ == drive_folder_names()[i as int],
{
    if i == 0 {
        let s = "マイドライブ";
        proof {
            reveal_strlit("マイドライブ");
            assert(s@ =~= drive_folder_names()[0]);
        }
        s
    } else if i == 1 {
        let s = "My Drive";
        proof {
            reveal_strlit("My Drive");
            assert(s@ =~= drive_folder_names()[1]);
        }
        s
    } else if i == 2 {
        let s = "共有ドライブ";
        proof {
            reveal_strlit("共有ドライブ");
            assert(s@ =~= drive_folder_names()[2]);
        }
        s
    } else {
        let s = "Shared drives";
        proof {
            reveal_strlit("Shared drives");
            assert(s@ =~= drive_folder_names()[3]);
        }
        s
    }
}

/// A place to look for a sync folder: the drive root, the folder below it, and its label.
#[derive(Debug, Clone, PartialEq, Eq)]
pub struct DriveProbe {
    pub root: String,
    pub path: String,
    pub label: String,
}

/// The root `X:\` of the `i`-th drive letter.
pub open spec fn drive_root(i: int) -> Seq<char> {
    seq![(('A' as u32) + i) as char, ':', '\\']
}

/// The places looked at, drive letters `A` to `Z` in order and, for each, the folder names
/// in order.
pub fn drive_letter_probes(st: PathStyle) -> (r: Vec<DriveProbe>)
    ensures
        r@.len() == 26 * 4,
        forall|i: int|
            0 <= i < 26 * 4 ==> {
                &&& (#[trigger] r@[i]).root@ == drive_root(i / 4)
                &&& r@[i].label@ == drive_folder_names()[i % 4]
                &&& r@[i].path@ == join_spec(drive_root(i / 4), drive_folder_names()[i % 4], st)
            },
{
    let mut out: Vec<DriveProbe> = Vec::new();
    let mut letter: u8 = 0;
    while letter < 26
        invariant
            letter <= 26,
            out@.len() == letter as int * 4,
            forall|i: int|
                0 <= i < letter as int * 4 ==> {
                    &&& (#[trigger] out@[i]).root@ == drive_root(i / 4)
                    &&& out@[i].label@ == drive_folder_names()[i % 4]
                    &&& out@[i].path@ == join_spec(
                        drive_root(i / 4),
                        drive_folder_names()[i % 4],
                        st,
                    )
                },
        decreases 26 - letter,
    {
        let c: char = (65u8 + letter) as char;
        let mut root_chars: Vec<char> = Vec::new();
        root_chars.push(c);
        root_chars.push(':');
        root_chars.push('\\');
        assert(root_chars@ =~= drive_root(letter as int));
        let mut k: usize = 0;
        while k < 4
            invariant
                k <= 4,
                letter < 26,
                root_chars@ == drive_root(letter as int),
                out@.len() == letter as int * 4 + k,
                forall|i: int|
                    0 <= i < letter as int * 4 + k ==> {
                        &&& (#[trigger] out@[i]).root@ == drive_root(i / 4)
                        &&& out@[i].label@ == drive_folder_names()[i % 4]
                        &&& out@[i].path@ == join_spec(
                            drive_root(i / 4),
                            drive_folder_names()[i % 4],
                            st,
                        )
                    },
            decreases 4 - k,
        {
            let name = drive_folder_name(k);
            let root = string_of(root_chars.as_slice());
            let path = join_str(root.as_str(), name, st);
            let ghost idx = letter as int * 4 + k;
            assert(idx / 4 == letter as int && idx % 4 == k as int);
            out.push(DriveProbe { root, path, label: name.to_owned() });
            k = k + 1;
        }
        letter = letter + 1;
    }
    out
}

pub open spec fn flag_at(flags: Seq<bool>, i: int) -> bool {
    0 <= i < flags.len() && flags[i]
}

pub open spec fn letter_candidate(p: DriveProbe) -> DriveCandidate {
    DriveCandidate { path: p.path, label: p.label, source: DetectionSource::DriveLetter }
}

/// The probes whose drive root and folder both exist, in order, as drive-letter candidates.
pub open spec fn letter_candidates(
    probes: Seq<DriveProbe>,
    root_is_dir: Seq<bool>,
    path_is_dir: Seq<bool>,
) -> Seq<DriveCandidate>
    decreases probes.len(),
{
    if probes.len() == 0 {
        seq![]
    } else {
        let i = probes.len() - 1;
        let rest = letter_candidates(probes.drop_last(), root_is_dir, path_is_dir);
        if flag_at(root_is_dir, i) && flag_at(path_is_dir, i) {
            rest.push(letter_candidate(probes[i]))
        } else {
            rest
        }
    }
}

/// The drive-letter candidates from the probes and what the file system said of each
/// (whether its root and its folder are directories, in probe order).
pub fn from_drive_letters(probes: &[DriveProbe], root_is_dir: &[bool], path_is_dir: &[bool]) -> (r:
    Vec<DriveCandidate>)
    ensures
        r@ == letter_candidates(probes@, root_is_dir@, path_is_dir@),
{
    let mut out: Vec<DriveCandidate> = Vec::new();
    let mut i: usize = 0;
    assert(probes@.take(0) =~= Seq::<DriveProbe>::empty());
    while i < probes.len()
        invariant
            i <= probes@.len(),
            out@ == letter_candidates(probes@.take(i as int), root_is_dir@, path_is_dir@),
        decreases probes@.len() - i,
    {
        assert(probes@.take(i + 1).drop_last() =~= probes@.take(i as int));
        let root_ok = i < root_is_dir.len() && root_is_dir[i];
        let path_ok = i < path_is_dir.len() && path_is_dir[i];
        if root_ok && path_ok {
            let p = &probes[i];
            let c = DriveCandidate {
                path: p.path.clone(),
                label: p.label.clone(),
                source: DetectionSource::DriveLetter,
            };
            out.push(c);
        }
        i = i + 1;
    }
    assert(probes@.take(i as int) =~= probes@);
    out
}

/// A registry value naming an existing folder becomes a candidate labelled with the value's
/// name.
pub fn registry_candidate(value_name: String, raw_path: String, is_dir: bool) -> (r: Option<
    DriveCandidate,
>)
    ensures
        is_dir ==> r == Some(
            DriveCandidate { path: raw_path, label: value_name, source: DetectionSource::Registry },
        ),
        !is_dir ==> r is None,
{
    if is_dir {
        Some(DriveCandidate { path: raw_path, label: value_name, source: DetectionSource::Registry })
    } else {
        None
    }
}

fn copy_candidate(c: &DriveCandidate) -> (r: DriveCandidate)
    ensures
        r == *c,
{
    DriveCandidate { path: c.path.clone(), label: c.label.clone(), source: c.source }
}

/// A relative path that starts with a `.` component, which `Path::components` keeps
/// there (as `CurDir`) though it drops every later `.`.
pub open spec fn has_cur_dir(s: Seq<char>, st: PathStyle) -> bool {
    s.len() >= 1 && s[0] == '.' && (s.len() == 1 || st.is_sep(s[1]))
}

fn has_cur_dir_exec(s: &[char], st: PathStyle) -> (r: bool)
    ensures
        r == has_cur_dir(s@, st),
{
    s.len() >= 1 && s[0] == '.' && (s.len() == 1 || st.sep(s[1]))
}

/// Two path texts name the same components (how `PathBuf` compares).
pub open spec fn same_path(a: Seq<char>, b: Seq<char>, st: PathStyle) -> bool {
    &&& prefix_of(a, st) == prefix_of(b, st)
    &&& has_root(a, st) == has_root(b, st)
    &&& has_cur_dir(a, st) == has_cur_dir(b, st)
    &&& segments(a, st) == segments(b, st)
}

fn same_path_exec(a: &str, b: &str, st: PathStyle) -> (r: bool)
    ensures
        r == same_path(a@, b@, st),
{
    let ac = chars_of(a);
    let bc = chars_of(b);
    let pa = parse_path(ac.as_slice(), st);
    let pb = parse_path(bc.as_slice(), st);
    assert(ac@ == a@ && bc@ == b@);
    if pa.root != pb.root || pa.segments.len() != pb.segments.len() {
        assert(pa.segs().len() != pb.segs().len() || pa.root != pb.root);
        return false;
    }
    if has_cur_dir_exec(ac.as_slice(), st) != has_cur_dir_exec(bc.as_slice(), st) {
        return false;
    }
    if !chars_equal(pa.prefix.as_slice(), pb.prefix.as_slice()) {
        return false;
    }
    let mut i: usize = 0;
    while i < pa.segments.len()
        invariant
            i <= pa.segs().len(),
            pa.segs().len() == pb.segs().len(),
            pa.models(a@, st),
            pb.models(b@, st),
            pa.root == pb.root,
            has_cur_dir(a@, st) == has_cur_dir(b@, st),
            prefix_of(a@, st) == prefix_of(b@, st),
            forall|m: int| 0 <= m < i ==> pa.segs()[m] == pb.segs()[m],
        decreases pa.segs().len() - i,
    {
        if !chars_equal(pa.segments[i].as_slice(), pb.segments[i].as_slice()) {
            assert(pa.segs()[i as int] != pb.segs()[i as int]);
            assert(pa.segs() != pb.segs());
            return false;
        }
        i = i + 1;
    }
    assert(pa.segs() =~= pb.segs());
    true
}

/// The path of some item of `kept` is the same path as `path`.
pub open spec fn already_kept(kept: Seq<DriveCandidate>, path: Seq<char>, st: PathStyle) -> bool {
    exists|j: int| 0 <= j < kept.len() && same_path(#[trigger] kept[j].path@, path, st)
}

/// The candidates whose folder exists, each path kept once (its first occurrence), in
/// order.
pub open spec fn dedup_spec(
    items: Seq<DriveCandidate>,
    is_dir: Seq<bool>,
    st: PathStyle,
) -> Seq<DriveCandidate>
    decreases items.len(),
{
    if items.len() == 0 {
        seq![]
    } else {
        let i = items.len() - 1;
        let rest = dedup_spec(items.drop_last(), is_dir, st);
        if flag_at(is_dir, i) && !already_kept(rest, items[i].path@, st) {
            rest.push(items[i])
        } else {
            rest
        }
    }
}

/// The candidates whose folder exists (`is_dir`, in item order; missing flags count as
/// not existing), without repeating a path: the first candidate for a path stays.
pub fn dedup_existing(items: Vec<DriveCandidate>, is_dir: &[bool]) -> (r: Vec<DriveCandidate>)
    ensures
        exists|st: PathStyle|
            (st.separator == '/' || st.separator == '\\') && r@ == dedup_spec(items@, is_dir@, st),
{
    let st = PathStyle::native();
    let mut out: Vec<DriveCandidate> = Vec::new();
    let mut i: usize = 0;
    assert(items@.take(0) =~= Seq::<DriveCandidate>::empty());
    while i < items.len()
        invariant
            i <= items@.len(),
            out@ == dedup_spec(items@.take(i as int), is_dir@, st),
        decreases items@.len() - i,
    {
        assert(items@.take(i + 1).drop_last() =~= items@.take(i as int));
        assert(items@.take(i + 1)[i as int] == items@[i as int]);
        let exists_here = i < is_dir.len() && is_dir[i];
        if exists_here {
            let mut seen = false;
            let mut j: usize = 0;
            while j < out.len()
                invariant
                    j <= out@.len(),
                    i < items@.len(),
                    !seen ==> forall|m: int|
                        0 <= m < j ==> !same_path(#[trigger] out@[m].path@, items@[i as int].path@, st),
                    seen ==> already_kept(out@, items@[i as int].path@, st),
                decreases out@.len() - j,
            {
                if !seen && same_path_exec(out[j].path.as_str(), items[i].path.as_str(), st) {
                    seen = true;
                }
                j = j + 1;
            }
            if !seen {
                out.push(copy_candidate(&items[i]));
            }
        }
        i = i + 1;
    }
    assert(items@.take(i as int) =~= items@);
    out
}

/// After removing missing folders and repeats, no two candidates name the same path, every
/// candidate left is one of the existing input candidates, and every existing input path
/// is still offered.
pub proof fn lemma_dedup_unique_and_complete(items: Seq<DriveCandidate>, is_dir: Seq<bool>, st: PathStyle)
    ensures
        ({
            let r = dedup_spec(items, is_dir, st);
            &&& forall|a: int, b: int|
                0 <= a < b < r.len() ==> !same_path(#[trigger] r[a].path@, #[trigger] r[b].path@, st)
            &&& forall|a: int|
                #![trigger r[a]]
                0 <= a < r.len() ==> exists|i: int|
                    #![trigger items[i]]
                    0 <= i < items.len() && flag_at(is_dir, i) && items[i] == r[a]
            &&& forall|i: int|
                0 <= i < items.len() && flag_at(is_dir, i) ==> already_kept(
                    r,
                    #[trigger] items[i].path@,
                    st,
                )
        }),
    decreases items.len(),
{
    if items.len() > 0 {
        let n = items.len() - 1;
        let prefix = items.drop_last();
        lemma_dedup_unique_and_complete(prefix, is_dir, st);
        let rest = dedup_spec(prefix, is_dir, st);
        let r = dedup_spec(items, is_dir, st);
        assert forall|a: int| #![trigger r[a]] 0 <= a < r.len() implies exists|i: int|
            #![trigger items[i]]
            0 <= i < items.len() && flag_at(is_dir, i) && items[i] == r[a] by {
            if a < rest.len() {
                assert(rest[a] == r[a]);
                let i = choose|i: int| #![trigger prefix[i]] 0 <= i < prefix.len() && flag_at(is_dir, i) && prefix[i] == rest[a];
                assert(items[i] == prefix[i]);
            } else {
                assert(items[n] == r[a]);
            }
        }
        assert forall|i: int| 0 <= i < items.len() && flag_at(is_dir, i) implies already_kept(
            r,
            #[trigger] items[i].path@,
            st,
        ) by {
            if i < n {
                assert(items[i] == prefix[i]);
                assert(already_kept(rest, prefix[i].path@, st));
                let j = choose|j: int| 0 <= j < rest.len() && same_path(#[trigger] rest[j].path@, prefix[i].path@, st);
                assert(r[j] == rest[j]);
            } else {
                if !already_kept(rest, items[n].path@, st) {
                    assert(r[rest.len() as int] == items[n]);
                    assert(same_path(r[rest.len() as int].path@, items[n].path@, st));
                } else {
                    let j = choose|j: int| 0 <= j < rest.len() && same_path(#[trigger] rest[j].path@, items[n].path@, st);
                    assert(r[j] == rest[j]);
                }
            }
        }
        assert forall|a: int, b: int| 0 <= a < b < r.len() implies !same_path(
            #[trigger] r[a].path@,
            #[trigger] r[b].path@,
            st,
        ) by {
            if b < rest.len() {
                assert(r[a] == rest[a] && r[b] == rest[b]);
            } else {
                assert(r[a] == rest[a]);
                assert(r[b] == items[n]);
                if same_path(r[a].path@, r[b].path@, st) {
                    assert(already_kept(rest, items[n].path@, st));
                }
            }
        }
    }
}

/// Item `i` is the first candidate whose folder exists among those naming its path.
pub open spec fn first_existing(
    items: Seq<DriveCandidate>,
    is_dir: Seq<bool>,
    st: PathStyle,
    i: int,
) -> bool {
    flag_at(is_dir, i) && !exists|j: int|
        0 <= j < i && flag_at(is_dir, j) && same_path(
            #[trigger] items[j].path@,
            items[i].path@,
            st,
        )
}

/// The items `i` with `first_existing(items, is_dir, st, i)`, in their order.
pub open spec fn first_existing_items(
    items: Seq<DriveCandidate>,
    is_dir: Seq<bool>,
    st: PathStyle,
) -> Seq<DriveCandidate>
    decreases items.len(),
{
    if items.len() == 0 {
        seq![]
    } else {
        let i = items.len() - 1;
        let rest = first_existing_items(items.drop_last(), is_dir, st);
        if first_existing(items, is_dir, st, i) {
            rest.push(items[i])
        } else {
            rest
        }
    }
}

/// Removing missing folders and repeats keeps, in their order, exactly the candidates whose
/// folder exists and whose path no earlier existing candidate names: the first candidate
/// for each existing path wins.
pub proof fn lemma_dedup_keeps_first_in_order(
    items: Seq<DriveCandidate>,
    is_dir: Seq<bool>,
    st: PathStyle,
)
    ensures
        dedup_spec(items, is_dir, st) == first_existing_items(items, is_dir, st),
    decreases items.len(),
{
    if items.len() > 0 {
        let n = items.len() - 1;
        let prefix = items.drop_last();
        lemma_dedup_keeps_first_in_order(prefix, is_dir, st);
        lemma_dedup_unique_and_complete(prefix, is_dir, st);
        let rest = dedup_spec(prefix, is_dir, st);
        let p = items[n].path@;
        if flag_at(is_dir, n) {
            if already_kept(rest, p, st) {
                let k = choose|k: int| 0 <= k < rest.len() && same_path(#[trigger] rest[k].path@, p, st);
                let i = choose|i: int|
                    #![trigger prefix[i]]
                    0 <= i < prefix.len() && flag_at(is_dir, i) && prefix[i] == rest[k];
                assert(items[i] == prefix[i]);
                assert(same_path(items[i].path@, p, st));
                assert(!first_existing(items, is_dir, st, n));
            } else {
                assert forall|j: int|
                    0 <= j < n && flag_at(is_dir, j) implies !same_path(
                    #[trigger] items[j].path@,
                    p,
                    st,
                ) by {
                    assert(items[j] == prefix[j]);
                    assert(already_kept(rest, prefix[j].path@, st));
                    let k = choose|k: int|
                        0 <= k < rest.len() && same_path(#[trigger] rest[k].path@, prefix[j].path@, st);
                    if same_path(items[j].path@, p, st) {
                        assert(same_path(rest[k].path@, p, st));
                    }
                }
                assert(first_existing(items, is_dir, st, n));
            }
        }
    }
}

/// When the existence flags agree for candidates that name the same path (as they do when
/// they come from one look at the file system), a candidate is kept exactly when its
/// folder exists and no earlier candidate names its path.
pub proof fn lemma_first_existing_when_flags_agree(
    items: Seq<DriveCandidate>,
    is_dir: Seq<bool>,
    st: PathStyle,
    i: int,
)
    requires
        0 <= i < items.len(),
        forall|a: int, b: int|
            0 <= a < items.len() && 0 <= b < items.len() && same_path(
                #[trigger] items[a].path@,
                #[trigger] items[b].path@,
                st,
            ) ==> flag_at(is_dir, a) == flag_at(is_dir, b),
    ensures
        first_existing(items, is_dir, st, i) <==> flag_at(is_dir, i) && !exists|j: int|
            0 <= j < i && same_path(#[trigger] items[j].path@, items[i].path@, st),
{
    if flag_at(is_dir, i) && exists|j: int|
        0 <= j < i && same_path(#[trigger] items[j].path@, items[i].path@, st) {
        let j = choose|j: int| 0 <= j < i && same_path(#[trigger] items[j].path@, items[i].path@, st);
        assert(flag_at(is_dir, j) == flag_at(is_dir, i));
    }
}

/// The drive-letter scan leaves out no folder it found: for every probe whose drive root
/// and folder both exist, its folder is offered as a drive-letter candidate with the
/// probe's label.
pub proof fn lemma_every_found_drive_folder_is_offered(
    probes: Seq<DriveProbe>,
    root_is_dir: Seq<bool>,
    path_is_dir: Seq<bool>,
    i: int,
)
    requires
        0 <= i < probes.len(),
        i < root_is_dir.len() && root_is_dir[i],
        i < path_is_dir.len() && path_is_dir[i],
    ensures
        letter_candidates(probes, root_is_dir, path_is_dir).contains(
            DriveCandidate {
                path: probes[i].path,
                label: probes[i].label,
                source: DetectionSource::DriveLetter,
            },
        ),
    decreases probes.len(),
{
    let want = DriveCandidate {
        path: probes[i].path,
        label: probes[i].label,
        source: DetectionSource::DriveLetter,
    };
    let rest = letter_candidates(probes.drop_last(), root_is_dir, path_is_dir);
    let all = letter_candidates(probes, root_is_dir, path_is_dir);
    if i == probes.len() - 1 {
        assert(all == rest.push(want));
        assert(all[rest.len() as int] == want);
    } else {
        assert(probes.drop_last()[i] == probes[i]);
        lemma_every_found_drive_folder_is_offered(probes.drop_last(), root_is_dir, path_is_dir, i);
        let m = choose|m: int| 0 <= m < rest.len() && rest[m] == want;
        assert(all[m] == rest[m]);
    }
}

} // verus!
