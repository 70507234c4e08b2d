//! The persisted settings and the decisions of the settings store.

use vstd::prelude::*;
use crate::backup::JobSummary;
use crate::clock::LocalDateTime;
use crate::paths::{PathStyle, prefix_of, lemma_last_index_bounds, has_root, parse_path, render, render_prefix, segments, stem,
    stem_of};
use crate::text::{chars_of, string_of};

verus! {

pub const DEFAULT_SCHEDULE_TIME: &'static str = "09:00";

/// `09:00`, the schedule of a fresh configuration.
pub open spec fn default_schedule() -> Seq<char> {
    seq!['0', '9', ':', '0', '0']
}

/// Why the settings could not be read or written; each variant carries the path
/// concerned and the error text of the failing operation.
#[derive(Debug, Clone, PartialEq, Eq)]
pub enum ConfigError {
    ReadFailed { path: String, message: String },
    ParseFailed { path: String, message: String },
    WriteFailed { path: String, message: String },
    SerializeFailed(String),
    LockPoisoned,
}

/// The user's settings and the record of the last run.
#[derive(Debug, Clone, PartialEq, Eq)]
pub struct Config {
    pub source: Option<String>,
    pub destination: Option<String>,
    pub schedule_time: String,
    pub auto_start: bool,
    pub excluded_folders: Vec<String>,
    pub excluded_folder_names: Vec<String>,
    pub last_run_at: Option<LocalDateTime>,
    pub last_summary: Option<JobSummary>,
}

impl Config {
    /// The settings of a fresh installation: no folders chosen, a daily run at 09:00,
    /// start at logon, nothing excluded and no run recorded.
    pub open spec fn is_default(&self) -> bool {
        &&& self.source is None
        &&& self.destination is None
        &&& self.schedule_time@ == default_schedule()
        &&& self.auto_start
        &&& self.excluded_folders@.len() == 0
        &&& self.excluded_folder_names@.len() == 0
        &&& self.last_run_at is None
        &&& self.last_summary is None
    }

    /// `self` with the run record (last run time and summary) of `existing`, as a settings
    /// update keeps it.
    pub fn with_run_state_of(self, existing: &Config) -> (r: Config)
        ensures
            r.source == self.source,
            r.destination == self.destination,
            r.schedule_time == self.schedule_time,
            r.auto_start == self.auto_start,
            r.excluded_folders == self.excluded_folders,
            r.excluded_folder_names == self.excluded_folder_names,
            r.last_run_at == existing.last_run_at,
            r.last_summary == existing.last_summary,
    {
        let mut cfg = self;
        cfg.last_run_at = existing.last_run_at;
        cfg.last_summary = existing.last_summary;
        cfg
    }

    /// `self` with a run at `at` that ended with `summary` recorded.
    pub fn with_run_recorded(self, at: LocalDateTime, summary: JobSummary) -> (r: Config)
        ensures
            r.source == self.source,
            r.destination == self.destination,
            r.schedule_time == self.schedule_time,
            r.auto_start == self.auto_start,
            r.excluded_folders == self.excluded_folders,
            r.excluded_folder_names == self.excluded_folder_names,
            r.last_run_at == Some(at),
            r.last_summary == Some(summary),
    {
        let mut cfg = self;
        cfg.last_run_at = Some(at);
        cfg.last_summary = Some(summary);
        cfg
    }
}

/// `09:00`.
pub fn default_schedule_time() -> (r: String)
    ensures
        r@ == default_schedule(),
{
    let r = DEFAULT_SCHEDULE_TIME.to_owned();
    proof {
        reveal_strlit("09:00");
        assert(r@ =~= default_schedule());
    }
    r
}

pub fn default_true() -> (r: bool)
    ensures
        r,
{
    true
}

impl Default for Config {
    fn default() -> (r: Config)
        ensures
            r.is_default(),
    {
        Config {
            source: None,
            destination: None,
            schedule_time: default_schedule_time(),
            auto_start: default_true(),
            excluded_folders: Vec::new(),
            excluded_folder_names: Vec::new(),
            last_run_at: None,
            last_summary: None,
        }
    }
}

/// `s` without trailing separators and trailing `.` components.
pub open spec fn strip_tail(s: Seq<char>, st: PathStyle) -> Seq<char>
    decreases s.len(),
{
    if s.len() > 0 && st.is_sep(s.last()) {
        strip_tail(s.drop_last(), st)
    } else if s.len() > 0 && s.last() == '.' && (s.len() == 1 || st.is_sep(s[s.len() - 2])) {
        strip_tail(s.drop_last(), st)
    } else {
        s
    }
}

/// Index just past the last separator of `s`, or 0.
pub open spec fn name_start(s: Seq<char>, st: PathStyle) -> int
    decreases s.len(),
{
    if s.len() == 0 {
        0
    } else if st.is_sep(s.last()) {
        s.len() as int
    } else {
        name_start(s.drop_last(), st)
    }
}

/// The path `s` with its extension replaced by `ext`, as `Path::with_extension` gives it:
/// cut after the stem of the file name and, if `ext` is not empty, followed by `.` and
/// `ext`. A path without a file name is left as it is.
pub open spec fn with_extension_spec(s: Seq<char>, ext: Seq<char>, st: PathStyle) -> Seq<char> {
    let t = strip_tail(s, st);
    let start = name_start(t, st);
    let name = t.subrange(start, t.len() as int);
    if name.len() == 0 || name == seq!['.', '.'] {
        s
    } else {
        let kept = s.take(start + stem_of(name).len());
        if ext.len() == 0 {
            kept
        } else {
            kept + seq!['.'] + ext
        }
    }
}

/// The folder holding path `s`, as `Path::parent` names it: none for an empty path or a
/// bare root.
pub open spec fn parent_spec(s: Seq<char>, st: PathStyle) -> Option<Seq<char>> {
    let segs = segments(s, st);
    if segs.len() == 0 {
        None
    } else {
        Some(render(prefix_of(s, st), has_root(s, st), segs.drop_last(), st))
    }
}

proof fn lemma_stem_len(name: Seq<char>)
    ensures
        stem_of(name).len() <= name.len(),
{
    lemma_last_index_bounds(name, '.');
}

proof fn lemma_name_start_bounds(s: Seq<char>, st: PathStyle)
    ensures
        0 <= name_start(s, st) <= s.len(),
        forall|i: int| name_start(s, st) <= i < s.len() ==> !st.is_sep(#[trigger] s[i]),
        name_start(s, st) > 0 ==> st.is_sep(s[name_start(s, st) - 1]),
    decreases s.len(),
{
    if s.len() > 0 && !st.is_sep(s.last()) {
        lemma_name_start_bounds(s.drop_last(), st);
        assert forall|i: int| name_start(s, st) <= i < s.len() implies !st.is_sep(#[trigger] s[i]) by {
            if i < s.len() - 1 {
                assert(s[i] == s.drop_last()[i]);
            }
        }
    }
}

proof fn lemma_strip_tail_prefix(s: Seq<char>, st: PathStyle)
    ensures
        strip_tail(s, st).len() <= s.len(),
        strip_tail(s, st) == s.take(strip_tail(s, st).len() as int),
    decreases s.len(),
{
    if s.len() > 0 && (st.is_sep(s.last()) || (s.last() == '.' && (s.len() == 1 || st.is_sep(
        s[s.len() - 2],
    )))) {
        lemma_strip_tail_prefix(s.drop_last(), st);
        let t = strip_tail(s.drop_last(), st);
        assert(s.drop_last().take(t.len() as int) =~= s.take(t.len() as int));
    } else {
        assert(s.take(s.len() as int) =~= s);
    }
}

/// Length of `strip_tail(s)`.
fn strip_tail_len(s: &[char], st: PathStyle) -> (r: usize)
    ensures
        r == strip_tail(s@, st).len(),
        r <= s@.len(),
        strip_tail(s@, st) == s@.take(r as int),
{
    let mut j: usize = s.len();
    assert(s@.take(j as int) =~= s@);
    while j > 0 && (st.sep(s[j - 1]) || (s[j - 1] == '.' && (j == 1 || st.sep(s[j - 2]))))
        invariant
            j <= s@.len(),
            strip_tail(s@, st) == strip_tail(s@.take(j as int), st),
        decreases j,
    {
        assert(s@.take(j as int).drop_last() =~= s@.take(j - 1));
        j = j - 1;
    }
    proof {
        lemma_strip_tail_prefix(s@, st);
    }
    j
}

fn name_start_exec(s: &[char], len: usize, st: PathStyle) -> (r: usize)
    requires
        len <= s@.len(),
    ensures
        r == name_start(s@.take(len as int), st),
{
    let mut j: usize = len;
    while j > 0 && !st.sep(s[j - 1])
        invariant
            j <= len <= s@.len(),
            name_start(s@.take(len as int), st) == name_start(s@.take(j as int), st),
        decreases j,
    {
        assert(s@.take(j as int).drop_last() =~= s@.take(j - 1));
        j = j - 1;
    }
    j
}

fn push_slice(out: &mut Vec<char>, s: &[char], from: usize, to: usize)
    requires
        from <= to <= s@.len(),
    ensures
        final(out)@ == old(out)@ + s@.subrange(from as int, to as int),
{
    let mut k = from;
    while k < to
        invariant
            from <= k <= to <= s@.len(),
            out@ =~= old(out)@ + s@.subrange(from as int, k as int),
        decreases to - k,
    {
        out.push(s[k]);
        k = k + 1;
    }
}

/// The path `s` with its extension replaced by `ext`.
pub fn with_extension(s: &str, ext: &str, st: PathStyle) -> (r: String)
    ensures
        r@ == with_extension_spec(s@, ext@, st),
{
    let c = chars_of(s);
    let e = chars_of(ext);
    let tlen = strip_tail_len(c.as_slice(), st);
    let start = name_start_exec(c.as_slice(), tlen, st);
    let ghost t = c@.take(tlen as int);
    proof {
        lemma_name_start_bounds(t, st);
    }
    let name: Vec<char> = {
        let mut v: Vec<char> = Vec::new();
        push_slice(&mut v, c.as_slice(), start, tlen);
        v
    };
    assert(name@ =~= t.subrange(start as int, t.len() as int));
    let is_dd = name.len() == 2 && name[0] == '.' && name[1] == '.';
    proof {
        if name@.len() == 2 && name@[0] == '.' && name@[1] == '.' {
            assert(name@ =~= seq!['.', '.']);
        }
    }
    if name.len() == 0 || is_dd {
        return string_of(c.as_slice());
    }
    let st_chars = stem(name.as_slice());
    proof {
        lemma_stem_len(name@);
    }
    let cut = start + st_chars.len();
    let mut out: Vec<char> = Vec::new();
    push_slice(&mut out, c.as_slice(), 0, cut);
    assert(c@.subrange(0, cut as int) =~= c@.take(cut as int));
    if e.len() > 0 {
        out.push('.');
        push_slice(&mut out, e.as_slice(), 0, e.len());
        assert(e@.subrange(0, e@.len() as int) =~= e@);
    }
    string_of(out.as_slice())
}

/// The folder holding the path `s`, if it has one.
pub fn parent(s: &str, st: PathStyle) -> (r: Option<String>)
    ensures
        match r {
            Some(p) => parent_spec(s@, st) == Some(p@),
            None => parent_spec(s@, st) is None,
        },
{
    let c = chars_of(s);
    let p = parse_path(c.as_slice(), st);
    let n = p.segments.len();
    if n == 0 {
        None
    } else {
        let v = render_prefix(&p, n - 1, st);
        assert(p.segs().take(n - 1) =~= p.segs().drop_last());
        Some(string_of(v.as_slice()))
    }
}

/// Where the settings file lives, and how it is read back.
pub struct ConfigStore {
    path: String,
    style: PathStyle,
}

/// The steps of saving: create `parent` (when there is one), write the new text to
/// `tmp`, copy the current file to `backup` if it exists, then rename `tmp` to `target`.
#[derive(Debug, Clone, PartialEq, Eq)]
pub struct SavePlan {
    pub parent: Option<String>,
    pub tmp: String,
    pub backup: String,
    pub target: String,
}

pub open spec fn json_bak() -> Seq<char> {
    seq!['j', 's', 'o', 'n', '.', 'b', 'a', 'k']
}

pub open spec fn json_tmp() -> Seq<char> {
    seq!['j', 's', 'o', 'n', '.', 't', 'm', 'p']
}

/// The outcome of loading from what the files held: the primary settings file, if it
/// exists, wins when it reads and parses; otherwise a backup that does; otherwise a
/// fresh configuration when the primary failed to parse, and its error when it could
/// not be read. A missing primary file gives a fresh configuration.
pub open spec fn load_outcome(
    primary_exists: bool,
    primary: Result<Config, ConfigError>,
    backup: Option<Result<Config, ConfigError>>,
) -> Option<Result<Config, ConfigError>> {
    if !primary_exists {
        None
    } else {
        match primary {
            Ok(c) => Some(Ok(c)),
            Err(e) => match backup {
                Some(Ok(b)) => Some(Ok(b)),
                _ => match e {
                    ConfigError::ParseFailed { .. } => None,
                    _ => Some(Err(e)),
                },
            },
        }
    }
}

impl ConfigStore {
    pub closed spec fn file(&self) -> Seq<char> {
        self.path@
    }

    pub closed spec fn path_style(&self) -> PathStyle {
        self.style
    }

    pub fn new(path: String) -> (r: ConfigStore)
        ensures
            r.file() == path@,
            r.path_style().separator == '/' || r.path_style().separator == '\\',
    {
        ConfigStore { path, style: PathStyle::native() }
    }

    pub fn path(&self) -> (r: &str)
        ensures
            r@ == self.file(),
    {
        self.path.as_str()
    }

    /// The copy of the previous settings kept beside the file: its extension replaced
    /// by `json.bak`.
    pub fn backup_path(&self) -> (r: String)
        ensures
            r@ == with_extension_spec(self.file(), json_bak(), self.path_style()),
    {
        let ext = "json.bak";
        proof {
            reveal_strlit("json.bak");
            assert(ext@ =~= json_bak());
        }
        with_extension(self.path.as_str(), ext, self.style)
    }

    /// The temporary file new settings are written to before they replace the file.
    pub fn tmp_path(&self) -> (r: String)
        ensures
            r@ == with_extension_spec(self.file(), json_tmp(), self.path_style()),
    {
        let ext = "json.tmp";
        proof {
            reveal_strlit("json.tmp");
            assert(ext@ =~= json_tmp());
        }
        with_extension(self.path.as_str(), ext, self.style)
    }

    /// The file operations of a save.
    pub fn save_plan(&self) -> (r: SavePlan)
        ensures
            r.target@ == self.file(),
            r.tmp@ == with_extension_spec(self.file(), json_tmp(), self.path_style()),
            r.backup@ == with_extension_spec(self.file(), json_bak(), self.path_style()),
            match r.parent {
                Some(p) => parent_spec(self.file(), self.path_style()) == Some(p@),
                None => parent_spec(self.file(), self.path_style()) is None,
            },
    {
        SavePlan {
            parent: parent(self.path.as_str(), self.style),
            tmp: self.tmp_path(),
            backup: self.backup_path(),
            target: self.path.clone(),
        }
    }

    /// The settings a load yields, from whether the settings file exists, what reading and
    /// parsing it gave, and what reading and parsing the backup gave (`None` when there
    /// is no backup file).
    pub fn resolve_load(
        &self,
        primary_exists: bool,
        primary: Result<Config, ConfigError>,
        backup: Option<Result<Config, ConfigError>>,
    ) -> (r: Result<Config, ConfigError>)
        ensures
            match load_outcome(primary_exists, primary, backup) {
                Some(res) => r == res,
                None => r matches Ok(c) && c.is_default(),
            },
    {
        if !primary_exists {
            return Ok(Config::default());
        }
        match primary {
            Ok(c) => Ok(c),
            Err(e) => {
                match backup {
                    Some(Ok(b)) => Ok(b),
                    _ => match e {
                        ConfigError::ParseFailed { .. } => Ok(Config::default()),
                        _ => Err(e),
                    },
                }
            },
        }
    }
}

/// What to do with the start-at-logon registration so that it matches the settings.
#[derive(Debug, Clone, Copy, PartialEq, Eq)]
pub enum AutostartChange {
    Enable,
    Disable,
    Keep,
}

/// Registers start at logon when it is wanted and missing, removes it when it is present
/// and not wanted, and leaves it alone otherwise.
pub fn autostart_change(wanted: bool, currently_enabled: bool) -> (r: AutostartChange)
    ensures
        wanted && !currently_enabled ==> r == AutostartChange::Enable,
        !wanted && currently_enabled ==> r == AutostartChange::Disable,
        wanted == currently_enabled ==> r == AutostartChange::Keep,
{
    if wanted && !currently_enabled {
        AutostartChange::Enable
    } else if !wanted && currently_enabled {
        AutostartChange::Disable
    } else {
        AutostartChange::Keep
    }
}

} // verus!
