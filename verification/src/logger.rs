//! The text of the backup log.

use vstd::prelude::*;
use crate::text::{chars_of, string_of};

verus! {

/// How many log lines the log view asks for when it names no limit.
pub const DEFAULT_LOG_LIMIT: usize = 200;

/// The level tags written into log lines.
pub const LEVEL_INFO: &'static str = "INFO";

pub const LEVEL_WARN: &'static str = "WARN";

pub const LEVEL_ERROR: &'static str = "ERROR";

/// One log line: `[timestamp] [level] message` and a line break.
pub open spec fn log_line_spec(timestamp: Seq<char>, level: Seq<char>, msg: Seq<char>) -> Seq<char> {
    seq!['['] + timestamp + seq![']', ' ', '['] + level + seq![']', ' '] + msg + seq!['\n']
}

fn push_str(out: &mut Vec<char>, s: &str)
    ensures
        final(out)@ == old(out)@ + s@,
{
    let c = chars_of(s);
    let mut k: usize = 0;
    while k < c.len()
        invariant
            k <= c@.len(),
            c@ == s@,
            out@ =~= old(out)@ + c@.take(k as int),
        decreases c@.len() - k,
    {
        out.push(c[k]);
        k = k + 1;
    }
    assert(c@.take(c@.len() as int) =~= c@);
}

pub fn format_log_line(timestamp: &str, level: &str, msg: &str) -> (r: String)
    ensures
        r@ == log_line_spec(timestamp@, level@, msg@),
{
    let mut out: Vec<char> = Vec::new();
    out.push('[');
    push_str(&mut out, timestamp);
    out.push(']');
    out.push(' ');
    out.push('[');
    push_str(&mut out, level);
    out.push(']');
    out.push(' ');
    push_str(&mut out, msg);
    out.push('\n');
    assert(out@ =~= log_line_spec(timestamp@, level@, msg@));
    string_of(out.as_slice())
}

/// The limit the log view uses: the one asked for, or `DEFAULT_LOG_LIMIT`.
pub fn log_limit(limit: Option<usize>) -> (r: usize)
    ensures
        r == match limit {
            Some(n) => n,
            None => DEFAULT_LOG_LIMIT,
        },
{
    match limit {
        Some(n) => n,
        None => DEFAULT_LOG_LIMIT,
    }
}

/// A line without the carriage return that ended it before its line feed.
pub open spec fn strip_cr(l: Seq<char>) -> Seq<char> {
    if l.len() > 0 && l.last() == '\r' {
        l.drop_last()
    } else {
        l
    }
}

/// Left-to-right scan splitting text into lines, as `str::lines` does: a line feed ends a
/// line (and a carriage return just before it is dropped); a last line without a line feed
/// counts only when it is not empty, and keeps a final carriage return.
pub open spec fn line_scan(s: Seq<char>, done: Seq<Seq<char>>, cur: Seq<char>) -> Seq<Seq<char>>
    decreases s.len(),
{
    if s.len() == 0 {
        if cur.len() == 0 {
            done
        } else {
            done.push(cur)
        }
    } else if s[0] == '\n' {
        line_scan(s.drop_first(), done.push(strip_cr(cur)), seq![])
    } else {
        line_scan(s.drop_first(), done, cur.push(s[0]))
    }
}

pub open spec fn lines_spec(s: Seq<char>) -> Seq<Seq<char>> {
    line_scan(s, seq![], seq![])
}

/// The last `limit` lines of a sequence of lines, all of them when there are fewer (none
/// for a limit of 0).
pub open spec fn tail_spec(lines: Seq<Seq<char>>, limit: int) -> Seq<Seq<char>> {
    if lines.len() <= limit {
        lines
    } else {
        lines.skip(lines.len() - limit)
    }
}

pub open spec fn strings_view(v: Seq<String>) -> Seq<Seq<char>> {
    Seq::new(v.len(), |i: int| v[i]@)
}

fn strip_cr_exec(l: Vec<char>) -> (r: Vec<char>)
    ensures
        r@ == strip_cr(l@),
{
    let mut l = l;
    if l.len() > 0 && l[l.len() - 1] == '\r' {
        l.pop();
    }
    l
}

/// The lines of `text`.
pub fn lines_of(text: &str) -> (r: Vec<String>)
    ensures
        strings_view(r@) == lines_spec(text@),
{
    let s = chars_of(text);
    let mut done: Vec<String> = Vec::new();
    let mut cur: Vec<char> = Vec::new();
    let mut i: usize = 0;
    assert(s@.skip(0) =~= s@);
    assert(strings_view(done@) =~= Seq::<Seq<char>>::empty());
    while i < s.len()
        invariant
            i <= s@.len(),
            s@ == text@,
            lines_spec(text@) == line_scan(s@.skip(i as int), strings_view(done@), cur@),
        decreases s@.len() - i,
    {
        let c = s[i];
        assert(s@.skip(i as int).drop_first() =~= s@.skip(i + 1));
        assert(s@.skip(i as int)[0] == c);
        if c == '\n' {
            let line = strip_cr_exec(cur);
            let ghost before = strings_view(done@);
            let ghost lv = line@;
            done.push(string_of(line.as_slice()));
            assert(strings_view(done@) =~= before.push(lv));
            cur = Vec::new();
            assert(cur@ =~= Seq::<char>::empty());
        } else {
            cur.push(c);
        }
        i = i + 1;
    }
    assert(s@.skip(i as int).len() == 0);
    if cur.len() > 0 {
        let ghost before = strings_view(done@);
        let ghost cv = cur@;
        done.push(string_of(cur.as_slice()));
        assert(strings_view(done@) =~= before.push(cv));
    }
    done
}

/// The last `limit` lines of the log text.
pub fn last_lines(text: &str, limit: usize) -> (r: Vec<String>)
    ensures
        strings_view(r@) == tail_spec(lines_spec(text@), limit as int),
{
    let all = lines_of(text);
    let n = all.len();
    if n <= limit {
        return all;
    }
    let mut out: Vec<String> = Vec::new();
    let start = n - limit;
    let mut k = start;
    while k < n
        invariant
            start <= k <= n,
            n == all@.len(),
            strings_view(out@) =~= strings_view(all@).subrange(start as int, k as int),
        decreases n - k,
    {
        let ghost before = strings_view(out@);
        let line = all[k].clone();
        out.push(line);
        assert(strings_view(out@) =~= before.push(all@[k as int]@));
        k = k + 1;
    }
    assert(strings_view(all@).subrange(start as int, n as int) =~= strings_view(all@).skip(
        start as int,
    ));
    out
}

/// The text has no line feed.
pub open spec fn single_line(s: Seq<char>) -> bool {
    forall|i: int| 0 <= i < s.len() ==> #[trigger] s[i] != '\n'
}

proof fn lemma_scan_after_newline(a: Seq<char>, b: Seq<char>, done: Seq<Seq<char>>, cur: Seq<char>)
    requires
        a.len() > 0,
        a.last() == '\n',
    ensures
        line_scan(a + b, done, cur) == line_scan(b, line_scan(a, done, cur), seq![]),
    decreases a.len(),
{
    let ab = a + b;
    assert(ab[0] == a[0]);
    assert(ab.drop_first() =~= a.drop_first() + b);
    if a.len() == 1 {
        assert(a.drop_first() =~= Seq::<char>::empty());
        assert(a.drop_first() + b =~= b);
        assert(a[0] == '\n');
        let d2 = done.push(strip_cr(cur));
        assert(line_scan(ab, done, cur) == line_scan(b, d2, seq![]));
        assert(line_scan(a.drop_first(), d2, seq![]) == d2);
        assert(line_scan(a, done, cur) == d2);
    } else {
        let a2 = a.drop_first();
        assert(a2.last() == a.last());
        if a[0] == '\n' {
            let d2 = done.push(strip_cr(cur));
            lemma_scan_after_newline(a2, b, d2, seq![]);
            assert(line_scan(ab, done, cur) == line_scan(a2 + b, d2, seq![]));
            assert(line_scan(a, done, cur) == line_scan(a2, d2, seq![]));
        } else {
            let c2 = cur.push(a[0]);
            lemma_scan_after_newline(a2, b, done, c2);
            assert(line_scan(ab, done, cur) == line_scan(a2 + b, done, c2));
            assert(line_scan(a, done, cur) == line_scan(a2, done, c2));
        }
    }
}

proof fn lemma_scan_one_line(body: Seq<char>, done: Seq<Seq<char>>, cur: Seq<char>)
    requires
        single_line(body),
    ensures
        line_scan(body + seq!['\n'], done, cur) == done.push(strip_cr(cur + body)),
    decreases body.len(),
{
    let s = body + seq!['\n'];
    if body.len() == 0 {
        assert(s =~= seq!['\n']);
        assert(s.drop_first() =~= Seq::<char>::empty());
        assert(cur + body =~= cur);
        let d2 = done.push(strip_cr(cur));
        assert(line_scan(s, done, cur) == line_scan(s.drop_first(), d2, seq![]));
        assert(line_scan(s.drop_first(), d2, seq![]) == d2);
    } else {
        assert(body[0] != '\n');
        assert(line_scan(s, done, cur) == line_scan(s.drop_first(), done, cur.push(body[0])));
        assert(s[0] == body[0]);
        assert(s.drop_first() =~= body.drop_first() + seq!['\n']);
        assert(single_line(body.drop_first())) by {
            assert forall|i: int| 0 <= i < body.drop_first().len() implies #[trigger] body.drop_first()[i]
                != '\n' by {
                assert(body.drop_first()[i] == body[i + 1]);
            }
        }
        lemma_scan_one_line(body.drop_first(), done, cur.push(body[0]));
        assert(cur.push(body[0]) + body.drop_first() =~= cur + body);
    }
}

/// Writing a log line appends exactly one line to the log: read back, the log holds the
/// lines it held before and then `[timestamp] [level] message`, which is also what the
/// log view shows as the last line. This needs the log to be empty or end with a line
/// break, and the three parts to hold no line feed.
pub proof fn lemma_log_line_reads_back(
    text: Seq<char>,
    timestamp: Seq<char>,
    level: Seq<char>,
    msg: Seq<char>,
)
    requires
        text.len() == 0 || text.last() == '\n',
        single_line(timestamp),
        single_line(level),
        single_line(msg),
    ensures
        ({
            let line = log_line_spec(timestamp, level, msg);
            let body = line.drop_last();
            &&& lines_spec(text + line) == lines_spec(text).push(strip_cr(body))
            &&& tail_spec(lines_spec(text + line), 1) == seq![strip_cr(body)]
        }),
{
    let line = log_line_spec(timestamp, level, msg);
    let body = line.drop_last();
    assert(line =~= body + seq!['\n']);
    assert(single_line(body)) by {
        assert forall|i: int| 0 <= i < body.len() implies #[trigger] body[i] != '\n' by {
            let a = seq!['['] + timestamp + seq![']', ' ', '['];
            let b = a + level + seq![']', ' '];
            if i < a.len() {
                if 1 <= i < 1 + timestamp.len() {
                    assert(body[i] == timestamp[i - 1]);
                }
            } else if i < b.len() {
                if i < a.len() + level.len() {
                    assert(body[i] == level[i - a.len()]);
                }
            } else {
                assert(body[i] == msg[i - b.len()]);
            }
        }
    }
    lemma_scan_one_line(body, lines_spec(text), seq![]);
    assert(Seq::<char>::empty() + body =~= body);
    if text.len() == 0 {
        assert(text + line =~= line);
        assert(lines_spec(text) == Seq::<Seq<char>>::empty());
    } else {
        lemma_scan_after_newline(text, line, seq![], seq![]);
    }
    let all = lines_spec(text + line);
    assert(all.skip(all.len() - 1) =~= seq![strip_cr(body)]);
}

} // verus!
