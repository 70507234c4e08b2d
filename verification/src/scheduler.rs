//! When the daily backup runs: schedule parsing, the next run, catching up on a missed
//! run, and the decisions of the scheduler thread.

use vstd::prelude::*;
use std::sync::mpsc::Sender;
use crate::clock::{
    LocalDateTime, MAX_UTC_SECS, SCHEDULE_RANGE_SECS, SECS_PER_DAY, ScheduleTime, add_one_day, hh_of, is_hh_mm_form,
    mm_of, parse_hh_mm, resolve_local,
};
use crate::backup::JobSummary;
use crate::config::Config;
use crate::text::{chars_of, string_of, trim, trim_chars, trim_end, trim_start};

verus! {

/// Why a schedule text was refused; it holds the text as given.
#[derive(Debug, Clone, PartialEq, Eq)]
pub enum ScheduleError {
    InvalidFormat(String),
}

/// The time of day that a schedule text names: after trimming whitespace it must read
/// `HH:MM` with two ASCII digits each, an hour of at most 23 and a minute of at most 59.
pub open spec fn parse_schedule_spec(s: Seq<char>) -> Option<ScheduleTime> {
    let t = trim(s);
    if is_hh_mm_form(t) && hh_of(t) <= 23 && mm_of(t) <= 59 {
        Some(ScheduleTime { hour: hh_of(t) as u32, minute: mm_of(t) as u32 })
    } else {
        None
    }
}

fn is_hh_mm_chars(t: &[char]) -> (r: bool)
    ensures
        r == is_hh_mm_form(t@),
{
    t.len() == 5 && '0' <= t[0] && t[0] <= '9' && '0' <= t[1] && t[1] <= '9' && t[2] == ':'
        && '0' <= t[3] && t[3] <= '9' && '0' <= t[4] && t[4] <= '9'
}

/// Reads a daily schedule time such as `09:00`. Surrounding whitespace is ignored; any
/// other text is refused with the text as given.
pub fn parse_schedule(s: &str) -> (r: Result<ScheduleTime, ScheduleError>)
    ensures
        match r {
            Ok(t) => parse_schedule_spec(s@) == Some(t) && t.valid(),
            Err(ScheduleError::InvalidFormat(given)) => parse_schedule_spec(s@) is None
                && given@ == s@,
        },
{
    let chars = chars_of(s);
    let trimmed = trim_chars(chars.as_slice());
    if !is_hh_mm_chars(trimmed.as_slice()) {
        return Err(ScheduleError::InvalidFormat(s.to_owned()));
    }
    let text = string_of(trimmed.as_slice());
    match parse_hh_mm(text.as_str()) {
        Some(t) => Ok(t),
        None => Err(ScheduleError::InvalidFormat(s.to_owned())),
    }
}

/// The local wall-clock reading of today's scheduled time, in seconds since 1970-01-01.
pub open spec fn todays_run_local(now: LocalDateTime, schedule: ScheduleTime) -> int {
    now.local_day() * SECS_PER_DAY + schedule.seconds()
}

/// `today` is what the time zone made of today's scheduled reading: either nothing (the
/// reading does not exist or is ambiguous) or a moment showing exactly that reading.
pub open spec fn resolves(today: Option<LocalDateTime>, local: int) -> bool {
    today matches Some(t) ==> t.local_secs() == local && t.nanos == 0 && -SECS_PER_DAY
        < t.offset_secs < SECS_PER_DAY
}

/// The moment the day's run is measured from: today's scheduled moment, or `now` itself
/// when the time zone gave none.
pub open spec fn base_run(now: LocalDateTime, today: Option<LocalDateTime>) -> LocalDateTime {
    match today {
        Some(t) => t,
        None => now,
    }
}

/// The next run is the base moment if that is still ahead, and otherwise the moment one
/// day after it: `(utc seconds, nanoseconds)`.
pub open spec fn next_run_instant(now: LocalDateTime, today: Option<LocalDateTime>) -> (int, int) {
    let base = base_run(now, today);
    if now.before(base) {
        (base.utc_secs as int, base.nanos as int)
    } else {
        (base.utc_secs + SECS_PER_DAY, base.nanos as int)
    }
}

/// When today's scheduled moment is still ahead, the next run is exactly that moment.
pub open spec fn ran_today_at_schedule(
    now: LocalDateTime,
    today: Option<LocalDateTime>,
    r: LocalDateTime,
) -> bool {
    match today {
        Some(t) => now.before(t) ==> r == t,
        None => true,
    }
}

/// How the next run is found from today's scheduled moment as the time zone resolved it:
/// the base moment, and whether a day has to be added to it.
pub fn next_run_plan(now: LocalDateTime, today: Option<LocalDateTime>) -> (r: (LocalDateTime, bool))
    ensures
        r.0 == base_run(now, today),
        r.1 == !now.before(base_run(now, today)),
{
    let base = match today {
        Some(t) => t,
        None => now,
    };
    let add_day = !now.is_before(&base);
    (base, add_day)
}

/// The next scheduled run after `now`: today at the scheduled time if that is still ahead,
/// otherwise one day after today's scheduled moment. When the time zone has no single
/// moment for today's scheduled reading (a daylight-saving gap or overlap), it is one day
/// after `now`.
pub fn next_run_after(now: LocalDateTime, schedule: ScheduleTime) -> (r: LocalDateTime)
    requires
        now.valid(),
        -SCHEDULE_RANGE_SECS <= now.utc_secs <= SCHEDULE_RANGE_SECS,
        schedule.valid(),
    ensures
        r.nanos < 1_000_000_000,
        -SECS_PER_DAY < r.offset_secs < SECS_PER_DAY,
        -MAX_UTC_SECS <= r.utc_secs <= MAX_UTC_SECS,
        exists|today: Option<LocalDateTime>|
            resolves(today, todays_run_local(now, schedule)) && #[trigger] next_run_instant(
                now,
                today,
            ) == (r.utc_secs as int, r.nanos as int) && ran_today_at_schedule(now, today, r),
{
    let (day, sod) = now.day_and_seconds();
    let local = day * SECS_PER_DAY + schedule.seconds_from_midnight();
    let today = resolve_local(local);
    let (base, add_day) = next_run_plan(now, today);
    proof {
        assert(resolves(today, todays_run_local(now, schedule)));
    }
    if add_day {
        let r = add_one_day(base);
        assert(next_run_instant(now, today) == (r.utc_secs as int, r.nanos as int));
        r
    } else {
        assert(next_run_instant(now, today) == (base.utc_secs as int, base.nanos as int));
        base
    }
}

/// Whether a run missed today has to be made up at `now`: the scheduled time of day has
/// passed, and the last run (if any) was on an earlier or later local day.
pub open spec fn should_catch_up_spec(
    now: LocalDateTime,
    schedule: ScheduleTime,
    last_run_at: Option<LocalDateTime>,
) -> bool {
    &&& now.seconds_of_day() >= schedule.seconds()
    &&& match last_run_at {
        None => true,
        Some(last) => last.local_day() != now.local_day(),
    }
}

pub fn should_catch_up(
    now: LocalDateTime,
    schedule: ScheduleTime,
    last_run_at: Option<LocalDateTime>,
) -> (r: bool)
    requires
        now.valid(),
        schedule.valid(),
        last_run_at matches Some(l) ==> l.valid(),
    ensures
        r == should_catch_up_spec(now, schedule, last_run_at),
{
    let (today, sod) = now.day_and_seconds();
    if sod < schedule.seconds_from_midnight() {
        return false;
    }
    match last_run_at {
        None => true,
        Some(last) => {
            let (last_day, _) = last.day_and_seconds();
            last_day != today
        },
    }
}

/// A request to the scheduler thread.
#[derive(Debug, Clone, Copy, PartialEq, Eq)]
pub enum SchedulerCommand {
    RunNow,
    ReloadConfig,
    Shutdown,
}

#[verifier::external_type_specification]
#[verifier::external_body]
#[verifier::reject_recursive_types(T)]
pub struct ExSender<T>(Sender<T>);

/// Calls `std::sync::mpsc::Sender::send` with `cmd`, and gives back, as a ghost value, the
/// command it handed to `send`. Whether the send succeeds depends on whether the scheduler
/// thread still listens, which is not stated; when it fails, the command comes back unsent.
#[verifier::external_body]
fn send_command(tx: &Sender<SchedulerCommand>, cmd: SchedulerCommand) -> (r: (
    Result<(), SchedulerCommand>,
    Ghost<SchedulerCommand>,
))
    ensures
        r.1@ == cmd,
        r.0 matches Err(c) ==> c == cmd,
{
    (tx.send(cmd).map_err(|e| e.0), Ghost(cmd))
}

/// A command could not be delivered because the scheduler thread has stopped; it holds
/// the command.
#[derive(Debug, Clone, Copy, PartialEq, Eq)]
pub struct CommandSendError(pub SchedulerCommand);

/// The sending side of the scheduler thread's command channel.
pub struct SchedulerSender {
    tx: Sender<SchedulerCommand>,
}

impl SchedulerSender {
    /// The channel this sender writes to.
    pub closed spec fn channel(&self) -> Sender<SchedulerCommand> {
        self.tx
    }

    pub fn new(tx: Sender<SchedulerCommand>) -> (r: SchedulerSender)
        ensures
            r.channel() == tx,
    {
        SchedulerSender { tx }
    }

    /// Asks the scheduler thread to run a backup now.
    /// The ghost part of the result is the command handed to the channel.
    pub fn run_now(&self) -> (r: (Result<(), CommandSendError>, Ghost<SchedulerCommand>))
        ensures
            r.1@ == SchedulerCommand::RunNow,
            r.0 matches Err(e) ==> e.0 == SchedulerCommand::RunNow,
    {
        let (res, sent) = send_command(&self.tx, SchedulerCommand::RunNow);
        match res {
            Ok(()) => (Ok(()), sent),
            Err(c) => (Err(CommandSendError(c)), sent),
        }
    }

    /// Asks the scheduler thread to reread the configuration.
    /// The ghost part of the result is the command handed to the channel.
    pub fn reload(&self) -> (r: (Result<(), CommandSendError>, Ghost<SchedulerCommand>))
        ensures
            r.1@ == SchedulerCommand::ReloadConfig,
            r.0 matches Err(e) ==> e.0 == SchedulerCommand::ReloadConfig,
    {
        let (res, sent) = send_command(&self.tx, SchedulerCommand::ReloadConfig);
        match res {
            Ok(()) => (Ok(()), sent),
            Err(c) => (Err(CommandSendError(c)), sent),
        }
    }

    /// Asks the scheduler thread to stop.
    /// The ghost part of the result is the command handed to the channel.
    pub fn shutdown(&self) -> (r: (Result<(), CommandSendError>, Ghost<SchedulerCommand>))
        ensures
            r.1@ == SchedulerCommand::Shutdown,
            r.0 matches Err(e) ==> e.0 == SchedulerCommand::Shutdown,
    {
        let (res, sent) = send_command(&self.tx, SchedulerCommand::Shutdown);
        match res {
            Ok(()) => (Ok(()), sent),
            Err(c) => (Err(CommandSendError(c)), sent),
        }
    }
}

/// Receives the progress of scheduled and manual backup runs (the desktop shell forwards
/// them to its window). Every method does nothing unless an implementation says otherwise.
pub trait JobReporter: Send + Sync + 'static {
    fn job_started(&self) {
    }

    fn job_finished(&self, _summary: JobSummary) {
    }

    fn job_errored(&self, _message: String) {
    }

    fn status_changed(&self) {
    }
}

/// A reporter that ignores every event.
pub struct NoopReporter;

impl JobReporter for NoopReporter {

}

/// Seconds the scheduler waits before it tries again after it could not load the settings
/// or read their schedule.
pub const RETRY_SECS: u64 = 60;

/// What woke the scheduler thread while it waited.
#[derive(Debug, Clone, Copy, PartialEq, Eq)]
pub enum Wake {
    Command(SchedulerCommand),
    TimedOut,
    Disconnected,
}

/// What the scheduler thread does next.
#[derive(Debug, Clone, Copy, PartialEq, Eq)]
pub enum LoopAction {
    /// The scheduled time has come: run a backup with the settings just loaded.
    RunScheduled,
    /// The user asked for a run: run a backup with the settings just loaded.
    RunManual,
    /// Load the settings again and wait again.
    Reload,
    /// Leave the loop.
    Stop,
}

/// After waiting for the next run: the scheduled time runs the scheduled backup, a manual
/// request runs one at once, a reload request rereads the settings, and a shutdown request
/// or a closed channel stops.
pub fn action_after_wait(wake: Wake) -> (r: LoopAction)
    ensures
        r == match wake {
            Wake::Command(SchedulerCommand::RunNow) => LoopAction::RunManual,
            Wake::Command(SchedulerCommand::ReloadConfig) => LoopAction::Reload,
            Wake::Command(SchedulerCommand::Shutdown) => LoopAction::Stop,
            Wake::TimedOut => LoopAction::RunScheduled,
            Wake::Disconnected => LoopAction::Stop,
        },
{
    match wake {
        Wake::Command(SchedulerCommand::RunNow) => LoopAction::RunManual,
        Wake::Command(SchedulerCommand::ReloadConfig) => LoopAction::Reload,
        Wake::Command(SchedulerCommand::Shutdown) => LoopAction::Stop,
        Wake::TimedOut => LoopAction::RunScheduled,
        Wake::Disconnected => LoopAction::Stop,
    }
}

/// After the settings failed to load: only a shutdown request or a closed channel stops the
/// thread; anything else (including a manual run request) means trying again.
pub fn action_after_load_failure(wake: Wake) -> (r: LoopAction)
    ensures
        r == match wake {
            Wake::Command(SchedulerCommand::Shutdown) | Wake::Disconnected => LoopAction::Stop,
            _ => LoopAction::Reload,
        },
{
    match wake {
        Wake::Command(SchedulerCommand::Shutdown) | Wake::Disconnected => LoopAction::Stop,
        _ => LoopAction::Reload,
    }
}

/// The settings are usable by the scheduler clock: the run record holds a valid moment.
pub open spec fn run_record_valid(cfg: Config) -> bool {
    cfg.last_run_at matches Some(l) ==> l.valid()
}

/// Whether the scheduler makes up a missed run at start-up: the schedule reads as a time
/// and `should_catch_up` holds for it and the recorded last run.
pub open spec fn needs_catch_up_spec(cfg: Config, now: LocalDateTime) -> bool {
    match parse_schedule_spec(cfg.schedule_time@) {
        Some(t) => should_catch_up_spec(now, t, cfg.last_run_at),
        None => false,
    }
}

pub fn needs_catch_up(cfg: &Config, now: LocalDateTime) -> (r: bool)
    requires
        now.valid(),
        run_record_valid(*cfg),
    ensures
        r == needs_catch_up_spec(*cfg, now),
{
    match parse_schedule(cfg.schedule_time.as_str()) {
        Ok(t) => should_catch_up(now, t, cfg.last_run_at),
        Err(_) => false,
    }
}

/// A span of time to wait: whole seconds and the nanoseconds beyond them.
#[derive(Debug, Clone, Copy, PartialEq, Eq)]
pub struct WaitTime {
    pub secs: u64,
    pub nanos: u32,
}

/// How long to wait from `now` until the moment `(secs, nanos)`; one second when that
/// moment is already past (chrono's `to_std` refuses a negative span).
pub open spec fn wait_until(now: LocalDateTime, target: (int, int)) -> (int, int) {
    let delta = (target.0 - now.utc_secs) * 1_000_000_000 + target.1 - now.nanos;
    if delta < 0 {
        (1, 0)
    } else {
        (delta / 1_000_000_000, delta % 1_000_000_000)
    }
}

/// The moment of the next scheduled run for the settings `cfg` at `now` (as
/// `next_run_after` gives it), or why the schedule cannot be read (the scheduler then
/// retries after `RETRY_SECS`).
pub fn schedule_deadline(cfg: &Config, now: LocalDateTime) -> (r: Result<
    LocalDateTime,
    ScheduleError,
>)
    requires
        now.valid(),
        -SCHEDULE_RANGE_SECS <= now.utc_secs <= SCHEDULE_RANGE_SECS,
    ensures
        match r {
            Ok(n) => n.valid() && (parse_schedule_spec(cfg.schedule_time@) matches Some(t)
                && exists|today: Option<LocalDateTime>|
                resolves(today, todays_run_local(now, t)) && #[trigger] next_run_instant(
                    now,
                    today,
                ) == (n.utc_secs as int, n.nanos as int)),
            Err(ScheduleError::InvalidFormat(given)) => parse_schedule_spec(cfg.schedule_time@)
                is None && given@ == cfg.schedule_time@,
        },
{
    match parse_schedule(cfg.schedule_time.as_str()) {
        Ok(t) => Ok(next_run_after(now, t)),
        Err(e) => Err(e),
    }
}

/// How long to wait from `now` until `target` (one second when it is already past).
pub fn wait_for(now: LocalDateTime, target: LocalDateTime) -> (r: WaitTime)
    requires
        now.valid(),
        target.valid(),
    ensures
        wait_until(now, (target.utc_secs as int, target.nanos as int)) == (
            r.secs as int,
            r.nanos as int,
        ),
{
    let delta: i128 = (target.utc_secs as i128 - now.utc_secs as i128) * 1_000_000_000
        + target.nanos as i128 - now.nanos as i128;
    if delta < 0 {
        WaitTime { secs: 1, nanos: 0 }
    } else {
        let secs = (delta / 1_000_000_000) as u64;
        let nanos = (delta % 1_000_000_000) as u32;
        WaitTime { secs, nanos }
    }
}

/// How long the scheduler sleeps before the next scheduled run, or why the schedule
/// cannot be read (the scheduler then retries after `RETRY_SECS`).
pub fn wait_plan(cfg: &Config, now: LocalDateTime) -> (r: Result<WaitTime, ScheduleError>)
    requires
        now.valid(),
        -SCHEDULE_RANGE_SECS <= now.utc_secs <= SCHEDULE_RANGE_SECS,
    ensures
        match r {
            Ok(w) => parse_schedule_spec(cfg.schedule_time@) matches Some(t) && exists|
                today: Option<LocalDateTime>,
            |
                resolves(today, todays_run_local(now, t)) && wait_until(
                    now,
                    #[trigger] next_run_instant(now, today),
                ) == (w.secs as int, w.nanos as int),
            Err(ScheduleError::InvalidFormat(given)) => parse_schedule_spec(cfg.schedule_time@)
                is None && given@ == cfg.schedule_time@,
        },
{
    match schedule_deadline(cfg, now) {
        Ok(next) => Ok(wait_for(now, next)),
        Err(e) => Err(e),
    }
}

/// What becomes of the pending scheduled run once the loop has acted on `action`, the
/// action having ended at `finished`, and whether a scheduled run was skipped. A manual run
/// does not move the schedule: the pending run stays pending when the manual run ended
/// before it was due. When it came due while the manual run was going on, it is not
/// started a second time: it is dropped and reported as skipped, and the next one is
/// computed afresh. After a scheduled run or a reload the next one is computed afresh.
pub fn pending_after(
    action: LoopAction,
    pending: Option<LocalDateTime>,
    finished: LocalDateTime,
) -> (r: (Option<LocalDateTime>, bool))
    ensures
        match (action, pending) {
            (LoopAction::RunManual, Some(d)) => if finished.before(d) {
                r == (Some(d), false)
            } else {
                r == (None::<LocalDateTime>, true)
            },
            _ => r == (None::<LocalDateTime>, false),
        },
{
    match (action, pending) {
        (LoopAction::RunManual, Some(d)) => {
            if finished.is_before(&d) {
                (Some(d), false)
            } else {
                (None, true)
            }
        },
        _ => (None, false),
    }
}

/// The source and destination folders of a run, when both are configured.
pub fn job_paths(cfg: &Config) -> (r: Option<(String, String)>)
    ensures
        match r {
            Some((s, d)) => cfg.source == Some(s) && cfg.destination == Some(d),
            None => cfg.source is None || cfg.destination is None,
        },
{
    match (&cfg.source, &cfg.destination) {
        (Some(s), Some(d)) => Some((s.clone(), d.clone())),
        _ => None,
    }
}

/// A missed run is made up at most once a day: once a run at `now` is recorded, no moment of
/// the same local day asks for another catch-up, whatever the schedule.
pub proof fn lemma_catch_up_once_per_day(
    cfg: Config,
    now: LocalDateTime,
    summary: crate::backup::JobSummary,
    later: LocalDateTime,
)
    requires
        later.local_day() == now.local_day(),
    ensures
        !needs_catch_up_spec(
            Config { last_run_at: Some(now), last_summary: Some(summary), ..cfg },
            later,
        ),
{
}

/// No catch-up happens before the scheduled time of day.
pub proof fn lemma_no_catch_up_before_schedule(
    now: LocalDateTime,
    schedule: ScheduleTime,
    last_run_at: Option<LocalDateTime>,
)
    requires
        now.seconds_of_day() < schedule.seconds(),
    ensures
        !should_catch_up_spec(now, schedule, last_run_at),
{
}

/// A day with no recorded run catches up as soon as the scheduled time has passed.
pub proof fn lemma_catch_up_when_missed(
    now: LocalDateTime,
    schedule: ScheduleTime,
    last: LocalDateTime,
)
    requires
        now.seconds_of_day() >= schedule.seconds(),
        last.local_day() < now.local_day(),
    ensures
        should_catch_up_spec(now, schedule, Some(last)),
        should_catch_up_spec(now, schedule, None),
{
}

/// When the local offset does not change between `now` and today's scheduled moment, the
/// next run lies after `now` and no more than one day after it, and when it falls today it
/// is exactly the scheduled time.
pub proof fn lemma_next_run_within_a_day(
    now: LocalDateTime,
    schedule: ScheduleTime,
    t: LocalDateTime,
)
    requires
        now.valid(),
        schedule.valid(),
        resolves(Some(t), todays_run_local(now, schedule)),
        t.offset_secs == now.offset_secs,
    ensures
        ({
            let (secs, nanos) = next_run_instant(now, Some(t));
            &&& (now.utc_secs < secs || (now.utc_secs == secs && now.nanos < nanos))
            &&& (secs < now.utc_secs + SECS_PER_DAY || (secs == now.utc_secs + SECS_PER_DAY
                && nanos <= now.nanos))
        }),
        now.before(t) ==> t.seconds_of_day() == schedule.seconds(),
{
    let d = now.local_day();
    let sod = now.seconds_of_day();
    assert(now.local_secs() == d * SECS_PER_DAY + sod) by {
        vstd::arithmetic::div_mod::lemma_fundamental_div_mod(now.local_secs(), SECS_PER_DAY as int);
    }
    assert(0 <= sod < SECS_PER_DAY) by {
        vstd::arithmetic::div_mod::lemma_mod_bound(now.local_secs(), SECS_PER_DAY as int);
    }
    assert(t.local_secs() == d * SECS_PER_DAY + schedule.seconds());
    vstd::arithmetic::div_mod::lemma_fundamental_div_mod_converse_mod(
        t.local_secs(),
        SECS_PER_DAY as int,
        d,
        schedule.seconds(),
    );
}

/// The local time of day, in seconds since midnight, of the whole second `x` seconds after
/// the epoch under the fixed offset `off`.
pub open spec fn local_time_of(x: int, off: int) -> int {
    (x + off) % (SECS_PER_DAY as int)
}

/// Under a fixed local offset (today's scheduled moment has the offset of `now`, and the
/// moment a day later keeps it), the next run is the earliest instant strictly after `now`
/// whose local time of day is the scheduled time: it is a whole second at that time, and no
/// whole second strictly between `now` and it shows that time.
pub proof fn lemma_next_run_is_earliest(
    now: LocalDateTime,
    schedule: ScheduleTime,
    t: LocalDateTime,
)
    requires
        now.valid(),
        schedule.valid(),
        resolves(Some(t), todays_run_local(now, schedule)),
        t.offset_secs == now.offset_secs,
    ensures
        ({
            let (secs, nanos) = next_run_instant(now, Some(t));
            &&& nanos == 0
            &&& local_time_of(secs, now.offset_secs as int) == schedule.seconds()
            &&& forall|x: int|
                now.utc_secs < x < secs ==> #[trigger] local_time_of(x, now.offset_secs as int)
                    != schedule.seconds()
        }),
{
    let dd = SECS_PER_DAY as int;
    let off = now.offset_secs as int;
    let d = now.local_day();
    let sod = now.seconds_of_day();
    let sch = schedule.seconds();
    assert(now.local_secs() == d * dd + sod) by {
        vstd::arithmetic::div_mod::lemma_fundamental_div_mod(now.local_secs(), dd);
    }
    assert(0 <= sod < dd) by {
        vstd::arithmetic::div_mod::lemma_mod_bound(now.local_secs(), dd);
    }
    assert(t.utc_secs + off == d * dd + sch);
    let (secs, nanos) = next_run_instant(now, Some(t));
    if now.before(t) {
        assert(secs == t.utc_secs);
        vstd::arithmetic::div_mod::lemma_fundamental_div_mod_converse_mod(secs + off, dd, d, sch);
        assert forall|x: int| now.utc_secs < x < secs implies #[trigger] local_time_of(x, off)
            != sch by {
            vstd::arithmetic::div_mod::lemma_fundamental_div_mod_converse_mod(
                x + off,
                dd,
                d,
                x + off - d * dd,
            );
        }
    } else {
        assert(secs == t.utc_secs + dd);
        assert(sch <= sod);
        vstd::arithmetic::div_mod::lemma_fundamental_div_mod_converse_mod(
            secs + off,
            dd,
            d + 1,
            sch,
        );
        assert forall|x: int| now.utc_secs < x < secs implies #[trigger] local_time_of(x, off)
            != sch by {
            if x + off < (d + 1) * dd {
                vstd::arithmetic::div_mod::lemma_fundamental_div_mod_converse_mod(
                    x + off,
                    dd,
                    d,
                    x + off - d * dd,
                );
            } else {
                vstd::arithmetic::div_mod::lemma_fundamental_div_mod_converse_mod(
                    x + off,
                    dd,
                    d + 1,
                    x + off - (d + 1) * dd,
                );
            }
        }
    }
}

/// A daily run happens at the hour and minute of the schedule: under a fixed local offset,
/// when today's scheduled reading resolves to a moment, the next run falls, in local time,
/// exactly `3600 * hour + 60 * minute` seconds after midnight, both when it is today's run
/// and when it is tomorrow's.
pub proof fn lemma_next_run_at_schedule_hour_and_minute(
    now: LocalDateTime,
    schedule: ScheduleTime,
    t: LocalDateTime,
)
    requires
        now.valid(),
        schedule.valid(),
        resolves(Some(t), todays_run_local(now, schedule)),
        t.offset_secs == now.offset_secs,
    ensures
        ({
            let (secs, nanos) = next_run_instant(now, Some(t));
            &&& nanos == 0
            &&& (secs + now.offset_secs) % 86400 == 3600 * schedule.hour + 60 * schedule.minute
        }),
{
    lemma_next_run_is_earliest(now, schedule, t);
}

/// Every text `HH:MM` with an hour below 24 and a minute below 60, written with two digits
/// each, is read back as that time; surrounding whitespace does not matter.
pub proof fn lemma_parse_schedule_accepts_valid_times(hour: u32, minute: u32)
    requires
        hour < 24,
        minute < 60,
    ensures
        ({
            let text = seq![
                ((hour / 10) + ('0' as u32)) as char,
                ((hour % 10) + ('0' as u32)) as char,
                ':',
                ((minute / 10) + ('0' as u32)) as char,
                ((minute % 10) + ('0' as u32)) as char,
            ];
            parse_schedule_spec(text) == Some(ScheduleTime { hour, minute })
        }),
{
    let text = seq![
        ((hour / 10) + ('0' as u32)) as char,
        ((hour % 10) + ('0' as u32)) as char,
        ':',
        ((minute / 10) + ('0' as u32)) as char,
        ((minute % 10) + ('0' as u32)) as char,
    ];
    assert(trim_start(text) == text);
    assert(trim_end(text) == text);
    assert(trim(text) == text);
}

/// A fresh configuration runs daily at 09:00.
pub proof fn lemma_default_schedule_is_nine()
    ensures
        parse_schedule_spec(crate::config::default_schedule()) == Some(
            ScheduleTime { hour: 9, minute: 0 },
        ),
{
    let text = crate::config::default_schedule();
    assert(trim_start(text) == text);
    assert(trim_end(text) == text);
}

} // verus!
