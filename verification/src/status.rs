//! The state the user interface shows.

use vstd::prelude::*;
use crate::backup::JobSummary;
use crate::clock::{LocalDateTime, SCHEDULE_RANGE_SECS};
use crate::config::Config;
use crate::scheduler::{
    next_run_after, next_run_instant, parse_schedule, parse_schedule_spec, resolves,
    todays_run_local,
};

verus! {

/// What the dashboard shows: whether a run is in progress, the last and next runs, the last
/// summary and the settings.
#[derive(Debug, Clone, PartialEq, Eq)]
pub struct Status {
    pub running: bool,
    pub last_run_at: Option<LocalDateTime>,
    pub next_run_at: Option<LocalDateTime>,
    pub last_summary: Option<JobSummary>,
    pub source: Option<String>,
    pub destination: Option<String>,
    pub schedule_time: String,
    pub auto_start: bool,
}

/// The status for the settings `cfg` at `now`. The next run is the one `next_run_after`
/// gives for the configured schedule, and absent when the schedule does not read as a
/// time.
pub fn build_status(cfg: Config, running: bool, now: LocalDateTime) -> (r: Status)
    requires
        now.valid(),
        -SCHEDULE_RANGE_SECS <= now.utc_secs <= SCHEDULE_RANGE_SECS,
    ensures
        r.running == running,
        r.last_run_at == cfg.last_run_at,
        r.last_summary == cfg.last_summary,
        r.source == cfg.source,
        r.destination == cfg.destination,
        r.schedule_time == cfg.schedule_time,
        r.auto_start == cfg.auto_start,
        r.next_run_at is None <==> parse_schedule_spec(cfg.schedule_time@) is None,
        r.next_run_at matches Some(n) ==> (parse_schedule_spec(cfg.schedule_time@) matches Some(
            t,
        ) && exists|today: Option<LocalDateTime>|
            resolves(today, todays_run_local(now, t)) && #[trigger] next_run_instant(now, today)
                == (n.utc_secs as int, n.nanos as int)),
{
    let next_run_at = match parse_schedule(cfg.schedule_time.as_str()) {
        Ok(t) => Some(next_run_after(now, t)),
        Err(_) => None,
    };
    Status {
        running,
        last_run_at: cfg.last_run_at,
        next_run_at,
        last_summary: cfg.last_summary,
        source: cfg.source,
        destination: cfg.destination,
        schedule_time: cfg.schedule_time,
        auto_start: cfg.auto_start,
    }
}

} // verus!
