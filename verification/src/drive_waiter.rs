//! Waiting for the destination folder to appear (Google Drive may start late).

use vstd::prelude::*;

verus! {

/// Seconds between two looks at the destination folder.
pub const POLL_INTERVAL_SECS: u64 = 10;

/// The destination folder did not appear in time; it holds the folder's path.
#[derive(Debug, Clone, PartialEq, Eq)]
pub enum DriveWaitError {
    Timeout(String),
}

/// What to do after one look at the destination folder.
#[derive(Debug, Clone, PartialEq, Eq)]
pub enum WaitStep {
    /// The folder is there.
    Ready,
    /// Sleep one interval and look again.
    Sleep,
    /// Stop waiting.
    GiveUp(DriveWaitError),
}

/// What one look decides: `Some(true)` when the folder is there, `Some(false)` when the
/// time waited has reached the timeout without it, `None` to sleep and look again.
pub open spec fn look_outcome(exists: bool, elapsed_nanos: u128, timeout_nanos: u128) -> Option<
    bool,
> {
    if exists {
        Some(true)
    } else if elapsed_nanos >= timeout_nanos {
        Some(false)
    } else {
        None
    }
}

/// One round of waiting: ready as soon as the destination exists; otherwise give up once
/// the time waited has reached the timeout, and sleep before that.
pub fn wait_step(destination: &str, exists: bool, elapsed_nanos: u128, timeout_nanos: u128) -> (r:
    WaitStep)
    ensures
        exists ==> r == WaitStep::Ready,
        !exists && elapsed_nanos >= timeout_nanos ==> (r matches WaitStep::GiveUp(
            DriveWaitError::Timeout(p),
        ) && p@ == destination@),
        !exists && elapsed_nanos < timeout_nanos ==> r == WaitStep::Sleep,
        match look_outcome(exists, elapsed_nanos, timeout_nanos) {
            Some(true) => r is Ready,
            Some(false) => r is GiveUp,
            None => r is Sleep,
        },
{
    if exists {
        WaitStep::Ready
    } else if elapsed_nanos >= timeout_nanos {
        WaitStep::GiveUp(DriveWaitError::Timeout(destination.to_owned()))
    } else {
        WaitStep::Sleep
    }
}

/// How a wait ends, given what each look at the destination saw: whether it existed and
/// how long had been waited (in nanoseconds) at that look. Each look is one `wait_step`:
/// `Some(true)` when the folder was found, `Some(false)` when the wait gave up, `None` when
/// it is still going after the looks given.
pub open spec fn poll_outcome(looks: Seq<(bool, u128)>, timeout_nanos: u128) -> Option<bool>
    decreases looks.len(),
{
    if looks.len() == 0 {
        None
    } else {
        match look_outcome(looks[0].0, looks[0].1, timeout_nanos) {
            Some(found) => Some(found),
            None => poll_outcome(looks.drop_first(), timeout_nanos),
        }
    }
}

/// The wait for the destination ends at the first look that finds it or that comes at or
/// after the timeout (look `n`), and no later look matters: it succeeds if and only if some
/// look up to and including look `n` found the folder, and gives up otherwise.
pub proof fn lemma_wait_ends_by_timeout(looks: Seq<(bool, u128)>, timeout_nanos: u128, n: int)
    requires
        0 <= n < looks.len(),
        looks[n].1 >= timeout_nanos,
        forall|j: int| 0 <= j < n ==> #[trigger] looks[j].1 < timeout_nanos,
    ensures
        poll_outcome(looks, timeout_nanos) == poll_outcome(looks.take(n + 1), timeout_nanos),
        poll_outcome(looks, timeout_nanos) == Some(true) <==> exists|k: int|
            0 <= k <= n && #[trigger] looks[k].0,
        poll_outcome(looks, timeout_nanos) == Some(false) <==> forall|k: int|
            0 <= k <= n ==> !#[trigger] looks[k].0,
    decreases n,
{
    let t = looks.take(n + 1);
    assert(t[0] == looks[0]);
    if looks[0].0 {
        assert(looks[0].0);
    } else if n == 0 {
        assert(t =~= seq![looks[0]]);
        assert(t.drop_first() =~= Seq::<(bool, u128)>::empty());
    } else {
        assert(looks[0].1 < timeout_nanos);
        let rest = looks.drop_first();
        assert forall|j: int| 0 <= j < n - 1 implies #[trigger] rest[j].1 < timeout_nanos by {
            assert(rest[j] == looks[j + 1]);
        }
        assert(rest[n - 1] == looks[n]);
        lemma_wait_ends_by_timeout(rest, timeout_nanos, n - 1);
        assert(t.drop_first() =~= rest.take(n));
        assert forall|k: int| 0 <= k <= n - 1 implies #[trigger] rest[k].0 == looks[k + 1].0 by {
            assert(rest[k] == looks[k + 1]);
        }
        if exists|k: int| 0 <= k <= n && #[trigger] looks[k].0 {
            let k = choose|k: int| 0 <= k <= n && #[trigger] looks[k].0;
            assert(rest[k - 1].0);
        }
        if exists|k: int| 0 <= k <= n - 1 && #[trigger] rest[k].0 {
            let k = choose|k: int| 0 <= k <= n - 1 && #[trigger] rest[k].0;
            assert(looks[k + 1].0);
        }
    }
}

} // verus!
