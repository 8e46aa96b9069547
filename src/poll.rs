use vstd::prelude::*;

verus! {

/// The fixed back-off between polls of a component that reported
/// `NotReady`, in nanoseconds.
pub const POLL_INTERVAL_NANOS: u64 = 10_000_000;

/// Where a component stands with regard to being polled for completed
/// background work. Times are nanoseconds on a monotonic clock.
#[derive(Clone, Copy, Debug, PartialEq, Eq, Structural)]
pub enum AsyncPollState {
    /// To be polled on the next cycle.
    NotPinged,
    /// A poll is outstanding.
    WasPinged,
    /// Reported `NotReady` at `last_ping`; not polled again until more than
    /// `wait` has elapsed since then.
    Waiting { last_ping: u64, wait: u64 },
}

/// The time elapsed from `since` to `now`, zero if the clock reads earlier.
pub open spec fn elapsed(since: u64, now: u64) -> int {
    if now >= since {
        now - since
    } else {
        0
    }
}

/// One cycle of the tracker at time `now`: the next state, and whether a
/// poll is sent this cycle.
pub open spec fn poll_step(s: AsyncPollState, now: u64) -> (AsyncPollState, bool) {
    match s {
        AsyncPollState::NotPinged => (AsyncPollState::WasPinged, true),
        AsyncPollState::WasPinged => (AsyncPollState::WasPinged, false),
        AsyncPollState::Waiting { last_ping, wait } => {
            if elapsed(last_ping, now) > wait {
                (AsyncPollState::NotPinged, false)
            } else {
                (s, false)
            }
        },
    }
}

/// The tracker's state after one cycle per time in `nows`.
pub open spec fn poll_run(s: AsyncPollState, nows: Seq<u64>) -> AsyncPollState
    decreases nows.len(),
{
    if nows.len() == 0 {
        s
    } else {
        poll_step(poll_run(s, nows.drop_last()), nows.last()).0
    }
}

/// Whether the cycle at position `k` of `nows` sends a poll.
pub open spec fn polls_at(s: AsyncPollState, nows: Seq<u64>, k: int) -> bool {
    poll_step(poll_run(s, nows.take(k)), nows[k]).1
}

/// What a dispatch outcome does to the tracker of the component that handled
/// the message: `NotReady` starts a wait at `now`; any other outcome re-arms
/// the tracker when the message was a poll, and leaves it alone otherwise.
pub open spec fn after_dispatch(
    s: AsyncPollState,
    was_poll: bool,
    not_ready: bool,
    now: u64,
) -> AsyncPollState {
    if not_ready {
        AsyncPollState::Waiting { last_ping: now, wait: POLL_INTERVAL_NANOS }
    } else if was_poll {
        AsyncPollState::NotPinged
    } else {
        s
    }
}

impl AsyncPollState {
    /// Advances the tracker by one cycle at time `now`; returns the next
    /// state and whether to poll now.
    pub fn step(&self, now: u64) -> (r: (AsyncPollState, bool))
        ensures
            r == poll_step(*self, now),
    {
        match *self {
            AsyncPollState::NotPinged => (AsyncPollState::WasPinged, true),
            AsyncPollState::WasPinged => (AsyncPollState::WasPinged, false),
            AsyncPollState::Waiting { last_ping, wait } => {
                let since: u64 = if now >= last_ping {
                    now - last_ping
                } else {
                    0
                };
                if since > wait {
                    (AsyncPollState::NotPinged, false)
                } else {
                    (*self, false)
                }
            },
        }
    }
}

/// While a component waits after `NotReady`, a poll goes out only on a cycle
/// whose clock reads more than the wait after the moment it reported: with
/// a clock that never runs backwards, no component is polled again before
/// the back-off has elapsed.
pub proof fn lemma_no_poll_during_wait(last_ping: u64, wait: u64, nows: Seq<u64>, k: int)
    requires
        0 <= k < nows.len(),
        forall|i: int, j: int| 0 <= i <= j < nows.len() ==> nows[i] <= nows[j],
        polls_at(AsyncPollState::Waiting { last_ping, wait }, nows, k),
    ensures
        elapsed(last_ping, nows[k]) > wait,
{
    lemma_run_waiting(last_ping, wait, nows.take(k));
}

/// Helper: over a run of cycles from `Waiting`, the tracker is either still
/// waiting or some earlier cycle's clock was past the wait.
proof fn lemma_run_waiting(last_ping: u64, wait: u64, nows: Seq<u64>)
    ensures
        poll_run(AsyncPollState::Waiting { last_ping, wait }, nows) == (AsyncPollState::Waiting {
            last_ping,
            wait,
        }) || exists|j: int| 0 <= j < nows.len() && elapsed(last_ping, nows[j]) > wait,
    decreases nows.len(),
{
    if nows.len() > 0 {
        lemma_run_waiting(last_ping, wait, nows.drop_last());
        let prev = poll_run(AsyncPollState::Waiting { last_ping, wait }, nows.drop_last());
        if prev == (AsyncPollState::Waiting { last_ping, wait }) {
            if elapsed(last_ping, nows.last()) > wait {
                assert(elapsed(last_ping, nows[nows.len() - 1]) > wait);
            }
        } else {
            let j = choose|j: int| 0 <= j < nows.drop_last().len() && elapsed(last_ping, nows.drop_last()[j]) > wait;
            assert(nows[j] == nows.drop_last()[j]);
        }
    }
}

/// A component that answers a poll with anything but `NotReady` is polled
/// again on the very next cycle; one that answers `NotReady` is not.
pub proof fn lemma_answered_poll_rearms(s: AsyncPollState, now: u64, next: u64)
    ensures
        poll_step(after_dispatch(s, true, false, now), next).1,
        !poll_step(after_dispatch(s, true, true, now), next).1,
{
}

} // verus!
