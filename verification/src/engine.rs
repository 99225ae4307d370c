//! Decisions of the capture orchestrator: the fail-fast protocol and the
//! pacing of poll rounds. The surrounding application owns the tasks, the
//! shared stop signal and the fan-in queue; which way each step goes is
//! decided here.

use vstd::prelude::*;

verus! {

/// What the orchestrator does when one poller finishes.
#[derive(Clone, Copy, PartialEq, Eq, Structural, Debug)]
pub struct PollerExitAction {
    /// Fan the stop signal out to every other poller.
    pub stop_all: bool,
    /// Record that a poller failed, so the consumer loop abandons the
    /// remaining fetches.
    pub mark_failed: bool,
}

/// Decides the reaction to one poller's exit: under fail-fast, a failure
/// stops the whole capture and is recorded; otherwise, and on success,
/// nothing is fanned out and the siblings continue unaffected.
pub fn on_poller_exit(failed: bool, fail_fast: bool) -> (r: PollerExitAction)
    ensures
        r.stop_all == (failed && fail_fast),
        r.mark_failed == (failed && fail_fast),
{
    PollerExitAction { stop_all: failed && fail_fast, mark_failed: failed && fail_fast }
}

/// Decides whether the consumer loop stops pulling completed fetches: only
/// when the stop signal is set and a poller failure was recorded — a plain
/// end of stream drains the queue instead.
pub fn should_stop_consuming(stopped: bool, poller_failed: bool) -> (r: bool)
    ensures
        r == (stopped && poller_failed),
{
    stopped && poller_failed
}

/// Milliseconds to wait from the start of a poll round until the next one:
/// the playlist's target duration when the round found new segments, half of
/// it otherwise.
pub fn next_wait_millis(target_duration: u64, found_new: bool) -> (r: u64)
    requires
        target_duration <= 1_000_000,
    ensures
        r == if found_new {
            target_duration * 1000
        } else {
            target_duration * 1000 / 2
        },
{
    if found_new {
        target_duration * 1000
    } else {
        target_duration * 1000 / 2
    }
}

} // verus!
