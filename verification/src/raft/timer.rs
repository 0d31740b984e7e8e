//! When a node starts an election.

use crate::config::Config;
use crate::raft::node::NodeState;
use crate::time::{Duration, Instant};
use vstd::prelude::*;

verus! {

/// A bound on the pause between the moment at which a node is due for an
/// election and the moment at which it looks again, in milliseconds.
pub const MAX_JITTER_MS: u64 = 200;

/// A node is due for an election: it does not lead, and has not heard from a
/// leader for at least `threshold`.
pub open spec fn election_due(state: NodeState, last_heartbeat: Instant, now: Instant, threshold: Duration) -> bool {
    &&& state != NodeState::Leader
    &&& if now.nanos >= last_heartbeat.nanos {
        now.nanos - last_heartbeat.nanos >= threshold.nanos
    } else {
        threshold.nanos == 0
    }
}

/// Whether a node is due for an election at `now`.
pub fn should_start_election(
    state: NodeState,
    last_heartbeat: Instant,
    now: Instant,
    election_threshold: Duration,
) -> (due: bool)
    ensures
        due == election_due(state, last_heartbeat, now, election_threshold),
{
    if state == NodeState::Leader {
        return false;
    }
    now.since(last_heartbeat).nanos >= election_threshold.nanos
}

/// What the election timer waits for: the end of the long pause between two
/// looks at the node, or that of the short one before the second look.
#[derive(Debug, Clone, Copy, PartialEq, Eq, Structural)]
pub enum TimerPhase {
    Polling,
    Jittering,
}

/// What the election timer does next.
#[derive(Debug, Clone, Copy, PartialEq, Eq, Structural)]
pub enum TimerAction {
    /// Pause for [`polling_pause_ms`], then look.
    Poll,
    /// Pause for [`jitter_ms`], then look again.
    Jitter,
    /// Start a pre-vote, then pause for [`polling_pause_ms`] and look.
    StartPreVote,
}

/// What follows on a look at the node: a node that is due is looked at once
/// more, and starts only if it is due then too.
pub open spec fn after_look(phase: TimerPhase, due: bool) -> (TimerPhase, TimerAction) {
    match phase {
        TimerPhase::Polling => if due {
            (TimerPhase::Jittering, TimerAction::Jitter)
        } else {
            (TimerPhase::Polling, TimerAction::Poll)
        },
        TimerPhase::Jittering => if due {
            (TimerPhase::Polling, TimerAction::StartPreVote)
        } else {
            (TimerPhase::Polling, TimerAction::Poll)
        },
    }
}

/// One turn of the election timer: looks at the node after a pause.
pub fn election_timer_step(phase: TimerPhase, state: NodeState, last_heartbeat: Instant, now: Instant) -> (next: (
    TimerPhase,
    TimerAction,
))
    ensures
        next == after_look(
            phase,
            election_due(
                state,
                last_heartbeat,
                now,
                (Duration { nanos: (crate::config::MIN_ELECTION_TIMEOUT_MS * 1_000_000) as u128 }),
            ),
        ),
{
    let threshold = Duration::from_millis(Config::min_election_timeout_ms());
    let due = should_start_election(state, last_heartbeat, now, threshold);
    match phase {
        TimerPhase::Polling => {
            if due {
                (TimerPhase::Jittering, TimerAction::Jitter)
            } else {
                (TimerPhase::Polling, TimerAction::Poll)
            }
        },
        TimerPhase::Jittering => {
            if due {
                (TimerPhase::Polling, TimerAction::StartPreVote)
            } else {
                (TimerPhase::Polling, TimerAction::Poll)
            }
        },
    }
}

/// `rand::Rng::gen_range` on the generator of `rand::thread_rng`: some number
/// of the half-open range. Which one is left to chance.
#[verifier::external_body]
fn random_between(low: u64, high: u64) -> (picked: u64)
    requires
        low < high,
    ensures
        low <= picked < high,
{
    rand::Rng::gen_range(&mut rand::thread_rng(), low..high)
}

/// How long to pause between two looks at the node: some time between the
/// shortest and the longest election timeout, in milliseconds.
pub fn polling_pause_ms() -> (ms: u64)
    ensures
        crate::config::MIN_ELECTION_TIMEOUT_MS <= ms < crate::config::MAX_ELECTION_TIMEOUT_MS,
{
    random_between(Config::min_election_timeout_ms(), Config::max_election_timeout_ms())
}

/// How long to pause before the second look, in milliseconds.
pub fn jitter_ms() -> (ms: u64)
    ensures
        ms < MAX_JITTER_MS,
{
    random_between(0, MAX_JITTER_MS)
}

/// A leader starts no election, however long it has heard nothing.
pub proof fn leaders_start_no_election(last_heartbeat: Instant, now: Instant, threshold: Duration, phase: TimerPhase)
    ensures
        !election_due(NodeState::Leader, last_heartbeat, now, threshold),
        after_look(phase, election_due(NodeState::Leader, last_heartbeat, now, threshold)).1 == TimerAction::Poll,
{
}

/// An election starts only on the second of two looks, both of which find the
/// node due.
pub proof fn elections_start_on_the_second_look(phase: TimerPhase, due: bool)
    ensures
        after_look(phase, due).1 == TimerAction::StartPreVote <==> phase == TimerPhase::Jittering && due,
        after_look(phase, due).0 == TimerPhase::Jittering <==> phase == TimerPhase::Polling && due,
{
}

/// Once a node is due it stays due until it hears from a leader or leads.
pub proof fn silence_keeps_a_node_due(
    state: NodeState,
    last_heartbeat: Instant,
    now: Instant,
    later: Instant,
    threshold: Duration,
)
    requires
        election_due(state, last_heartbeat, now, threshold),
        later.nanos >= now.nanos,
    ensures
        election_due(state, last_heartbeat, later, threshold),
{
}

/// When a node is due: it does not lead, and at least the threshold has gone by
/// since it last heard from a leader. A clock that runs behind that moment counts
/// as one that stands at it.
pub proof fn silence_makes_a_node_due(state: NodeState, last_heartbeat: Instant, now: Instant, threshold: Duration)
    ensures
        state != NodeState::Leader && last_heartbeat.nanos + threshold.nanos <= now.nanos ==> election_due(
            state,
            last_heartbeat,
            now,
            threshold,
        ),
        election_due(state, last_heartbeat, now, threshold) ==> state != NodeState::Leader && (threshold.nanos == 0
            || last_heartbeat.nanos + threshold.nanos <= now.nanos),
        state != NodeState::Leader && threshold.nanos == 0 ==> election_due(state, last_heartbeat, now, threshold),
{
}

/// A node that two looks in a row find due, the second of them at a later time,
/// starts an election, and a look that does not find it due starts the timer
/// over.
pub proof fn two_looks_start_an_election(first: bool, second: bool)
    ensures
        ({
            let (phase, action) = after_look(TimerPhase::Polling, first);
            let (again, decided) = after_look(phase, second);
            &&& first && second ==> action == TimerAction::Jitter && decided == TimerAction::StartPreVote && again
                == TimerPhase::Polling
            &&& first && !second ==> action == TimerAction::Jitter && decided == TimerAction::Poll && again
                == TimerPhase::Polling
            &&& !first ==> action == TimerAction::Poll && phase == TimerPhase::Polling
        }),
{
}

} // verus!
