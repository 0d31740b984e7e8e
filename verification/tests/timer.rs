use oxide_kv::config::Config;
use oxide_kv::raft::node::NodeState;
use oxide_kv::raft::timer::{
    election_timer_step, jitter_ms, polling_pause_ms, should_start_election, TimerAction, TimerPhase,
};
use oxide_kv::time::{Duration, Instant};

fn after(t: Instant, span: Duration) -> Instant {
    Instant { nanos: t.nanos + span.nanos }
}

#[test]
fn leader_never_elects_even_after_long_silence() {
    let t = Instant { nanos: 1_000_000_000 };
    let threshold = Duration::from_millis(Config::min_election_timeout_ms());
    let far_future = after(t, Duration::from_secs(600));
    assert!(!should_start_election(
        NodeState::Leader,
        t,
        far_future,
        threshold
    ));
}

#[test]
fn follower_within_threshold_does_not_elect() {
    let t = Instant { nanos: 1_000_000_000 };
    let threshold = Duration::from_millis(Config::min_election_timeout_ms());
    let just_before = after(t, Duration { nanos: threshold.nanos - Duration::from_millis(1).nanos });
    assert!(!should_start_election(
        NodeState::Follower,
        t,
        just_before,
        threshold
    ));
}

#[test]
fn follower_at_threshold_elects() {
    let t = Instant { nanos: 1_000_000_000 };
    let threshold = Duration::from_millis(Config::min_election_timeout_ms());
    let exactly = after(t, threshold);
    assert!(should_start_election(
        NodeState::Follower,
        t,
        exactly,
        threshold
    ));
}

#[test]
fn follower_past_threshold_elects() {
    let t = Instant { nanos: 1_000_000_000 };
    let threshold = Duration::from_millis(Config::min_election_timeout_ms());
    let way_after = after(t, Duration { nanos: 2 * threshold.nanos });
    assert!(should_start_election(
        NodeState::Follower,
        t,
        way_after,
        threshold
    ));
}

#[test]
fn candidate_also_uses_threshold() {
    let t = Instant { nanos: 1_000_000_000 };
    let threshold = Duration::from_millis(Config::min_election_timeout_ms());
    let stale = after(t, Duration { nanos: 2 * threshold.nanos });
    assert!(should_start_election(
        NodeState::Candidate,
        t,
        stale,
        threshold
    ));
}

#[test]
fn ratio_constraint_holds_for_config() {
    let hb = Config::heartbeat_interval_ms();
    let min = Config::min_election_timeout_ms();
    assert!(
        min >= 10 * hb,
        "min election timeout ({}ms) must be ≥ 10× heartbeat ({}ms)",
        min,
        hb
    );
}

#[test]
fn a_clock_that_goes_back_starts_no_election() {
    let t = Instant { nanos: 1_000_000_000 };
    assert!(!should_start_election(NodeState::Follower, t, Instant { nanos: 0 }, Duration::from_millis(1)));
    assert!(should_start_election(NodeState::Follower, t, Instant { nanos: 0 }, Duration::from_millis(0)));
}

#[test]
fn an_election_starts_on_the_second_look() {
    let t = Instant { nanos: 0 };
    let late = after(t, Duration::from_millis(5_000));
    assert_eq!(
        election_timer_step(TimerPhase::Polling, NodeState::Follower, t, late),
        (TimerPhase::Jittering, TimerAction::Jitter)
    );
    assert_eq!(
        election_timer_step(TimerPhase::Jittering, NodeState::Follower, t, late),
        (TimerPhase::Polling, TimerAction::StartPreVote)
    );
    assert_eq!(
        election_timer_step(TimerPhase::Jittering, NodeState::Follower, late, late),
        (TimerPhase::Polling, TimerAction::Poll)
    );
    assert_eq!(
        election_timer_step(TimerPhase::Polling, NodeState::Leader, t, late),
        (TimerPhase::Polling, TimerAction::Poll)
    );
}

#[test]
fn pauses_lie_in_their_ranges() {
    let mut seen: Vec<u64> = Vec::new();
    for _ in 0..200 {
        let pause = polling_pause_ms();
        assert!((5_000..10_000).contains(&pause), "{pause}");
        assert!(jitter_ms() < 200);
        if !seen.contains(&pause) {
            seen.push(pause);
        }
    }
    assert!(seen.len() > 1, "the pauses are drawn by chance");
}
