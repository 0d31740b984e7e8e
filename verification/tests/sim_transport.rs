use oxide_kv::coordination::{VoteRequest, VoteResponse};
use oxide_kv::data::Duplicate;
use oxide_kv::protocol::Snapshot;
use oxide_kv::raft::net::TransportError;
use oxide_kv::raft::node::RaftNode;
use oxide_kv::raft::rpc::{
    AppendEntriesArgs, AppendReplyArgs, InstallSnapshotArgs, RaftMessage, RequestVoteArgs, VoteResponseArgs,
};
use oxide_kv::raft::sim_transport::{
    dispatch_raft_message, expect_raft_reply, expect_vote_reply, plan_send, serve_step, Exchange,
    InboundMessageBody, Network, ScheduleOutcome, SendPlan, ServeAction, ServeEvent, SimTransport,
};
use oxide_kv::state_machine::StateMachine;
use oxide_kv::text_map::TextMap;
use oxide_kv::time::Duration;

fn fresh_node(node_id: &str, peers: Vec<String>) -> RaftNode {
    RaftNode::new(node_id.to_string(), peers, StateMachine::new())
}

fn exchange(net: &Network, to: &str, node: &mut RaftNode, body: InboundMessageBody) -> Exchange {
    match plan_send(net, to, ScheduleOutcome::Deliver) {
        SendPlan::Send { .. } => match serve_step(node, ServeEvent::Message(body)) {
            ServeAction::Reply(answer) => Exchange::Answered(answer),
            ServeAction::Finish(_) => Exchange::Closed,
        },
        other => panic!("expected to send, got {:?}", other),
    }
}

#[test]
fn dispatch_raft_message_routes_request_vote_to_handler() {
    let mut n = fresh_node("n2", vec!["n1".to_string()]);
    let result = dispatch_raft_message(
        &mut n,
        RaftMessage::RequestVote(RequestVoteArgs {
            term: 1,
            candidate_id: "n1".into(),
            last_log_index: 0,
            last_log_term: 0,
        }),
    )
    .expect("dispatch should succeed for request vote");
    match result {
        RaftMessage::VoteResponse(reply) => {
            assert!(
                reply.vote_granted,
                "empty-log follower should grant vote to empty-log candidate"
            );
            assert_eq!(reply.term, 1);
        }
        other => panic!(
            "expected VoteResponse, got {:?}",
            std::mem::discriminant(&other)
        ),
    }
}

#[test]
fn dispatch_raft_message_routes_append_entries_to_handler() {
    let mut n = fresh_node("n2", vec!["n1".to_string()]);
    let result = dispatch_raft_message(
        &mut n,
        RaftMessage::AppendEntries(AppendEntriesArgs {
            term: 1,
            leader_id: "n1".into(),
            prev_log_index: 0,
            prev_log_term: 0,
            entries: vec![],
            leader_commit: 0,
        }),
    )
    .expect("dispatch should succeed for append entries");
    match result {
        RaftMessage::AppendReply(reply) => {
            assert!(
                reply.success,
                "empty append with matching prev should succeed"
            );
            assert_eq!(reply.term, 1);
        }
        other => panic!(
            "expected AppendReply, got {:?}",
            std::mem::discriminant(&other)
        ),
    }
}

#[test]
fn dispatch_raft_message_routes_install_snapshot_to_handler() {
    let mut n = fresh_node("n2", vec!["n1".to_string()]);
    let result = dispatch_raft_message(
        &mut n,
        RaftMessage::InstallSnapshot(InstallSnapshotArgs {
            term: 1,
            leader_id: "n1".into(),
            last_included_index: 0,
            last_included_term: 0,
            snapshot: Snapshot {
                last_included_index: 0,
                last_included_term: 0,
                data: TextMap::new(),
            },
        }),
    )
    .expect("dispatch should succeed for install snapshot");
    match result {
        RaftMessage::InstallSnapshotReply(reply) => {
            assert_eq!(reply.term, 1);
        }
        other => panic!(
            "expected InstallSnapshotReply, got {:?}",
            std::mem::discriminant(&other)
        ),
    }
}

#[test]
fn dispatch_raft_message_rejects_inbound_reply_variant() {
    let mut n = fresh_node("n2", vec!["n1".to_string()]);
    let result = dispatch_raft_message(
        &mut n,
        RaftMessage::AppendReply(AppendReplyArgs {
            term: 1,
            success: true,
        }),
    );
    assert!(
        matches!(result, Err(TransportError::Protocol(_))),
        "expected Protocol, got {:?}",
        result
    );
}

#[test]
fn sim_transport_send_raft_unknown_peer_is_unreachable() {
    let mut net = Network::new();
    let rx = net.register("n1");
    let t = SimTransport::new("n1".into(), rx);
    assert_eq!(t.self_id, "n1");
    let result = plan_send(&net, "n-does-not-exist", ScheduleOutcome::Deliver);
    assert_eq!(
        result,
        SendPlan::Fail(TransportError::Unreachable("peer n-does-not-exist not registered".to_string()))
    );
}

#[test]
fn sim_transport_serve_dispatches_through_node_handler() {
    let mut net = Network::with_rpc_timeout(Duration::from_secs(2));
    net.register("n1");
    net.register("n2");
    let mut node_n2 = fresh_node("n2", vec!["n1".to_string()]);
    let body = InboundMessageBody::Raft(RaftMessage::RequestVote(RequestVoteArgs {
        term: 1,
        candidate_id: "n1".into(),
        last_log_index: 0,
        last_log_term: 0,
    }));
    let answered = exchange(&net, "n2", &mut node_n2, body);
    let reply = expect_raft_reply(answered, net.rpc_timeout()).expect("registered peer answers");
    match reply {
        RaftMessage::VoteResponse(v) => {
            assert!(v.vote_granted, "empty-log follower should grant vote to empty-log candidate");
            assert_eq!(v.term, 1);
        }
        other => panic!("expected VoteResponse, got {:?}", other),
    }
}

#[test]
fn sim_transport_send_vote_returns_vote_response() {
    let mut net = Network::with_rpc_timeout(Duration::from_secs(2));
    net.register("n1");
    net.register("n2");
    let mut node_n2 = fresh_node("n2", vec!["n1".to_string()]);
    let body = InboundMessageBody::Vote(VoteRequest {
        term: 1,
        tx_id: "tx-1".to_string(),
        last_log_index: 0,
        last_log_term: 0,
    });
    let answered = exchange(&net, "n2", &mut node_n2, body);
    let reply = expect_vote_reply(answered, net.rpc_timeout()).expect("registered peer answers");
    assert_eq!(reply.term, 1);
    assert!(!reply.vote_granted, "vote should be denied for unknown tx_id, got granted");
}

#[test]
fn sim_transport_round_trip_append_entries_to_follower() {
    let mut net = Network::with_rpc_timeout(Duration::from_secs(2));
    net.register("n1");
    net.register("n2");
    let mut node_n2 = fresh_node("n2", vec!["n1".to_string()]);
    let body = InboundMessageBody::Raft(RaftMessage::AppendEntries(AppendEntriesArgs {
        term: 1,
        leader_id: "n1".into(),
        prev_log_index: 0,
        prev_log_term: 0,
        entries: vec![],
        leader_commit: 0,
    }));
    let answered = exchange(&net, "n2", &mut node_n2, body);
    match expect_raft_reply(answered, net.rpc_timeout()).expect("heartbeat should succeed") {
        RaftMessage::AppendReply(r) => {
            assert!(r.success, "empty heartbeat with matching prev should succeed");
            assert_eq!(r.term, 1);
        }
        other => panic!("expected AppendReply, got {:?}", other),
    }
}

#[test]
fn a_refused_reply_names_its_variant() {
    let mut node = fresh_node("n2", vec!["n1".to_string()]);
    let stray = RaftMessage::AppendReply(AppendReplyArgs { term: 1, success: true });
    let variant = format!("{:?}", std::mem::discriminant(&stray));
    assert_eq!(
        dispatch_raft_message(&mut node, stray),
        Err(TransportError::Protocol(format!("unexpected inbound reply variant: {variant}")))
    );
}

#[test]
fn links_lose_delay_and_repeat_messages() {
    let mut net = Network::with_rpc_timeout(Duration::from_millis(30));
    let channel = net.register("n2");
    let delay = Duration::from_millis(7);
    let timeout = Duration::from_millis(30);
    let none = Duration::from_millis(0);
    assert_eq!(
        plan_send(&net, "n2", ScheduleOutcome::Drop),
        SendPlan::FailAfter(timeout, TransportError::Timeout(timeout))
    );
    assert_eq!(
        plan_send(&net, "n2", ScheduleOutcome::Delay(delay)),
        SendPlan::Send { channel, pause: delay, again: None, timeout }
    );
    assert_eq!(
        plan_send(&net, "n2", ScheduleOutcome::Duplicate(delay)),
        SendPlan::Send { channel, pause: none, again: Some(delay), timeout }
    );
}

#[test]
fn a_restarted_node_has_a_fresh_channel() {
    let mut net = Network::default();
    assert_eq!(net.rpc_timeout(), Duration::from_secs(2));
    let first = net.register("n1");
    let other = net.register("n2");
    let mut t = SimTransport::new("n1".into(), first);
    assert_eq!(t.take_inbound(), Some(first));
    assert_eq!(t.take_inbound(), None);
    let again = net.re_register("n1");
    assert!(again != first && again != other);
    t.replace_inbound(again);
    assert_eq!(t.take_inbound(), Some(again));
    assert_eq!(net.lookup("n1"), Some(again));
    assert_eq!(net.lookup("n2"), Some(other));
    assert_eq!(net.lookup("n3"), None);
}

#[test]
fn exchanges_without_a_fitting_reply_are_errors() {
    let timeout = Duration::from_secs(1);
    assert_eq!(
        expect_raft_reply(Exchange::Closed, timeout),
        Err(TransportError::Unreachable("peer inbound channel closed".to_string()))
    );
    assert_eq!(
        expect_raft_reply(Exchange::Dropped, timeout),
        Err(TransportError::Protocol("reply oneshot canceled before delivery".to_string()))
    );
    assert_eq!(expect_vote_reply(Exchange::TimedOut, timeout), Err(TransportError::Timeout(timeout)));
    let vote = InboundMessageBody::Vote(VoteRequest {
        term: 1,
        tx_id: "t".to_string(),
        last_log_index: 0,
        last_log_term: 0,
    });
    let reply = InboundMessageBody::VoteReply(VoteResponse {
        term: 1,
        vote_granted: true,
        reason: String::new(),
    });
    let raft = RaftMessage::VoteResponse(VoteResponseArgs { term: 1, vote_granted: true });
    let variant = format!("{:?}", std::mem::discriminant(&raft));
    assert_eq!(
        expect_raft_reply(Exchange::Answered(Ok(vote.duplicate())), timeout),
        Err(TransportError::Protocol(
            "raft peer returned a vote request instead of a raft reply".to_string()
        ))
    );
    assert_eq!(
        expect_raft_reply(Exchange::Answered(Ok(reply)), timeout),
        Err(TransportError::Protocol(
            "raft peer returned a vote reply instead of a raft reply".to_string()
        ))
    );
    assert_eq!(
        expect_vote_reply(Exchange::Answered(Ok(vote)), timeout),
        Err(TransportError::Protocol(
            "vote peer returned a vote request instead of a vote reply".to_string()
        ))
    );
    assert_eq!(
        expect_vote_reply(Exchange::Answered(Ok(InboundMessageBody::Raft(raft))), timeout),
        Err(TransportError::Protocol(format!("vote peer returned non-vote reply: {variant}")))
    );
}

#[test]
fn a_served_node_ends_when_it_is_stopped_or_cut_off() {
    let mut node = fresh_node("n2", vec!["n1".to_string()]);
    assert_eq!(
        serve_step(&mut node, ServeEvent::Stopped),
        ServeAction::Finish(Err(TransportError::Canceled))
    );
    assert_eq!(serve_step(&mut node, ServeEvent::Closed), ServeAction::Finish(Ok(())));
    let stray = InboundMessageBody::VoteReply(VoteResponse {
        term: 1,
        vote_granted: true,
        reason: String::new(),
    });
    assert_eq!(
        serve_step(&mut node, ServeEvent::Message(stray)),
        ServeAction::Reply(Err(TransportError::Protocol(
            "received VoteReply without a preceding Vote request".to_string()
        )))
    );
}
