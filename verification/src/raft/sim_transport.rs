//! A network in memory: who can be reached, what becomes of a message on a
//! faulty link, and how a node answers what reaches it.

use crate::coordination::{VoteRequest, VoteRequestModel, VoteResponse, VoteResponseModel};
use crate::data::Duplicate;
use crate::raft::model::NodeModel;
use crate::raft::net::{TransportError, TransportErrorModel};
use crate::raft::node::RaftNode;
use crate::raft::rpc::{RaftMessage, RaftMessageModel};
use crate::text_map::TextMap;
use crate::time::Duration;
use vstd::prelude::*;

verus! {

broadcast use vstd::string::group_string_axioms;

/// What a message to a node, or the reply to it, holds.
#[derive(Debug, PartialEq)]
pub enum InboundMessageBody {
    /// A message of the Raft protocol, request or reply.
    Raft(RaftMessage),
    /// A request for a vote on a transaction.
    Vote(VoteRequest),
    /// The reply to a request for a vote on a transaction.
    VoteReply(VoteResponse),
}

pub enum InboundMessageBodyModel {
    Raft(RaftMessageModel),
    Vote(VoteRequestModel),
    VoteReply(VoteResponseModel),
}

impl DeepView for InboundMessageBody {
    type V = InboundMessageBodyModel;

    open spec fn deep_view(&self) -> InboundMessageBodyModel {
        match self {
            InboundMessageBody::Raft(m) => InboundMessageBodyModel::Raft(m.deep_view()),
            InboundMessageBody::Vote(r) => InboundMessageBodyModel::Vote(r.deep_view()),
            InboundMessageBody::VoteReply(r) => InboundMessageBodyModel::VoteReply(r.deep_view()),
        }
    }
}

impl Duplicate for InboundMessageBody {
    fn duplicate(&self) -> (copy: Self) {
        match self {
            InboundMessageBody::Raft(m) => InboundMessageBody::Raft(m.duplicate()),
            InboundMessageBody::Vote(r) => InboundMessageBody::Vote(
                VoteRequest {
                    term: r.term,
                    tx_id: r.tx_id.clone(),
                    last_log_index: r.last_log_index,
                    last_log_term: r.last_log_term,
                },
            ),
            InboundMessageBody::VoteReply(r) => InboundMessageBody::VoteReply(
                VoteResponse { term: r.term, vote_granted: r.vote_granted, reason: r.reason.clone() },
            ),
        }
    }
}

// ---- answering ----

/// The `Debug` text of the discriminant of a message.
pub uninterp spec fn debug_variant(msg: RaftMessageModel) -> Seq<char>;

/// `Debug` of `std::mem::Discriminant`, as `format` writes it: a function of
/// the variant.
#[verifier::external_body]
fn format_variant(msg: &RaftMessage) -> (text: String)
    ensures
        text@ == debug_variant(msg.deep_view()),
{
    format!("{:?}", std::mem::discriminant(msg))
}

/// The node can take the message: its log has room for the entries, which are
/// numbered from one.
pub open spec fn deliverable(node: NodeModel, msg: RaftMessageModel) -> bool {
    msg matches RaftMessageModel::AppendEntries(args) ==> {
        &&& node.log.len() + args.entries.len() < usize::MAX
        &&& forall|i: int| 0 <= i < args.entries.len() ==> (#[trigger] args.entries[i]).index >= 1
    }
}

/// How a node answers a message of the Raft protocol. Replies are no requests:
/// the node stays as it is.
pub open spec fn raft_answer(node: NodeModel, msg: RaftMessageModel) -> (
    NodeModel,
    Result<RaftMessageModel, TransportErrorModel>,
) {
    match msg {
        RaftMessageModel::RequestVote(args) => {
            let (next, reply) = node.request_vote(args);
            (next, Ok(RaftMessageModel::VoteResponse(reply)))
        },
        RaftMessageModel::RequestPreVote(args) => {
            let (next, reply) = node.pre_vote(args);
            (next, Ok(RaftMessageModel::PreVoteResponse(reply)))
        },
        RaftMessageModel::AppendEntries(args) => {
            let (next, reply) = node.append_entries(args);
            (next, Ok(RaftMessageModel::AppendReply(reply)))
        },
        RaftMessageModel::InstallSnapshot(args) => {
            let (next, reply) = node.install_snapshot(args);
            (next, Ok(RaftMessageModel::InstallSnapshotReply(reply)))
        },
        _ => (node, Err(TransportErrorModel::Protocol("unexpected inbound reply variant: "@ + debug_variant(msg)))),
    }
}

/// The model of a result.
pub open spec fn outcome<T: DeepView>(result: Result<T, TransportError>) -> Result<T::V, TransportErrorModel> {
    match result {
        Ok(value) => Ok(value.deep_view()),
        Err(error) => Err(error.deep_view()),
    }
}

/// Hands a message of the Raft protocol to the node, and returns its answer.
pub fn dispatch_raft_message(node: &mut RaftNode, msg: RaftMessage) -> (answer: Result<RaftMessage, TransportError>)
    requires
        deliverable(old(node)@, msg.deep_view()),
    ensures
        (final(node)@, outcome(answer)) == raft_answer(old(node)@, msg.deep_view()),
{
    match &msg {
        RaftMessage::RequestVote(args) => Ok(RaftMessage::VoteResponse(node.handle_request_vote(args))),
        RaftMessage::RequestPreVote(args) => Ok(RaftMessage::PreVoteResponse(node.handle_pre_vote(args))),
        RaftMessage::AppendEntries(args) => Ok(RaftMessage::AppendReply(node.handle_append_entries(args))),
        RaftMessage::InstallSnapshot(args) => Ok(
            RaftMessage::InstallSnapshotReply(node.handle_install_snapshot(args)),
        ),
        _ => {
            let mut text = "unexpected inbound reply variant: ".to_owned();
            let variant = format_variant(&msg);
            text.append(variant.as_str());
            Err(TransportError::Protocol(text))
        },
    }
}

/// The node can take what reaches it.
pub open spec fn acceptable(node: NodeModel, body: InboundMessageBodyModel) -> bool {
    match body {
        InboundMessageBodyModel::Raft(msg) => deliverable(node, msg),
        InboundMessageBodyModel::Vote(_) => node.log.len() < usize::MAX,
        InboundMessageBodyModel::VoteReply(_) => true,
    }
}

/// Whether the node can take what reaches it.
pub fn is_acceptable(node: &RaftNode, body: &InboundMessageBody) -> (can: bool)
    ensures
        can == acceptable(node@, body.deep_view()),
{
    match body {
        InboundMessageBody::Raft(RaftMessage::AppendEntries(args)) => {
            let ghost model = args.deep_view();
            let log: usize = node.log.len();
            let count: usize = args.entries.len();
            if count >= usize::MAX - log {
                return false;
            }
            let mut i: usize = 0;
            while i < count
                invariant
                    i <= count == args.entries@.len(),
                    model == args.deep_view(),
                    body.deep_view() == InboundMessageBodyModel::Raft(RaftMessageModel::AppendEntries(model)),
                    forall|j: int| 0 <= j < i ==> (#[trigger] model.entries[j]).index >= 1,
                decreases count - i,
            {
                assert(model.entries[i as int] == args.entries@[i as int].deep_view());
                if args.entries[i].index == 0 {
                    assert(!(model.entries[i as int].index >= 1));
                    return false;
                }
                i = i + 1;
            }
            true
        },
        InboundMessageBody::Raft(_) => true,
        InboundMessageBody::Vote(_) => node.log.len() < usize::MAX,
        InboundMessageBody::VoteReply(_) => true,
    }
}

/// How a node answers what reaches it.
pub open spec fn inbound_answer(node: NodeModel, body: InboundMessageBodyModel) -> (
    NodeModel,
    Result<InboundMessageBodyModel, TransportErrorModel>,
) {
    match body {
        InboundMessageBodyModel::Raft(msg) => {
            let (next, answer) = raft_answer(node, msg);
            match answer {
                Ok(reply) => (next, Ok(InboundMessageBodyModel::Raft(reply))),
                Err(error) => (next, Err(error)),
            }
        },
        InboundMessageBodyModel::Vote(req) => {
            let (next, reply) = node.tx_vote(req);
            (next, Ok(InboundMessageBodyModel::VoteReply(reply)))
        },
        InboundMessageBodyModel::VoteReply(_) => (
            node,
            Err(TransportErrorModel::Protocol("received VoteReply without a preceding Vote request"@)),
        ),
    }
}

/// Hands what reached the node to the node, and returns its answer.
pub fn dispatch_inbound(node: &mut RaftNode, body: InboundMessageBody) -> (answer: Result<
    InboundMessageBody,
    TransportError,
>)
    requires
        acceptable(old(node)@, body.deep_view()),
    ensures
        (final(node)@, outcome(answer)) == inbound_answer(old(node)@, body.deep_view()),
{
    match body {
        InboundMessageBody::Raft(msg) => match dispatch_raft_message(node, msg) {
            Ok(reply) => Ok(InboundMessageBody::Raft(reply)),
            Err(error) => Err(error),
        },
        InboundMessageBody::Vote(req) => Ok(InboundMessageBody::VoteReply(node.handle_tx_vote_request(&req))),
        InboundMessageBody::VoteReply(_) => Err(
            TransportError::Protocol("received VoteReply without a preceding Vote request".to_owned()),
        ),
    }
}

/// What a node that serves its peers meets.
#[derive(Debug, PartialEq)]
pub enum ServeEvent {
    /// It was told to stop.
    Stopped,
    /// Nobody can send to it any more.
    Closed,
    /// Something reached it.
    Message(InboundMessageBody),
}

/// What a node that serves its peers does.
#[derive(Debug, PartialEq)]
pub enum ServeAction {
    /// It ends.
    Finish(Result<(), TransportError>),
    /// It answers and goes on.
    Reply(Result<InboundMessageBody, TransportError>),
}

/// One turn of a node that serves its peers.
pub fn serve_step(node: &mut RaftNode, event: ServeEvent) -> (action: ServeAction)
    requires
        event matches ServeEvent::Message(body) ==> acceptable(old(node)@, body.deep_view()),
    ensures
        match event {
            ServeEvent::Stopped => final(node)@ == old(node)@ && action matches ServeAction::Finish(Err(
                TransportError::Canceled,
            )),
            ServeEvent::Closed => final(node)@ == old(node)@ && action matches ServeAction::Finish(Ok(_)),
            ServeEvent::Message(body) => action matches ServeAction::Reply(answer) && (final(node)@, outcome(answer))
                == inbound_answer(old(node)@, body.deep_view()),
        },
{
    match event {
        ServeEvent::Stopped => ServeAction::Finish(Err(TransportError::Canceled)),
        ServeEvent::Closed => ServeAction::Finish(Ok(())),
        ServeEvent::Message(body) => ServeAction::Reply(dispatch_inbound(node, body)),
    }
}

// ---- sending ----

/// The network: the channel on which each registered node receives, and how
/// long a sender waits for a reply.
#[derive(Debug, PartialEq)]
pub struct Network {
    pub peers: TextMap<u64>,
    pub next_channel: u64,
    pub rpc_timeout: Duration,
}

#[verifier::ext_equal]
pub struct NetworkModel {
    pub peers: Map<Seq<char>, u64>,
    pub next_channel: u64,
    pub rpc_timeout: Duration,
}

impl View for Network {
    type V = NetworkModel;

    open spec fn view(&self) -> NetworkModel {
        NetworkModel { peers: self.peers@, next_channel: self.next_channel, rpc_timeout: self.rpc_timeout }
    }
}

impl NetworkModel {
    /// Channels are numbered in the order in which they were handed out.
    pub open spec fn wf(self) -> bool {
        forall|id: Seq<char>| #[trigger] self.peers.contains_key(id) ==> self.peers[id] < self.next_channel
    }

    /// The network with a fresh channel for `id`.
    pub open spec fn registered(self, id: Seq<char>) -> NetworkModel {
        NetworkModel {
            peers: self.peers.insert(id, self.next_channel),
            next_channel: (self.next_channel + 1) as u64,
            ..self
        }
    }
}

impl Network {
    /// A network without nodes, on which a sender waits two seconds.
    pub fn new() -> (network: Self)
        ensures
            network@ == (NetworkModel {
                peers: Map::empty(),
                next_channel: 0,
                rpc_timeout: Duration { nanos: 2_000_000_000 },
            }),
            network@.wf(),
    {
        Network::with_rpc_timeout(Duration::from_secs(2))
    }

    /// A network without nodes, on which a sender waits for `rpc_timeout`.
    pub fn with_rpc_timeout(rpc_timeout: Duration) -> (network: Self)
        ensures
            network@ == (NetworkModel { peers: Map::empty(), next_channel: 0, rpc_timeout }),
            network@.wf(),
    {
        Network { peers: TextMap::new(), next_channel: 0, rpc_timeout }
    }

    /// Gives the node a channel of its own, in place of any it had, and returns
    /// the number of the channel.
    pub fn register(&mut self, node_id: &str) -> (channel: u64)
        requires
            old(self)@.wf(),
            old(self)@.next_channel < u64::MAX,
        ensures
            final(self)@ == old(self)@.registered(node_id@),
            final(self)@.wf(),
            channel == old(self)@.next_channel,
    {
        let channel: u64 = self.next_channel;
        self.peers.insert(node_id.to_owned(), channel);
        self.next_channel = channel + 1;
        assert(self@ =~= old(self)@.registered(node_id@));
        channel
    }

    /// Gives a node that was restarted a fresh channel.
    pub fn re_register(&mut self, node_id: &str) -> (channel: u64)
        requires
            old(self)@.wf(),
            old(self)@.next_channel < u64::MAX,
        ensures
            final(self)@ == old(self)@.registered(node_id@),
            final(self)@.wf(),
            channel == old(self)@.next_channel,
    {
        self.register(node_id)
    }

    /// The channel of a node, if the node is registered.
    pub fn lookup(&self, to: &str) -> (channel: Option<u64>)
        ensures
            match channel {
                Some(c) => self@.peers.contains_key(to@) && c == self@.peers[to@],
                None => !self@.peers.contains_key(to@),
            },
    {
        match self.peers.get(to) {
            Some(channel) => Some(*channel),
            None => None,
        }
    }

    /// How long a sender waits for a reply.
    pub fn rpc_timeout(&self) -> (timeout: Duration)
        ensures
            timeout == self@.rpc_timeout,
    {
        self.rpc_timeout
    }
}

impl Default for Network {
    fn default() -> (network: Self)
        ensures
            network@ == (NetworkModel {
                peers: Map::empty(),
                next_channel: 0,
                rpc_timeout: Duration { nanos: 2_000_000_000 },
            }),
            network@.wf(),
    {
        Network::new()
    }
}

/// What a link does with a message.
#[derive(Debug, Clone, Copy, PartialEq, Eq, Structural)]
pub enum ScheduleOutcome {
    Deliver,
    /// The message is lost.
    Drop,
    /// The message arrives after that time.
    Delay(Duration),
    /// The message arrives, and after that time once more.
    Duplicate(Duration),
}

/// How to send a message.
#[derive(Debug, PartialEq)]
pub enum SendPlan {
    /// Fail at once.
    Fail(TransportError),
    /// Wait that long, then fail.
    FailAfter(Duration, TransportError),
    /// Wait for `pause`, put the message on the channel and wait for the reply
    /// for at most `timeout`. Put it on the channel once more after `again`,
    /// without waiting for a reply to that.
    Send { channel: u64, pause: Duration, again: Option<Duration>, timeout: Duration },
}

/// The message of an error of a peer that is not registered.
pub open spec fn unregistered_text(to: Seq<char>) -> Seq<char> {
    "peer "@ + to + " not registered"@
}

/// How a message to `to` is sent over a link that does `outcome` with it.
pub open spec fn is_plan(network: NetworkModel, to: Seq<char>, outcome: ScheduleOutcome, plan: SendPlan) -> bool {
    if !network.peers.contains_key(to) {
        plan matches SendPlan::Fail(TransportError::Unreachable(text)) && text@ == unregistered_text(to)
    } else {
        match outcome {
            ScheduleOutcome::Drop => plan == SendPlan::FailAfter(
                network.rpc_timeout,
                TransportError::Timeout(network.rpc_timeout),
            ),
            ScheduleOutcome::Deliver => plan == (SendPlan::Send {
                channel: network.peers[to],
                pause: Duration { nanos: 0 },
                again: None,
                timeout: network.rpc_timeout,
            }),
            ScheduleOutcome::Delay(delay) => plan == (SendPlan::Send {
                channel: network.peers[to],
                pause: delay,
                again: None,
                timeout: network.rpc_timeout,
            }),
            ScheduleOutcome::Duplicate(delay) => plan == (SendPlan::Send {
                channel: network.peers[to],
                pause: Duration { nanos: 0 },
                again: Some(delay),
                timeout: network.rpc_timeout,
            }),
        }
    }
}

/// Plans how to send a message to `to` over a link that does `outcome` with it.
pub fn plan_send(network: &Network, to: &str, outcome: ScheduleOutcome) -> (plan: SendPlan)
    ensures
        is_plan(network@, to@, outcome, plan),
{
    let timeout = network.rpc_timeout();
    match network.lookup(to) {
        None => {
            let mut text = "peer ".to_owned();
            text.append(to);
            text.append(" not registered");
            SendPlan::Fail(TransportError::Unreachable(text))
        },
        Some(channel) => match outcome {
            ScheduleOutcome::Drop => SendPlan::FailAfter(timeout, TransportError::Timeout(timeout)),
            ScheduleOutcome::Deliver => SendPlan::Send {
                channel,
                pause: Duration { nanos: 0 },
                again: None,
                timeout,
            },
            ScheduleOutcome::Delay(delay) => SendPlan::Send { channel, pause: delay, again: None, timeout },
            ScheduleOutcome::Duplicate(delay) => SendPlan::Send {
                channel,
                pause: Duration { nanos: 0 },
                again: Some(delay),
                timeout,
            },
        },
    }
}

/// What became of a message that was put on a channel.
#[derive(Debug, PartialEq)]
pub enum Exchange {
    /// The receiver is gone.
    Closed,
    /// The receiver dropped the message without a reply.
    Dropped,
    /// No reply came in time.
    TimedOut,
    /// The receiver answered.
    Answered(Result<InboundMessageBody, TransportError>),
}

pub enum ExchangeModel {
    Closed,
    Dropped,
    TimedOut,
    Answered(Result<InboundMessageBodyModel, TransportErrorModel>),
}

impl DeepView for Exchange {
    type V = ExchangeModel;

    open spec fn deep_view(&self) -> ExchangeModel {
        match self {
            Exchange::Closed => ExchangeModel::Closed,
            Exchange::Dropped => ExchangeModel::Dropped,
            Exchange::TimedOut => ExchangeModel::TimedOut,
            Exchange::Answered(answer) => ExchangeModel::Answered(outcome(*answer)),
        }
    }
}

/// The reply that an exchange brought.
pub open spec fn exchanged(exchange: ExchangeModel, timeout: Duration) -> Result<
    InboundMessageBodyModel,
    TransportErrorModel,
> {
    match exchange {
        ExchangeModel::Closed => Err(TransportErrorModel::Unreachable("peer inbound channel closed"@)),
        ExchangeModel::Dropped => Err(TransportErrorModel::Protocol("reply oneshot canceled before delivery"@)),
        ExchangeModel::TimedOut => Err(TransportErrorModel::Timeout(timeout)),
        ExchangeModel::Answered(answer) => answer,
    }
}

fn settle(exchange: Exchange, timeout: Duration) -> (reply: Result<InboundMessageBody, TransportError>)
    ensures
        outcome(reply) == exchanged(exchange.deep_view(), timeout),
{
    match exchange {
        Exchange::Closed => Err(TransportError::Unreachable("peer inbound channel closed".to_owned())),
        Exchange::Dropped => Err(TransportError::Protocol("reply oneshot canceled before delivery".to_owned())),
        Exchange::TimedOut => Err(TransportError::Timeout(timeout)),
        Exchange::Answered(answer) => answer,
    }
}

/// The reply to a message of the Raft protocol, after the exchange.
pub open spec fn raft_reply(exchange: ExchangeModel, timeout: Duration) -> Result<
    RaftMessageModel,
    TransportErrorModel,
> {
    match exchanged(exchange, timeout) {
        Ok(InboundMessageBodyModel::Raft(reply)) => Ok(reply),
        Ok(InboundMessageBodyModel::Vote(_)) => Err(
            TransportErrorModel::Protocol("raft peer returned a vote request instead of a raft reply"@),
        ),
        Ok(InboundMessageBodyModel::VoteReply(_)) => Err(
            TransportErrorModel::Protocol("raft peer returned a vote reply instead of a raft reply"@),
        ),
        Err(error) => Err(error),
    }
}

/// Takes the reply to a message of the Raft protocol out of what the exchange
/// brought.
pub fn expect_raft_reply(exchange: Exchange, timeout: Duration) -> (reply: Result<RaftMessage, TransportError>)
    ensures
        outcome(reply) == raft_reply(exchange.deep_view(), timeout),
{
    match settle(exchange, timeout) {
        Ok(InboundMessageBody::Raft(reply)) => Ok(reply),
        Ok(InboundMessageBody::Vote(_)) => Err(
            TransportError::Protocol("raft peer returned a vote request instead of a raft reply".to_owned()),
        ),
        Ok(InboundMessageBody::VoteReply(_)) => Err(
            TransportError::Protocol("raft peer returned a vote reply instead of a raft reply".to_owned()),
        ),
        Err(error) => Err(error),
    }
}

/// The reply to a request for a vote on a transaction, after the exchange.
pub open spec fn vote_reply(exchange: ExchangeModel, timeout: Duration) -> Result<
    VoteResponseModel,
    TransportErrorModel,
> {
    match exchanged(exchange, timeout) {
        Ok(InboundMessageBodyModel::VoteReply(reply)) => Ok(reply),
        Ok(InboundMessageBodyModel::Vote(_)) => Err(
            TransportErrorModel::Protocol("vote peer returned a vote request instead of a vote reply"@),
        ),
        Ok(InboundMessageBodyModel::Raft(other)) => Err(
            TransportErrorModel::Protocol("vote peer returned non-vote reply: "@ + debug_variant(other)),
        ),
        Err(error) => Err(error),
    }
}

/// Takes the reply to a request for a vote on a transaction out of what the
/// exchange brought.
pub fn expect_vote_reply(exchange: Exchange, timeout: Duration) -> (reply: Result<VoteResponse, TransportError>)
    ensures
        outcome(reply) == vote_reply(exchange.deep_view(), timeout),
{
    match settle(exchange, timeout) {
        Ok(InboundMessageBody::VoteReply(reply)) => Ok(reply),
        Ok(InboundMessageBody::Vote(_)) => Err(
            TransportError::Protocol("vote peer returned a vote request instead of a vote reply".to_owned()),
        ),
        Ok(InboundMessageBody::Raft(other)) => {
            let mut text = "vote peer returned non-vote reply: ".to_owned();
            let variant = format_variant(&other);
            text.append(variant.as_str());
            Err(TransportError::Protocol(text))
        },
        Err(error) => Err(error),
    }
}

/// A node's end of the network. It holds the channel on which the node receives
/// until the node serves it.
#[derive(Debug, Clone, PartialEq)]
pub struct SimTransport {
    pub self_id: String,
    pub inbound: Option<u64>,
}

impl SimTransport {
    /// The end of the node `self_id`, which receives on `inbound`.
    pub fn new(self_id: String, inbound: u64) -> (transport: Self)
        ensures
            transport == (SimTransport { self_id, inbound: Some(inbound) }),
    {
        SimTransport { self_id, inbound: Some(inbound) }
    }

    /// Installs a fresh channel. The one before must have been taken.
    pub fn replace_inbound(&mut self, inbound: u64)
        requires
            old(self).inbound is None,
        ensures
            final(self).self_id == old(self).self_id,
            final(self).inbound == Some(inbound),
    {
        self.inbound = Some(inbound);
    }

    /// Takes the channel to serve it.
    pub fn take_inbound(&mut self) -> (inbound: Option<u64>)
        ensures
            inbound == old(self).inbound,
            final(self).self_id == old(self).self_id,
            final(self).inbound is None,
    {
        self.inbound.take()
    }
}

// ---- laws ----

/// A node that registers again is no longer reached on its old channel, nor is
/// any other node: every channel that was handed out is new.
pub proof fn channels_are_fresh(network: NetworkModel, id: Seq<char>, other: Seq<char>)
    requires
        network.wf(),
        network.next_channel < u64::MAX,
        network.peers.contains_key(other),
    ensures
        network.registered(id).wf(),
        network.registered(id).peers[id] != network.peers[other],
        other != id ==> network.registered(id).peers[other] == network.peers[other],
{
}

/// What a node answers to a request of the Raft protocol is taken by the sender
/// as it is.
pub proof fn answers_reach_the_sender(node: NodeModel, msg: RaftMessageModel, timeout: Duration)
    requires
        raft_answer(node, msg).1 is Ok,
    ensures
        raft_reply(
            ExchangeModel::Answered(inbound_answer(node, InboundMessageBodyModel::Raft(msg)).1),
            timeout,
        ) == raft_answer(node, msg).1,
{
}

/// A vote on a transaction reaches the sender as it is.
pub proof fn votes_reach_the_sender(node: NodeModel, req: VoteRequestModel, timeout: Duration)
    ensures
        vote_reply(
            ExchangeModel::Answered(inbound_answer(node, InboundMessageBodyModel::Vote(req)).1),
            timeout,
        ) == Ok::<VoteResponseModel, TransportErrorModel>(node.tx_vote(req).1),
{
}

/// A reply that reaches a node unasked changes nothing and is refused.
pub proof fn stray_replies_change_nothing(node: NodeModel, body: InboundMessageBodyModel)
    requires
        body is VoteReply || (body matches InboundMessageBodyModel::Raft(msg) && (msg is VoteResponse || msg is AppendReply
            || msg is InstallSnapshotReply || msg is PreVoteResponse)),
    ensures
        inbound_answer(node, body).0 == node,
        inbound_answer(node, body).1 matches Err(TransportErrorModel::Protocol(_)),
{
}

/// A request goes to the part of the node that it is for, and the answer is of
/// its kind: a vote for a vote, a probe for a probe, entries for entries, a
/// snapshot for a snapshot.
pub proof fn requests_get_answers_of_their_kind(node: NodeModel, msg: RaftMessageModel)
    ensures
        ({
            let (after, answer) = raft_answer(node, msg);
            &&& msg matches RaftMessageModel::RequestVote(args) ==> after == node.request_vote(args).0 && (
            answer matches Ok(RaftMessageModel::VoteResponse(reply)) && reply == node.request_vote(args).1)
            &&& msg matches RaftMessageModel::RequestPreVote(args) ==> after == node.pre_vote(args).0 && (
            answer matches Ok(RaftMessageModel::PreVoteResponse(reply)) && reply == node.pre_vote(args).1)
            &&& msg matches RaftMessageModel::AppendEntries(args) ==> after == node.append_entries(args).0 && (
            answer matches Ok(RaftMessageModel::AppendReply(reply)) && reply == node.append_entries(args).1)
            &&& msg matches RaftMessageModel::InstallSnapshot(args) ==> after == node.install_snapshot(args).0 && (
            answer matches Ok(RaftMessageModel::InstallSnapshotReply(reply)) && reply == node.install_snapshot(
                args,
            ).1)
        }),
{
}

/// What becomes of a message on a link. A node that is not registered cannot be
/// sent to. Otherwise a lost message fails when the sender has waited in full; one
/// that is not lost is put on the node's own channel, at once unless it is
/// delayed and then after the delay, and once more only where it is doubled.
pub proof fn links_do_what_is_scheduled(
    network: NetworkModel,
    to: Seq<char>,
    outcome: ScheduleOutcome,
    plan: SendPlan,
)
    requires
        is_plan(network, to, outcome, plan),
    ensures
        plan is Fail <==> !network.peers.contains_key(to),
        network.peers.contains_key(to) ==> {
            &&& plan is FailAfter <==> outcome == ScheduleOutcome::Drop
            &&& plan matches SendPlan::FailAfter(pause, error) ==> pause == network.rpc_timeout && error
                == TransportError::Timeout(network.rpc_timeout)
            &&& plan matches SendPlan::Send { channel, pause, again, timeout } ==> {
                &&& channel == network.peers[to]
                &&& timeout == network.rpc_timeout
                &&& outcome matches ScheduleOutcome::Delay(delay) ==> pause == delay
                &&& !(outcome is Delay) ==> pause.nanos == 0
                &&& outcome matches ScheduleOutcome::Duplicate(delay) ==> again == Some(delay)
                &&& !(outcome is Duplicate) ==> again is None
            }
        },
{
}

/// A sender gets the reply that came and no other: what the receiver answered,
/// where it is of the kind that was asked for, and an error otherwise. A missing
/// reply is a timeout of as long as was waited, a closed channel makes the peer
/// unreachable.
pub proof fn senders_get_the_reply_that_came(
    answer: Result<InboundMessageBodyModel, TransportErrorModel>,
    timeout: Duration,
)
    ensures
        ({
            let exchange = ExchangeModel::Answered(answer);
            let raft = raft_reply(exchange, timeout);
            let vote = vote_reply(exchange, timeout);
            &&& raft is Ok <==> (answer matches Ok(InboundMessageBodyModel::Raft(_)))
            &&& vote is Ok <==> (answer matches Ok(InboundMessageBodyModel::VoteReply(_)))
            &&& answer matches Ok(InboundMessageBodyModel::Raft(reply)) ==> raft == Ok::<
                RaftMessageModel,
                TransportErrorModel,
            >(reply)
            &&& answer matches Ok(InboundMessageBodyModel::VoteReply(reply)) ==> vote == Ok::<
                VoteResponseModel,
                TransportErrorModel,
            >(reply)
            &&& answer matches Err(error) ==> raft == Err::<RaftMessageModel, TransportErrorModel>(error) && vote
                == Err::<VoteResponseModel, TransportErrorModel>(error)
            &&& answer is Ok && raft is Err ==> raft->Err_0 is Protocol
            &&& answer is Ok && vote is Err ==> vote->Err_0 is Protocol
        }),
        raft_reply(ExchangeModel::TimedOut, timeout) == Err::<RaftMessageModel, TransportErrorModel>(
            TransportErrorModel::Timeout(timeout),
        ),
        vote_reply(ExchangeModel::TimedOut, timeout) == Err::<VoteResponseModel, TransportErrorModel>(
            TransportErrorModel::Timeout(timeout),
        ),
        raft_reply(ExchangeModel::Closed, timeout) matches Err(TransportErrorModel::Unreachable(_)),
        vote_reply(ExchangeModel::Closed, timeout) matches Err(TransportErrorModel::Unreachable(_)),
        raft_reply(ExchangeModel::Dropped, timeout) matches Err(TransportErrorModel::Protocol(_)),
        vote_reply(ExchangeModel::Dropped, timeout) matches Err(TransportErrorModel::Protocol(_)),
{
}

/// A message can be handed to a node exactly where the log has room for its
/// entries and none of them has the index 0.
pub proof fn acceptable_messages_have_room(node: NodeModel, msg: RaftMessageModel)
    ensures
        acceptable(node, InboundMessageBodyModel::Raft(msg)) <==> match msg {
            RaftMessageModel::AppendEntries(args) => node.log.len() + args.entries.len() < usize::MAX && forall|i: int|
                0 <= i < args.entries.len() ==> (#[trigger] args.entries[i]).index != 0,
            _ => true,
        },
{
}

} // verus!
