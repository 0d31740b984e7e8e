//! Safety checks on a cluster: no two leaders in a term, logs and state machines
//! that do not diverge, committed entries that stay, and transactions with one
//! outcome. The checks only look.

use crate::data::{Duplicate, Same};
use crate::protocol::{Command, CommandModel, Configuration, ConfigurationModel, LogEntryModel, TxDecision};
use crate::raft::node::NodeState;
use crate::raft::sim_harness::{SimCluster, SimNode, SimNodeModel};
use crate::text::push_decimal;
use crate::text_map::TextMap;
use vstd::prelude::*;

verus! {

broadcast use vstd::string::group_string_axioms;

/// What was found wrong, and where.
#[derive(Debug, Clone, PartialEq, Eq)]
pub enum InvariantViolation {
    /// Two or more nodes led the same term.
    ElectionSafety { term: u64, leader_ids: Vec<String> },
    /// Two nodes applied different commands at one index.
    StateMachineSafety { index: u64, node_a: String, node_b: String, a_command: String, b_command: String },
    /// Two nodes hold different committed entries at one index.
    LogMatchingProperty {
        index: u64,
        node_a: String,
        node_b: String,
        a_term: u64,
        b_term: u64,
        a_command: String,
        b_command: String,
    },
    /// A committed entry was lost or overwritten.
    CommittedEntryDurability { index: u64, node_id: String, expected_command: String, actual_command: String },
    /// A transaction has different outcomes on different nodes.
    TwoPhaseCommitAtomicity { tx_id: String, per_node: Vec<(String, String)> },
}

#[verifier::ext_equal]
pub enum ViolationModel {
    ElectionSafety { term: u64, leader_ids: Seq<Seq<char>> },
    StateMachineSafety {
        index: u64,
        node_a: Seq<char>,
        node_b: Seq<char>,
        a_command: Seq<char>,
        b_command: Seq<char>,
    },
    LogMatchingProperty {
        index: u64,
        node_a: Seq<char>,
        node_b: Seq<char>,
        a_term: u64,
        b_term: u64,
        a_command: Seq<char>,
        b_command: Seq<char>,
    },
    CommittedEntryDurability {
        index: u64,
        node_id: Seq<char>,
        expected_command: Seq<char>,
        actual_command: Seq<char>,
    },
    TwoPhaseCommitAtomicity { tx_id: Seq<char>, per_node: Seq<(Seq<char>, Seq<char>)> },
}

impl DeepView for InvariantViolation {
    type V = ViolationModel;

    open spec fn deep_view(&self) -> ViolationModel {
        match self {
            InvariantViolation::ElectionSafety { term, leader_ids } => ViolationModel::ElectionSafety {
                term: *term,
                leader_ids: leader_ids.deep_view(),
            },
            InvariantViolation::StateMachineSafety { index, node_a, node_b, a_command, b_command } =>
                ViolationModel::StateMachineSafety {
                index: *index,
                node_a: node_a@,
                node_b: node_b@,
                a_command: a_command@,
                b_command: b_command@,
            },
            InvariantViolation::LogMatchingProperty {
                index,
                node_a,
                node_b,
                a_term,
                b_term,
                a_command,
                b_command,
            } => ViolationModel::LogMatchingProperty {
                index: *index,
                node_a: node_a@,
                node_b: node_b@,
                a_term: *a_term,
                b_term: *b_term,
                a_command: a_command@,
                b_command: b_command@,
            },
            InvariantViolation::CommittedEntryDurability { index, node_id, expected_command, actual_command } =>
                ViolationModel::CommittedEntryDurability {
                index: *index,
                node_id: node_id@,
                expected_command: expected_command@,
                actual_command: actual_command@,
            },
            InvariantViolation::TwoPhaseCommitAtomicity { tx_id, per_node } =>
                ViolationModel::TwoPhaseCommitAtomicity { tx_id: tx_id@, per_node: per_node.deep_view() },
        }
    }
}

// ---- texts ----

/// How std writes a list of texts for a programmer (`{:?}`).
pub uninterp spec fn debug_texts(texts: Seq<Seq<char>>) -> Seq<char>;

/// `format!` of std with `{:?}`, on a list of texts.
#[verifier::external_body]
fn format_texts(texts: &Vec<String>) -> (text: String)
    ensures
        text@ == debug_texts(texts.deep_view()),
{
    format!("{:?}", texts)
}

/// How std writes a list of pairs of texts for a programmer (`{:?}`).
pub uninterp spec fn debug_pairs(pairs: Seq<(Seq<char>, Seq<char>)>) -> Seq<char>;

/// `format!` of std with `{:?}`, on a list of pairs of texts.
#[verifier::external_body]
fn format_pairs(pairs: &Vec<(String, String)>) -> (text: String)
    ensures
        text@ == debug_pairs(pairs.deep_view()),
{
    format!("{:?}", pairs)
}

/// The name of a decision.
pub open spec fn decision_name(decision: TxDecision) -> Seq<char> {
    match decision {
        TxDecision::Commit => "Commit"@,
        TxDecision::Abort => "Abort"@,
    }
}

fn decision_text(decision: TxDecision) -> (text: &'static str)
    ensures
        text@ == decision_name(decision),
{
    match decision {
        TxDecision::Commit => "Commit",
        TxDecision::Abort => "Abort",
    }
}

/// A command in short.
pub open spec fn command_text(command: CommandModel) -> Seq<char> {
    match command {
        CommandModel::SetKey { key, value } => "Set("@ + key + ","@ + value + ")"@,
        CommandModel::Get { key } => "Get("@ + key + ")"@,
        CommandModel::Delete { key } => "Delete("@ + key + ")"@,
        CommandModel::Compact => "Compact"@,
        CommandModel::BeginTx { tx_id, ops } => "BeginTx("@ + tx_id + ", "@ + crate::text::decimal(ops.len())
            + " ops)"@,
        CommandModel::DecideTx { tx_id, decision } => "DecideTx("@ + tx_id + ","@ + decision_name(decision) + ")"@,
        CommandModel::AbortTx { tx_id } => "AbortTx("@ + tx_id + ")"@,
        CommandModel::AddNode { server } => "AddNode("@ + server.node_id + ","@ + server.addr + ")"@,
        CommandModel::RemoveNode { node_id } => "RemoveNode("@ + node_id + ")"@,
        CommandModel::InstallConfiguration { config } => match config {
            ConfigurationModel::Simple(servers) => "InstallConfiguration(Simple,"@ + crate::text::decimal(
                servers.len(),
            ) + " servers)"@,
            ConfigurationModel::Joint { old, new } => "InstallConfiguration(Joint, old:"@ + crate::text::decimal(
                old.len(),
            ) + " new:"@ + crate::text::decimal(new.len()) + ")"@,
        },
    }
}

/// Writes a command in short.
pub fn fmt_command(cmd: &Command) -> (text: String)
    ensures
        text@ == command_text(cmd.deep_view()),
{
    let mut text: String = String::new();
    match cmd {
        Command::SetKey { key, value } => {
            text = "Set(".to_owned();
            text.append(key.as_str());
            text.append(",");
            text.append(value.as_str());
            text.append(")");
        },
        Command::Get { key } => {
            text = "Get(".to_owned();
            text.append(key.as_str());
            text.append(")");
        },
        Command::Delete { key } => {
            text = "Delete(".to_owned();
            text.append(key.as_str());
            text.append(")");
        },
        Command::Compact => {
            text = "Compact".to_owned();
        },
        Command::BeginTx { tx_id, ops } => {
            text = "BeginTx(".to_owned();
            text.append(tx_id.as_str());
            text.append(", ");
            push_decimal(&mut text, ops.len() as u64);
            text.append(" ops)");
        },
        Command::DecideTx { tx_id, decision } => {
            text = "DecideTx(".to_owned();
            text.append(tx_id.as_str());
            text.append(",");
            text.append(decision_text(*decision));
            text.append(")");
        },
        Command::AbortTx { tx_id } => {
            text = "AbortTx(".to_owned();
            text.append(tx_id.as_str());
            text.append(")");
        },
        Command::AddNode { server } => {
            text = "AddNode(".to_owned();
            text.append(server.node_id.as_str());
            text.append(",");
            text.append(server.addr.as_str());
            text.append(")");
        },
        Command::RemoveNode { node_id } => {
            text = "RemoveNode(".to_owned();
            text.append(node_id.as_str());
            text.append(")");
        },
        Command::InstallConfiguration { config } => {
            match config {
                Configuration::Simple(servers) => {
                    text = "InstallConfiguration(Simple,".to_owned();
                    push_decimal(&mut text, servers.len() as u64);
                    text.append(" servers)");
                },
                Configuration::Joint { old, new } => {
                    text = "InstallConfiguration(Joint, old:".to_owned();
                    push_decimal(&mut text, old.len() as u64);
                    text.append(" new:");
                    push_decimal(&mut text, new.len() as u64);
                    text.append(")");
                },
            }
        },
    }
    text
}

impl ViolationModel {
    /// The message of a violation.
    pub open spec fn message(self) -> Seq<char> {
        match self {
            ViolationModel::ElectionSafety { term, leader_ids } => "ElectionSafety violated: term "@
                + crate::text::decimal(term as nat) + " had "@ + crate::text::decimal(leader_ids.len())
                + " leaders ("@ + debug_texts(leader_ids) + ")"@,
            ViolationModel::StateMachineSafety { index, node_a, node_b, a_command, b_command } =>
                "StateMachineSafety violated at index "@ + crate::text::decimal(index as nat) + ": "@ + node_a
                + " has '"@ + a_command + "', "@ + node_b + " has '"@ + b_command + "'"@,
            ViolationModel::LogMatchingProperty {
                index,
                node_a,
                node_b,
                a_term,
                b_term,
                a_command,
                b_command,
            } => "LogMatchingProperty violated at index "@ + crate::text::decimal(index as nat) + ": "@ + node_a
                + " (term="@ + crate::text::decimal(a_term as nat) + ", cmd="@ + a_command + ") vs "@ + node_b
                + " (term="@ + crate::text::decimal(b_term as nat) + ", cmd="@ + b_command + ")"@,
            ViolationModel::CommittedEntryDurability { index, node_id, expected_command, actual_command } =>
                "CommittedEntryDurability violated at index "@ + crate::text::decimal(index as nat) + " on node "@
                + node_id + ": expected '"@ + expected_command + "', got '"@ + actual_command + "'"@,
            ViolationModel::TwoPhaseCommitAtomicity { tx_id, per_node } => "2PC atomicity violated for tx "@
                + tx_id + ": per-node outcomes = "@ + debug_pairs(per_node),
        }
    }
}

impl InvariantViolation {
    /// The message of the violation.
    pub fn to_string(&self) -> (text: String)
        ensures
            text@ == self.deep_view().message(),
    {
        let mut text: String = String::new();
        match self {
            InvariantViolation::ElectionSafety { term, leader_ids } => {
                text = "ElectionSafety violated: term ".to_owned();
                push_decimal(&mut text, *term);
                text.append(" had ");
                push_decimal(&mut text, leader_ids.len() as u64);
                text.append(" leaders (");
                text.append(format_texts(leader_ids).as_str());
                text.append(")");
            },
            InvariantViolation::StateMachineSafety { index, node_a, node_b, a_command, b_command } => {
                text = "StateMachineSafety violated at index ".to_owned();
                push_decimal(&mut text, *index);
                text.append(": ");
                text.append(node_a.as_str());
                text.append(" has '");
                text.append(a_command.as_str());
                text.append("', ");
                text.append(node_b.as_str());
                text.append(" has '");
                text.append(b_command.as_str());
                text.append("'");
            },
            InvariantViolation::LogMatchingProperty {
                index,
                node_a,
                node_b,
                a_term,
                b_term,
                a_command,
                b_command,
            } => {
                text = "LogMatchingProperty violated at index ".to_owned();
                push_decimal(&mut text, *index);
                text.append(": ");
                text.append(node_a.as_str());
                text.append(" (term=");
                push_decimal(&mut text, *a_term);
                text.append(", cmd=");
                text.append(a_command.as_str());
                text.append(") vs ");
                text.append(node_b.as_str());
                text.append(" (term=");
                push_decimal(&mut text, *b_term);
                text.append(", cmd=");
                text.append(b_command.as_str());
                text.append(")");
            },
            InvariantViolation::CommittedEntryDurability { index, node_id, expected_command, actual_command } => {
                text = "CommittedEntryDurability violated at index ".to_owned();
                push_decimal(&mut text, *index);
                text.append(" on node ");
                text.append(node_id.as_str());
                text.append(": expected '");
                text.append(expected_command.as_str());
                text.append("', got '");
                text.append(actual_command.as_str());
                text.append("'");
            },
            InvariantViolation::TwoPhaseCommitAtomicity { tx_id, per_node } => {
                text = "2PC atomicity violated for tx ".to_owned();
                text.append(tx_id.as_str());
                text.append(": per-node outcomes = ");
                text.append(format_pairs(per_node).as_str());
            },
        }
        text
    }
}

// ---- election safety ----

/// The names of the nodes that lead `term`, in order.
pub open spec fn leaders_of(nodes: Seq<SimNodeModel>, term: u64) -> Seq<Seq<char>>
    decreases nodes.len(),
{
    if nodes.len() == 0 {
        Seq::empty()
    } else {
        let before = leaders_of(nodes.drop_last(), term);
        let node = nodes.last();
        if node.raft.state == NodeState::Leader && node.raft.current_term == term {
            before.push(node.id)
        } else {
            before
        }
    }
}

/// No term has two leaders.
pub open spec fn election_safe(nodes: Seq<SimNodeModel>) -> bool {
    forall|term: u64| (#[trigger] leaders_of(nodes, term)).len() <= 1
}

/// The first term with two leaders, and its leaders.
pub open spec fn is_election_violation(nodes: Seq<SimNodeModel>, v: ViolationModel) -> bool {
    v matches ViolationModel::ElectionSafety { term, leader_ids } && {
        &&& leader_ids == leaders_of(nodes, term)
        &&& leader_ids.len() > 1
        &&& forall|t: u64| t < term ==> (#[trigger] leaders_of(nodes, t)).len() <= 1
    }
}

/// The names of the nodes that lead `term`.
fn leaders_in(cluster: &SimCluster, term: u64) -> (ids: Vec<String>)
    ensures
        ids.deep_view() == leaders_of(cluster@, term),
{
    let ghost nodes = cluster@;
    let mut ids: Vec<String> = Vec::new();
    let mut i: usize = 0;
    assert(nodes.take(0) =~= Seq::<SimNodeModel>::empty());
    assert(ids.deep_view() =~= Seq::<Seq<char>>::empty());
    while i < cluster.nodes.len()
        invariant
            i <= cluster.nodes@.len(),
            nodes == cluster@,
            ids.deep_view() == leaders_of(nodes.take(i as int), term),
        decreases cluster.nodes@.len() - i,
    {
        let node = &cluster.nodes[i];
        let ghost before = ids.deep_view();
        proof {
            assert(nodes.take(i + 1).drop_last() =~= nodes.take(i as int));
            assert(nodes.take(i + 1).last() == node.deep_view());
        }
        if node.raft.state == NodeState::Leader && node.raft.current_term == term {
            ids.push(node.id.clone());
            assert(ids.deep_view() =~= before.push(node.id@));
        }
        i = i + 1;
    }
    assert(nodes.take(nodes.len() as int) =~= nodes);
    ids
}

proof fn a_term_with_leaders_has_a_leader(nodes: Seq<SimNodeModel>, term: u64)
    requires
        leaders_of(nodes, term).len() > 0,
    ensures
        exists|i: int|
            0 <= i < nodes.len() && (#[trigger] nodes[i]).raft.state == NodeState::Leader && nodes[i].raft.current_term
                == term,
    decreases nodes.len(),
{
    let node = nodes.last();
    if node.raft.state == NodeState::Leader && node.raft.current_term == term {
        assert(nodes[nodes.len() - 1] == node);
    } else {
        let rest = nodes.drop_last();
        a_term_with_leaders_has_a_leader(rest, term);
        let i = choose|i: int|
            0 <= i < rest.len() && (#[trigger] rest[i]).raft.state == NodeState::Leader && rest[i].raft.current_term
                == term;
        assert(nodes[i] == rest[i]);
    }
}

/// Checks that no term has two leaders.
pub fn check_election_safety(cluster: &SimCluster) -> (checked: Result<(), InvariantViolation>)
    ensures
        checked is Ok <==> election_safe(cluster@),
        checked matches Err(v) ==> is_election_violation(cluster@, v.deep_view()),
{
    let ghost nodes = cluster@;
    let mut worst: Option<u64> = None;
    let mut i: usize = 0;
    while i < cluster.nodes.len()
        invariant
            i <= cluster.nodes@.len(),
            nodes == cluster@,
            worst matches Some(term) ==> leaders_of(nodes, term).len() > 1,
            forall|j: int|
                0 <= j < i && (#[trigger] nodes[j]).raft.state == NodeState::Leader && leaders_of(
                    nodes,
                    nodes[j].raft.current_term,
                ).len() > 1 ==> (worst matches Some(term) && term <= nodes[j].raft.current_term),
        decreases cluster.nodes@.len() - i,
    {
        let node = &cluster.nodes[i];
        assert(nodes[i as int] == node.deep_view());
        if node.raft.state == NodeState::Leader {
            let term: u64 = node.raft.current_term;
            let earlier = match worst {
                Some(w) => term < w,
                None => true,
            };
            if earlier && leaders_in(cluster, term).len() > 1 {
                worst = Some(term);
            }
        }
        i = i + 1;
    }
    proof {
        assert forall|t: u64| (#[trigger] leaders_of(nodes, t)).len() > 1 implies (worst matches Some(term) && term
            <= t) by {
            a_term_with_leaders_has_a_leader(nodes, t);
            let j = choose|j: int|
                0 <= j < nodes.len() && (#[trigger] nodes[j]).raft.state == NodeState::Leader
                    && nodes[j].raft.current_term == t;
            assert(nodes[j].raft.current_term == t);
        }
    }
    match worst {
        Some(term) => Err(InvariantViolation::ElectionSafety { term, leader_ids: leaders_in(cluster, term) }),
        None => Ok(()),
    }
}

// ---- divergence of logs ----

/// How far a node has come: its commit index, or its last applied index.
pub open spec fn reach(node: SimNodeModel, committed: bool) -> u64 {
    if committed {
        node.raft.commit_index
    } else {
        node.raft.last_applied
    }
}

/// How far two nodes have both come.
pub open spec fn common_reach(a: SimNodeModel, b: SimNodeModel, committed: bool) -> u64 {
    if reach(a, committed) < reach(b, committed) {
        reach(a, committed)
    } else {
        reach(b, committed)
    }
}

/// Two entries differ: committed ones in their term or command, applied ones in
/// their command.
pub open spec fn differ(a: LogEntryModel, b: LogEntryModel, committed: bool) -> bool {
    (committed && a.term != b.term) || a.command != b.command
}

/// Two nodes, the first before the second, have both come past `k` and differ
/// there.
pub open spec fn diverge(nodes: Seq<SimNodeModel>, committed: bool, i: int, j: int, k: int) -> bool {
    &&& 0 <= i < j < nodes.len()
    &&& 0 <= k < common_reach(nodes[i], nodes[j], committed)
    &&& differ(nodes[i].raft.log[k], nodes[j].raft.log[k], committed)
}

/// One place comes before another: an earlier first node, then an earlier second
/// node, then an earlier entry.
pub open spec fn before_place(i: int, j: int, k: int, i2: int, j2: int, k2: int) -> bool {
    i < i2 || (i == i2 && (j < j2 || (j == j2 && k < k2)))
}

/// The first place where two nodes differ.
pub open spec fn is_first_divergence(nodes: Seq<SimNodeModel>, committed: bool, i: int, j: int, k: int) -> bool {
    &&& diverge(nodes, committed, i, j, k)
    &&& forall|i2: int, j2: int, k2: int|
        #[trigger] diverge(nodes, committed, i2, j2, k2) ==> !before_place(i2, j2, k2, i, j, k)
}

/// No two nodes differ.
pub open spec fn no_divergence(nodes: Seq<SimNodeModel>, committed: bool) -> bool {
    forall|i: int, j: int, k: int| !#[trigger] diverge(nodes, committed, i, j, k)
}

/// What two nodes have both come past stands in their logs.
pub open spec fn logs_reach(nodes: Seq<SimNodeModel>, committed: bool) -> bool {
    forall|i: int, j: int|
        #![trigger common_reach(nodes[i], nodes[j], committed)]
        0 <= i < j < nodes.len() ==> {
            &&& common_reach(nodes[i], nodes[j], committed) <= nodes[i].raft.log.len()
            &&& common_reach(nodes[i], nodes[j], committed) <= nodes[j].raft.log.len()
        }
}

/// How far a node has come.
fn reach_of(node: &SimNode, committed: bool) -> (index: u64)
    ensures
        index == reach(node.deep_view(), committed),
{
    if committed {
        node.raft.commit_index
    } else {
        node.raft.last_applied
    }
}

/// The first entry in which two nodes differ.
fn divergence_of(cluster: &SimCluster, committed: bool, i: usize, j: usize) -> (found: Option<usize>)
    requires
        i < j < cluster@.len(),
        logs_reach(cluster@, committed),
    ensures
        match found {
            Some(k) => diverge(cluster@, committed, i as int, j as int, k as int) && forall|k2: int|
                0 <= k2 < k ==> !#[trigger] diverge(cluster@, committed, i as int, j as int, k2),
            None => forall|k2: int| !#[trigger] diverge(cluster@, committed, i as int, j as int, k2),
        },
{
    let a = &cluster.nodes[i];
    let b = &cluster.nodes[j];
    let ghost nodes = cluster@;
    proof {
        assert(nodes[i as int] == a.deep_view());
        assert(nodes[j as int] == b.deep_view());
        assert(common_reach(nodes[i as int], nodes[j as int], committed) <= nodes[i as int].raft.log.len());
    }
    let reach_a: u64 = reach_of(a, committed);
    let reach_b: u64 = reach_of(b, committed);
    let limit: u64 = if reach_a < reach_b {
        reach_a
    } else {
        reach_b
    };
    let len: usize = a.raft.log.len();
    let mut k: usize = 0;
    while (k as u64) < limit
        invariant
            i < j < nodes.len(),
            nodes == cluster@,
            nodes[i as int] == a.deep_view(),
            nodes[j as int] == b.deep_view(),
            limit == common_reach(nodes[i as int], nodes[j as int], committed),
            k <= limit <= a.raft.log@.len() == len,
            limit <= b.raft.log@.len(),
            forall|k2: int| 0 <= k2 < k ==> !#[trigger] diverge(nodes, committed, i as int, j as int, k2),
        decreases limit - k,
    {
        let ea = &a.raft.log[k];
        let eb = &b.raft.log[k];
        proof {
            assert(nodes[i as int].raft.log[k as int] == ea.deep_view());
            assert(nodes[j as int].raft.log[k as int] == eb.deep_view());
        }
        if (committed && ea.term != eb.term) || !ea.command.same(&eb.command) {
            assert(diverge(nodes, committed, i as int, j as int, k as int));
            return Some(k);
        }
        k = k + 1;
    }
    None
}

/// The first place where two nodes differ.
fn first_divergence(cluster: &SimCluster, committed: bool) -> (found: Option<(usize, usize, usize)>)
    requires
        logs_reach(cluster@, committed),
    ensures
        match found {
            Some((i, j, k)) => is_first_divergence(cluster@, committed, i as int, j as int, k as int),
            None => no_divergence(cluster@, committed),
        },
{
    let n: usize = cluster.nodes.len();
    let mut i: usize = 0;
    while i < n
        invariant
            i <= n == cluster@.len(),
            logs_reach(cluster@, committed),
            forall|i2: int, j2: int, k2: int| #[trigger]
                diverge(cluster@, committed, i2, j2, k2) ==> i2 >= i,
        decreases n - i,
    {
        let mut j: usize = i + 1;
        while j < n
            invariant
                i < j <= n == cluster@.len(),
                logs_reach(cluster@, committed),
                forall|i2: int, j2: int, k2: int| #[trigger]
                    diverge(cluster@, committed, i2, j2, k2) ==> i2 > i || (i2 == i && j2 >= j),
            decreases n - j,
        {
            match divergence_of(cluster, committed, i, j) {
                Some(k) => {
                    return Some((i, j, k));
                },
                None => {},
            }
            j = j + 1;
        }
        i = i + 1;
    }
    None
}

/// The first place where committed entries differ.
pub open spec fn is_log_violation(nodes: Seq<SimNodeModel>, v: ViolationModel) -> bool {
    exists|i: int, j: int, k: int| #[trigger]
        is_first_divergence(nodes, true, i, j, k) && v == (ViolationModel::LogMatchingProperty {
            index: (k + 1) as u64,
            node_a: nodes[i].id,
            node_b: nodes[j].id,
            a_term: nodes[i].raft.log[k].term,
            b_term: nodes[j].raft.log[k].term,
            a_command: command_text(nodes[i].raft.log[k].command),
            b_command: command_text(nodes[j].raft.log[k].command),
        })
}

/// Checks that no two nodes hold different entries that both have committed.
pub fn check_log_matching_property(cluster: &SimCluster) -> (checked: Result<(), InvariantViolation>)
    requires
        logs_reach(cluster@, true),
    ensures
        checked is Ok <==> no_divergence(cluster@, true),
        checked matches Err(v) ==> is_log_violation(cluster@, v.deep_view()),
{
    match first_divergence(cluster, true) {
        None => Ok(()),
        Some((i, j, k)) => {
            let a = &cluster.nodes[i];
            let b = &cluster.nodes[j];
            proof {
                let nodes = cluster@;
                assert(is_first_divergence(nodes, true, i as int, j as int, k as int));
                assert(diverge(nodes, true, i as int, j as int, k as int));
                assert(nodes[i as int] == a.deep_view());
                assert(nodes[j as int] == b.deep_view());
                assert(common_reach(nodes[i as int], nodes[j as int], true) <= nodes[i as int].raft.log.len());
                assert(nodes[i as int].raft.log[k as int] == a.raft.log@[k as int].deep_view());
                assert(nodes[j as int].raft.log[k as int] == b.raft.log@[k as int].deep_view());
            }
            let ea = &a.raft.log[k];
            let eb = &b.raft.log[k];
            Err(
                InvariantViolation::LogMatchingProperty {
                    index: k as u64 + 1,
                    node_a: a.id.clone(),
                    node_b: b.id.clone(),
                    a_term: ea.term,
                    b_term: eb.term,
                    a_command: fmt_command(&ea.command),
                    b_command: fmt_command(&eb.command),
                },
            )
        },
    }
}

/// The first place where applied commands differ.
pub open spec fn is_apply_violation(nodes: Seq<SimNodeModel>, v: ViolationModel) -> bool {
    exists|i: int, j: int, k: int| #[trigger]
        is_first_divergence(nodes, false, i, j, k) && v == (ViolationModel::StateMachineSafety {
            index: (k + 1) as u64,
            node_a: nodes[i].id,
            node_b: nodes[j].id,
            a_command: command_text(nodes[i].raft.log[k].command),
            b_command: command_text(nodes[j].raft.log[k].command),
        })
}

/// Checks that no two nodes have applied different commands at one index.
pub fn check_state_machine_safety(cluster: &SimCluster) -> (checked: Result<(), InvariantViolation>)
    requires
        logs_reach(cluster@, false),
    ensures
        checked is Ok <==> no_divergence(cluster@, false),
        checked matches Err(v) ==> is_apply_violation(cluster@, v.deep_view()),
{
    match first_divergence(cluster, false) {
        None => Ok(()),
        Some((i, j, k)) => {
            let a = &cluster.nodes[i];
            let b = &cluster.nodes[j];
            proof {
                let nodes = cluster@;
                assert(is_first_divergence(nodes, false, i as int, j as int, k as int));
                assert(diverge(nodes, false, i as int, j as int, k as int));
                assert(nodes[i as int] == a.deep_view());
                assert(nodes[j as int] == b.deep_view());
                assert(common_reach(nodes[i as int], nodes[j as int], false) <= nodes[i as int].raft.log.len());
                assert(nodes[i as int].raft.log[k as int] == a.raft.log@[k as int].deep_view());
                assert(nodes[j as int].raft.log[k as int] == b.raft.log@[k as int].deep_view());
            }
            Err(
                InvariantViolation::StateMachineSafety {
                    index: k as u64 + 1,
                    node_a: a.id.clone(),
                    node_b: b.id.clone(),
                    a_command: fmt_command(&a.raft.log[k].command),
                    b_command: fmt_command(&b.raft.log[k].command),
                },
            )
        },
    }
}

// ---- durability ----

/// The lowest commit index of all nodes.
pub open spec fn lowest_commit(nodes: Seq<SimNodeModel>) -> u64
    decreases nodes.len(),
{
    if nodes.len() == 0 {
        u64::MAX
    } else if nodes.last().raft.commit_index < lowest_commit(nodes.drop_last()) {
        nodes.last().raft.commit_index
    } else {
        lowest_commit(nodes.drop_last())
    }
}

/// The first of the nodes with the highest commit index.
pub open spec fn reference_node(nodes: Seq<SimNodeModel>) -> int
    decreases nodes.len(),
{
    if nodes.len() <= 1 {
        0
    } else {
        let before = reference_node(nodes.drop_last());
        if nodes.last().raft.commit_index > nodes[before].raft.commit_index {
            nodes.len() - 1
        } else {
            before
        }
    }
}

/// The entries that every node has committed, as the reference node holds them.
pub open spec fn committed_by_all(nodes: Seq<SimNodeModel>) -> Seq<LogEntryModel> {
    let log = nodes[reference_node(nodes)].raft.log;
    let lowest = lowest_commit(nodes);
    if lowest == u64::MAX {
        Seq::empty()
    } else if lowest < log.len() {
        log.take(lowest as int)
    } else {
        log
    }
}

/// Node `i` does not hold the `k`th entry that every node has committed.
pub open spec fn lost(nodes: Seq<SimNodeModel>, i: int, k: int) -> bool {
    &&& 0 <= i < nodes.len()
    &&& i != reference_node(nodes)
    &&& 0 <= k < committed_by_all(nodes).len()
    &&& k >= nodes[i].raft.log.len() || nodes[i].raft.log[k].command != committed_by_all(nodes)[k].command
}

/// Every node holds every entry that all have committed.
pub open spec fn durable(nodes: Seq<SimNodeModel>) -> bool {
    forall|i: int, k: int| !#[trigger] lost(nodes, i, k)
}

/// The first node, and its first entry, that was lost.
pub open spec fn is_first_loss(nodes: Seq<SimNodeModel>, i: int, k: int) -> bool {
    &&& lost(nodes, i, k)
    &&& forall|i2: int, k2: int| #[trigger] lost(nodes, i2, k2) ==> i2 > i || (i2 == i && k2 >= k)
}

/// The first lost entry.
pub open spec fn is_durability_violation(nodes: Seq<SimNodeModel>, v: ViolationModel) -> bool {
    exists|i: int, k: int| #[trigger]
        is_first_loss(nodes, i, k) && v == (ViolationModel::CommittedEntryDurability {
            index: (k + 1) as u64,
            node_id: nodes[i].id,
            expected_command: command_text(committed_by_all(nodes)[k].command),
            actual_command: if k < nodes[i].raft.log.len() {
                command_text(nodes[i].raft.log[k].command)
            } else {
                "<missing>"@
            },
        })
}

/// The lowest commit index of all nodes.
fn lowest_commit_of(cluster: &SimCluster) -> (lowest: u64)
    ensures
        lowest == lowest_commit(cluster@),
{
    let ghost nodes = cluster@;
    let mut lowest: u64 = u64::MAX;
    let mut i: usize = 0;
    assert(nodes.take(0) =~= Seq::<SimNodeModel>::empty());
    while i < cluster.nodes.len()
        invariant
            i <= cluster.nodes@.len(),
            nodes == cluster@,
            lowest == lowest_commit(nodes.take(i as int)),
        decreases cluster.nodes@.len() - i,
    {
        proof {
            assert(nodes.take(i + 1).drop_last() =~= nodes.take(i as int));
            assert(nodes.take(i + 1).last() == cluster.nodes@[i as int].deep_view());
        }
        let commit: u64 = cluster.nodes[i].raft.commit_index;
        if commit < lowest {
            lowest = commit;
        }
        i = i + 1;
    }
    assert(nodes.take(nodes.len() as int) =~= nodes);
    lowest
}

/// The first of the nodes with the highest commit index.
fn find_reference(cluster: &SimCluster) -> (index: usize)
    requires
        cluster@.len() > 0,
    ensures
        index == reference_node(cluster@),
        index < cluster@.len(),
{
    let ghost nodes = cluster@;
    let mut index: usize = 0;
    let mut i: usize = 1;
    while i < cluster.nodes.len()
        invariant
            1 <= i <= cluster.nodes@.len(),
            nodes == cluster@,
            index < i,
            index == reference_node(nodes.take(i as int)),
        decreases cluster.nodes@.len() - i,
    {
        proof {
            assert(nodes.take(i + 1).drop_last() =~= nodes.take(i as int));
            assert(nodes.take(i + 1).last() == cluster.nodes@[i as int].deep_view());
            assert(nodes[index as int] == cluster.nodes@[index as int].deep_view());
        }
        if cluster.nodes[i].raft.commit_index > cluster.nodes[index].raft.commit_index {
            index = i;
        }
        i = i + 1;
    }
    assert(nodes.take(nodes.len() as int) =~= nodes);
    index
}

/// Checks that every node holds every entry that all nodes have committed.
pub fn check_committed_entry_durability(cluster: &SimCluster) -> (checked: Result<(), InvariantViolation>)
    ensures
        checked is Ok <==> durable(cluster@),
        checked matches Err(v) ==> is_durability_violation(cluster@, v.deep_view()),
{
    let ghost nodes = cluster@;
    if cluster.nodes.len() == 0 {
        return Ok(());
    }
    let lowest: u64 = lowest_commit_of(cluster);
    if lowest == u64::MAX {
        return Ok(());
    }
    let reference: usize = find_reference(cluster);
    let expected = &cluster.nodes[reference].raft.log;
    assert(nodes[reference as int] == cluster.nodes@[reference as int].deep_view());
    let count: usize = if lowest < expected.len() as u64 {
        lowest as usize
    } else {
        expected.len()
    };
    let mut i: usize = 0;
    while i < cluster.nodes.len()
        invariant
            i <= cluster.nodes@.len(),
            nodes == cluster@,
            reference == reference_node(nodes),
            reference < nodes.len(),
            expected.deep_view() == nodes[reference as int].raft.log,
            lowest == lowest_commit(nodes),
            lowest != u64::MAX,
            count == committed_by_all(nodes).len(),
            count <= expected@.len(),
            forall|i2: int, k2: int| #[trigger] lost(nodes, i2, k2) ==> i2 >= i,
        decreases cluster.nodes@.len() - i,
    {
        if i != reference {
            let node = &cluster.nodes[i];
            assert(nodes[i as int] == node.deep_view());
            let mut k: usize = 0;
            while k < count
                invariant
                    i < cluster.nodes@.len(),
                    i != reference,
                    nodes == cluster@,
                    nodes[i as int] == node.deep_view(),
                    reference == reference_node(nodes),
                    expected.deep_view() == nodes[reference as int].raft.log,
                    lowest == lowest_commit(nodes),
                    lowest != u64::MAX,
                    k <= count == committed_by_all(nodes).len(),
                    count <= expected@.len(),
                    forall|i2: int, k2: int| #[trigger] lost(nodes, i2, k2) ==> i2 > i || (i2 == i && k2 >= k),
                decreases count - k,
            {
                assert(committed_by_all(nodes)[k as int] == expected@[k as int].deep_view());
                if k >= node.raft.log.len() {
                    assert(is_first_loss(nodes, i as int, k as int));
                    return Err(
                        InvariantViolation::CommittedEntryDurability {
                            index: k as u64 + 1,
                            node_id: node.id.clone(),
                            expected_command: fmt_command(&expected[k].command),
                            actual_command: "<missing>".to_owned(),
                        },
                    );
                }
                assert(nodes[i as int].raft.log[k as int] == node.raft.log@[k as int].deep_view());
                if !node.raft.log[k].command.same(&expected[k].command) {
                    assert(is_first_loss(nodes, i as int, k as int));
                    return Err(
                        InvariantViolation::CommittedEntryDurability {
                            index: k as u64 + 1,
                            node_id: node.id.clone(),
                            expected_command: fmt_command(&expected[k].command),
                            actual_command: fmt_command(&node.raft.log[k].command),
                        },
                    );
                }
                k = k + 1;
            }
        }
        i = i + 1;
    }
    Ok(())
}

// ---- atomicity of transactions ----

/// The decisions of each transaction by the nodes that have one in their log.
pub type Decisions = Map<Seq<char>, Map<Seq<char>, TxDecision>>;

/// One more decision; a later one of the same node on the same transaction
/// counts.
pub open spec fn with_decision(
    decisions: Decisions,
    tx_id: Seq<char>,
    node: Seq<char>,
    decision: TxDecision,
) -> Decisions {
    let known = if decisions.contains_key(tx_id) {
        decisions[tx_id]
    } else {
        Map::empty()
    };
    decisions.insert(tx_id, known.insert(node, decision))
}

/// The decisions that a node's log adds.
pub open spec fn log_decisions(decisions: Decisions, node: Seq<char>, log: Seq<LogEntryModel>) -> Decisions
    decreases log.len(),
{
    if log.len() == 0 {
        decisions
    } else {
        let before = log_decisions(decisions, node, log.drop_last());
        match log.last().command {
            CommandModel::DecideTx { tx_id, decision } => with_decision(before, tx_id, node, decision),
            _ => before,
        }
    }
}

/// The decisions in the logs of all nodes.
pub open spec fn all_decisions(nodes: Seq<SimNodeModel>) -> Decisions
    decreases nodes.len(),
{
    if nodes.len() == 0 {
        Map::empty()
    } else {
        log_decisions(all_decisions(nodes.drop_last()), nodes.last().id, nodes.last().raft.log)
    }
}

/// Two nodes decided differently.
pub open spec fn split(outcomes: Map<Seq<char>, TxDecision>) -> bool {
    exists|a: Seq<char>, b: Seq<char>|
        #![trigger outcomes[a], outcomes[b]]
        outcomes.contains_key(a) && outcomes.contains_key(b) && outcomes[a] != outcomes[b]
}

/// No transaction has two outcomes.
pub open spec fn atomic(nodes: Seq<SimNodeModel>) -> bool {
    forall|tx_id: Seq<char>| #[trigger]
        all_decisions(nodes).contains_key(tx_id) ==> !split(all_decisions(nodes)[tx_id])
}

/// The first transaction, by its id, with two outcomes, and what each node
/// decided, by the order of their names.
pub open spec fn is_atomicity_violation(nodes: Seq<SimNodeModel>, v: ViolationModel) -> bool {
    v matches ViolationModel::TwoPhaseCommitAtomicity { tx_id, per_node } && {
        let decisions = all_decisions(nodes);
        &&& decisions.contains_key(tx_id)
        &&& split(decisions[tx_id])
        &&& forall|t: Seq<char>| #[trigger]
            decisions.contains_key(t) && crate::text::text_less(t, tx_id) ==> !split(decisions[t])
        &&& lists_outcomes(per_node, decisions[tx_id])
    }
}

/// `per_node` lists what each node decided, by the order of their names.
pub open spec fn lists_outcomes(
    per_node: Seq<(Seq<char>, Seq<char>)>,
    outcomes: Map<Seq<char>, TxDecision>,
) -> bool {
    &&& crate::text_map::lists_keys(Seq::new(per_node.len(), |i: int| per_node[i].0), outcomes)
    &&& forall|i: int| 0 <= i < per_node.len() ==> (#[trigger] per_node[i]).1 == decision_name(outcomes[per_node[i].0])
}

impl Duplicate for TxDecision {
    fn duplicate(&self) -> (copy: Self) {
        *self
    }
}

/// Collects the decisions in the logs of all nodes.
fn collect_decisions(cluster: &SimCluster) -> (decisions: TextMap<TextMap<TxDecision>>)
    ensures
        decisions@ == all_decisions(cluster@),
{
    let ghost nodes = cluster@;
    let mut decisions: TextMap<TextMap<TxDecision>> = TextMap::new();
    let mut i: usize = 0;
    assert(nodes.take(0) =~= Seq::<SimNodeModel>::empty());
    while i < cluster.nodes.len()
        invariant
            i <= cluster.nodes@.len(),
            nodes == cluster@,
            decisions@ == all_decisions(nodes.take(i as int)),
        decreases cluster.nodes@.len() - i,
    {
        let node = &cluster.nodes[i];
        let ghost before = decisions@;
        let ghost log = node.raft.log.deep_view();
        let mut k: usize = 0;
        assert(log.take(0) =~= Seq::<LogEntryModel>::empty());
        while k < node.raft.log.len()
            invariant
                k <= node.raft.log@.len(),
                log == node.raft.log.deep_view(),
                decisions@ == log_decisions(before, node.id@, log.take(k as int)),
            decreases node.raft.log@.len() - k,
        {
            proof {
                assert(log.take(k + 1).drop_last() =~= log.take(k as int));
                assert(log.take(k + 1).last() == node.raft.log@[k as int].deep_view());
            }
            match &node.raft.log[k].command {
                Command::DecideTx { tx_id, decision } => {
                    let mut known: TextMap<TxDecision> = match decisions.get(tx_id.as_str()) {
                        Some(known) => known.duplicate(),
                        None => TextMap::new(),
                    };
                    known.insert(node.id.clone(), *decision);
                    decisions.insert(tx_id.clone(), known);
                },
                _ => {},
            }
            k = k + 1;
        }
        proof {
            assert(log.take(log.len() as int) =~= log);
            assert(nodes.take(i + 1).drop_last() =~= nodes.take(i as int));
            assert(nodes.take(i + 1).last() == node.deep_view());
        }
        i = i + 1;
    }
    assert(nodes.take(nodes.len() as int) =~= nodes);
    decisions
}

/// Whether two nodes decided differently.
fn is_split(outcomes: &TextMap<TxDecision>) -> (found: bool)
    ensures
        found == split(outcomes@),
{
    let n: usize = outcomes.len();
    let ghost keys = outcomes.keys();
    let mut i: usize = 1;
    while i < n
        invariant
            n == keys.len(),
            keys == outcomes.keys(),
            1 <= i,
            n >= 1 ==> i <= n,
            crate::text_map::lists_keys(keys, outcomes@),
            forall|j: int| 0 <= j < i && j < n ==> outcomes@[#[trigger] keys[j]] == outcomes@[keys[0]],
        decreases n - i,
    {
        let first = outcomes.value_at(0);
        let other = outcomes.value_at(i);
        if *first != *other {
            proof {
                let a = keys[0];
                let b = keys[i as int];
                assert(keys.contains(a) && keys.contains(b));
                assert(outcomes@.contains_key(a) && outcomes@.contains_key(b));
                assert(outcomes@[a] != outcomes@[b]);
            }
            return true;
        }
        i = i + 1;
    }
    proof {
        assert forall|a: Seq<char>, b: Seq<char>|
            outcomes@.contains_key(a) && outcomes@.contains_key(b) implies #[trigger] outcomes@[a]
            == #[trigger] outcomes@[b] by {
            assert(keys.contains(a) && keys.contains(b));
            let p = keys.index_of(a);
            let q = keys.index_of(b);
            assert(keys[p] == a && keys[q] == b);
        }
    }
    false
}

/// What each node decided, by the order of their names.
fn list_outcomes(outcomes: &TextMap<TxDecision>) -> (per_node: Vec<(String, String)>)
    ensures
        lists_outcomes(per_node.deep_view(), outcomes@),
{
    let n: usize = outcomes.len();
    let ghost keys = outcomes.keys();
    let mut per_node: Vec<(String, String)> = Vec::new();
    let mut i: usize = 0;
    while i < n
        invariant
            i <= n == keys.len(),
            keys == outcomes.keys(),
            per_node@.len() == i,
            forall|j: int|
                0 <= j < i ==> (#[trigger] per_node@[j]).0@ == keys[j] && per_node@[j].1@ == decision_name(
                    outcomes@[keys[j]],
                ),
        decreases n - i,
    {
        let name = outcomes.key_at(i).clone();
        let decision = outcomes.value_at(i);
        per_node.push((name, decision_text(*decision).to_owned()));
        i = i + 1;
    }
    assert(Seq::new(per_node.deep_view().len(), |i: int| per_node.deep_view()[i].0) =~= keys);
    per_node
}

/// Checks that no transaction is committed on one node and aborted on another.
/// Nodes that do not have the decision in their log do not count.
pub fn check_2pc_atomicity(cluster: &SimCluster) -> (checked: Result<(), InvariantViolation>)
    ensures
        checked is Ok <==> atomic(cluster@),
        checked matches Err(v) ==> is_atomicity_violation(cluster@, v.deep_view()),
{
    let decisions = collect_decisions(cluster);
    let n: usize = decisions.len();
    let ghost keys = decisions.keys();
    let mut i: usize = 0;
    while i < n
        invariant
            i <= n == keys.len(),
            keys == decisions.keys(),
            decisions@ == all_decisions(cluster@),
            crate::text_map::lists_keys(keys, decisions@),
            forall|j: int| 0 <= j < i ==> !split(decisions@[#[trigger] keys[j]]),
        decreases n - i,
    {
        let outcomes = decisions.value_at(i);
        if is_split(outcomes) {
            let tx_id = decisions.key_at(i).clone();
            let per_node = list_outcomes(outcomes);
            proof {
                let tx = keys[i as int];
                assert(keys.contains(tx));
                assert forall|t: Seq<char>| #[trigger]
                    decisions@.contains_key(t) && crate::text::text_less(t, tx) implies !split(decisions@[t]) by {
                    let p = keys.index_of(t);
                    assert(keys[p] == t);
                    if p >= i {
                        if p > i {
                            assert(crate::text::text_less(keys[i as int], keys[p]));
                            crate::text::text_less_transitive(t, tx, t);
                        }
                        crate::text::text_less_irreflexive(t);
                    }
                }
            }
            return Err(InvariantViolation::TwoPhaseCommitAtomicity { tx_id, per_node });
        }
        i = i + 1;
    }
    proof {
        assert forall|tx_id: Seq<char>| #[trigger] all_decisions(cluster@).contains_key(tx_id) implies !split(
            all_decisions(cluster@)[tx_id],
        ) by {
            assert(keys.contains(tx_id));
            assert(keys[keys.index_of(tx_id)] == tx_id);
        }
    }
    Ok(())
}

// ---- all of them ----

/// A cluster in which every check passes.
pub open spec fn safe(nodes: Seq<SimNodeModel>) -> bool {
    &&& election_safe(nodes)
    &&& no_divergence(nodes, true)
    &&& no_divergence(nodes, false)
    &&& durable(nodes)
    &&& atomic(nodes)
}

/// The violation that the first failing check finds.
pub open spec fn is_first_violation(nodes: Seq<SimNodeModel>, v: ViolationModel) -> bool {
    if !election_safe(nodes) {
        is_election_violation(nodes, v)
    } else if !no_divergence(nodes, true) {
        is_log_violation(nodes, v)
    } else if !no_divergence(nodes, false) {
        is_apply_violation(nodes, v)
    } else if !durable(nodes) {
        is_durability_violation(nodes, v)
    } else {
        !atomic(nodes) && is_atomicity_violation(nodes, v)
    }
}

/// Runs every check and returns the first violation.
pub fn assert_invariants(cluster: &SimCluster) -> (checked: Result<(), InvariantViolation>)
    requires
        logs_reach(cluster@, true),
        logs_reach(cluster@, false),
    ensures
        checked is Ok <==> safe(cluster@),
        checked matches Err(v) ==> is_first_violation(cluster@, v.deep_view()),
{
    match check_election_safety(cluster) {
        Ok(_) => {},
        Err(v) => {
            return Err(v);
        },
    }
    match check_log_matching_property(cluster) {
        Ok(_) => {},
        Err(v) => {
            return Err(v);
        },
    }
    match check_state_machine_safety(cluster) {
        Ok(_) => {},
        Err(v) => {
            return Err(v);
        },
    }
    match check_committed_entry_durability(cluster) {
        Ok(_) => {},
        Err(v) => {
            return Err(v);
        },
    }
    check_2pc_atomicity(cluster)
}

/// Where committed entries do not diverge, applied ones do not either, on nodes
/// that have applied only what they have committed.
pub proof fn matching_logs_apply_alike(nodes: Seq<SimNodeModel>)
    requires
        no_divergence(nodes, true),
        forall|i: int|
            0 <= i < nodes.len() ==> (#[trigger] nodes[i]).raft.last_applied <= nodes[i].raft.commit_index,
    ensures
        no_divergence(nodes, false),
{
    assert forall|i: int, j: int, k: int| !#[trigger] diverge(nodes, false, i, j, k) by {
        assert(!diverge(nodes, true, i, j, k));
    }
}

/// A cluster in which nothing was appended and nobody leads is safe.
pub proof fn idle_clusters_are_safe(nodes: Seq<SimNodeModel>)
    requires
        crate::raft::sim_harness::leaderless(nodes),
        forall|i: int|
            0 <= i < nodes.len() ==> {
                &&& (#[trigger] nodes[i]).raft.log.len() == 0
                &&& nodes[i].raft.commit_index == 0
                &&& nodes[i].raft.last_applied == 0
            },
    ensures
        safe(nodes),
{
    assert forall|term: u64| (#[trigger] leaders_of(nodes, term)).len() <= 1 by {
        if leaders_of(nodes, term).len() > 0 {
            a_term_with_leaders_has_a_leader(nodes, term);
        }
    }
    if nodes.len() > 0 {
        reference_in_range(nodes);
    }
    idle_decisions(nodes);
}

proof fn reference_in_range(nodes: Seq<SimNodeModel>)
    requires
        nodes.len() > 0,
    ensures
        0 <= reference_node(nodes) < nodes.len(),
    decreases nodes.len(),
{
    if nodes.len() > 1 {
        reference_in_range(nodes.drop_last());
    }
}

proof fn idle_decisions(nodes: Seq<SimNodeModel>)
    requires
        forall|i: int| 0 <= i < nodes.len() ==> (#[trigger] nodes[i]).raft.log.len() == 0,
    ensures
        all_decisions(nodes) == Map::<Seq<char>, Map<Seq<char>, TxDecision>>::empty(),
    decreases nodes.len(),
{
    if nodes.len() > 0 {
        let rest = nodes.drop_last();
        assert forall|i: int| 0 <= i < rest.len() implies (#[trigger] rest[i]).raft.log.len() == 0 by {
            assert(rest[i] == nodes[i]);
        }
        idle_decisions(rest);
        assert(nodes[nodes.len() - 1] == nodes.last());
    }
}

// ---- what the checks look for ----

/// The nodes that lead a term are those that say so, all of them and in order.
pub proof fn leaders_are_the_nodes_that_lead(nodes: Seq<SimNodeModel>, term: u64)
    ensures
        leaders_of(nodes, term) == nodes.filter(
            |n: SimNodeModel| n.raft.state == NodeState::Leader && n.raft.current_term == term,
        ).map_values(|n: SimNodeModel| n.id),
    decreases nodes.len(),
{
    reveal(Seq::filter);
    let leads = |n: SimNodeModel| n.raft.state == NodeState::Leader && n.raft.current_term == term;
    let id = |n: SimNodeModel| n.id;
    if nodes.len() > 0 {
        let rest = nodes.drop_last();
        leaders_are_the_nodes_that_lead(rest, term);
        assert(rest.filter(leads).push(nodes.last()).map_values(id) =~= rest.filter(leads).map_values(id).push(
            nodes.last().id,
        ));
    }
    assert(leaders_of(nodes, term) =~= nodes.filter(leads).map_values(id));
}

proof fn leaders_are_counted(nodes: Seq<SimNodeModel>, term: u64, i: int)
    requires
        0 <= i < nodes.len(),
        nodes[i].raft.state == NodeState::Leader && nodes[i].raft.current_term == term,
    ensures
        leaders_of(nodes, term).len() > 0,
    decreases nodes.len(),
{
    if i < nodes.len() - 1 {
        assert(nodes.drop_last()[i] == nodes[i]);
        leaders_are_counted(nodes.drop_last(), term, i);
    }
}

proof fn rivals_are_counted(nodes: Seq<SimNodeModel>, term: u64)
    ensures
        leaders_of(nodes, term).len() > 1 <==> exists|i: int, j: int|
            0 <= i < j < nodes.len() && (#[trigger] nodes[i]).raft.state == NodeState::Leader && (
            #[trigger] nodes[j]).raft.state == NodeState::Leader && nodes[i].raft.current_term == term
                && nodes[j].raft.current_term == term,
    decreases nodes.len(),
{
    if nodes.len() > 0 {
        let rest = nodes.drop_last();
        let last = nodes.len() - 1;
        rivals_are_counted(rest, term);
        assert(nodes[last] == nodes.last());
        if leaders_of(nodes, term).len() > 1 {
            if leaders_of(rest, term).len() > 1 {
                let (i, j) = choose|i: int, j: int|
                    0 <= i < j < rest.len() && (#[trigger] rest[i]).raft.state == NodeState::Leader && (
                    #[trigger] rest[j]).raft.state == NodeState::Leader && rest[i].raft.current_term == term
                        && rest[j].raft.current_term == term;
                assert(nodes[i] == rest[i] && nodes[j] == rest[j]);
            } else {
                a_term_with_leaders_has_a_leader(rest, term);
                let i = choose|i: int|
                    0 <= i < rest.len() && (#[trigger] rest[i]).raft.state == NodeState::Leader
                        && rest[i].raft.current_term == term;
                assert(nodes[i] == rest[i]);
                assert(nodes[last].raft.state == NodeState::Leader);
            }
        }
        if exists|i: int, j: int|
            0 <= i < j < nodes.len() && (#[trigger] nodes[i]).raft.state == NodeState::Leader && (
            #[trigger] nodes[j]).raft.state == NodeState::Leader && nodes[i].raft.current_term == term
                && nodes[j].raft.current_term == term {
            let (i, j) = choose|i: int, j: int|
                0 <= i < j < nodes.len() && (#[trigger] nodes[i]).raft.state == NodeState::Leader && (
                #[trigger] nodes[j]).raft.state == NodeState::Leader && nodes[i].raft.current_term == term
                    && nodes[j].raft.current_term == term;
            assert(rest[i] == nodes[i]);
            if j < last {
                assert(rest[j] == nodes[j]);
            } else {
                leaders_are_counted(rest, term, i);
            }
        }
    }
}

/// Elections are safe exactly where no two nodes lead the same term.
pub proof fn elections_are_safe_without_rivals(nodes: Seq<SimNodeModel>)
    ensures
        election_safe(nodes) <==> forall|i: int, j: int|
            0 <= i < j < nodes.len() && (#[trigger] nodes[i]).raft.state == NodeState::Leader && (
            #[trigger] nodes[j]).raft.state == NodeState::Leader ==> nodes[i].raft.current_term
                != nodes[j].raft.current_term,
{
    if election_safe(nodes) {
        assert forall|i: int, j: int|
            0 <= i < j < nodes.len() && (#[trigger] nodes[i]).raft.state == NodeState::Leader && (
            #[trigger] nodes[j]).raft.state == NodeState::Leader implies nodes[i].raft.current_term
            != nodes[j].raft.current_term by {
            rivals_are_counted(nodes, nodes[i].raft.current_term);
            assert(leaders_of(nodes, nodes[i].raft.current_term).len() <= 1);
        }
    } else {
        let term = choose|term: u64| (#[trigger] leaders_of(nodes, term)).len() > 1;
        rivals_are_counted(nodes, term);
    }
}

/// Logs match exactly where any two nodes have, at every index that both have
/// committed, entries of one term and command; and state machines agree exactly
/// where any two nodes have one command at every index that both have applied.
pub proof fn divergence_is_between_what_both_have(nodes: Seq<SimNodeModel>)
    ensures
        no_divergence(nodes, true) <==> forall|i: int, j: int, k: int|
            #![trigger nodes[i].raft.log[k], nodes[j].raft.log[k]]
            0 <= i < j < nodes.len() && 0 <= k < nodes[i].raft.commit_index && k < nodes[j].raft.commit_index
                ==> nodes[i].raft.log[k].term == nodes[j].raft.log[k].term && nodes[i].raft.log[k].command
                == nodes[j].raft.log[k].command,
        no_divergence(nodes, false) <==> forall|i: int, j: int, k: int|
            #![trigger nodes[i].raft.log[k], nodes[j].raft.log[k]]
            0 <= i < j < nodes.len() && 0 <= k < nodes[i].raft.last_applied && k < nodes[j].raft.last_applied
                ==> nodes[i].raft.log[k].command == nodes[j].raft.log[k].command,
{
    assert forall|committed: bool, i: int, j: int, k: int| #[trigger] diverge(nodes, committed, i, j, k) implies 0 <= i
        < j < nodes.len() && differ(nodes[i].raft.log[k], nodes[j].raft.log[k], committed) by {}
    if no_divergence(nodes, true) {
        assert forall|i: int, j: int, k: int|
            #![trigger nodes[i].raft.log[k], nodes[j].raft.log[k]]
            0 <= i < j < nodes.len() && 0 <= k < nodes[i].raft.commit_index && k
                < nodes[j].raft.commit_index implies nodes[i].raft.log[k].term == nodes[j].raft.log[k].term
            && nodes[i].raft.log[k].command == nodes[j].raft.log[k].command by {
            assert(!diverge(nodes, true, i, j, k));
        }
    }
    if no_divergence(nodes, false) {
        assert forall|i: int, j: int, k: int|
            #![trigger nodes[i].raft.log[k], nodes[j].raft.log[k]]
            0 <= i < j < nodes.len() && 0 <= k < nodes[i].raft.last_applied && k
                < nodes[j].raft.last_applied implies nodes[i].raft.log[k].command == nodes[j].raft.log[k].command by {
            assert(!diverge(nodes, false, i, j, k));
        }
    }
}

proof fn lowest_is_lowest(nodes: Seq<SimNodeModel>)
    ensures
        forall|i: int| 0 <= i < nodes.len() ==> lowest_commit(nodes) <= (#[trigger] nodes[i]).raft.commit_index,
        nodes.len() > 0 ==> exists|i: int|
            0 <= i < nodes.len() && (#[trigger] nodes[i]).raft.commit_index == lowest_commit(nodes),
    decreases nodes.len(),
{
    if nodes.len() > 0 {
        let rest = nodes.drop_last();
        lowest_is_lowest(rest);
        assert(nodes[nodes.len() - 1] == nodes.last());
        assert forall|i: int| 0 <= i < nodes.len() implies lowest_commit(nodes) <= (
        #[trigger] nodes[i]).raft.commit_index by {
            if i < rest.len() {
                assert(rest[i] == nodes[i]);
            }
        }
        if nodes.last().raft.commit_index < lowest_commit(rest) {
            assert(nodes[nodes.len() - 1].raft.commit_index == lowest_commit(nodes));
        } else if rest.len() > 0 {
            let i = choose|i: int|
                0 <= i < rest.len() && (#[trigger] rest[i]).raft.commit_index == lowest_commit(rest);
            assert(nodes[i] == rest[i]);
        } else {
            assert(nodes[0].raft.commit_index == lowest_commit(nodes));
        }
    }
}

proof fn reference_is_first_highest(nodes: Seq<SimNodeModel>)
    requires
        nodes.len() > 0,
    ensures
        0 <= reference_node(nodes) < nodes.len(),
        forall|i: int|
            0 <= i < nodes.len() ==> (#[trigger] nodes[i]).raft.commit_index
                <= nodes[reference_node(nodes)].raft.commit_index,
        forall|i: int|
            0 <= i < reference_node(nodes) ==> (#[trigger] nodes[i]).raft.commit_index
                < nodes[reference_node(nodes)].raft.commit_index,
    decreases nodes.len(),
{
    if nodes.len() > 1 {
        let rest = nodes.drop_last();
        reference_is_first_highest(rest);
        assert(forall|i: int| 0 <= i < rest.len() ==> #[trigger] rest[i] == nodes[i]);
        let r = reference_node(rest);
        assert(rest[r] == nodes[r]);
        assert forall|i: int| 0 <= i < nodes.len() implies (#[trigger] nodes[i]).raft.commit_index
            <= nodes[reference_node(nodes)].raft.commit_index by {
            if i < rest.len() {
                assert(rest[i].raft.commit_index <= rest[r].raft.commit_index);
            }
        }
        assert forall|i: int| 0 <= i < reference_node(nodes) implies (#[trigger] nodes[i]).raft.commit_index
            < nodes[reference_node(nodes)].raft.commit_index by {
            if i < rest.len() {
                assert(rest[i].raft.commit_index <= rest[r].raft.commit_index);
            }
        }
    }
}

/// The node that the others are held against is the first of those with the
/// highest commit index, and what all have committed reaches to the lowest.
pub proof fn durability_is_held_against_the_furthest(nodes: Seq<SimNodeModel>, i: int)
    requires
        0 <= i < nodes.len(),
    ensures
        ({
            let r = reference_node(nodes);
            &&& 0 <= r < nodes.len()
            &&& nodes[i].raft.commit_index <= nodes[r].raft.commit_index
            &&& i < r ==> nodes[i].raft.commit_index < nodes[r].raft.commit_index
            &&& lowest_commit(nodes) <= nodes[i].raft.commit_index
            &&& exists|j: int| 0 <= j < nodes.len() && (#[trigger] nodes[j]).raft.commit_index == lowest_commit(nodes)
        }),
{
    reference_is_first_highest(nodes);
    lowest_is_lowest(nodes);
}

/// Entries are durable exactly where every node has, at every index that all have
/// committed and that the furthest node holds, the command that the furthest node
/// has there.
pub proof fn durable_entries_are_held_by_all(nodes: Seq<SimNodeModel>, r: int, low: u64)
    requires
        0 <= r < nodes.len(),
        forall|i: int| 0 <= i < nodes.len() ==> (#[trigger] nodes[i]).raft.commit_index <= nodes[r].raft.commit_index,
        forall|i: int| 0 <= i < r ==> (#[trigger] nodes[i]).raft.commit_index < nodes[r].raft.commit_index,
        forall|i: int| 0 <= i < nodes.len() ==> low <= (#[trigger] nodes[i]).raft.commit_index,
        exists|i: int| 0 <= i < nodes.len() && (#[trigger] nodes[i]).raft.commit_index == low,
        low < u64::MAX,
    ensures
        durable(nodes) <==> forall|i: int, k: int|
            #![trigger nodes[i].raft.log[k]]
            0 <= i < nodes.len() && 0 <= k < low && k < nodes[r].raft.log.len() ==> k < nodes[i].raft.log.len()
                && nodes[i].raft.log[k].command == nodes[r].raft.log[k].command,
{
    reference_is_first_highest(nodes);
    lowest_is_lowest(nodes);
    let s = reference_node(nodes);
    assert(s == r) by {
        assert(nodes[s].raft.commit_index <= nodes[r].raft.commit_index);
        assert(nodes[r].raft.commit_index <= nodes[s].raft.commit_index);
    }
    assert(low == lowest_commit(nodes)) by {
        let i = choose|i: int| 0 <= i < nodes.len() && (#[trigger] nodes[i]).raft.commit_index == low;
        let j = choose|j: int|
            0 <= j < nodes.len() && (#[trigger] nodes[j]).raft.commit_index == lowest_commit(nodes);
        assert(lowest_commit(nodes) <= nodes[i].raft.commit_index);
        assert(low <= nodes[j].raft.commit_index);
    }
    if durable(nodes) {
        assert forall|i: int, k: int|
            #![trigger nodes[i].raft.log[k]]
            0 <= i < nodes.len() && 0 <= k < low && k < nodes[r].raft.log.len() implies k < nodes[i].raft.log.len()
            && nodes[i].raft.log[k].command == nodes[r].raft.log[k].command by {
            assert(!lost(nodes, i, k));
        }
    }
    if forall|i: int, k: int|
        #![trigger nodes[i].raft.log[k]]
        0 <= i < nodes.len() && 0 <= k < low && k < nodes[r].raft.log.len() ==> k < nodes[i].raft.log.len()
            && nodes[i].raft.log[k].command == nodes[r].raft.log[k].command {
        assert forall|i: int, k: int| !#[trigger] lost(nodes, i, k) by {
            if lost(nodes, i, k) {
                let e = nodes[i].raft.log[k];
            }
        }
    }
}

/// The log decides the transaction at `k`, and not again behind it.
pub open spec fn decides_at(log: Seq<LogEntryModel>, k: int, tx_id: Seq<char>, decision: TxDecision) -> bool {
    &&& 0 <= k < log.len()
    &&& log[k].command == (CommandModel::DecideTx { tx_id, decision })
    &&& forall|l: int|
        k < l < log.len() ==> !((#[trigger] log[l]).command matches CommandModel::DecideTx { tx_id: t, .. } && t
            == tx_id)
}

proof fn log_decides(
    decisions: Decisions,
    node: Seq<char>,
    log: Seq<LogEntryModel>,
    tx_id: Seq<char>,
    other: Seq<char>,
) -> (at: int)
    requires
        other != node,
    ensures
        ({
            let after = log_decisions(decisions, node, log);
            let had = decisions.contains_key(tx_id) && decisions[tx_id].contains_key(node);
            let has = after.contains_key(tx_id) && after[tx_id].contains_key(node);
            let had_other = decisions.contains_key(tx_id) && decisions[tx_id].contains_key(other);
            let has_other = after.contains_key(tx_id) && after[tx_id].contains_key(other);
            &&& at >= 0 ==> has && decides_at(log, at, tx_id, after[tx_id][node])
            &&& at < 0 ==> has == had && (has ==> after[tx_id][node] == decisions[tx_id][node])
            &&& at < 0 ==> forall|k: int|
                0 <= k < log.len() ==> !((#[trigger] log[k]).command matches CommandModel::DecideTx { tx_id: t, .. }
                    && t == tx_id)
            &&& has_other == had_other
            &&& has_other ==> after[tx_id][other] == decisions[tx_id][other]
            &&& after.contains_key(tx_id) ==> decisions.contains_key(tx_id) || has
        }),
    decreases log.len(),
{
    if log.len() == 0 {
        -1
    } else {
        let rest = log.drop_last();
        let before = log_decides(decisions, node, rest, tx_id, other);
        let last = log.len() - 1;
        assert(log[last] == log.last());
        assert(forall|k: int| 0 <= k < rest.len() ==> #[trigger] rest[k] == log[k]);
        let again = log.last().command matches CommandModel::DecideTx { tx_id: t, .. } && t == tx_id;
        let reached = log_decisions(decisions, node, rest);
        if again {
            last
        } else {
            assert(log_decisions(decisions, node, log).contains_key(tx_id) == reached.contains_key(tx_id));
            assert(reached.contains_key(tx_id) ==> log_decisions(decisions, node, log)[tx_id] == reached[tx_id]);
            if before >= 0 {
                let d = reached[tx_id][node];
                assert(decides_at(rest, before, tx_id, d));
                assert(log[before] == rest[before]);
                assert forall|l: int| before < l < log.len() implies !((
                #[trigger] log[l]).command matches CommandModel::DecideTx { tx_id: t, .. } && t == tx_id) by {
                    if l < last {
                        assert(rest[l] == log[l]);
                    }
                }
            } else {
                assert forall|k: int| 0 <= k < log.len() implies !((
                #[trigger] log[k]).command matches CommandModel::DecideTx { tx_id: t, .. } && t == tx_id) by {
                    if k < last {
                        assert(rest[k] == log[k]);
                    }
                }
            }
            before
        }
    }
}

/// No two nodes go by the same name.
pub open spec fn distinct_ids(nodes: Seq<SimNodeModel>) -> bool {
    forall|i: int, j: int| 0 <= i < j < nodes.len() ==> (#[trigger] nodes[i]).id != (#[trigger] nodes[j]).id
}

proof fn decisions_are_those_of_the_logs(nodes: Seq<SimNodeModel>, tx_id: Seq<char>)
    requires
        distinct_ids(nodes),
    ensures
        ({
            let all = all_decisions(nodes);
            let has = |id: Seq<char>| all.contains_key(tx_id) && all[tx_id].contains_key(id);
            &&& forall|i: int|
                0 <= i < nodes.len() && has((#[trigger] nodes[i]).id) ==> exists|k: int|
                    decides_at(nodes[i].raft.log, k, tx_id, all[tx_id][nodes[i].id])
            &&& forall|i: int, k: int, d: TxDecision|
                0 <= i < nodes.len() && #[trigger] decides_at(nodes[i].raft.log, k, tx_id, d) ==> has(nodes[i].id)
                    && all[tx_id][nodes[i].id] == d
            &&& forall|id: Seq<char>| #[trigger]
                has(id) ==> exists|i: int| 0 <= i < nodes.len() && (#[trigger] nodes[i]).id == id
        }),
    decreases nodes.len(),
{
    let all = all_decisions(nodes);
    let has = |id: Seq<char>| all.contains_key(tx_id) && all[tx_id].contains_key(id);
    if nodes.len() > 0 {
        let rest = nodes.drop_last();
        let before = all_decisions(rest);
        let had = |id: Seq<char>| before.contains_key(tx_id) && before[tx_id].contains_key(id);
        let last = nodes.last();
        let n = nodes.len() - 1;
        assert(nodes[n] == last);
        assert(forall|i: int| 0 <= i < rest.len() ==> #[trigger] rest[i] == nodes[i]);
        assert(distinct_ids(rest));
        decisions_are_those_of_the_logs(rest, tx_id);
        let stranger = last.id.push('a');
        assert(stranger.len() != last.id.len());
        let at = log_decides(before, last.id, last.raft.log, tx_id, stranger);
        assert(!had(last.id)) by {
            if had(last.id) {
                let i = choose|i: int| 0 <= i < rest.len() && (#[trigger] rest[i]).id == last.id;
                assert(nodes[i].id == nodes[n].id);
            }
        }
        assert forall|i: int| 0 <= i < nodes.len() && has((#[trigger] nodes[i]).id) implies exists|k: int|
            decides_at(nodes[i].raft.log, k, tx_id, all[tx_id][nodes[i].id]) by {
            if i < n {
                assert(nodes[i].id != nodes[n].id);
                let _ = log_decides(before, last.id, last.raft.log, tx_id, nodes[i].id);
                assert(had(rest[i].id));
                let k = choose|k: int| decides_at(rest[i].raft.log, k, tx_id, before[tx_id][rest[i].id]);
                assert(decides_at(nodes[i].raft.log, k, tx_id, all[tx_id][nodes[i].id]));
            } else {
                assert(decides_at(nodes[i].raft.log, at, tx_id, all[tx_id][nodes[i].id]));
            }
        }
        assert forall|i: int, k: int, d: TxDecision|
            0 <= i < nodes.len() && #[trigger] decides_at(nodes[i].raft.log, k, tx_id, d) implies has(nodes[i].id)
            && all[tx_id][nodes[i].id] == d by {
            if i < n {
                assert(nodes[i].id != nodes[n].id);
                let _ = log_decides(before, last.id, last.raft.log, tx_id, nodes[i].id);
                assert(decides_at(rest[i].raft.log, k, tx_id, d));
            } else {
                let log = last.raft.log;
                assert(log[k].command == (CommandModel::DecideTx { tx_id, decision: d }));
                assert(at >= 0);
                assert(decides_at(log, at, tx_id, all[tx_id][last.id]));
                if at < k {
                    assert(log[k].command matches CommandModel::DecideTx { tx_id: t, .. } && t == tx_id);
                } else if k < at {
                    assert(log[at].command matches CommandModel::DecideTx { tx_id: t, .. } && t == tx_id);
                }
            }
        }
        assert forall|id: Seq<char>| #[trigger] has(id) implies exists|i: int|
            0 <= i < nodes.len() && (#[trigger] nodes[i]).id == id by {
            if id == last.id {
                assert(nodes[n].id == id);
            } else {
                let _ = log_decides(before, last.id, last.raft.log, tx_id, id);
                assert(had(id));
                let i = choose|i: int| 0 <= i < rest.len() && (#[trigger] rest[i]).id == id;
                assert(nodes[i].id == id);
            }
        }
    }
}

/// Transactions are atomic exactly where no two nodes end in different decisions
/// of one. What a node ends in is the last decision of the transaction in its
/// log; a node without one does not count.
pub proof fn atomic_transactions_end_alike(nodes: Seq<SimNodeModel>)
    requires
        distinct_ids(nodes),
    ensures
        atomic(nodes) <==> forall|i: int, j: int, k: int, l: int, tx_id: Seq<char>, a: TxDecision, b: TxDecision|
            0 <= i < nodes.len() && 0 <= j < nodes.len() && #[trigger] decides_at(nodes[i].raft.log, k, tx_id, a)
                && #[trigger] decides_at(nodes[j].raft.log, l, tx_id, b) ==> a == b,
{
    let all = all_decisions(nodes);
    if atomic(nodes) {
        assert forall|i: int, j: int, k: int, l: int, tx_id: Seq<char>, a: TxDecision, b: TxDecision|
            0 <= i < nodes.len() && 0 <= j < nodes.len() && #[trigger] decides_at(nodes[i].raft.log, k, tx_id, a)
                && #[trigger] decides_at(nodes[j].raft.log, l, tx_id, b) implies a == b by {
            decisions_are_those_of_the_logs(nodes, tx_id);
            assert(!split(all[tx_id]));
            assert(all[tx_id][nodes[i].id] == a && all[tx_id][nodes[j].id] == b);
        }
    } else {
        let tx_id = choose|tx_id: Seq<char>| #[trigger] all.contains_key(tx_id) && split(all[tx_id]);
        decisions_are_those_of_the_logs(nodes, tx_id);
        let outcomes = all[tx_id];
        let (p, q) = choose|p: Seq<char>, q: Seq<char>|
            #![trigger outcomes[p], outcomes[q]]
            outcomes.contains_key(p) && outcomes.contains_key(q) && outcomes[p] != outcomes[q];
        let has = |id: Seq<char>| all.contains_key(tx_id) && all[tx_id].contains_key(id);
        assert(has(p) && has(q));
        let i = choose|i: int| 0 <= i < nodes.len() && (#[trigger] nodes[i]).id == p;
        let j = choose|j: int| 0 <= j < nodes.len() && (#[trigger] nodes[j]).id == q;
        assert(has(nodes[i].id) && has(nodes[j].id));
        let k = choose|k: int| decides_at(nodes[i].raft.log, k, tx_id, all[tx_id][nodes[i].id]);
        let l = choose|l: int| decides_at(nodes[j].raft.log, l, tx_id, all[tx_id][nodes[j].id]);
        assert(decides_at(nodes[i].raft.log, k, tx_id, outcomes[p]));
        assert(decides_at(nodes[j].raft.log, l, tx_id, outcomes[q]));
    }
}

// ---- what the checks report ----

/// A report of rival leaders names the first term that has them, and all its
/// leaders, in order.
pub proof fn rivals_are_reported_by_term(nodes: Seq<SimNodeModel>, term: u64, ids: Seq<Seq<char>>, i: int, j: int)
    requires
        is_election_violation(nodes, (ViolationModel::ElectionSafety { term, leader_ids: ids })),
        0 <= i < j < nodes.len(),
    ensures
        ids == nodes.filter(
            |n: SimNodeModel| n.raft.state == NodeState::Leader && n.raft.current_term == term,
        ).map_values(|n: SimNodeModel| n.id),
        ids.len() >= 2,
        nodes[i].raft.state == NodeState::Leader && nodes[j].raft.state == NodeState::Leader
            && nodes[i].raft.current_term == nodes[j].raft.current_term ==> term <= nodes[i].raft.current_term,
{
    leaders_are_the_nodes_that_lead(nodes, term);
    let t = nodes[i].raft.current_term;
    rivals_are_counted(nodes, t);
    if t < term {
        assert(leaders_of(nodes, t).len() <= 1);
    }
}

/// A report of entries that differ names two nodes, the index and what each has
/// there; both have committed that index, and before it, and between nodes that
/// come earlier, nothing differs.
pub proof fn differing_entries_are_reported_first(nodes: Seq<SimNodeModel>, v: ViolationModel) -> (place: (int, int, int))
    requires
        is_log_violation(nodes, v),
    ensures
        ({
            let (i, j, k) = place;
            let a = nodes[i].raft.log[k];
            let b = nodes[j].raft.log[k];
            &&& 0 <= i < j < nodes.len()
            &&& 0 <= k < nodes[i].raft.commit_index && k < nodes[j].raft.commit_index
            &&& a.term != b.term || a.command != b.command
            &&& v matches ViolationModel::LogMatchingProperty {
                index,
                node_a,
                node_b,
                a_term,
                b_term,
                a_command,
                b_command,
            } && {
                &&& index == (k + 1) as u64
                &&& node_a == nodes[i].id && node_b == nodes[j].id
                &&& a_term == a.term && b_term == b.term
                &&& a_command == command_text(a.command) && b_command == command_text(b.command)
            }
            &&& forall|l: int|
                0 <= l < k ==> (#[trigger] nodes[i].raft.log[l]).term == nodes[j].raft.log[l].term
                    && nodes[i].raft.log[l].command == nodes[j].raft.log[l].command
            &&& forall|x: int, y: int, l: int|
                #![trigger nodes[x].raft.log[l], nodes[y].raft.log[l]]
                0 <= x < y < nodes.len() && (x < i || (x == i && y < j)) && 0 <= l < nodes[x].raft.commit_index && l
                    < nodes[y].raft.commit_index ==> nodes[x].raft.log[l].term == nodes[y].raft.log[l].term
                    && nodes[x].raft.log[l].command == nodes[y].raft.log[l].command
        }),
{
    let (i, j, k) = choose|i: int, j: int, k: int| #[trigger]
        is_first_divergence(nodes, true, i, j, k) && v == (ViolationModel::LogMatchingProperty {
            index: (k + 1) as u64,
            node_a: nodes[i].id,
            node_b: nodes[j].id,
            a_term: nodes[i].raft.log[k].term,
            b_term: nodes[j].raft.log[k].term,
            a_command: command_text(nodes[i].raft.log[k].command),
            b_command: command_text(nodes[j].raft.log[k].command),
        });
    assert forall|l: int| 0 <= l < k implies (#[trigger] nodes[i].raft.log[l]).term == nodes[j].raft.log[l].term
        && nodes[i].raft.log[l].command == nodes[j].raft.log[l].command by {
        assert(!diverge(nodes, true, i, j, l));
    }
    assert forall|x: int, y: int, l: int|
        #![trigger nodes[x].raft.log[l], nodes[y].raft.log[l]]
        0 <= x < y < nodes.len() && (x < i || (x == i && y < j)) && 0 <= l < nodes[x].raft.commit_index && l
            < nodes[y].raft.commit_index implies nodes[x].raft.log[l].term == nodes[y].raft.log[l].term
        && nodes[x].raft.log[l].command == nodes[y].raft.log[l].command by {
        assert(!diverge(nodes, true, x, y, l));
    }
    (i, j, k)
}

/// A report of a lost entry names the node that lost it, its index, and what
/// stands there in its place.
pub proof fn lost_entries_are_reported(nodes: Seq<SimNodeModel>, v: ViolationModel) -> (place: (int, int))
    requires
        is_durability_violation(nodes, v),
        nodes.len() > 0,
    ensures
        ({
            let (i, k) = place;
            let r = reference_node(nodes);
            &&& 0 <= i < nodes.len() && i != r
            &&& 0 <= k < nodes[r].raft.log.len()
            &&& forall|n: int| 0 <= n < nodes.len() ==> k < (#[trigger] nodes[n]).raft.commit_index
            &&& v matches ViolationModel::CommittedEntryDurability {
                index,
                node_id,
                expected_command,
                actual_command,
            } && {
                &&& index == (k + 1) as u64
                &&& node_id == nodes[i].id
                &&& expected_command == command_text(nodes[r].raft.log[k].command)
                &&& k < nodes[i].raft.log.len() ==> nodes[i].raft.log[k].command != nodes[r].raft.log[k].command
                    && actual_command == command_text(nodes[i].raft.log[k].command)
                &&& k >= nodes[i].raft.log.len() ==> actual_command == "<missing>"@
            }
        }),
{
    reference_is_first_highest(nodes);
    lowest_is_lowest(nodes);
    let (i, k) = choose|i: int, k: int| #[trigger]
        is_first_loss(nodes, i, k) && v == (ViolationModel::CommittedEntryDurability {
            index: (k + 1) as u64,
            node_id: nodes[i].id,
            expected_command: command_text(committed_by_all(nodes)[k].command),
            actual_command: if k < nodes[i].raft.log.len() {
                command_text(nodes[i].raft.log[k].command)
            } else {
                "<missing>"@
            },
        });
    (i, k)
}

/// The checks report in this order: rival leaders, committed entries that differ,
/// applied ones that differ, lost entries, and transactions that end differently.
pub proof fn reports_come_in_order(nodes: Seq<SimNodeModel>, v: ViolationModel)
    requires
        is_first_violation(nodes, v),
    ensures
        v is ElectionSafety <==> !election_safe(nodes),
        v is LogMatchingProperty ==> election_safe(nodes) && !no_divergence(nodes, true),
        v is StateMachineSafety ==> election_safe(nodes) && no_divergence(nodes, true) && !no_divergence(nodes, false),
        v is CommittedEntryDurability ==> election_safe(nodes) && no_divergence(nodes, true) && no_divergence(
            nodes,
            false,
        ) && !durable(nodes),
        v is TwoPhaseCommitAtomicity ==> election_safe(nodes) && no_divergence(nodes, true) && no_divergence(
            nodes,
            false,
        ) && durable(nodes) && !atomic(nodes),
        !safe(nodes),
{
}

/// How commands are written in short.
pub proof fn commands_are_written_so(
    a: Seq<char>,
    b: Seq<char>,
    ops: Seq<crate::protocol::TxOpModel>,
    old: Seq<crate::protocol::ServerModel>,
    new: Seq<crate::protocol::ServerModel>,
)
    ensures
        command_text((CommandModel::SetKey { key: a, value: b })) == "Set("@ + a + ","@ + b + ")"@,
        command_text((CommandModel::Get { key: a })) == "Get("@ + a + ")"@,
        command_text((CommandModel::Delete { key: a })) == "Delete("@ + a + ")"@,
        command_text(CommandModel::Compact) == "Compact"@,
        command_text((CommandModel::BeginTx { tx_id: a, ops })) == "BeginTx("@ + a + ", "@ + crate::text::decimal(
            ops.len(),
        ) + " ops)"@,
        command_text((CommandModel::DecideTx { tx_id: a, decision: TxDecision::Commit })) == "DecideTx("@ + a + ","@
            + "Commit"@ + ")"@,
        command_text((CommandModel::DecideTx { tx_id: a, decision: TxDecision::Abort })) == "DecideTx("@ + a + ","@
            + "Abort"@ + ")"@,
        command_text((CommandModel::AbortTx { tx_id: a })) == "AbortTx("@ + a + ")"@,
        command_text(
            (CommandModel::AddNode { server: (crate::protocol::ServerModel { node_id: a, addr: b }) }),
        ) == "AddNode("@ + a + ","@ + b + ")"@,
        command_text((CommandModel::RemoveNode { node_id: a })) == "RemoveNode("@ + a + ")"@,
        command_text((CommandModel::InstallConfiguration { config: ConfigurationModel::Simple(new) }))
            == "InstallConfiguration(Simple,"@ + crate::text::decimal(new.len()) + " servers)"@,
        command_text((CommandModel::InstallConfiguration { config: (ConfigurationModel::Joint { old, new }) }))
            == "InstallConfiguration(Joint, old:"@ + crate::text::decimal(old.len()) + " new:"@ + crate::text::decimal(
            new.len(),
        ) + ")"@,
{
}

/// A report of commands that differ names two nodes, the index and what each has
/// there; both have applied that index, and before it, and between nodes that come
/// earlier, nothing differs.
pub proof fn differing_commands_are_reported_first(nodes: Seq<SimNodeModel>, v: ViolationModel) -> (place: (int, int, int))
    requires
        is_apply_violation(nodes, v),
    ensures
        ({
            let (i, j, k) = place;
            let a = nodes[i].raft.log[k].command;
            let b = nodes[j].raft.log[k].command;
            &&& 0 <= i < j < nodes.len()
            &&& 0 <= k < nodes[i].raft.last_applied && k < nodes[j].raft.last_applied
            &&& a != b
            &&& v matches ViolationModel::StateMachineSafety { index, node_a, node_b, a_command, b_command } && {
                &&& index == (k + 1) as u64
                &&& node_a == nodes[i].id && node_b == nodes[j].id
                &&& a_command == command_text(a) && b_command == command_text(b)
            }
            &&& forall|l: int|
                0 <= l < k ==> (#[trigger] nodes[i].raft.log[l]).command == nodes[j].raft.log[l].command
            &&& forall|x: int, y: int, l: int|
                #![trigger nodes[x].raft.log[l], nodes[y].raft.log[l]]
                0 <= x < y < nodes.len() && (x < i || (x == i && y < j)) && 0 <= l < nodes[x].raft.last_applied && l
                    < nodes[y].raft.last_applied ==> nodes[x].raft.log[l].command == nodes[y].raft.log[l].command
        }),
{
    let (i, j, k) = choose|i: int, j: int, k: int| #[trigger]
        is_first_divergence(nodes, false, i, j, k) && v == (ViolationModel::StateMachineSafety {
            index: (k + 1) as u64,
            node_a: nodes[i].id,
            node_b: nodes[j].id,
            a_command: command_text(nodes[i].raft.log[k].command),
            b_command: command_text(nodes[j].raft.log[k].command),
        });
    assert forall|l: int| 0 <= l < k implies (#[trigger] nodes[i].raft.log[l]).command
        == nodes[j].raft.log[l].command by {
        assert(!diverge(nodes, false, i, j, l));
    }
    assert forall|x: int, y: int, l: int|
        #![trigger nodes[x].raft.log[l], nodes[y].raft.log[l]]
        0 <= x < y < nodes.len() && (x < i || (x == i && y < j)) && 0 <= l < nodes[x].raft.last_applied && l
            < nodes[y].raft.last_applied implies nodes[x].raft.log[l].command == nodes[y].raft.log[l].command by {
        assert(!diverge(nodes, false, x, y, l));
    }
    (i, j, k)
}

/// A report of a transaction with two outcomes names every node that decided it,
/// each once, with the decision that it ended in; and no transaction that comes
/// before it in the order of their names has two outcomes.
pub proof fn split_transactions_are_reported(
    nodes: Seq<SimNodeModel>,
    tx_id: Seq<char>,
    per_node: Seq<(Seq<char>, Seq<char>)>,
    i: int,
    k: int,
    decision: TxDecision,
)
    requires
        is_atomicity_violation(nodes, (ViolationModel::TwoPhaseCommitAtomicity { tx_id, per_node })),
        distinct_ids(nodes),
        0 <= i < nodes.len(),
        decides_at(nodes[i].raft.log, k, tx_id, decision),
    ensures
        exists|n: int|
            0 <= n < per_node.len() && #[trigger] per_node[n] == (
                nodes[i].id,
                if decision == TxDecision::Commit {
                    "Commit"@
                } else {
                    "Abort"@
                },
            ),
        forall|m: int, n: int|
            0 <= m < n < per_node.len() ==> (#[trigger] per_node[m]).0 != (#[trigger] per_node[n]).0,
        forall|n: int|
            0 <= n < per_node.len() ==> exists|j: int, l: int, d: TxDecision|
                0 <= j < nodes.len() && nodes[j].id == (#[trigger] per_node[n]).0 && #[trigger] decides_at(
                    nodes[j].raft.log,
                    l,
                    tx_id,
                    d,
                ),
{
    decisions_are_those_of_the_logs(nodes, tx_id);
    let all = all_decisions(nodes);
    let outcomes = all[tx_id];
    let has = |id: Seq<char>| all.contains_key(tx_id) && all[tx_id].contains_key(id);
    let keys = Seq::new(per_node.len(), |n: int| per_node[n].0);
    assert(has(nodes[i].id) && outcomes[nodes[i].id] == decision);
    assert(keys.contains(nodes[i].id));
    let n = choose|n: int| 0 <= n < keys.len() && keys[n] == nodes[i].id;
    assert(per_node[n].0 == nodes[i].id);
    assert(per_node[n].1 == decision_name(outcomes[per_node[n].0]));
    assert forall|m: int, n: int| 0 <= m < n < per_node.len() implies (#[trigger] per_node[m]).0 != (
    #[trigger] per_node[n]).0 by {
        assert(keys[m] == per_node[m].0 && keys[n] == per_node[n].0);
        if keys[m] == keys[n] {
            crate::text_map::ascending_keys_are_distinct(keys, m, n);
        }
    }
    assert forall|n: int| 0 <= n < per_node.len() implies exists|j: int, l: int, d: TxDecision|
        0 <= j < nodes.len() && nodes[j].id == (#[trigger] per_node[n]).0 && #[trigger] decides_at(
            nodes[j].raft.log,
            l,
            tx_id,
            d,
        ) by {
        assert(keys[n] == per_node[n].0);
        assert(keys.contains(keys[n]));
        assert(outcomes.contains_key(per_node[n].0));
        assert(has(per_node[n].0));
        let j = choose|j: int| 0 <= j < nodes.len() && (#[trigger] nodes[j]).id == per_node[n].0;
        assert(has(nodes[j].id));
        let l = choose|l: int| decides_at(nodes[j].raft.log, l, tx_id, all[tx_id][nodes[j].id]);
        assert(decides_at(nodes[j].raft.log, l, tx_id, all[tx_id][nodes[j].id]));
    }
}

/// What a report says in words: what was violated, where, by which nodes, and what
/// each of them has.
pub proof fn reports_are_written_so(
    n: u64,
    a: Seq<char>,
    b: Seq<char>,
    x: Seq<char>,
    y: Seq<char>,
    s: u64,
    t: u64,
    ids: Seq<Seq<char>>,
    pairs: Seq<(Seq<char>, Seq<char>)>,
)
    ensures
        ({
            let decimal = |n: u64| crate::text::decimal(n as nat);
            &&& (ViolationModel::ElectionSafety { term: n, leader_ids: ids }).message()
                == "ElectionSafety violated: term "@ + decimal(n) + " had "@ + crate::text::decimal(ids.len())
                + " leaders ("@ + debug_texts(ids) + ")"@
            &&& (ViolationModel::StateMachineSafety { index: n, node_a: a, node_b: b, a_command: x, b_command: y }).message()
                == "StateMachineSafety violated at index "@ + decimal(n) + ": "@ + a + " has '"@ + x + "', "@ + b
                + " has '"@ + y + "'"@
            &&& (ViolationModel::LogMatchingProperty {
                index: n,
                node_a: a,
                node_b: b,
                a_term: s,
                b_term: t,
                a_command: x,
                b_command: y,
            }).message() == "LogMatchingProperty violated at index "@ + decimal(n) + ": "@ + a + " (term="@ + decimal(s)
                + ", cmd="@ + x + ") vs "@ + b + " (term="@ + decimal(t) + ", cmd="@ + y + ")"@
            &&& (ViolationModel::CommittedEntryDurability {
                index: n,
                node_id: a,
                expected_command: x,
                actual_command: y,
            }).message() == "CommittedEntryDurability violated at index "@ + decimal(n) + " on node "@ + a
                + ": expected '"@ + x + "', got '"@ + y + "'"@
            &&& (ViolationModel::TwoPhaseCommitAtomicity { tx_id: a, per_node: pairs }).message()
                == "2PC atomicity violated for tx "@ + a + ": per-node outcomes = "@ + debug_pairs(pairs)
        }),
{
}

} // verus!
