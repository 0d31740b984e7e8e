//! A cluster of nodes in one process, as the safety checks look at it.

use crate::raft::model::NodeModel;
use crate::raft::node::{NodeState, RaftNode};
use vstd::prelude::*;

verus! {

/// A node of a cluster and the name that it goes by there.
#[derive(Debug)]
pub struct SimNode {
    pub id: String,
    pub raft: RaftNode,
}

/// The nodes of a cluster.
#[derive(Debug)]
pub struct SimCluster {
    pub nodes: Vec<SimNode>,
}

#[verifier::ext_equal]
pub struct SimNodeModel {
    pub id: Seq<char>,
    pub raft: NodeModel,
}

impl DeepView for SimNode {
    type V = SimNodeModel;

    open spec fn deep_view(&self) -> SimNodeModel {
        SimNodeModel { id: self.id@, raft: self.raft@ }
    }
}

impl View for SimCluster {
    type V = Seq<SimNodeModel>;

    open spec fn view(&self) -> Seq<SimNodeModel> {
        self.nodes.deep_view()
    }
}

/// `index` is the place of the first node that leads.
pub open spec fn is_first_leader(nodes: Seq<SimNodeModel>, index: int) -> bool {
    &&& 0 <= index < nodes.len()
    &&& nodes[index].raft.state == NodeState::Leader
    &&& forall|i: int| 0 <= i < index ==> (#[trigger] nodes[i]).raft.state != NodeState::Leader
}

/// No node leads.
pub open spec fn leaderless(nodes: Seq<SimNodeModel>) -> bool {
    forall|i: int| 0 <= i < nodes.len() ==> (#[trigger] nodes[i]).raft.state != NodeState::Leader
}

impl SimCluster {
    /// The place of the first node that leads.
    pub fn leader_index(&self) -> (leader: Option<usize>)
        ensures
            match leader {
                Some(index) => is_first_leader(self@, index as int),
                None => leaderless(self@),
            },
    {
        let mut i: usize = 0;
        while i < self.nodes.len()
            invariant
                i <= self.nodes@.len(),
                forall|j: int| 0 <= j < i ==> (#[trigger] self@[j]).raft.state != NodeState::Leader,
            decreases self.nodes@.len() - i,
        {
            assert(self@[i as int] == self.nodes@[i as int].deep_view());
            if self.nodes[i].raft.state == NodeState::Leader {
                return Some(i);
            }
            i = i + 1;
        }
        None
    }
}

} // verus!
