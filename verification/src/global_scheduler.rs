//! The global scheduler's view of the cluster: the latest report of every
//! node, and the alive nodes that a placement policy chooses from.

use vstd::prelude::*;
use vstd::string::*;
use crate::error::{RayError, RayResult};
use crate::id::NodeId;
use crate::table::{Table, lists_values};

verus! {

/// View of a single node's resources, maintained by the global scheduler.
#[derive(Debug, Clone)]
pub struct NodeView<R> {
    pub node_id: NodeId,
    pub address: String,
    pub port: i32,
    pub available: R,
    pub total: R,
    pub is_alive: bool,
}

/// The alive nodes of `s`, in order.
pub open spec fn alive_only<R>(s: Seq<NodeView<R>>) -> Seq<NodeView<R>> {
    s.filter(|n: NodeView<R>| n.is_alive)
}

/// The cluster view of the global scheduler. The placement policy that
/// picks among the alive nodes is applied to `schedule_candidates`.
pub struct GlobalScheduler<R> {
    nodes: Table<NodeId, NodeView<R>>,
}

impl<R> GlobalScheduler<R> {
    /// The latest view of each node, by node id.
    pub closed spec fn node_map(&self) -> Map<Seq<u8>, NodeView<R>> {
        self.nodes@
    }

    /// The node views in listing order.
    pub closed spec fn node_list(&self) -> Seq<NodeView<R>> {
        self.nodes.val_seq()
    }

    pub closed spec fn wf(&self) -> bool {
        self.nodes.wf()
    }

    /// The listing holds exactly the latest view of each node, one per node.
    pub proof fn lemma_listing(&self)
        requires
            self.wf(),
        ensures
            lists_values(self.node_map(), self.node_list()),
    {
        self.nodes.lemma_listing();
    }

    /// A scheduler that knows no node yet.
    pub fn new() -> (s: Self)
        ensures
            s.wf(),
            s.node_map() == Map::<Seq<u8>, NodeView<R>>::empty(),
            s.node_list().len() == 0,
    {
        GlobalScheduler { nodes: Table::new() }
    }

    /// Update the view of a node (called when a heartbeat is received).
    pub fn update_node(&mut self, view: NodeView<R>)
        requires
            old(self).wf(),
        ensures
            final(self).wf(),
            final(self).node_map() == old(self).node_map().insert(view.node_id@, view),
    {
        let node_id = view.node_id.clone();
        self.nodes.insert(node_id, view);
    }

    /// Remove a node from the view (called when a node dies or is removed).
    pub fn remove_node(&mut self, node_id: &NodeId)
        requires
            old(self).wf(),
        ensures
            final(self).wf(),
            final(self).node_map() == old(self).node_map().remove(node_id@),
    {
        let _ = self.nodes.remove(node_id);
    }

    /// The alive nodes a task may be placed on, in listing order, or
    /// `SchedulingFailed("No alive nodes in cluster")` when there is none.
    pub fn schedule_candidates(&self) -> (r: RayResult<Vec<&NodeView<R>>>)
        requires
            self.wf(),
        ensures
            alive_only(self.node_list()).len() == 0 ==> (r matches Err(RayError::SchedulingFailed(m))
                && m@ == "No alive nodes in cluster"@),
            alive_only(self.node_list()).len() > 0 ==> (r matches Ok(v) && v@.len() == alive_only(self.node_list()).len()
                && forall|i: int| 0 <= i < v@.len() ==> *(#[trigger] v@[i]) == alive_only(self.node_list())[i]),
    {
        let all = self.nodes.values();
        let ghost s = all@;
        let ghost pred = |n: NodeView<R>| n.is_alive;
        let mut out: Vec<&NodeView<R>> = Vec::new();
        let mut i: usize = 0;
        while i < all.len()
            invariant
                s == all@,
                i <= s.len(),
                pred == (|n: NodeView<R>| n.is_alive),
                out@.len() == s.subrange(0, i as int).filter(pred).len(),
                forall|k: int| 0 <= k < out@.len() ==> *(#[trigger] out@[k]) == s.subrange(0, i as int).filter(pred)[k],
            decreases s.len() - i,
        {
            let n = &all[i];
            proof {
                let sub = s.subrange(0, i as int + 1);
                assert(sub.drop_last() =~= s.subrange(0, i as int));
                assert(sub.last() == s[i as int]);
                reveal(Seq::filter);
            }
            if n.is_alive {
                out.push(n);
            }
            i = i + 1;
        }
        proof {
            assert(s.subrange(0, s.len() as int) =~= s);
        }
        if out.len() == 0 {
            proof {
                reveal_strlit("No alive nodes in cluster");
            }
            return Err(RayError::SchedulingFailed(String::from_str("No alive nodes in cluster")));
        }
        Ok(out)
    }

    /// Get a snapshot of all node views.
    pub fn get_all_nodes(&self) -> (v: &Vec<NodeView<R>>)
        requires
            self.wf(),
        ensures
            v@ == self.node_list(),
    {
        self.nodes.values()
    }

    /// Get the number of alive nodes.
    pub fn alive_node_count(&self) -> (n: usize)
        requires
            self.wf(),
        ensures
            n == alive_only(self.node_list()).len(),
    {
        let all = self.nodes.values();
        let ghost s = all@;
        let ghost pred = |n: NodeView<R>| n.is_alive;
        let mut count: usize = 0;
        let mut i: usize = 0;
        while i < all.len()
            invariant
                s == all@,
                i <= s.len(),
                pred == (|n: NodeView<R>| n.is_alive),
                count == s.subrange(0, i as int).filter(pred).len(),
                count <= i,
            decreases s.len() - i,
        {
            proof {
                let sub = s.subrange(0, i as int + 1);
                assert(sub.drop_last() =~= s.subrange(0, i as int));
                assert(sub.last() == s[i as int]);
                reveal(Seq::filter);
            }
            if all[i].is_alive {
                count = count + 1;
            }
            i = i + 1;
        }
        proof {
            assert(s.subrange(0, s.len() as int) =~= s);
        }
        count
    }
}

} // verus!
