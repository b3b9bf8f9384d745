//! The automaton's store of states and transitions.
//!
//! Both collections have set semantics: inserting a value that is already
//! present leaves the store unchanged, so every state and every transition
//! is held at most once, in insertion order.

use vstd::prelude::*;

verus! {

use crate::RegExpNode;
use crate::RexExpEdge;

/// An unordered collection of automaton states and transitions, kept as
/// duplicate-free vectors in insertion order.
pub struct MathGraph {
    pub nodes: Vec<RegExpNode>,
    pub edges: Vec<RexExpEdge>,
}

impl MathGraph {
    /// Set semantics: no state and no transition is held twice.
    pub open spec fn wf(self) -> bool {
        &&& forall|i: int, j: int|
            0 <= i < j < self.nodes@.len() ==> self.nodes@[i] != self.nodes@[j]
        &&& forall|i: int, j: int|
            0 <= i < j < self.edges@.len() ==> self.edges@[i] != self.edges@[j]
    }

    /// An empty store.
    pub fn new() -> (r: MathGraph)
        ensures
            r.nodes@ == Seq::<RegExpNode>::empty(),
            r.edges@ == Seq::<RexExpEdge>::empty(),
            r.wf(),
    {
        let r = MathGraph { nodes: Vec::new(), edges: Vec::new() };
        proof {
            assert(r.nodes@ =~= Seq::<RegExpNode>::empty());
            assert(r.edges@ =~= Seq::<RexExpEdge>::empty());
        }
        r
    }

    /// Insert a state; a state already present is not added again.
    pub fn add_node(&mut self, node: RegExpNode)
        ensures
            final(self).nodes@ == if old(self).nodes@.contains(node) {
                old(self).nodes@
            } else {
                old(self).nodes@.push(node)
            },
            final(self).edges@ == old(self).edges@,
            old(self).wf() ==> final(self).wf(),
    {
        let mut i: usize = 0;
        while i < self.nodes.len()
            invariant
                i <= self.nodes@.len(),
                *self == *old(self),
                forall|j: int| 0 <= j < i ==> self.nodes@[j] != node,
            decreases self.nodes@.len() - i,
        {
            if self.nodes[i] == node {
                return ;
            }
            i = i + 1;
        }
        self.nodes.push(node);
    }

    /// Insert a transition; a transition already present is not added again.
    pub fn add_edge(&mut self, edge: RexExpEdge)
        ensures
            final(self).edges@ == if old(self).edges@.contains(edge) {
                old(self).edges@
            } else {
                old(self).edges@.push(edge)
            },
            final(self).nodes@ == old(self).nodes@,
            old(self).wf() ==> final(self).wf(),
    {
        let mut i: usize = 0;
        while i < self.edges.len()
            invariant
                i <= self.edges@.len(),
                *self == *old(self),
                forall|j: int| 0 <= j < i ==> self.edges@[j] != edge,
            decreases self.edges@.len() - i,
        {
            if self.edges[i] == edge {
                return ;
            }
            i = i + 1;
        }
        self.edges.push(edge);
    }

    /// All transitions, in insertion order.
    pub fn get_edges(&self) -> (r: &Vec<RexExpEdge>)
        ensures
            r@ == self.edges@,
    {
        &self.edges
    }
}

} // verus!
