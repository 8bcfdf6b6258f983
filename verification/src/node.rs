//! A tree node ranked by a single score, for use in the priority heap.

use crate::heap::Rank;
use vstd::prelude::*;

verus! {

/// A node of a candidate tree: an identifier, optional parent and children
/// links, and the score that ranks it.
pub struct Node {
    pub id: usize,
    pub parent: Option<usize>,
    pub childs: Vec<usize>,
    pub score: i32,
}

impl Node {
    /// A fresh node with no parent and no children.
    pub fn new(id: usize, score: i32) -> (r: Self)
        ensures
            r.id == id,
            r.score == score,
            r.parent is None,
            r.childs@ == Seq::<usize>::empty(),
    {
        Node { id, parent: None, childs: Vec::new(), score }
    }
}

impl View for Node {
    type V = Node;

    open spec fn view(&self) -> Node {
        *self
    }
}

impl Rank for Node {
    /// Nodes are ranked by their score alone.
    open spec fn rank_le_spec(a: Node, b: Node) -> bool {
        a.score <= b.score
    }

    proof fn rank_le_total(a: Node, b: Node) {
    }

    proof fn rank_le_trans(a: Node, b: Node, c: Node) {
    }

    fn rank_le(&self, other: &Self) -> (r: bool) {
        self.score <= other.score
    }
}

} // verus!
