use vstd::prelude::*;
use crate::edge::Edge;
use crate::game_state::GameState;
use crate::node::Node;
use crate::node_index::NodeIndex;

verus! {

/// `new` is `old` with its node index replaced by the null index where it pointed into
/// segment `target`; everything else is unchanged.
pub open spec fn edge_cleared(old: Edge, new: Edge, target: int) -> bool {
    &&& new.spec_node_index() == if NodeIndex(old.spec_node_index()).spec_segment() == target {
        u32::MAX
    } else {
        old.spec_node_index()
    }
    &&& new.spec_mv() == old.spec_mv()
    &&& new.spec_policy() == old.spec_policy()
    &&& new.spec_visits() == old.spec_visits()
    &&& new.spec_score() == old.spec_score()
    &&& new.spec_squared_score() == old.spec_squared_score()
}

/// `new` is `old` with every edge cleared of references into segment `target`.
pub open spec fn node_cleared(old: Node, new: Node, target: int) -> bool {
    &&& new.spec_actions().len() == old.spec_actions().len()
    &&& forall|j: int|
        0 <= j < old.spec_actions().len() ==> edge_cleared(
            #[trigger] old.spec_actions()[j],
            new.spec_actions()[j],
            target,
        )
    &&& new.spec_state() == old.spec_state()
    &&& new.spec_key() == old.spec_key()
    &&& new.spec_threads() == old.spec_threads()
    &&& new.spec_gini() == old.spec_gini()
}

/// After a node is cleared of references into segment `target` (a segment other than
/// the null index's), none of its edges points into `target`.
pub proof fn lemma_cleared_has_no_reference(old: Node, new: Node, target: int)
    requires
        node_cleared(old, new, target),
        0 <= target < 3,
    ensures
        forall|j: int| 0 <= j < new.spec_actions().len() ==>
            NodeIndex((#[trigger] new.spec_actions()[j]).spec_node_index()).spec_segment() != target,
{
    assert forall|j: int| 0 <= j < new.spec_actions().len() implies
        NodeIndex((#[trigger] new.spec_actions()[j]).spec_node_index()).spec_segment() != target by {
        assert(edge_cleared(old.spec_actions()[j], new.spec_actions()[j], target));
        assert(u32::MAX >> 30u32 == 3) by (bit_vector);
    }
}

/// After a node is cleared of references into segment `target`, each of its edges is
/// either null or points outside `target`.
pub proof fn lemma_cleared_edges_leave_segment(old: Node, new: Node, target: int)
    requires
        node_cleared(old, new, target),
    ensures
        forall|j: int| 0 <= j < new.spec_actions().len() ==> {
            let idx = NodeIndex((#[trigger] new.spec_actions()[j]).spec_node_index());
            idx.spec_is_null() || idx.spec_segment() != target
        },
{
    assert forall|j: int| 0 <= j < new.spec_actions().len() implies {
        let idx = NodeIndex((#[trigger] new.spec_actions()[j]).spec_node_index());
        idx.spec_is_null() || idx.spec_segment() != target
    } by {
        assert(edge_cleared(old.spec_actions()[j], new.spec_actions()[j], target));
    }
}

/// A fresh node: no edges, unresolved, key, threads and impurity zero.
pub open spec fn fresh_node(n: Node) -> bool {
    &&& n.spec_actions() == Seq::<Edge>::empty()
    &&& n.spec_state() == GameState::Unresolved
    &&& n.spec_key() == 0
    &&& n.spec_threads() == 0
    &&& n.spec_gini() == 0
}

/// A fixed-size block of nodes handed out in order: `length` counts the nodes handed
/// out (it keeps counting past the size when the segment is full).
pub struct TreeSegment {
    nodes: Vec<Node>,
    length: usize,
    segment: u32,
}

impl TreeSegment {
    pub closed spec fn spec_nodes(&self) -> Seq<Node> {
        self.nodes@
    }

    pub closed spec fn spec_len(&self) -> usize {
        self.length
    }

    pub closed spec fn spec_segment(&self) -> u32 {
        self.segment
    }

    /// A segment of `size` fresh nodes with the given segment number.
    pub fn new(size: usize, segment_index: u32) -> (r: TreeSegment)
        ensures
            r.spec_nodes().len() == size,
            forall|i: int| 0 <= i < size ==> fresh_node(#[trigger] r.spec_nodes()[i]),
            r.spec_len() == 0,
            r.spec_segment() == segment_index,
    {
        let mut nodes: Vec<Node> = Vec::new();
        let mut i: usize = 0;
        while i < size
            invariant
                i <= size,
                nodes@.len() == i,
                forall|k: int| 0 <= k < i ==> fresh_node(#[trigger] nodes@[k]),
            decreases size - i,
        {
            nodes.push(Node::new(GameState::Unresolved));
            i = i + 1;
        }
        TreeSegment { nodes, length: 0, segment: segment_index }
    }

    /// Forgets the handed-out nodes; the nodes themselves stay as they are.
    pub fn clear(&mut self)
        ensures
            final(self).spec_len() == 0,
            final(self).spec_nodes() == old(self).spec_nodes(),
            final(self).spec_segment() == old(self).spec_segment(),
    {
        self.length = 0;
    }

    /// Number of nodes handed out, counting the refused requests of a full segment.
    pub fn len(&self) -> (r: usize)
        ensures
            r == self.spec_len(),
    {
        self.length
    }

    pub fn size(&self) -> (r: usize)
        ensures
            r == self.spec_nodes().len(),
    {
        self.nodes.len()
    }

    pub fn is_full(&self) -> (r: bool)
        ensures
            r == (self.spec_len() >= self.spec_nodes().len()),
    {
        self.length >= self.nodes.len()
    }

    pub fn get(&self, index: NodeIndex) -> (r: &Node)
        requires
            index.spec_index() < self.spec_nodes().len(),
        ensures
            *r == self.spec_nodes()[index.spec_index() as int],
    {
        &self.nodes[index.index() as usize]
    }

    pub fn get_mut(&mut self, index: NodeIndex) -> (r: &mut Node)
        requires
            index.spec_index() < old(self).spec_nodes().len(),
        ensures
            *r == old(self).spec_nodes()[index.spec_index() as int],
            final(self).spec_nodes() == old(self).spec_nodes().update(index.spec_index() as int, *final(r)),
            final(self).spec_len() == old(self).spec_len(),
            final(self).spec_segment() == old(self).spec_segment(),
    {
        &mut self.nodes[index.index() as usize]
    }

    /// Hands out the next node, reset to the given state and key, and returns its index;
    /// `None` when all nodes are handed out. The count goes up either way (wrapping).
    pub fn add(&mut self, state: GameState, key: u64) -> (r: Option<NodeIndex>)
        ensures
            final(self).spec_len() == if old(self).spec_len() == usize::MAX { 0 } else { (old(self).spec_len() + 1) as usize },
            final(self).spec_segment() == old(self).spec_segment(),
            final(self).spec_nodes().len() == old(self).spec_nodes().len(),
            old(self).spec_len() >= old(self).spec_nodes().len() ==> {
                &&& r is None
                &&& final(self).spec_nodes() == old(self).spec_nodes()
            },
            old(self).spec_len() < old(self).spec_nodes().len() ==> {
                let i = old(self).spec_len() as int;
                &&& r == Some(NodeIndex(NodeIndex::packed(i as u32, old(self).spec_segment())))
                &&& final(self).spec_nodes()[i].spec_actions() == Seq::<Edge>::empty()
                &&& final(self).spec_nodes()[i].spec_state() == state
                &&& final(self).spec_nodes()[i].spec_key() == key
                &&& final(self).spec_nodes()[i].spec_gini() == 0
                &&& final(self).spec_nodes()[i].spec_threads() == old(self).spec_nodes()[i].spec_threads()
                &&& forall|k: int| 0 <= k < old(self).spec_nodes().len() && k != i ==>
                    #[trigger] final(self).spec_nodes()[k] == old(self).spec_nodes()[k]
            },
    {
        let new_index = self.length;
        self.length = self.length.wrapping_add(1);
        if new_index >= self.nodes.len() {
            return None;
        }
        self.nodes[new_index].replace(state, key);
        Some(NodeIndex::from_parts(new_index as u32, self.segment))
    }

    /// Replaces, in every edge of every node, an index that points into `target_segment`
    /// by the null index.
    pub fn clear_references(&mut self, target_segment: u32)
        ensures
            final(self).spec_nodes().len() == old(self).spec_nodes().len(),
            forall|i: int|
                0 <= i < old(self).spec_nodes().len() ==> node_cleared(
                    #[trigger] old(self).spec_nodes()[i],
                    final(self).spec_nodes()[i],
                    target_segment as int,
                ),
            final(self).spec_len() == old(self).spec_len(),
            final(self).spec_segment() == old(self).spec_segment(),
    {
        let ghost start = self.nodes@;
        let ghost length = self.length;
        let ghost segment = self.segment;
        let mut i: usize = 0;
        while i < self.nodes.len()
            invariant
                self.length == length,
                self.segment == segment,
                i <= self.nodes@.len(),
                self.nodes@.len() == start.len(),
                forall|k: int| 0 <= k < i ==> node_cleared(#[trigger] start[k], self.nodes@[k], target_segment as int),
                forall|k: int| i <= k < start.len() ==> #[trigger] self.nodes@[k] == start[k],
            decreases start.len() - i,
        {
            Self::clear_node_references(&mut self.nodes[i], target_segment);
            i = i + 1;
        }
    }

    fn clear_node_references(node: &mut Node, target_segment: u32)
        ensures
            node_cleared(*old(node), *final(node), target_segment as int),
    {
        let ghost start = node.spec_actions();
        let actions = node.actions_mut();
        let mut j: usize = 0;
        while j < actions.len()
            invariant
                j <= actions@.len(),
                actions@.len() == start.len(),
                forall|k: int| 0 <= k < j ==> edge_cleared(#[trigger] start[k], actions@[k], target_segment as int),
                forall|k: int| j <= k < start.len() ==> #[trigger] actions@[k] == start[k],
            decreases start.len() - j,
        {
            if actions[j].node_index().segment() == target_segment as usize {
                actions[j].set_node_index(NodeIndex::null());
            }
            j = j + 1;
        }
    }
}

} // verus!
