use vstd::prelude::*;
use crate::chess::Move;
use crate::edge::{Edge, POLICY_ONE};
use crate::game_state::GameState;
use crate::hash_table::HashTable;
use crate::node::Node;
use crate::node_index::{NodeIndex, INDEX_MASK};
use crate::score::AtomicScore;
use crate::tree_segment::{TreeSegment, fresh_node, node_cleared};

verus! {

/// Number of node segments of the tree.
pub const SEGMENT_COUNT: usize = 2;

/// Bytes of tree memory counted per node (a node and twenty edges).
pub const BYTES_PER_NODE: usize = 536;

/// Largest number of nodes in a segment.
pub const MAX_SEGMENT_SIZE: usize = 0x7FFF_FFFE;

/// The search tree: two segments of nodes used in turns (when the current one fills up,
/// the other one is cleared and becomes current), the edge leading to the root, and the
/// evaluation cache. The root is the first node of the current segment.
pub struct Tree {
    segments: Vec<TreeSegment>,
    root_edge: Edge,
    current_segment: usize,
    tree_size_in_bytes: usize,
    hash_table: HashTable,
}

/// Whether the node index points at segment `s`, slot `i`.
pub open spec fn points_at(idx: NodeIndex, s: int, i: int) -> bool {
    idx.spec_segment() == s && idx.spec_index() == i
}

/// `new_node` is `old_node` with edge `action` pointing at `target`.
pub open spec fn edge_redirected(old_node: Node, new_node: Node, action: int, target: NodeIndex) -> bool {
    let oe = old_node.spec_actions()[action];
    let ne = new_node.spec_actions()[action];
    &&& new_node.spec_actions().len() == old_node.spec_actions().len()
    &&& ne.spec_node_index() == target.0
    &&& ne.spec_mv() == oe.spec_mv()
    &&& ne.spec_policy() == oe.spec_policy()
    &&& ne.spec_visits() == oe.spec_visits()
    &&& ne.spec_score() == oe.spec_score()
    &&& ne.spec_squared_score() == oe.spec_squared_score()
    &&& forall|j: int| 0 <= j < old_node.spec_actions().len() && j != action ==>
        #[trigger] new_node.spec_actions()[j] == old_node.spec_actions()[j]
    &&& new_node.spec_state() == old_node.spec_state()
    &&& new_node.spec_key() == old_node.spec_key()
    &&& new_node.spec_threads() == old_node.spec_threads()
    &&& new_node.spec_gini() == old_node.spec_gini()
}

impl Tree {
    pub closed spec fn spec_segments(&self) -> Seq<TreeSegment> {
        self.segments@
    }

    pub closed spec fn spec_current(&self) -> int {
        self.current_segment as int
    }

    pub closed spec fn spec_root_edge(&self) -> Edge {
        self.root_edge
    }

    pub closed spec fn spec_hash_table(&self) -> HashTable {
        self.hash_table
    }

    pub closed spec fn spec_size_in_bytes(&self) -> usize {
        self.tree_size_in_bytes
    }

    /// Number of node slots in each segment.
    pub open spec fn segment_size(&self) -> int {
        self.spec_segments()[0].spec_nodes().len() as int
    }

    /// Two segments numbered `0` and `1`, of one size that in-segment indices can address,
    /// and a current segment among them.
    pub open spec fn wf(&self) -> bool {
        &&& self.spec_segments().len() == SEGMENT_COUNT
        &&& 0 <= self.spec_current() < SEGMENT_COUNT
        &&& forall|s: int|
            0 <= s < SEGMENT_COUNT ==> (#[trigger] self.spec_segments()[s]).spec_segment() == s
                && self.spec_segments()[s].spec_nodes().len() == self.segment_size()
        &&& self.segment_size() <= INDEX_MASK as int + 1
    }

    /// The node at segment `s`, slot `i`.
    pub open spec fn node_at(&self, s: int, i: int) -> Node {
        self.spec_segments()[s].spec_nodes()[i]
    }

    /// The node that a node index points at.
    pub open spec fn node_of(&self, idx: NodeIndex) -> Node {
        self.node_at(idx.spec_segment(), idx.spec_index() as int)
    }

    /// Whether a node index points at a node of the tree (the null index does not).
    pub open spec fn valid_index(&self, idx: NodeIndex) -> bool {
        &&& 0 <= idx.spec_segment() < SEGMENT_COUNT
        &&& idx.spec_index() < self.segment_size()
    }

    pub open spec fn root_index_spec(&self) -> NodeIndex {
        NodeIndex(NodeIndex::packed(0, self.spec_current() as u32))
    }

    /// Same segment bookkeeping, root edge, cache and size.
    pub open spec fn same_frame(&self, other: &Tree) -> bool {
        &&& other.spec_segments().len() == self.spec_segments().len()
        &&& other.spec_current() == self.spec_current()
        &&& other.spec_root_edge() == self.spec_root_edge()
        &&& other.spec_hash_table() == self.spec_hash_table()
        &&& other.spec_size_in_bytes() == self.spec_size_in_bytes()
        &&& forall|s: int|
            0 <= s < self.spec_segments().len() ==> (#[trigger] other.spec_segments()[s]).spec_len()
                == self.spec_segments()[s].spec_len() && other.spec_segments()[s].spec_segment()
                == self.spec_segments()[s].spec_segment() && other.spec_segments()[s].spec_nodes().len()
                == self.spec_segments()[s].spec_nodes().len()
    }

    /// `other` has the same nodes as `self` except at the positions of `a` and `b`.
    pub open spec fn same_nodes_except(&self, other: &Tree, a: NodeIndex, b: NodeIndex) -> bool {
        forall|s: int, i: int|
            0 <= s < SEGMENT_COUNT && 0 <= i < self.segment_size() && !points_at(a, s, i)
                && !points_at(b, s, i) ==> #[trigger] other.node_at(s, i) == self.node_at(s, i)
    }

    /// A tree of `size_in_mb` megabytes, of which `hash_bytes` go to the evaluation cache
    /// and the rest to the nodes; each segment holds half of the nodes, at most
    /// `MAX_SEGMENT_SIZE`. All nodes are fresh and no node is handed out yet.
    pub fn new(size_in_mb: i32, hash_bytes: usize) -> (r: Tree)
        requires
            size_in_mb >= 0,
            size_in_mb * 1024 * 1024 <= usize::MAX,
            hash_bytes <= size_in_mb * 1024 * 1024,
            ((size_in_mb * 1024 * 1024 - hash_bytes) / BYTES_PER_NODE as int) / 2 <= INDEX_MASK as int + 1,
        ensures
            r.wf(),
            r.segment_size() == ((size_in_mb * 1024 * 1024 - hash_bytes) / BYTES_PER_NODE as int) / 2,
            r.spec_size_in_bytes() == size_in_mb * 1024 * 1024 - hash_bytes,
            r.spec_current() == 0,
            r.spec_hash_table().spec_entries().len() == hash_bytes / 8,
            forall|i: int| 0 <= i < hash_bytes / 8 ==> #[trigger] r.spec_hash_table().spec_entries()[i].spec_key() == 0
                && r.spec_hash_table().spec_entries()[i].spec_score() == AtomicScore(0, 0),
            forall|s: int| 0 <= s < SEGMENT_COUNT ==> (#[trigger] r.spec_segments()[s]).spec_len() == 0,
            forall|s: int, i: int| 0 <= s < SEGMENT_COUNT && 0 <= i < r.segment_size() ==> fresh_node(#[trigger] r.node_at(s, i)),
            r.spec_root_edge().spec_node_index() == 0,
            r.spec_root_edge().spec_mv() == 0,
            r.spec_root_edge().spec_policy() == 0,
            r.spec_root_edge().spec_visits() == 0,
            r.spec_root_edge().spec_score() == AtomicScore(0, 0),
            r.spec_root_edge().spec_squared_score() == 0,
    {
        let bytes: usize = (size_in_mb as usize) * 1024 * 1024;
        let hash_table = HashTable::new(hash_bytes);
        let tree_bytes = bytes - hash_bytes;
        let tree_size = tree_bytes / BYTES_PER_NODE;
        let half = tree_size / SEGMENT_COUNT;
        let segment_size = if half < MAX_SEGMENT_SIZE { half } else { MAX_SEGMENT_SIZE };
        let mut segments: Vec<TreeSegment> = Vec::new();
        segments.push(TreeSegment::new(segment_size, 0));
        segments.push(TreeSegment::new(segment_size, 1));
        let r = Tree {
            segments,
            root_edge: Edge::new(NodeIndex::from_raw(0), Move::null(), 0),
            current_segment: 0,
            tree_size_in_bytes: tree_bytes,
            hash_table,
        };
        proof {
            assert(r.spec_segments()[0].spec_segment() == 0);
            assert(r.spec_segments()[1].spec_segment() == 1);
        }
        r
    }

    /// Replaces the tree by a new one of the given size.
    pub fn resize_tree(&mut self, size_in_mb: i32, hash_bytes: usize)
        requires
            size_in_mb >= 0,
            size_in_mb * 1024 * 1024 <= usize::MAX,
            hash_bytes <= size_in_mb * 1024 * 1024,
            ((size_in_mb * 1024 * 1024 - hash_bytes) / BYTES_PER_NODE as int) / 2 <= INDEX_MASK as int + 1,
        ensures
            final(self).wf(),
            final(self).segment_size() == ((size_in_mb * 1024 * 1024 - hash_bytes) / BYTES_PER_NODE as int) / 2,
            final(self).spec_current() == 0,
            final(self).spec_size_in_bytes() == size_in_mb * 1024 * 1024 - hash_bytes,
            final(self).spec_hash_table().spec_entries().len() == hash_bytes / 8,
            forall|i: int| 0 <= i < hash_bytes / 8 ==> #[trigger] final(self).spec_hash_table().spec_entries()[i].spec_key() == 0
                && final(self).spec_hash_table().spec_entries()[i].spec_score() == AtomicScore(0, 0),
            forall|s: int| 0 <= s < SEGMENT_COUNT ==> (#[trigger] final(self).spec_segments()[s]).spec_len() == 0,
            forall|s: int, i: int| 0 <= s < SEGMENT_COUNT && 0 <= i < final(self).segment_size() ==> fresh_node(#[trigger] final(self).node_at(s, i)),
            final(self).spec_root_edge().spec_node_index() == 0,
            final(self).spec_root_edge().spec_mv() == 0,
            final(self).spec_root_edge().spec_policy() == 0,
            final(self).spec_root_edge().spec_visits() == 0,
            final(self).spec_root_edge().spec_score() == AtomicScore(0, 0),
            final(self).spec_root_edge().spec_squared_score() == 0,
    {
        *self = Tree::new(size_in_mb, hash_bytes);
    }

    pub fn root_index(&self) -> (r: NodeIndex)
        requires
            self.wf(),
        ensures
            r == self.root_index_spec(),
            r.spec_segment() == self.spec_current(),
            r.spec_index() == 0,
    {
        proof {
            crate::node_index::lemma_parts_roundtrip(0, self.spec_current() as u32);
        }
        NodeIndex::from_parts(0, self.current_segment as u32)
    }

    pub fn root_edge(&self) -> (r: &Edge)
        ensures
            *r == self.spec_root_edge(),
    {
        &self.root_edge
    }

    pub fn current_segment(&self) -> (r: &TreeSegment)
        requires
            self.wf(),
        ensures
            *r == self.spec_segments()[self.spec_current()],
    {
        &self.segments[self.current_segment]
    }

    pub fn hash_table(&self) -> (r: &HashTable)
        ensures
            *r == self.spec_hash_table(),
    {
        &self.hash_table
    }

    pub fn hash_table_mut(&mut self) -> (r: &mut HashTable)
        ensures
            *r == old(self).spec_hash_table(),
            final(self).spec_hash_table() == *final(r),
            final(self).spec_segments() == old(self).spec_segments(),
            final(self).spec_current() == old(self).spec_current(),
            final(self).spec_root_edge() == old(self).spec_root_edge(),
            final(self).spec_size_in_bytes() == old(self).spec_size_in_bytes(),
    {
        &mut self.hash_table
    }

    /// Bytes of memory given to the nodes.
    pub fn tree_size_in_bytes(&self) -> (r: usize)
        ensures
            r == self.spec_size_in_bytes(),
    {
        self.tree_size_in_bytes
    }

    /// Number of nodes handed out of segment `s` (counting refused requests) and its size.
    pub fn segment_usage(&self, s: usize) -> (r: (usize, usize))
        requires
            self.wf(),
            s < SEGMENT_COUNT,
        ensures
            r.0 == self.spec_segments()[s as int].spec_len(),
            r.1 == self.segment_size(),
    {
        (self.segments[s].len(), self.segments[s].size())
    }

    /// The node that `index` points at.
    pub fn node(&self, index: NodeIndex) -> (r: &Node)
        requires
            self.wf(),
            self.valid_index(index),
        ensures
            *r == self.node_of(index),
    {
        self.segments[index.segment()].get(index)
    }

    /// Mutable access to the node that `index` points at; no other node changes.
    pub fn node_mut(&mut self, index: NodeIndex) -> (r: &mut Node)
        requires
            old(self).wf(),
            old(self).valid_index(index),
        ensures
            *r == old(self).node_of(index),
            final(self).wf(),
            old(self).same_frame(&*final(self)),
            final(self).node_of(index) == *final(r),
            old(self).same_nodes_except(&*final(self), index, index),
    {
        let s = index.segment();
        self.segments[s].get_mut(index)
    }

    /// A copy of edge `action_index` of the node at `node_index`.
    pub fn get_edge_clone(&self, node_index: NodeIndex, action_index: usize) -> (r: Edge)
        requires
            self.wf(),
            self.valid_index(node_index),
            action_index < self.node_of(node_index).spec_actions().len(),
        ensures
            r == self.node_of(node_index).spec_actions()[action_index as int],
    {
        self.node(node_index).actions()[action_index]
    }

    /// Records a visit on edge `action_index` of the node at `node_index`, with the new
    /// mean score and mean squared score.
    pub fn add_edge_score(&mut self, node_index: NodeIndex, action_index: usize, score: AtomicScore, squared_score: u32)
        requires
            old(self).wf(),
            old(self).valid_index(node_index),
            action_index < old(self).node_of(node_index).spec_actions().len(),
        ensures
            final(self).wf(),
            old(self).same_frame(&*final(self)),
            old(self).same_nodes_except(&*final(self), node_index, node_index),
            final(self).node_of(node_index).spec_actions().len() == old(self).node_of(node_index).spec_actions().len(),
            final(self).node_of(node_index).spec_actions()[action_index as int].spec_score() == score,
            final(self).node_of(node_index).spec_actions()[action_index as int].spec_visits() == if old(self).node_of(node_index).spec_actions()[action_index as int].spec_visits() == u32::MAX {
                0
            } else {
                (old(self).node_of(node_index).spec_actions()[action_index as int].spec_visits() + 1) as u32
            },
            final(self).node_of(node_index).spec_actions()[action_index as int].spec_squared_score() == squared_score,
            final(self).node_of(node_index).spec_actions()[action_index as int].spec_node_index()
                == old(self).node_of(node_index).spec_actions()[action_index as int].spec_node_index(),
            final(self).node_of(node_index).spec_actions()[action_index as int].spec_mv()
                == old(self).node_of(node_index).spec_actions()[action_index as int].spec_mv(),
            final(self).node_of(node_index).spec_actions()[action_index as int].spec_policy()
                == old(self).node_of(node_index).spec_actions()[action_index as int].spec_policy(),
            final(self).node_of(node_index).spec_actions() == old(self).node_of(node_index).spec_actions().update(
                action_index as int,
                crate::edge::scored(old(self).node_of(node_index).spec_actions()[action_index as int], score, squared_score),
            ),
            final(self).node_of(node_index).spec_state() == old(self).node_of(node_index).spec_state(),
            final(self).node_of(node_index).spec_key() == old(self).node_of(node_index).spec_key(),
            final(self).node_of(node_index).spec_threads() == old(self).node_of(node_index).spec_threads(),
            final(self).node_of(node_index).spec_gini() == old(self).node_of(node_index).spec_gini(),
    {
        let node = self.node_mut(node_index);
        let actions = node.actions_mut();
        actions[action_index].add_score(score, squared_score);
    }
    /// Index of the edge `e` leads along.
    pub open spec fn target(e: Edge) -> NodeIndex {
        NodeIndex(e.spec_node_index())
    }

    /// The edge leads to a node whose state is won.
    pub open spec fn child_won(&self, e: Edge) -> bool {
        &&& !Tree::target(e).spec_is_null()
        &&& self.node_of(Tree::target(e)).spec_state() is Won
    }

    /// The largest of `x` and the mate lengths of the won nodes that the edges lead to.
    pub open spec fn longest_win(&self, edges: Seq<Edge>, x: int) -> int
        decreases edges.len(),
    {
        if edges.len() == 0 {
            x
        } else {
            let m = self.longest_win(edges.drop_last(), x);
            let y = match self.node_of(Tree::target(edges.last())).spec_state() {
                GameState::Won(n) => n as int,
                _ => 0int,
            };
            if y > m {
                y
            } else {
                m
            }
        }
    }

    /// A parent is proven lost only when every one of its moves is expanded and leads to a
    /// won node: one unexpanded move (an edge with the null index), or one child that is not
    /// won, leaves a won report without effect.
    pub proof fn lemma_loss_needs_every_child_won(&self, edges: Seq<Edge>)
        ensures
            self.all_children_won(edges) <==> forall|j: int| 0 <= j < edges.len() ==> {
                &&& !NodeIndex(#[trigger] edges[j].spec_node_index()).spec_is_null()
                &&& self.node_of(NodeIndex(edges[j].spec_node_index())).spec_state() is Won
            },
            (exists|j: int| 0 <= j < edges.len() && NodeIndex(#[trigger] edges[j].spec_node_index()).spec_is_null())
                ==> !self.all_children_won(edges),
    {
        if exists|j: int| 0 <= j < edges.len() && NodeIndex(#[trigger] edges[j].spec_node_index()).spec_is_null() {
            let j = choose|j: int| 0 <= j < edges.len() && NodeIndex(#[trigger] edges[j].spec_node_index()).spec_is_null();
            assert(!self.child_won(edges[j]));
        }
    }

    /// The mate length that a lost parent takes is the longest among its won children (or
    /// the reported one, if longer): at least each child's and the reported length, and,
    /// for a reported length of zero or more, equal to one of them.
    pub proof fn lemma_longest_win_is_max(&self, edges: Seq<Edge>, x: int)
        ensures
            self.longest_win(edges, x) >= x,
            forall|j: int| 0 <= j < edges.len()
                && (#[trigger] self.node_of(NodeIndex(edges[j].spec_node_index())).spec_state() is Won)
                ==> self.longest_win(edges, x) >= self.node_of(NodeIndex(edges[j].spec_node_index())).spec_state()->Won_0,
            x >= 0 ==> self.longest_win(edges, x) == x || exists|j: int| 0 <= j < edges.len()
                && #[trigger] self.node_of(NodeIndex(edges[j].spec_node_index())).spec_state()
                == GameState::Won(self.longest_win(edges, x) as u8) && 0 <= self.longest_win(edges, x) < 256,
        decreases edges.len(),
    {
        if edges.len() > 0 {
            let prev = edges.drop_last();
            self.lemma_longest_win_is_max(prev, x);
            let m = self.longest_win(prev, x);
            let last = edges.len() - 1;
            assert(edges[last] == edges.last());
            assert forall|j: int| 0 <= j < edges.len()
                && (#[trigger] self.node_of(NodeIndex(edges[j].spec_node_index())).spec_state() is Won)
                implies self.longest_win(edges, x) >= self.node_of(NodeIndex(edges[j].spec_node_index())).spec_state()->Won_0 by {
                if j < last {
                    assert(prev[j] == edges[j]);
                }
            }
            if x >= 0 && self.longest_win(edges, x) != x {
                if self.longest_win(edges, x) == m {
                    let j = choose|j: int| 0 <= j < prev.len()
                        && #[trigger] self.node_of(NodeIndex(prev[j].spec_node_index())).spec_state()
                        == GameState::Won(m as u8) && 0 <= m < 256;
                    assert(prev[j] == edges[j]);
                } else {
                    assert(self.node_of(NodeIndex(edges[last].spec_node_index())).spec_state()
                        == GameState::Won(self.longest_win(edges, x) as u8));
                }
            }
        }
    }

    /// Every edge leads to a won node: the side to move is mated whatever it plays.
    pub open spec fn all_children_won(&self, edges: Seq<Edge>) -> bool {
        forall|j: int| 0 <= j < edges.len() ==> self.child_won(#[trigger] edges[j])
    }

    /// Each edge that the scan of `backpropagate_mates` reaches (all before it lead to won
    /// nodes) either is null or points at a node of the tree.
    pub open spec fn scanned_edges_valid(&self, edges: Seq<Edge>) -> bool {
        forall|j: int|
            0 <= j < edges.len() && (forall|k: int| 0 <= k < j ==> self.child_won(#[trigger] edges[k]))
                && !Tree::target(#[trigger] edges[j]).spec_is_null() ==> self.valid_index(Tree::target(edges[j]))
    }

    /// Carries a proven result of a child up to its parent: a lost child makes the parent
    /// won one ply later; a won child makes the parent lost, one ply after its longest
    /// mate, once every edge of the parent leads to a won node.
    pub fn backpropagate_mates(&mut self, parent_node_index: NodeIndex, child_state: GameState)
        requires
            old(self).wf(),
            old(self).valid_index(parent_node_index),
            child_state matches GameState::Lost(x) ==> x < 255,
            child_state matches GameState::Won(x) ==> {
                &&& old(self).scanned_edges_valid(old(self).node_of(parent_node_index).spec_actions())
                &&& old(self).all_children_won(old(self).node_of(parent_node_index).spec_actions())
                    ==> old(self).longest_win(old(self).node_of(parent_node_index).spec_actions(), x as int) < 255
            },
        ensures
            final(self).wf(),
            old(self).same_frame(&*final(self)),
            old(self).same_nodes_except(&*final(self), parent_node_index, parent_node_index),
            final(self).node_of(parent_node_index).spec_actions() == old(self).node_of(parent_node_index).spec_actions(),
            final(self).node_of(parent_node_index).spec_key() == old(self).node_of(parent_node_index).spec_key(),
            final(self).node_of(parent_node_index).spec_state() == match child_state {
                GameState::Lost(x) => GameState::Won((x + 1) as u8),
                GameState::Won(x) => if old(self).all_children_won(old(self).node_of(parent_node_index).spec_actions()) {
                    GameState::Lost((old(self).longest_win(old(self).node_of(parent_node_index).spec_actions(), x as int) + 1) as u8)
                } else {
                    old(self).node_of(parent_node_index).spec_state()
                },
                _ => old(self).node_of(parent_node_index).spec_state(),
            },
    {
        match child_state {
            GameState::Lost(x) => {
                let node = self.node_mut(parent_node_index);
                node.set_state(GameState::Won(x + 1));
            },
            GameState::Won(x) => {
                let ghost edges = self.node_of(parent_node_index).spec_actions();
                let mut proven_loss = true;
                let mut longest_win_length: u8 = x;
                let mut j: usize = 0;
                let len = self.node(parent_node_index).actions().len();
                while j < len && proven_loss
                    invariant
                        self.wf(),
                        self.valid_index(parent_node_index),
                        edges == self.node_of(parent_node_index).spec_actions(),
                        len == edges.len(),
                        j <= len,
                        self.scanned_edges_valid(edges),
                        proven_loss ==> forall|k: int| 0 <= k < j ==> self.child_won(#[trigger] edges[k]),
                        proven_loss ==> longest_win_length as int == self.longest_win(edges.take(j as int), x as int),
                        !proven_loss ==> !self.all_children_won(edges),
                        self.all_children_won(edges) ==> self.longest_win(edges, x as int) < 255,
                    decreases len - j + (if proven_loss { 1int } else { 0int }),
                {
                    let edge = self.node(parent_node_index).actions()[j];
                    assert(edge == edges[j as int]);
                    let child = edge.node_index();
                    if child.is_null() {
                        proven_loss = false;
                        assert(!self.child_won(edges[j as int]));
                    } else {
                        assert(self.valid_index(child));
                        match self.node(child).state() {
                            GameState::Won(y) => {
                                proof {
                                    assert(self.child_won(edges[j as int]));
                                    assert(edges.take(j + 1).drop_last() =~= edges.take(j as int));
                                    assert(edges.take(j + 1).last() == edges[j as int]);
                                }
                                if y > longest_win_length {
                                    longest_win_length = y;
                                }
                                j = j + 1;
                            },
                            _ => {
                                proven_loss = false;
                                assert(!self.child_won(edges[j as int]));
                            },
                        }
                    }
                }
                if proven_loss {
                    proof {
                        assert(edges.take(len as int) =~= edges);
                        assert(self.all_children_won(edges));
                    }
                    let node = self.node_mut(parent_node_index);
                    node.set_state(GameState::Lost(longest_win_length + 1));
                }
            },
            _ => {},
        }
    }


    /// Two node indices that point at nodes of the tree are equal when they point at the
    /// same slot.
    pub proof fn lemma_same_slot(&self, a: NodeIndex, b: NodeIndex)
        requires
            self.wf(),
            self.valid_index(a),
            self.valid_index(b),
            points_at(a, b.spec_segment(), b.spec_index() as int),
        ensures
            a == b,
    {
        crate::node_index::lemma_parts_cover(a);
        crate::node_index::lemma_parts_cover(b);
    }

    /// Copies the state and key of the node at `a` to the node at `b` and, where `a` has
    /// edges, swaps the edges of the two nodes.
    pub(crate) fn copy_node(&mut self, a: NodeIndex, b: NodeIndex)
        requires
            old(self).wf(),
            old(self).valid_index(a),
            old(self).valid_index(b),
        ensures
            final(self).wf(),
            old(self).same_frame(&*final(self)),
            old(self).same_nodes_except(&*final(self), a, b),
            a == b ==> final(self).node_of(a) == old(self).node_of(a),
            a != b ==> {
                &&& final(self).node_of(b).spec_state() == old(self).node_of(a).spec_state()
                &&& final(self).node_of(b).spec_key() == old(self).node_of(a).spec_key()
                &&& final(self).node_of(b).spec_threads() == old(self).node_of(b).spec_threads()
                &&& final(self).node_of(b).spec_gini() == old(self).node_of(b).spec_gini()
                &&& final(self).node_of(a).spec_state() == old(self).node_of(a).spec_state()
                &&& final(self).node_of(a).spec_key() == old(self).node_of(a).spec_key()
                &&& final(self).node_of(a).spec_threads() == old(self).node_of(a).spec_threads()
                &&& final(self).node_of(a).spec_gini() == old(self).node_of(a).spec_gini()
                &&& if old(self).node_of(a).spec_actions().len() == 0 {
                    &&& final(self).node_of(a).spec_actions() == old(self).node_of(a).spec_actions()
                    &&& final(self).node_of(b).spec_actions() == old(self).node_of(b).spec_actions()
                } else {
                    &&& final(self).node_of(a).spec_actions() == old(self).node_of(b).spec_actions()
                    &&& final(self).node_of(b).spec_actions() == old(self).node_of(a).spec_actions()
                }
            },
    {
        if a == b {
            return;
        }
        proof {
            if points_at(a, b.spec_segment(), b.spec_index() as int) {
                self.lemma_same_slot(a, b);
            }
        }
        let state = self.node(a).state();
        let key = self.node(a).key();
        let node_b = self.node_mut(b);
        node_b.set_state(state);
        node_b.set_key(key);
        if self.node(a).actions().len() == 0 {
            return;
        }
        let mut tmp: Vec<Edge> = Vec::new();
        let node_a = self.node_mut(a);
        std::mem::swap(&mut tmp, node_a.actions_mut());
        let node_b = self.node_mut(b);
        std::mem::swap(&mut tmp, node_b.actions_mut());
        let node_a = self.node_mut(a);
        std::mem::swap(&mut tmp, node_a.actions_mut());
    }

    /// Starts over in the other segment: edges in the current segment that point into
    /// the other segment are nulled, the other segment becomes current and empty, and its
    /// first node takes over the old root's state, key and edges.
    pub fn advance_segments(&mut self)
        requires
            old(self).wf(),
            old(self).segment_size() > 0,
        ensures
            final(self).wf(),
            final(self).segment_size() == old(self).segment_size(),
            final(self).spec_current() == (old(self).spec_current() + 1) % 2,
            final(self).spec_segments()[final(self).spec_current()].spec_len() == 1,
            final(self).spec_segments()[old(self).spec_current()].spec_len() == old(self).spec_segments()[old(self).spec_current()].spec_len(),
            final(self).spec_root_edge() == old(self).spec_root_edge(),
            final(self).spec_hash_table() == old(self).spec_hash_table(),
            final(self).spec_size_in_bytes() == old(self).spec_size_in_bytes(),
            ({
                let old_root = old(self).node_at(old(self).spec_current(), 0);
                let new_root = final(self).node_at(final(self).spec_current(), 0);
                &&& new_root.spec_state() == old_root.spec_state()
                &&& new_root.spec_key() == old_root.spec_key()
                &&& new_root.spec_gini() == 0
                &&& new_root.spec_threads() == old(self).node_at(final(self).spec_current(), 0).spec_threads()
                &&& new_root.spec_actions().len() == old_root.spec_actions().len()
                &&& forall|j: int| 0 <= j < old_root.spec_actions().len() ==>
                    crate::tree_segment::edge_cleared(#[trigger] old_root.spec_actions()[j], new_root.spec_actions()[j], final(self).spec_current())
            }),
            forall|i: int| 0 < i < old(self).segment_size() ==> node_cleared(
                #[trigger] old(self).node_at(old(self).spec_current(), i),
                final(self).node_at(old(self).spec_current(), i),
                final(self).spec_current(),
            ),
            forall|i: int| 0 < i < old(self).segment_size() ==>
                #[trigger] final(self).node_at(final(self).spec_current(), i) == old(self).node_at(final(self).spec_current(), i),
            final(self).node_at(old(self).spec_current(), 0).spec_actions() == Seq::<Edge>::empty(),
            forall|i: int, j: int| 0 <= i < final(self).segment_size() && 0 <= j < final(self).node_at(old(self).spec_current(), i).spec_actions().len()
                ==> Tree::target(#[trigger] final(self).node_at(old(self).spec_current(), i).spec_actions()[j]).spec_segment() != final(self).spec_current(),
            forall|j: int| 0 <= j < final(self).node_at(final(self).spec_current(), 0).spec_actions().len()
                ==> Tree::target(#[trigger] final(self).node_at(final(self).spec_current(), 0).spec_actions()[j]).spec_segment() != final(self).spec_current(),
            final(self).node_at(old(self).spec_current(), 0).spec_state() == old(self).node_at(old(self).spec_current(), 0).spec_state(),
            final(self).node_at(old(self).spec_current(), 0).spec_key() == old(self).node_at(old(self).spec_current(), 0).spec_key(),
    {
        let old_root_index = self.root_index();
        let current_segment_index = self.current_segment;
        let new_segment_index = (current_segment_index + 1) % SEGMENT_COUNT;
        let ghost before = *self;

        if new_segment_index != 0 {
            self.segments[0].clear_references(new_segment_index as u32);
        }
        if new_segment_index != 1 {
            self.segments[1].clear_references(new_segment_index as u32);
        }
        let ghost cleared = *self;
        assert forall|i: int| 0 <= i < before.segment_size() implies node_cleared(
            #[trigger] before.node_at(current_segment_index as int, i),
            cleared.node_at(current_segment_index as int, i),
            new_segment_index as int,
        ) by {}
        assert forall|i: int| 0 <= i < before.segment_size() implies
            #[trigger] cleared.node_at(new_segment_index as int, i) == before.node_at(new_segment_index as int, i) by {}

        self.current_segment = new_segment_index;
        self.segments[new_segment_index].clear();
        let added = self.segments[new_segment_index].add(GameState::Unresolved, 0);
        let new_root_index = added.unwrap();
        proof {
            crate::node_index::lemma_parts_roundtrip(0, new_segment_index as u32);
            crate::node_index::lemma_parts_roundtrip(0, current_segment_index as u32);
        }
        let node = self.node_mut(new_root_index);
        node.clear();
        let ghost fresh = *self;
        self.copy_node(old_root_index, new_root_index);
        proof {
            assert(old_root_index != new_root_index);
            let old_root = before.node_at(current_segment_index as int, 0);
            let mid_root = cleared.node_at(current_segment_index as int, 0);
            assert(node_cleared(old_root, mid_root, new_segment_index as int));
            assert(fresh.node_of(old_root_index) == mid_root);
            assert(fresh.node_of(new_root_index).spec_actions() == Seq::<Edge>::empty());
            assert forall|i: int| 0 < i < before.segment_size() implies node_cleared(
                #[trigger] before.node_at(current_segment_index as int, i),
                self.node_at(current_segment_index as int, i),
                new_segment_index as int,
            ) by {
                assert(!points_at(old_root_index, current_segment_index as int, i));
                assert(!points_at(new_root_index, current_segment_index as int, i));
                assert(self.node_at(current_segment_index as int, i) == fresh.node_at(current_segment_index as int, i));
                assert(fresh.node_at(current_segment_index as int, i) == cleared.node_at(current_segment_index as int, i));
            }
            assert forall|i: int| 0 < i < before.segment_size() implies
                #[trigger] self.node_at(new_segment_index as int, i) == before.node_at(new_segment_index as int, i) by {
                assert(!points_at(old_root_index, new_segment_index as int, i));
                assert(!points_at(new_root_index, new_segment_index as int, i));
                assert(self.node_at(new_segment_index as int, i) == fresh.node_at(new_segment_index as int, i));
            }
            assert forall|i: int, j: int| 0 <= i < before.segment_size() && 0 <= j < self.node_at(current_segment_index as int, i).spec_actions().len()
                implies Tree::target(#[trigger] self.node_at(current_segment_index as int, i).spec_actions()[j]).spec_segment() != new_segment_index by {
                if i > 0 {
                    crate::tree_segment::lemma_cleared_has_no_reference(before.node_at(current_segment_index as int, i),
                        self.node_at(current_segment_index as int, i), new_segment_index as int);
                }
            }
            let new_root = self.node_at(new_segment_index as int, 0);
            assert forall|j: int| 0 <= j < new_root.spec_actions().len()
                implies Tree::target(#[trigger] new_root.spec_actions()[j]).spec_segment() != new_segment_index by {
                assert(crate::tree_segment::edge_cleared(old_root.spec_actions()[j], new_root.spec_actions()[j], new_segment_index as int));
                assert(u32::MAX >> 30u32 == 3) by (bit_vector);
            }
        }
    }

    /// Empties the tree for a new search: the cache is emptied, both segments are
    /// emptied, the first segment becomes current and its first node becomes a fresh root
    /// that keeps the old root's key; the root edge is reset.
    pub fn clear(&mut self)
        requires
            old(self).wf(),
            old(self).segment_size() > 0,
        ensures
            final(self).wf(),
            final(self).segment_size() == old(self).segment_size(),
            final(self).spec_current() == 0,
            final(self).spec_segments()[0].spec_len() == 1,
            final(self).spec_segments()[1].spec_len() == 0,
            final(self).spec_size_in_bytes() == old(self).spec_size_in_bytes(),
            final(self).spec_root_edge().spec_node_index() == u32::MAX,
            final(self).spec_root_edge().spec_mv() == 0,
            final(self).spec_root_edge().spec_policy() == POLICY_ONE,
            final(self).spec_root_edge().spec_visits() == 0,
            final(self).spec_root_edge().spec_score() == AtomicScore(0, 0),
            final(self).spec_root_edge().spec_squared_score() == 0,
            final(self).spec_hash_table().spec_entries().len() == old(self).spec_hash_table().spec_entries().len(),
            forall|i: int| 0 <= i < old(self).spec_hash_table().spec_entries().len() ==>
                #[trigger] final(self).spec_hash_table().spec_entries()[i].spec_key() == 0
                && final(self).spec_hash_table().spec_entries()[i].spec_score() == AtomicScore(0, 0),
            final(self).node_at(0, 0).spec_actions() == Seq::<Edge>::empty(),
            final(self).node_at(0, 0).spec_state() == GameState::Unresolved,
            final(self).node_at(0, 0).spec_key() == old(self).node_at(old(self).spec_current(), 0).spec_key(),
            final(self).node_at(0, 0).spec_gini() == 0,
            final(self).node_at(0, 0).spec_threads() == old(self).node_at(0, 0).spec_threads(),
            forall|s: int, i: int| 0 <= s < SEGMENT_COUNT && 0 <= i < old(self).segment_size() && !(s == 0 && i == 0) ==>
                #[trigger] final(self).node_at(s, i) == old(self).node_at(s, i),
    {
        self.hash_table.clear();
        let root = self.root_index();
        let root_key = self.node(root).key();
        self.segments[0].clear();
        self.segments[1].clear();
        self.current_segment = 0;
        self.root_edge = Edge::default();
        let _ = self.segments[0].add(GameState::Unresolved, root_key);
        proof {
            crate::node_index::lemma_parts_roundtrip(0, 0);
        }
    }

    /// Same bookkeeping, except that the current segment's count went up by one (wrapping).
    pub open spec fn counted_one_more(&self, other: &Tree) -> bool {
        let cur = self.spec_current();
        let len = self.spec_segments()[cur].spec_len();
        &&& other.wf()
        &&& other.segment_size() == self.segment_size()
        &&& other.spec_current() == cur
        &&& other.spec_root_edge() == self.spec_root_edge()
        &&& other.spec_hash_table() == self.spec_hash_table()
        &&& other.spec_size_in_bytes() == self.spec_size_in_bytes()
        &&& other.spec_segments()[cur].spec_len() == if len == usize::MAX { 0 } else { (len + 1) as usize }
        &&& other.spec_segments()[1 - cur].spec_len() == self.spec_segments()[1 - cur].spec_len()
    }

    /// `other` has the same nodes as `self` except at the positions of `a`, `b` and `c`.
    pub open spec fn same_nodes_except3(&self, other: &Tree, a: NodeIndex, b: NodeIndex, c: NodeIndex) -> bool {
        forall|s: int, i: int|
            0 <= s < SEGMENT_COUNT && 0 <= i < self.segment_size() && !points_at(a, s, i)
                && !points_at(b, s, i) && !points_at(c, s, i) ==> #[trigger] other.node_at(s, i) == self.node_at(s, i)
    }

    /// The node that edge `action_index` of the node at `edge_index` leads to, made ready
    /// in the current segment. Where the edge leads nowhere, a new node with the given state
    /// and key is handed out and the edge is pointed at it; where it leads into the other
    /// segment, a new node is handed out, the old one is copied into it and the edge is
    /// pointed at it; where it leads into the current segment, its index is returned as it
    /// is. `None` where a new node is needed and the current segment is full.
    pub fn get_node_index(
        &mut self,
        state: GameState,
        key: u64,
        child_index: NodeIndex,
        edge_index: NodeIndex,
        action_index: usize,
    ) -> (r: Option<NodeIndex>)
        requires
            old(self).wf(),
            old(self).valid_index(edge_index),
            action_index < old(self).node_of(edge_index).spec_actions().len(),
            !child_index.spec_is_null() ==> old(self).valid_index(child_index),
            !child_index.spec_is_null() ==> child_index != edge_index,
            old(self).spec_segments()[old(self).spec_current()].spec_len() < old(self).segment_size()
                ==> !points_at(edge_index, old(self).spec_current(), old(self).spec_segments()[old(self).spec_current()].spec_len() as int),
        ensures
            ({
                let cur = old(self).spec_current();
                let len = old(self).spec_segments()[cur].spec_len();
                let full = len >= old(self).segment_size();
                let new_index = NodeIndex(NodeIndex::packed(len as u32, cur as u32));
                if !child_index.spec_is_null() && child_index.spec_segment() == cur {
                    &&& r == Some(child_index)
                    &&& *final(self) == *old(self)
                } else if full {
                    &&& r is None
                    &&& old(self).counted_one_more(&*final(self))
                    &&& forall|s: int, i: int|
                        0 <= s < SEGMENT_COUNT && 0 <= i < old(self).segment_size() ==> #[trigger] final(self).node_at(s, i)
                            == old(self).node_at(s, i)
                } else {
                    &&& r == Some(new_index)
                    &&& old(self).counted_one_more(&*final(self))
                    &&& final(self).valid_index(new_index)
                    &&& edge_redirected(old(self).node_of(edge_index), final(self).node_of(edge_index), action_index as int, new_index)
                    &&& final(self).node_of(new_index).spec_gini() == 0
                    &&& if child_index.spec_is_null() {
                        &&& final(self).node_of(new_index).spec_state() == state
                        &&& final(self).node_of(new_index).spec_key() == key
                        &&& final(self).node_of(new_index).spec_actions() == Seq::<Edge>::empty()
                        &&& old(self).same_nodes_except(&*final(self), new_index, edge_index)
                    } else {
                        let child = old(self).node_of(child_index);
                        &&& final(self).node_of(new_index).spec_state() == child.spec_state()
                        &&& final(self).node_of(new_index).spec_key() == child.spec_key()
                        &&& final(self).node_of(new_index).spec_actions() == child.spec_actions()
                        &&& final(self).node_of(child_index).spec_actions() == Seq::<Edge>::empty()
                        &&& final(self).node_of(child_index).spec_state() == child.spec_state()
                        &&& final(self).node_of(child_index).spec_key() == child.spec_key()
                        &&& old(self).same_nodes_except3(&*final(self), new_index, edge_index, child_index)
                    }
                }
            }),
    {
        let cur = self.current_segment;
        if child_index.is_null() {
            let ghost before = *self;
            let added = self.segments[cur].add(state, key);
            match added {
                None => {
                    return None;
                },
                Some(new_index) => {
                    proof {
                        crate::node_index::lemma_parts_roundtrip(before.spec_segments()[cur as int].spec_len() as u32, cur as u32);
                    }
                    let node = self.node_mut(edge_index);
                    let actions = node.actions_mut();
                    actions[action_index].set_node_index(new_index);
                    return Some(new_index);
                },
            }
        } else if child_index.segment() != cur {
            let ghost before = *self;
            let added = self.segments[cur].add(GameState::Unresolved, 0);
            match added {
                None => {
                    return None;
                },
                Some(new_index) => {
                    proof {
                        crate::node_index::lemma_parts_roundtrip(before.spec_segments()[cur as int].spec_len() as u32, cur as u32);
                        assert(new_index != child_index);
                    }
                    let ghost added_tree = *self;
                    self.copy_node(child_index, new_index);
                    let ghost copied = *self;
                    proof {
                        assert(!points_at(edge_index, new_index.spec_segment(), new_index.spec_index() as int));
                        assert(!points_at(edge_index, child_index.spec_segment(), child_index.spec_index() as int)) by {
                            if points_at(edge_index, child_index.spec_segment(), child_index.spec_index() as int) {
                                self.lemma_same_slot(edge_index, child_index);
                            }
                        }
                        assert(copied.node_of(edge_index) == before.node_of(edge_index));
                    }
                    let node = self.node_mut(edge_index);
                    let actions = node.actions_mut();
                    actions[action_index].set_node_index(new_index);
                    proof {
                        assert(!points_at(new_index, edge_index.spec_segment(), edge_index.spec_index() as int));
                        assert(!points_at(child_index, edge_index.spec_segment(), edge_index.spec_index() as int));
                        assert(self.node_of(new_index) == copied.node_of(new_index));
                        assert(self.node_of(child_index) == copied.node_of(child_index));
                    }
                    return Some(new_index);
                },
            }
        } else {
            Some(child_index)
        }
    }
}

} // verus!
