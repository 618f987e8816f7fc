use vstd::prelude::*;
use crate::chess::Move;
use crate::edge::Edge;
use crate::game_state::GameState;
use crate::node::Node;
use crate::node_index::NodeIndex;
use crate::tree::{Tree, points_at};
use crate::tree_segment::{TreeSegment, fresh_node, node_cleared};

verus! {

/// Number of node segments of a `SearchTree`.
pub const SEARCH_SEGMENT_COUNT: usize = 4;

/// Largest number of nodes in a `SearchTree` segment.
pub const MAX_SEARCH_SEGMENT_SIZE: usize = 0x3FFF_FFFE;

/// A search tree of four segments used in turn; the root is wherever the root edge points.
/// When the current segment fills up, the next one is cleared and becomes current, and
/// nodes of older segments are moved into the current one as the search uses them.
pub struct SearchTree {
    segments: Vec<TreeSegment>,
    root_edge: Edge,
    current_segment: usize,
}

impl SearchTree {
    pub closed spec fn spec_segments(&self) -> Seq<TreeSegment> {
        self.segments@
    }

    pub closed spec fn spec_current(&self) -> int {
        self.current_segment as int
    }

    pub closed spec fn spec_root_edge(&self) -> Edge {
        self.root_edge
    }

    pub open spec fn segment_size(&self) -> int {
        self.spec_segments()[0].spec_nodes().len() as int
    }

    /// Four segments numbered `0` to `3`, of one size that leaves the null index outside
    /// every segment, and a current segment among them.
    pub open spec fn wf(&self) -> bool {
        &&& self.spec_segments().len() == SEARCH_SEGMENT_COUNT
        &&& 0 <= self.spec_current() < SEARCH_SEGMENT_COUNT
        &&& forall|s: int|
            0 <= s < SEARCH_SEGMENT_COUNT ==> (#[trigger] self.spec_segments()[s]).spec_segment() == s
                && self.spec_segments()[s].spec_nodes().len() == self.segment_size()
        &&& self.segment_size() <= MAX_SEARCH_SEGMENT_SIZE
    }

    pub open spec fn node_at(&self, s: int, i: int) -> Node {
        self.spec_segments()[s].spec_nodes()[i]
    }

    pub open spec fn node_of(&self, idx: NodeIndex) -> Node {
        self.node_at(idx.spec_segment(), idx.spec_index() as int)
    }

    pub open spec fn valid_index(&self, idx: NodeIndex) -> bool {
        &&& 0 <= idx.spec_segment() < SEARCH_SEGMENT_COUNT
        &&& idx.spec_index() < self.segment_size()
    }

    pub open spec fn len_of(&self, s: int) -> usize {
        self.spec_segments()[s].spec_len()
    }

    pub open spec fn is_full(&self) -> bool {
        self.len_of(self.spec_current()) >= self.segment_size()
    }

    /// `after` is `self` after the segments advance: the next segment is current and
    /// empty, and every edge that pointed into it is null.
    pub open spec fn advanced(&self, after: &SearchTree) -> bool {
        let next = (self.spec_current() + 1) % 4;
        &&& after.wf()
        &&& after.segment_size() == self.segment_size()
        &&& after.spec_current() == next
        &&& after.spec_root_edge() == self.spec_root_edge()
        &&& after.len_of(next) == 0
        &&& forall|s: int| 0 <= s < 4 && s != next ==> #[trigger] after.len_of(s) == self.len_of(s)
        &&& forall|s: int, i: int|
            0 <= s < 4 && 0 <= i < self.segment_size() ==> node_cleared(
                #[trigger] self.node_at(s, i),
                after.node_at(s, i),
                next,
            )
    }

    /// `after` is `self` with the next node of the current segment handed out with the
    /// given state, and `r` its index (the null index where the segment is full).
    pub open spec fn handed_out(&self, after: &SearchTree, state: GameState, r: NodeIndex) -> bool {
        let cur = self.spec_current();
        let len = self.len_of(cur);
        &&& after.wf()
        &&& after.segment_size() == self.segment_size()
        &&& after.spec_current() == cur
        &&& after.spec_root_edge() == self.spec_root_edge()
        &&& after.len_of(cur) == if len == usize::MAX { 0 } else { (len + 1) as usize }
        &&& forall|s: int| 0 <= s < 4 && s != cur ==> #[trigger] after.len_of(s) == self.len_of(s)
        &&& if len < self.segment_size() {
            &&& r == NodeIndex(NodeIndex::packed(len as u32, cur as u32))
            &&& after.node_of(r).spec_state() == state
            &&& after.node_of(r).spec_key() == 0
            &&& after.node_of(r).spec_actions() == Seq::<Edge>::empty()
            &&& after.node_of(r).spec_gini() == 0
            &&& forall|s: int, i: int|
                0 <= s < 4 && 0 <= i < self.segment_size() && !(s == cur && i == len) ==> #[trigger] after.node_at(s, i)
                    == self.node_at(s, i)
        } else {
            &&& r.spec_is_null()
            &&& forall|s: int, i: int|
                0 <= s < 4 && 0 <= i < self.segment_size() ==> #[trigger] after.node_at(s, i) == self.node_at(s, i)
        }
    }

    /// A tree of `size_in_mb` megabytes, `bytes_per_node` bytes counted per node (a node and
    /// eight edges); each of the four segments holds a quarter of the nodes, at most
    /// `MAX_SEARCH_SEGMENT_SIZE`. The root is handed out of the first segment.
    pub fn new(size_in_mb: i64, bytes_per_node: usize) -> (r: SearchTree)
        requires
            0 <= size_in_mb,
            size_in_mb * 1024 * 1024 <= i64::MAX,
            size_in_mb * 1024 * 1024 <= usize::MAX,
            bytes_per_node > 0,
        ensures
            r.wf(),
            r.segment_size() == if (size_in_mb * 1024 * 1024 / bytes_per_node as int) / 4 < MAX_SEARCH_SEGMENT_SIZE {
                (size_in_mb * 1024 * 1024 / bytes_per_node as int) / 4
            } else {
                MAX_SEARCH_SEGMENT_SIZE as int
            },
            r.spec_root_edge().spec_visits() == 0,
            r.spec_root_edge().spec_mv() == 0,
            r.spec_root_edge().spec_policy() == 0,
            r.segment_size() > 0 ==> {
                &&& r.spec_current() == 0
                &&& r.len_of(0) == 1
                &&& forall|s: int| 1 <= s < 4 ==> #[trigger] r.len_of(s) == 0
                &&& r.spec_root_edge().spec_node_index() == NodeIndex::packed(0, 0)
                &&& r.node_at(0, 0).spec_state() == GameState::Unresolved
                &&& r.node_at(0, 0).spec_actions() == Seq::<Edge>::empty()
            },
    {
        let bytes: i64 = size_in_mb * 1024 * 1024;
        let tree_size = (bytes as usize) / bytes_per_node;
        let quarter = tree_size / SEARCH_SEGMENT_COUNT;
        let segment_size = if quarter < MAX_SEARCH_SEGMENT_SIZE { quarter } else { MAX_SEARCH_SEGMENT_SIZE };
        let mut segments: Vec<TreeSegment> = Vec::new();
        segments.push(TreeSegment::new(segment_size, 0));
        segments.push(TreeSegment::new(segment_size, 1));
        segments.push(TreeSegment::new(segment_size, 2));
        segments.push(TreeSegment::new(segment_size, 3));
        let mut tree = SearchTree {
            segments,
            root_edge: Edge::new(NodeIndex::from_raw(0), Move::null(), 0),
            current_segment: 0,
        };
        proof {
            assert(tree.spec_segments()[1].spec_segment() == 1);
            assert(tree.spec_segments()[2].spec_segment() == 2);
            assert(tree.spec_segments()[3].spec_segment() == 3);
        }
        tree.init_root();
        tree
    }

    /// Replaces the tree by a new one of the given size.
    pub fn resize_tree(&mut self, size_in_mb: i64, bytes_per_node: usize)
        requires
            0 <= size_in_mb,
            size_in_mb * 1024 * 1024 <= i64::MAX,
            size_in_mb * 1024 * 1024 <= usize::MAX,
            bytes_per_node > 0,
        ensures
            final(self).wf(),
            final(self).segment_size() == if (size_in_mb * 1024 * 1024 / bytes_per_node as int) / 4 < MAX_SEARCH_SEGMENT_SIZE {
                (size_in_mb * 1024 * 1024 / bytes_per_node as int) / 4
            } else {
                MAX_SEARCH_SEGMENT_SIZE as int
            },
            final(self).spec_root_edge().spec_visits() == 0,
            final(self).spec_root_edge().spec_mv() == 0,
            final(self).spec_root_edge().spec_policy() == 0,
            final(self).segment_size() > 0 ==> {
                &&& final(self).spec_current() == 0
                &&& final(self).len_of(0) == 1
                &&& forall|s: int| 1 <= s < 4 ==> #[trigger] final(self).len_of(s) == 0
                &&& final(self).spec_root_edge().spec_node_index() == NodeIndex::packed(0, 0)
                &&& final(self).node_at(0, 0).spec_state() == GameState::Unresolved
                &&& final(self).node_at(0, 0).spec_actions() == Seq::<Edge>::empty()
            },
    {
        *self = SearchTree::new(size_in_mb, bytes_per_node);
    }

    fn init_root(&mut self)
        requires
            old(self).wf(),
            old(self).spec_current() == 0,
            forall|s: int| 0 <= s < 4 ==> #[trigger] old(self).len_of(s) == 0,
        ensures
            final(self).wf(),
            final(self).segment_size() == old(self).segment_size(),
            final(self).spec_root_edge().spec_visits() == old(self).spec_root_edge().spec_visits(),
            final(self).spec_root_edge().spec_mv() == old(self).spec_root_edge().spec_mv(),
            final(self).spec_root_edge().spec_policy() == old(self).spec_root_edge().spec_policy(),
            old(self).segment_size() > 0 ==> {
                &&& final(self).spec_current() == 0
                &&& final(self).len_of(0) == 1
                &&& forall|s: int| 1 <= s < 4 ==> #[trigger] final(self).len_of(s) == 0
                &&& final(self).spec_root_edge().spec_node_index() == NodeIndex::packed(0, 0)
                &&& final(self).node_at(0, 0).spec_state() == GameState::Unresolved
                &&& final(self).node_at(0, 0).spec_actions() == Seq::<Edge>::empty()
            },
    {
        proof {
            crate::node_index::lemma_parts_roundtrip(0, 0);
        }
        let ghost before = *self;
        let root_index = self.spawn_node(GameState::Unresolved);
        let ghost spawned = *self;
        self.root_edge.set_index(root_index);
        proof {
            assert(self.spec_segments() == spawned.spec_segments());
            if before.segment_size() > 0 {
                assert forall|s: int| 1 <= s < 4 implies #[trigger] self.len_of(s) == 0 by {
                    assert(spawned.len_of(s) == 0);
                }
            }
        }
    }

    pub fn root_index(&self) -> (r: NodeIndex)
        ensures
            r.0 == self.spec_root_edge().spec_node_index(),
    {
        self.root_edge.node_index()
    }

    pub fn root_edge(&self) -> (r: Edge)
        ensures
            r == self.spec_root_edge(),
    {
        self.root_edge
    }

    pub fn current_segment(&self) -> (r: &TreeSegment)
        requires
            self.wf(),
        ensures
            *r == self.spec_segments()[self.spec_current()],
    {
        &self.segments[self.current_segment]
    }

    pub fn node(&self, index: NodeIndex) -> (r: &Node)
        requires
            self.wf(),
            self.valid_index(index),
        ensures
            *r == self.node_of(index),
    {
        self.segments[index.segment()].get(index)
    }

    pub fn node_mut(&mut self, index: NodeIndex) -> (r: &mut Node)
        requires
            old(self).wf(),
            old(self).valid_index(index),
        ensures
            *r == old(self).node_of(index),
            final(self).wf(),
            final(self).segment_size() == old(self).segment_size(),
            final(self).spec_current() == old(self).spec_current(),
            final(self).spec_root_edge() == old(self).spec_root_edge(),
            forall|s: int| 0 <= s < 4 ==> #[trigger] final(self).len_of(s) == old(self).len_of(s),
            final(self).node_of(index) == *final(r),
            forall|s: int, i: int|
                0 <= s < 4 && 0 <= i < old(self).segment_size() && !points_at(index, s, i) ==> #[trigger] final(self).node_at(s, i)
                    == old(self).node_at(s, i),
    {
        let s = index.segment();
        self.segments[s].get_mut(index)
    }

    /// A copy of edge `action_index` of the node at `node_index`.
    pub fn get_edge_clone(&self, node_index: NodeIndex, action_index: usize) -> (r: Edge)
        requires
            self.wf(),
            self.valid_index(node_index),
            action_index < self.node_of(node_index).spec_actions().len(),
        ensures
            r == self.node_of(node_index).spec_actions()[action_index as int],
    {
        self.node(node_index).actions()[action_index]
    }

    /// Points edge `action_index` of the node at `edge_node_index` at `new_node_index`.
    pub fn change_edge_node_index(&mut self, edge_node_index: NodeIndex, action_index: usize, new_node_index: NodeIndex)
        requires
            old(self).wf(),
            old(self).valid_index(edge_node_index),
            action_index < old(self).node_of(edge_node_index).spec_actions().len(),
        ensures
            final(self).wf(),
            final(self).segment_size() == old(self).segment_size(),
            final(self).spec_current() == old(self).spec_current(),
            final(self).spec_root_edge() == old(self).spec_root_edge(),
            forall|s: int| 0 <= s < 4 ==> #[trigger] final(self).len_of(s) == old(self).len_of(s),
            crate::tree::edge_redirected(old(self).node_of(edge_node_index), final(self).node_of(edge_node_index), action_index as int, new_node_index),
            forall|s: int, i: int|
                0 <= s < 4 && 0 <= i < old(self).segment_size() && !points_at(edge_node_index, s, i) ==> #[trigger] final(self).node_at(s, i)
                    == old(self).node_at(s, i),
    {
        let node = self.node_mut(edge_node_index);
        let actions = node.actions_mut();
        actions[action_index].set_index(new_node_index);
    }

    /// Makes the next segment current and empty, nulling every edge that points into it.
    pub fn advance_segments(&mut self)
        requires
            old(self).wf(),
        ensures
            old(self).advanced(&*final(self)),
            forall|s: int, i: int, j: int|
                0 <= s < 4 && 0 <= i < final(self).segment_size() && 0 <= j < final(self).node_at(s, i).spec_actions().len() ==> {
                    let idx = Tree::target(#[trigger] final(self).node_at(s, i).spec_actions()[j]);
                    idx.spec_is_null() || idx.spec_segment() != final(self).spec_current()
                },
    {
        let new_segment_index = (self.current_segment + 1) % SEARCH_SEGMENT_COUNT;
        let ghost before = *self;
        let mut i: usize = 0;
        while i < SEARCH_SEGMENT_COUNT
            invariant
                i <= 4,
                self.spec_segments().len() == 4,
                new_segment_index == (before.spec_current() + 1) % 4,
                self.spec_current() == before.spec_current(),
                self.spec_root_edge() == before.spec_root_edge(),
                before.wf(),
                forall|s: int| 0 <= s < 4 ==> (#[trigger] self.spec_segments()[s]).spec_segment() == s
                    && self.spec_segments()[s].spec_nodes().len() == before.segment_size()
                    && self.spec_segments()[s].spec_len() == before.len_of(s),
                forall|s: int, k: int| 0 <= s < i && 0 <= k < before.segment_size() ==> node_cleared(
                    #[trigger] before.node_at(s, k),
                    self.node_at(s, k),
                    new_segment_index as int,
                ),
                forall|s: int, k: int| i <= s < 4 && 0 <= k < before.segment_size() ==> #[trigger] self.node_at(s, k)
                    == before.node_at(s, k),
            decreases 4 - i,
        {
            let ghost prev = *self;
            self.segments[i].clear_references(new_segment_index as u32);
            proof {
                assert forall|s: int, k: int| 0 <= s < i + 1 && 0 <= k < before.segment_size() implies node_cleared(
                    #[trigger] before.node_at(s, k),
                    self.node_at(s, k),
                    new_segment_index as int,
                ) by {
                    if s < i {
                        assert(self.node_at(s, k) == prev.node_at(s, k));
                    } else {
                        assert(prev.node_at(s, k) == before.node_at(s, k));
                    }
                }
                assert forall|s: int, k: int| i + 1 <= s < 4 && 0 <= k < before.segment_size() implies #[trigger] self.node_at(s, k)
                    == before.node_at(s, k) by {
                    assert(self.node_at(s, k) == prev.node_at(s, k));
                }
            }
            i = i + 1;
        }
        self.current_segment = new_segment_index;
        self.segments[new_segment_index].clear();
        proof {
            assert forall|s: int, k: int, j: int|
                0 <= s < 4 && 0 <= k < self.segment_size() && 0 <= j < self.node_at(s, k).spec_actions().len() implies {
                    let idx = Tree::target(#[trigger] self.node_at(s, k).spec_actions()[j]);
                    idx.spec_is_null() || idx.spec_segment() != self.spec_current()
                } by {
                crate::tree_segment::lemma_cleared_edges_leave_segment(before.node_at(s, k), self.node_at(s, k), new_segment_index as int);
            }
        }
    }

    /// Hands out a node with the given state from the current segment, advancing the
    /// segments first where the current one is full; the null index where no node is left.
    pub fn spawn_node(&mut self, state: GameState) -> (r: NodeIndex)
        requires
            old(self).wf(),
        ensures
            final(self).wf(),
            final(self).segment_size() == old(self).segment_size(),
            !old(self).is_full() ==> old(self).handed_out(&*final(self), state, r),
            old(self).is_full() ==> exists|mid: SearchTree| old(self).advanced(&mid) && #[trigger] mid.handed_out(&*final(self), state, r),
    {
        let ghost before = *self;
        if self.current_segment().is_full() {
            self.advance_segments();
        }
        let ghost mid = *self;
        let cur = self.current_segment;
        let added = self.segments[cur].add(state, 0);
        let r = match added {
            Some(index) => index,
            None => NodeIndex::null(),
        };
        proof {
            if mid.len_of(cur as int) < mid.segment_size() {
                crate::node_index::lemma_parts_roundtrip(mid.len_of(cur as int) as u32, cur as u32);
            }
            assert(mid.handed_out(&*self, state, r));
        }
        r
    }

    /// Empties the tree: all segments empty, the first one current, a fresh root handed
    /// out of it, and the root edge reset to point at it.
    pub fn clear(&mut self)
        requires
            old(self).wf(),
        ensures
            final(self).wf(),
            final(self).segment_size() == old(self).segment_size(),
            final(self).segment_size() > 0 ==> {
                &&& final(self).spec_current() == 0
                &&& final(self).len_of(0) == 1
                &&& final(self).spec_root_edge().spec_node_index() == NodeIndex::packed(0, 0)
                &&& final(self).spec_root_edge().spec_visits() == 0
                &&& final(self).spec_root_edge().spec_mv() == 0
                &&& final(self).spec_root_edge().spec_policy() == 0
                &&& final(self).node_at(0, 0).spec_state() == GameState::Unresolved
                &&& final(self).node_at(0, 0).spec_actions() == Seq::<Edge>::empty()
            },
    {
        self.segments[0].clear();
        self.segments[1].clear();
        self.segments[2].clear();
        self.segments[3].clear();
        self.current_segment = 0;
        self.root_edge = Edge::new(NodeIndex::from_raw(0), Move::null(), 0);
        self.init_root();
    }

    /// The edge leads to a node whose state is won.
    pub open spec fn child_won(&self, e: Edge) -> bool {
        &&& !Tree::target(e).spec_is_null()
        &&& self.node_of(Tree::target(e)).spec_state() is Won
    }

    /// The largest of `x` and the mate lengths of the won nodes that the edges lead to.
    pub open spec fn longest_win(&self, edges: Seq<Edge>, x: int) -> int
        decreases edges.len(),
    {
        if edges.len() == 0 {
            x
        } else {
            let m = self.longest_win(edges.drop_last(), x);
            let y = match self.node_of(Tree::target(edges.last())).spec_state() {
                GameState::Won(n) => n as int,
                _ => 0int,
            };
            if y > m {
                y
            } else {
                m
            }
        }
    }

    /// A parent is proven lost only when every one of its moves is expanded and leads to a
    /// won node: one unexpanded move (an edge with the null index), or one child that is not
    /// won, leaves a won report without effect.
    pub proof fn lemma_loss_needs_every_child_won(&self, edges: Seq<Edge>)
        ensures
            self.all_children_won(edges) <==> forall|j: int| 0 <= j < edges.len() ==> {
                &&& !NodeIndex(#[trigger] edges[j].spec_node_index()).spec_is_null()
                &&& self.node_of(NodeIndex(edges[j].spec_node_index())).spec_state() is Won
            },
            (exists|j: int| 0 <= j < edges.len() && NodeIndex(#[trigger] edges[j].spec_node_index()).spec_is_null())
                ==> !self.all_children_won(edges),
    {
        if exists|j: int| 0 <= j < edges.len() && NodeIndex(#[trigger] edges[j].spec_node_index()).spec_is_null() {
            let j = choose|j: int| 0 <= j < edges.len() && NodeIndex(#[trigger] edges[j].spec_node_index()).spec_is_null();
            assert(!self.child_won(edges[j]));
        }
    }

    /// The mate length that a lost parent takes is the longest among its won children (or
    /// the reported one, if longer): at least each child's and the reported length, and,
    /// for a reported length of zero or more, equal to one of them.
    pub proof fn lemma_longest_win_is_max(&self, edges: Seq<Edge>, x: int)
        ensures
            self.longest_win(edges, x) >= x,
            forall|j: int| 0 <= j < edges.len()
                && (#[trigger] self.node_of(NodeIndex(edges[j].spec_node_index())).spec_state() is Won)
                ==> self.longest_win(edges, x) >= self.node_of(NodeIndex(edges[j].spec_node_index())).spec_state()->Won_0,
            x >= 0 ==> self.longest_win(edges, x) == x || exists|j: int| 0 <= j < edges.len()
                && #[trigger] self.node_of(NodeIndex(edges[j].spec_node_index())).spec_state()
                == GameState::Won(self.longest_win(edges, x) as u8) && 0 <= self.longest_win(edges, x) < 256,
        decreases edges.len(),
    {
        if edges.len() > 0 {
            let prev = edges.drop_last();
            self.lemma_longest_win_is_max(prev, x);
            let m = self.longest_win(prev, x);
            let last = edges.len() - 1;
            assert(edges[last] == edges.last());
            assert forall|j: int| 0 <= j < edges.len()
                && (#[trigger] self.node_of(NodeIndex(edges[j].spec_node_index())).spec_state() is Won)
                implies self.longest_win(edges, x) >= self.node_of(NodeIndex(edges[j].spec_node_index())).spec_state()->Won_0 by {
                if j < last {
                    assert(prev[j] == edges[j]);
                }
            }
            if x >= 0 && self.longest_win(edges, x) != x {
                if self.longest_win(edges, x) == m {
                    let j = choose|j: int| 0 <= j < prev.len()
                        && #[trigger] self.node_of(NodeIndex(prev[j].spec_node_index())).spec_state()
                        == GameState::Won(m as u8) && 0 <= m < 256;
                    assert(prev[j] == edges[j]);
                } else {
                    assert(self.node_of(NodeIndex(edges[last].spec_node_index())).spec_state()
                        == GameState::Won(self.longest_win(edges, x) as u8));
                }
            }
        }
    }

    /// Every edge leads to a won node: the side to move is mated whatever it plays.
    pub open spec fn all_children_won(&self, edges: Seq<Edge>) -> bool {
        forall|j: int| 0 <= j < edges.len() ==> self.child_won(#[trigger] edges[j])
    }

    /// Each edge that the scan of `backpropagate_mates` reaches (all before it lead to won
    /// nodes) either is null or points at a node of the tree.
    pub open spec fn scanned_edges_valid(&self, edges: Seq<Edge>) -> bool {
        forall|j: int|
            0 <= j < edges.len() && (forall|k: int| 0 <= k < j ==> self.child_won(#[trigger] edges[k]))
                && !Tree::target(#[trigger] edges[j]).spec_is_null() ==> self.valid_index(Tree::target(edges[j]))
    }

    /// Carries a proven result of a child up to its parent: a lost child makes the parent
    /// won one ply later; a won child makes the parent lost, one ply after its longest
    /// mate, once every edge of the parent leads to a won node.
    pub fn backpropagate_mates(&mut self, parent_node_index: NodeIndex, child_state: GameState)
        requires
            old(self).wf(),
            old(self).valid_index(parent_node_index),
            child_state matches GameState::Lost(x) ==> x < 255,
            child_state matches GameState::Won(x) ==> {
                &&& old(self).scanned_edges_valid(old(self).node_of(parent_node_index).spec_actions())
                &&& old(self).all_children_won(old(self).node_of(parent_node_index).spec_actions())
                    ==> old(self).longest_win(old(self).node_of(parent_node_index).spec_actions(), x as int) < 255
            },
        ensures
            final(self).wf(),
            final(self).segment_size() == old(self).segment_size(),
            final(self).spec_current() == old(self).spec_current(),
            final(self).spec_root_edge() == old(self).spec_root_edge(),
            forall|s: int| 0 <= s < 4 ==> #[trigger] final(self).len_of(s) == old(self).len_of(s),
            forall|s: int, i: int|
                0 <= s < 4 && 0 <= i < old(self).segment_size() && !points_at(parent_node_index, s, i) ==> #[trigger] final(self).node_at(s, i)
                    == old(self).node_at(s, i),
            final(self).node_of(parent_node_index).spec_actions() == old(self).node_of(parent_node_index).spec_actions(),
            final(self).node_of(parent_node_index).spec_key() == old(self).node_of(parent_node_index).spec_key(),
            final(self).node_of(parent_node_index).spec_state() == match child_state {
                GameState::Lost(x) => GameState::Won((x + 1) as u8),
                GameState::Won(x) => if old(self).all_children_won(old(self).node_of(parent_node_index).spec_actions()) {
                    GameState::Lost((old(self).longest_win(old(self).node_of(parent_node_index).spec_actions(), x as int) + 1) as u8)
                } else {
                    old(self).node_of(parent_node_index).spec_state()
                },
                _ => old(self).node_of(parent_node_index).spec_state(),
            },
    {
        match child_state {
            GameState::Lost(x) => {
                let node = self.node_mut(parent_node_index);
                node.set_state(GameState::Won(x + 1));
            },
            GameState::Won(x) => {
                let ghost edges = self.node_of(parent_node_index).spec_actions();
                let mut proven_loss = true;
                let mut longest_win_length: u8 = x;
                let mut j: usize = 0;
                let len = self.node(parent_node_index).actions().len();
                while j < len && proven_loss
                    invariant
                        self.wf(),
                        self.valid_index(parent_node_index),
                        edges == self.node_of(parent_node_index).spec_actions(),
                        len == edges.len(),
                        j <= len,
                        self.scanned_edges_valid(edges),
                        proven_loss ==> forall|k: int| 0 <= k < j ==> self.child_won(#[trigger] edges[k]),
                        proven_loss ==> longest_win_length as int == self.longest_win(edges.take(j as int), x as int),
                        !proven_loss ==> !self.all_children_won(edges),
                        self.all_children_won(edges) ==> self.longest_win(edges, x as int) < 255,
                    decreases len - j + (if proven_loss { 1int } else { 0int }),
                {
                    let edge = self.node(parent_node_index).actions()[j];
                    assert(edge == edges[j as int]);
                    let child = edge.node_index();
                    if child.is_null() {
                        proven_loss = false;
                        assert(!self.child_won(edges[j as int]));
                    } else {
                        assert(self.valid_index(child));
                        match self.node(child).state() {
                            GameState::Won(y) => {
                                proof {
                                    assert(self.child_won(edges[j as int]));
                                    assert(edges.take(j + 1).drop_last() =~= edges.take(j as int));
                                    assert(edges.take(j + 1).last() == edges[j as int]);
                                }
                                if y > longest_win_length {
                                    longest_win_length = y;
                                }
                                j = j + 1;
                            },
                            _ => {
                                proven_loss = false;
                                assert(!self.child_won(edges[j as int]));
                            },
                        }
                    }
                }
                if proven_loss {
                    proof {
                        assert(edges.take(len as int) =~= edges);
                        assert(self.all_children_won(edges));
                    }
                    let node = self.node_mut(parent_node_index);
                    node.set_state(GameState::Lost(longest_win_length + 1));
                }
            },
            _ => {},
        }
    }


    /// Makes sure the node at `index`, reached through the root edge (`ROOT`) or through
    /// edge `action_index` of the node at `edge_node_index`, lives in the current segment:
    /// a node of an older segment is moved into a node handed out of the current one (its
    /// state and edges go along) and the edge that leads to it is pointed at the new node.
    pub fn mark_as_used<const ROOT: bool>(&mut self, index: NodeIndex, edge_node_index: NodeIndex, action_index: usize) -> (r: NodeIndex)
        requires
            old(self).wf(),
            old(self).segment_size() > 0,
            old(self).valid_index(index),
            !ROOT ==> old(self).valid_index(edge_node_index),
            !ROOT ==> action_index < old(self).node_of(edge_node_index).spec_actions().len(),
            !ROOT ==> !points_at(edge_node_index, old(self).spec_current(), old(self).len_of(old(self).spec_current()) as int),
            !ROOT ==> !points_at(edge_node_index, (old(self).spec_current() + 1) % 4, 0),
            !ROOT ==> edge_node_index != index,
        ensures
            final(self).wf(),
            index.spec_segment() == old(self).spec_current() ==> r == index && *final(self) == *old(self),
            index.spec_segment() != old(self).spec_current() ==> {
                &&& r.spec_segment() == final(self).spec_current()
                &&& final(self).valid_index(r)
                &&& final(self).node_of(r).spec_state() == old(self).node_of(index).spec_state()
                &&& ROOT ==> final(self).spec_root_edge().spec_node_index() == r.0
                &&& !ROOT ==> final(self).node_of(edge_node_index).spec_actions()[action_index as int].spec_node_index() == r.0
                &&& !ROOT ==> final(self).spec_root_edge() == old(self).spec_root_edge()
                &&& ROOT ==> {
                    &&& final(self).spec_root_edge().spec_mv() == old(self).spec_root_edge().spec_mv()
                    &&& final(self).spec_root_edge().spec_policy() == old(self).spec_root_edge().spec_policy()
                    &&& final(self).spec_root_edge().spec_visits() == old(self).spec_root_edge().spec_visits()
                    &&& final(self).spec_root_edge().spec_score() == old(self).spec_root_edge().spec_score()
                    &&& final(self).spec_root_edge().spec_squared_score() == old(self).spec_root_edge().spec_squared_score()
                }
                &&& exists|mid: SearchTree| {
                    &&& #[trigger] mid.wf()
                    &&& (old(self).is_full() ==> old(self).advanced(&mid))
                    &&& (!old(self).is_full() ==> mid == *old(self))
                    &&& final(self).spec_current() == mid.spec_current()
                    &&& final(self).segment_size() == mid.segment_size()
                    &&& r == NodeIndex(NodeIndex::packed(mid.len_of(mid.spec_current()) as u32, mid.spec_current() as u32))
                    &&& final(self).len_of(mid.spec_current()) == mid.len_of(mid.spec_current()) + 1
                    &&& forall|s: int| 0 <= s < 4 && s != mid.spec_current() ==> #[trigger] final(self).len_of(s) == mid.len_of(s)
                    &&& (r != index ==> final(self).node_of(r).spec_actions() == mid.node_of(index).spec_actions()
                        && final(self).node_of(index).spec_actions() == Seq::<Edge>::empty()
                        && final(self).node_of(index).spec_state() == mid.node_of(index).spec_state()
                        && final(self).node_of(index).spec_key() == mid.node_of(index).spec_key())
                    &&& (r == index ==> final(self).node_of(r).spec_actions() == Seq::<Edge>::empty())
                    &&& (!ROOT ==> crate::tree::edge_redirected(mid.node_of(edge_node_index), final(self).node_of(edge_node_index), action_index as int, r))
                    &&& forall|s: int, i: int|
                        0 <= s < 4 && 0 <= i < mid.segment_size() && !points_at(index, s, i) && !points_at(r, s, i)
                            && (!ROOT ==> !points_at(edge_node_index, s, i)) ==> #[trigger] final(self).node_at(s, i) == mid.node_at(s, i)
                }
            },
    {
        if index.segment() == self.current_segment {
            return index;
        }
        let ghost before = *self;
        if self.current_segment().is_full() {
            self.advance_segments();
        }
        let ghost mid = *self;
        proof {
            if before.is_full() {
                assert(before.advanced(&mid));
                assert(mid.node_of(index).spec_state() == before.node_of(index).spec_state());
                if !ROOT {
                    assert(mid.node_of(edge_node_index).spec_actions().len() == before.node_of(edge_node_index).spec_actions().len());
                }
            }
        }
        let state = self.node(index).state();
        let cur = self.current_segment;
        let added = self.segments[cur].add(state, 0);
        let new_index = added.unwrap();
        let ghost added_tree = *self;
        proof {
            crate::node_index::lemma_parts_roundtrip(mid.len_of(cur as int) as u32, cur as u32);
            assert(new_index.spec_segment() == cur);
            assert(self.valid_index(new_index));
            assert(self.node_of(new_index).spec_state() == state);
            if !ROOT {
                assert(!points_at(edge_node_index, cur as int, mid.len_of(cur as int) as int));
                assert(self.node_of(edge_node_index) == mid.node_of(edge_node_index));
            }
        }
        if index != new_index {
            proof {
                if points_at(index, new_index.spec_segment(), new_index.spec_index() as int) {
                    crate::node_index::lemma_parts_cover(index);
                    crate::node_index::lemma_parts_cover(new_index);
                }
                if !ROOT && points_at(index, edge_node_index.spec_segment(), edge_node_index.spec_index() as int) {
                    crate::node_index::lemma_parts_cover(index);
                    crate::node_index::lemma_parts_cover(edge_node_index);
                }
            }
            let mut tmp: Vec<Edge> = Vec::new();
            let old_node = self.node_mut(index);
            std::mem::swap(&mut tmp, old_node.actions_mut());
            let new_node = self.node_mut(new_index);
            std::mem::swap(&mut tmp, new_node.actions_mut());
            let old_node = self.node_mut(index);
            std::mem::swap(&mut tmp, old_node.actions_mut());
            proof {
                assert(self.node_of(new_index).spec_state() == state);
                if !ROOT {
                    assert(self.node_of(edge_node_index) == added_tree.node_of(edge_node_index));
                }
            }
        }
        let ghost moved = *self;
        if ROOT {
            self.root_edge.set_index(new_index);
        } else {
            self.change_edge_node_index(edge_node_index, action_index, new_index);
        }
        proof {
            if !ROOT {
                if points_at(edge_node_index, new_index.spec_segment(), new_index.spec_index() as int) {
                    crate::node_index::lemma_parts_cover(edge_node_index);
                    crate::node_index::lemma_parts_cover(new_index);
                }
                if points_at(edge_node_index, index.spec_segment(), index.spec_index() as int) {
                    crate::node_index::lemma_parts_cover(edge_node_index);
                    crate::node_index::lemma_parts_cover(index);
                }
                assert(self.node_of(new_index).spec_actions() == moved.node_of(new_index).spec_actions());
                assert(self.node_of(index).spec_actions() == moved.node_of(index).spec_actions());
                assert(moved.node_of(edge_node_index) == mid.node_of(edge_node_index));
            }
            assert(mid.wf());
            assert(mid.len_of(cur as int) < mid.segment_size());
            assert(added_tree.len_of(cur as int) == mid.len_of(cur as int) + 1);
            assert(moved.len_of(cur as int) == added_tree.len_of(cur as int));
            assert(self.len_of(cur as int) == mid.len_of(cur as int) + 1);
            assert forall|s: int| 0 <= s < 4 && s != mid.spec_current() implies #[trigger] self.len_of(s) == mid.len_of(s) by {
                assert(added_tree.len_of(s) == mid.len_of(s));
                assert(moved.len_of(s) == added_tree.len_of(s));
            }
            assert forall|s: int, i: int|
                0 <= s < 4 && 0 <= i < mid.segment_size() && !points_at(index, s, i) && !points_at(new_index, s, i)
                    && (!ROOT ==> !points_at(edge_node_index, s, i)) implies #[trigger] self.node_at(s, i) == mid.node_at(s, i) by {
                assert(added_tree.node_at(s, i) == mid.node_at(s, i));
                assert(moved.node_at(s, i) == added_tree.node_at(s, i));
            }
        }
        new_index
    }
}

} // verus!
