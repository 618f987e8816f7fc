use vstd::prelude::*;
use crate::chess::Move;
use crate::node_index::NodeIndex;
use crate::score::AtomicScore;

verus! {

/// The policy value that stands for probability one.
pub const POLICY_ONE: i16 = 32767;

/// A move from a node of the search tree together with its statistics: the node it leads
/// to (or the null index), the move, its prior policy as a fraction of `POLICY_ONE`, the
/// number of visits, the mean score and the mean squared score (a fraction of `u32::MAX`).
#[derive(Clone, Copy)]
pub struct Edge {
    node_index: u32,
    mv: u16,
    policy: i16,
    visits: u32,
    score: AtomicScore,
    squared_score: u32,
}

impl Edge {
    pub closed spec fn spec_node_index(&self) -> u32 {
        self.node_index
    }

    pub closed spec fn spec_mv(&self) -> u16 {
        self.mv
    }

    pub closed spec fn spec_policy(&self) -> i16 {
        self.policy
    }

    pub closed spec fn spec_visits(&self) -> u32 {
        self.visits
    }

    pub closed spec fn spec_score(&self) -> AtomicScore {
        self.score
    }

    pub closed spec fn spec_squared_score(&self) -> u32 {
        self.squared_score
    }

    /// A fresh edge: no visits, a zero score.
    pub fn new(node_index: NodeIndex, mv: Move, policy: i16) -> (r: Edge)
        ensures
            r.spec_node_index() == node_index.0,
            r.spec_mv() == mv.0,
            r.spec_policy() == policy,
            r.spec_visits() == 0,
            r.spec_score() == AtomicScore(0, 0),
            r.spec_squared_score() == 0,
    {
        Edge {
            node_index: node_index.get_raw(),
            mv: mv.get_raw(),
            policy,
            visits: 0,
            score: AtomicScore::new(0, 0),
            squared_score: 0,
        }
    }

    /// Resets the edge to the null node, the null move and full policy.
    pub fn clear(&mut self)
        ensures
            final(self).spec_node_index() == u32::MAX,
            final(self).spec_mv() == 0,
            final(self).spec_policy() == POLICY_ONE,
            final(self).spec_visits() == 0,
            final(self).spec_score() == AtomicScore(0, 0),
            final(self).spec_squared_score() == old(self).spec_squared_score(),
    {
        self.replace(NodeIndex::null(), Move::null(), POLICY_ONE);
    }

    /// Points the edge at another node and move, with a new policy; visits and score restart.
    pub fn replace(&mut self, node_index: NodeIndex, mv: Move, policy: i16)
        ensures
            final(self).spec_node_index() == node_index.0,
            final(self).spec_mv() == mv.0,
            final(self).spec_policy() == policy,
            final(self).spec_visits() == 0,
            final(self).spec_score() == AtomicScore(0, 0),
            final(self).spec_squared_score() == old(self).spec_squared_score(),
    {
        self.set_node_index(node_index);
        self.mv = mv.get_raw();
        self.update_policy(policy);
        self.visits = 0;
        self.score = AtomicScore::new(0, 0);
    }

    pub fn node_index(&self) -> (r: NodeIndex)
        ensures
            r.0 == self.spec_node_index(),
    {
        NodeIndex::from_raw(self.node_index)
    }

    pub fn set_node_index(&mut self, index: NodeIndex)
        ensures
            final(self).spec_node_index() == index.0,
            final(self).spec_mv() == old(self).spec_mv(),
            final(self).spec_policy() == old(self).spec_policy(),
            final(self).spec_visits() == old(self).spec_visits(),
            final(self).spec_score() == old(self).spec_score(),
            final(self).spec_squared_score() == old(self).spec_squared_score(),
    {
        self.node_index = index.get_raw();
    }

    /// Same as `set_node_index`.
    pub fn set_index(&mut self, index: NodeIndex)
        ensures
            final(self).spec_node_index() == index.0,
            final(self).spec_mv() == old(self).spec_mv(),
            final(self).spec_policy() == old(self).spec_policy(),
            final(self).spec_visits() == old(self).spec_visits(),
            final(self).spec_score() == old(self).spec_score(),
            final(self).spec_squared_score() == old(self).spec_squared_score(),
    {
        self.set_node_index(index);
    }

    pub fn mv(&self) -> (r: Move)
        ensures
            r.0 == self.spec_mv(),
    {
        Move::from_raw(self.mv)
    }

    pub fn policy(&self) -> (r: i16)
        ensures
            r == self.spec_policy(),
    {
        self.policy
    }

    pub fn visits(&self) -> (r: u32)
        ensures
            r == self.spec_visits(),
    {
        self.visits
    }

    pub fn score(&self) -> (r: AtomicScore)
        ensures
            r == self.spec_score(),
    {
        self.score
    }

    pub fn squared_score(&self) -> (r: u32)
        ensures
            r == self.spec_squared_score(),
    {
        self.squared_score
    }

    pub fn update_policy(&mut self, new_policy: i16)
        ensures
            final(self).spec_policy() == new_policy,
            final(self).spec_node_index() == old(self).spec_node_index(),
            final(self).spec_mv() == old(self).spec_mv(),
            final(self).spec_visits() == old(self).spec_visits(),
            final(self).spec_score() == old(self).spec_score(),
            final(self).spec_squared_score() == old(self).spec_squared_score(),
    {
        self.policy = new_policy;
    }

    /// Records one more visit: the visit counter goes up by one (wrapping at `u32::MAX`)
    /// and the mean score and mean squared score take the values given, which the caller
    /// has averaged in.
    pub fn add_score(&mut self, new_score: AtomicScore, new_squared_score: u32)
        ensures
            final(self).spec_visits() == if old(self).spec_visits() == u32::MAX {
                0
            } else {
                (old(self).spec_visits() + 1) as u32
            },
            final(self).spec_score() == new_score,
            final(self).spec_squared_score() == new_squared_score,
            final(self).spec_node_index() == old(self).spec_node_index(),
            final(self).spec_mv() == old(self).spec_mv(),
            final(self).spec_policy() == old(self).spec_policy(),
            *final(self) == scored(*old(self), new_score, new_squared_score),
    {
        self.visits = self.visits.wrapping_add(1);
        self.score = new_score;
        self.squared_score = new_squared_score;
    }
}

/// The edge after one recorded visit with mean score `s` and mean squared score `sq`.
pub closed spec fn scored(e: Edge, s: AtomicScore, sq: u32) -> Edge {
    Edge {
        visits: if e.visits == u32::MAX { 0 } else { (e.visits + 1) as u32 },
        score: s,
        squared_score: sq,
        ..e
    }
}

/// The edge after recording a visit for each of `updates` in turn.
pub open spec fn after_scores(e: Edge, updates: Seq<(AtomicScore, u32)>) -> Edge
    decreases updates.len(),
{
    if updates.len() == 0 {
        e
    } else {
        scored(after_scores(e, updates.drop_last()), updates.last().0, updates.last().1)
    }
}

/// Each recorded visit counts once: after `k` calls of `add_score` the visit counter has
/// gone up by `k` (modulo `2^32`), and the edge keeps its node, move and policy.
pub proof fn lemma_visits_count(e: Edge, updates: Seq<(AtomicScore, u32)>)
    ensures
        after_scores(e, updates).spec_visits() == (e.spec_visits() + updates.len()) % 0x1_0000_0000,
        after_scores(e, updates).spec_node_index() == e.spec_node_index(),
        after_scores(e, updates).spec_mv() == e.spec_mv(),
        after_scores(e, updates).spec_policy() == e.spec_policy(),
    decreases updates.len(),
{
    if updates.len() > 0 {
        lemma_visits_count(e, updates.drop_last());
        let prev = after_scores(e, updates.drop_last());
        assert(prev.spec_visits() == (e.spec_visits() + updates.len() - 1) % 0x1_0000_0000);
        if prev.spec_visits() == u32::MAX {
            assert((e.spec_visits() + updates.len()) % 0x1_0000_0000 == 0) by {
                vstd::arithmetic::div_mod::lemma_add_mod_noop(e.spec_visits() + updates.len() - 1, 1, 0x1_0000_0000);
            }
        } else {
            assert((e.spec_visits() + updates.len()) % 0x1_0000_0000 == prev.spec_visits() + 1) by {
                vstd::arithmetic::div_mod::lemma_add_mod_noop(e.spec_visits() + updates.len() - 1, 1, 0x1_0000_0000);
            }
        }
    }
}

impl Default for Edge {
    /// An edge to no node, with the null move and full policy.
    fn default() -> (r: Edge)
        ensures
            r.spec_node_index() == u32::MAX,
            r.spec_mv() == 0,
            r.spec_policy() == POLICY_ONE,
            r.spec_visits() == 0,
            r.spec_score() == AtomicScore(0, 0),
            r.spec_squared_score() == 0,
    {
        Edge::new(NodeIndex::null(), Move::null(), POLICY_ONE)
    }
}

} // verus!
