use vstd::prelude::*;
use crate::edge::Edge;
use crate::game_state::GameState;

verus! {

/// Thread count after one more thread enters (wrapping at `u16::MAX`).
pub open spec fn threads_after_inc(t: u16) -> u16 {
    if t == u16::MAX { 0 } else { (t + 1) as u16 }
}

/// Thread count after one thread leaves (wrapping at zero).
pub open spec fn threads_after_dec(t: u16) -> u16 {
    if t == 0 { u16::MAX } else { (t - 1) as u16 }
}

/// A thread that enters a node and leaves it again leaves the count as it was.
pub proof fn lemma_threads_inc_dec(t: u16)
    ensures
        threads_after_dec(threads_after_inc(t)) == t,
        threads_after_inc(threads_after_dec(t)) == t,
{
}

/// A game state stored as its 16-bit code; the code is always one that decodes.
struct StateCell {
    code: u16,
}

impl StateCell {
    #[verifier::type_invariant]
    spec fn is_code(&self) -> bool {
        self.code < 1024
    }

    closed spec fn view(&self) -> GameState {
        GameState::decode(self.code)
    }

    fn new(state: GameState) -> (r: StateCell)
        ensures
            r.view() == state,
    {
        proof {
            crate::game_state::lemma_state_code_roundtrip(state);
        }
        StateCell { code: state.to_u16() }
    }

    fn get(&self) -> (r: GameState)
        ensures
            r == self.view(),
    {
        proof {
            use_type_invariant(self);
        }
        GameState::from_u16(self.code)
    }
}

/// A node of the search tree: its outgoing edges, its proven state (held as the state's
/// 16-bit code), the position's hash key, the number of search threads inside it and
/// its Gini impurity (the bits of a 32-bit float).
pub struct Node {
    actions: Vec<Edge>,
    state: StateCell,
    key: u64,
    threads: u16,
    gini_impurity: u32,
}

impl Node {
    pub closed spec fn spec_actions(&self) -> Seq<Edge> {
        self.actions@
    }

    pub closed spec fn spec_state(&self) -> GameState {
        self.state.view()
    }

    pub closed spec fn spec_key(&self) -> u64 {
        self.key
    }

    pub closed spec fn spec_threads(&self) -> u16 {
        self.threads
    }

    pub closed spec fn spec_gini(&self) -> u32 {
        self.gini_impurity
    }

    pub fn new(state: GameState) -> (r: Node)
        ensures
            r.spec_actions() == Seq::<Edge>::empty(),
            r.spec_state() == state,
            r.spec_key() == 0,
            r.spec_threads() == 0,
            r.spec_gini() == 0,
    {
        Node { actions: Vec::new(), state: StateCell::new(state), key: 0, threads: 0, gini_impurity: 0 }
    }

    /// Empties the node: no edges, unresolved, key zero.
    pub fn clear(&mut self)
        ensures
            final(self).spec_actions() == Seq::<Edge>::empty(),
            final(self).spec_state() == GameState::Unresolved,
            final(self).spec_key() == 0,
            final(self).spec_threads() == old(self).spec_threads(),
            final(self).spec_gini() == 0,
    {
        self.replace(GameState::Unresolved, 0);
    }

    /// Reuses the node for a new position: no edges, the given state and key, impurity zero.
    pub fn replace(&mut self, state: GameState, key: u64)
        ensures
            final(self).spec_actions() == Seq::<Edge>::empty(),
            final(self).spec_state() == state,
            final(self).spec_key() == key,
            final(self).spec_threads() == old(self).spec_threads(),
            final(self).spec_gini() == 0,
    {
        self.actions = Vec::new();
        self.state = StateCell::new(state);
        self.key = key;
        self.gini_impurity = 0;
    }

    pub fn state(&self) -> (r: GameState)
        ensures
            r == self.spec_state(),
    {
        self.state.get()
    }

    pub fn set_state(&mut self, state: GameState)
        ensures
            final(self).spec_state() == state,
            final(self).spec_actions() == old(self).spec_actions(),
            final(self).spec_key() == old(self).spec_key(),
            final(self).spec_threads() == old(self).spec_threads(),
            final(self).spec_gini() == old(self).spec_gini(),
    {
        self.state = StateCell::new(state);
    }

    pub fn key(&self) -> (r: u64)
        ensures
            r == self.spec_key(),
    {
        self.key
    }

    pub fn set_key(&mut self, key: u64)
        ensures
            final(self).spec_key() == key,
            final(self).spec_state() == old(self).spec_state(),
            final(self).spec_actions() == old(self).spec_actions(),
            final(self).spec_threads() == old(self).spec_threads(),
            final(self).spec_gini() == old(self).spec_gini(),
    {
        self.key = key;
    }

    pub fn actions(&self) -> (r: &Vec<Edge>)
        ensures
            r@ == self.spec_actions(),
    {
        &self.actions
    }

    pub fn actions_mut(&mut self) -> (r: &mut Vec<Edge>)
        ensures
            r@ == old(self).spec_actions(),
            final(self).spec_actions() == final(r)@,
            final(self).spec_state() == old(self).spec_state(),
            final(self).spec_key() == old(self).spec_key(),
            final(self).spec_threads() == old(self).spec_threads(),
            final(self).spec_gini() == old(self).spec_gini(),
    {
        &mut self.actions
    }

    pub fn threads(&self) -> (r: u16)
        ensures
            r == self.spec_threads(),
    {
        self.threads
    }

    /// Counts one more thread in the node (wrapping); returns the count before.
    pub fn inc_threads(&mut self) -> (r: u16)
        ensures
            r == old(self).spec_threads(),
            final(self).spec_threads() == threads_after_inc(r),
            final(self).spec_state() == old(self).spec_state(),
            final(self).spec_actions() == old(self).spec_actions(),
            final(self).spec_key() == old(self).spec_key(),
            final(self).spec_gini() == old(self).spec_gini(),
    {
        let previous = self.threads;
        self.threads = self.threads.wrapping_add(1);
        previous
    }

    /// Counts one thread less in the node (wrapping); returns the count before.
    pub fn dec_threads(&mut self) -> (r: u16)
        ensures
            r == old(self).spec_threads(),
            final(self).spec_threads() == threads_after_dec(r),
            final(self).spec_state() == old(self).spec_state(),
            final(self).spec_actions() == old(self).spec_actions(),
            final(self).spec_key() == old(self).spec_key(),
            final(self).spec_gini() == old(self).spec_gini(),
    {
        let previous = self.threads;
        self.threads = self.threads.wrapping_sub(1);
        previous
    }

    pub fn gini_impurity(&self) -> (r: u32)
        ensures
            r == self.spec_gini(),
    {
        self.gini_impurity
    }

    pub fn set_gini_impurity(&mut self, gini_impurity: u32)
        ensures
            final(self).spec_gini() == gini_impurity,
            final(self).spec_state() == old(self).spec_state(),
            final(self).spec_actions() == old(self).spec_actions(),
            final(self).spec_key() == old(self).spec_key(),
            final(self).spec_threads() == old(self).spec_threads(),
    {
        self.gini_impurity = gini_impurity;
    }

    pub fn has_children(&self) -> (r: bool)
        ensures
            r == (self.spec_actions().len() > 0),
    {
        !self.actions.is_empty()
    }

    pub fn is_terminal(&self) -> (r: bool)
        ensures
            r == self.spec_state().spec_is_terminal(),
    {
        match self.state() {
            GameState::Unresolved => false,
            _ => true,
        }
    }

    /// Same as `is_terminal`.
    pub fn is_termial(&self) -> (r: bool)
        ensures
            r == self.spec_state().spec_is_terminal(),
    {
        self.is_terminal()
    }
}

impl Default for Node {
    fn default() -> (r: Node)
        ensures
            r.spec_actions() == Seq::<Edge>::empty(),
            r.spec_state() == GameState::Unresolved,
            r.spec_key() == 0,
            r.spec_threads() == 0,
            r.spec_gini() == 0,
    {
        Node::new(GameState::Unresolved)
    }
}

} // verus!
