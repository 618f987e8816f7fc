use vstd::prelude::*;

verus! {

/// Outcome of a position as far as the search has proven it: `Lost(n)` and `Won(n)`
/// count the plies to mate.
#[derive(Clone, Copy, PartialEq, Eq, Structural, Debug)]
pub enum GameState {
    Unresolved,
    Lost(u8),
    Drawn,
    Won(u8),
}

impl GameState {
    /// The 16-bit code of a state: the kind in the high byte (`0` unresolved, `1` drawn,
    /// `2` lost, `3` won), the ply count in the low byte.
    pub open spec fn code(self) -> u16 {
        match self {
            GameState::Unresolved => 0,
            GameState::Drawn => 256,
            GameState::Lost(x) => (512 + x) as u16,
            GameState::Won(x) => (768 + x) as u16,
        }
    }

    /// The state that a code stands for (codes of `1024` and above stand for none).
    pub open spec fn decode(value: u16) -> GameState {
        let x = (value % 256) as u8;
        let kind = value / 256;
        if kind == 0 {
            GameState::Unresolved
        } else if kind == 1 {
            GameState::Drawn
        } else if kind == 2 {
            GameState::Lost(x)
        } else {
            GameState::Won(x)
        }
    }

    pub open spec fn spec_is_terminal(self) -> bool {
        !(self is Unresolved)
    }

    /// Encodes the state into its 16-bit code.
    pub fn to_u16(self) -> (r: u16)
        ensures
            r == self.code(),
            r < 1024,
    {
        match self {
            GameState::Unresolved => 0,
            GameState::Drawn => {
                assert(1u16 << 8u16 == 256) by (bit_vector);
                1u16 << 8u16
            },
            GameState::Lost(x) => {
                let v: u16 = (2u16 << 8u16) ^ (x as u16);
                assert((2u16 << 8u16) ^ (x as u16) == 512 + x) by (bit_vector)
                    requires
                        x < 256,
                ;
                v
            },
            GameState::Won(x) => {
                let v: u16 = (3u16 << 8u16) ^ (x as u16);
                assert((3u16 << 8u16) ^ (x as u16) == 768 + x) by (bit_vector)
                    requires
                        x < 256,
                ;
                v
            },
        }
    }

    /// Decodes a 16-bit code; the kind byte must be one of the four kinds.
    pub fn from_u16(value: u16) -> (r: GameState)
        requires
            value < 1024,
        ensures
            r == GameState::decode(value),
    {
        let x = value as u8;
        let kind = value >> 8u16;
        assert(value >> 8u16 == value / 256) by (bit_vector);
        assert(value as u8 == value % 256) by (bit_vector);
        if kind == 0 {
            GameState::Unresolved
        } else if kind == 1 {
            GameState::Drawn
        } else if kind == 2 {
            GameState::Lost(x)
        } else {
            GameState::Won(x)
        }
    }
}

/// Decoding the code of a state gives the state back.
pub proof fn lemma_state_code_roundtrip(state: GameState)
    ensures
        GameState::decode(state.code()) == state,
        state.code() < 1024,
{
}

/// Distinct states have distinct codes.
pub proof fn lemma_state_code_injective(a: GameState, b: GameState)
    ensures
        a.code() == b.code() <==> a == b,
{
    lemma_state_code_roundtrip(a);
    lemma_state_code_roundtrip(b);
}

impl From<GameState> for u16 {
    /// The 16-bit code of a state, as `GameState::to_u16` gives it.
    fn from(value: GameState) -> (r: u16) {
        value.to_u16()
    }
}

impl vstd::std_specs::convert::FromSpecImpl<GameState> for u16 {
    open spec fn obeys_from_spec() -> bool {
        true
    }

    open spec fn from_spec(v: GameState) -> u16 {
        v.code()
    }
}

impl Default for GameState {
    fn default() -> (r: GameState)
        ensures
            r == GameState::Unresolved,
    {
        GameState::Unresolved
    }
}

} // verus!
