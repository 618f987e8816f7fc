use vstd::prelude::*;
use crate::game_state::GameState;

verus! {

/// The state of a position as the search first sees it: drawn by repetition, by
/// insufficient material or by the fifty-move rule; lost at once when the side to move
/// has no legal move and is in check, drawn when it has none and is not; else unresolved.
pub open spec fn position_state(
    is_repetition: bool,
    insufficient_material: bool,
    half_move_counter: u8,
    move_count: usize,
    in_check: bool,
) -> GameState {
    if is_repetition || insufficient_material || half_move_counter >= 100 {
        GameState::Drawn
    } else if move_count == 0 {
        if in_check {
            GameState::Lost(0)
        } else {
            GameState::Drawn
        }
    } else {
        GameState::Unresolved
    }
}

/// A position that repeats, lacks mating material or has reached a half-move counter of
/// `100` is drawn, whatever its legal moves and whether the side to move is in check. Only
/// a position with no legal move while in check is lost, and a position is unresolved
/// exactly when none of the draws applies and a legal move exists.
pub proof fn lemma_position_state_rules(
    is_repetition: bool,
    insufficient_material: bool,
    half_move_counter: u8,
    move_count: usize,
    in_check: bool,
)
    ensures
        is_repetition || insufficient_material || half_move_counter >= 100 ==> position_state(
            is_repetition,
            insufficient_material,
            half_move_counter,
            move_count,
            in_check,
        ) == GameState::Drawn,
        (position_state(is_repetition, insufficient_material, half_move_counter, move_count, in_check) is Lost)
            <==> (!is_repetition && !insufficient_material && half_move_counter < 100 && move_count == 0 && in_check),
        (position_state(is_repetition, insufficient_material, half_move_counter, move_count, in_check) is Lost)
            ==> position_state(is_repetition, insufficient_material, half_move_counter, move_count, in_check)
            == GameState::Lost(0),
        (position_state(is_repetition, insufficient_material, half_move_counter, move_count, in_check) is Unresolved)
            <==> (!is_repetition && !insufficient_material && half_move_counter < 100 && move_count > 0),
{
}

pub struct SearchHelpers;

impl SearchHelpers {
    /// Classifies a position from the facts that the move generator reports about it:
    /// whether it repeats, whether material is insufficient, the half-move counter, the
    /// number of legal moves and whether the side to move is in check.
    pub fn get_position_state(
        is_repetition: bool,
        insufficient_material: bool,
        half_move_counter: u8,
        move_count: usize,
        in_check: bool,
    ) -> (r: GameState)
        ensures
            r == position_state(is_repetition, insufficient_material, half_move_counter, move_count, in_check),
    {
        if is_repetition || insufficient_material || half_move_counter >= 100 {
            return GameState::Drawn;
        }
        if move_count == 0 {
            if in_check {
                return GameState::Lost(0);
            } else {
                return GameState::Drawn;
            }
        }
        GameState::Unresolved
    }
}

} // verus!
