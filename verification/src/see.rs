use vstd::prelude::*;
use crate::attacks::{
    Attacks, BishopAttacks, RookAttacks, bishop_attack_set, rook_attack_set, knight_attack_set,
    king_attack_set, pawn_attack_set, lemma_slider_sets_grow, lemma_rook_set_local, lemma_bishop_set_local,
    lemma_bishop_set_diagonal, lemma_rook_set_straight,
};
use crate::bits::{
    is_set, squares, single, lemma_squares_ops, lemma_squares_xor, lemma_squares_single,
    lemma_zero_iff_empty, lemma_squares_finite,
};
use crate::chess::{ChessBoard, Move, MoveFlag, Piece};

verus! {

/// Material value of a piece type in the exchange: pawn 100, knight and bishop 300,
/// rook 500, queen 900, king 0.
pub open spec fn piece_value(p: int) -> int {
    if p == 0 {
        100
    } else if p == 1 || p == 2 {
        300
    } else if p == 3 {
        500
    } else if p == 4 {
        900
    } else {
        0
    }
}

/// `s` with `x` taken out where it holds `x`, and added where it does not.
pub open spec fn toggle(s: Set<int>, x: int) -> Set<int> {
    if s.contains(x) { s.remove(x) } else { s.insert(x) }
}

/// The smallest element of a set of squares.
pub open spec fn lowest(s: Set<int>) -> int {
    choose|t: int| s.contains(t) && forall|u: int| #[trigger] s.contains(u) ==> t <= u
}

/// The cheapest piece type, from `p` up, of which `my` holds a square; the king where
/// no cheaper one is found.
pub open spec fn least_victim(b: ChessBoard, my: Set<int>, p: int) -> int
    decreases 5 - p,
{
    if p >= 5 {
        5
    } else if !my.intersect(b.piece_set(p)).is_empty() {
        p
    } else {
        least_victim(b, my, p + 1)
    }
}

/// Value that the move wins before any recapture: the captured piece, the gain of a
/// promotion, a pawn for en passant, nothing for castling.
pub open spec fn estimate_value(b: ChessBoard, mv: Move) -> int {
    let target = b.piece_on(mv.to_sq());
    let captured = if target == 6 { 0 } else { piece_value(target) };
    if mv.spec_is_promotion() {
        captured + piece_value(mv.promotion_piece()) - piece_value(0)
    } else if mv.spec_is_en_passant() {
        piece_value(0)
    } else if mv.flag() == 2 || mv.flag() == 3 {
        0
    } else {
        captured
    }
}

/// The swap-off on square `to`: side `cur` recaptures with its cheapest attacker, sliders
/// behind it are revealed, and the sides alternate until one side has no attacker left or
/// the balance already favours the side that just captured. Returns whether the side that
/// loses the exchange is white (`cur` when it has no attacker or gives up).
pub open spec fn exchange(
    b: ChessBoard,
    to: int,
    bishops: Set<int>,
    rooks: Set<int>,
    cur: bool,
    other: bool,
    balance: int,
    occupied: Set<int>,
    attackers: Set<int>,
    fuel: nat,
) -> bool
    decreases fuel,
{
    let my = attackers.intersect(b.side_set(cur));
    if my.is_empty() || fuel == 0 {
        cur
    } else {
        let victim = least_victim(b, my, 0);
        let occ = toggle(occupied, lowest(my.intersect(b.piece_set(victim))));
        let a1 = if victim == 0 || victim == 2 || victim == 4 {
            attackers.union(bishop_attack_set(to, occ).intersect(bishops))
        } else {
            attackers
        };
        let a2 = if victim == 3 || victim == 4 {
            a1.union(rook_attack_set(to, occ).intersect(rooks))
        } else {
            a1
        };
        let a3 = a2.intersect(occ);
        let bal = -balance - 1 - piece_value(victim);
        if bal >= 0 {
            if victim == 5 && !a3.intersect(b.side_set(cur)).is_empty() {
                cur
            } else {
                !cur
            }
        } else {
            exchange(b, to, bishops, rooks, other, cur, bal, occ, a3, (fuel - 1) as nat)
        }
    }
}

/// Squares of the pieces that attack `to` once the squares in `occ` are the occupied ones.
pub open spec fn attackers_of(b: ChessBoard, to: int, occ: Set<int>) -> Set<int> {
    let bishops = b.piece_set(2).union(b.piece_set(4));
    let rooks = b.piece_set(3).union(b.piece_set(4));
    knight_attack_set(to).intersect(b.piece_set(1))
        .union(king_attack_set(to).intersect(b.piece_set(5)))
        .union(pawn_attack_set(to, false).intersect(b.piece_set(0)).intersect(b.side_set(true)))
        .union(pawn_attack_set(to, true).intersect(b.piece_set(0)).intersect(b.side_set(false)))
        .union(rook_attack_set(to, occ).intersect(rooks))
        .union(bishop_attack_set(to, occ).intersect(bishops))
}

/// Occupied squares once the move is made: the origin toggled, the target added and, for
/// en passant, the en passant square toggled.
pub open spec fn occupied_after(b: ChessBoard, mv: Move) -> Set<int> {
    let occ0 = toggle(b.occupied_set(), mv.from_sq()).insert(mv.to_sq());
    if mv.spec_is_en_passant() {
        toggle(occ0, b.ep_square())
    } else {
        occ0
    }
}

/// Whether the move `mv` wins at least `threshold` in the exchange on its target square.
/// `stm_white` and `nstm_white` name the side to move and the other side.
pub open spec fn see_result(b: ChessBoard, mv: Move, threshold: int, stm_white: bool, nstm_white: bool) -> bool {
    let first = if mv.spec_is_promotion() { mv.promotion_piece() } else { b.piece_on(mv.from_sq()) };
    let balance0 = estimate_value(b, mv) - threshold;
    if balance0 < 0 {
        false
    } else if balance0 - piece_value(first) >= 0 {
        true
    } else {
        let occ = occupied_after(b, mv);
        let bishops = b.piece_set(2).union(b.piece_set(4));
        let rooks = b.piece_set(3).union(b.piece_set(4));
        b.stm().is_white() != exchange(
            b,
            mv.to_sq(),
            bishops,
            rooks,
            nstm_white,
            stm_white,
            balance0 - piece_value(first),
            occ,
            attackers_of(b, mv.to_sq(), occ),
            66,
        )
    }
}

fn value_of(piece: u8) -> (r: i32)
    ensures
        r == piece_value(piece as int),
{
    if piece == 0 {
        100
    } else if piece == 1 || piece == 2 {
        300
    } else if piece == 3 {
        500
    } else if piece == 4 {
        900
    } else {
        0
    }
}

fn estimate_move_value(board: &ChessBoard, mv: Move) -> (r: i32)
    ensures
        r == estimate_value(*board, mv),
{
    let target_piece = board.get_piece_on_square(mv.get_to_square());
    let mut value: i32 = if target_piece.get_raw() == Piece::NONE {
        0
    } else {
        value_of(target_piece.get_raw())
    };
    if mv.is_promotion() {
        value = value + value_of(mv.get_promotion_piece().get_raw()) - value_of(Piece::PAWN);
    } else if mv.is_en_passant() {
        value = value_of(Piece::PAWN);
    } else if mv.get_flag() == MoveFlag::KING_SIDE_CASTLE || mv.get_flag() == MoveFlag::QUEEN_SIDE_CASTLE {
        value = 0;
    }
    value
}

proof fn lemma_toggle_squares(x: u64, s: int)
    requires
        0 <= s < 64,
    ensures
        squares(x ^ single(s)) == toggle(squares(x), s),
{
    lemma_squares_xor(x, single(s));
    lemma_squares_single(s);
    assert forall|t: int| squares(x ^ single(s)).contains(t) <==> toggle(squares(x), s).contains(t) by {
        assert(is_set(x ^ single(s), t) <==> (is_set(x, t) != is_set(single(s), t)));
        assert(squares(single(s)).contains(t) <==> t == s);
    }
    assert(squares(x ^ single(s)) =~= toggle(squares(x), s));
}

proof fn lemma_lowest(x: u64)
    requires
        x != 0,
    ensures
        (x.trailing_zeros() as int) == lowest(squares(x)),
        x.trailing_zeros() < 64,
        squares(x).contains(x.trailing_zeros() as int),
{
    vstd::std_specs::bits::axiom_u64_trailing_zeros(x);
    let tz = x.trailing_zeros() as int;
    let s = squares(x);
    assert(s.contains(tz));
    assert forall|u: int| #[trigger] s.contains(u) implies tz <= u by {
        if u < tz {
            assert((x >> (u as u64)) & 1u64 == 0u64);
        }
    }
    let l = lowest(s);
    assert(s.contains(l) && forall|u: int| #[trigger] s.contains(u) ==> l <= u);
}

proof fn lemma_victim_found(b: ChessBoard, my: Set<int>, p: int)
    requires
        b.wf(),
        0 <= p <= 5,
        !my.is_empty(),
        my.subset_of(b.occupied_set()),
        forall|q: int| 0 <= q < p ==> (#[trigger] my.intersect(b.piece_set(q))).is_empty(),
    ensures
        0 <= least_victim(b, my, p) <= 5,
        !my.intersect(b.piece_set(least_victim(b, my, p))).is_empty(),
        forall|q: int| 0 <= q < least_victim(b, my, p) ==> (#[trigger] my.intersect(b.piece_set(q))).is_empty(),
    decreases 5 - p,
{
    if p >= 5 {
        if my.intersect(b.piece_set(5)).is_empty() {
            let x = choose|x: int| my.contains(x);
            assert(!(my =~= Set::<int>::empty()) ==> exists|x: int| my.contains(x) && !Set::<int>::empty().contains(x));
            assert(my.contains(x));
            assert(b.occupied_set().contains(x));
            let q = choose|q: int| 0 <= q < 6 && #[trigger] b.piece_set(q).contains(x);
            assert(my.intersect(b.piece_set(q)).contains(x));
        }
    } else if !my.intersect(b.piece_set(p)).is_empty() {
    } else {
        lemma_victim_found(b, my, p + 1);
    }
}


/// A measure of an exchange position that each capture lowers by at least one: the
/// number of occupied squares, plus two while some attacker is off the occupied squares.
pub open spec fn exchange_size(occupied: Set<int>, attackers: Set<int>) -> int {
    occupied.len() + if attackers.subset_of(occupied) { 0int } else { 2int }
}

/// A nonempty set of squares has a smallest element.
proof fn lemma_lowest_exists(s: Set<int>, k: int)
    requires
        forall|x: int| #[trigger] s.contains(x) ==> 0 <= x,
        0 <= k,
    ensures
        (exists|x: int| #[trigger] s.contains(x) && x < k) ==> {
            &&& s.contains(lowest(s))
            &&& forall|u: int| #[trigger] s.contains(u) ==> lowest(s) <= u
        },
    decreases k,
{
    if k > 0 {
        lemma_lowest_exists(s, k - 1);
        if (exists|x: int| #[trigger] s.contains(x) && x < k) && !(exists|x: int| #[trigger] s.contains(x) && x < k - 1) {
            let x = choose|x: int| #[trigger] s.contains(x) && x < k;
            assert(x == k - 1);
            assert(forall|u: int| #[trigger] s.contains(u) ==> x <= u);
        }
    }
}

/// The outcome of the swap-off does not depend on the step budget, once the budget
/// covers the exchange's size: the budget of `see_result` never runs out.
pub proof fn lemma_exchange_budget(
    b: ChessBoard,
    to: int,
    bishops: Set<int>,
    rooks: Set<int>,
    cur: bool,
    other: bool,
    balance: int,
    occupied: Set<int>,
    attackers: Set<int>,
    fuel1: nat,
    fuel2: nat,
)
    requires
        b.wf(),
        occupied.finite(),
        forall|x: int| #[trigger] occupied.contains(x) ==> 0 <= x < 64,
        exchange_size(occupied, attackers) <= fuel1,
        exchange_size(occupied, attackers) <= fuel2,
    ensures
        exchange(b, to, bishops, rooks, cur, other, balance, occupied, attackers, fuel1) == exchange(
            b,
            to,
            bishops,
            rooks,
            cur,
            other,
            balance,
            occupied,
            attackers,
            fuel2,
        ),
    decreases fuel1,
{
    let my = attackers.intersect(b.side_set(cur));
    if !my.is_empty() {
        let x = choose|x: int| my.contains(x);
        assert(!(my =~= Set::<int>::empty()) ==> exists|x: int| my.contains(x) && !Set::<int>::empty().contains(x));
        assert(my.contains(x));
        if attackers.subset_of(occupied) {
            assert(occupied.contains(x));
            if occupied.len() == 0 {
                assert(occupied =~= Set::<int>::empty()) by {
                    vstd::set_lib::lemma_set_empty_equivalency_len(occupied);
                }
            }
        }
        assert(fuel1 >= 1 && fuel2 >= 1);
        assert(my.subset_of(b.occupied_set()));
        lemma_victim_found(b, my, 0);
        let victim = least_victim(b, my, 0);
        let pool = my.intersect(b.piece_set(victim));
        let y = choose|y: int| pool.contains(y);
        assert(!(pool =~= Set::<int>::empty()) ==> exists|y: int| pool.contains(y) && !Set::<int>::empty().contains(y));
        assert(pool.contains(y));
        assert forall|u: int| #[trigger] pool.contains(u) implies 0 <= u by {
            assert(b.side_set(cur).contains(u));
        }
        lemma_lowest_exists(pool, 64);
        assert(y < 64) by {
            assert(b.side_set(cur).contains(y));
        }
        let s = lowest(pool);
        assert(b.side_set(cur).contains(s));
        assert(attackers.contains(s));
        let occ = toggle(occupied, s);
        let a1 = if victim == 0 || victim == 2 || victim == 4 {
            attackers.union(bishop_attack_set(to, occ).intersect(bishops))
        } else {
            attackers
        };
        let a2 = if victim == 3 || victim == 4 {
            a1.union(rook_attack_set(to, occ).intersect(rooks))
        } else {
            a1
        };
        let a3 = a2.intersect(occ);
        let bal = -balance - 1 - piece_value(victim);
        assert(a3.subset_of(occ));
        if occupied.contains(s) {
            assert(occ.len() + 1 == occupied.len());
        } else {
            assert(occ.len() == occupied.len() + 1);
        }
        assert(occ.finite());
        assert forall|z: int| #[trigger] occ.contains(z) implies 0 <= z < 64 by {
            if z != s {
                assert(occupied.contains(z));
            }
        }
        if bal < 0 {
            lemma_exchange_budget(b, to, bishops, rooks, other, cur, bal, occ, a3, (fuel1 - 1) as nat, (fuel2 - 1) as nat);
        }
    }
}

/// The swap-off on square `to` played from the board alone: at each turn the attackers are
/// recomputed as the pieces that attack `to` through the current occupancy and still stand
/// on it, so a slider uncovered by a capture joins in. Side `cur` recaptures with its
/// cheapest attacker (the lowest square among equals), which leaves the occupancy; the
/// sides alternate until one has no attacker or the balance favours the side that just
/// captured (a king recapturing while the same side still has another attacker of the
/// square counts as lost). Returns whether the side that loses the exchange is white.
pub open spec fn swap_off(b: ChessBoard, to: int, cur: bool, balance: int, occ: Set<int>, fuel: nat) -> bool
    decreases fuel,
{
    let att = attackers_of(b, to, occ).intersect(occ);
    let my = att.intersect(b.side_set(cur));
    if my.is_empty() || fuel == 0 {
        cur
    } else {
        let victim = least_victim(b, my, 0);
        let s = lowest(my.intersect(b.piece_set(victim)));
        let bal = -balance - 1 - piece_value(victim);
        if bal >= 0 {
            if victim == 5 && !att.remove(s).intersect(b.side_set(cur)).is_empty() {
                cur
            } else {
                !cur
            }
        } else {
            swap_off(b, to, !cur, bal, occ.remove(s), (fuel - 1) as nat)
        }
    }
}

/// The squares uncovered by a capture with a piece of type `victim` that `exchange` adds to
/// the attackers: diagonal sliders after a pawn, bishop or queen, straight ones after a rook
/// or queen.
pub open spec fn uncovered(b: ChessBoard, to: int, occ: Set<int>, victim: int) -> Set<int> {
    let bishops = b.piece_set(2).union(b.piece_set(4));
    let rooks = b.piece_set(3).union(b.piece_set(4));
    let d = if victim == 0 || victim == 2 || victim == 4 {
        bishop_attack_set(to, occ).intersect(bishops)
    } else {
        Set::empty()
    };
    let l = if victim == 3 || victim == 4 {
        rook_attack_set(to, occ).intersect(rooks)
    } else {
        Set::empty()
    };
    d.union(l)
}

/// After a capture by a pawn, knight, bishop, rook or queen standing on `s`, the pieces that
/// attack `to` through the new occupancy are the old attackers together with the sliders
/// that the capture uncovered, among the pieces still on the board.
pub proof fn lemma_capture_uncovers(b: ChessBoard, to: int, occ: Set<int>, s: int, victim: int)
    requires
        b.wf(),
        0 <= to < 64,
        0 <= victim < 5,
        b.piece_set(victim).contains(s),
        attackers_of(b, to, occ).contains(s),
    ensures
        attackers_of(b, to, occ.remove(s)).intersect(occ.remove(s))
            == attackers_of(b, to, occ).union(uncovered(b, to, occ.remove(s), victim)).intersect(occ.remove(s)),
{
    let occ2 = occ.remove(s);
    let bishops = b.piece_set(2).union(b.piece_set(4));
    let rooks = b.piece_set(3).union(b.piece_set(4));
    assert(0 <= s < 64) by {
        assert(b.occupied_set().contains(s));
    }
    lemma_slider_sets_grow(to, occ, s);
    assert(b.piece_set(victim).disjoint(b.piece_set(0)) || victim == 0);
    assert(b.piece_set(victim).disjoint(b.piece_set(1)) || victim == 1);
    assert(b.piece_set(victim).disjoint(b.piece_set(2)) || victim == 2);
    assert(b.piece_set(victim).disjoint(b.piece_set(3)) || victim == 3);
    assert(b.piece_set(victim).disjoint(b.piece_set(4)) || victim == 4);
    assert(b.piece_set(victim).disjoint(b.piece_set(5)));
    if victim == 0 {
        assert(pawn_attack_set(to, false).contains(s) || pawn_attack_set(to, true).contains(s));
        lemma_rook_set_local(to, occ, s);
    } else if victim == 1 {
        assert(knight_attack_set(to).contains(s));
        lemma_rook_set_local(to, occ, s);
        lemma_bishop_set_local(to, occ, s);
    } else if victim == 2 {
        assert(bishop_attack_set(to, occ).contains(s));
        lemma_bishop_set_diagonal(to, occ, s);
        lemma_rook_set_local(to, occ, s);
    } else if victim == 3 {
        assert(rook_attack_set(to, occ).contains(s));
        lemma_rook_set_straight(to, occ, s);
        lemma_bishop_set_local(to, occ, s);
    }
    assert(attackers_of(b, to, occ2).intersect(occ2)
        =~= attackers_of(b, to, occ).union(uncovered(b, to, occ2, victim)).intersect(occ2));
}

/// The swap-off that `exchange` plays, with its attackers kept up to date capture by
/// capture, is the swap-off played from the board with the attackers recomputed at each
/// turn: a slider behind a piece that has captured joins the exchange.
pub proof fn lemma_exchange_recomputes(
    b: ChessBoard,
    to: int,
    cur: bool,
    balance: int,
    occupied: Set<int>,
    attackers: Set<int>,
    fuel: nat,
)
    requires
        b.wf(),
        0 <= to < 64,
        balance < 0,
        attackers.intersect(occupied) == attackers_of(b, to, occupied).intersect(occupied),
        attackers.intersect(b.side_set(cur)).subset_of(occupied),
    ensures
        exchange(
            b,
            to,
            b.piece_set(2).union(b.piece_set(4)),
            b.piece_set(3).union(b.piece_set(4)),
            cur,
            !cur,
            balance,
            occupied,
            attackers,
            fuel,
        ) == swap_off(b, to, cur, balance, occupied, fuel),
    decreases fuel,
{
    let bishops = b.piece_set(2).union(b.piece_set(4));
    let rooks = b.piece_set(3).union(b.piece_set(4));
    let att = attackers_of(b, to, occupied).intersect(occupied);
    let my = attackers.intersect(b.side_set(cur));
    assert(my =~= att.intersect(b.side_set(cur))) by {
        assert forall|x: int| my.contains(x) implies att.contains(x) by {
            assert(attackers.intersect(occupied).contains(x));
        }
        assert forall|x: int| att.contains(x) implies attackers.contains(x) by {
            assert(attackers.intersect(occupied).contains(x));
        }
    }
    if !my.is_empty() && fuel > 0 {
        assert(my.subset_of(b.occupied_set()));
        lemma_victim_found(b, my, 0);
        let victim = least_victim(b, my, 0);
        let pool = my.intersect(b.piece_set(victim));
        let y = choose|y: int| pool.contains(y);
        assert(!(pool =~= Set::<int>::empty()) ==> exists|y: int| pool.contains(y) && !Set::<int>::empty().contains(y));
        assert(pool.contains(y));
        assert forall|u: int| #[trigger] pool.contains(u) implies 0 <= u by {
            assert(b.side_set(cur).contains(u));
        }
        assert(y < 64) by {
            assert(b.side_set(cur).contains(y));
        }
        lemma_lowest_exists(pool, 64);
        let s = lowest(pool);
        assert(occupied.contains(s));
        let occ = toggle(occupied, s);
        assert(occ =~= occupied.remove(s));
        let a1 = if victim == 0 || victim == 2 || victim == 4 {
            attackers.union(bishop_attack_set(to, occ).intersect(bishops))
        } else {
            attackers
        };
        let a2 = if victim == 3 || victim == 4 {
            a1.union(rook_attack_set(to, occ).intersect(rooks))
        } else {
            a1
        };
        let a3 = a2.intersect(occ);
        let bal = -balance - 1 - piece_value(victim);
        if bal >= 0 {
            if victim == 5 {
                assert(a3.intersect(b.side_set(cur)) =~= att.remove(s).intersect(b.side_set(cur))) by {
                    assert forall|x: int| a3.contains(x) implies att.contains(x) by {
                        assert(attackers.intersect(occupied).contains(x));
                    }
                    assert forall|x: int| att.remove(s).contains(x) implies a3.contains(x) by {
                        assert(attackers.intersect(occupied).contains(x));
                    }
                }
            }
        } else {
            assert(victim < 5);
            assert(attackers_of(b, to, occupied).contains(s));
            lemma_capture_uncovers(b, to, occupied, s, victim);
            assert(a2 =~= attackers.union(uncovered(b, to, occ, victim)));
            assert(a3 =~= attackers_of(b, to, occ).intersect(occ)) by {
                assert forall|x: int| a3.contains(x) implies attackers_of(b, to, occ).intersect(occ).contains(x) by {
                    if attackers.contains(x) && !uncovered(b, to, occ, victim).contains(x) {
                        assert(attackers.intersect(occupied).contains(x));
                    }
                }
                assert forall|x: int| attackers_of(b, to, occ).intersect(occ).contains(x) implies a3.contains(x) by {
                    assert(attackers_of(b, to, occupied).union(uncovered(b, to, occ, victim)).intersect(occ).contains(x));
                    if attackers_of(b, to, occupied).contains(x) && !uncovered(b, to, occ, victim).contains(x) {
                        assert(att.contains(x));
                    }
                }
            }
            assert(a3.intersect(occ) =~= a3);
            lemma_exchange_recomputes(b, to, !cur, bal, occ, a3, (fuel - 1) as nat);
        }
    }
}

/// Whether the move wins at least `threshold` in the exchange on its target square, told
/// from the board alone: it fails when even the captured material falls short, passes when
/// the captured material covers the moving piece too, and else goes by the swap-off
/// replayed from scratch after the move, the other side recapturing first. This holds when
/// `stm_white` names the side to move and `nstm_white` the other one, and when the move
/// takes none of the other side's attackers of the target square off the board.
pub proof fn lemma_see_from_board(b: ChessBoard, mv: Move, threshold: int, stm_white: bool, nstm_white: bool)
    requires
        b.wf(),
        nstm_white == !stm_white,
        forall|x: int| #[trigger] b.side_set(nstm_white).contains(x)
            && attackers_of(b, mv.to_sq(), occupied_after(b, mv)).contains(x)
            ==> occupied_after(b, mv).contains(x),
    ensures
        ({
            let first = if mv.spec_is_promotion() { mv.promotion_piece() } else { b.piece_on(mv.from_sq()) };
            let gain = estimate_value(b, mv) - threshold;
            see_result(b, mv, threshold, stm_white, nstm_white) == if gain < 0 {
                false
            } else if gain - piece_value(first) >= 0 {
                true
            } else {
                b.stm().is_white() != swap_off(
                    b,
                    mv.to_sq(),
                    nstm_white,
                    gain - piece_value(first),
                    occupied_after(b, mv),
                    66,
                )
            }
        }),
{
    let first = if mv.spec_is_promotion() { mv.promotion_piece() } else { b.piece_on(mv.from_sq()) };
    let gain = estimate_value(b, mv) - threshold;
    if gain >= 0 && gain - piece_value(first) < 0 {
        let to = mv.to_sq();
        assert(0 <= to < 64) by {
            let raw = mv.0;
            assert((raw >> 6u16) & 63u16 < 64) by (bit_vector);
        }
        let occ = occupied_after(b, mv);
        let att = attackers_of(b, to, occ);
        assert(att.intersect(b.side_set(nstm_white)).subset_of(occ));
        lemma_exchange_recomputes(b, to, nstm_white, gain - piece_value(first), occ, att, 66);
    }
}

/// In the swap-off, the side to recapture loses the exchange at a balance whenever it
/// loses it at a lower one (the balance, below zero, counts for the side that captured
/// last).
pub proof fn lemma_exchange_monotone(
    b: ChessBoard,
    to: int,
    bishops: Set<int>,
    rooks: Set<int>,
    cur: bool,
    balance1: int,
    balance2: int,
    occupied: Set<int>,
    attackers: Set<int>,
    fuel: nat,
)
    requires
        balance1 <= balance2 < 0,
    ensures
        exchange(b, to, bishops, rooks, cur, !cur, balance1, occupied, attackers, fuel) == cur
            ==> exchange(b, to, bishops, rooks, cur, !cur, balance2, occupied, attackers, fuel) == cur,
    decreases fuel,
{
    let my = attackers.intersect(b.side_set(cur));
    if !my.is_empty() && fuel > 0 {
        let victim = least_victim(b, my, 0);
        let occ = toggle(occupied, lowest(my.intersect(b.piece_set(victim))));
        let a1 = if victim == 0 || victim == 2 || victim == 4 {
            attackers.union(bishop_attack_set(to, occ).intersect(bishops))
        } else {
            attackers
        };
        let a2 = if victim == 3 || victim == 4 {
            a1.union(rook_attack_set(to, occ).intersect(rooks))
        } else {
            a1
        };
        let a3 = a2.intersect(occ);
        let bal1 = -balance1 - 1 - piece_value(victim);
        let bal2 = -balance2 - 1 - piece_value(victim);
        if bal1 < 0 && bal2 < 0 {
            lemma_exchange_monotone(b, to, bishops, rooks, !cur, bal2, bal1, occ, a3, (fuel - 1) as nat);
        }
    }
}

/// The exchange evaluation fails every threshold above what the move wins before any
/// recapture, and passes every threshold that leaves that gain even after losing the
/// moving (or promoted) piece. When `stm_white` names the side to move and `nstm_white`
/// the other side, it is monotone in its threshold: a move that wins at least `t2` also
/// wins at least any `t1 <= t2`.
pub proof fn lemma_see_threshold(
    b: ChessBoard,
    mv: Move,
    t1: int,
    t2: int,
    stm_white: bool,
    nstm_white: bool,
)
    requires
        t1 <= t2,
    ensures
        ({
            let first = if mv.spec_is_promotion() { mv.promotion_piece() } else { b.piece_on(mv.from_sq()) };
            &&& t2 > estimate_value(b, mv) ==> !see_result(b, mv, t2, stm_white, nstm_white)
            &&& t1 <= estimate_value(b, mv) - piece_value(first) ==> see_result(b, mv, t1, stm_white, nstm_white)
        }),
        b.stm().is_white() == stm_white && nstm_white == !stm_white
            ==> (see_result(b, mv, t2, stm_white, nstm_white) ==> see_result(b, mv, t1, stm_white, nstm_white)),
{
    if b.stm().is_white() == stm_white && nstm_white == !stm_white {
        let first = if mv.spec_is_promotion() { mv.promotion_piece() } else { b.piece_on(mv.from_sq()) };
        let occ = occupied_after(b, mv);
        let bishops = b.piece_set(2).union(b.piece_set(4));
        let rooks = b.piece_set(3).union(b.piece_set(4));
        let b1 = estimate_value(b, mv) - t1 - piece_value(first);
        let b2 = estimate_value(b, mv) - t2 - piece_value(first);
        if b1 < 0 {
            lemma_exchange_monotone(
                b,
                mv.to_sq(),
                bishops,
                rooks,
                nstm_white,
                b2,
                b1,
                occ,
                attackers_of(b, mv.to_sq(), occ),
                66,
            );
        }
    }
}

pub struct SEE;

impl SEE {
    /// Static exchange evaluation: whether the move `mv` wins at least `threshold`
    /// centipawns in the sequence of captures on its target square. `STM_WHITE` is the
    /// side that makes the move, `NSTM_WHITE` the other one.
    pub fn static_exchange_evaluation<const STM_WHITE: bool, const NSTM_WHITE: bool>(
        board: &ChessBoard,
        mv: Move,
        threshold: i32,
    ) -> (r: bool)
        requires
            board.wf(),
            threshold >= 1700 - i32::MAX,
            mv.spec_is_promotion() || board.piece_on(mv.from_sq()) < 6,
            mv.spec_is_en_passant() ==> board.ep_square() < 64,
        ensures
            r == see_result(*board, mv, threshold as int, STM_WHITE, NSTM_WHITE),
    {
        let from_square = mv.get_from_square();
        let to_square = mv.get_to_square();

        let next_victim = if mv.is_promotion() {
            mv.get_promotion_piece()
        } else {
            board.get_piece_on_square(from_square)
        };

        let estimate = estimate_move_value(board, mv);
        assert(0 <= estimate <= 1700);
        let mut balance: i32 = estimate - threshold;
        if balance < 0 {
            return false;
        }
        balance = balance - value_of(next_victim.get_raw());
        if balance >= 0 {
            return true;
        }

        let bishops = board.get_piece_mask(Piece::from_raw(Piece::BISHOP)) | board.get_piece_mask(
            Piece::from_raw(Piece::QUEEN),
        );
        let rooks = board.get_piece_mask(Piece::from_raw(Piece::ROOK)) | board.get_piece_mask(
            Piece::from_raw(Piece::QUEEN),
        );

        let mut occupied = board.get_occupancy();
        let ghost occ_full = occupied;
        occupied = (occupied ^ (1u64 << from_square)) | (1u64 << to_square);
        proof {
            lemma_toggle_squares(occ_full, from_square as int);
            lemma_squares_ops(occ_full ^ single(from_square as int), single(to_square as int));
            lemma_squares_single(to_square as int);
            assert(squares(occupied) =~= toggle(board.occupied_set(), from_square as int).insert(
                to_square as int,
            ));
        }
        if mv.is_en_passant() {
            let ghost before = occupied;
            occupied = occupied ^ (1u64 << board.en_passant_square());
            proof {
                lemma_toggle_squares(before, board.ep_square());
            }
        }
        assert(squares(occupied) == occupied_after(*board, mv));

        let knight_mask = board.get_piece_mask(Piece::from_raw(Piece::KNIGHT));
        let king_mask = board.get_piece_mask(Piece::from_raw(Piece::KING));
        let pawn_mask = board.get_piece_mask(Piece::from_raw(Piece::PAWN));
        let white_mask = board.get_occupancy_for_side(true);
        let black_mask = board.get_occupancy_for_side(false);
        let ka = Attacks::get_knight_attacks_for_square(to_square);
        let kg = Attacks::get_king_attacks_for_square(to_square);
        let wp = Attacks::get_pawn_attacks_for_square(to_square, false);
        let bp = Attacks::get_pawn_attacks_for_square(to_square, true);
        let ra = RookAttacks::get_rook_attacks(to_square, occupied);
        let ba = BishopAttacks::get_bishop_attacks(to_square, occupied);
        let knights = ka & knight_mask;
        let kings = kg & king_mask;
        let white_pawns = wp & pawn_mask & white_mask;
        let black_pawns = bp & pawn_mask & black_mask;
        let rook_attackers = ra & rooks;
        let bishop_attackers = ba & bishops;
        let attackers = knights | kings | white_pawns | black_pawns | rook_attackers
            | bishop_attackers;
        proof {
            let b = *board;
            lemma_squares_ops(b.piece_mask(2), b.piece_mask(4));
            lemma_squares_ops(b.piece_mask(3), b.piece_mask(4));
            lemma_squares_ops(ka, b.piece_mask(1));
            lemma_squares_ops(kg, b.piece_mask(5));
            lemma_squares_ops(wp, b.piece_mask(0));
            lemma_squares_ops(wp & b.piece_mask(0), b.side_mask(true));
            lemma_squares_ops(bp, b.piece_mask(0));
            lemma_squares_ops(bp & b.piece_mask(0), b.side_mask(false));
            lemma_squares_ops(ra, rooks);
            lemma_squares_ops(ba, bishops);
            lemma_squares_ops(knights, kings);
            lemma_squares_ops(knights | kings, white_pawns);
            lemma_squares_ops(knights | kings | white_pawns, black_pawns);
            lemma_squares_ops(knights | kings | white_pawns | black_pawns, rook_attackers);
            lemma_squares_ops(knights | kings | white_pawns | black_pawns | rook_attackers, bishop_attackers);
            assert(squares(attackers) =~= attackers_of(b, to_square as int, squares(occupied)));
        }

        let loser_white = Self::see_internal(
            board,
            NSTM_WHITE,
            STM_WHITE,
            balance,
            occupied,
            attackers,
            to_square,
            bishops,
            rooks,
        );
        board.side_to_move().get_raw() != 0 && loser_white || board.side_to_move().get_raw() == 0 && !loser_white
    }

    /// Plays the exchange out; returns whether the side that loses it is white.
    fn see_internal(
        board: &ChessBoard,
        cur_white: bool,
        other_white: bool,
        balance: i32,
        occupied: u64,
        attackers: u64,
        to_square: u8,
        bishops: u64,
        rooks: u64,
    ) -> (r: bool)
        requires
            board.wf(),
            to_square < 64,
            -900 <= balance < 0,
        ensures
            r == exchange(
                *board,
                to_square as int,
                squares(bishops),
                squares(rooks),
                cur_white,
                other_white,
                balance as int,
                squares(occupied),
                squares(attackers),
                66,
            ),
    {
        let ghost b = *board;
        let ghost to = to_square as int;
        let ghost bs = squares(bishops);
        let ghost rs = squares(rooks);
        let ghost answer = exchange(b, to, bs, rs, cur_white, other_white, balance as int, squares(occupied), squares(attackers), 66);
        let ghost start_balance = balance;
        let ghost start_occupied = occupied;
        let ghost start_attackers = attackers;
        let mut cur = cur_white;
        let mut other = other_white;
        let mut bal = balance;
        let mut occ = occupied;
        let mut att = attackers;
        let ghost mut fuel: nat = 66;
        proof {
            lemma_squares_finite(occ);
        }
        loop
            invariant
                board.wf(),
                b == *board,
                to == to_square as int,
                to_square < 64,
                bs == squares(bishops),
                rs == squares(rooks),
                -900 <= bal < 0,
                exchange_size(squares(occ), squares(att)) <= fuel,
                start_balance == balance,
                start_occupied == occupied,
                start_attackers == attackers,
                answer == exchange(b, to, bs, rs, cur_white, other_white, start_balance as int, squares(start_occupied), squares(start_attackers), 66),
                answer == exchange(b, to, bs, rs, cur, other, bal as int, squares(occ), squares(att), fuel),
            decreases fuel,
        {
            proof {
                lemma_squares_finite(occ);
            }
            let my_attackers = att & board.get_occupancy_for_side(cur);
            proof {
                lemma_squares_ops(att, b.side_mask(cur));
                lemma_zero_iff_empty(my_attackers);
            }
            if my_attackers == 0 {
                return cur;
            }
            let ghost my = squares(my_attackers);
            proof {
                assert(!my.is_empty());
                let x = choose|x: int| my.contains(x);
                assert(!(my =~= Set::<int>::empty()) ==> exists|x: int| my.contains(x) && !Set::<int>::empty().contains(x));
                assert(squares(att).contains(x));
                if squares(att).subset_of(squares(occ)) {
                    assert(squares(occ).contains(x));
                    assert(squares(occ).len() >= 1) by {
                        if squares(occ).len() == 0 {
                            assert(squares(occ) =~= Set::<int>::empty());
                        }
                    }
                }
                assert(fuel >= 1);
                assert(my.subset_of(b.occupied_set()));
                lemma_victim_found(b, my, 0);
            }

            let mut victim: u8 = 0;
            while victim < 5 && (my_attackers & board.get_piece_mask(Piece::from_raw(victim))) == 0
                invariant
                    victim <= 5,
                    board.wf(),
                    b == *board,
                    my == squares(my_attackers),
                    least_victim(b, my, 0) == least_victim(b, my, victim as int),
                decreases 5 - victim,
            {
                proof {
                    lemma_squares_ops(my_attackers, b.piece_mask(victim as int));
                    lemma_zero_iff_empty(my_attackers & b.piece_mask(victim as int));
                }
                victim = victim + 1;
            }
            proof {
                if victim < 5 {
                    lemma_squares_ops(my_attackers, b.piece_mask(victim as int));
                    lemma_zero_iff_empty(my_attackers & b.piece_mask(victim as int));
                }
                assert(least_victim(b, my, 0) == victim as int);
            }

            let victim_mask = my_attackers & board.get_piece_mask(Piece::from_raw(victim));
            proof {
                lemma_squares_ops(my_attackers, b.piece_mask(victim as int));
                lemma_zero_iff_empty(victim_mask);
                lemma_lowest(victim_mask);
            }
            let square = victim_mask.trailing_zeros();
            let ghost old_occ = occ;
            let ghost old_att = att;
            occ = occ ^ (1u64 << square);
            proof {
                lemma_toggle_squares(old_occ, square as int);
                lemma_squares_finite(old_occ);
            }
            if victim == Piece::PAWN || victim == Piece::BISHOP || victim == Piece::QUEEN {
                let before = att;
                let ba = BishopAttacks::get_bishop_attacks(to_square, occ);
                let revealed = ba & bishops;
                att = att | revealed;
                proof {
                    lemma_squares_ops(ba, bishops);
                    lemma_squares_ops(before, revealed);
                }
            }
            if victim == Piece::ROOK || victim == Piece::QUEEN {
                let before = att;
                let ra = RookAttacks::get_rook_attacks(to_square, occ);
                let revealed = ra & rooks;
                att = att | revealed;
                proof {
                    lemma_squares_ops(ra, rooks);
                    lemma_squares_ops(before, revealed);
                }
            }
            let ghost before_and = att;
            att = att & occ;
            proof {
                lemma_squares_ops(before_and, occ);
                lemma_squares_finite(occ);
                let s = square as int;
                let old_o = squares(old_occ);
                assert(my.contains(s));
                assert(squares(old_att).contains(s));
                if old_o.contains(s) {
                    assert(squares(occ).len() + 1 == old_o.len());
                } else {
                    assert(!squares(old_att).subset_of(old_o));
                    assert(squares(occ).len() == old_o.len() + 1);
                }
                assert(squares(att).subset_of(squares(occ)));
            }

            let new_balance: i32 = -bal - 1 - value_of(victim);
            if new_balance >= 0 {
                let mine = att & board.get_occupancy_for_side(cur);
                proof {
                    lemma_squares_ops(att, b.side_mask(cur));
                    lemma_zero_iff_empty(mine);
                }
                if victim == Piece::KING && mine != 0 {
                    return cur;
                }
                return !cur;
            }
            bal = new_balance;
            let t = cur;
            cur = other;
            other = t;
            proof {
                fuel = (fuel - 1) as nat;
            }
        }
    }
}

} // verus!
