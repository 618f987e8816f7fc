use vstd::prelude::*;
use crate::bits::{is_set, squares, lemma_squares_ops, lemma_bit_single, lemma_bit_or, lemma_bit_zero, lemma_empty_bits};

verus! {

/// Square index of file `f` and rank `r` (a1 is `0`, h1 is `7`, a8 is `56`).
pub open spec fn sq_of(f: int, r: int) -> int {
    r * 8 + f
}

pub open spec fn on_board(f: int, r: int) -> bool {
    0 <= f < 8 && 0 <= r < 8
}

pub open spec fn file_of(sq: int) -> int {
    sq % 8
}

pub open spec fn rank_of(sq: int) -> int {
    sq / 8
}

pub open spec fn abs(x: int) -> int {
    if x < 0 { -x } else { x }
}

/// Whether a slider standing on file `f`, rank `r` and stepping by `(df, dr)` reaches square
/// `t` within `n` steps: it moves square by square, stops at the board's edge, and the first
/// square in `occ` that it meets is the last one it reaches.
pub open spec fn ray_reaches(f: int, r: int, df: int, dr: int, occ: Set<int>, t: int, n: nat) -> bool
    decreases n,
{
    if n == 0 {
        false
    } else {
        let nf = f + df;
        let nr = r + dr;
        if !on_board(nf, nr) {
            false
        } else {
            sq_of(nf, nr) == t || (!occ.contains(sq_of(nf, nr)) && ray_reaches(
                nf,
                nr,
                df,
                dr,
                occ,
                t,
                (n - 1) as nat,
            ))
        }
    }
}

/// Squares that a slider on `sq` reaches in direction `(df, dr)` (seven steps cross the board).
pub open spec fn ray_set(sq: int, df: int, dr: int, occ: Set<int>) -> Set<int> {
    Set::new(|t: int| ray_reaches(file_of(sq), rank_of(sq), df, dr, occ, t, 7))
}

/// Squares attacked by a rook on `sq` when the squares in `occ` are occupied.
pub open spec fn rook_attack_set(sq: int, occ: Set<int>) -> Set<int> {
    ray_set(sq, 1, 0, occ) + ray_set(sq, -1, 0, occ) + ray_set(sq, 0, 1, occ) + ray_set(sq, 0, -1, occ)
}

/// Squares attacked by a bishop on `sq` when the squares in `occ` are occupied.
pub open spec fn bishop_attack_set(sq: int, occ: Set<int>) -> Set<int> {
    ray_set(sq, 1, 1, occ) + ray_set(sq, -1, 1, occ) + ray_set(sq, 1, -1, occ) + ray_set(sq, -1, -1, occ)
}

pub open spec fn knight_step(sq: int, t: int) -> bool {
    let df = abs(file_of(t) - file_of(sq));
    let dr = abs(rank_of(t) - rank_of(sq));
    0 <= t < 64 && ((df == 1 && dr == 2) || (df == 2 && dr == 1))
}

pub open spec fn king_step(sq: int, t: int) -> bool {
    let df = abs(file_of(t) - file_of(sq));
    let dr = abs(rank_of(t) - rank_of(sq));
    0 <= t < 64 && df <= 1 && dr <= 1 && t != sq
}

/// A pawn of the given side on `sq` attacks `t`: one rank forward (up for white) and one file aside.
pub open spec fn pawn_step(sq: int, white: bool, t: int) -> bool {
    let df = abs(file_of(t) - file_of(sq));
    let dr = rank_of(t) - rank_of(sq);
    0 <= t < 64 && df == 1 && dr == (if white { 1int } else { -1int })
}

pub open spec fn knight_attack_set(sq: int) -> Set<int> {
    Set::new(|t: int| knight_step(sq, t))
}

pub open spec fn king_attack_set(sq: int) -> Set<int> {
    Set::new(|t: int| king_step(sq, t))
}

pub open spec fn pawn_attack_set(sq: int, white: bool) -> Set<int> {
    Set::new(|t: int| pawn_step(sq, white, t))
}

/// Knight moves are symmetric: a knight on `s` attacks `t` exactly when a knight on `t`
/// attacks `s`.
pub proof fn lemma_knight_symmetric(s: int, t: int)
    requires
        0 <= s < 64,
        0 <= t < 64,
    ensures
        knight_attack_set(s).contains(t) <==> knight_attack_set(t).contains(s),
{
}

/// King moves are symmetric.
pub proof fn lemma_king_symmetric(s: int, t: int)
    requires
        0 <= s < 64,
        0 <= t < 64,
    ensures
        king_attack_set(s).contains(t) <==> king_attack_set(t).contains(s),
{
}

/// A pawn of one side on `s` attacks `t` exactly when a pawn of the other side on `t`
/// attacks `s`: the pawns that attack a square are found from the other side's pawn
/// pattern on that square.
pub proof fn lemma_pawn_attack_reverse(s: int, t: int, white: bool)
    requires
        0 <= s < 64,
        0 <= t < 64,
    ensures
        pawn_attack_set(s, white).contains(t) <==> pawn_attack_set(t, !white).contains(s),
{
}

/// Coordinates of an on-board square are its file and rank.
pub proof fn lemma_square_coords(f: int, r: int)
    requires
        on_board(f, r),
    ensures
        file_of(sq_of(f, r)) == f,
        rank_of(sq_of(f, r)) == r,
        0 <= sq_of(f, r) < 64,
{
    vstd::arithmetic::div_mod::lemma_fundamental_div_mod_converse(sq_of(f, r), 8, r, f);
}

/// A square of the board is the square of its file and rank.
pub proof fn lemma_coords_square(t: int)
    requires
        0 <= t < 64,
    ensures
        on_board(file_of(t), rank_of(t)),
        sq_of(file_of(t), rank_of(t)) == t,
{
    vstd::arithmetic::div_mod::lemma_fundamental_div_mod(t, 8);
}

/// Fewer occupied squares never shorten a ray.
pub proof fn lemma_ray_monotone(f: int, r: int, df: int, dr: int, occ: Set<int>, fewer: Set<int>, t: int, n: nat)
    requires
        fewer.subset_of(occ),
    ensures
        ray_reaches(f, r, df, dr, occ, t, n) ==> ray_reaches(f, r, df, dr, fewer, t, n),
    decreases n,
{
    if n > 0 {
        lemma_ray_monotone(f + df, r + dr, df, dr, occ, fewer, t, (n - 1) as nat);
    }
}

/// A square off the line of a ray does not affect what the ray reaches: the square at file
/// `fs`, rank `rs` is off the line through `(f, r)` in direction `(df, dr)` when their
/// cross product is not zero.
pub proof fn lemma_ray_local(f: int, r: int, df: int, dr: int, occ: Set<int>, t: int, n: nat, fs: int, rs: int)
    requires
        -1 <= df <= 1,
        -1 <= dr <= 1,
        on_board(fs, rs),
        (fs - f) * dr != (rs - r) * df,
    ensures
        ray_reaches(f, r, df, dr, occ, t, n) == ray_reaches(f, r, df, dr, occ.remove(sq_of(fs, rs)), t, n),
    decreases n,
{
    if n > 0 {
        let nf = f + df;
        let nr = r + dr;
        assert((fs - nf) * dr - (rs - nr) * df == (fs - f) * dr - (rs - r) * df) by (nonlinear_arith)
            requires
                nf == f + df,
                nr == r + dr,
        ;
        if on_board(nf, nr) {
            if sq_of(nf, nr) == sq_of(fs, rs) {
                lemma_square_coords(nf, nr);
                lemma_square_coords(fs, rs);
                assert(nf == fs && nr == rs);
                assert((fs - f) * dr == (rs - r) * df) by (nonlinear_arith)
                    requires
                        fs - f == df,
                        rs - r == dr,
                ;
            }
            lemma_ray_local(nf, nr, df, dr, occ, t, (n - 1) as nat, fs, rs);
        }
    }
}

/// What a ray reaches lies on its line, ahead of its start.
pub proof fn lemma_ray_line(f: int, r: int, df: int, dr: int, occ: Set<int>, t: int, n: nat)
    requires
        -1 <= df <= 1,
        -1 <= dr <= 1,
        df != 0 || dr != 0,
    ensures
        ray_reaches(f, r, df, dr, occ, t, n) ==> {
            &&& 0 <= t < 64
            &&& (file_of(t) - f) * dr == (rank_of(t) - r) * df
            &&& (file_of(t) - f) * df + (rank_of(t) - r) * dr > 0
        },
    decreases n,
{
    if n > 0 {
        let nf = f + df;
        let nr = r + dr;
        if on_board(nf, nr) && ray_reaches(f, r, df, dr, occ, t, n) {
            if sq_of(nf, nr) == t {
                lemma_square_coords(nf, nr);
                assert(df * dr == dr * df && df * df + dr * dr > 0) by (nonlinear_arith)
                    requires
                        -1 <= df <= 1,
                        -1 <= dr <= 1,
                        df != 0 || dr != 0,
                ;
            } else {
                lemma_ray_line(nf, nr, df, dr, occ, t, (n - 1) as nat);
                let a = file_of(t);
                let c = rank_of(t);
                assert((a - f) * dr == (c - r) * df && (a - f) * df + (c - r) * dr > 0) by (nonlinear_arith)
                    requires
                        (a - nf) * dr == (c - nr) * df,
                        (a - nf) * df + (c - nr) * dr > 0,
                        nf == f + df,
                        nr == r + dr,
                ;
            }
        }
    }
}

/// Taking a piece off a square that shares neither file nor rank with `sq` leaves a
/// rook's attacks from `sq` as they were.
pub proof fn lemma_rook_set_local(sq: int, occ: Set<int>, s: int)
    requires
        0 <= sq < 64,
        0 <= s < 64,
        file_of(s) != file_of(sq),
        rank_of(s) != rank_of(sq),
    ensures
        rook_attack_set(sq, occ.remove(s)) == rook_attack_set(sq, occ),
{
    lemma_coords_square(s);
    let (f, r) = (file_of(sq), rank_of(sq));
    let (fs, rs) = (file_of(s), rank_of(s));
    assert forall|t: int| rook_attack_set(sq, occ.remove(s)).contains(t) <==> rook_attack_set(sq, occ).contains(t) by {
        lemma_ray_local(f, r, 1, 0, occ, t, 7, fs, rs);
        lemma_ray_local(f, r, -1, 0, occ, t, 7, fs, rs);
        lemma_ray_local(f, r, 0, 1, occ, t, 7, fs, rs);
        lemma_ray_local(f, r, 0, -1, occ, t, 7, fs, rs);
    }
    assert(rook_attack_set(sq, occ.remove(s)) =~= rook_attack_set(sq, occ));
}

/// Taking a piece off a square that is on no diagonal through `sq` leaves a bishop's
/// attacks from `sq` as they were.
pub proof fn lemma_bishop_set_local(sq: int, occ: Set<int>, s: int)
    requires
        0 <= sq < 64,
        0 <= s < 64,
        abs(file_of(s) - file_of(sq)) != abs(rank_of(s) - rank_of(sq)),
    ensures
        bishop_attack_set(sq, occ.remove(s)) == bishop_attack_set(sq, occ),
{
    lemma_coords_square(s);
    let (f, r) = (file_of(sq), rank_of(sq));
    let (fs, rs) = (file_of(s), rank_of(s));
    assert forall|t: int| bishop_attack_set(sq, occ.remove(s)).contains(t) <==> bishop_attack_set(sq, occ).contains(t) by {
        lemma_ray_local(f, r, 1, 1, occ, t, 7, fs, rs);
        lemma_ray_local(f, r, -1, 1, occ, t, 7, fs, rs);
        lemma_ray_local(f, r, 1, -1, occ, t, 7, fs, rs);
        lemma_ray_local(f, r, -1, -1, occ, t, 7, fs, rs);
    }
    assert(bishop_attack_set(sq, occ.remove(s)) =~= bishop_attack_set(sq, occ));
}

/// A rook or a bishop reaches at least as many squares once a square is emptied.
pub proof fn lemma_slider_sets_grow(sq: int, occ: Set<int>, s: int)
    ensures
        rook_attack_set(sq, occ).subset_of(rook_attack_set(sq, occ.remove(s))),
        bishop_attack_set(sq, occ).subset_of(bishop_attack_set(sq, occ.remove(s))),
{
    let (f, r) = (file_of(sq), rank_of(sq));
    assert forall|t: int| rook_attack_set(sq, occ).contains(t) implies rook_attack_set(sq, occ.remove(s)).contains(t) by {
        lemma_ray_monotone(f, r, 1, 0, occ, occ.remove(s), t, 7);
        lemma_ray_monotone(f, r, -1, 0, occ, occ.remove(s), t, 7);
        lemma_ray_monotone(f, r, 0, 1, occ, occ.remove(s), t, 7);
        lemma_ray_monotone(f, r, 0, -1, occ, occ.remove(s), t, 7);
    }
    assert forall|t: int| bishop_attack_set(sq, occ).contains(t) implies bishop_attack_set(sq, occ.remove(s)).contains(t) by {
        lemma_ray_monotone(f, r, 1, 1, occ, occ.remove(s), t, 7);
        lemma_ray_monotone(f, r, -1, 1, occ, occ.remove(s), t, 7);
        lemma_ray_monotone(f, r, 1, -1, occ, occ.remove(s), t, 7);
        lemma_ray_monotone(f, r, -1, -1, occ, occ.remove(s), t, 7);
    }
}

/// A square that a bishop on `sq` attacks is on a diagonal through `sq`: it shares
/// neither file nor rank with it.
pub proof fn lemma_bishop_set_diagonal(sq: int, occ: Set<int>, t: int)
    requires
        bishop_attack_set(sq, occ).contains(t),
    ensures
        0 <= t < 64,
        file_of(t) != file_of(sq),
        rank_of(t) != rank_of(sq),
{
    let (f, r) = (file_of(sq), rank_of(sq));
    lemma_ray_line(f, r, 1, 1, occ, t, 7);
    lemma_ray_line(f, r, -1, 1, occ, t, 7);
    lemma_ray_line(f, r, 1, -1, occ, t, 7);
    lemma_ray_line(f, r, -1, -1, occ, t, 7);
}

/// A square that a rook on `sq` attacks shares a file or a rank with `sq`, and is not on a
/// diagonal through it.
pub proof fn lemma_rook_set_straight(sq: int, occ: Set<int>, t: int)
    requires
        rook_attack_set(sq, occ).contains(t),
    ensures
        0 <= t < 64,
        abs(file_of(t) - file_of(sq)) != abs(rank_of(t) - rank_of(sq)),
{
    let (f, r) = (file_of(sq), rank_of(sq));
    lemma_ray_line(f, r, 1, 0, occ, t, 7);
    lemma_ray_line(f, r, -1, 0, occ, t, 7);
    lemma_ray_line(f, r, 0, 1, occ, t, 7);
    lemma_ray_line(f, r, 0, -1, occ, t, 7);
}

proof fn lemma_add_square(b: u64, s: u64, t: int)
    requires
        s < 64,
    ensures
        is_set(b | (1u64 << s), t) <==> (is_set(b, t) || t == s),
{
    if 0 <= t < 64 {
        lemma_bit_or(b, 1u64 << s, t as u64);
        lemma_bit_single(s, t as u64);
    }
}

/// Walks from `square` in direction `(df, dr)` and collects the squares reached.
fn slide(square: u8, df: i8, dr: i8, occupancy: u64) -> (r: u64)
    requires
        square < 64,
        -1 <= df <= 1,
        -1 <= dr <= 1,
    ensures
        squares(r) == ray_set(square as int, df as int, dr as int, squares(occupancy)),
{
    let ghost f0 = file_of(square as int);
    let ghost r0 = rank_of(square as int);
    let ghost occ = squares(occupancy);
    let mut f: i8 = (square % 8) as i8;
    let mut rk: i8 = (square / 8) as i8;
    let mut n: u8 = 7;
    let mut result: u64 = 0;
    let mut going = true;
    proof {
        assert forall|t: int| #![trigger ray_reaches(f0, r0, df as int, dr as int, occ, t, 7)]
            ray_reaches(f0, r0, df as int, dr as int, occ, t, 7) <==> (is_set(result, t) || (going
                && ray_reaches(f as int, rk as int, df as int, dr as int, occ, t, n as nat))) by {
            if 0 <= t < 64 {
                lemma_bit_zero(t as u64);
            }
        }
    }
    while going && n > 0
        invariant
            0 <= f < 8,
            0 <= rk < 8,
            n <= 7,
            -1 <= df <= 1,
            -1 <= dr <= 1,
            occ == squares(occupancy),
            forall|t: int| #![trigger ray_reaches(f0, r0, df as int, dr as int, occ, t, 7)]
                ray_reaches(f0, r0, df as int, dr as int, occ, t, 7) <==> (is_set(result, t) || (
                going && ray_reaches(f as int, rk as int, df as int, dr as int, occ, t, n as nat))),
        decreases n as int + (if going { 1int } else { 0int }),
    {
        let nf: i8 = f + df;
        let nr: i8 = rk + dr;
        if nf < 0 || nf >= 8 || nr < 0 || nr >= 8 {
            going = false;
        } else {
            let s: u8 = (nr * 8 + nf) as u8;
            let ghost old_result = result;
            result = result | (1u64 << s);
            let blocked = (occupancy >> s as u64) & 1 == 1;
            proof {
                assert forall|t: int| #![trigger ray_reaches(f0, r0, df as int, dr as int, occ, t, 7)]
                    ray_reaches(f0, r0, df as int, dr as int, occ, t, 7) <==> (is_set(result, t) || (
                    !blocked && ray_reaches(nf as int, nr as int, df as int, dr as int, occ, t, (n - 1) as nat))) by {
                    lemma_add_square(old_result, s as u64, t);
                    assert(occ.contains(s as int) == blocked);
                }
            }
            if blocked {
                going = false;
            } else {
                f = nf;
                rk = nr;
                n = n - 1;
            }
        }
    }
    proof {
        assert(squares(result) =~= ray_set(square as int, df as int, dr as int, occ));
    }
    result
}

pub struct RookAttacks;

impl RookAttacks {
    /// Squares attacked by a rook on `square`, given the occupied squares.
    pub fn get_rook_attacks(square: u8, occupancy: u64) -> (r: u64)
        requires
            square < 64,
        ensures
            squares(r) == rook_attack_set(square as int, squares(occupancy)),
    {
        let a = slide(square, 1, 0, occupancy);
        let b = slide(square, -1, 0, occupancy);
        let c = slide(square, 0, 1, occupancy);
        let d = slide(square, 0, -1, occupancy);
        proof {
            lemma_squares_ops(a, b);
            lemma_squares_ops(a | b, c);
            lemma_squares_ops(a | b | c, d);
        }
        a | b | c | d
    }
}

pub struct BishopAttacks;

impl BishopAttacks {
    /// Squares attacked by a bishop on `square`, given the occupied squares.
    pub fn get_bishop_attacks(square: u8, occupancy: u64) -> (r: u64)
        requires
            square < 64,
        ensures
            squares(r) == bishop_attack_set(square as int, squares(occupancy)),
    {
        let a = slide(square, 1, 1, occupancy);
        let b = slide(square, -1, 1, occupancy);
        let c = slide(square, 1, -1, occupancy);
        let d = slide(square, -1, -1, occupancy);
        proof {
            lemma_squares_ops(a, b);
            lemma_squares_ops(a | b, c);
            lemma_squares_ops(a | b | c, d);
        }
        a | b | c | d
    }
}

fn abs_i8(x: i8) -> (r: i8)
    requires
        x > -100,
    ensures
        r == abs(x as int),
{
    if x < 0 { -x } else { x }
}

/// Fixed attack patterns of knights, kings and pawns.
pub struct Attacks;

impl Attacks {
    pub fn get_knight_attacks_for_square(square: u8) -> (r: u64)
        requires
            square < 64,
        ensures
            squares(r) == knight_attack_set(square as int),
    {
        let mut result: u64 = 0;
        let mut t: u8 = 0;
        proof {
            lemma_empty_bits();
        }
        while t < 64
            invariant
                t <= 64,
                square < 64,
                forall|u: int| 0 <= u < 64 ==> #[trigger] is_set(result, u) == (u < t && knight_step(square as int, u)),
            decreases 64 - t,
        {
            let df = abs_i8((t % 8) as i8 - (square % 8) as i8);
            let dr = abs_i8((t / 8) as i8 - (square / 8) as i8);
            if (df == 1 && dr == 2) || (df == 2 && dr == 1) {
                let ghost before = result;
                result = result | (1u64 << t);
                proof {
                    assert forall|u: int| 0 <= u < 64 implies #[trigger] is_set(result, u) == (u < t + 1 && knight_step(square as int, u)) by {
                        lemma_add_square(before, t as u64, u);
                    }
                }
            }
            t = t + 1;
        }
        proof {
            assert(squares(result) =~= knight_attack_set(square as int));
        }
        result
    }

    pub fn get_king_attacks_for_square(square: u8) -> (r: u64)
        requires
            square < 64,
        ensures
            squares(r) == king_attack_set(square as int),
    {
        let mut result: u64 = 0;
        let mut t: u8 = 0;
        proof {
            lemma_empty_bits();
        }
        while t < 64
            invariant
                t <= 64,
                square < 64,
                forall|u: int| 0 <= u < 64 ==> #[trigger] is_set(result, u) == (u < t && king_step(square as int, u)),
            decreases 64 - t,
        {
            let df = abs_i8((t % 8) as i8 - (square % 8) as i8);
            let dr = abs_i8((t / 8) as i8 - (square / 8) as i8);
            if df <= 1 && dr <= 1 && t != square {
                let ghost before = result;
                result = result | (1u64 << t);
                proof {
                    assert forall|u: int| 0 <= u < 64 implies #[trigger] is_set(result, u) == (u < t + 1 && king_step(square as int, u)) by {
                        lemma_add_square(before, t as u64, u);
                    }
                }
            }
            t = t + 1;
        }
        proof {
            assert(squares(result) =~= king_attack_set(square as int));
        }
        result
    }

    /// Squares attacked by a pawn of the given side standing on `square`.
    pub fn get_pawn_attacks_for_square(square: u8, white: bool) -> (r: u64)
        requires
            square < 64,
        ensures
            squares(r) == pawn_attack_set(square as int, white),
    {
        let mut result: u64 = 0;
        let mut t: u8 = 0;
        proof {
            lemma_empty_bits();
        }
        let forward: i8 = if white { 1 } else { -1 };
        while t < 64
            invariant
                t <= 64,
                square < 64,
                forward == (if white { 1int } else { -1int }),
                forall|u: int| 0 <= u < 64 ==> #[trigger] is_set(result, u) == (u < t && pawn_step(square as int, white, u)),
            decreases 64 - t,
        {
            let df = abs_i8((t % 8) as i8 - (square % 8) as i8);
            let dr = (t / 8) as i8 - (square / 8) as i8;
            if df == 1 && dr == forward {
                let ghost before = result;
                result = result | (1u64 << t);
                proof {
                    assert forall|u: int| 0 <= u < 64 implies #[trigger] is_set(result, u) == (u < t + 1 && pawn_step(square as int, white, u)) by {
                        lemma_add_square(before, t as u64, u);
                    }
                }
            }
            t = t + 1;
        }
        proof {
            assert(squares(result) =~= pawn_attack_set(square as int, white));
        }
        result
    }
}

} // verus!
