use vstd::prelude::*;
use crate::bits::{is_set, squares, lemma_squares_ops};
use crate::chess::{ChessBoard, Piece};
use crate::bits::lemma_squares_finite;

verus! {

/// Square `t` seen from the other side of the board (the ranks mirrored) where `flip`.
pub open spec fn mirrored(t: int, flip: bool) -> int {
    if flip {
        (7 - t / 8) * 8 + t % 8
    } else {
        t
    }
}

/// Features of the pieces of type `p` of one side, over the first `n` squares of the
/// (possibly mirrored) board in ascending order: `offset` plus the square.
pub open spec fn piece_features(b: ChessBoard, p: int, white: bool, flip: bool, offset: int, n: int) -> Seq<int>
    decreases n,
{
    if n <= 0 {
        Seq::empty()
    } else {
        let prev = piece_features(b, p, white, flip, offset, n - 1);
        let sq = mirrored(n - 1, flip);
        if b.piece_set(p).contains(sq) && b.side_set(white).contains(sq) {
            prev.push(offset + n - 1)
        } else {
            prev
        }
    }
}

/// Policy input features of the first `k` piece types: for each type in turn, those of
/// the side `stm_white` at `64 * type` and those of the side `nstm_white` at
/// `384 + 64 * type`, the board mirrored when black is to move.
pub open spec fn policy_features(b: ChessBoard, stm_white: bool, nstm_white: bool, k: int) -> Seq<int>
    decreases k,
{
    if k <= 0 {
        Seq::empty()
    } else {
        let flip = !b.stm().is_white();
        policy_features(b, stm_white, nstm_white, k - 1)
            + piece_features(b, k - 1, stm_white, flip, 64 * (k - 1), 64)
            + piece_features(b, k - 1, nstm_white, flip, 384 + 64 * (k - 1), 64)
    }
}

/// The entries of a vector of indices, as integers.
pub open spec fn as_ints(v: Seq<usize>) -> Seq<int> {
    v.map_values(|x: usize| x as int)
}

/// The pieces of type `p` of side `white` include square `sq`.
pub open spec fn has_piece(b: ChessBoard, p: int, white: bool, sq: int) -> bool {
    b.piece_set(p).contains(sq) && b.side_set(white).contains(sq)
}

proof fn lemma_mirror_involution(t: int, flip: bool)
    requires
        0 <= t < 64,
    ensures
        0 <= mirrored(t, flip) < 64,
        mirrored(mirrored(t, flip), flip) == t,
{
}

proof fn lemma_piece_features(b: ChessBoard, p: int, white: bool, flip: bool, off: int, n: int)
    requires
        0 <= n <= 64,
    ensures
        ({
            let f = piece_features(b, p, white, flip, off, n);
            &&& forall|i: int| 0 <= i < f.len() ==> off <= #[trigger] f[i] < off + n && has_piece(b, p, white, mirrored(f[i] - off, flip))
            &&& forall|i: int, j: int| 0 <= i < j < f.len() ==> #[trigger] f[i] < #[trigger] f[j]
            &&& forall|t: int| 0 <= t < n && #[trigger] has_piece(b, p, white, mirrored(t, flip)) ==> f.contains(off + t)
        }),
    decreases n,
{
    if n > 0 {
        lemma_piece_features(b, p, white, flip, off, n - 1);
        let prev = piece_features(b, p, white, flip, off, n - 1);
        let f = piece_features(b, p, white, flip, off, n);
        assert forall|t: int| 0 <= t < n && #[trigger] has_piece(b, p, white, mirrored(t, flip)) implies f.contains(off + t) by {
            if t < n - 1 {
                let i = choose|i: int| 0 <= i < prev.len() && prev[i] == off + t;
                assert(f[i] == off + t);
            } else {
                assert(f[f.len() - 1] == off + t);
            }
        }
    }
}

proof fn lemma_feature_arith(x: int, base: int, q: int)
    requires
        base == 0 || base == 384,
        0 <= q < 6,
        base + 64 * q <= x < base + 64 * q + 64,
    ensures
        (x % 384) / 64 == q,
        x % 64 == x - base - 64 * q,
        x < 384 <==> base == 0,
{
    if base == 0 {
        assert(x % 384 == x);
    } else {
        assert(x % 384 == x - 384);
    }
    assert((x % 384) / 64 == q);
    assert(x % 64 == x - base - 64 * q);
}

#[verifier::rlimit(30)]
proof fn lemma_policy_decode(b: ChessBoard, stm_white: bool, nstm_white: bool, k: int)
    requires
        0 <= k <= 6,
    ensures
        forall|i: int| 0 <= i < policy_features(b, stm_white, nstm_white, k).len() ==> {
            let x = #[trigger] policy_features(b, stm_white, nstm_white, k)[i];
            &&& (0 <= x < 64 * k || 384 <= x < 384 + 64 * k)
            &&& has_piece(b, (x % 384) / 64, if x < 384 { stm_white } else { nstm_white }, mirrored(x % 64, !b.stm().is_white()))
        },
    decreases k,
{
    if k > 0 {
        let flip = !b.stm().is_white();
        lemma_policy_decode(b, stm_white, nstm_white, k - 1);
        let prev = policy_features(b, stm_white, nstm_white, k - 1);
        let s1 = piece_features(b, k - 1, stm_white, flip, 64 * (k - 1), 64);
        let s2 = piece_features(b, k - 1, nstm_white, flip, 384 + 64 * (k - 1), 64);
        lemma_piece_features(b, k - 1, stm_white, flip, 64 * (k - 1), 64);
        lemma_piece_features(b, k - 1, nstm_white, flip, 384 + 64 * (k - 1), 64);
        let f = policy_features(b, stm_white, nstm_white, k);
        assert(f == prev + s1 + s2);
        assert forall|i: int| 0 <= i < f.len() implies {
            let x = #[trigger] f[i];
            &&& (0 <= x < 64 * k || 384 <= x < 384 + 64 * k)
            &&& has_piece(b, (x % 384) / 64, if x < 384 { stm_white } else { nstm_white }, mirrored(x % 64, flip))
        } by {
            if i < prev.len() {
                assert(f[i] == prev[i]);
            } else if i < prev.len() + s1.len() {
                let x = s1[i - prev.len()];
                assert(f[i] == x);
                lemma_feature_arith(x, 0, k - 1);
            } else {
                let x = s2[i - prev.len() - s1.len()];
                assert(f[i] == x);
                lemma_feature_arith(x, 384, k - 1);
            }
        }
    }
}

proof fn lemma_policy_distinct(b: ChessBoard, stm_white: bool, nstm_white: bool, k: int)
    requires
        0 <= k <= 6,
    ensures
        policy_features(b, stm_white, nstm_white, k).no_duplicates(),
    decreases k,
{
    if k > 0 {
        let flip = !b.stm().is_white();
        lemma_policy_distinct(b, stm_white, nstm_white, k - 1);
        lemma_policy_decode(b, stm_white, nstm_white, k - 1);
        let prev = policy_features(b, stm_white, nstm_white, k - 1);
        let s1 = piece_features(b, k - 1, stm_white, flip, 64 * (k - 1), 64);
        let s2 = piece_features(b, k - 1, nstm_white, flip, 384 + 64 * (k - 1), 64);
        lemma_piece_features(b, k - 1, stm_white, flip, 64 * (k - 1), 64);
        lemma_piece_features(b, k - 1, nstm_white, flip, 384 + 64 * (k - 1), 64);
        let f = policy_features(b, stm_white, nstm_white, k);
        assert(f == prev + s1 + s2);
        let a = prev.len();
        let c = prev.len() + s1.len();
        assert forall|i: int, j: int| 0 <= i < f.len() && 0 <= j < f.len() && i != j implies f[i] != f[j] by {
            if i < a {
                assert(f[i] == prev[i]);
            } else if i < c {
                assert(f[i] == s1[i - a]);
            } else {
                assert(f[i] == s2[i - c]);
            }
            if j < a {
                assert(f[j] == prev[j]);
            } else if j < c {
                assert(f[j] == s1[j - a]);
            } else {
                assert(f[j] == s2[j - c]);
            }
            if i >= a && i < c && j >= a && j < c {
                if i < j {
                    assert(s1[i - a] < s1[j - a]);
                } else {
                    assert(s1[j - a] < s1[i - a]);
                }
            }
            if i >= c && j >= c {
                if i < j {
                    assert(s2[i - c] < s2[j - c]);
                } else {
                    assert(s2[j - c] < s2[i - c]);
                }
            }
        }
    }
}

proof fn lemma_policy_complete(b: ChessBoard, stm_white: bool, nstm_white: bool, k: int, q: int, t: int)
    requires
        0 <= k <= 6,
        0 <= q < k,
        0 <= t < 64,
    ensures
        has_piece(b, q, stm_white, mirrored(t, !b.stm().is_white()))
            ==> policy_features(b, stm_white, nstm_white, k).contains(64 * q + t),
        has_piece(b, q, nstm_white, mirrored(t, !b.stm().is_white()))
            ==> policy_features(b, stm_white, nstm_white, k).contains(384 + 64 * q + t),
    decreases k,
{
    let flip = !b.stm().is_white();
    let prev = policy_features(b, stm_white, nstm_white, k - 1);
    let s1 = piece_features(b, k - 1, stm_white, flip, 64 * (k - 1), 64);
    let s2 = piece_features(b, k - 1, nstm_white, flip, 384 + 64 * (k - 1), 64);
    let f = policy_features(b, stm_white, nstm_white, k);
    assert(f == prev + s1 + s2);
    if q < k - 1 {
        lemma_policy_complete(b, stm_white, nstm_white, k - 1, q, t);
        if has_piece(b, q, stm_white, mirrored(t, flip)) {
            let i = choose|i: int| 0 <= i < prev.len() && prev[i] == 64 * q + t;
            assert(f[i] == prev[i]);
        }
        if has_piece(b, q, nstm_white, mirrored(t, flip)) {
            let i = choose|i: int| 0 <= i < prev.len() && prev[i] == 384 + 64 * q + t;
            assert(f[i] == prev[i]);
        }
    } else {
        lemma_piece_features(b, k - 1, stm_white, flip, 64 * (k - 1), 64);
        lemma_piece_features(b, k - 1, nstm_white, flip, 384 + 64 * (k - 1), 64);
        if has_piece(b, q, stm_white, mirrored(t, flip)) {
            assert(s1.contains(64 * (k - 1) + t));
            let i = choose|i: int| 0 <= i < s1.len() && s1[i] == 64 * q + t;
            assert(f[prev.len() + i] == s1[i]);
        }
        if has_piece(b, q, nstm_white, mirrored(t, flip)) {
            assert(s2.contains(384 + 64 * (k - 1) + t));
            let i = choose|i: int| 0 <= i < s2.len() && s2[i] == 384 + 64 * q + t;
            assert(f[prev.len() + s1.len() + i] == s2[i]);
        }
    }
}

/// Every piece gives exactly one policy input feature. A piece of type `p` on square `sq`
/// (the square seen with its ranks mirrored when black is to move) gives `64 * p + sq`
/// when it belongs to the side to move and `384 + 64 * p + sq` when it belongs to the other
/// side; every feature decodes back to such a piece, and no feature occurs twice.
pub proof fn lemma_policy_features_pieces(b: ChessBoard, stm_white: bool)
    ensures
        ({
            let f = policy_features(b, stm_white, !stm_white, 6);
            let seen = |sq: int| if b.stm().is_white() { sq } else { (7 - sq / 8) * 8 + sq % 8 };
            &&& forall|p: int, sq: int| 0 <= p < 6 && 0 <= sq < 64 && #[trigger] b.piece_set(p).contains(sq)
                && b.side_set(stm_white).contains(sq) ==> f.contains(64 * p + seen(sq))
            &&& forall|p: int, sq: int| 0 <= p < 6 && 0 <= sq < 64 && #[trigger] b.piece_set(p).contains(sq)
                && b.side_set(!stm_white).contains(sq) ==> f.contains(384 + 64 * p + seen(sq))
            &&& forall|i: int| 0 <= i < f.len() ==> {
                let x = #[trigger] f[i];
                &&& 0 <= x < 768
                &&& b.piece_set((x % 384) / 64).contains(seen(x % 64))
                &&& b.side_set(if x < 384 { stm_white } else { !stm_white }).contains(seen(x % 64))
            }
            &&& f.no_duplicates()
        }),
{
    let flip = !b.stm().is_white();
    lemma_policy_decode(b, stm_white, !stm_white, 6);
    lemma_policy_distinct(b, stm_white, !stm_white, 6);
    let f = policy_features(b, stm_white, !stm_white, 6);
    assert forall|p: int, sq: int| 0 <= p < 6 && 0 <= sq < 64 && #[trigger] b.piece_set(p).contains(sq)
        && b.side_set(stm_white).contains(sq) implies f.contains(64 * p + mirrored(sq, flip)) by {
        lemma_mirror_involution(sq, flip);
        lemma_policy_complete(b, stm_white, !stm_white, 6, p, mirrored(sq, flip));
    }
    assert forall|p: int, sq: int| 0 <= p < 6 && 0 <= sq < 64 && #[trigger] b.piece_set(p).contains(sq)
        && b.side_set(!stm_white).contains(sq) implies f.contains(384 + 64 * p + mirrored(sq, flip)) by {
        lemma_mirror_involution(sq, flip);
        lemma_policy_complete(b, stm_white, !stm_white, 6, p, mirrored(sq, flip));
    }
}

/// The feature that the piece on an occupied square gives.
pub open spec fn square_feature(b: ChessBoard, stm_white: bool, sq: int) -> int {
    (if b.side_set(stm_white).contains(sq) { 0int } else { 384int }) + 64 * b.piece_on(sq) + mirrored(sq, !b.stm().is_white())
}

proof fn lemma_piece_on_unique(b: ChessBoard, p: int, sq: int)
    requires
        b.wf(),
        0 <= p < 6,
        b.piece_set(p).contains(sq),
    ensures
        b.piece_on(sq) == p,
{
    assert forall|q: int| 0 <= q < 6 && q != p implies !b.piece_set(q).contains(sq) by {
        assert(b.piece_set(p).disjoint(b.piece_set(q)));
    }
}

/// On a well-formed board the policy inputs hold exactly one feature per piece: as many
/// features as occupied squares.
pub proof fn lemma_policy_features_count(b: ChessBoard, stm_white: bool)
    requires
        b.wf(),
    ensures
        policy_features(b, stm_white, !stm_white, 6).len() == b.occupied_set().len(),
{
    let flip = !b.stm().is_white();
    let f = policy_features(b, stm_white, !stm_white, 6);
    lemma_policy_decode(b, stm_white, !stm_white, 6);
    lemma_policy_distinct(b, stm_white, !stm_white, 6);
    f.unique_seq_to_set();
    let occ = b.occupied_set();
    let g = |sq: int| square_feature(b, stm_white, sq);
    lemma_squares_finite(b.side_mask(true));
    lemma_squares_finite(b.side_mask(false));
    assert(occ.finite());
    assert forall|sq: int| #[trigger] occ.contains(sq) implies {
        &&& 0 <= sq < 64
        &&& 0 <= b.piece_on(sq) < 6
        &&& b.piece_set(b.piece_on(sq)).contains(sq)
    } by {
        let p = choose|p: int| 0 <= p < 6 && #[trigger] b.piece_set(p).contains(sq);
        lemma_piece_on_unique(b, p, sq);
    }
    assert forall|a: int, c: int| occ.contains(a) && occ.contains(c) && #[trigger] g(a) == #[trigger] g(c) implies a == c by {
        lemma_mirror_involution(a, flip);
        lemma_mirror_involution(c, flip);
        let ba = if b.side_set(stm_white).contains(a) { 0int } else { 384int };
        let bc = if b.side_set(stm_white).contains(c) { 0int } else { 384int };
        lemma_feature_arith(g(a), ba, b.piece_on(a));
        lemma_feature_arith(g(c), bc, b.piece_on(c));
    }
    assert(vstd::relations::injective_on(g, occ));
    assert forall|x: int| f.to_set().contains(x) <==> occ.map(g).contains(x) by {
        if f.to_set().contains(x) {
            let i = choose|i: int| 0 <= i < f.len() && f[i] == x;
            let p = (x % 384) / 64;
            let side = if x < 384 { stm_white } else { !stm_white };
            let t = x % 64;
            let sq = mirrored(t, flip);
            assert(has_piece(b, p, side, sq));
            lemma_mirror_involution(t, flip);
            lemma_piece_on_unique(b, p, sq);
            assert(b.side_set(true).disjoint(b.side_set(false)));
            assert(occ.contains(sq));
            assert(x == (if x < 384 { 0int } else { 384int }) + 64 * p + t) by {
                vstd::arithmetic::div_mod::lemma_fundamental_div_mod(x, 384);
                vstd::arithmetic::div_mod::lemma_fundamental_div_mod(x % 384, 64);
                vstd::arithmetic::div_mod::lemma_fundamental_div_mod(x, 64);
                if x < 384 {
                    assert(x % 384 == x);
                } else {
                    assert(x % 384 == x - 384);
                }
                assert(x % 64 == (x % 384) % 64);
            }
            assert(g(sq) == x);
        }
        if occ.map(g).contains(x) {
            let sq = choose|sq: int| occ.contains(sq) && g(sq) == x;
            let p = b.piece_on(sq);
            lemma_mirror_involution(sq, flip);
            if b.side_set(stm_white).contains(sq) {
                lemma_policy_complete(b, stm_white, !stm_white, 6, p, mirrored(sq, flip));
            } else {
                assert(b.side_set(!stm_white).contains(sq));
                lemma_policy_complete(b, stm_white, !stm_white, 6, p, mirrored(sq, flip));
            }
        }
    }
    assert(f.to_set() =~= occ.map(g));
    vstd::set_lib::lemma_map_size(occ, f.to_set(), g);
}

/// Appends the features of the squares set in `mask` (the pieces of type `p` of side
/// `white`), walking the mirrored board in ascending order.
fn push_piece_features(
    board: &ChessBoard,
    p: u8,
    white: bool,
    flip: bool,
    offset: usize,
    out: &mut Vec<usize>,
)
    requires
        p < 6,
        offset <= 768,
    ensures
        as_ints(final(out)@) == as_ints(old(out)@) + piece_features(*board, p as int, white, flip, offset as int, 64),
{
    let mask = board.get_piece_mask(Piece::from_raw(p)) & board.get_occupancy_for_side(white);
    proof {
        lemma_squares_ops(board.piece_mask(p as int), board.side_mask(white));
    }
    let ghost start = as_ints(out@);
    let mut t: u64 = 0;
    while t < 64
        invariant
            t <= 64,
            offset <= 768,
            mask == board.piece_mask(p as int) & board.side_mask(white),
            squares(mask) == board.piece_set(p as int).intersect(board.side_set(white)),
            as_ints(out@) == start + piece_features(*board, p as int, white, flip, offset as int, t as int),
        decreases 64 - t,
    {
        let sq: u64 = if flip { t ^ 56u64 } else { t };
        proof {
            assert(t < 64 ==> (t ^ 56u64) == (7 - t / 8) * 8 + t % 8) by (bit_vector);
            assert(t < 64 ==> (t ^ 56u64) < 64) by (bit_vector);
            assert(sq as int == mirrored(t as int, flip));
        }
        let ghost before = out@;
        if (mask >> sq) & 1u64 == 1u64 {
            proof {
                assert(is_set(mask, sq as int));
                assert(squares(mask).contains(sq as int));
            }
            out.push(offset + t as usize);
            proof {
                assert(as_ints(out@) =~= as_ints(before).push((offset + t) as int));
            }
        } else {
            proof {
                assert(!is_set(mask, sq as int));
                assert(!squares(mask).contains(sq as int));
            }
        }
        t = t + 1;
    }
}

/// The policy network's input features: only the board's pieces, without weights.
pub struct PolicyNetwork;

impl PolicyNetwork {
    /// The input features of a board, in the order the network reads them: for each piece
    /// type from pawn to king, the squares of that type of the side `STM_WHITE` at
    /// `64 * type + square`, then those of the side `NSTM_WHITE` at
    /// `384 + 64 * type + square`; squares in ascending order of the board as the side to
    /// move sees it (ranks mirrored when black is to move).
    pub fn map_policy_inputs<const STM_WHITE: bool, const NSTM_WHITE: bool>(board: &ChessBoard) -> (r: Vec<usize>)
        ensures
            as_ints(r@) == policy_features(*board, STM_WHITE, NSTM_WHITE, 6),
    {
        let flip = board.side_to_move().get_raw() != 0;
        let mut out: Vec<usize> = Vec::new();
        let mut piece: u8 = 0;
        proof {
            assert(as_ints(out@) =~= Seq::<int>::empty());
        }
        while piece < 6
            invariant
                piece <= 6,
                flip == !board.stm().is_white(),
                as_ints(out@) == policy_features(*board, STM_WHITE, NSTM_WHITE, piece as int),
            decreases 6 - piece,
        {
            let piece_index: usize = 64 * (piece as usize);
            push_piece_features(board, piece, STM_WHITE, flip, piece_index, &mut out);
            push_piece_features(board, piece, NSTM_WHITE, flip, 384 + piece_index, &mut out);
            piece = piece + 1;
        }
        out
    }
}

} // verus!
