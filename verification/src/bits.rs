use vstd::prelude::*;

verus! {

/// Whether square (bit) `t` is set in the bitboard `b`.
pub open spec fn is_set(b: u64, t: int) -> bool {
    0 <= t < 64 && (b >> (t as u64)) & 1u64 == 1u64
}

/// The set of squares whose bits are set in `b`.
pub open spec fn squares(b: u64) -> Set<int> {
    Set::new(|t: int| is_set(b, t))
}

/// The bitboard with only square `s` set.
pub open spec fn single(s: int) -> u64 {
    (1u64 << (s as u64))
}

pub proof fn lemma_bit_single(s: u64, u: u64)
    requires
        s < 64,
        u < 64,
    ensures
        ((1u64 << s) >> u) & 1u64 == 1u64 <==> s == u,
{
    assert(((1u64 << s) >> u) & 1u64 == 1u64 <==> s == u) by (bit_vector)
        requires
            s < 64,
            u < 64,
    ;
}

pub proof fn lemma_bit_or(a: u64, b: u64, u: u64)
    requires
        u < 64,
    ensures
        ((a | b) >> u) & 1u64 == 1u64 <==> ((a >> u) & 1u64 == 1u64 || (b >> u) & 1u64 == 1u64),
{
    assert(((a | b) >> u) & 1u64 == 1u64 <==> ((a >> u) & 1u64 == 1u64 || (b >> u) & 1u64 == 1u64))
        by (bit_vector)
        requires
            u < 64,
    ;
}

pub proof fn lemma_bit_and(a: u64, b: u64, u: u64)
    requires
        u < 64,
    ensures
        ((a & b) >> u) & 1u64 == 1u64 <==> ((a >> u) & 1u64 == 1u64 && (b >> u) & 1u64 == 1u64),
{
    assert(((a & b) >> u) & 1u64 == 1u64 <==> ((a >> u) & 1u64 == 1u64 && (b >> u) & 1u64 == 1u64))
        by (bit_vector)
        requires
            u < 64,
    ;
}

pub proof fn lemma_bit_xor(a: u64, b: u64, u: u64)
    requires
        u < 64,
    ensures
        ((a ^ b) >> u) & 1u64 == 1u64 <==> ((a >> u) & 1u64 == 1u64 != ((b >> u) & 1u64 == 1u64)),
{
    assert(((a ^ b) >> u) & 1u64 == 1u64 <==> ((a >> u) & 1u64 == 1u64 != ((b >> u) & 1u64 == 1u64)))
        by (bit_vector)
        requires
            u < 64,
    ;
}

pub proof fn lemma_bit_zero(u: u64)
    requires
        u < 64,
    ensures
        !((0u64 >> u) & 1u64 == 1u64),
{
    assert(!((0u64 >> u) & 1u64 == 1u64)) by (bit_vector);
}

/// The zero bitboard has no square set.
pub proof fn lemma_empty_bits()
    ensures
        forall|u: int| !#[trigger] is_set(0u64, u),
{
    assert forall|u: int| !#[trigger] is_set(0u64, u) by {
        if 0 <= u < 64 {
            lemma_bit_zero(u as u64);
        }
    }
}

/// Squares of a union, intersection, difference and of a single bit.
pub proof fn lemma_squares_ops(a: u64, b: u64)
    ensures
        squares(a | b) == squares(a).union(squares(b)),
        squares(a & b) == squares(a).intersect(squares(b)),
        squares(0) == Set::<int>::empty(),
{
    assert forall|t: int| is_set(a | b, t) <==> is_set(a, t) || is_set(b, t) by {
        if 0 <= t < 64 {
            lemma_bit_or(a, b, t as u64);
        }
    }
    assert forall|t: int| is_set(a & b, t) <==> is_set(a, t) && is_set(b, t) by {
        if 0 <= t < 64 {
            lemma_bit_and(a, b, t as u64);
        }
    }
    assert forall|t: int| !is_set(0, t) by {
        if 0 <= t < 64 {
            lemma_bit_zero(t as u64);
        }
    }
    assert(squares(a | b) =~= squares(a).union(squares(b)));
    assert(squares(a & b) =~= squares(a).intersect(squares(b)));
    assert(squares(0) =~= Set::<int>::empty());
}

pub proof fn lemma_squares_xor(a: u64, b: u64)
    ensures
        forall|t: int| #[trigger] is_set(a ^ b, t) <==> (is_set(a, t) != is_set(b, t)),
{
    assert forall|t: int| #[trigger] is_set(a ^ b, t) <==> (is_set(a, t) != is_set(b, t)) by {
        if 0 <= t < 64 {
            lemma_bit_xor(a, b, t as u64);
        }
    }
}

pub proof fn lemma_squares_single(s: int)
    requires
        0 <= s < 64,
    ensures
        squares(single(s)) == Set::<int>::empty().insert(s),
{
    assert forall|t: int| is_set(single(s), t) <==> t == s by {
        if 0 <= t < 64 {
            lemma_bit_single(s as u64, t as u64);
        }
    }
    assert(squares(single(s)) =~= Set::<int>::empty().insert(s));
}

/// A bitboard with no set square is zero.
pub proof fn lemma_zero_iff_empty(a: u64)
    ensures
        (a == 0) <==> squares(a) =~= Set::<int>::empty(),
{
    lemma_squares_ops(a, a);
    if a != 0 {
        let t = a.trailing_zeros();
        vstd::std_specs::bits::axiom_u64_trailing_zeros(a);
        assert(is_set(a, t as int));
        assert(squares(a).contains(t as int));
    }
}

/// The squares of a bitboard form a finite set of at most 64 elements.
pub proof fn lemma_squares_finite(a: u64)
    ensures
        squares(a).finite(),
        squares(a).len() <= 64,
{
    vstd::set_lib::lemma_int_range(0, 64);
    assert(squares(a).subset_of(vstd::set_lib::set_int_range(0, 64)));
    vstd::set_lib::lemma_len_subset(squares(a), vstd::set_lib::set_int_range(0, 64));
}

/// Bitboard with square `t` set in addition to those of `b`.
pub proof fn lemma_set_square(b: u64, t: int)
    requires
        0 <= t < 64,
    ensures
        squares(b | single(t)) == squares(b).insert(t),
{
    lemma_squares_single(t);
    lemma_squares_ops(b, single(t));
    assert(squares(b | single(t)) =~= squares(b).insert(t));
}

/// Clearing square `t` of `b`.
pub proof fn lemma_clear_square(b: u64, t: int, u: int)
    requires
        0 <= t < 64,
    ensures
        is_set(b & !single(t), u) <==> (is_set(b, u) && u != t),
{
    if 0 <= u < 64 {
        let tt = t as u64;
        let uu = u as u64;
        assert(((b & !(1u64 << tt)) >> uu) & 1u64 == 1u64 <==> ((b >> uu) & 1u64 == 1u64 && uu != tt)) by (bit_vector)
            requires
                tt < 64,
                uu < 64,
        ;
    }
}

/// Every square of the full bitboard is set.
pub proof fn lemma_full_bits(u: int)
    requires
        0 <= u < 64,
    ensures
        is_set(0xFFFF_FFFF_FFFF_FFFFu64, u),
{
    let uu = u as u64;
    assert((0xFFFF_FFFF_FFFF_FFFFu64 >> uu) & 1u64 == 1u64) by (bit_vector)
        requires
            uu < 64,
    ;
}

} // verus!
