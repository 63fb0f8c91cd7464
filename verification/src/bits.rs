//! Bit-set primitives over the 90-square board.
//!
//! A board occupancy set is a `u128` whose bits 0..89 stand for squares;
//! bits 90..127 are always zero in a well-formed board.

use vstd::prelude::*;

verus! {

/// The type used for occupancy bit sets over the 90 squares.
pub type Bitboard = u128;

/// Square `i` is a member of the bit set `bb`.
pub open spec fn bb_has(bb: u128, i: int) -> bool {
    0 <= i < 128 && (bb >> (i as u128)) & 1 == 1
}

/// The number of set bits of `bb` with index below `n`.
pub open spec fn bb_count(bb: u128, n: int) -> int
    decreases n,
{
    if n <= 0 {
        0
    } else {
        bb_count(bb, n - 1) + if bb_has(bb, n - 1) {
            1int
        } else {
            0int
        }
    }
}

/// Membership in a union is membership in either operand.
pub proof fn lemma_bb_or(a: u128, b: u128, i: int)
    ensures
        bb_has(a | b, i) <==> (bb_has(a, i) || bb_has(b, i)),
{
    if 0 <= i < 128 {
        let iu = i as u128;
        assert(((a | b) >> iu) & 1 == 1 <==> ((a >> iu) & 1 == 1 || (b >> iu) & 1 == 1))
            by (bit_vector);
    }
}

/// Membership in an intersection is membership in both operands.
pub proof fn lemma_bb_and(a: u128, b: u128, i: int)
    ensures
        bb_has(a & b, i) <==> (bb_has(a, i) && bb_has(b, i)),
{
    if 0 <= i < 128 {
        let iu = i as u128;
        assert(((a & b) >> iu) & 1 == 1 <==> ((a >> iu) & 1 == 1 && (b >> iu) & 1 == 1))
            by (bit_vector);
    }
}

/// Membership in a symmetric difference.
pub proof fn lemma_bb_xor(a: u128, b: u128, i: int)
    ensures
        bb_has(a ^ b, i) <==> (bb_has(a, i) != bb_has(b, i)),
{
    if 0 <= i < 128 {
        let iu = i as u128;
        assert(((a ^ b) >> iu) & 1 == 1 <==> !(((a >> iu) & 1 == 1) <==> ((b >> iu) & 1 == 1)))
            by (bit_vector);
    }
}

/// Membership in a complement, for indices within the 128-bit range.
pub proof fn lemma_bb_not(a: u128, i: int)
    requires
        0 <= i < 128,
    ensures
        bb_has(!a, i) <==> !bb_has(a, i),
{
    let iu = i as u128;
    assert(((!a) >> iu) & 1 == 1 <==> !((a >> iu) & 1 == 1)) by (bit_vector)
        requires
            iu < 128,
    ;
}

/// A single-square mask holds exactly that square.
pub proof fn lemma_bb_single(s: int, i: int)
    requires
        0 <= s < 128,
    ensures
        bb_has(1u128 << (s as u128), i) <==> i == s,
{
    let su = s as u128;
    if 0 <= i < 128 {
        let iu = i as u128;
        assert((((1u128 << su) >> iu) & 1 == 1 <==> iu == su)) by (bit_vector)
            requires
                su < 128,
                iu < 128,
        ;
    }
}

/// Adding and then removing a square by xor restores the original set.
pub proof fn lemma_bb_xor_cancel(a: u128, m: u128)
    ensures
        (a ^ m) ^ m == a,
{
    assert((a ^ m) ^ m == a) by (bit_vector);
}

/// Clearing a set member and then setting it again restores the original set.
pub proof fn lemma_bb_clear_then_set(a: u128, s: u128)
    requires
        s < 128,
        (a >> s) & 1 == 1,
    ensures
        (a & !(1u128 << s)) | (1u128 << s) == a,
{
    assert((a & !(1u128 << s)) | (1u128 << s) == a) by (bit_vector)
        requires
            s < 128,
            (a >> s) & 1 == 1,
    ;
}

/// An empty set has no members.
pub proof fn lemma_bb_zero(i: int)
    ensures
        !bb_has(0u128, i),
{
    if 0 <= i < 128 {
        let iu = i as u128;
        assert((0u128 >> iu) & 1 == 0) by (bit_vector);
    }
}

/// A set with no members from `n` upward vanishes when shifted right by `n`.
proof fn lemma_bb_high_clear_shift(bb: u128, n: int)
    requires
        0 <= n <= 128,
        forall|j: int| n <= j < 128 ==> !bb_has(bb, j),
    ensures
        n < 128 ==> bb >> (n as u128) == 0,
        n == 0 ==> bb == 0,
    decreases 128 - n,
{
    if n == 127 {
        assert(!bb_has(bb, 127));
        assert((bb >> (127int as u128)) & 1 != 1);
        assert((bb >> 127u128) & 1 != 1 ==> bb >> 127u128 == 0) by (bit_vector);
        assert(bb >> (n as u128) == 0);
    } else if n < 127 {
        lemma_bb_high_clear_shift(bb, n + 1);
        let nu = n as u128;
        let mu = (n + 1) as u128;
        assert(!bb_has(bb, n));
        assert((bb >> nu) & 1 != 1);
        assert(bb >> mu == 0);
        assert((bb >> mu == 0 && (bb >> nu) & 1 != 1) ==> bb >> nu == 0) by (bit_vector)
            requires
                nu < 127,
                mu == nu + 1,
        ;
    }
    if n == 0 {
        assert(bb >> 0u128 == bb) by (bit_vector);
    }
}

/// A set with no members at all is zero.
pub proof fn lemma_bb_no_members_zero(bb: u128)
    requires
        forall|i: int| !bb_has(bb, i),
    ensures
        bb == 0,
{
    lemma_bb_high_clear_shift(bb, 0);
}

/// The number of set bits of `bb`, over the whole 128-bit range.
pub fn popcount(bb: Bitboard) -> (r: u32)
    ensures
        r == bb_count(bb, 128),
        r <= 128,
{
    let mut i: u32 = 0;
    let mut r: u32 = 0;
    while i < 128
        invariant
            i <= 128,
            r == bb_count(bb, i as int),
            r <= i,
        decreases 128 - i,
    {
        if (bb >> (i as u128)) & 1 == 1 {
            r = r + 1;
        }
        i = i + 1;
    }
    r
}

/// The index of the lowest set bit, or -1 for the empty set.
pub fn get_lsb_index(bb: Bitboard) -> (r: i32)
    ensures
        bb == 0 ==> r == -1,
        bb != 0 ==> 0 <= r < 128 && bb_has(bb, r as int) && forall|j: int|
            0 <= j < r ==> !bb_has(bb, j),
{
    let mut i: u32 = 0;
    while i < 128
        invariant
            i <= 128,
            forall|j: int| 0 <= j < i ==> !bb_has(bb, j),
        decreases 128 - i,
    {
        if (bb >> (i as u128)) & 1 == 1 {
            proof {
                let iu = i as u128;
                assert((bb >> iu) & 1 == 1 ==> bb != 0) by (bit_vector);
            }
            return i as i32;
        }
        i = i + 1;
    }
    proof {
        lemma_bb_no_members_zero(bb);
    }
    -1
}

} // verus!
