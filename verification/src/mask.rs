use vstd::prelude::*;

verus! {

/// Bit `i` of mask `m`. Bits at or above the mask width are never set.
pub open spec fn nth_bit(m: u128, i: int) -> bool {
    0 <= i < 128 && (m >> (i as u128)) & 1 == 1
}

/// The unit mask for partition index `i`.
pub open spec fn mask_bit(i: int) -> u128
    recommends
        0 <= i < 128,
{
    1u128 << (i as u128)
}

/// The mask with the low `n` bits set.
pub open spec fn low_ones(n: int) -> u128 {
    if n >= 128 {
        !0u128
    } else if n <= 0 {
        0u128
    } else {
        ((1u128 << (n as u128)) - 1) as u128
    }
}

/// A mask stays inside a partition of `n` elements when it has no bit at
/// index `n` or above.
pub open spec fn mask_in_range(m: u128, n: int) -> bool {
    if n >= 128 {
        true
    } else if n < 0 {
        m == 0
    } else {
        m >> (n as u128) == 0
    }
}

pub proof fn lemma_or_bit(a: u128, b: u128, i: u128)
    by (bit_vector)
    requires
        i < 128,
    ensures
        ((a | b) >> i) & 1 == 1 <==> ((a >> i) & 1 == 1) || ((b >> i) & 1 == 1),
{
}

pub proof fn lemma_unit_bit(j: u128, i: u128)
    by (bit_vector)
    requires
        i < 128,
        j < 128,
    ensures
        ((1u128 << j) >> i) & 1 == 1 <==> i == j,
{
}

pub proof fn lemma_range_no_bit(m: u128, n: u128, i: u128)
    by (bit_vector)
    requires
        n <= i < 128,
        m >> n == 0,
    ensures
        (m >> i) & 1 == 0,
{
}

pub proof fn lemma_or_in_range(a: u128, b: u128, n: u128)
    by (bit_vector)
    requires
        n < 128,
        a >> n == 0,
        b >> n == 0,
    ensures
        (a | b) >> n == 0,
{
}

pub proof fn lemma_unit_in_range(i: u128, n: u128)
    by (bit_vector)
    requires
        i < n,
        n < 128,
    ensures
        (1u128 << i) >> n == 0,
{
}

pub proof fn lemma_zero_in_range(n: u128)
    by (bit_vector)
    ensures
        0u128 >> n == 0,
{
}

/// Restricting a mask to its low `k` bits, then admitting bit `k`, is the
/// restriction to the low `k + 1` bits.
pub proof fn lemma_low_ones_step(m: u128, k: u128)
    by (bit_vector)
    requires
        k < 128,
    ensures
        (m & ((if k >= 128 {
            !0u128
        } else {
            ((1u128 << k) - 1) as u128
        }))) | (if (m >> k) & 1 == 1 {
            1u128 << k
        } else {
            0u128
        }) == m & ((if k + 1 >= 128 {
            !0u128
        } else {
            ((1u128 << (k + 1)) - 1) as u128
        })),
{
}

pub proof fn lemma_shl_pos(n: u128)
    by (bit_vector)
    requires
        n < 128,
    ensures
        1u128 << n >= 1,
{
}

pub proof fn lemma_or_zero(m: u128)
    by (bit_vector)
    ensures
        m | 0u128 == m,
{
}

pub proof fn lemma_or_comm(a: u128, b: u128)
    by (bit_vector)
    ensures
        a | b == b | a,
{
}

pub proof fn lemma_or_shuffle(a: u128, b: u128, c: u128, d: u128)
    by (bit_vector)
    ensures
        (a | b) | (c | d) == (a | c) | (b | d),
{
}

pub proof fn lemma_or_zero_left(m: u128)
    by (bit_vector)
    ensures
        0u128 | m == m,
{
}

pub proof fn lemma_zero_bit(i: u128)
    by (bit_vector)
    ensures
        (0u128 >> i) & 1 == 0,
{
}

pub proof fn lemma_mask_and_full(m: u128)
    by (bit_vector)
    ensures
        m & !0u128 == m,
{
}

/// A mask inside range `n` equals its restriction to the low `n` bits.
pub proof fn lemma_in_range_low_ones(m: u128, n: u128)
    by (bit_vector)
    requires
        n < 128,
        m >> n == 0,
    ensures
        m & ((1u128 << n) - 1) as u128 == m,
{
}

} // verus!
