//! How the bits of a block relate to its symbols and to its padding.

use crate::encoding::{block_limit, lemma_pow4_values, lemma_unpack_valid, pow4, unpack};
use crate::field::modulus;
use crate::program::{bit_value, bits_of, lemma_bits_len};
use vstd::prelude::*;

verus! {

/// `v` halved `n` times, each time rounding down.
pub open spec fn halved(v: nat, n: nat) -> nat
    decreases n,
{
    if n == 0 {
        v
    } else {
        halved(v / 2, (n - 1) as nat)
    }
}

/// `b` doubled `n` times.
pub open spec fn doubled(b: nat, n: nat) -> nat
    decreases n,
{
    if n == 0 {
        b
    } else {
        2 * doubled(b, (n - 1) as nat)
    }
}

/// A bit of a number does not depend on how many bits are taken.
pub proof fn lemma_bits_prefix(v: nat, small: nat, large: nat, k: int)
    requires
        0 <= k < small <= large,
    ensures
        bits_of(v, large)[k] == bits_of(v, small)[k],
    decreases small,
{
    lemma_bits_len(v / 2, (small - 1) as nat);
    lemma_bits_len(v / 2, (large - 1) as nat);
    if k > 0 {
        lemma_bits_prefix(v / 2, (small - 1) as nat, (large - 1) as nat, k - 1);
    }
}

/// A symbol of a block is its two bits: the low one plus twice the high one.
pub proof fn lemma_digit_from_bits(v: nat, n: nat, j: int)
    requires
        0 <= j < n,
    ensures
        unpack(v, n)[j] == bit_value(bits_of(v, 2 * n)[2 * j]) + 2 * bit_value(
            bits_of(v, 2 * n)[2 * j + 1],
        ),
    decreases n,
{
    let rest = (2 * n - 2) as nat;
    lemma_unpack_valid(v / 4, (n - 1) as nat);
    lemma_bits_len(v / 2, (2 * n - 1) as nat);
    lemma_bits_len(v / 2 / 2, rest);
    assert(bits_of(v, 2 * n) == seq![v % 2 == 1] + bits_of(v / 2, (2 * n - 1) as nat));
    assert(bits_of(v / 2, (2 * n - 1) as nat) == seq![(v / 2) % 2 == 1] + bits_of(v / 2 / 2, rest));
    assert(v / 2 / 2 == v / 4);
    if j > 0 {
        lemma_digit_from_bits(v / 4, (n - 1) as nat, j - 1);
        assert(bits_of(v, 2 * n)[2 * j] == bits_of(v / 4, rest)[2 * j - 2]);
        assert(bits_of(v, 2 * n)[2 * j + 1] == bits_of(v / 4, rest)[2 * j - 1]);
    }
}

/// Symbol `j` of a block, from the 255 bits of the block.
pub proof fn lemma_symbol_bits(v: nat, j: int)
    requires
        0 <= j < 125,
    ensures
        unpack(v, 125)[j] == bit_value(bits_of(v, 255)[2 * j]) + 2 * bit_value(
            bits_of(v, 255)[2 * j + 1],
        ),
{
    lemma_digit_from_bits(v, 125, j);
    lemma_bits_prefix(v, 250, 255, 2 * j);
    lemma_bits_prefix(v, 250, 255, 2 * j + 1);
}

/// The bits from place `n` on are the bits of the number halved `n` times.
pub proof fn lemma_bits_shift(v: nat, n: nat, m: nat, k: int)
    requires
        0 <= k < m,
    ensures
        bits_of(v, n + m)[n + k] == bits_of(halved(v, n), m)[k],
    decreases n,
{
    if n > 0 {
        lemma_bits_len(v / 2, (n + m - 1) as nat);
        lemma_bits_shift(v / 2, (n - 1) as nat, m, k);
    }
}

/// Halving `n` times brings a number below `b` exactly when the number is
/// below `b` doubled `n` times.
pub proof fn lemma_halved_below(v: nat, b: nat, n: nat)
    ensures
        halved(v, n) < b <==> v < doubled(b, n),
    decreases n,
{
    if n > 0 {
        lemma_halved_below(v / 2, b, (n - 1) as nat);
    }
}

/// Doubling twice as often is raising four to the power.
pub proof fn lemma_doubled_pow4(n: nat)
    ensures
        doubled(1, 2 * n) == pow4(n),
    decreases n,
{
    if n > 0 {
        lemma_doubled_pow4((n - 1) as nat);
        assert(doubled(1, 2 * n) == 2 * doubled(1, (2 * n - 1) as nat));
        assert(doubled(1, (2 * n - 1) as nat) == 2 * doubled(1, (2 * n - 2) as nat));
    }
}

/// Doubling the start doubles the result.
pub proof fn lemma_doubled_twice(b: nat, n: nat)
    ensures
        doubled(2 * b, n) == 2 * doubled(b, n),
    decreases n,
{
    if n > 0 {
        lemma_doubled_twice(b, (n - 1) as nat);
    }
}

/// The five bits above the symbols of a canonical block are all zero
/// exactly when the block lies below two to the power 250.
pub proof fn lemma_padding_bits(v: nat)
    requires
        v < modulus(),
    ensures
        (forall|k: int| 250 <= k < 255 ==> !bits_of(v, 255)[k]) <==> v < block_limit(),
{
    let top = halved(v, 250);
    lemma_pow4_values();
    lemma_doubled_pow4(125);
    lemma_doubled_twice(1, 250);
    lemma_doubled_twice(2, 250);
    lemma_doubled_twice(4, 250);
    lemma_doubled_twice(8, 250);
    lemma_doubled_twice(16, 250);
    lemma_halved_below(v, 32, 250);
    lemma_halved_below(v, 1, 250);
    assert(top < 32);
    assert(top == 0 <==> v < block_limit());
    lemma_bits_shift(v, 250, 5, 0);
    lemma_bits_shift(v, 250, 5, 1);
    lemma_bits_shift(v, 250, 5, 2);
    lemma_bits_shift(v, 250, 5, 3);
    lemma_bits_shift(v, 250, 5, 4);
    let b = bits_of(top, 5);
    assert((!b[0] && !b[1] && !b[2] && !b[3] && !b[4]) <==> top == 0) by {
        reveal_with_fuel(bits_of, 6);
    }
    if v < block_limit() {
        assert forall|k: int| 250 <= k < 255 implies !bits_of(v, 255)[k] by {
            lemma_bits_shift(v, 250, 5, k - 250);
        }
    }
    if forall|k: int| 250 <= k < 255 ==> !bits_of(v, 255)[k] {
        assert(!bits_of(v, 255)[250]);
        assert(!bits_of(v, 255)[251]);
        assert(!bits_of(v, 255)[252]);
        assert(!bits_of(v, 255)[253]);
        assert(!bits_of(v, 255)[254]);
    }
}

} // verus!
