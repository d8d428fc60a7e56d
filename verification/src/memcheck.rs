//! The fingerprint argument: a product over a whole sequence against a
//! product over the symbols that the trace walk reads from it.

use crate::field::{field_product, modulus, usize_to_felt, Felt};
use crate::trace::{count_true, read_at};
use vstd::arithmetic::div_mod::{
    lemma_add_mod_noop, lemma_fundamental_div_mod, lemma_mul_mod_noop_general, lemma_small_mod,
};
use vstd::prelude::*;

verus! {

/// The fingerprint of one symbol at one position: `c0 + value + index * c1`
/// in the field.
pub open spec fn term(c0: nat, c1: nat, value: nat, index: nat) -> nat {
    (c0 + value + index * c1) % modulus()
}

/// The product of the fingerprints of all symbols of a sequence, each at
/// its own position.
pub open spec fn full_fingerprint(c0: nat, c1: nat, symbols: Seq<usize>) -> nat
    decreases symbols.len(),
{
    if symbols.len() == 0 {
        1
    } else {
        field_product(
            full_fingerprint(c0, c1, symbols.drop_last()),
            term(c0, c1, symbols.last() as nat, (symbols.len() - 1) as nat),
        )
    }
}

/// One of two values, chosen by a flag.
pub open spec fn select_spec(flag: bool, if_true: nat, if_false: nat) -> nat {
    if flag {
        if_true
    } else {
        if_false
    }
}

/// The product over the first `k` steps of a trace walk: a step that
/// consumes from the sequence contributes the fingerprint of the symbol it
/// read at the position of the cursor, any other step contributes one.
pub open spec fn trace_fingerprint(
    c0: nat,
    c1: nat,
    consumed: Seq<bool>,
    read: Seq<usize>,
    k: int,
) -> nat
    decreases k,
{
    if k <= 0 {
        1
    } else {
        field_product(
            trace_fingerprint(c0, c1, consumed, read, k - 1),
            select_spec(
                consumed[k - 1],
                term(c0, c1, read[k - 1] as nat, count_true(consumed, k - 1)),
                1,
            ),
        )
    }
}

/// One of two field elements, chosen by a flag.
pub fn select(flag: bool, if_true: &Felt, if_false: &Felt) -> (r: Felt)
    ensures
        r == if flag {
            *if_true
        } else {
            *if_false
        },
        r@ == select_spec(flag, if_true@, if_false@),
{
    if flag {
        *if_true
    } else {
        *if_false
    }
}

/// The fingerprint of one symbol value at one position.
pub fn fingerprint_term(c0: &Felt, c1: &Felt, value: &Felt, index: usize) -> (r: Felt)
    requires
        c0.wf(),
        c1.wf(),
        value.wf(),
    ensures
        r.wf(),
        r@ == term(c0@, c1@, value@, index as nat),
{
    let position = Felt::from_u64(index as u64);
    let shifted = c0.add(value);
    let scaled = position.mul(c1);
    proof {
        lemma_add_mod_noop((c0@ + value@) as int, (index * c1@) as int, modulus() as int);
    }
    shifted.add(&scaled)
}

/// The product of the fingerprints of the first `count` symbols.
pub fn full_fingerprint_of(c0: &Felt, c1: &Felt, symbols: &Vec<usize>, count: usize) -> (r: Felt)
    requires
        c0.wf(),
        c1.wf(),
        count <= symbols.len(),
        forall|i: int| 0 <= i < count ==> symbols@[i] < 4,
    ensures
        r.wf(),
        r@ == full_fingerprint(c0@, c1@, symbols@.take(count as int)),
{
    let mut product = Felt::one();
    let mut i: usize = 0;
    while i < count
        invariant
            i <= count <= symbols.len(),
            c0.wf(),
            c1.wf(),
            forall|k: int| 0 <= k < count ==> symbols@[k] < 4,
            product.wf(),
            product@ == full_fingerprint(c0@, c1@, symbols@.take(i as int)),
        decreases count - i,
    {
        let value = usize_to_felt(symbols[i]);
        let factor = fingerprint_term(c0, c1, &value, i);
        proof {
            assert(symbols@.take(i + 1).drop_last() =~= symbols@.take(i as int));
        }
        product = product.mul(&factor);
        i = i + 1;
    }
    product
}

/// Every fingerprint product is a canonical field element.
pub proof fn lemma_trace_fingerprint_bound(
    c0: nat,
    c1: nat,
    consumed: Seq<bool>,
    read: Seq<usize>,
    k: int,
)
    ensures
        trace_fingerprint(c0, c1, consumed, read, k) < modulus(),
    decreases k,
{
    if k > 0 {
        lemma_trace_fingerprint_bound(c0, c1, consumed, read, k - 1);
    }
}

/// Completeness of the fingerprint argument. When every consuming step
/// among the first `k` reads the symbol that the sequence holds at the
/// cursor, the product over those steps is the product over the part of
/// the sequence that the cursor has passed.
pub proof fn lemma_honest_reads_agree(
    c0: nat,
    c1: nat,
    symbols: Seq<usize>,
    consumed: Seq<bool>,
    read: Seq<usize>,
    k: int,
)
    requires
        0 <= k <= consumed.len(),
        consumed.len() == read.len(),
        count_true(consumed, k) <= symbols.len(),
        forall|i: int|
            0 <= i < k && #[trigger] consumed[i] ==> read[i] == read_at(
                symbols,
                count_true(consumed, i),
            ),
    ensures
        trace_fingerprint(c0, c1, consumed, read, k) == full_fingerprint(
            c0,
            c1,
            symbols.take(count_true(consumed, k) as int),
        ),
    decreases k,
{
    if k > 0 {
        let before = count_true(consumed, k - 1);
        lemma_honest_reads_agree(c0, c1, symbols, consumed, read, k - 1);
        lemma_trace_fingerprint_bound(c0, c1, consumed, read, k - 1);
        let prev = trace_fingerprint(c0, c1, consumed, read, k - 1);
        if consumed[k - 1] {
            let passed = symbols.take((before + 1) as int);
            assert(passed.drop_last() =~= symbols.take(before as int));
            assert(passed.last() == symbols[before as int]);
        } else {
            assert(prev * 1 == prev) by (nonlinear_arith);
            lemma_small_mod(prev, modulus());
        }
    }
}

/// Two different symbols have different fingerprints at the same position.
pub proof fn lemma_term_tells_symbols_apart(c0: nat, c1: nat, a: nat, b: nat, index: nat)
    requires
        a < modulus(),
        b < modulus(),
        a != b,
    ensures
        term(c0, c1, a, index) != term(c0, c1, b, index),
{
    let base = c0 + index * c1;
    let x = (base + a) as int;
    let y = (base + b) as int;
    let m = modulus() as int;
    lemma_fundamental_div_mod(x, m);
    lemma_fundamental_div_mod(y, m);
    if x % m == y % m {
        assert(x - y == m * (x / m) - m * (y / m));
        assert(m * (x / m) - m * (y / m) == m * (x / m - y / m)) by (nonlinear_arith);
        let q = x / m - y / m;
        assert(x - y == m * q);
        assert(q == 0) by (nonlinear_arith)
            requires
                -m < m * q < m,
                m > 0,
        ;
    }
}

/// The product over the first `k` steps of a trace walk, step `skip` left
/// out.
pub open spec fn fingerprint_without(
    c0: nat,
    c1: nat,
    consumed: Seq<bool>,
    read: Seq<usize>,
    k: int,
    skip: int,
) -> nat
    decreases k,
{
    if k <= 0 {
        1
    } else if k - 1 == skip {
        fingerprint_without(c0, c1, consumed, read, k - 1, skip)
    } else {
        field_product(
            fingerprint_without(c0, c1, consumed, read, k - 1, skip),
            select_spec(
                consumed[k - 1],
                term(c0, c1, read[k - 1] as nat, count_true(consumed, k - 1)),
                1,
            ),
        )
    }
}

/// A product of three factors does not depend on the order of the last two.
proof fn lemma_product_swaps(a: nat, b: nat, c: nat)
    ensures
        field_product(field_product(a, b), c) == field_product(field_product(a, c), b),
{
    let m = modulus() as int;
    lemma_mul_mod_noop_general((a * b) as int, c as int, m);
    lemma_mul_mod_noop_general((a * c) as int, b as int, m);
    assert((a * b) * c == (a * c) * b) by (nonlinear_arith);
}

/// A factor of a product comes back when the product is multiplied by the
/// inverse of the rest.
proof fn lemma_product_cancels(rest: nat, inverse: nat, factor: nat)
    requires
        field_product(rest, inverse) == 1,
        factor < modulus(),
    ensures
        field_product(inverse, field_product(rest, factor)) == factor,
{
    let m = modulus() as int;
    lemma_mul_mod_noop_general(inverse as int, (rest * factor) as int, m);
    assert(inverse * (rest * factor) == (rest * inverse) * factor) by (nonlinear_arith);
    lemma_mul_mod_noop_general((rest * inverse) as int, factor as int, m);
    assert(1 * factor == factor) by (nonlinear_arith);
    lemma_small_mod(factor, modulus());
}

/// Leaving out a step that was not reached leaves the product as it is.
proof fn lemma_without_later_step(
    c0: nat,
    c1: nat,
    consumed: Seq<bool>,
    read: Seq<usize>,
    k: int,
    skip: int,
)
    requires
        k <= skip,
    ensures
        fingerprint_without(c0, c1, consumed, read, k, skip) == trace_fingerprint(
            c0,
            c1,
            consumed,
            read,
            k,
        ),
    decreases k,
{
    if k > 0 {
        lemma_without_later_step(c0, c1, consumed, read, k - 1, skip);
    }
}

/// The product over the steps is the product without one step, times the
/// factor of that step.
proof fn lemma_product_splits(
    c0: nat,
    c1: nat,
    consumed: Seq<bool>,
    read: Seq<usize>,
    k: int,
    skip: int,
)
    requires
        0 <= skip < k,
    ensures
        trace_fingerprint(c0, c1, consumed, read, k) == field_product(
            fingerprint_without(c0, c1, consumed, read, k, skip),
            select_spec(
                consumed[skip],
                term(c0, c1, read[skip] as nat, count_true(consumed, skip)),
                1,
            ),
        ),
    decreases k,
{
    if k - 1 == skip {
        lemma_without_later_step(c0, c1, consumed, read, k - 1, skip);
    } else {
        lemma_product_splits(c0, c1, consumed, read, k - 1, skip);
        lemma_product_swaps(
            fingerprint_without(c0, c1, consumed, read, k - 1, skip),
            select_spec(
                consumed[skip],
                term(c0, c1, read[skip] as nat, count_true(consumed, skip)),
                1,
            ),
            select_spec(
                consumed[k - 1],
                term(c0, c1, read[k - 1] as nat, count_true(consumed, k - 1)),
                1,
            ),
        );
    }
}

/// The product without a step does not depend on what that step read.
proof fn lemma_without_ignores_read(
    c0: nat,
    c1: nat,
    consumed: Seq<bool>,
    read: Seq<usize>,
    forged: usize,
    k: int,
    skip: int,
)
    requires
        0 <= skip < read.len(),
        k <= read.len(),
    ensures
        fingerprint_without(c0, c1, consumed, read.update(skip, forged), k, skip)
            == fingerprint_without(c0, c1, consumed, read, k, skip),
    decreases k,
{
    if k > 0 {
        lemma_without_ignores_read(c0, c1, consumed, read, forged, k - 1, skip);
    }
}

/// Soundness of one read. When a step that consumes from the sequence is
/// fed another symbol than before, and the product of the factors of all
/// other steps has an inverse in the field, the product over the steps
/// changes.
pub proof fn lemma_forged_read_changes_product(
    c0: nat,
    c1: nat,
    consumed: Seq<bool>,
    read: Seq<usize>,
    forged: usize,
    k: int,
    step: int,
    inverse: nat,
)
    requires
        0 <= step < k <= read.len(),
        consumed[step],
        read[step] != forged,
        field_product(fingerprint_without(c0, c1, consumed, read, k, step), inverse) == 1,
    ensures
        trace_fingerprint(c0, c1, consumed, read.update(step, forged), k) != trace_fingerprint(
            c0,
            c1,
            consumed,
            read,
            k,
        ),
{
    let rest = fingerprint_without(c0, c1, consumed, read, k, step);
    let cursor = count_true(consumed, step);
    let honest = term(c0, c1, read[step] as nat, cursor);
    let other = term(c0, c1, forged as nat, cursor);
    lemma_product_splits(c0, c1, consumed, read, k, step);
    lemma_product_splits(c0, c1, consumed, read.update(step, forged), k, step);
    lemma_without_ignores_read(c0, c1, consumed, read, forged, k, step);
    lemma_term_tells_symbols_apart(c0, c1, read[step] as nat, forged as nat, cursor);
    lemma_product_cancels(rest, inverse, honest);
    lemma_product_cancels(rest, inverse, other);
}

} // verus!
