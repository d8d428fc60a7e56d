//! The claim written out gate by gate: witnesses for the blocks, the
//! commitments and challenges, the decoding of every block, the two
//! fingerprints of either sequence, the walk over the trace, and the
//! equations at the end.

use crate::bits::{lemma_padding_bits, lemma_symbol_bits};
use crate::circuit::AlignmentCircuit;
use crate::encoding::{
    block_limit, blocks_padded, decode_spec, lemma_decode_index, lemma_decode_len, unpack,
    valid_symbols,
};
use crate::field::{felt_values, felts_wf, field_product, modulus, usize_to_felt, Felt};
use crate::memcheck::{full_fingerprint, select_spec, term, trace_fingerprint};
use crate::program::{bit_value, bits_of, indices_below, picked, Program};
use crate::sponge::SpongeParams;
use crate::trace::{
    consumes_reference, consumes_target, cost_steps, costs, count_true, is_step,
    lemma_count_bound, match_holds, matches_enforced, reads, reference_steps, target_steps,
    trace_score, valid_trace, TraceState,
};
use vstd::arithmetic::div_mod::{lemma_add_mod_noop, lemma_small_mod};
use vstd::prelude::*;

verus! {

/// The fingerprint of one symbol at one position, as three gates.
pub fn emit_term(p: &mut Program, c0: usize, c1: usize, value: usize, index: usize) -> (t: usize)
    requires
        old(p).wf(),
        old(p).wires <= usize::MAX - 3,
        c0 < old(p).wires,
        c1 < old(p).wires,
        value < old(p).wires,
        index < old(p).wires,
    ensures
        final(p).wf(),
        final(p).follows(*old(p)),
        final(p).inputs() == old(p).inputs(),
        t < final(p).wires,
        final(p).wires == old(p).wires + 3,
        final(p).flags == old(p).flags,
        final(p).holds() == old(p).holds(),
        final(p).wire(t) == term(
            old(p).wire(c0),
            old(p).wire(c1),
            old(p).wire(value),
            old(p).wire(index),
        ),
{
    let ghost v0 = p.wire(c0);
    let ghost v1 = p.wire(c1);
    let ghost vv = p.wire(value);
    let ghost vi = p.wire(index);
    let shifted = p.sum(c0, value);
    let scaled = p.product(index, c1);
    let t = p.sum(shifted, scaled);
    proof {
        lemma_add_mod_noop((v0 + vv) as int, (vi * v1) as int, modulus() as int);
    }
    t
}

/// The 125 symbols of one block, from its bits, and the request that its
/// five padding bits be zero.
pub fn emit_decode(p: &mut Program, block: usize, two: usize) -> (symbols: Vec<usize>)
    requires
        old(p).wf(),
        block < old(p).wires,
        two < old(p).wires,
        old(p).wire(two) == 2,
        old(p).wire(block) < modulus(),
        old(p).wires <= usize::MAX - 500,
        old(p).flags <= usize::MAX - 255,
    ensures
        final(p).wf(),
        final(p).follows(*old(p)),
        final(p).inputs() == old(p).inputs(),
        final(p).wires == old(p).wires + 500,
        final(p).flags == old(p).flags + 255,
        final(p).holds() == (old(p).holds() && old(p).wire(block) < block_limit()),
        symbols.len() == 125,
        forall|j: int|
            0 <= j < 125 ==> #[trigger] symbols[j] < final(p).wires && final(p).wire(symbols[j])
                == unpack(old(p).wire(block), 125)[j],
{
    let ghost start = *p;
    let ghost v = p.wire(block);
    let x = p.bits(block);
    let mut symbols: Vec<usize> = Vec::new();
    let mut j: usize = 0;
    while j < 125
        invariant
            j <= 125,
            p.wf(),
            p.follows(start),
            p.inputs() == start.inputs(),
            start.wf(),
            two < start.wires,
            start.wire(two) == 2,
            p.wires == start.wires + 4 * j,
            p.flags == start.flags + 255,
            start.wires <= usize::MAX - 500,
            x == start.flags,
            p.holds() == start.holds(),
            forall|k: int| 0 <= k < 255 ==> p.state().flags[x + k] == bits_of(v, 255)[k],
            symbols.len() == j,
            forall|i: int|
                0 <= i < j ==> #[trigger] symbols[i] < p.wires && p.wire(symbols[i]) == unpack(
                    v,
                    125,
                )[i],
        decreases 125 - j,
    {
        let ghost before = *p;
        let low = p.lift(x + 2 * j);
        let high = p.lift(x + 2 * j + 1);
        let twice = p.product(two, high);
        let symbol = p.sum(low, twice);
        proof {
            lemma_symbol_bits(v, j as int);
            let b0 = bits_of(v, 255)[2 * j];
            let b1 = bits_of(v, 255)[2 * j + 1];
            assert(before.state().flags[x + 2 * j] == b0);
            assert(before.state().flags[x + (2 * j + 1)] == b1);
            lemma_small_mod(2 * bit_value(b1), modulus());
            lemma_small_mod(
                bit_value(b0) + 2 * bit_value(b1),
                modulus(),
            );
            assert(p.wire(symbol) == unpack(v, 125)[j as int]);
        }
        symbols.push(symbol);
        j = j + 1;
    }
    let mut k: usize = 250;
    while k < 255
        invariant
            250 <= k <= 255,
            p.wf(),
            p.follows(start),
            p.inputs() == start.inputs(),
            p.wires == start.wires + 500,
            p.flags == start.flags + 255,
            x == start.flags,
            p.holds() == (start.holds() && forall|i: int| 250 <= i < k ==> !bits_of(v, 255)[i]),
            forall|i: int| 0 <= i < 255 ==> p.state().flags[x + i] == bits_of(v, 255)[i],
            symbols.len() == 125,
            forall|i: int|
                0 <= i < 125 ==> #[trigger] symbols[i] < p.wires && p.wire(symbols[i]) == unpack(
                    v,
                    125,
                )[i],
        decreases 255 - k,
    {
        let ghost before = *p;
        assert(before.state().flags[x + k] == bits_of(v, 255)[k as int]);
        p.enforce_flag(x + k, false);
        k = k + 1;
    }
    proof {
        lemma_padding_bits(v);
    }
    symbols
}

/// The symbols of a block sequence, 125 from each block, and the request
/// that every block be well padded.
pub fn emit_decode_all(p: &mut Program, blocks: &Vec<usize>, two: usize) -> (symbols: Vec<usize>)
    requires
        old(p).wf(),
        indices_below(blocks@, old(p).wires as nat),
        forall|i: int| 0 <= i < blocks.len() ==> old(p).wire(#[trigger] blocks[i]) < modulus(),
        two < old(p).wires,
        old(p).wire(two) == 2,
        old(p).wires + 500 * blocks.len() <= usize::MAX,
        old(p).flags + 255 * blocks.len() <= usize::MAX,
    ensures
        final(p).wf(),
        final(p).follows(*old(p)),
        final(p).inputs() == old(p).inputs(),
        final(p).wires == old(p).wires + 500 * blocks.len(),
        final(p).flags == old(p).flags + 255 * blocks.len(),
        final(p).holds() == (old(p).holds() && blocks_padded(
            picked(old(p).state().wires, blocks@),
        )),
        symbols.len() == 125 * blocks.len(),
        forall|i: int|
            0 <= i < symbols.len() ==> #[trigger] symbols[i] < final(p).wires && final(p).wire(
                symbols[i],
            ) == decode_spec(picked(old(p).state().wires, blocks@))[i],
{
    let ghost start = *p;
    let ghost values = picked(start.state().wires, blocks@);
    let mut symbols: Vec<usize> = Vec::new();
    let mut b: usize = 0;
    while b < blocks.len()
        invariant
            b <= blocks.len(),
            p.wf(),
            p.follows(start),
            p.inputs() == start.inputs(),
            start.wf(),
            values == picked(start.state().wires, blocks@),
            indices_below(blocks@, start.wires as nat),
            forall|i: int| 0 <= i < blocks.len() ==> start.wire(#[trigger] blocks[i]) < modulus(),
            two < start.wires,
            start.wire(two) == 2,
            start.wires + 500 * blocks.len() <= usize::MAX,
            start.flags + 255 * blocks.len() <= usize::MAX,
            p.wires == start.wires + 500 * b,
            p.flags == start.flags + 255 * b,
            p.holds() == (start.holds() && forall|i: int| 0 <= i < b ==> values[i] < block_limit()),
            symbols.len() == 125 * b,
            forall|i: int|
                0 <= i < symbols.len() ==> #[trigger] symbols[i] < p.wires && p.wire(symbols[i])
                    == unpack(values[i / 125], 125)[i % 125],
        decreases blocks.len() - b,
    {
        let ghost before = *p;
        let ghost earlier = symbols@;
        assert(blocks[b as int] < start.wires);
        assert(before.wire(blocks[b as int]) == values[b as int]);
        let mut part = emit_decode(p, blocks[b], two);
        proof {
            assert forall|i: int| 0 <= i < earlier.len() implies #[trigger] earlier[i] < p.wires
                && p.wire(earlier[i]) == unpack(values[i / 125], 125)[i % 125] by {
                assert(earlier[i] < before.wires);
            }
        }
        symbols.append(&mut part);
        b = b + 1;
    }
    proof {
        assert forall|i: int| 0 <= i < symbols.len() implies p.wire(#[trigger] symbols[i])
            == decode_spec(values)[i] by {
            lemma_decode_index(values, i);
        }
    }
    symbols
}

/// The product of the fingerprints of the first `count` symbols.
pub fn emit_full_product(
    p: &mut Program,
    c0: usize,
    c1: usize,
    symbols: &Vec<usize>,
    count: usize,
) -> (product: usize)
    requires
        old(p).wf(),
        c0 < old(p).wires,
        c1 < old(p).wires,
        count <= symbols.len(),
        indices_below(symbols@, old(p).wires as nat),
        forall|i: int| 0 <= i < count ==> old(p).wire(#[trigger] symbols[i]) < 4,
        old(p).wires + 5 * count + 1 <= usize::MAX,
    ensures
        final(p).wf(),
        final(p).follows(*old(p)),
        final(p).inputs() == old(p).inputs(),
        final(p).wires == old(p).wires + 5 * count + 1,
        final(p).flags == old(p).flags,
        final(p).holds() == old(p).holds(),
        product < final(p).wires,
        final(p).wire(product) == full_fingerprint(
            old(p).wire(c0),
            old(p).wire(c1),
            symbol_values(picked(old(p).state().wires, symbols@)).take(count as int),
        ),
{
    let ghost start = *p;
    let ghost values = symbol_values(picked(start.state().wires, symbols@));
    let mut product = p.constant(Felt::one());
    let mut i: usize = 0;
    while i < count
        invariant
            i <= count <= symbols.len(),
            p.wf(),
            p.follows(start),
            p.inputs() == start.inputs(),
            start.wf(),
            c0 < start.wires,
            c1 < start.wires,
            indices_below(symbols@, start.wires as nat),
            forall|k: int| 0 <= k < count ==> start.wire(#[trigger] symbols[k]) < 4,
            values == symbol_values(picked(start.state().wires, symbols@)),
            start.wires + 5 * count + 1 <= usize::MAX,
            p.wires == start.wires + 5 * i + 1,
            p.flags == start.flags,
            p.holds() == start.holds(),
            product < p.wires,
            p.wire(product) == full_fingerprint(
                start.wire(c0),
                start.wire(c1),
                values.take(i as int),
            ),
        decreases count - i,
    {
        let ghost before = *p;
        assert(symbols[i as int] < start.wires);
        let position = p.constant(Felt::from_u64(i as u64));
        let factor = emit_term(p, c0, c1, symbols[i], position);
        product = p.product(product, factor);
        proof {
            assert(values.take(i + 1).drop_last() =~= values.take(i as int));
            assert(start.wire(symbols[i as int]) < 4);
            assert(values.take(i + 1).last() == start.wire(symbols[i as int]));
        }
        i = i + 1;
    }
    product
}

/// Numbers as symbols.
pub open spec fn symbol_values(values: Seq<nat>) -> Seq<usize> {
    Seq::new(values.len(), |i: int| values[i] as usize)
}

/// The variables that every step of the walk uses: the constants zero, one
/// and two, and the two challenges.
pub struct SharedWires {
    pub zero: usize,
    pub one: usize,
    pub two: usize,
    pub c0: usize,
    pub c1: usize,
}

/// The variables that the walk carries from step to step.
pub struct WalkWires {
    pub reference_index: usize,
    pub target_index: usize,
    pub reference_product: usize,
    pub target_product: usize,
    pub score: usize,
}

impl SharedWires {
    /// The variables exist and the constants have their values.
    pub open spec fn valid(&self, p: Program) -> bool {
        &&& self.zero < p.wires
        &&& self.one < p.wires
        &&& self.two < p.wires
        &&& self.c0 < p.wires
        &&& self.c1 < p.wires
        &&& p.wire(self.zero) == 0
        &&& p.wire(self.one) == 1
        &&& p.wire(self.two) == 2
    }
}

impl WalkWires {
    /// The variables exist.
    pub open spec fn valid(&self, p: Program) -> bool {
        &&& self.reference_index < p.wires
        &&& self.target_index < p.wires
        &&& self.reference_product < p.wires
        &&& self.target_product < p.wires
        &&& self.score < p.wires
    }
}

/// The variables that say of what kind a step is.
pub struct StepKind {
    /// Boolean variables: the step is a match, an insertion, a deletion.
    pub is_match: usize,
    pub is_insertion: usize,
    pub is_deletion: usize,
    /// The same three as field variables, zero or one.
    pub matched: usize,
    pub inserted: usize,
    pub deleted: usize,
    /// What the step adds to the score.
    pub cost: usize,
}

impl StepKind {
    /// The variables exist and say of what kind the symbol is.
    pub open spec fn classifies(&self, p: Program, symbol: usize) -> bool {
        &&& self.is_match < p.flags
        &&& self.is_insertion < p.flags
        &&& self.is_deletion < p.flags
        &&& self.matched < p.wires
        &&& self.inserted < p.wires
        &&& self.deleted < p.wires
        &&& self.cost < p.wires
        &&& p.flag(self.is_match) == (symbol == 0)
        &&& p.flag(self.is_insertion) == (symbol == 1)
        &&& p.flag(self.is_deletion) == (symbol == 2)
        &&& p.wire(self.matched) == bit_value(symbol == 0)
        &&& p.wire(self.inserted) == bit_value(symbol == 1)
        &&& p.wire(self.deleted) == bit_value(symbol == 2)
        &&& p.wire(self.cost) == bit_value(costs(symbol))
    }
}

/// Classifies a step by three comparisons and asks that it be exactly one
/// of match, insertion and deletion.
pub fn emit_classify(p: &mut Program, shared: &SharedWires, kind: usize) -> (k: StepKind)
    requires
        old(p).wf(),
        shared.valid(*old(p)),
        kind < old(p).wires,
        old(p).wire(kind) < 4,
        old(p).wires <= usize::MAX - 5,
        old(p).flags <= usize::MAX - 3,
    ensures
        final(p).wf(),
        final(p).follows(*old(p)),
        final(p).inputs() == old(p).inputs(),
        final(p).wires == old(p).wires + 5,
        final(p).flags == old(p).flags + 3,
        k.classifies(*final(p), old(p).wire(kind) as usize),
        final(p).holds() == (old(p).holds() && is_step(old(p).wire(kind) as usize)),
{
    let ghost symbol = p.wire(kind) as usize;
    let is_match = p.is_equal(kind, shared.zero);
    let is_insertion = p.is_equal(kind, shared.one);
    let is_deletion = p.is_equal(kind, shared.two);
    let deleted = p.lift(is_deletion);
    let inserted = p.lift(is_insertion);
    let cost = p.sum(deleted, inserted);
    let matched = p.lift(is_match);
    let kinds = p.sum(cost, matched);
    proof {
        lemma_small_mod(bit_value(symbol == 2) + bit_value(symbol == 1), modulus());
        lemma_small_mod(
            bit_value(symbol == 2) + bit_value(symbol == 1) + bit_value(symbol == 0),
            modulus(),
        );
    }
    p.enforce_equal(kinds, shared.one);
    StepKind { is_match, is_insertion, is_deletion, matched, inserted, deleted, cost }
}

/// Asks that the two symbols read be equal unless the step is no match.
pub fn emit_match_rule(p: &mut Program, is_match: usize, reference_value: usize, target_value: usize)
    requires
        old(p).wf(),
        is_match < old(p).flags,
        reference_value < old(p).wires,
        target_value < old(p).wires,
        old(p).flags <= usize::MAX - 3,
    ensures
        final(p).wf(),
        final(p).follows(*old(p)),
        final(p).inputs() == old(p).inputs(),
        final(p).wires == old(p).wires,
        final(p).flags == old(p).flags + 3,
        final(p).holds() == (old(p).holds() && (!old(p).flag(is_match) || old(p).wire(
            reference_value,
        ) == old(p).wire(target_value))),
{
    let same = p.is_equal(target_value, reference_value);
    let no_match = p.not(is_match);
    let allowed = p.or(no_match, same);
    p.enforce_flag(allowed, true);
}

/// Multiplies a product by the fingerprint of a symbol at a position
/// where one of two flags is set, and by one where neither is.
pub fn emit_factor(
    p: &mut Program,
    shared: &SharedWires,
    either: usize,
    or: usize,
    value: usize,
    index: usize,
    product: usize,
) -> (next: usize)
    requires
        old(p).wf(),
        shared.valid(*old(p)),
        either < old(p).flags,
        or < old(p).flags,
        value < old(p).wires,
        index < old(p).wires,
        product < old(p).wires,
        old(p).wires <= usize::MAX - 5,
        old(p).flags < usize::MAX,
    ensures
        final(p).wf(),
        final(p).follows(*old(p)),
        final(p).inputs() == old(p).inputs(),
        final(p).wires == old(p).wires + 5,
        final(p).flags == old(p).flags + 1,
        final(p).holds() == old(p).holds(),
        next < final(p).wires,
        final(p).wire(next) == field_product(
            old(p).wire(product),
            select_spec(
                old(p).flag(either) || old(p).flag(or),
                term(
                    old(p).wire(shared.c0),
                    old(p).wire(shared.c1),
                    old(p).wire(value),
                    old(p).wire(index),
                ),
                1,
            ),
        ),
{
    let consumed = p.or(either, or);
    let fingerprint = emit_term(p, shared.c0, shared.c1, value, index);
    let factor = p.select(consumed, fingerprint, shared.one);
    p.product(product, factor)
}

/// Moves a counter on by two field variables that are zero or one.
pub fn emit_advance(p: &mut Program, counter: usize, first: usize, second: usize) -> (next: usize)
    requires
        old(p).wf(),
        counter < old(p).wires,
        first < old(p).wires,
        second < old(p).wires,
        old(p).wire(counter) < 0x1_0000_0000_0000_0000,
        old(p).wire(first) <= 1,
        old(p).wire(second) <= 1,
        old(p).wires <= usize::MAX - 2,
    ensures
        final(p).wf(),
        final(p).follows(*old(p)),
        final(p).inputs() == old(p).inputs(),
        final(p).wires == old(p).wires + 2,
        final(p).flags == old(p).flags,
        final(p).holds() == old(p).holds(),
        next < final(p).wires,
        final(p).wire(next) == old(p).wire(counter) + old(p).wire(first) + old(p).wire(second),
{
    let ghost c = p.wire(counter);
    let ghost a = p.wire(first);
    let ghost b = p.wire(second);
    let step = p.sum(first, second);
    let next = p.sum(counter, step);
    proof {
        lemma_small_mod(a + b, modulus());
        lemma_small_mod(c + a + b, modulus());
    }
    next
}

/// One step of the walk. The step is classified and has to be exactly one
/// of the three kinds; the score grows by one at an insertion or deletion;
/// the two symbols read enter as private variables and have to be equal
/// at a match; either product takes up the fingerprint of its symbol where
/// the step consumes it; the cursors move.
#[verifier::rlimit(60)]
pub fn emit_step(
    p: &mut Program,
    shared: &SharedWires,
    at: &WalkWires,
    kind: usize,
    reference_read: usize,
    target_read: usize,
) -> (next: WalkWires)
    requires
        old(p).wf(),
        shared.valid(*old(p)),
        at.valid(*old(p)),
        kind < old(p).wires,
        old(p).wire(kind) < 4,
        reference_read < 4,
        target_read < 4,
        old(p).wire(at.reference_index) < 0x1_0000_0000_0000_0000,
        old(p).wire(at.target_index) < 0x1_0000_0000_0000_0000,
        old(p).wire(at.score) < 0x1_0000_0000_0000_0000,
        old(p).wires <= usize::MAX - 22,
        old(p).flags <= usize::MAX - 8,
    ensures
        final(p).wf(),
        final(p).follows(*old(p)),
        final(p).inputs() == old(p).inputs(),
        final(p).wires == old(p).wires + 22,
        final(p).flags == old(p).flags + 8,
        next.valid(*final(p)),
        final(p).wire(next.reference_index) == old(p).wire(at.reference_index) + bit_value(
            consumes_reference(old(p).wire(kind) as usize),
        ),
        final(p).wire(next.target_index) == old(p).wire(at.target_index) + bit_value(
            consumes_target(old(p).wire(kind) as usize),
        ),
        final(p).wire(next.score) == old(p).wire(at.score) + bit_value(
            costs(old(p).wire(kind) as usize),
        ),
        final(p).wire(next.reference_product) == field_product(
            old(p).wire(at.reference_product),
            select_spec(
                consumes_reference(old(p).wire(kind) as usize),
                term(
                    old(p).wire(shared.c0),
                    old(p).wire(shared.c1),
                    reference_read as nat,
                    old(p).wire(at.reference_index),
                ),
                1,
            ),
        ),
        final(p).wire(next.target_product) == field_product(
            old(p).wire(at.target_product),
            select_spec(
                consumes_target(old(p).wire(kind) as usize),
                term(
                    old(p).wire(shared.c0),
                    old(p).wire(shared.c1),
                    target_read as nat,
                    old(p).wire(at.target_index),
                ),
                1,
            ),
        ),
        final(p).holds() == (old(p).holds() && is_step(old(p).wire(kind) as usize) && match_holds(
            old(p).wire(kind) as usize,
            reference_read,
            target_read,
        )),
{
    let ghost start = *p;
    let ghost symbol = p.wire(kind) as usize;
    let k = emit_classify(p, shared, kind);
    let ghost s1 = *p;
    let score = p.sum(at.score, k.cost);
    proof {
        lemma_small_mod(start.wire(at.score) + bit_value(costs(symbol)), modulus());
    }
    let ghost s2 = *p;
    let target_value = p.witness(usize_to_felt(target_read));
    let reference_value = p.witness(usize_to_felt(reference_read));
    let ghost s3 = *p;
    assert(k.classifies(s3, symbol));
    emit_match_rule(p, k.is_match, reference_value, target_value);
    let ghost s4 = *p;
    assert(k.classifies(s4, symbol));
    assert(shared.valid(s4));
    assert(s4.wire(at.target_index) == start.wire(at.target_index));
    assert(s4.wire(at.target_product) == start.wire(at.target_product));
    let target_product = emit_factor(
        p,
        shared,
        k.is_match,
        k.is_insertion,
        target_value,
        at.target_index,
        at.target_product,
    );
    let ghost s5 = *p;
    assert(k.classifies(s5, symbol));
    assert(shared.valid(s5));
    assert(s5.wire(at.reference_index) == start.wire(at.reference_index));
    assert(s5.wire(at.reference_product) == start.wire(at.reference_product));
    assert(s5.wire(reference_value) == reference_read);
    let reference_product = emit_factor(
        p,
        shared,
        k.is_match,
        k.is_deletion,
        reference_value,
        at.reference_index,
        at.reference_product,
    );
    let ghost s6 = *p;
    assert(k.classifies(s6, symbol));
    assert(s6.wire(at.target_index) == start.wire(at.target_index));
    let target_index = emit_advance(p, at.target_index, k.matched, k.inserted);
    let ghost s7 = *p;
    assert(k.classifies(s7, symbol));
    assert(s7.wire(at.reference_index) == start.wire(at.reference_index));
    let reference_index = emit_advance(p, at.reference_index, k.matched, k.deleted);
    let ghost s8 = *p;
    assert(s8.wire(score) == s2.wire(score));
    assert(s8.wire(target_product) == s5.wire(target_product));
    assert(s8.wire(reference_product) == s6.wire(reference_product));
    assert(s8.wire(target_index) == s7.wire(target_index));
    WalkWires { reference_index, target_index, reference_product, target_product, score }
}

/// The walk over the trace, one step after another. The steps are
/// classified by the variables in `kinds`; the positions that are read
/// follow `moves`.
pub fn emit_walk(
    p: &mut Program,
    shared: &SharedWires,
    from: WalkWires,
    kinds: &Vec<usize>,
    moves: &Vec<usize>,
    reference_bases: &Vec<usize>,
    target_bases: &Vec<usize>,
) -> (last: WalkWires)
    requires
        old(p).wf(),
        shared.valid(*old(p)),
        from.valid(*old(p)),
        old(p).wire(from.reference_index) == 0,
        old(p).wire(from.target_index) == 0,
        old(p).wire(from.score) == 0,
        old(p).wire(from.reference_product) == 1,
        old(p).wire(from.target_product) == 1,
        moves.len() <= kinds.len(),
        indices_below(kinds@, old(p).wires as nat),
        forall|i: int| 0 <= i < kinds.len() ==> old(p).wire(#[trigger] kinds[i]) < 4,
        valid_trace(moves@),
        valid_symbols(reference_bases@),
        valid_symbols(target_bases@),
        old(p).wires + 22 * moves.len() <= usize::MAX,
        old(p).flags + 8 * moves.len() <= usize::MAX,
    ensures
        final(p).wf(),
        final(p).follows(*old(p)),
        final(p).inputs() == old(p).inputs(),
        final(p).wires == old(p).wires + 22 * moves.len(),
        final(p).flags == old(p).flags + 8 * moves.len(),
        last.valid(*final(p)),
        final(p).holds() == (old(p).holds() && valid_trace(walked(*old(p), kinds@, moves@))
            && matches_enforced(
            walked(*old(p), kinds@, moves@),
            reads(reference_steps(moves@), reference_bases@),
            reads(target_steps(moves@), target_bases@),
        )),
        final(p).wire(last.reference_product) == trace_fingerprint(
            old(p).wire(shared.c0),
            old(p).wire(shared.c1),
            reference_steps(walked(*old(p), kinds@, moves@)),
            reads(reference_steps(moves@), reference_bases@),
            moves.len() as int,
        ),
        final(p).wire(last.target_product) == trace_fingerprint(
            old(p).wire(shared.c0),
            old(p).wire(shared.c1),
            target_steps(walked(*old(p), kinds@, moves@)),
            reads(target_steps(moves@), target_bases@),
            moves.len() as int,
        ),
        final(p).wire(last.score) == trace_score(walked(*old(p), kinds@, moves@)),
{
    let ghost start = *p;
    let steps: usize = moves.len();
    let ghost trace = walked(start, kinds@, moves@);
    let ghost rr = reads(reference_steps(moves@), reference_bases@);
    let ghost tr = reads(target_steps(moves@), target_bases@);
    let ghost v0 = start.wire(shared.c0);
    let ghost v1 = start.wire(shared.c1);
    let mut plain = TraceState::start();
    let mut at = from;
    let mut i: usize = 0;
    while i < steps
        invariant
            i <= steps,
            steps == moves.len(),
            steps <= kinds.len(),
            p.wf(),
            p.follows(start),
            p.inputs() == start.inputs(),
            start.wf(),
            shared.valid(start),
            shared.valid(*p),
            at.valid(*p),
            v0 == start.wire(shared.c0),
            v1 == start.wire(shared.c1),
            trace == walked(start, kinds@, moves@),
            rr == reads(reference_steps(moves@), reference_bases@),
            tr == reads(target_steps(moves@), target_bases@),
            indices_below(kinds@, start.wires as nat),
            forall|k: int| 0 <= k < kinds.len() ==> start.wire(#[trigger] kinds[k]) < 4,
            valid_trace(moves@),
            valid_symbols(reference_bases@),
            valid_symbols(target_bases@),
            start.wires + 22 * steps <= usize::MAX,
            start.flags + 8 * steps <= usize::MAX,
            p.wires == start.wires + 22 * i,
            p.flags == start.flags + 8 * i,
            plain.reference_index == count_true(reference_steps(moves@), i as int),
            plain.target_index == count_true(target_steps(moves@), i as int),
            plain.score == count_true(cost_steps(moves@), i as int),
            p.wire(at.reference_index) == count_true(reference_steps(trace), i as int),
            p.wire(at.target_index) == count_true(target_steps(trace), i as int),
            p.wire(at.score) == count_true(cost_steps(trace), i as int),
            p.wire(at.reference_product) == trace_fingerprint(
                v0,
                v1,
                reference_steps(trace),
                rr,
                i as int,
            ),
            p.wire(at.target_product) == trace_fingerprint(
                v0,
                v1,
                target_steps(trace),
                tr,
                i as int,
            ),
            p.holds() == (start.holds() && (forall|k: int|
                0 <= k < i ==> is_step(#[trigger] trace[k])) && (forall|k: int|
                0 <= k < i ==> match_holds(#[trigger] trace[k], rr[k], tr[k]))),
        decreases steps - i,
    {
        proof {
            lemma_count_bound(reference_steps(moves@), i as int);
            lemma_count_bound(target_steps(moves@), i as int);
            lemma_count_bound(cost_steps(moves@), i as int);
            lemma_count_bound(reference_steps(trace), i as int);
            lemma_count_bound(target_steps(trace), i as int);
            lemma_count_bound(cost_steps(trace), i as int);
        }
        let ghost before = *p;
        let reference_read: usize = if plain.reference_index < reference_bases.len() {
            reference_bases[plain.reference_index]
        } else {
            0
        };
        let target_read: usize = if plain.target_index < target_bases.len() {
            target_bases[plain.target_index]
        } else {
            0
        };
        assert(kinds[i as int] < start.wires);
        assert(before.wire(kinds[i as int]) == start.wire(kinds[i as int]));
        assert(trace[i as int] == start.wire(kinds[i as int]) as usize);
        assert(rr[i as int] == reference_read);
        assert(tr[i as int] == target_read);
        assert(before.wire(shared.c0) == v0);
        assert(before.wire(shared.c1) == v1);
        at = emit_step(p, shared, &at, kinds[i], reference_read, target_read);
        plain = plain.advance(moves[i]);
        i = i + 1;
    }
    at
}

/// The steps that the walk classifies: the values of the first variables
/// in `kinds`, one for each move.
pub open spec fn walked(p: Program, kinds: Seq<usize>, moves: Seq<usize>) -> Seq<usize> {
    symbol_values(picked(p.state().wires, kinds)).take(moves.len() as int)
}

/// One private variable for each field element.
pub fn emit_witnesses(p: &mut Program, values: &Vec<Felt>) -> (wires: Vec<usize>)
    requires
        old(p).wf(),
        felts_wf(values@),
        old(p).wires + values.len() <= usize::MAX,
    ensures
        final(p).wf(),
        final(p).follows(*old(p)),
        final(p).inputs() == old(p).inputs(),
        final(p).wires == old(p).wires + values.len(),
        final(p).flags == old(p).flags,
        final(p).holds() == old(p).holds(),
        wires.len() == values.len(),
        indices_below(wires@, final(p).wires as nat),
        picked(final(p).state().wires, wires@) == felt_values(values@),
{
    let ghost start = *p;
    let mut wires: Vec<usize> = Vec::new();
    let mut i: usize = 0;
    while i < values.len()
        invariant
            i <= values.len(),
            p.wf(),
            p.follows(start),
            p.inputs() == start.inputs(),
            felts_wf(values@),
            start.wires + values.len() <= usize::MAX,
            p.wires == start.wires + i,
            p.flags == start.flags,
            p.holds() == start.holds(),
            wires.len() == i,
            forall|k: int|
                0 <= k < i ==> #[trigger] wires[k] < p.wires && p.wire(wires[k]) == values@[k]@,
        decreases values.len() - i,
    {
        let w = p.witness(values[i]);
        wires.push(w);
        i = i + 1;
    }
    assert(picked(p.state().wires, wires@) =~= felt_values(values@));
    wires
}

/// The variables listed exist in the program and have the given values.
pub open spec fn carries(p: Program, wires: Seq<usize>, values: Seq<nat>) -> bool {
    &&& wires.len() == values.len()
    &&& indices_below(wires, p.wires as nat)
    &&& picked(p.state().wires, wires) == values
}

/// What a program carries, a program that follows it carries too.
pub proof fn lemma_carries_on(later: Program, earlier: Program, wires: Seq<usize>, values: Seq<nat>)
    requires
        earlier.wf(),
        later.wf(),
        later.follows(earlier),
        carries(earlier, wires, values),
    ensures
        carries(later, wires, values),
{
    assert(picked(later.state().wires, wires) =~= picked(earlier.state().wires, wires));
}

/// The block variables of the three sequences.
pub struct BlockWires {
    pub reference: Vec<usize>,
    pub target: Vec<usize>,
    pub trace: Vec<usize>,
}

/// The symbol variables of the three sequences.
pub struct SymbolWires {
    pub reference: Vec<usize>,
    pub target: Vec<usize>,
    pub trace: Vec<usize>,
}

impl AlignmentCircuit {
    /// How many blocks the three sequences have together.
    pub open spec fn blocks(&self) -> nat {
        (self.reference_sequence_felts.len() + self.target_sequence_felts.len()
            + self.cigar_string_felts.len()) as nat
    }

    /// How many field variables the program of the claim makes.
    pub open spec fn wire_count(&self) -> nat {
        (501 * self.blocks() + 5 * (self.reference_sequence_bases.len()
            + self.target_sequence_bases.len()) + 22 * self.cigar_string_bases.len() + 16) as nat
    }

    /// How many boolean variables the program of the claim makes.
    pub open spec fn flag_count(&self) -> nat {
        (255 * self.blocks() + 8 * self.cigar_string_bases.len()) as nat
    }

    /// The program carries the blocks of the three sequences.
    pub open spec fn blocks_carried(&self, p: Program, b: BlockWires) -> bool {
        &&& carries(p, b.reference@, felt_values(self.reference_sequence_felts@))
        &&& carries(p, b.target@, felt_values(self.target_sequence_felts@))
        &&& carries(p, b.trace@, felt_values(self.cigar_string_felts@))
    }

    /// The program carries the symbols that the blocks of the three
    /// sequences hold.
    pub open spec fn symbols_carried(&self, p: Program, s: SymbolWires) -> bool {
        &&& indices_below(s.reference@, p.wires as nat)
        &&& indices_below(s.target@, p.wires as nat)
        &&& indices_below(s.trace@, p.wires as nat)
        &&& symbol_values(picked(p.state().wires, s.reference@)) == decode_spec(
            felt_values(self.reference_sequence_felts@),
        )
        &&& symbol_values(picked(p.state().wires, s.target@)) == decode_spec(
            felt_values(self.target_sequence_felts@),
        )
        &&& symbol_values(picked(p.state().wires, s.trace@)) == decode_spec(
            felt_values(self.cigar_string_felts@),
        )
        &&& forall|i: int| 0 <= i < s.reference.len() ==> p.wire(#[trigger] s.reference[i]) < 4
        &&& forall|i: int| 0 <= i < s.target.len() ==> p.wire(#[trigger] s.target[i]) < 4
        &&& forall|i: int| 0 <= i < s.trace.len() ==> p.wire(#[trigger] s.trace[i]) < 4
    }

    /// One private variable for each block of the three sequences.
    pub fn emit_blocks(&self, p: &mut Program) -> (b: BlockWires)
        requires
            self.wf(),
            old(p).wf(),
            old(p).wires + self.blocks() <= usize::MAX,
        ensures
            final(p).wf(),
            final(p).follows(*old(p)),
            final(p).inputs() == old(p).inputs(),
        final(p).inputs() == old(p).inputs(),
            final(p).wires == old(p).wires + self.blocks(),
            final(p).flags == old(p).flags,
            final(p).holds() == old(p).holds(),
            self.blocks_carried(*final(p), b),
    {
        let reference = emit_witnesses(p, &self.reference_sequence_felts);
        let ghost s1 = *p;
        let target = emit_witnesses(p, &self.target_sequence_felts);
        let ghost s2 = *p;
        let trace = emit_witnesses(p, &self.cigar_string_felts);
        proof {
            lemma_carries_on(s2, s1, reference@, felt_values(self.reference_sequence_felts@));
            lemma_carries_on(*p, s2, reference@, felt_values(self.reference_sequence_felts@));
            lemma_carries_on(*p, s2, target@, felt_values(self.target_sequence_felts@));
        }
        BlockWires { reference, target, trace }
    }

    /// The three commitments, each from a sponge of its own, and the two
    /// challenges from a fourth sponge that absorbs the commitments. The
    /// first challenge is returned; the second is the variable after it.
    pub fn emit_challenges(&self, p: &mut Program, b: &BlockWires) -> (c0: usize)
        requires
            self.wf(),
            old(p).wf(),
            self.blocks_carried(*old(p), *b),
            old(p).wires + 5 <= usize::MAX,
        ensures
            final(p).wf(),
            final(p).follows(*old(p)),
            final(p).inputs() == old(p).inputs(),
        final(p).inputs() == old(p).inputs(),
            final(p).wires == old(p).wires + 5,
            final(p).flags == old(p).flags,
            final(p).holds() == old(p).holds(),
            c0 + 1 < final(p).wires,
            final(p).wire(c0) == self.challenges(old(p).params).0,
            final(p).wire((c0 + 1) as usize) == self.challenges(old(p).params).1,
    {
        let ghost start = *p;
        let reference_inputs = b.reference.clone();
        let target_inputs = b.target.clone();
        let trace_inputs = b.trace.clone();
        assert(reference_inputs@ == b.reference@);
        assert(target_inputs@ == b.target@);
        assert(trace_inputs@ == b.trace@);
        let reference_hash = p.sponge(reference_inputs, 1);
        let ghost h1 = *p;
        proof {
            lemma_carries_on(h1, start, b.target@, felt_values(self.target_sequence_felts@));
            lemma_carries_on(h1, start, b.trace@, felt_values(self.cigar_string_felts@));
        }
        let target_hash = p.sponge(target_inputs, 1);
        let ghost h2 = *p;
        proof {
            lemma_carries_on(h2, h1, b.trace@, felt_values(self.cigar_string_felts@));
        }
        let trace_hash = p.sponge(trace_inputs, 1);
        let ghost h3 = *p;
        let mut hashes: Vec<usize> = Vec::new();
        hashes.push(reference_hash);
        hashes.push(target_hash);
        hashes.push(trace_hash);
        proof {
            assert(h3.wire(reference_hash) == h1.wire(reference_hash));
            assert(h3.wire(target_hash) == h2.wire(target_hash));
            assert(picked(h3.state().wires, hashes@) =~= seq![
                h3.wire(reference_hash),
                h3.wire(target_hash),
                h3.wire(trace_hash),
            ]);
        }
        p.sponge(hashes, 2)
    }

    /// The symbols of the three sequences, decoded from their blocks, and
    /// the request that every block be well padded.
    pub fn emit_symbols(&self, p: &mut Program, b: &BlockWires, two: usize) -> (s: SymbolWires)
        requires
            self.wf(),
            old(p).wf(),
            self.blocks_carried(*old(p), *b),
            two < old(p).wires,
            old(p).wire(two) == 2,
            old(p).wires + 500 * self.blocks() <= usize::MAX,
            old(p).flags + 255 * self.blocks() <= usize::MAX,
        ensures
            final(p).wf(),
            final(p).follows(*old(p)),
            final(p).inputs() == old(p).inputs(),
        final(p).inputs() == old(p).inputs(),
            final(p).wires == old(p).wires + 500 * self.blocks(),
            final(p).flags == old(p).flags + 255 * self.blocks(),
            final(p).holds() == (old(p).holds() && self.padded()),
            self.symbols_carried(*final(p), s),
    {
        let ghost start = *p;
        let ghost reference_values = felt_values(self.reference_sequence_felts@);
        let ghost target_values = felt_values(self.target_sequence_felts@);
        let ghost trace_values = felt_values(self.cigar_string_felts@);
        proof {
            assert forall|i: int| 0 <= i < b.reference.len() implies start.wire(
                #[trigger] b.reference[i],
            ) < modulus() by {
                assert(picked(start.state().wires, b.reference@)[i] == reference_values[i]);
                assert(self.reference_sequence_felts@[i].wf());
            }
        }
        let reference = emit_decode_all(p, &b.reference, two);
        let ghost s1 = *p;
        proof {
            lemma_carries_on(s1, start, b.target@, target_values);
            lemma_carries_on(s1, start, b.trace@, trace_values);
            assert forall|i: int| 0 <= i < b.target.len() implies s1.wire(#[trigger] b.target[i])
                < modulus() by {
                assert(picked(s1.state().wires, b.target@)[i] == target_values[i]);
                assert(self.target_sequence_felts@[i].wf());
            }
        }
        let target = emit_decode_all(p, &b.target, two);
        let ghost s2 = *p;
        proof {
            lemma_carries_on(s2, s1, b.trace@, trace_values);
            assert forall|i: int| 0 <= i < b.trace.len() implies s2.wire(#[trigger] b.trace[i])
                < modulus() by {
                assert(picked(s2.state().wires, b.trace@)[i] == trace_values[i]);
                assert(self.cigar_string_felts@[i].wf());
            }
        }
        let trace = emit_decode_all(p, &b.trace, two);
        let ghost s3 = *p;
        proof {
            lemma_decode_len(reference_values);
            lemma_decode_len(target_values);
            lemma_decode_len(trace_values);
            assert forall|i: int| 0 <= i < reference.len() implies s3.wire(#[trigger] reference[i])
                == decode_spec(reference_values)[i] by {
                assert(reference[i] < s1.wires);
                assert(s2.wire(reference[i]) == s1.wire(reference[i]));
            }
            assert forall|i: int| 0 <= i < target.len() implies s3.wire(#[trigger] target[i])
                == decode_spec(target_values)[i] by {
                assert(target[i] < s2.wires);
            }
            assert(symbol_values(picked(s3.state().wires, reference@)) =~= decode_spec(
                reference_values,
            ));
            assert(symbol_values(picked(s3.state().wires, target@)) =~= decode_spec(target_values));
            assert(symbol_values(picked(s3.state().wires, trace@)) =~= decode_spec(trace_values));
        }
        SymbolWires { reference, target, trace }
    }

    /// The two fingerprints of either sequence, the walk between them, and
    /// the three equations at the end: either sequence has the fingerprint
    /// of what was read from it, and the claimed score is the accumulated
    /// one.
    #[verifier::rlimit(40)]
    pub fn emit_equations(&self, p: &mut Program, s: &SymbolWires, c0: usize, two: usize)
        requires
            self.wf(),
            old(p).wf(),
            self.symbols_carried(*old(p), *s),
            c0 + 1 < old(p).wires,
            two < old(p).wires,
            old(p).wire(two) == 2,
            old(p).wires + 5 * (self.reference_sequence_bases.len()
                + self.target_sequence_bases.len()) + 22 * self.cigar_string_bases.len() + 10
                <= usize::MAX,
            old(p).flags + 8 * self.cigar_string_bases.len() <= usize::MAX,
        ensures
            final(p).wf(),
            final(p).follows(*old(p)),
            final(p).inputs() == old(p).inputs().push(self.alignment_score as nat),
        final(p).inputs() == old(p).inputs().push(self.alignment_score as nat),
            final(p).wires == old(p).wires + 5 * (self.reference_sequence_bases.len()
                + self.target_sequence_bases.len()) + 22 * self.cigar_string_bases.len() + 10,
            final(p).flags == old(p).flags + 8 * self.cigar_string_bases.len(),
            final(p).holds() == (old(p).holds() && self.equations_hold(
                old(p).wire(c0),
                old(p).wire((c0 + 1) as usize),
            )),
    {
        let ghost start = *p;
        let c1: usize = c0 + 1;
        proof {
            lemma_decode_len(felt_values(self.reference_sequence_felts@));
            lemma_decode_len(felt_values(self.target_sequence_felts@));
            lemma_decode_len(felt_values(self.cigar_string_felts@));
        }
        let target_full = emit_full_product(p, c0, c1, &s.target, self.target_sequence_bases.len());
        let ghost s1 = *p;
        proof {
            assert(symbol_values(picked(s1.state().wires, s.reference@)) =~= symbol_values(
                picked(start.state().wires, s.reference@),
            ));
        }
        let reference_full = emit_full_product(
            p,
            c0,
            c1,
            &s.reference,
            self.reference_sequence_bases.len(),
        );
        let zero = p.constant(Felt::zero());
        let one = p.constant(Felt::one());
        let target_index = p.constant(Felt::zero());
        let reference_index = p.constant(Felt::zero());
        let target_product = p.constant(Felt::one());
        let reference_product = p.constant(Felt::one());
        let score = p.constant(Felt::zero());
        let ghost s2 = *p;
        let shared = SharedWires { zero, one, two, c0, c1 };
        let from = WalkWires {
            reference_index,
            target_index,
            reference_product,
            target_product,
            score,
        };
        proof {
            assert(symbol_values(picked(s2.state().wires, s.trace@)) =~= symbol_values(
                picked(start.state().wires, s.trace@),
            ));
            assert(s2.wire(target_full) == s1.wire(target_full));
        }
        let last = emit_walk(
            p,
            &shared,
            from,
            &s.trace,
            &self.cigar_string_bases,
            &self.reference_sequence_bases,
            &self.target_sequence_bases,
        );
        let ghost s3 = *p;
        proof {
            assert(s3.wire(target_full) == s2.wire(target_full));
            assert(s3.wire(reference_full) == s2.wire(reference_full));
        }
        p.enforce_equal(target_full, last.target_product);
        p.enforce_equal(reference_full, last.reference_product);
        let claimed = p.input(Felt::from_u64(self.alignment_score as u64));
        p.enforce_equal(claimed, last.score);
    }

    /// Writes the claim out as gates at the end of a program. The gates
    /// hold exactly when the claim is satisfied under the challenges drawn
    /// from its own commitments, and the claimed score is the one public
    /// variable among them.
    pub fn generate_constraints(&self, p: &mut Program)
        requires
            self.wf(),
            old(p).wf(),
            old(p).wires + self.wire_count() <= usize::MAX,
            old(p).flags + self.flag_count() <= usize::MAX,
        ensures
            final(p).wf(),
            final(p).follows(*old(p)),
            final(p).inputs() == old(p).inputs().push(self.alignment_score as nat),
        final(p).inputs() == old(p).inputs().push(self.alignment_score as nat),
            final(p).wires == old(p).wires + self.wire_count(),
            final(p).flags == old(p).flags + self.flag_count(),
            final(p).holds() == (old(p).holds() && self.satisfied(old(p).params)),
    {
        let ghost start = *p;
        let blocks = self.emit_blocks(p);
        let ghost s1 = *p;
        let c0 = self.emit_challenges(p, &blocks);
        let two = p.constant(Felt::from_u64(2));
        let ghost s2 = *p;
        proof {
            lemma_carries_on(s2, s1, blocks.reference@, felt_values(self.reference_sequence_felts@));
            lemma_carries_on(s2, s1, blocks.target@, felt_values(self.target_sequence_felts@));
            lemma_carries_on(s2, s1, blocks.trace@, felt_values(self.cigar_string_felts@));
        }
        let symbols = self.emit_symbols(p, &blocks, two);
        self.emit_equations(p, &symbols, c0, two);
    }

    /// Whether the program of the claim can be numbered on this machine
    /// when it is added to a program of the given size.
    pub fn fits(&self, wires: usize, flags: usize) -> (r: bool)
        ensures
            r == (wires + self.wire_count() <= usize::MAX && flags + self.flag_count()
                <= usize::MAX),
    {
        let blocks: u128 = self.reference_sequence_felts.len() as u128
            + self.target_sequence_felts.len() as u128 + self.cigar_string_felts.len() as u128;
        let steps: u128 = self.cigar_string_bases.len() as u128;
        let symbols: u128 = self.reference_sequence_bases.len() as u128
            + self.target_sequence_bases.len() as u128;
        let wire_count: u128 = 501 * blocks + 5 * symbols + 22 * steps + 16;
        let flag_count: u128 = 255 * blocks + 8 * steps;
        wires as u128 + wire_count <= usize::MAX as u128 && flags as u128 + flag_count
            <= usize::MAX as u128
    }

    /// The program of the claim, from no gates at all; `None` where the
    /// parts of the claim do not fit together or the program is too large
    /// for this machine.
    pub fn synthesize(&self, params: SpongeParams) -> (r: Option<Program>)
        requires
            params.wf(),
        ensures
            r.is_some() == (self.wf() && self.wire_count() <= usize::MAX && self.flag_count()
                <= usize::MAX),
            r.is_some() ==> r.unwrap().wf() && r.unwrap().params == params && r.unwrap().wires
                == self.wire_count() && r.unwrap().flags == self.flag_count()
                && r.unwrap().holds() == self.satisfied(params) && r.unwrap().inputs() == seq![
                self.alignment_score as nat,
            ],
    {
        if !self.is_well_formed() || !self.fits(0, 0) {
            return None;
        }
        let mut program = Program::new(params);
        self.generate_constraints(&mut program);
        Some(program)
    }
}

} // verus!
