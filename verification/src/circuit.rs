//! The alignment claim as a whole: three encoded sequences, the symbols
//! read along the trace, and the score that the trace is claimed to have.

use crate::encoding::{
    block_count, blocks_are_padded, blocks_needed, blocks_padded, decode_spec, decode_symbols,
    encode_sequence, encode_spec, lemma_decode_encode, lemma_decode_len, symbols_are_valid,
    valid_symbols,
};
use crate::field::{felt_values, felts_wf, usize_to_felt, Felt};
use crate::memcheck::{
    fingerprint_term, full_fingerprint, full_fingerprint_of, lemma_honest_reads_agree, select,
    trace_fingerprint,
};
use crate::sponge::{challenges_spec, commit, commitment_spec, derive_challenges, SpongeParams};
use crate::trace::{
    cost_steps, count_true, is_step, lemma_count_bound,
    lemma_score_is_insertions_plus_deletions, match_holds, matches_enforced, reads,
    reference_steps, step_allows, steps_of, target_steps, trace_is_valid, trace_score,
    valid_trace, TraceState, DELETION, INSERTION, MATCH,
};
use rand::Rng;
use vstd::prelude::*;

verus! {

/// A claimed alignment of a target sequence against a reference sequence.
#[derive(Debug)]
pub struct AlignmentCircuit {
    /// The reference sequence, 125 symbols packed into each field element.
    pub reference_sequence_felts: Vec<Felt>,
    /// The symbols of the reference that the walk reads, each from 0 to 3.
    pub reference_sequence_bases: Vec<usize>,
    /// The target sequence, packed like the reference.
    pub target_sequence_felts: Vec<Felt>,
    /// The symbols of the target that the walk reads.
    pub target_sequence_bases: Vec<usize>,
    /// The alignment trace, packed like the sequences.
    pub cigar_string_felts: Vec<Felt>,
    /// The steps of the trace: 0 for a match, 1 for an insertion, 2 for a deletion.
    pub cigar_string_bases: Vec<usize>,
    /// The claimed score: one for each insertion and each deletion.
    pub alignment_score: usize,
}

/// What the walk over the trace yields.
#[derive(Clone, Copy, Debug)]
pub struct WalkOutcome {
    /// Every step was exactly one of match, insertion and deletion.
    pub classified: bool,
    /// At every match step the two symbols read were the same.
    pub matched: bool,
    /// The product over the symbols read from the reference.
    pub reference_product: Felt,
    /// The product over the symbols read from the target.
    pub target_product: Felt,
    /// The accumulated score.
    pub score: usize,
}

/// The two sides of every equation that the claim has to meet.
#[derive(Clone, Copy, Debug)]
pub struct Evaluation {
    /// Every block has its padding bits at zero.
    pub padded: bool,
    /// Every step of the trace is exactly one of match, insertion and deletion.
    pub classified: bool,
    /// At every match step the two symbols read are the same.
    pub matched: bool,
    /// The fingerprint of the whole reference.
    pub reference_full: Felt,
    /// The fingerprint of what the walk read from the reference.
    pub reference_read: Felt,
    /// The fingerprint of the whole target.
    pub target_full: Felt,
    /// The fingerprint of what the walk read from the target.
    pub target_read: Felt,
    /// The score that the trace accumulates.
    pub accumulated_score: usize,
    /// The score that was claimed.
    pub claimed_score: usize,
}

impl Evaluation {
    /// Every equation holds.
    pub open spec fn satisfied(&self) -> bool {
        &&& self.padded
        &&& self.classified
        &&& self.matched
        &&& self.reference_full@ == self.reference_read@
        &&& self.target_full@ == self.target_read@
        &&& self.accumulated_score == self.claimed_score
    }

    /// Whether every equation holds.
    pub fn is_satisfied(&self) -> (r: bool)
        ensures
            r == self.satisfied(),
    {
        self.padded && self.classified && self.matched && self.reference_full.equals(
            &self.reference_read,
        ) && self.target_full.equals(&self.target_read) && self.accumulated_score
            == self.claimed_score
    }
}

/// Walks the trace once. The steps are classified by `kinds`, the symbols
/// of the decoded trace; the positions that are read follow `moves`, the
/// plain steps. At each step a symbol is read from either sequence where
/// its cursor stands, the match rule is tested, either product takes up
/// the fingerprint of its symbol if the step consumes it, and the cursors
/// and the score move on.
pub fn walk_trace(
    kinds: &Vec<usize>,
    moves: &Vec<usize>,
    reference_bases: &Vec<usize>,
    target_bases: &Vec<usize>,
    c0: &Felt,
    c1: &Felt,
) -> (out: WalkOutcome)
    requires
        moves.len() <= kinds.len(),
        valid_trace(moves@),
        valid_symbols(reference_bases@),
        valid_symbols(target_bases@),
        c0.wf(),
        c1.wf(),
    ensures
        out.classified == valid_trace(kinds@.take(moves.len() as int)),
        out.matched == matches_enforced(
            kinds@.take(moves.len() as int),
            reads(reference_steps(moves@), reference_bases@),
            reads(target_steps(moves@), target_bases@),
        ),
        out.reference_product.wf(),
        out.reference_product@ == trace_fingerprint(
            c0@,
            c1@,
            reference_steps(kinds@.take(moves.len() as int)),
            reads(reference_steps(moves@), reference_bases@),
            moves.len() as int,
        ),
        out.target_product.wf(),
        out.target_product@ == trace_fingerprint(
            c0@,
            c1@,
            target_steps(kinds@.take(moves.len() as int)),
            reads(target_steps(moves@), target_bases@),
            moves.len() as int,
        ),
        out.score == trace_score(kinds@.take(moves.len() as int)),
{
    let steps: usize = moves.len();
    let ghost trace = kinds@.take(steps as int);
    let ghost rr = reads(reference_steps(moves@), reference_bases@);
    let ghost tr = reads(target_steps(moves@), target_bases@);
    let one = Felt::one();
    let mut plain = TraceState::start();
    let mut wires = TraceState::start();
    let mut reference_product = Felt::one();
    let mut target_product = Felt::one();
    let mut classified = true;
    let mut matched = true;
    let mut i: usize = 0;
    while i < steps
        invariant
            i <= steps,
            steps == moves.len(),
            steps <= kinds.len(),
            trace == kinds@.take(steps as int),
            rr == reads(reference_steps(moves@), reference_bases@),
            tr == reads(target_steps(moves@), target_bases@),
            valid_trace(moves@),
            valid_symbols(reference_bases@),
            valid_symbols(target_bases@),
            c0.wf(),
            c1.wf(),
            one.wf(),
            one@ == 1,
            plain.reference_index == count_true(reference_steps(moves@), i as int),
            plain.target_index == count_true(target_steps(moves@), i as int),
            plain.score == count_true(cost_steps(moves@), i as int),
            wires.reference_index == count_true(reference_steps(trace), i as int),
            wires.target_index == count_true(target_steps(trace), i as int),
            wires.score == count_true(cost_steps(trace), i as int),
            reference_product.wf(),
            reference_product@ == trace_fingerprint(c0@, c1@, reference_steps(trace), rr, i as int),
            target_product.wf(),
            target_product@ == trace_fingerprint(c0@, c1@, target_steps(trace), tr, i as int),
            classified == (forall|k: int| 0 <= k < i ==> is_step(#[trigger] trace[k])),
            matched == (forall|k: int|
                0 <= k < i ==> match_holds(#[trigger] trace[k], rr[k], tr[k])),
        decreases steps - i,
    {
        proof {
            lemma_count_bound(reference_steps(moves@), i as int);
            lemma_count_bound(target_steps(moves@), i as int);
            lemma_count_bound(cost_steps(moves@), i as int);
            lemma_count_bound(reference_steps(trace), i as int);
            lemma_count_bound(target_steps(trace), i as int);
            lemma_count_bound(cost_steps(trace), i as int);
        }
        let kind: usize = kinds[i];
        let reference_read: usize = if plain.reference_index < reference_bases.len() {
            reference_bases[plain.reference_index]
        } else {
            0
        };
        let target_read: usize = if plain.target_index < target_bases.len() {
            target_bases[plain.target_index]
        } else {
            0
        };
        assert(trace[i as int] == kind);
        assert(rr[i as int] == reference_read);
        assert(tr[i as int] == target_read);
        if kind > DELETION {
            classified = false;
        }
        if !step_allows(kind, reference_read, target_read) {
            matched = false;
        }
        let reference_term = fingerprint_term(
            c0,
            c1,
            &usize_to_felt(reference_read),
            wires.reference_index,
        );
        let target_term = fingerprint_term(c0, c1, &usize_to_felt(target_read), wires.target_index);
        let reference_factor = select(kind == MATCH || kind == DELETION, &reference_term, &one);
        let target_factor = select(kind == MATCH || kind == INSERTION, &target_term, &one);
        reference_product = reference_product.mul(&reference_factor);
        target_product = target_product.mul(&target_factor);
        wires = wires.advance(kind);
        plain = plain.advance(moves[i]);
        i = i + 1;
    }
    WalkOutcome { classified, matched, reference_product, target_product, score: wires.score }
}

impl AlignmentCircuit {
    /// A claim from its seven parts.
    pub fn new(
        reference_sequence_felts: Vec<Felt>,
        reference_sequence_bases: Vec<usize>,
        target_sequence_felts: Vec<Felt>,
        target_sequence_bases: Vec<usize>,
        cigar_string_felts: Vec<Felt>,
        cigar_string_bases: Vec<usize>,
        alignment_score: usize,
    ) -> (circuit: Self)
        ensures
            circuit.reference_sequence_felts == reference_sequence_felts,
            circuit.reference_sequence_bases == reference_sequence_bases,
            circuit.target_sequence_felts == target_sequence_felts,
            circuit.target_sequence_bases == target_sequence_bases,
            circuit.cigar_string_felts == cigar_string_felts,
            circuit.cigar_string_bases == cigar_string_bases,
            circuit.alignment_score == alignment_score,
    {
        Self {
            reference_sequence_felts,
            reference_sequence_bases,
            target_sequence_felts,
            target_sequence_bases,
            cigar_string_felts,
            cigar_string_bases,
            alignment_score,
        }
    }

    /// The parts of a claim fit together: the blocks are canonical field
    /// elements, each sequence has as many blocks as its symbols fill, the
    /// symbols of the two sequences are two-bit codes and those of the
    /// trace are steps.
    pub open spec fn wf(&self) -> bool {
        &&& felts_wf(self.reference_sequence_felts@)
        &&& felts_wf(self.target_sequence_felts@)
        &&& felts_wf(self.cigar_string_felts@)
        &&& self.reference_sequence_felts.len() == block_count(
            self.reference_sequence_bases.len() as nat,
        )
        &&& self.target_sequence_felts.len() == block_count(self.target_sequence_bases.len() as nat)
        &&& self.cigar_string_felts.len() == block_count(self.cigar_string_bases.len() as nat)
        &&& valid_symbols(self.reference_sequence_bases@)
        &&& valid_symbols(self.target_sequence_bases@)
        &&& valid_trace(self.cigar_string_bases@)
    }

    /// The symbols that the reference blocks hold.
    pub open spec fn reference_symbols(&self) -> Seq<usize> {
        decode_spec(felt_values(self.reference_sequence_felts@)).take(
            self.reference_sequence_bases.len() as int,
        )
    }

    /// The symbols that the target blocks hold.
    pub open spec fn target_symbols(&self) -> Seq<usize> {
        decode_spec(felt_values(self.target_sequence_felts@)).take(
            self.target_sequence_bases.len() as int,
        )
    }

    /// The steps that the trace blocks hold.
    pub open spec fn trace_symbols(&self) -> Seq<usize> {
        decode_spec(felt_values(self.cigar_string_felts@)).take(
            self.cigar_string_bases.len() as int,
        )
    }

    /// Every block of the three sequences has its padding bits at zero.
    pub open spec fn padded(&self) -> bool {
        &&& blocks_padded(felt_values(self.reference_sequence_felts@))
        &&& blocks_padded(felt_values(self.target_sequence_felts@))
        &&& blocks_padded(felt_values(self.cigar_string_felts@))
    }

    /// The symbol read from the reference at each step.
    pub open spec fn reference_reads(&self) -> Seq<usize> {
        reads(reference_steps(self.cigar_string_bases@), self.reference_sequence_bases@)
    }

    /// The symbol read from the target at each step.
    pub open spec fn target_reads(&self) -> Seq<usize> {
        reads(target_steps(self.cigar_string_bases@), self.target_sequence_bases@)
    }

    /// What the claim asks beyond the padding of its blocks: every step is
    /// classified, matches read equal symbols, either sequence has the
    /// fingerprint of what was read from it, and the claimed score is the
    /// accumulated one.
    pub open spec fn equations_hold(&self, c0: nat, c1: nat) -> bool {
        &&& valid_trace(self.trace_symbols())
        &&& matches_enforced(self.trace_symbols(), self.reference_reads(), self.target_reads())
        &&& full_fingerprint(c0, c1, self.reference_symbols()) == trace_fingerprint(
            c0,
            c1,
            reference_steps(self.trace_symbols()),
            self.reference_reads(),
            self.cigar_string_bases.len() as int,
        )
        &&& full_fingerprint(c0, c1, self.target_symbols()) == trace_fingerprint(
            c0,
            c1,
            target_steps(self.trace_symbols()),
            self.target_reads(),
            self.cigar_string_bases.len() as int,
        )
        &&& self.alignment_score == trace_score(self.trace_symbols())
    }

    /// The claim holds under the given challenges: its blocks are well
    /// padded and its equations hold.
    pub open spec fn satisfied_with(&self, c0: nat, c1: nat) -> bool {
        self.padded() && self.equations_hold(c0, c1)
    }

    /// The challenges that the three commitments give.
    pub open spec fn challenges(&self, params: SpongeParams) -> (nat, nat) {
        challenges_spec(
            params,
            commitment_spec(params, felt_values(self.reference_sequence_felts@)),
            commitment_spec(params, felt_values(self.target_sequence_felts@)),
            commitment_spec(params, felt_values(self.cigar_string_felts@)),
        )
    }

    /// The claim holds under the challenges drawn from its own commitments.
    pub open spec fn satisfied(&self, params: SpongeParams) -> bool {
        self.satisfied_with(self.challenges(params).0, self.challenges(params).1)
    }

    /// Whether the parts of the claim fit together.
    pub fn is_well_formed(&self) -> (r: bool)
        ensures
            r == self.wf(),
    {
        felts_are_canonical(&self.reference_sequence_felts) && felts_are_canonical(
            &self.target_sequence_felts,
        ) && felts_are_canonical(&self.cigar_string_felts) && self.reference_sequence_felts.len()
            == blocks_needed(self.reference_sequence_bases.len())
            && self.target_sequence_felts.len() == blocks_needed(self.target_sequence_bases.len())
            && self.cigar_string_felts.len() == blocks_needed(self.cigar_string_bases.len())
            && symbols_are_valid(&self.reference_sequence_bases) && symbols_are_valid(
            &self.target_sequence_bases,
        ) && trace_is_valid(&self.cigar_string_bases)
    }

    /// Both sides of every equation of the claim, under the given challenges.
    pub fn evaluate_with(&self, c0: &Felt, c1: &Felt) -> (e: Evaluation)
        requires
            self.wf(),
            c0.wf(),
            c1.wf(),
        ensures
            e.padded == self.padded(),
            e.classified == valid_trace(self.trace_symbols()),
            e.matched == matches_enforced(
                self.trace_symbols(),
                self.reference_reads(),
                self.target_reads(),
            ),
            e.reference_full@ == full_fingerprint(c0@, c1@, self.reference_symbols()),
            e.reference_read@ == trace_fingerprint(
                c0@,
                c1@,
                reference_steps(self.trace_symbols()),
                self.reference_reads(),
                self.cigar_string_bases.len() as int,
            ),
            e.target_full@ == full_fingerprint(c0@, c1@, self.target_symbols()),
            e.target_read@ == trace_fingerprint(
                c0@,
                c1@,
                target_steps(self.trace_symbols()),
                self.target_reads(),
                self.cigar_string_bases.len() as int,
            ),
            e.accumulated_score == trace_score(self.trace_symbols()),
            e.claimed_score == self.alignment_score,
            e.satisfied() == self.satisfied_with(c0@, c1@),
    {
        let reference = decode_symbols(&self.reference_sequence_felts);
        let target = decode_symbols(&self.target_sequence_felts);
        let kinds = decode_symbols(&self.cigar_string_felts);
        proof {
            lemma_decode_len(felt_values(self.reference_sequence_felts@));
            lemma_decode_len(felt_values(self.target_sequence_felts@));
            lemma_decode_len(felt_values(self.cigar_string_felts@));
        }
        let padded = blocks_are_padded(&self.reference_sequence_felts) && blocks_are_padded(
            &self.target_sequence_felts,
        ) && blocks_are_padded(&self.cigar_string_felts);
        let reference_full = full_fingerprint_of(
            c0,
            c1,
            &reference,
            self.reference_sequence_bases.len(),
        );
        let target_full = full_fingerprint_of(c0, c1, &target, self.target_sequence_bases.len());
        let walk = walk_trace(
            &kinds,
            &self.cigar_string_bases,
            &self.reference_sequence_bases,
            &self.target_sequence_bases,
            c0,
            c1,
        );
        Evaluation {
            padded,
            classified: walk.classified,
            matched: walk.matched,
            reference_full,
            reference_read: walk.reference_product,
            target_full,
            target_read: walk.target_product,
            accumulated_score: walk.score,
            claimed_score: self.alignment_score,
        }
    }

    /// Both sides of every equation of the claim. Each of the three block
    /// sequences is committed to, and the challenges are drawn from the
    /// three commitments, in the order reference, target, trace.
    pub fn evaluate(&self, params: &SpongeParams) -> (e: Evaluation)
        requires
            self.wf(),
            params.wf(),
        ensures
            e.satisfied() == self.satisfied(*params),
            e.padded == self.padded(),
            e.classified == valid_trace(self.trace_symbols()),
            e.matched == matches_enforced(
                self.trace_symbols(),
                self.reference_reads(),
                self.target_reads(),
            ),
            e.reference_full@ == full_fingerprint(
                self.challenges(*params).0,
                self.challenges(*params).1,
                self.reference_symbols(),
            ),
            e.reference_read@ == trace_fingerprint(
                self.challenges(*params).0,
                self.challenges(*params).1,
                reference_steps(self.trace_symbols()),
                self.reference_reads(),
                self.cigar_string_bases.len() as int,
            ),
            e.target_full@ == full_fingerprint(
                self.challenges(*params).0,
                self.challenges(*params).1,
                self.target_symbols(),
            ),
            e.target_read@ == trace_fingerprint(
                self.challenges(*params).0,
                self.challenges(*params).1,
                target_steps(self.trace_symbols()),
                self.target_reads(),
                self.cigar_string_bases.len() as int,
            ),
            e.accumulated_score == trace_score(self.trace_symbols()),
            e.claimed_score == self.alignment_score,
    {
        let reference_hash = commit(params, &self.reference_sequence_felts);
        let target_hash = commit(params, &self.target_sequence_felts);
        let trace_hash = commit(params, &self.cigar_string_felts);
        let challenges = derive_challenges(params, &[reference_hash, target_hash, trace_hash]);
        self.evaluate_with(&challenges[0], &challenges[1])
    }

    /// Whether the claim holds under the challenges drawn from its own
    /// commitments.
    pub fn is_satisfied(&self, params: &SpongeParams) -> (r: bool)
        requires
            self.wf(),
            params.wf(),
        ensures
            r == self.satisfied(*params),
    {
        self.evaluate(params).is_satisfied()
    }
}

impl Clone for AlignmentCircuit {
    fn clone(&self) -> (copy: Self)
        ensures
            copy.reference_sequence_felts@ == self.reference_sequence_felts@,
            copy.reference_sequence_bases@ == self.reference_sequence_bases@,
            copy.target_sequence_felts@ == self.target_sequence_felts@,
            copy.target_sequence_bases@ == self.target_sequence_bases@,
            copy.cigar_string_felts@ == self.cigar_string_felts@,
            copy.cigar_string_bases@ == self.cigar_string_bases@,
            copy.alignment_score == self.alignment_score,
    {
        AlignmentCircuit {
            reference_sequence_felts: self.reference_sequence_felts.clone(),
            reference_sequence_bases: self.reference_sequence_bases.clone(),
            target_sequence_felts: self.target_sequence_felts.clone(),
            target_sequence_bases: self.target_sequence_bases.clone(),
            cigar_string_felts: self.cigar_string_felts.clone(),
            cigar_string_bases: self.cigar_string_bases.clone(),
            alignment_score: self.alignment_score,
        }
    }
}

/// Whether every field element of a sequence is in canonical form.
pub fn felts_are_canonical(felts: &Vec<Felt>) -> (r: bool)
    ensures
        r == felts_wf(felts@),
{
    let mut i: usize = 0;
    while i < felts.len()
        invariant
            i <= felts.len(),
            forall|k: int| 0 <= k < i ==> (#[trigger] felts@[k]).wf(),
        decreases felts.len() - i,
    {
        if !felts[i].is_canonical() {
            return false;
        }
        i = i + 1;
    }
    true
}

/// Draws pairs of fair coin flips.
///
/// Calls `ark_std::test_rng` once and then `Rng::gen_ratio(1, 2)` twice for
/// each pair. The flips are random, so the contract claims their number
/// and nothing else.
#[verifier::external_body]
pub(crate) fn random_bit_pairs(count: usize) -> (pairs: Vec<(bool, bool)>)
    ensures
        pairs.len() == count,
{
    let rng = &mut ark_std::test_rng();
    (0..count).map(|_| (rng.gen_ratio(1, 2), rng.gen_ratio(1, 2))).collect()
}

/// The symbol that two bits stand for, the low bit first.
pub fn symbol_of_bits(low: bool, high: bool) -> (symbol: usize)
    ensures
        symbol == (if low {
            1int
        } else {
            0int
        }) + (if high {
            2int
        } else {
            0int
        }),
{
    let l: usize = if low {
        1
    } else {
        0
    };
    let h: usize = if high {
        2
    } else {
        0
    };
    l + h
}

/// The symbols that a list of bit pairs stands for, with their encoding.
pub fn sequence_from_bits(pairs: &Vec<(bool, bool)>) -> (r: (Vec<Felt>, Vec<usize>))
    ensures
        r.1.len() == pairs.len(),
        forall|i: int|
            0 <= i < pairs.len() ==> r.1@[i] == (if pairs@[i].0 {
                1int
            } else {
                0int
            }) + (if pairs@[i].1 {
                2int
            } else {
                0int
            }),
        valid_symbols(r.1@),
        felts_wf(r.0@),
        felt_values(r.0@) == encode_spec(r.1@),
{
    let mut symbols: Vec<usize> = Vec::new();
    let mut i: usize = 0;
    while i < pairs.len()
        invariant
            i <= pairs.len(),
            symbols.len() == i,
            forall|k: int|
                0 <= k < i ==> symbols@[k] == (if pairs@[k].0 {
                    1int
                } else {
                    0int
                }) + (if pairs@[k].1 {
                    2int
                } else {
                    0int
                }),
        decreases pairs.len() - i,
    {
        let symbol = symbol_of_bits(pairs[i].0, pairs[i].1);
        symbols.push(symbol);
        i = i + 1;
    }
    let felts = encode_sequence(&symbols);
    (felts, symbols)
}

/// A random sequence of the given number of symbols, with its encoding.
pub fn generate_random_sequence(bases: usize) -> (r: (Vec<Felt>, Vec<usize>))
    ensures
        r.1.len() == bases,
        valid_symbols(r.1@),
        felts_wf(r.0@),
        felt_values(r.0@) == encode_spec(r.1@),
{
    let pairs = random_bit_pairs(bases);
    sequence_from_bits(&pairs)
}

/// A satisfied claim has as its score the number of insertions of its
/// trace plus the number of its deletions. So a claim with any other score
/// is not satisfied, whatever the challenges.
pub proof fn lemma_satisfied_score(claim: AlignmentCircuit, c0: nat, c1: nat)
    requires
        claim.satisfied_with(c0, c1),
    ensures
        claim.alignment_score == count_true(
            steps_of(claim.trace_symbols(), INSERTION),
            claim.trace_symbols().len() as int,
        ) + count_true(
            steps_of(claim.trace_symbols(), DELETION),
            claim.trace_symbols().len() as int,
        ),
{
    lemma_score_is_insertions_plus_deletions(claim.trace_symbols());
}

/// A match step whose two symbols differ makes the claim unsatisfied,
/// whatever the challenges.
pub proof fn lemma_mismatched_match_fails(claim: AlignmentCircuit, c0: nat, c1: nat, step: int)
    requires
        0 <= step < claim.trace_symbols().len(),
        claim.trace_symbols()[step] == MATCH,
        claim.reference_reads()[step] != claim.target_reads()[step],
    ensures
        !claim.satisfied_with(c0, c1),
{
    if claim.satisfied_with(c0, c1) {
        assert(match_holds(
            claim.trace_symbols()[step],
            claim.reference_reads()[step],
            claim.target_reads()[step],
        ));
    }
}

/// A claim whose blocks are the encodings of its plain symbols is well
/// padded, and its blocks hold those symbols again.
pub proof fn lemma_encoded_claim(claim: AlignmentCircuit)
    requires
        valid_symbols(claim.reference_sequence_bases@),
        valid_symbols(claim.target_sequence_bases@),
        valid_trace(claim.cigar_string_bases@),
        felt_values(claim.reference_sequence_felts@) == encode_spec(
            claim.reference_sequence_bases@,
        ),
        felt_values(claim.target_sequence_felts@) == encode_spec(claim.target_sequence_bases@),
        felt_values(claim.cigar_string_felts@) == encode_spec(claim.cigar_string_bases@),
    ensures
        claim.padded(),
        claim.reference_symbols() == claim.reference_sequence_bases@,
        claim.target_symbols() == claim.target_sequence_bases@,
        claim.trace_symbols() == claim.cigar_string_bases@,
{
    assert(valid_symbols(claim.cigar_string_bases@)) by {
        assert forall|i: int| 0 <= i < claim.cigar_string_bases@.len() implies
            claim.cigar_string_bases@[i] < 4 by {
            assert(is_step(claim.cigar_string_bases@[i]));
        }
    }
    lemma_decode_encode(claim.reference_sequence_bases@);
    lemma_decode_encode(claim.target_sequence_bases@);
    lemma_decode_encode(claim.cigar_string_bases@);
    assert(claim.reference_symbols() =~= claim.reference_sequence_bases@);
    assert(claim.target_symbols() =~= claim.target_sequence_bases@);
    assert(claim.trace_symbols() =~= claim.cigar_string_bases@);
}

/// Completeness. A claim is satisfied under every pair of challenges when
/// its blocks are well padded and hold its plain symbols, its trace is
/// valid and consumes either sequence exactly, every match step reads
/// equal symbols, and its score is the one that the trace accumulates.
pub proof fn lemma_honest_claim_satisfied(claim: AlignmentCircuit, c0: nat, c1: nat)
    requires
        claim.padded(),
        valid_trace(claim.cigar_string_bases@),
        claim.trace_symbols() == claim.cigar_string_bases@,
        claim.reference_symbols() == claim.reference_sequence_bases@,
        claim.target_symbols() == claim.target_sequence_bases@,
        count_true(
            reference_steps(claim.cigar_string_bases@),
            claim.cigar_string_bases.len() as int,
        ) == claim.reference_sequence_bases.len(),
        count_true(target_steps(claim.cigar_string_bases@), claim.cigar_string_bases.len() as int)
            == claim.target_sequence_bases.len(),
        matches_enforced(claim.cigar_string_bases@, claim.reference_reads(), claim.target_reads()),
        claim.alignment_score == trace_score(claim.cigar_string_bases@),
    ensures
        claim.satisfied_with(c0, c1),
{
    let trace = claim.cigar_string_bases@;
    let steps = trace.len() as int;
    lemma_honest_reads_agree(
        c0,
        c1,
        claim.reference_sequence_bases@,
        reference_steps(trace),
        claim.reference_reads(),
        steps,
    );
    lemma_honest_reads_agree(
        c0,
        c1,
        claim.target_sequence_bases@,
        target_steps(trace),
        claim.target_reads(),
        steps,
    );
    assert(claim.reference_sequence_bases@.take(claim.reference_sequence_bases.len() as int)
        =~= claim.reference_sequence_bases@);
    assert(claim.target_sequence_bases@.take(claim.target_sequence_bases.len() as int)
        =~= claim.target_sequence_bases@);
}

} // verus!
