use alignment_circuits::circuit::{generate_random_sequence, sequence_from_bits, AlignmentCircuit};
use alignment_circuits::encoding::encode_sequence;
use alignment_circuits::field::Felt;
use alignment_circuits::sponge::SpongeParams;
use ark_bls12_381::Fr;
use ark_crypto_primitives::sponge::poseidon::find_poseidon_ark_and_mds;
use ark_ff::PrimeField;

fn rows(m: &Vec<Vec<Fr>>) -> Vec<Vec<Felt>> {
    m.iter().map(|row| row.iter().map(|x| Felt { limbs: x.into_bigint().0 }).collect()).collect()
}

fn params() -> SpongeParams {
    let (ark, mds) = find_poseidon_ark_and_mds::<Fr>(255, 2, 8, 31, 0);
    SpongeParams {
        full_rounds: 8,
        partial_rounds: 31,
        alpha: 17,
        ark: rows(&ark),
        mds: rows(&mds),
        rate: 2,
        capacity: 1,
    }
}

fn claim(
    reference: &Vec<usize>,
    target: &Vec<usize>,
    trace: &Vec<usize>,
    score: usize,
) -> AlignmentCircuit {
    AlignmentCircuit::new(
        encode_sequence(reference),
        reference.clone(),
        encode_sequence(target),
        target.clone(),
        encode_sequence(trace),
        trace.clone(),
        score,
    )
}

fn sample(n: usize) -> Vec<usize> {
    (0..n).map(|i| (i * 7 + i / 3) % 4).collect()
}

/// The target that a trace makes of a reference: a match copies the next
/// symbol, an insertion adds the next of `inserted`, a deletion skips one.
fn aligned(reference: &Vec<usize>, trace: &Vec<usize>, inserted: &Vec<usize>) -> Vec<usize> {
    let mut target = Vec::new();
    let mut r = 0;
    let mut k = 0;
    for step in trace {
        match *step {
            0 => {
                target.push(reference[r]);
                r += 1;
            }
            1 => {
                target.push(inserted[k]);
                k += 1;
            }
            _ => r += 1,
        }
    }
    target
}

#[test]
fn equal_sequences_of_8000_symbols_align_with_score_zero() {
    let p = params();
    let sequence = sample(8000);
    let trace = vec![0usize; 8000];
    let c = claim(&sequence, &sequence, &trace, 0);
    assert!(c.is_well_formed());
    let e = c.evaluate(&p);
    assert!(e.padded && e.classified && e.matched);
    assert_eq!(e.accumulated_score, 0);
    assert_eq!(e.reference_full.limbs, e.reference_read.limbs);
    assert_eq!(e.target_full.limbs, e.target_read.limbs);
    assert!(e.is_satisfied());
    assert!(c.is_satisfied(&p));
}

#[test]
fn one_changed_target_symbol_breaks_the_all_match_alignment() {
    let p = params();
    let reference = sample(8000);
    let trace = vec![0usize; 8000];
    let mut target = reference.clone();
    target[4321] = (target[4321] + 1) % 4;
    let c = claim(&reference, &target, &trace, 0);
    assert!(c.is_well_formed());
    let e = c.evaluate(&p);
    assert!(!e.matched);
    assert!(!c.is_satisfied(&p));
}

#[test]
fn three_insertions_and_two_deletions_score_five() {
    let p = params();
    let trace = vec![0usize, 1, 0, 2, 0, 1, 0, 2, 1, 0];
    let reference = vec![3usize, 1, 2, 0, 2, 1, 3];
    let target = aligned(&reference, &trace, &vec![2, 0, 1]);
    assert_eq!(target.len(), 8);
    assert!(claim(&reference, &target, &trace, 5).is_satisfied(&p));
    assert!(!claim(&reference, &target, &trace, 4).is_satisfied(&p));
    assert!(!claim(&reference, &target, &trace, 6).is_satisfied(&p));
    let e = claim(&reference, &target, &trace, 4).evaluate(&p);
    assert_eq!(e.accumulated_score, 5);
    assert_eq!(e.claimed_score, 4);
    assert!(e.padded && e.classified && e.matched);
    assert_eq!(e.reference_full.limbs, e.reference_read.limbs);
    assert_eq!(e.target_full.limbs, e.target_read.limbs);
}

#[test]
fn the_score_is_the_number_of_insertions_and_deletions() {
    let p = params();
    let reference = sample(200);
    for (insertions, deletions) in [(0usize, 0usize), (1, 0), (0, 1), (4, 7), (20, 20)] {
        let mut trace = Vec::new();
        let mut left = 200 - deletions;
        for k in 0..(insertions.max(deletions)) {
            if k < insertions {
                trace.push(1);
            }
            trace.push(0);
            left -= 1;
            if k < deletions {
                trace.push(2);
            }
        }
        trace.extend(vec![0usize; left]);
        let inserted: Vec<usize> = (0..insertions).map(|k| k % 4).collect();
        let target = aligned(&reference, &trace, &inserted);
        let score = insertions + deletions;
        assert!(claim(&reference, &target, &trace, score).is_satisfied(&p));
        assert!(!claim(&reference, &target, &trace, score + 1).is_satisfied(&p));
        if score > 0 {
            assert!(!claim(&reference, &target, &trace, score - 1).is_satisfied(&p));
        }
    }
}

#[test]
fn a_match_of_different_symbols_fails_and_an_insertion_passes() {
    let p = params();
    // Reference 0; target 1, 0. Marked as two matches the first step reads
    // 0 against 1; marked as an insertion and a match it reads the same.
    let reference = vec![0usize];
    let target = vec![1usize, 0];
    assert!(claim(&reference, &target, &vec![1, 0], 1).is_satisfied(&p));
    let forged = claim(&reference, &target, &vec![0, 0], 0);
    assert!(!forged.evaluate(&p).matched);
    assert!(!forged.is_satisfied(&p));
    // The same with a deletion: reference 1, 0 against target 0.
    assert!(claim(&target, &reference, &vec![2, 0], 1).is_satisfied(&p));
    assert!(!claim(&target, &reference, &vec![0, 0], 0).is_satisfied(&p));
}

#[test]
fn an_altered_read_is_caught_by_the_fingerprint() {
    let p = params();
    let sequence = sample(250);
    let trace = vec![0usize; 250];
    for at in [0usize, 124, 125, 249] {
        let mut c = claim(&sequence, &sequence, &trace, 0);
        let forged = (sequence[at] + 1) % 4;
        c.reference_sequence_bases[at] = forged;
        c.target_sequence_bases[at] = forged;
        assert!(c.is_well_formed());
        let e = c.evaluate(&p);
        assert!(e.matched);
        assert_ne!(e.reference_full.limbs, e.reference_read.limbs);
        assert_ne!(e.target_full.limbs, e.target_read.limbs);
        assert!(!e.is_satisfied());
    }
}

#[test]
fn a_trace_that_stops_short_of_a_sequence_fails() {
    let p = params();
    let sequence = sample(10);
    assert!(!claim(&sequence, &sequence, &vec![0; 9], 0).is_satisfied(&p));
    assert!(!claim(&sequence, &sequence, &vec![0; 11], 0).is_satisfied(&p));
    assert!(claim(&sequence, &sequence, &vec![0; 10], 0).is_satisfied(&p));
}

#[test]
fn a_padding_bit_in_a_block_fails() {
    let p = params();
    let sequence = sample(10);
    let mut c = claim(&sequence, &sequence, &vec![0; 10], 0);
    c.target_sequence_felts[0].limbs[3] |= 1 << 58;
    assert!(c.is_well_formed());
    let e = c.evaluate(&p);
    assert!(!e.padded);
    assert!(!e.is_satisfied());
}

#[test]
fn an_unclassified_step_in_the_trace_blocks_fails() {
    let p = params();
    let sequence = sample(10);
    let mut c = claim(&sequence, &sequence, &vec![0; 10], 0);
    c.cigar_string_felts[0].limbs[0] |= 3 << 6;
    assert!(c.is_well_formed());
    let e = c.evaluate(&p);
    assert!(!e.classified);
    assert!(!e.is_satisfied());
}

#[test]
fn the_empty_claim_holds_with_score_zero() {
    let p = params();
    let none = Vec::new();
    assert!(claim(&none, &none, &none, 0).is_satisfied(&p));
    assert!(!claim(&none, &none, &none, 1).is_satisfied(&p));
}

#[test]
fn parts_that_do_not_fit_are_not_well_formed() {
    let sequence = sample(10);
    let trace = vec![0usize; 10];
    assert!(claim(&sequence, &sequence, &trace, 0).is_well_formed());
    let mut c = claim(&sequence, &sequence, &trace, 0);
    c.reference_sequence_bases.push(4);
    assert!(!c.is_well_formed());
    let mut c = claim(&sequence, &sequence, &trace, 0);
    c.cigar_string_bases[3] = 3;
    assert!(!c.is_well_formed());
    let mut c = claim(&sequence, &sequence, &trace, 0);
    c.target_sequence_felts.push(Felt::zero());
    assert!(!c.is_well_formed());
    let mut c = claim(&sequence, &sequence, &trace, 0);
    c.cigar_string_felts[0] = Felt { limbs: [0, 0, 0, u64::MAX] };
    assert!(!c.is_well_formed());
}

#[test]
fn new_keeps_its_parts_and_clone_copies_them() {
    let sequence = sample(130);
    let trace = vec![0usize; 130];
    let c = claim(&sequence, &sequence, &trace, 7);
    assert_eq!(c.reference_sequence_bases, sequence);
    assert_eq!(c.reference_sequence_felts.len(), 2);
    assert_eq!(c.alignment_score, 7);
    let d = c.clone();
    assert_eq!(d.target_sequence_bases, c.target_sequence_bases);
    assert_eq!(d.cigar_string_bases, c.cigar_string_bases);
    assert_eq!(d.cigar_string_felts[1].limbs, c.cigar_string_felts[1].limbs);
    assert_eq!(d.alignment_score, 7);
}

#[test]
fn a_random_sequence_comes_with_its_encoding() {
    let (felts, bases) = generate_random_sequence(300);
    assert_eq!(bases.len(), 300);
    assert_eq!(felts.len(), 3);
    assert!(bases.iter().all(|b| *b < 4));
    let again = encode_sequence(&bases);
    for (a, b) in felts.iter().zip(again.iter()) {
        assert_eq!(a.limbs, b.limbs);
    }
    assert!(bases.iter().any(|b| *b != bases[0]));
}

#[test]
fn bit_pairs_give_symbols_low_bit_first() {
    let pairs = vec![(false, false), (true, false), (false, true), (true, true)];
    let (felts, bases) = sequence_from_bits(&pairs);
    assert_eq!(bases, vec![0, 1, 2, 3]);
    assert_eq!(felts.len(), 1);
    assert_eq!(felts[0].limbs, [0b11_10_01_00, 0, 0, 0]);
}
