use alignment_circuits::circuit::AlignmentCircuit;
use alignment_circuits::encoding::encode_sequence;
use alignment_circuits::field::Felt;
use alignment_circuits::program::{Gate, Program};
use alignment_circuits::sponge::SpongeParams;
use ark_bls12_381::Fr;
use ark_crypto_primitives::sponge::constraints::CryptographicSpongeVar;
use ark_crypto_primitives::sponge::poseidon::constraints::PoseidonSpongeVar;
use ark_crypto_primitives::sponge::poseidon::{find_poseidon_ark_and_mds, PoseidonConfig};
use ark_ff::{BigInt, PrimeField};
use ark_r1cs_std::alloc::AllocVar;
use ark_r1cs_std::bits::ToBitsGadget;
use ark_r1cs_std::boolean::Boolean;
use ark_r1cs_std::eq::EqGadget;
use ark_r1cs_std::fields::fp::FpVar;
use ark_r1cs_std::select::CondSelectGadget;
use ark_relations::r1cs::{ConstraintSystem, ConstraintSystemRef, SynthesisError};

fn fr(f: &Felt) -> Fr {
    Fr::new(BigInt::new(f.limbs))
}

fn rows(m: &Vec<Vec<Fr>>) -> Vec<Vec<Felt>> {
    m.iter().map(|row| row.iter().map(|x| Felt { limbs: x.into_bigint().0 }).collect()).collect()
}

fn params() -> SpongeParams {
    let (ark, mds) = find_poseidon_ark_and_mds::<Fr>(255, 2, 8, 31, 0);
    SpongeParams {
        full_rounds: 8,
        partial_rounds: 31,
        alpha: 17,
        ark: rows(&ark),
        mds: rows(&mds),
        rate: 2,
        capacity: 1,
    }
}

fn config(p: &SpongeParams) -> PoseidonConfig<Fr> {
    let matrix = |m: &Vec<Vec<Felt>>| -> Vec<Vec<Fr>> {
        m.iter().map(|row| row.iter().map(fr).collect()).collect()
    };
    PoseidonConfig::new(
        p.full_rounds,
        p.partial_rounds,
        p.alpha,
        matrix(&p.mds),
        matrix(&p.ark),
        p.rate,
        p.capacity,
    )
}

/// Carries the gates of a program out on a constraint system.
fn carry_out(program: &Program, cs: ConstraintSystemRef<Fr>) -> Result<(), SynthesisError> {
    let config = config(&program.params);
    let mut wires: Vec<FpVar<Fr>> = Vec::new();
    let mut flags: Vec<Boolean<Fr>> = Vec::new();
    for gate in program.gates.iter() {
        match gate {
            Gate::Witness(v) => wires.push(FpVar::new_witness(cs.clone(), || Ok(fr(v)))?),
            Gate::Constant(v) => wires.push(FpVar::new_constant(cs.clone(), fr(v))?),
            Gate::Input(v) => wires.push(FpVar::new_input(cs.clone(), || Ok(fr(v)))?),
            Gate::Sum(a, b) => wires.push(&wires[*a] + &wires[*b]),
            Gate::Product(a, b) => wires.push(&wires[*a] * &wires[*b]),
            Gate::Bits(a) => flags.extend(wires[*a].to_bits_le()?),
            Gate::Lift(x) => wires.push(FpVar::from(flags[*x].clone())),
            Gate::IsEqual(a, b) => flags.push(wires[*a].is_eq(&wires[*b])?),
            Gate::Not(x) => flags.push(flags[*x].not()),
            Gate::Or(x, y) => flags.push(flags[*x].or(&flags[*y])?),
            Gate::Select(x, a, b) => {
                wires.push(FpVar::conditionally_select(&flags[*x], &wires[*a], &wires[*b])?)
            }
            Gate::EnforceEqual(a, b) => wires[*a].enforce_equal(&wires[*b])?,
            Gate::EnforceFlag(x, want) => flags[*x].enforce_equal(&Boolean::constant(*want))?,
            Gate::Sponge(inputs, count) => {
                let mut sponge = PoseidonSpongeVar::new(cs.clone(), &config);
                let absorbed: Vec<FpVar<Fr>> = inputs.iter().map(|i| wires[*i].clone()).collect();
                sponge.absorb(&absorbed)?;
                wires.extend(sponge.squeeze_field_elements(*count)?);
            }
        }
    }
    assert_eq!(wires.len(), program.wires);
    assert_eq!(flags.len(), program.flags);
    Ok(())
}

fn holds_on_a_constraint_system(c: &AlignmentCircuit) -> bool {
    let program = c.synthesize(params()).unwrap();
    let cs = ConstraintSystem::<Fr>::new_ref();
    carry_out(&program, cs.clone()).unwrap();
    cs.is_satisfied().unwrap()
}

fn claim(
    reference: &Vec<usize>,
    target: &Vec<usize>,
    trace: &Vec<usize>,
    score: usize,
) -> AlignmentCircuit {
    AlignmentCircuit::new(
        encode_sequence(reference),
        reference.clone(),
        encode_sequence(target),
        target.clone(),
        encode_sequence(trace),
        trace.clone(),
        score,
    )
}

#[test]
fn the_program_has_the_size_that_the_claim_gives() {
    let trace = vec![0usize, 1, 0, 2, 0, 1, 0, 2, 1, 0];
    let reference = vec![3usize, 1, 2, 0, 2, 1, 3];
    let target = vec![3usize, 2, 1, 0, 0, 2, 1, 3];
    let c = claim(&reference, &target, &trace, 5);
    assert!(c.fits(0, 0));
    assert!(!c.fits(usize::MAX - 1813, 0));
    assert!(c.fits(usize::MAX - 1814, usize::MAX - 845));
    assert!(!c.fits(0, usize::MAX - 844));
    let program = c.synthesize(params()).unwrap();
    // 501 * 3 + 5 * 15 + 22 * 10 + 16
    assert_eq!(program.wires, 1814);
    // 255 * 3 + 8 * 10
    assert_eq!(program.flags, 845);
    let inputs = program.gates.iter().filter(|g| matches!(g, Gate::Input(_))).count();
    assert_eq!(inputs, 1);
    let sponges = program.gates.iter().filter(|g| matches!(g, Gate::Sponge(_, _))).count();
    assert_eq!(sponges, 4);
}

#[test]
fn a_claim_whose_parts_do_not_fit_has_no_program() {
    let sequence = vec![1usize, 2, 3];
    let mut c = claim(&sequence, &sequence, &vec![0, 0, 0], 0);
    c.cigar_string_bases.push(3);
    assert!(c.synthesize(params()).is_none());
}

#[test]
fn the_program_starts_with_the_blocks_and_ends_with_the_score() {
    let sequence = vec![1usize, 2, 3];
    let c = claim(&sequence, &sequence, &vec![0, 0, 0], 0);
    let program = c.synthesize(params()).unwrap();
    match &program.gates[0] {
        Gate::Witness(v) => assert_eq!(v.limbs, [0b11_10_01, 0, 0, 0]),
        _ => panic!("the first gate is no witness"),
    }
    let n = program.gates.len();
    match (&program.gates[n - 2], &program.gates[n - 1]) {
        (Gate::Input(v), Gate::EnforceEqual(a, _)) => {
            assert_eq!(v.limbs, [0, 0, 0, 0]);
            assert_eq!(*a, program.wires - 1);
        }
        _ => panic!("the last gates do not compare the score"),
    }
}

#[test]
fn gates_number_their_variables_in_order() {
    let mut program = Program::new(params());
    let a = program.witness(Felt::from_u64(6));
    let b = program.constant(Felt::from_u64(7));
    let c = program.product(a, b);
    let d = program.input(Felt::from_u64(42));
    let same = program.is_equal(c, d);
    let other = program.not(same);
    let either = program.or(same, other);
    let e = program.select(either, c, a);
    let f = program.sum(e, b);
    let g = program.lift(same);
    let first_bit = program.bits(f);
    program.enforce_equal(c, d);
    program.enforce_flag(either, true);
    let h = program.sponge(vec![a, b], 2);
    assert_eq!((a, b, c, d, e, f, g, h), (0, 1, 2, 3, 4, 5, 6, 7));
    assert_eq!((same, other, either, first_bit), (0, 1, 2, 3));
    assert_eq!(program.wires, 9);
    assert_eq!(program.flags, 258);
    assert_eq!(program.gates.len(), 14);
    let cs = ConstraintSystem::<Fr>::new_ref();
    carry_out(&program, cs.clone()).unwrap();
    assert!(cs.is_satisfied().unwrap());
    program.enforce_equal(a, b);
    let cs = ConstraintSystem::<Fr>::new_ref();
    carry_out(&program, cs.clone()).unwrap();
    assert!(!cs.is_satisfied().unwrap());
}

#[test]
fn an_honest_claim_holds_on_a_constraint_system() {
    let trace = vec![0usize, 1, 0, 2, 0, 1, 0, 2, 1, 0];
    let reference = vec![3usize, 1, 2, 0, 2, 1, 3];
    let target = vec![3usize, 2, 1, 0, 0, 2, 1, 3];
    let c = claim(&reference, &target, &trace, 5);
    assert!(c.is_satisfied(&params()));
    assert!(holds_on_a_constraint_system(&c));
}

#[test]
fn a_wrong_score_fails_on_a_constraint_system() {
    let sequence = vec![1usize, 2, 3, 0];
    for score in [1usize, 2] {
        let c = claim(&sequence, &sequence, &vec![0; 4], score);
        assert!(!c.is_satisfied(&params()));
        assert!(!holds_on_a_constraint_system(&c));
    }
    assert!(holds_on_a_constraint_system(&claim(&sequence, &sequence, &vec![0; 4], 0)));
}

#[test]
fn a_forged_claim_fails_on_a_constraint_system() {
    let sequence = vec![1usize, 2, 3, 0];
    let trace = vec![0usize; 4];
    let mut mismatch = claim(&sequence, &sequence, &trace, 0);
    mismatch.target_sequence_bases[2] = 0;
    let mut altered = claim(&sequence, &sequence, &trace, 0);
    altered.target_sequence_bases[2] = 0;
    altered.reference_sequence_bases[2] = 0;
    let mut padding = claim(&sequence, &sequence, &trace, 0);
    padding.reference_sequence_felts[0].limbs[3] |= 1 << 60;
    let mut unclassified = claim(&sequence, &sequence, &trace, 0);
    unclassified.cigar_string_felts[0].limbs[0] |= 3 << 4;
    for c in [mismatch, altered, padding, unclassified] {
        assert!(c.is_well_formed());
        assert!(!c.is_satisfied(&params()));
        assert!(!holds_on_a_constraint_system(&c));
    }
}
