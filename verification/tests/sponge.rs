use alignment_circuits::encoding::encode_sequence;
use alignment_circuits::field::Felt;
use alignment_circuits::sponge::{commit, derive_challenges, SpongeParams};
use ark_bls12_381::Fr;
use ark_crypto_primitives::sponge::poseidon::find_poseidon_ark_and_mds;
use ark_ff::PrimeField;
use std::str::FromStr;

fn felt(x: &Fr) -> Felt {
    Felt { limbs: x.into_bigint().0 }
}

fn rows(m: &Vec<Vec<Fr>>) -> Vec<Vec<Felt>> {
    m.iter().map(|row| row.iter().map(felt).collect()).collect()
}

fn params() -> SpongeParams {
    let (ark, mds) = find_poseidon_ark_and_mds::<Fr>(255, 2, 8, 31, 0);
    SpongeParams {
        full_rounds: 8,
        partial_rounds: 31,
        alpha: 17,
        ark: rows(&ark),
        mds: rows(&mds),
        rate: 2,
        capacity: 1,
    }
}

fn known(decimal: &str) -> [u64; 4] {
    Fr::from_str(decimal).unwrap().into_bigint().0
}

#[test]
fn the_parameters_are_well_formed() {
    assert!(params().is_well_formed());
}

#[test]
fn parameters_of_the_wrong_shape_are_refused() {
    let mut p = params();
    p.rate = 0;
    assert!(!p.is_well_formed());
    let mut p = params();
    p.ark.pop();
    assert!(!p.is_well_formed());
    let mut p = params();
    p.mds[1].pop();
    assert!(!p.is_well_formed());
    let mut p = params();
    p.capacity = 2;
    assert!(!p.is_well_formed());
    let mut p = params();
    p.ark[3][1] = Felt { limbs: [0, 0, 0, u64::MAX] };
    assert!(!p.is_well_formed());
    let mut p = params();
    p.rate = usize::MAX;
    assert!(!p.is_well_formed());
}

#[test]
fn commit_is_the_first_element_that_the_sponge_yields() {
    let blocks = vec![Felt::from_u64(0), Felt::from_u64(1), Felt::from_u64(2)];
    let digest = commit(&params(), &blocks);
    assert_eq!(
        digest.limbs,
        known("40442793463571304028337753002242186710310163897048962278675457993207843616876")
    );
}

#[test]
fn the_challenges_are_the_first_two_elements_that_the_sponge_yields() {
    let commitments = [Felt::from_u64(0), Felt::from_u64(1), Felt::from_u64(2)];
    let challenges = derive_challenges(&params(), &commitments);
    assert_eq!(
        challenges[0].limbs,
        known("40442793463571304028337753002242186710310163897048962278675457993207843616876")
    );
    assert_eq!(
        challenges[1].limbs,
        known("2664374461699898000291153145224099287711224021716202960480903840045233645301")
    );
}

#[test]
fn committing_twice_gives_the_same_digest() {
    let symbols: Vec<usize> = (0..300).map(|i| (i * 3 + 1) % 4).collect();
    let blocks = encode_sequence(&symbols);
    let p = params();
    let first = commit(&p, &blocks);
    let second = commit(&p, &blocks.clone());
    assert_eq!(first.limbs, second.limbs);
    assert!(first.is_canonical());
}

#[test]
fn different_sequences_give_different_digests() {
    let p = params();
    let a: Vec<usize> = (0..300).map(|i| (i * 3 + 1) % 4).collect();
    let mut b = a.clone();
    b[299] = (b[299] + 1) % 4;
    let da = commit(&p, &encode_sequence(&a));
    let db = commit(&p, &encode_sequence(&b));
    assert_ne!(da.limbs, db.limbs);
    assert_ne!(commit(&p, &Vec::new()).limbs, da.limbs);
}

#[test]
fn the_challenges_depend_on_the_order_of_the_commitments() {
    let p = params();
    let a = Felt::from_u64(11);
    let b = Felt::from_u64(12);
    let c = Felt::from_u64(13);
    let one = derive_challenges(&p, &[a, b, c]);
    let other = derive_challenges(&p, &[b, a, c]);
    assert_ne!(one[0].limbs, other[0].limbs);
    assert_ne!(one[0].limbs, one[1].limbs);
    assert_eq!(one[0].limbs, derive_challenges(&p, &[a, b, c])[0].limbs);
}
