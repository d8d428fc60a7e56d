use alignment_circuits::field::{usize_to_felt, Felt};

const TOP: [u64; 4] = [
    0xffffffff00000000,
    0x53bda402fffe5bfe,
    0x3339d80809a1d805,
    0x73eda753299d7d48,
];

const ORDER: [u64; 4] = [
    0xffffffff00000001,
    0x53bda402fffe5bfe,
    0x3339d80809a1d805,
    0x73eda753299d7d48,
];

#[test]
fn small_numbers_add_and_multiply_as_integers() {
    let a = Felt::from_u64(6);
    let b = Felt::from_u64(14);
    assert_eq!(a.add(&b).limbs, [20, 0, 0, 0]);
    assert_eq!(a.mul(&b).limbs, [84, 0, 0, 0]);
    assert!(a.mul(&b).equals(&Felt::from_u64(84)));
    assert!(!a.mul(&b).equals(&a));
}

#[test]
fn products_carry_into_the_next_limb() {
    let a = Felt::from_u64(1 << 63);
    assert_eq!(a.mul(&Felt::from_u64(4)).limbs, [0, 2, 0, 0]);
    assert_eq!(a.add(&a).limbs, [0, 1, 0, 0]);
}

#[test]
fn sums_and_products_wrap_at_the_order() {
    let top = Felt { limbs: TOP };
    assert!(top.is_canonical());
    assert_eq!(top.add(&Felt::one()).limbs, [0, 0, 0, 0]);
    assert_eq!(top.add(&Felt::from_u64(2)).limbs, [1, 0, 0, 0]);
    assert_eq!(top.mul(&top).limbs, [1, 0, 0, 0]);
    assert_eq!(top.mul(&Felt::zero()).limbs, [0, 0, 0, 0]);
}

#[test]
fn the_order_itself_is_not_canonical() {
    assert!(Felt::from_limbs(TOP).is_some());
    assert!(Felt::from_limbs(ORDER).is_none());
    assert!(Felt::from_limbs([0, 0, 0, u64::MAX]).is_none());
    assert!(!Felt { limbs: ORDER }.is_canonical());
    assert!(Felt::from_limbs([u64::MAX, u64::MAX, u64::MAX, 0]).is_some());
}

#[test]
fn symbols_are_themselves_in_the_field() {
    for base in 0..4usize {
        assert_eq!(usize_to_felt(base).limbs, [base as u64, 0, 0, 0]);
    }
    assert_eq!(Felt::zero().limbs, [0, 0, 0, 0]);
    assert_eq!(Felt::one().limbs, [1, 0, 0, 0]);
}
