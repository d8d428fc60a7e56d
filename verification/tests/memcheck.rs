use alignment_circuits::circuit::walk_trace;
use alignment_circuits::field::Felt;
use alignment_circuits::memcheck::{fingerprint_term, full_fingerprint_of, select};

#[test]
fn a_term_is_c0_plus_value_plus_index_times_c1() {
    let c0 = Felt::from_u64(5);
    let c1 = Felt::from_u64(7);
    let t = fingerprint_term(&c0, &c1, &Felt::from_u64(3), 2);
    assert_eq!(t.limbs, [22, 0, 0, 0]);
}

#[test]
fn the_full_fingerprint_is_the_product_of_the_terms() {
    let c0 = Felt::from_u64(5);
    let c1 = Felt::from_u64(7);
    let symbols = vec![1usize, 2, 3];
    // (5+1+0) * (5+2+7) * (5+3+14)
    assert_eq!(full_fingerprint_of(&c0, &c1, &symbols, 3).limbs, [1848, 0, 0, 0]);
    assert_eq!(full_fingerprint_of(&c0, &c1, &symbols, 2).limbs, [84, 0, 0, 0]);
    assert_eq!(full_fingerprint_of(&c0, &c1, &symbols, 0).limbs, [1, 0, 0, 0]);
}

#[test]
fn select_picks_by_the_flag() {
    let a = Felt::from_u64(3);
    let b = Felt::from_u64(9);
    assert_eq!(select(true, &a, &b).limbs, a.limbs);
    assert_eq!(select(false, &a, &b).limbs, b.limbs);
}

#[test]
fn the_walk_reads_where_the_cursors_stand() {
    let c0 = Felt::from_u64(5);
    let c1 = Felt::from_u64(7);
    let trace = vec![0usize, 1, 2];
    let reference = vec![1usize, 2];
    let target = vec![1usize, 3];
    let out = walk_trace(&trace, &trace, &reference, &target, &c0, &c1);
    assert!(out.classified);
    assert!(out.matched);
    assert_eq!(out.score, 2);
    // (5+1+0) * (5+2+7)
    assert_eq!(out.reference_product.limbs, [84, 0, 0, 0]);
    // (5+1+0) * (5+3+7)
    assert_eq!(out.target_product.limbs, [90, 0, 0, 0]);
    assert_eq!(full_fingerprint_of(&c0, &c1, &reference, 2).limbs, [84, 0, 0, 0]);
    assert_eq!(full_fingerprint_of(&c0, &c1, &target, 2).limbs, [90, 0, 0, 0]);
}

#[test]
fn the_walk_notes_an_unclassified_step() {
    let c0 = Felt::from_u64(5);
    let c1 = Felt::from_u64(7);
    let out = walk_trace(&vec![0, 3], &vec![0, 0], &vec![1, 1], &vec![1, 1], &c0, &c1);
    assert!(!out.classified);
    assert_eq!(out.score, 0);
    assert_eq!(out.reference_product.limbs, [6, 0, 0, 0]);
}

#[test]
fn the_walk_notes_a_match_of_different_symbols() {
    let c0 = Felt::from_u64(5);
    let c1 = Felt::from_u64(7);
    let out = walk_trace(&vec![0], &vec![0], &vec![1], &vec![2], &c0, &c1);
    assert!(!out.matched);
    let out = walk_trace(&vec![1], &vec![1], &vec![1], &vec![2], &c0, &c1);
    assert!(out.matched);
}

#[test]
fn an_altered_read_changes_the_fingerprint_under_many_challenges() {
    let symbols: Vec<usize> = (0..40).map(|i| (i * 5 + 1) % 4).collect();
    let trace = vec![0usize; 40];
    for k in 0..25u64 {
        let c0 = Felt::from_u64(0x9e3779b97f4a7c15u64.wrapping_mul(k + 1));
        let c1 = Felt::from_u64(0xc2b2ae3d27d4eb4fu64.wrapping_mul(k + 3));
        let full = full_fingerprint_of(&c0, &c1, &symbols, 40);
        let honest = walk_trace(&trace, &trace, &symbols, &symbols, &c0, &c1);
        assert!(honest.reference_product.equals(&full));
        assert!(honest.target_product.equals(&full));
        for at in [0usize, 17, 39] {
            let mut altered = symbols.clone();
            altered[at] = (altered[at] + 1) % 4;
            let forged = walk_trace(&trace, &trace, &altered, &symbols, &c0, &c1);
            assert!(!forged.reference_product.equals(&full));
            assert!(forged.target_product.equals(&full));
        }
    }
}
