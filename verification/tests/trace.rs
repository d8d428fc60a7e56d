use alignment_circuits::trace::{
    step_allows, trace_is_valid, TraceState, DELETION, INSERTION, MATCH,
};

#[test]
fn a_match_moves_both_cursors() {
    let s = TraceState::start().advance(MATCH);
    assert_eq!((s.reference_index, s.target_index, s.score), (1, 1, 0));
}

#[test]
fn an_insertion_moves_the_target_cursor_and_costs_one() {
    let s = TraceState::start().advance(INSERTION);
    assert_eq!((s.reference_index, s.target_index, s.score), (0, 1, 1));
}

#[test]
fn a_deletion_moves_the_reference_cursor_and_costs_one() {
    let s = TraceState::start().advance(DELETION);
    assert_eq!((s.reference_index, s.target_index, s.score), (1, 0, 1));
}

#[test]
fn an_unknown_symbol_changes_nothing() {
    let s = TraceState::start().advance(MATCH).advance(3);
    assert_eq!((s.reference_index, s.target_index, s.score), (1, 1, 0));
}

#[test]
fn the_score_counts_insertions_and_deletions() {
    let mut s = TraceState::start();
    for symbol in [0usize, 1, 0, 2, 0, 1, 0, 2, 1, 0] {
        s = s.advance(symbol);
    }
    assert_eq!(s.score, 5);
    assert_eq!(s.reference_index, 7);
    assert_eq!(s.target_index, 8);
}

#[test]
fn only_the_three_kinds_are_steps() {
    assert!(trace_is_valid(&vec![0, 1, 2, 2, 1, 0]));
    assert!(!trace_is_valid(&vec![0, 3]));
    assert!(trace_is_valid(&Vec::new()));
}

#[test]
fn only_a_match_asks_for_equal_symbols() {
    assert!(step_allows(MATCH, 2, 2));
    assert!(!step_allows(MATCH, 2, 1));
    assert!(step_allows(INSERTION, 2, 1));
    assert!(step_allows(DELETION, 2, 1));
}
