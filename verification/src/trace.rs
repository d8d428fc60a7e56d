//! The walk over an alignment trace: how each step moves the two cursors
//! and what it adds to the score.

use vstd::prelude::*;

verus! {

/// The trace symbol of a step that consumes one symbol of each sequence.
pub const MATCH: usize = 0;

/// The trace symbol of a step that consumes one symbol of the target only.
pub const INSERTION: usize = 1;

/// The trace symbol of a step that consumes one symbol of the reference only.
pub const DELETION: usize = 2;

/// A step of this kind moves the reference cursor.
pub open spec fn consumes_reference(symbol: usize) -> bool {
    symbol == MATCH || symbol == DELETION
}

/// A step of this kind moves the target cursor.
pub open spec fn consumes_target(symbol: usize) -> bool {
    symbol == MATCH || symbol == INSERTION
}

/// A step of this kind adds one to the score.
pub open spec fn costs(symbol: usize) -> bool {
    symbol == INSERTION || symbol == DELETION
}

/// The symbol is exactly one of match, insertion and deletion.
pub open spec fn is_step(symbol: usize) -> bool {
    symbol == MATCH || symbol == INSERTION || symbol == DELETION
}

/// Every symbol of the trace is a step.
pub open spec fn valid_trace(trace: Seq<usize>) -> bool {
    forall|i: int| 0 <= i < trace.len() ==> is_step(#[trigger] trace[i])
}

/// For each step, whether it moves the reference cursor.
pub open spec fn reference_steps(trace: Seq<usize>) -> Seq<bool> {
    trace.map_values(|s: usize| consumes_reference(s))
}

/// For each step, whether it moves the target cursor.
pub open spec fn target_steps(trace: Seq<usize>) -> Seq<bool> {
    trace.map_values(|s: usize| consumes_target(s))
}

/// For each step, whether it adds to the score.
pub open spec fn cost_steps(trace: Seq<usize>) -> Seq<bool> {
    trace.map_values(|s: usize| costs(s))
}

/// For each step, whether it is the given symbol.
pub open spec fn steps_of(trace: Seq<usize>, symbol: usize) -> Seq<bool> {
    trace.map_values(|s: usize| s == symbol)
}

/// How many of the first `k` flags are set.
pub open spec fn count_true(flags: Seq<bool>, k: int) -> nat
    decreases k,
{
    if k <= 0 {
        0
    } else {
        count_true(flags, k - 1) + if flags[k - 1] {
            1nat
        } else {
            0nat
        }
    }
}

/// The score that a trace accumulates: one for each insertion and deletion.
pub open spec fn trace_score(trace: Seq<usize>) -> nat {
    count_true(cost_steps(trace), trace.len() as int)
}

/// The symbol that a cursor reads from a sequence; zero once the cursor
/// has run past its end.
pub open spec fn read_at(bases: Seq<usize>, cursor: nat) -> usize {
    if cursor < bases.len() {
        bases[cursor as int]
    } else {
        0
    }
}

/// The symbol read at each step, by a cursor that moves on the flagged steps.
pub open spec fn reads(moves: Seq<bool>, bases: Seq<usize>) -> Seq<usize> {
    Seq::new(moves.len(), |i: int| read_at(bases, count_true(moves, i)))
}

/// What one step asks of the two symbols read: at a match they are the
/// same, at any other step they are free.
pub open spec fn match_holds(symbol: usize, reference_read: usize, target_read: usize) -> bool {
    !(symbol == MATCH) || reference_read == target_read
}

/// At every match step the two symbols read are the same.
pub open spec fn matches_enforced(
    trace: Seq<usize>,
    reference_reads: Seq<usize>,
    target_reads: Seq<usize>,
) -> bool {
    forall|i: int|
        0 <= i < trace.len() ==> match_holds(#[trigger] trace[i], reference_reads[i], target_reads[i])
}

/// Where the two cursors stand and what the score is.
#[derive(Clone, Copy, Debug)]
pub struct TraceState {
    pub reference_index: usize,
    pub target_index: usize,
    pub score: usize,
}

impl TraceState {
    /// Both cursors and the score at zero.
    pub fn start() -> (s: TraceState)
        ensures
            s.reference_index == 0,
            s.target_index == 0,
            s.score == 0,
    {
        TraceState { reference_index: 0, target_index: 0, score: 0 }
    }

    /// The state after one step: a match moves both cursors, an insertion
    /// the target cursor, a deletion the reference cursor, and the last two
    /// add one to the score. Any other symbol changes nothing.
    pub fn advance(&self, symbol: usize) -> (next: TraceState)
        requires
            self.reference_index < usize::MAX,
            self.target_index < usize::MAX,
            self.score < usize::MAX,
        ensures
            next.reference_index == self.reference_index + if consumes_reference(symbol) {
                1int
            } else {
                0int
            },
            next.target_index == self.target_index + if consumes_target(symbol) {
                1int
            } else {
                0int
            },
            next.score == self.score + if costs(symbol) {
                1int
            } else {
                0int
            },
    {
        if symbol == MATCH {
            TraceState {
                reference_index: self.reference_index + 1,
                target_index: self.target_index + 1,
                score: self.score,
            }
        } else if symbol == INSERTION {
            TraceState {
                reference_index: self.reference_index,
                target_index: self.target_index + 1,
                score: self.score + 1,
            }
        } else if symbol == DELETION {
            TraceState {
                reference_index: self.reference_index + 1,
                target_index: self.target_index,
                score: self.score + 1,
            }
        } else {
            *self
        }
    }
}

/// Whether a step tolerates the two symbols read.
pub fn step_allows(symbol: usize, reference_read: usize, target_read: usize) -> (r: bool)
    ensures
        r == match_holds(symbol, reference_read, target_read),
{
    symbol != MATCH || reference_read == target_read
}

/// Whether every symbol of a trace is a step.
pub fn trace_is_valid(trace: &Vec<usize>) -> (r: bool)
    ensures
        r == valid_trace(trace@),
{
    let mut i: usize = 0;
    while i < trace.len()
        invariant
            i <= trace.len(),
            forall|k: int| 0 <= k < i ==> is_step(#[trigger] trace@[k]),
        decreases trace.len() - i,
    {
        if trace[i] > DELETION {
            return false;
        }
        i = i + 1;
    }
    true
}

/// A step that is no match tolerates any two symbols; a match tolerates
/// equal ones only.
pub proof fn lemma_match_rule(symbol: usize, reference_read: usize, target_read: usize)
    ensures
        symbol != MATCH ==> match_holds(symbol, reference_read, target_read),
        symbol == MATCH ==> (match_holds(symbol, reference_read, target_read) <==> reference_read
            == target_read),
{
}

/// No more flags are set among the first `k` than there are.
pub proof fn lemma_count_bound(flags: Seq<bool>, k: int)
    requires
        0 <= k,
    ensures
        count_true(flags, k) <= k,
    decreases k,
{
    if k > 0 {
        lemma_count_bound(flags, k - 1);
    }
}

/// The score after the first `k` steps of a trace is the number of
/// insertions among them plus the number of deletions.
pub proof fn lemma_score_counts_steps(trace: Seq<usize>, k: int)
    requires
        0 <= k <= trace.len(),
    ensures
        count_true(cost_steps(trace), k) == count_true(steps_of(trace, INSERTION), k) + count_true(
            steps_of(trace, DELETION),
            k,
        ),
    decreases k,
{
    if k > 0 {
        lemma_score_counts_steps(trace, k - 1);
    }
}

/// The score of a trace is the number of its insertions plus the number of
/// its deletions.
pub proof fn lemma_score_is_insertions_plus_deletions(trace: Seq<usize>)
    ensures
        trace_score(trace) == count_true(steps_of(trace, INSERTION), trace.len() as int)
            + count_true(steps_of(trace, DELETION), trace.len() as int),
{
    lemma_score_counts_steps(trace, trace.len() as int);
}

} // verus!
