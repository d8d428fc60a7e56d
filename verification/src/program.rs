//! The claim written out as a program of gates: each gate makes a new
//! variable from earlier ones, or asks that two of them be equal. A
//! constraint system is built by carrying the gates out in order.

use crate::field::{field_product, field_sum, Felt};
use crate::sponge::{sponge_output, SpongeParams};
use vstd::prelude::*;

verus! {

/// One gate. A field variable is named by its place among the field
/// variables made so far, a boolean variable by its place among the
/// boolean ones.
#[derive(Clone, Debug)]
pub enum Gate {
    /// A new private field variable with the given value.
    Witness(Felt),
    /// A new constant.
    Constant(Felt),
    /// A new public field variable with the given value.
    Input(Felt),
    /// The sum of two field variables.
    Sum(usize, usize),
    /// The product of two field variables.
    Product(usize, usize),
    /// The 255 bits of a field variable, lowest first, as boolean variables.
    Bits(usize),
    /// A boolean variable as a field variable, zero or one.
    Lift(usize),
    /// Whether two field variables are equal, as a boolean variable.
    IsEqual(usize, usize),
    /// The negation of a boolean variable.
    Not(usize),
    /// The disjunction of two boolean variables.
    Or(usize, usize),
    /// The second variable where the boolean one is set, else the third.
    Select(usize, usize, usize),
    /// Asks that two field variables be equal.
    EnforceEqual(usize, usize),
    /// Asks that a boolean variable have the given value.
    EnforceFlag(usize, bool),
    /// A fresh sponge that absorbs the listed field variables and yields
    /// as many new ones as the count says.
    Sponge(Vec<usize>, usize),
}

/// The values that the variables of a program take, and whether all that
/// was asked so far holds of them.
pub struct Assignment {
    /// The values of the field variables.
    pub wires: Seq<nat>,
    /// The values of the boolean variables.
    pub flags: Seq<bool>,
    /// The values of the public field variables, in the order they were made.
    pub inputs: Seq<nat>,
    /// All that was asked holds.
    pub holds: bool,
}

/// A flag as a number.
pub open spec fn bit_value(b: bool) -> nat {
    if b {
        1
    } else {
        0
    }
}

/// The `count` lowest bits of `v`, lowest first.
pub open spec fn bits_of(v: nat, count: nat) -> Seq<bool>
    decreases count,
{
    if count == 0 {
        Seq::empty()
    } else {
        seq![v % 2 == 1] + bits_of(v / 2, (count - 1) as nat)
    }
}

/// Every index names a field variable that exists.
pub open spec fn indices_below(indices: Seq<usize>, bound: nat) -> bool {
    forall|i: int| 0 <= i < indices.len() ==> indices[i] < bound
}

/// The values of the listed field variables.
pub open spec fn picked(wires: Seq<nat>, indices: Seq<usize>) -> Seq<nat> {
    Seq::new(indices.len(), |i: int| wires[indices[i] as int])
}

/// The assignment with one more field variable.
pub open spec fn with_wire(s: Assignment, value: nat) -> Assignment {
    Assignment { wires: s.wires.push(value), flags: s.flags, inputs: s.inputs, holds: s.holds }
}

/// The assignment with one more field variable, a public one.
pub open spec fn with_input(s: Assignment, value: nat) -> Assignment {
    Assignment {
        wires: s.wires.push(value),
        flags: s.flags,
        inputs: s.inputs.push(value),
        holds: s.holds,
    }
}

/// The assignment with one more boolean variable.
pub open spec fn with_flag(s: Assignment, value: bool) -> Assignment {
    Assignment { wires: s.wires, flags: s.flags.push(value), inputs: s.inputs, holds: s.holds }
}

/// The assignment with one more condition asked of it.
pub open spec fn with_condition(s: Assignment, condition: bool) -> Assignment {
    Assignment { wires: s.wires, flags: s.flags, inputs: s.inputs, holds: s.holds && condition }
}

/// What a gate does to an assignment; `None` where it names a variable
/// that does not exist or holds a value that is no canonical field element.
pub open spec fn apply(params: SpongeParams, s: Assignment, gate: Gate) -> Option<Assignment> {
    let w = s.wires.len();
    let f = s.flags.len();
    match gate {
        Gate::Witness(v) => if v.wf() {
            Some(with_wire(s, v@))
        } else {
            None
        },
        Gate::Constant(v) => if v.wf() {
            Some(with_wire(s, v@))
        } else {
            None
        },
        Gate::Input(v) => if v.wf() {
            Some(with_input(s, v@))
        } else {
            None
        },
        Gate::Sum(a, b) => if a < w && b < w {
            Some(with_wire(s, field_sum(s.wires[a as int], s.wires[b as int])))
        } else {
            None
        },
        Gate::Product(a, b) => if a < w && b < w {
            Some(with_wire(s, field_product(s.wires[a as int], s.wires[b as int])))
        } else {
            None
        },
        Gate::Bits(a) => if a < w {
            Some(
                Assignment {
                    wires: s.wires,
                    flags: s.flags + bits_of(s.wires[a as int], 255),
                    inputs: s.inputs,
                    holds: s.holds,
                },
            )
        } else {
            None
        },
        Gate::Lift(x) => if x < f {
            Some(with_wire(s, bit_value(s.flags[x as int])))
        } else {
            None
        },
        Gate::IsEqual(a, b) => if a < w && b < w {
            Some(with_flag(s, s.wires[a as int] == s.wires[b as int]))
        } else {
            None
        },
        Gate::Not(x) => if x < f {
            Some(with_flag(s, !s.flags[x as int]))
        } else {
            None
        },
        Gate::Or(x, y) => if x < f && y < f {
            Some(with_flag(s, s.flags[x as int] || s.flags[y as int]))
        } else {
            None
        },
        Gate::Select(x, a, b) => if x < f && a < w && b < w {
            Some(
                with_wire(
                    s,
                    if s.flags[x as int] {
                        s.wires[a as int]
                    } else {
                        s.wires[b as int]
                    },
                ),
            )
        } else {
            None
        },
        Gate::EnforceEqual(a, b) => if a < w && b < w {
            Some(with_condition(s, s.wires[a as int] == s.wires[b as int]))
        } else {
            None
        },
        Gate::EnforceFlag(x, want) => if x < f {
            Some(with_condition(s, s.flags[x as int] == want))
        } else {
            None
        },
        Gate::Sponge(inputs, count) => if indices_below(inputs@, w) {
            Some(
                Assignment {
                    wires: s.wires + Seq::new(
                        count as nat,
                        |i: int| sponge_output(params, picked(s.wires, inputs@), count as nat)[i],
                    ),
                    flags: s.flags,
                    inputs: s.inputs,
                    holds: s.holds,
                },
            )
        } else {
            None
        },
    }
}

/// The assignment that a program of gates makes, from no variables at all.
pub open spec fn run(params: SpongeParams, gates: Seq<Gate>) -> Option<Assignment>
    decreases gates.len(),
{
    if gates.len() == 0 {
        Some(
            Assignment {
                wires: Seq::empty(),
                flags: Seq::empty(),
                inputs: Seq::empty(),
                holds: true,
            },
        )
    } else {
        match run(params, gates.drop_last()) {
            Some(s) => apply(params, s, gates.last()),
            None => None,
        }
    }
}

/// The later assignment keeps every variable of the earlier one.
pub open spec fn extends(later: Assignment, earlier: Assignment) -> bool {
    &&& earlier.wires.len() <= later.wires.len()
    &&& earlier.flags.len() <= later.flags.len()
    &&& forall|i: int| 0 <= i < earlier.wires.len() ==> later.wires[i] == earlier.wires[i]
    &&& forall|i: int| 0 <= i < earlier.flags.len() ==> later.flags[i] == earlier.flags[i]
}

/// A program under construction, with the sponge parameters that its
/// sponge gates stand for.
#[derive(Debug)]
pub struct Program {
    pub params: SpongeParams,
    pub gates: Vec<Gate>,
    pub wires: usize,
    pub flags: usize,
}

impl Program {
    /// Every gate names variables that exist, and the two counters say how
    /// many variables there are.
    pub open spec fn wf(&self) -> bool {
        &&& self.params.wf()
        &&& run(self.params, self.gates@).is_some()
        &&& run(self.params, self.gates@).unwrap().wires.len() == self.wires
        &&& run(self.params, self.gates@).unwrap().flags.len() == self.flags
    }

    /// The assignment that the gates make.
    pub open spec fn state(&self) -> Assignment {
        run(self.params, self.gates@).unwrap()
    }

    /// The value of a field variable.
    pub open spec fn wire(&self, i: usize) -> nat {
        self.state().wires[i as int]
    }

    /// The value of a boolean variable.
    pub open spec fn flag(&self, i: usize) -> bool {
        self.state().flags[i as int]
    }

    /// All that was asked so far holds.
    pub open spec fn holds(&self) -> bool {
        self.state().holds
    }

    /// The values of the public variables made so far.
    pub open spec fn inputs(&self) -> Seq<nat> {
        self.state().inputs
    }

    /// The program has the variables of the earlier one, with their values.
    pub open spec fn follows(&self, earlier: Program) -> bool {
        &&& self.params == earlier.params
        &&& extends(self.state(), earlier.state())
    }

    /// The empty program.
    pub fn new(params: SpongeParams) -> (p: Program)
        requires
            params.wf(),
        ensures
            p.wf(),
            p.params == params,
            p.gates@.len() == 0,
            p.wires == 0,
            p.flags == 0,
            p.holds(),
            p.inputs() == Seq::<nat>::empty(),
    {
        Program { params, gates: Vec::new(), wires: 0, flags: 0 }
    }

    /// Adds one gate that the assignment so far admits.
    fn push(&mut self, gate: Gate)
        requires
            old(self).wf(),
            apply(old(self).params, old(self).state(), gate).is_some(),
        ensures
            final(self).params == old(self).params,
            final(self).gates@ == old(self).gates@.push(gate),
            final(self).wires == old(self).wires,
            final(self).flags == old(self).flags,
            run(final(self).params, final(self).gates@) == apply(
                old(self).params,
                old(self).state(),
                gate,
            ),
    {
        self.gates.push(gate);
        assert(self.gates@.drop_last() =~= old(self).gates@);
    }

    /// A new field variable with a known value, made by one gate.
    fn fresh(&mut self, gate: Gate, Ghost(value): Ghost<nat>) -> (w: usize)
        requires
            old(self).wf(),
            old(self).wires < usize::MAX,
            apply(old(self).params, old(self).state(), gate) == Some(
                with_wire(old(self).state(), value),
            ),
        ensures
            final(self).wf(),
            final(self).follows(*old(self)),
            final(self).gates@ == old(self).gates@.push(gate),
            w == old(self).wires,
            final(self).wires == old(self).wires + 1,
            final(self).flags == old(self).flags,
            final(self).state() == with_wire(old(self).state(), value),
    {
        let w = self.wires;
        self.push(gate);
        self.wires = self.wires + 1;
        w
    }

    /// A new boolean variable that holds a given value.
    fn fresh_flag(&mut self, gate: Gate, Ghost(value): Ghost<bool>) -> (x: usize)
        requires
            old(self).wf(),
            old(self).flags < usize::MAX,
            apply(old(self).params, old(self).state(), gate) == Some(
                with_flag(old(self).state(), value),
            ),
        ensures
            final(self).wf(),
            final(self).follows(*old(self)),
            final(self).gates@ == old(self).gates@.push(gate),
            x == old(self).flags,
            final(self).wires == old(self).wires,
            final(self).flags == old(self).flags + 1,
            final(self).state() == with_flag(old(self).state(), value),
    {
        let x = self.flags;
        self.push(gate);
        self.flags = self.flags + 1;
        x
    }

    /// One more condition.
    fn ask(&mut self, gate: Gate, Ghost(condition): Ghost<bool>)
        requires
            old(self).wf(),
            apply(old(self).params, old(self).state(), gate) == Some(
                with_condition(old(self).state(), condition),
            ),
        ensures
            final(self).wf(),
            final(self).follows(*old(self)),
            final(self).gates@ == old(self).gates@.push(gate),
            final(self).wires == old(self).wires,
            final(self).flags == old(self).flags,
            final(self).state() == with_condition(old(self).state(), condition),
    {
        self.push(gate);
    }

    /// A new private field variable.
    pub fn witness(&mut self, value: Felt) -> (w: usize)
        requires
            old(self).wf(),
            old(self).wires < usize::MAX,
            value.wf(),
        ensures
            final(self).wf(),
            final(self).follows(*old(self)),
            w == old(self).wires,
            final(self).wires == old(self).wires + 1,
            final(self).flags == old(self).flags,
            final(self).state() == with_wire(old(self).state(), value@),
    {
        self.fresh(Gate::Witness(value), Ghost(value@))
    }

    /// A new constant.
    pub fn constant(&mut self, value: Felt) -> (w: usize)
        requires
            old(self).wf(),
            old(self).wires < usize::MAX,
            value.wf(),
        ensures
            final(self).wf(),
            final(self).follows(*old(self)),
            w == old(self).wires,
            final(self).wires == old(self).wires + 1,
            final(self).flags == old(self).flags,
            final(self).state() == with_wire(old(self).state(), value@),
    {
        self.fresh(Gate::Constant(value), Ghost(value@))
    }

    /// A new public field variable.
    pub fn input(&mut self, value: Felt) -> (w: usize)
        requires
            old(self).wf(),
            old(self).wires < usize::MAX,
            value.wf(),
        ensures
            final(self).wf(),
            final(self).follows(*old(self)),
            w == old(self).wires,
            final(self).wires == old(self).wires + 1,
            final(self).flags == old(self).flags,
            final(self).state() == with_input(old(self).state(), value@),
    {
        let w = self.wires;
        self.push(Gate::Input(value));
        self.wires = self.wires + 1;
        w
    }

    /// The sum of two field variables.
    pub fn sum(&mut self, a: usize, b: usize) -> (w: usize)
        requires
            old(self).wf(),
            old(self).wires < usize::MAX,
            a < old(self).wires,
            b < old(self).wires,
        ensures
            final(self).wf(),
            final(self).follows(*old(self)),
            w == old(self).wires,
            final(self).wires == old(self).wires + 1,
            final(self).flags == old(self).flags,
            final(self).state() == with_wire(
                old(self).state(),
                field_sum(old(self).wire(a), old(self).wire(b)),
            ),
    {
        let ghost value = field_sum(self.wire(a), self.wire(b));
        self.fresh(Gate::Sum(a, b), Ghost(value))
    }

    /// The product of two field variables.
    pub fn product(&mut self, a: usize, b: usize) -> (w: usize)
        requires
            old(self).wf(),
            old(self).wires < usize::MAX,
            a < old(self).wires,
            b < old(self).wires,
        ensures
            final(self).wf(),
            final(self).follows(*old(self)),
            w == old(self).wires,
            final(self).wires == old(self).wires + 1,
            final(self).flags == old(self).flags,
            final(self).state() == with_wire(
                old(self).state(),
                field_product(old(self).wire(a), old(self).wire(b)),
            ),
    {
        let ghost value = field_product(self.wire(a), self.wire(b));
        self.fresh(Gate::Product(a, b), Ghost(value))
    }

    /// A boolean variable as a field variable.
    pub fn lift(&mut self, x: usize) -> (w: usize)
        requires
            old(self).wf(),
            old(self).wires < usize::MAX,
            x < old(self).flags,
        ensures
            final(self).wf(),
            final(self).follows(*old(self)),
            w == old(self).wires,
            final(self).wires == old(self).wires + 1,
            final(self).flags == old(self).flags,
            final(self).state() == with_wire(old(self).state(), bit_value(old(self).flag(x))),
    {
        let ghost value = bit_value(self.flag(x));
        self.fresh(Gate::Lift(x), Ghost(value))
    }

    /// The second variable where the boolean one is set, else the third.
    pub fn select(&mut self, x: usize, a: usize, b: usize) -> (w: usize)
        requires
            old(self).wf(),
            old(self).wires < usize::MAX,
            x < old(self).flags,
            a < old(self).wires,
            b < old(self).wires,
        ensures
            final(self).wf(),
            final(self).follows(*old(self)),
            w == old(self).wires,
            final(self).wires == old(self).wires + 1,
            final(self).flags == old(self).flags,
            final(self).state() == with_wire(
                old(self).state(),
                if old(self).flag(x) {
                    old(self).wire(a)
                } else {
                    old(self).wire(b)
                },
            ),
    {
        let ghost value = if self.flag(x) {
            self.wire(a)
        } else {
            self.wire(b)
        };
        self.fresh(Gate::Select(x, a, b), Ghost(value))
    }

    /// Whether two field variables are equal.
    pub fn is_equal(&mut self, a: usize, b: usize) -> (x: usize)
        requires
            old(self).wf(),
            old(self).flags < usize::MAX,
            a < old(self).wires,
            b < old(self).wires,
        ensures
            final(self).wf(),
            final(self).follows(*old(self)),
            x == old(self).flags,
            final(self).wires == old(self).wires,
            final(self).flags == old(self).flags + 1,
            final(self).state() == with_flag(
                old(self).state(),
                old(self).wire(a) == old(self).wire(b),
            ),
    {
        let ghost value = self.wire(a) == self.wire(b);
        self.fresh_flag(Gate::IsEqual(a, b), Ghost(value))
    }

    /// The negation of a boolean variable.
    pub fn not(&mut self, x: usize) -> (y: usize)
        requires
            old(self).wf(),
            old(self).flags < usize::MAX,
            x < old(self).flags,
        ensures
            final(self).wf(),
            final(self).follows(*old(self)),
            y == old(self).flags,
            final(self).wires == old(self).wires,
            final(self).flags == old(self).flags + 1,
            final(self).state() == with_flag(old(self).state(), !old(self).flag(x)),
    {
        let ghost value = !self.flag(x);
        self.fresh_flag(Gate::Not(x), Ghost(value))
    }

    /// The disjunction of two boolean variables.
    pub fn or(&mut self, x: usize, y: usize) -> (z: usize)
        requires
            old(self).wf(),
            old(self).flags < usize::MAX,
            x < old(self).flags,
            y < old(self).flags,
        ensures
            final(self).wf(),
            final(self).follows(*old(self)),
            z == old(self).flags,
            final(self).wires == old(self).wires,
            final(self).flags == old(self).flags + 1,
            final(self).state() == with_flag(
                old(self).state(),
                old(self).flag(x) || old(self).flag(y),
            ),
    {
        let ghost value = self.flag(x) || self.flag(y);
        self.fresh_flag(Gate::Or(x, y), Ghost(value))
    }

    /// Asks that two field variables be equal.
    pub fn enforce_equal(&mut self, a: usize, b: usize)
        requires
            old(self).wf(),
            a < old(self).wires,
            b < old(self).wires,
        ensures
            final(self).wf(),
            final(self).follows(*old(self)),
            final(self).wires == old(self).wires,
            final(self).flags == old(self).flags,
            final(self).state() == with_condition(
                old(self).state(),
                old(self).wire(a) == old(self).wire(b),
            ),
    {
        let ghost condition = self.wire(a) == self.wire(b);
        self.ask(Gate::EnforceEqual(a, b), Ghost(condition))
    }

    /// Asks that a boolean variable have the given value.
    pub fn enforce_flag(&mut self, x: usize, want: bool)
        requires
            old(self).wf(),
            x < old(self).flags,
        ensures
            final(self).wf(),
            final(self).follows(*old(self)),
            final(self).wires == old(self).wires,
            final(self).flags == old(self).flags,
            final(self).state() == with_condition(old(self).state(), old(self).flag(x) == want),
    {
        let ghost condition = self.flag(x) == want;
        self.ask(Gate::EnforceFlag(x, want), Ghost(condition))
    }

    /// The 255 bits of a field variable, lowest first. The first of the
    /// new boolean variables is returned; the others follow it.
    pub fn bits(&mut self, a: usize) -> (x: usize)
        requires
            old(self).wf(),
            old(self).flags <= usize::MAX - 255,
            a < old(self).wires,
        ensures
            final(self).wf(),
            final(self).follows(*old(self)),
            x == old(self).flags,
            final(self).wires == old(self).wires,
            final(self).flags == old(self).flags + 255,
            final(self).state().wires == old(self).state().wires,
            final(self).state().inputs == old(self).state().inputs,
            final(self).state().holds == old(self).state().holds,
            final(self).state().flags == old(self).state().flags + bits_of(old(self).wire(a), 255),
    {
        let x = self.flags;
        proof {
            lemma_bits_len(self.wire(a), 255);
        }
        self.push(Gate::Bits(a));
        self.flags = self.flags + 255;
        x
    }

    /// A fresh sponge that absorbs the listed field variables and yields
    /// `count` new ones. The first of them is returned; the others follow.
    pub fn sponge(&mut self, inputs: Vec<usize>, count: usize) -> (w: usize)
        requires
            old(self).wf(),
            old(self).wires <= usize::MAX - count,
            indices_below(inputs@, old(self).wires as nat),
        ensures
            final(self).wf(),
            final(self).follows(*old(self)),
            w == old(self).wires,
            final(self).wires == old(self).wires + count,
            final(self).flags == old(self).flags,
            final(self).state().flags == old(self).state().flags,
            final(self).state().inputs == old(self).state().inputs,
            final(self).state().holds == old(self).state().holds,
            final(self).state().wires == old(self).state().wires + Seq::new(
                count as nat,
                |i: int|
                    sponge_output(
                        old(self).params,
                        picked(old(self).state().wires, inputs@),
                        count as nat,
                    )[i],
            ),
    {
        let w = self.wires;
        self.push(Gate::Sponge(inputs, count));
        self.wires = self.wires + count;
        w
    }
}

/// As many bits come out as were asked for.
pub proof fn lemma_bits_len(v: nat, count: nat)
    ensures
        bits_of(v, count).len() == count,
    decreases count,
{
    if count > 0 {
        lemma_bits_len(v / 2, (count - 1) as nat);
    }
}

} // verus!
