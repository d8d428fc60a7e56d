//! Elements of the scalar field of BLS12-381, held as four little-endian limbs.

use ark_bls12_381::Fr;
use ark_ff::{BigInt, PrimeField};
use vstd::prelude::*;

verus! {

/// The order of the scalar field of BLS12-381.
pub open spec fn modulus() -> nat {
    52435875175126190479447740508185965837690552500527637822603658699938581184513nat
}

/// Two to the power 64, the radix of the limbs.
pub open spec fn radix() -> nat {
    0x1_0000_0000_0000_0000nat
}

/// The number that four limbs stand for, least significant first.
pub open spec fn limbs4(l0: u64, l1: u64, l2: u64, l3: u64) -> nat {
    (l0 as nat) + radix() * ((l1 as nat) + radix() * ((l2 as nat) + radix() * (l3 as nat)))
}

/// The number that an array of four little-endian limbs stands for.
pub open spec fn limbs_value(limbs: [u64; 4]) -> nat {
    limbs4(limbs[0], limbs[1], limbs[2], limbs[3])
}

/// The numbers that a sequence of field elements stands for.
pub open spec fn felt_values(v: Seq<Felt>) -> Seq<nat> {
    v.map_values(|f: Felt| f@)
}

/// Every element of the sequence is well formed.
pub open spec fn felts_wf(v: Seq<Felt>) -> bool {
    forall|i: int| 0 <= i < v.len() ==> (#[trigger] v[i]).wf()
}

/// A field element in canonical form: its limbs, least significant first.
#[derive(Clone, Copy, Debug)]
pub struct Felt {
    pub limbs: [u64; 4],
}

impl View for Felt {
    type V = nat;

    open spec fn view(&self) -> nat {
        limbs_value(self.limbs)
    }
}

impl Felt {
    /// A field element is well formed when its limbs stand for a number below the modulus.
    pub open spec fn wf(&self) -> bool {
        self@ < modulus()
    }

    /// The field element that stands for a machine word.
    pub fn from_u64(x: u64) -> (r: Felt)
        ensures
            r.wf(),
            r@ == x,
    {
        Felt { limbs: [x, 0, 0, 0] }
    }

    /// Whether the limbs stand for a number below the field order.
    pub fn is_canonical(&self) -> (r: bool)
        ensures
            r == self.wf(),
    {
        if self.limbs[3] != 0x73eda753299d7d48 {
            return self.limbs[3] < 0x73eda753299d7d48;
        }
        if self.limbs[2] != 0x3339d80809a1d805 {
            return self.limbs[2] < 0x3339d80809a1d805;
        }
        if self.limbs[1] != 0x53bda402fffe5bfe {
            return self.limbs[1] < 0x53bda402fffe5bfe;
        }
        self.limbs[0] < 0xffffffff00000001
    }

    /// The field element with the given limbs, if they are in canonical form.
    pub fn from_limbs(limbs: [u64; 4]) -> (r: Option<Felt>)
        ensures
            r.is_some() == (limbs_value(limbs) < modulus()),
            r.is_some() ==> r.unwrap().limbs == limbs,
    {
        let f = Felt { limbs };
        if f.is_canonical() {
            Some(f)
        } else {
            None
        }
    }

    /// The additive identity.
    pub fn zero() -> (r: Felt)
        ensures
            r.wf(),
            r@ == 0,
    {
        Felt::from_u64(0)
    }

    /// The multiplicative identity.
    pub fn one() -> (r: Felt)
        ensures
            r.wf(),
            r@ == 1,
    {
        Felt::from_u64(1)
    }

    /// Whether two field elements stand for the same number.
    pub fn equals(&self, other: &Felt) -> (r: bool)
        ensures
            r == (self@ == other@),
    {
        proof {
            lemma_limbs_value_injective(self.limbs, other.limbs);
        }
        self.limbs[0] == other.limbs[0] && self.limbs[1] == other.limbs[1] && self.limbs[2]
            == other.limbs[2] && self.limbs[3] == other.limbs[3]
    }

    /// Sum of two field elements, reduced modulo the field order.
    pub fn add(&self, other: &Felt) -> (r: Felt)
        requires
            self.wf(),
            other.wf(),
        ensures
            r.wf(),
            r@ == field_sum(self@, other@),
    {
        field_add(self, other)
    }

    /// Product of two field elements, reduced modulo the field order.
    pub fn mul(&self, other: &Felt) -> (r: Felt)
        requires
            self.wf(),
            other.wf(),
        ensures
            r.wf(),
            r@ == field_product(self@, other@),
    {
        field_mul(self, other)
    }
}

/// The field element that stands for a symbol.
pub fn usize_to_felt(base: usize) -> (r: Felt)
    requires
        base < 4,
    ensures
        r.wf(),
        r@ == base,
{
    Felt::from_u64(base as u64)
}

/// Addition in the field, on canonical representatives.
pub open spec fn field_sum(a: nat, b: nat) -> nat {
    (a + b) % modulus()
}

/// Multiplication in the field, on canonical representatives.
pub open spec fn field_product(a: nat, b: nat) -> nat {
    (a * b) % modulus()
}

/// Different limbs stand for different numbers.
pub proof fn lemma_limbs_value_injective(a: [u64; 4], b: [u64; 4])
    ensures
        limbs_value(a) == limbs_value(b) <==> (a[0] == b[0] && a[1] == b[1] && a[2] == b[2] && a[3]
            == b[3]),
{
}

/// Sum of two field elements.
///
/// Calls `Add` of `ark_ff::Fp` on the two elements rebuilt from their limbs
/// with `Fp::new`, and reads the limbs of the sum back with `into_bigint`.
/// The contract claims that this is addition modulo the field order.
#[verifier::external_body]
pub(crate) fn field_add(a: &Felt, b: &Felt) -> (r: Felt)
    requires
        a.wf(),
        b.wf(),
    ensures
        r.wf(),
        r@ == (a@ + b@) % modulus(),
{
    let x = Fr::new(BigInt::new(a.limbs));
    let y = Fr::new(BigInt::new(b.limbs));
    Felt { limbs: (x + y).into_bigint().0 }
}

/// Product of two field elements.
///
/// Calls `Mul` of `ark_ff::Fp` on the two elements rebuilt from their limbs
/// with `Fp::new`, and reads the limbs of the product back with `into_bigint`.
/// The contract claims that this is multiplication modulo the field order.
#[verifier::external_body]
pub(crate) fn field_mul(a: &Felt, b: &Felt) -> (r: Felt)
    requires
        a.wf(),
        b.wf(),
    ensures
        r.wf(),
        r@ == (a@ * b@) % modulus(),
{
    let x = Fr::new(BigInt::new(a.limbs));
    let y = Fr::new(BigInt::new(b.limbs));
    Felt { limbs: (x * y).into_bigint().0 }
}

} // verus!
