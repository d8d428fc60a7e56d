//! Commitments to block sequences and the challenges drawn from them,
//! both through a Poseidon sponge over the scalar field.

use crate::field::{felt_values, felts_wf, Felt};
use ark_bls12_381::Fr;
use ark_crypto_primitives::sponge::poseidon::{PoseidonConfig, PoseidonSponge};
use ark_crypto_primitives::sponge::{CryptographicSponge, FieldBasedCryptographicSponge};
use ark_ff::{BigInt, PrimeField};
use vstd::prelude::*;

verus! {

/// The parameters of a Poseidon permutation and of the sponge around it.
#[derive(Clone, Debug)]
pub struct SpongeParams {
    /// Number of rounds that apply the S-box to the whole state.
    pub full_rounds: usize,
    /// Number of rounds that apply the S-box to the first state element only.
    pub partial_rounds: usize,
    /// Exponent of the S-box.
    pub alpha: u64,
    /// Round constants, one row of state width for each round.
    pub ark: Vec<Vec<Felt>>,
    /// The mixing matrix, square, of state width.
    pub mds: Vec<Vec<Felt>>,
    /// How many field elements one permutation absorbs or yields.
    pub rate: usize,
    /// How many field elements of the state stay hidden.
    pub capacity: usize,
}

/// Every row has the given width and holds well-formed field elements.
pub open spec fn matrix_wf(m: Seq<Vec<Felt>>, width: nat) -> bool {
    forall|i: int| 0 <= i < m.len() ==> (#[trigger] m[i]).len() == width && felts_wf(m[i]@)
}

/// The numbers in a matrix of field elements, row by row.
pub open spec fn matrix_values(m: Seq<Vec<Felt>>) -> Seq<Seq<nat>> {
    m.map_values(|row: Vec<Felt>| felt_values(row@))
}

impl SpongeParams {
    /// The shape that the sponge needs: a positive rate, one row of round
    /// constants for each round, a square mixing matrix, all of state width.
    pub open spec fn wf(&self) -> bool {
        &&& 1 <= self.rate
        &&& self.rate + self.capacity <= usize::MAX
        &&& self.full_rounds + self.partial_rounds <= usize::MAX
        &&& self.ark.len() == self.full_rounds + self.partial_rounds
        &&& self.mds.len() == self.rate + self.capacity
        &&& matrix_wf(self.ark@, (self.rate + self.capacity) as nat)
        &&& matrix_wf(self.mds@, (self.rate + self.capacity) as nat)
    }

    /// Whether the parameters have the shape that the sponge needs.
    pub fn is_well_formed(&self) -> (r: bool)
        ensures
            r == self.wf(),
    {
        if self.rate < 1 || self.capacity > usize::MAX - self.rate || self.partial_rounds
            > usize::MAX - self.full_rounds {
            return false;
        }
        let width: usize = self.rate + self.capacity;
        self.ark.len() == self.full_rounds + self.partial_rounds && self.mds.len() == width
            && rows_well_formed(&self.ark, width) && rows_well_formed(&self.mds, width)
    }
}

/// Whether every row has the given width and holds canonical field elements.
fn rows_well_formed(m: &Vec<Vec<Felt>>, width: usize) -> (r: bool)
    ensures
        r == matrix_wf(m@, width as nat),
{
    let mut i: usize = 0;
    while i < m.len()
        invariant
            i <= m.len(),
            matrix_wf(m@.take(i as int), width as nat),
        decreases m.len() - i,
    {
        if m[i].len() != width {
            return false;
        }
        let mut j: usize = 0;
        while j < width
            invariant
                j <= width,
                i < m.len(),
                m@[i as int].len() == width,
                felts_wf(m@[i as int]@.take(j as int)),
            decreases width - j,
        {
            if !m[i][j].is_canonical() {
                return false;
            }
            assert(forall|k: int|
                0 <= k < j + 1 ==> m@[i as int]@.take(j + 1)[k] == m@[i as int]@[k]);
            assert forall|k: int| 0 <= k < j + 1 implies (#[trigger] m@[i as int]@.take(
                j + 1,
            )[k]).wf() by {
                if k < j {
                    assert(m@[i as int]@.take(j as int)[k].wf());
                }
            }
            j = j + 1;
        }
        assert(m@[i as int]@.take(width as int) =~= m@[i as int]@);
        assert forall|k: int| 0 <= k < i + 1 implies (#[trigger] m@.take(i + 1)[k]).len() == width
            && felts_wf(m@.take(i + 1)[k]@) by {
            if k < i {
                assert(m@.take(i as int)[k].len() == width);
            }
        }
        i = i + 1;
    }
    assert(m@.take(m.len() as int) =~= m@);
    true
}

/// What a fresh Poseidon sponge with the given parameters yields when it
/// has absorbed `input` and is then asked for `count` field elements.
pub uninterp spec fn poseidon_output(
    full_rounds: nat,
    partial_rounds: nat,
    alpha: nat,
    ark: Seq<Seq<nat>>,
    mds: Seq<Seq<nat>>,
    rate: nat,
    capacity: nat,
    input: Seq<nat>,
    count: nat,
) -> Seq<nat>;

/// The output of a fresh sponge on `input`, for the given parameters.
pub open spec fn sponge_output(params: SpongeParams, input: Seq<nat>, count: nat) -> Seq<nat> {
    poseidon_output(
        params.full_rounds as nat,
        params.partial_rounds as nat,
        params.alpha as nat,
        matrix_values(params.ark@),
        matrix_values(params.mds@),
        params.rate as nat,
        params.capacity as nat,
        input,
        count,
    )
}

/// The commitment to a block sequence.
pub open spec fn commitment_spec(params: SpongeParams, blocks: Seq<nat>) -> nat {
    sponge_output(params, blocks, 1)[0]
}

/// The two challenges drawn from the commitments to the reference, the
/// target and the trace, in this order.
pub open spec fn challenges_spec(params: SpongeParams, reference: nat, target: nat, trace: nat) -> (
    nat,
    nat,
) {
    let out = sponge_output(params, seq![reference, target, trace], 2);
    (out[0], out[1])
}

/// Absorbs `input` into a fresh sponge and squeezes `count` field elements.
///
/// Builds a `PoseidonConfig` with `PoseidonConfig::new`, a sponge with
/// `PoseidonSponge::new`, and calls `absorb` once and then
/// `squeeze_native_field_elements` once. The contract claims that as many
/// elements come back as were asked for, each in canonical form, and that
/// they depend on the parameters, the input and the count alone.
#[verifier::external_body]
pub(crate) fn poseidon_squeeze(params: &SpongeParams, input: &Vec<Felt>, count: usize) -> (out: Vec<
    Felt,
>)
    requires
        params.wf(),
        felts_wf(input@),
    ensures
        out.len() == count,
        felts_wf(out@),
        felt_values(out@) == poseidon_output(
            params.full_rounds as nat,
            params.partial_rounds as nat,
            params.alpha as nat,
            matrix_values(params.ark@),
            matrix_values(params.mds@),
            params.rate as nat,
            params.capacity as nat,
            felt_values(input@),
            count as nat,
        ),
{
    let fr = |f: &Felt| Fr::new(BigInt::new(f.limbs));
    let rows = |m: &Vec<Vec<Felt>>| m.iter().map(|r| r.iter().map(fr).collect()).collect();
    let config = PoseidonConfig::new(
        params.full_rounds,
        params.partial_rounds,
        params.alpha,
        rows(&params.mds),
        rows(&params.ark),
        params.rate,
        params.capacity,
    );
    let mut sponge = PoseidonSponge::new(&config);
    sponge.absorb(&input.iter().map(fr).collect::<Vec<Fr>>());
    let out = sponge.squeeze_native_field_elements(count);
    out.iter().map(|x| Felt { limbs: x.into_bigint().0 }).collect()
}

/// Commits to a block sequence: a fresh sponge absorbs the blocks and
/// yields one field element.
pub fn commit(params: &SpongeParams, blocks: &Vec<Felt>) -> (digest: Felt)
    requires
        params.wf(),
        felts_wf(blocks@),
    ensures
        digest.wf(),
        digest@ == commitment_spec(*params, felt_values(blocks@)),
{
    let out = poseidon_squeeze(params, blocks, 1);
    assert(felt_values(out@)[0] == out@[0]@);
    out[0]
}

/// Draws the two challenges of the fingerprint from the three commitments,
/// through a sponge of its own that absorbs nothing else.
pub fn derive_challenges(params: &SpongeParams, commitments: &[Felt; 3]) -> (challenges: [Felt; 2])
    requires
        params.wf(),
        commitments[0].wf(),
        commitments[1].wf(),
        commitments[2].wf(),
    ensures
        challenges[0].wf(),
        challenges[1].wf(),
        (challenges[0]@, challenges[1]@) == challenges_spec(
            *params,
            commitments[0]@,
            commitments[1]@,
            commitments[2]@,
        ),
{
    let mut input: Vec<Felt> = Vec::new();
    input.push(commitments[0]);
    input.push(commitments[1]);
    input.push(commitments[2]);
    assert(felt_values(input@) =~= seq![commitments[0]@, commitments[1]@, commitments[2]@]);
    let out = poseidon_squeeze(params, &input, 2);
    assert(felt_values(out@)[0] == out@[0]@);
    assert(felt_values(out@)[1] == out@[1]@);
    [out[0], out[1]]
}

/// Committing to the same blocks under the same parameters gives the same
/// digest.
pub proof fn lemma_commitment_deterministic(params: SpongeParams, a: Seq<nat>, b: Seq<nat>)
    requires
        a =~= b,
    ensures
        commitment_spec(params, a) == commitment_spec(params, b),
{
}

} // verus!
