//! Core of a coin-privacy protocol: value commitments, an append-only
//! chained-hash accumulator with membership proofs, encrypted per-coin
//! spending witnesses, hash-based range and knowledge proofs, and a
//! balance-checked spend transaction (JoinSplit) assembled by a state
//! orchestrator.

pub mod accumulator;
pub mod bytes;
pub mod cache;
pub mod codec;
pub mod commitment;
pub mod crypto;
pub mod errors;
pub mod hex_util;
pub mod joinsplit;
pub mod parameters;
pub mod proofs;
pub mod witness;

pub use accumulator::{Accumulator, MembershipProof, ProofNode};
pub use commitment::{AccumulatorElement, Commitment, CommitmentScheme};
pub use errors::LelantusError;
pub use joinsplit::{JoinSplit, JoinSplitProof};
pub use parameters::{LelantusParameters, PrivacyLevel};
pub use proofs::{RangeProof, ZKProof};
pub use witness::Witness;

use vstd::prelude::*;
use crate::accumulator::{AccumulatorView, acc_wf};
use crate::cache::{WitnessCache, cache_contents, cache_capacity, cache_new, cache_put, cache_get,
    empty_cache_view};
use crate::codec::enc_accumulator;
use crate::commitment::{CommitmentView, commitment_value_of};
use crate::crypto::digest_hex;
use crate::errors::LelantusError as LE;
use crate::parameters::{ParametersView, params_valid};
use crate::proofs::{RangeProofView, range_proof_data, range_proof_accepted, zk_proof_accepted,
    spec_zk_proof, commitment_values, input_commitment_values, input_witness_randomness};
use crate::witness::{WitnessView, recovered_amount};

verus! {

/// Protocol version.
pub const LELANTUS_VERSION: u32 = 1;

/// Maximum number of inputs in a JoinSplit transaction.
pub const MAX_JOINSPLIT_INPUTS: usize = 16;

/// Maximum number of outputs in a JoinSplit transaction.
pub const MAX_JOINSPLIT_OUTPUTS: usize = 2;

/// Per-input amount ceiling in JoinSplit assembly, an overflow guard.
pub const MAX_INPUT_AMOUNT: u64 = u64::MAX / 2;

/// Fee ceiling of a JoinSplit, in base units.
pub const MAX_FEE: u64 = 1_000_000;

/// The capacity of the witness cache.
pub const WITNESS_CACHE_CAPACITY: usize = 1000;

/// What checking one JoinSplit input yields: its recovered amount, or the
/// error. A structurally bad witness, an unrecoverable amount, an amount
/// the scheme cannot commit to, wrong-length randomness and a commitment
/// that does not match the recovered amount are all `InvalidWitness`; an
/// amount over the overflow-guard ceiling is `BalanceMismatch`.
pub open spec fn input_check(
    params: ParametersView,
    generator: Seq<u8>,
    c: CommitmentView,
    w: WitnessView,
) -> Result<u64, LelantusError> {
    if !(w.commitment.value.len() > 0 && w.accumulator_value.len() > 0 && w.membership_proof.len()
        > 0) {
        Err(LE::InvalidWitness)
    } else {
        match recovered_amount(w) {
            Option::None => Err(LE::InvalidWitness),
            Option::Some(amount) => {
                if !(params.min_coin_value <= amount && amount <= params.max_coin_value
                    && c.randomness.len() == params.randomness_bits as int / 8) {
                    Err(LE::InvalidWitness)
                } else if c.value != commitment_value_of(generator, amount, c.randomness) {
                    Err(LE::InvalidWitness)
                } else if amount > MAX_INPUT_AMOUNT {
                    Err(LE::BalanceMismatch)
                } else {
                    Ok(amount)
                }
            },
        }
    }
}

/// Folds the inputs left to right: the first failing check decides the
/// error, and every intermediate sum must fit a 64-bit integer, else
/// `BalanceMismatch`.
pub open spec fn inputs_outcome(
    params: ParametersView,
    generator: Seq<u8>,
    inputs: Seq<(CommitmentView, WitnessView)>,
    acc: u64,
) -> Result<u64, LelantusError>
    decreases inputs.len(),
{
    if inputs.len() == 0 {
        Ok(acc)
    } else {
        match input_check(params, generator, inputs[0].0, inputs[0].1) {
            Result::Err(e) => Err(e),
            Result::Ok(amount) => if acc + amount > u64::MAX {
                Err(LE::BalanceMismatch)
            } else {
                inputs_outcome(params, generator, inputs.drop_first(), (acc + amount) as u64)
            },
        }
    }
}

/// Folds the output amounts left to right: a zero amount or an
/// overflowing sum is `BalanceMismatch`.
pub open spec fn outputs_outcome(outputs: Seq<u64>, acc: u64) -> Result<u64, LelantusError>
    decreases outputs.len(),
{
    if outputs.len() == 0 {
        Ok(acc)
    } else if outputs[0] == 0 {
        Err(LE::BalanceMismatch)
    } else if acc + outputs[0] > u64::MAX {
        Err(LE::BalanceMismatch)
    } else {
        outputs_outcome(outputs.drop_first(), (acc + outputs[0]) as u64)
    }
}

/// What assembling a JoinSplit yields, step by step in the order the
/// assembler checks: input and output counts, each input, each output amount,
/// the fee ceiling, the exact balance equation, and finally that every
/// output amount is committable.
pub open spec fn joinsplit_outcome(
    params: ParametersView,
    generator: Seq<u8>,
    inputs: Seq<(CommitmentView, WitnessView)>,
    outputs: Seq<u64>,
    fee: u64,
) -> Result<(), LelantusError> {
    if inputs.len() == 0 || inputs.len() > MAX_JOINSPLIT_INPUTS {
        Err(LE::InvalidInputCount)
    } else if outputs.len() == 0 || outputs.len() > MAX_JOINSPLIT_OUTPUTS {
        Err(LE::InvalidOutputCount)
    } else {
        match inputs_outcome(params, generator, inputs, 0) {
            Result::Err(e) => Err(e),
            Result::Ok(input_sum) => match outputs_outcome(outputs, 0) {
                Result::Err(e) => Err(e),
                Result::Ok(output_sum) => if fee > MAX_FEE {
                    Err(LE::BalanceMismatch)
                } else if output_sum + fee > u64::MAX {
                    Err(LE::BalanceMismatch)
                } else if input_sum != output_sum + fee {
                    Err(LE::BalanceMismatch)
                } else if !(forall|i: int|
                    0 <= i < outputs.len() ==> params.min_coin_value <= #[trigger] outputs[i]
                        && outputs[i] <= params.max_coin_value) {
                    Err(LE::InvalidCommitment)
                } else {
                    Ok(())
                },
            },
        }
    }
}

/// The views of a list of input pairs.
pub open spec fn input_views(inputs: Seq<(Commitment, Witness)>) -> Seq<
    (CommitmentView, WitnessView),
> {
    inputs.map_values(|p: (Commitment, Witness)| (p.0@, p.1@))
}

/// The state orchestrator: the live accumulator, the commitment scheme,
/// the parameters, and a bounded least-recently-used witness cache. A
/// single-owner structure; concurrent callers share it behind a
/// reader/writer lock of their choosing, which changes none of the
/// contracts here.
pub struct LelantusState {
    accumulator: Accumulator,
    commitment_scheme: CommitmentScheme,
    parameters: LelantusParameters,
    witness_cache: WitnessCache,
}

impl LelantusState {
    /// The live accumulator.
    pub closed spec fn spec_accumulator(&self) -> AccumulatorView {
        self.accumulator@
    }

    /// The parameter set.
    pub closed spec fn spec_parameters(&self) -> ParametersView {
        self.parameters@
    }

    /// The commitment scheme.
    pub closed spec fn spec_commitment_scheme(&self) -> CommitmentScheme {
        self.commitment_scheme
    }

    /// The generator the scheme commits under.
    pub open spec fn spec_generator(&self) -> Seq<u8> {
        self.spec_commitment_scheme().spec_generator()
    }

    /// What the witness cache holds.
    pub closed spec fn spec_cache_contents(&self) -> Map<Seq<u8>, WitnessView> {
        cache_contents(self.witness_cache)
    }

    /// The witness cache's capacity.
    pub closed spec fn spec_cache_capacity(&self) -> nat {
        cache_capacity(self.witness_cache)
    }

    /// Whether this state is well formed: validated parameters shared by
    /// scheme and accumulator, a well-formed accumulator chain, and the
    /// fixed cache capacity.
    pub open spec fn wf(&self) -> bool {
        &&& params_valid(self.spec_parameters())
        &&& self.spec_commitment_scheme().wf()
        &&& self.spec_commitment_scheme().spec_parameters() == self.spec_parameters()
        &&& self.spec_accumulator().parameters == self.spec_parameters()
        &&& acc_wf(self.spec_accumulator())
        &&& self.spec_cache_capacity() == WITNESS_CACHE_CAPACITY
    }

    /// Builds a state over a validated parameter set: an empty
    /// accumulator, the commitment scheme, and an empty witness cache of
    /// fixed capacity. Fails with `InvalidParameter` exactly when
    /// validation does.
    pub fn new(parameters: LelantusParameters) -> (r: Result<Self, LelantusError>)
        ensures
            r is Ok <==> params_valid(parameters@),
            r matches Ok(s) ==> s.wf() && s.spec_parameters() == parameters@
                && s.spec_accumulator().elements.len() == 0 && s.spec_cache_contents()
                == empty_cache_view(),
            r matches Err(e) ==> e == LE::InvalidParameter,
    {
        let commitment_scheme = match CommitmentScheme::new(&parameters) {
            Ok(s) => s,
            Err(e) => {
                return Err(e);
            },
        };
        let accumulator = match Accumulator::new(&parameters) {
            Ok(a) => a,
            Err(e) => {
                return Err(e);
            },
        };
        let witness_cache = cache_new(WITNESS_CACHE_CAPACITY);
        Ok(LelantusState { accumulator, commitment_scheme, parameters, witness_cache })
    }

    /// Appends a coin commitment to the accumulator as an element.
    pub fn add_coin(&mut self, commitment: &Commitment) -> (r: Result<(), LelantusError>)
        ensures
            r == Ok::<(), LelantusError>(()),
            final(self).spec_accumulator().value == digest_hex(
                old(self).spec_accumulator().value + commitment.value@,
            ),
            final(self).spec_accumulator().elements == old(self).spec_accumulator().elements.push(
                commitment.value@,
            ),
            final(self).spec_accumulator().parameters == old(self).spec_accumulator().parameters,
            final(self).spec_parameters() == old(self).spec_parameters(),
            final(self).spec_commitment_scheme() == old(self).spec_commitment_scheme(),
            final(self).spec_cache_contents() == old(self).spec_cache_contents(),
            final(self).spec_cache_capacity() == old(self).spec_cache_capacity(),
            old(self).wf() ==> final(self).wf(),
    {
        let element = match commitment.to_element() {
            Ok(e) => e,
            Err(e) => {
                return Err(e);
            },
        };
        self.accumulator.add_element(element)
    }

    /// The serialized live accumulator.
    pub fn get_accumulator(&self) -> (r: Result<Vec<u8>, LelantusError>)
        ensures
            r matches Ok(b) && b@ == enc_accumulator(self.spec_accumulator()),
    {
        self.accumulator.serialize()
    }

    /// The commitment scheme.
    pub fn commitment_scheme(&self) -> (r: &CommitmentScheme)
        ensures
            *r == self.spec_commitment_scheme(),
    {
        &self.commitment_scheme
    }

    /// The parameter set.
    pub fn parameters(&self) -> (r: &LelantusParameters)
        ensures
            r@ == self.spec_parameters(),
    {
        &self.parameters
    }

    /// Stores a witness in the cache under an opaque byte key, as the
    /// most recent entry; at capacity, the least-recently-used entry is
    /// evicted. Population is caller-driven: nothing else fills the
    /// cache.
    pub fn cache_witness(&mut self, key: Vec<u8>, witness: Witness) -> (r: Result<
        (),
        LelantusError,
    >)
        ensures
            r == Ok::<(), LelantusError>(()),
            final(self).spec_cache_capacity() == old(self).spec_cache_capacity(),
            final(self).spec_cache_contents().contains_pair(key@, witness@),
            old(self).spec_cache_contents().dom().contains(key@)
                ==> final(self).spec_cache_contents()
                == old(self).spec_cache_contents().insert(key@, witness@),
            !old(self).spec_cache_contents().dom().contains(key@)
                && old(self).spec_cache_contents().len() < old(self).spec_cache_capacity()
                ==> final(self).spec_cache_contents()
                == old(self).spec_cache_contents().insert(key@, witness@),
            !old(self).spec_cache_contents().dom().contains(key@)
                && old(self).spec_cache_contents().len() >= old(self).spec_cache_capacity()
                ==> (exists|e: Seq<u8>|
                old(self).spec_cache_contents().dom().contains(e)
                    && final(self).spec_cache_contents()
                    == old(self).spec_cache_contents().remove(e).insert(key@, witness@)),
            final(self).spec_accumulator() == old(self).spec_accumulator(),
            final(self).spec_parameters() == old(self).spec_parameters(),
            final(self).spec_commitment_scheme() == old(self).spec_commitment_scheme(),
            old(self).wf() ==> final(self).wf(),
    {
        cache_put(&mut self.witness_cache, key, witness);
        Ok(())
    }

    /// The parameter set the commitment scheme was built from.
    pub open spec fn spec_scheme_parameters(&self) -> ParametersView {
        self.spec_commitment_scheme().spec_parameters()
    }

    /// Assembles a balance-checked JoinSplit: validates counts, verifies
    /// and decrypts every input witness, binds each supplied commitment
    /// to its recovered amount by recomputation, enforces the per-input
    /// ceiling, the fee ceiling and the exact balance equation
    /// `inputs == outputs + fee` under checked addition, then builds the
    /// output commitments, one range proof per output and the knowledge
    /// proof. No partial transaction is ever produced on failure.
    #[verifier::loop_isolation(false)]
    pub fn create_joinsplit(
        &self,
        inputs: Vec<(Commitment, Witness)>,
        outputs: Vec<u64>,
        fee: u64,
    ) -> (r: Result<JoinSplit, LelantusError>)
        ensures
            r is Ok <==> joinsplit_outcome(
                self.spec_scheme_parameters(),
                self.spec_generator(),
                input_views(inputs@),
                outputs@,
                fee,
            ) is Ok,
            r matches Err(e) ==> joinsplit_outcome(
                self.spec_scheme_parameters(),
                self.spec_generator(),
                input_views(inputs@),
                outputs@,
                fee,
            ) == Err::<(), LelantusError>(e),
            r matches Ok(js) ==> js@.fee == fee && js@.inputs == inputs@.map_values(
                |p: (Commitment, Witness)| p.0@,
            ) && js@.outputs.len() == outputs@.len() && (forall|i: int|
                0 <= i < outputs@.len() ==> (#[trigger] js@.outputs[i]).randomness.len()
                    == self.spec_scheme_parameters().randomness_bits as int / 8
                    && js@.outputs[i].value == commitment_value_of(
                    self.spec_generator(),
                    outputs@[i],
                    js@.outputs[i].randomness,
                )) && js@.proof.range_proofs.len() == outputs@.len() && (forall|i: int|
                0 <= i < outputs@.len() ==> #[trigger] js@.proof.range_proofs[i] == (RangeProofView {
                    proof_data: range_proof_data(
                        js@.outputs[i].value,
                        self.spec_parameters().range_proof_bits,
                    ),
                    commitment: js@.outputs[i].value,
                    bit_length: self.spec_parameters().range_proof_bits,
                })) && js@.proof.zk_proof == spec_zk_proof(
                input_commitment_values(inputs@),
                js@.outputs.map_values(|c: CommitmentView| c.value),
                input_witness_randomness(inputs@),
                fee,
            ),
    {
        broadcast use vstd::seq_lib::group_seq_properties;

        if inputs.len() == 0 || inputs.len() > MAX_JOINSPLIT_INPUTS {
            return Err(LE::InvalidInputCount);
        }
        if outputs.len() == 0 || outputs.len() > MAX_JOINSPLIT_OUTPUTS {
            return Err(LE::InvalidOutputCount);
        }
        let ghost params = self.spec_scheme_parameters();
        let ghost generator = self.spec_generator();
        let ghost views = input_views(inputs@);

        // Verify, decrypt and bind every input; accumulate the input sum
        // under checked addition.
        let mut input_sum: u64 = 0;
        let mut i: usize = 0;
        proof {
            assert(views.skip(0) =~= views);
        }
        while i < inputs.len()
            invariant
                i <= inputs@.len(),
                views == input_views(inputs@),
                views.len() == inputs@.len(),
                forall|j: int|
                    0 <= j < views.len() ==> #[trigger] views[j] == (inputs@[j].0@, inputs@[j].1@),
                params == self.spec_scheme_parameters(),
                generator == self.spec_generator(),
                inputs_outcome(params, generator, views, 0) == inputs_outcome(
                    params,
                    generator,
                    views.skip(i as int),
                    input_sum,
                ),
            decreases inputs@.len() - i,
        {
            let ghost tail = views.skip(i as int);
            proof {
                assert(tail[0] == views[i as int]);
                assert(tail.drop_first() =~= views.skip(i + 1));
            }
            let commitment = &inputs[i].0;
            let witness = &inputs[i].1;

            // Structural witness check.
            match witness.verify() {
                Ok(_) => (),
                Err(_) => {
                    return Err(LE::InvalidWitness);
                },
            }

            // Recover the amount from the encrypted payload.
            let amount = match witness.get_amount() {
                Ok(a) => a,
                Err(_) => {
                    return Err(LE::InvalidWitness);
                },
            };

            // Bind the supplied commitment to the recovered amount: the
            // commitment recomputed under the witness's own randomness
            // must match byte for byte. This is what ties witness to
            // commitment; the structural check alone does not.
            let randomness_copy = bytes::clone_bytes(&commitment.randomness);
            let expected_commitment = match self.commitment_scheme.commit_with_randomness(
                amount,
                randomness_copy,
            ) {
                Ok(c) => c,
                Err(_) => {
                    return Err(LE::InvalidWitness);
                },
            };
            if !bytes::bytes_eq(
                expected_commitment.value.as_slice(),
                commitment.value.as_slice(),
            ) {
                return Err(LE::InvalidWitness);
            }

            // Zero-value coins are never valid.
            if amount == 0 {
                return Err(LE::BalanceMismatch);
            }
            // The overflow-guard ceiling per input.
            if amount > MAX_INPUT_AMOUNT {
                return Err(LE::BalanceMismatch);
            }
            // Checked accumulation.
            if input_sum > u64::MAX - amount {
                return Err(LE::BalanceMismatch);
            }
            input_sum = input_sum + amount;
            i = i + 1;
        }
        proof {
            assert(views.skip(views.len() as int) =~= Seq::<(CommitmentView, WitnessView)>::empty());
        }

        // Accumulate the output sum under checked addition; zero outputs
        // are rejected.
        let mut output_sum: u64 = 0;
        let mut k: usize = 0;
        proof {
            assert(outputs@.skip(0) =~= outputs@);
        }
        while k < outputs.len()
            invariant
                k <= outputs@.len(),
                outputs_outcome(outputs@, 0) == outputs_outcome(outputs@.skip(k as int), output_sum),
            decreases outputs@.len() - k,
        {
            proof {
                assert(outputs@.skip(k as int)[0] == outputs@[k as int]);
                assert(outputs@.skip(k as int).drop_first() =~= outputs@.skip(k + 1));
            }
            let amount = outputs[k];
            if amount == 0 {
                return Err(LE::BalanceMismatch);
            }
            if output_sum > u64::MAX - amount {
                return Err(LE::BalanceMismatch);
            }
            output_sum = output_sum + amount;
            k = k + 1;
        }
        proof {
            assert(outputs@.skip(outputs@.len() as int) =~= Seq::<u64>::empty());
        }

        // The fee ceiling.
        if fee > MAX_FEE {
            return Err(LE::BalanceMismatch);
        }
        // The exact balance equation, under checked addition.
        if output_sum > u64::MAX - fee {
            return Err(LE::BalanceMismatch);
        }
        let expected_output_sum = output_sum + fee;
        if input_sum != expected_output_sum {
            return Err(LE::BalanceMismatch);
        }

        // Build the output commitments; an uncommittable amount fails
        // with `InvalidCommitment`.
        let mut output_commitments: Vec<Commitment> = Vec::new();
        let mut m: usize = 0;
        while m < outputs.len()
            invariant
                m <= outputs@.len(),
                params == self.spec_scheme_parameters(),
                generator == self.spec_generator(),
                output_commitments@.len() == m,
                forall|j: int|
                    0 <= j < m ==> params.min_coin_value <= #[trigger] outputs@[j] && outputs@[j]
                        <= params.max_coin_value,
                forall|j: int|
                    0 <= j < m ==> (#[trigger] output_commitments@[j])@.randomness.len()
                        == params.randomness_bits as int / 8 && output_commitments@[j]@.value
                        == commitment_value_of(generator, outputs@[j], output_commitments@[j]@.randomness),
            decreases outputs@.len() - m,
        {
            match self.commitment_scheme.commit(outputs[m]) {
                Ok(c) => {
                    output_commitments.push(c);
                },
                Err(e) => {
                    return Err(e);
                },
            }
            m = m + 1;
        }

        // Build the proof bundle.
        let proof = match self.generate_joinsplit_proof(
            inputs.as_slice(),
            output_commitments.as_slice(),
            fee,
        ) {
            Ok(p) => p,
            Err(e) => {
                return Err(e);
            },
        };

        // Strip the witnesses: the transaction carries commitments only.
        let mut input_commitments: Vec<Commitment> = Vec::new();
        let mut n: usize = 0;
        while n < inputs.len()
            invariant
                n <= inputs@.len(),
                input_commitments@.len() == n,
                forall|j: int| 0 <= j < n ==> (#[trigger] input_commitments@[j])@ == inputs@[j].0@,
            decreases inputs@.len() - n,
        {
            input_commitments.push(inputs[n].0.duplicate());
            n = n + 1;
        }

        let js = JoinSplit { inputs: input_commitments, outputs: output_commitments, proof, fee };
        proof {
            assert(js@.inputs =~= inputs@.map_values(|p: (Commitment, Witness)| p.0@));
            assert(js@.outputs.map_values(|c: CommitmentView| c.value) =~= proofs::commitment_values(
                js.outputs@,
            ));
        }
        Ok(js)
    }

    /// Builds the proof bundle of a JoinSplit: one range proof per output
    /// commitment, and the knowledge proof over all inputs, outputs and
    /// the fee.
    #[verifier::loop_isolation(false)]
    fn generate_joinsplit_proof(
        &self,
        inputs: &[(Commitment, Witness)],
        outputs: &[Commitment],
        fee: u64,
    ) -> (r: Result<JoinSplitProof, LelantusError>)
        ensures
            r matches Ok(p) && p@.range_proofs.len() == outputs@.len() && (forall|i: int|
                0 <= i < outputs@.len() ==> #[trigger] p@.range_proofs[i] == (RangeProofView {
                    proof_data: range_proof_data(
                        outputs@[i].value@,
                        self.spec_parameters().range_proof_bits,
                    ),
                    commitment: outputs@[i].value@,
                    bit_length: self.spec_parameters().range_proof_bits,
                })) && p@.zk_proof == spec_zk_proof(
                input_commitment_values(inputs@),
                commitment_values(outputs@),
                input_witness_randomness(inputs@),
                fee,
            ),
    {
        let mut range_proofs: Vec<RangeProof> = Vec::new();
        let mut i: usize = 0;
        while i < outputs.len()
            invariant
                i <= outputs@.len(),
                range_proofs@.len() == i,
                forall|j: int|
                    0 <= j < i ==> (#[trigger] range_proofs@[j])@ == (RangeProofView {
                        proof_data: range_proof_data(
                            outputs@[j].value@,
                            self.spec_parameters().range_proof_bits,
                        ),
                        commitment: outputs@[j].value@,
                        bit_length: self.spec_parameters().range_proof_bits,
                    }),
            decreases outputs@.len() - i,
        {
            match RangeProof::create(&outputs[i], &self.parameters) {
                Ok(p) => {
                    range_proofs.push(p);
                },
                Err(e) => {
                    return Err(e);
                },
            }
            i = i + 1;
        }
        let zk_proof = match ZKProof::create(inputs, outputs, fee, &self.parameters) {
            Ok(p) => p,
            Err(e) => {
                return Err(e);
            },
        };
        Ok(JoinSplitProof { range_proofs, zk_proof })
    }

    /// Verifies a JoinSplit: every range proof must check out, then the
    /// knowledge proof is verified against the live accumulator's
    /// serialized snapshot. A proof that does not check out yields
    /// `Ok(false)`, not an error.
    #[verifier::loop_isolation(false)]
    pub fn verify_joinsplit(&self, joinsplit: &JoinSplit) -> (r: Result<bool, LelantusError>)
        ensures
            r matches Ok(b) && b == ((forall|i: int|
                0 <= i < joinsplit@.proof.range_proofs.len() ==> range_proof_accepted(
                    #[trigger] joinsplit@.proof.range_proofs[i],
                )) && zk_proof_accepted(
                joinsplit@.proof.zk_proof,
                joinsplit@.inputs.map_values(|c: CommitmentView| c.value),
                joinsplit@.outputs.map_values(|c: CommitmentView| c.value),
                enc_accumulator(self.spec_accumulator()),
            )),
    {
        let mut i: usize = 0;
        while i < joinsplit.proof.range_proofs.len()
            invariant
                i <= joinsplit@.proof.range_proofs.len(),
                forall|j: int|
                    0 <= j < i ==> range_proof_accepted(#[trigger] joinsplit@.proof.range_proofs[j]),
            decreases joinsplit@.proof.range_proofs.len() - i,
        {
            let ok = match joinsplit.proof.range_proofs[i].verify(&self.parameters) {
                Ok(b) => b,
                Err(e) => {
                    return Err(e);
                },
            };
            if !ok {
                proof {
                    assert(joinsplit@.proof.range_proofs[i as int] == joinsplit.proof.range_proofs@[i as int]@);
                    assert(!range_proof_accepted(joinsplit@.proof.range_proofs[i as int]));
                }
                return Ok(false);
            }
            i = i + 1;
        }
        let accumulator_value = match self.accumulator.serialize() {
            Ok(b) => b,
            Err(e) => {
                return Err(e);
            },
        };
        let result = joinsplit.proof.zk_proof.verify(
            joinsplit.inputs.as_slice(),
            joinsplit.outputs.as_slice(),
            accumulator_value.as_slice(),
            &self.parameters,
        );
        proof {
            assert(proofs::commitment_values(joinsplit.inputs@) =~= joinsplit@.inputs.map_values(
                |c: CommitmentView| c.value,
            ));
            assert(proofs::commitment_values(joinsplit.outputs@) =~= joinsplit@.outputs.map_values(
                |c: CommitmentView| c.value,
            ));
        }
        result
    }

    /// Looks a witness up in the cache, marking it most recent; the
    /// contents do not change.
    pub fn get_cached_witness(&mut self, key: &[u8]) -> (r: Option<Witness>)
        ensures
            final(self).spec_cache_contents() == old(self).spec_cache_contents(),
            final(self).spec_cache_capacity() == old(self).spec_cache_capacity(),
            r matches Some(w) ==> old(self).spec_cache_contents().contains_pair(key@, w@),
            r is None <==> !old(self).spec_cache_contents().dom().contains(key@),
            final(self).spec_accumulator() == old(self).spec_accumulator(),
            final(self).spec_parameters() == old(self).spec_parameters(),
            final(self).spec_commitment_scheme() == old(self).spec_commitment_scheme(),
            old(self).wf() ==> final(self).wf(),
    {
        cache_get(&mut self.witness_cache, key)
    }
}


/// The sum of the recovered amounts of inputs whose checks pass.
pub open spec fn amounts_total(
    params: ParametersView,
    generator: Seq<u8>,
    inputs: Seq<(CommitmentView, WitnessView)>,
) -> int
    decreases inputs.len(),
{
    if inputs.len() == 0 {
        0
    } else {
        (match input_check(params, generator, inputs[0].0, inputs[0].1) {
            Result::Ok(a) => a as int,
            Result::Err(_) => 0,
        }) + amounts_total(params, generator, inputs.drop_first())
    }
}

/// The sum of a list of output amounts.
pub open spec fn outputs_total(outputs: Seq<u64>) -> int
    decreases outputs.len(),
{
    if outputs.len() == 0 {
        0
    } else {
        outputs[0] + outputs_total(outputs.drop_first())
    }
}

/// The sum of recovered amounts is never negative.
pub proof fn lemma_amounts_total_nonneg(
    params: ParametersView,
    generator: Seq<u8>,
    inputs: Seq<(CommitmentView, WitnessView)>,
)
    ensures
        amounts_total(params, generator, inputs) >= 0,
    decreases inputs.len(),
{
    if inputs.len() > 0 {
        lemma_amounts_total_nonneg(params, generator, inputs.drop_first());
    }
}

/// The sum of output amounts is never negative.
pub proof fn lemma_outputs_total_nonneg(outputs: Seq<u64>)
    ensures
        outputs_total(outputs) >= 0,
    decreases outputs.len(),
{
    if outputs.len() > 0 {
        lemma_outputs_total_nonneg(outputs.drop_first());
    }
}

/// When every input check passes and the total fits, the input fold
/// accepts and yields the accumulated sum.
pub proof fn lemma_inputs_outcome_sum(
    params: ParametersView,
    generator: Seq<u8>,
    inputs: Seq<(CommitmentView, WitnessView)>,
    acc: u64,
)
    requires
        forall|i: int|
            0 <= i < inputs.len() ==> input_check(
                params,
                generator,
                (#[trigger] inputs[i]).0,
                inputs[i].1,
            ) is Ok,
        acc + amounts_total(params, generator, inputs) <= u64::MAX,
    ensures
        inputs_outcome(params, generator, inputs, acc) == Ok::<u64, LelantusError>(
            (acc + amounts_total(params, generator, inputs)) as u64,
        ),
    decreases inputs.len(),
{
    if inputs.len() > 0 {
        let rest = inputs.drop_first();
        lemma_amounts_total_nonneg(params, generator, rest);
        let amount = match input_check(params, generator, inputs[0].0, inputs[0].1) {
            Result::Ok(a) => a,
            Result::Err(_) => 0u64,
        };
        assert(forall|i: int|
            0 <= i < rest.len() ==> input_check(
                params,
                generator,
                (#[trigger] rest[i]).0,
                rest[i].1,
            ) is Ok) by {
            assert(forall|i: int| 0 <= i < rest.len() ==> rest[i] == inputs[i + 1]);
        }
        lemma_inputs_outcome_sum(params, generator, rest, (acc + amount) as u64);
    }
}

/// When every output amount is non-zero and the total fits, the output
/// fold accepts and yields the accumulated sum.
pub proof fn lemma_outputs_outcome_sum(outputs: Seq<u64>, acc: u64)
    requires
        forall|i: int| 0 <= i < outputs.len() ==> #[trigger] outputs[i] != 0,
        acc + outputs_total(outputs) <= u64::MAX,
    ensures
        outputs_outcome(outputs, acc) == Ok::<u64, LelantusError>(
            (acc + outputs_total(outputs)) as u64,
        ),
    decreases outputs.len(),
{
    if outputs.len() > 0 {
        let rest = outputs.drop_first();
        lemma_outputs_total_nonneg(rest);
        assert(forall|i: int| 0 <= i < rest.len() ==> rest[i] == outputs[i + 1]);
        lemma_outputs_outcome_sum(rest, (acc + outputs[0]) as u64);
    }
}

/// Law: a JoinSplit whose inputs all check out and whose recovered
/// amounts sum to exactly the outputs plus the fee is accepted, for any
/// counts and amounts within their ceilings.
pub proof fn lemma_balanced_joinsplit_accepted(
    params: ParametersView,
    generator: Seq<u8>,
    inputs: Seq<(CommitmentView, WitnessView)>,
    outputs: Seq<u64>,
    fee: u64,
)
    requires
        1 <= inputs.len() <= MAX_JOINSPLIT_INPUTS,
        1 <= outputs.len() <= MAX_JOINSPLIT_OUTPUTS,
        forall|i: int|
            0 <= i < inputs.len() ==> input_check(
                params,
                generator,
                (#[trigger] inputs[i]).0,
                inputs[i].1,
            ) is Ok,
        forall|i: int|
            0 <= i < outputs.len() ==> 0 < #[trigger] outputs[i] && params.min_coin_value
                <= outputs[i] && outputs[i] <= params.max_coin_value,
        fee <= MAX_FEE,
        outputs_total(outputs) + fee <= u64::MAX,
        amounts_total(params, generator, inputs) == outputs_total(outputs) + fee,
    ensures
        joinsplit_outcome(params, generator, inputs, outputs, fee) == Ok::<(), LelantusError>(()),
{
    lemma_amounts_total_nonneg(params, generator, inputs);
    lemma_outputs_total_nonneg(outputs);
    lemma_inputs_outcome_sum(params, generator, inputs, 0);
    lemma_outputs_outcome_sum(outputs, 0);
}

/// Law: with the same well-formed inputs and outputs, any sum of
/// recovered amounts other than exactly the outputs plus the fee is
/// rejected with `BalanceMismatch`.
pub proof fn lemma_unbalanced_joinsplit_rejected(
    params: ParametersView,
    generator: Seq<u8>,
    inputs: Seq<(CommitmentView, WitnessView)>,
    outputs: Seq<u64>,
    fee: u64,
)
    requires
        1 <= inputs.len() <= MAX_JOINSPLIT_INPUTS,
        1 <= outputs.len() <= MAX_JOINSPLIT_OUTPUTS,
        forall|i: int|
            0 <= i < inputs.len() ==> input_check(
                params,
                generator,
                (#[trigger] inputs[i]).0,
                inputs[i].1,
            ) is Ok,
        forall|i: int| 0 <= i < outputs.len() ==> #[trigger] outputs[i] != 0,
        fee <= MAX_FEE,
        amounts_total(params, generator, inputs) <= u64::MAX,
        outputs_total(outputs) + fee <= u64::MAX,
        amounts_total(params, generator, inputs) != outputs_total(outputs) + fee,
    ensures
        joinsplit_outcome(params, generator, inputs, outputs, fee) == Err::<(), LelantusError>(
            LE::BalanceMismatch,
        ),
{
    lemma_inputs_outcome_sum(params, generator, inputs, 0);
    lemma_outputs_outcome_sum(outputs, 0);
    lemma_amounts_total_nonneg(params, generator, inputs);
    lemma_outputs_total_nonneg(outputs);
}

/// Replacing one output amount shifts the output total by the
/// difference.
pub proof fn lemma_outputs_total_update(outputs: Seq<u64>, k: int, v: u64)
    requires
        0 <= k < outputs.len(),
    ensures
        outputs_total(outputs.update(k, v)) == outputs_total(outputs) - outputs[k] + v,
    decreases outputs.len(),
{
    let updated = outputs.update(k, v);
    if k == 0 {
        assert(updated.drop_first() =~= outputs.drop_first());
    } else {
        assert(updated[0] == outputs[0]);
        assert(updated.drop_first() =~= outputs.drop_first().update(k - 1, v));
        lemma_outputs_total_update(outputs.drop_first(), k - 1, v);
    }
}

/// Law: altering any single output amount of a balanced JoinSplit — by
/// one or by any other non-zero difference — makes assembly fail with
/// `BalanceMismatch`.
pub proof fn lemma_altered_output_rejected(
    params: ParametersView,
    generator: Seq<u8>,
    inputs: Seq<(CommitmentView, WitnessView)>,
    outputs: Seq<u64>,
    fee: u64,
    k: int,
    v: u64,
)
    requires
        1 <= inputs.len() <= MAX_JOINSPLIT_INPUTS,
        1 <= outputs.len() <= MAX_JOINSPLIT_OUTPUTS,
        forall|i: int|
            0 <= i < inputs.len() ==> input_check(
                params,
                generator,
                (#[trigger] inputs[i]).0,
                inputs[i].1,
            ) is Ok,
        forall|i: int| 0 <= i < outputs.len() ==> #[trigger] outputs[i] != 0,
        fee <= MAX_FEE,
        outputs_total(outputs) + fee <= u64::MAX,
        amounts_total(params, generator, inputs) == outputs_total(outputs) + fee,
        0 <= k < outputs.len(),
        v != outputs[k],
        v != 0,
        outputs_total(outputs.update(k, v)) + fee <= u64::MAX,
    ensures
        joinsplit_outcome(params, generator, inputs, outputs.update(k, v), fee) == Err::<
            (),
            LelantusError,
        >(LE::BalanceMismatch),
{
    let altered = outputs.update(k, v);
    lemma_outputs_total_update(outputs, k, v);
    assert(forall|i: int|
        0 <= i < altered.len() ==> #[trigger] altered[i] != 0) by {
        assert(forall|i: int| 0 <= i < altered.len() && i != k ==> altered[i] == outputs[i]);
    }
    lemma_unbalanced_joinsplit_rejected(params, generator, inputs, altered, fee);
}

} // verus!
