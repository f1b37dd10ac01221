//! Non-interactive proofs over commitments: a range proof as a
//! deterministic hash opening of a commitment and a bit length, and a
//! knowledge proof whose challenge, response and proof data are chained
//! digests in Fiat-Shamir style.
//!
//! Creation folds the fee into the challenge; verification folds the
//! accumulator snapshot into it instead. This creation/verification
//! asymmetry is part of the protocol as it stands: it is stated plainly
//! in the contracts here rather than silently resolved.

use vstd::prelude::*;
use crate::bytes::{u64_le, u64_le_bytes, append_bytes, bytes_eq, clone_bytes};
use crate::commitment::{Commitment, CommitmentView};
use crate::crypto::{digest_hex, hash_hex};
use crate::errors::LelantusError;
use crate::parameters::LelantusParameters;
use crate::witness::Witness;

verus! {

/// The concatenation of a list of byte strings, in order.
pub open spec fn concat_values(values: Seq<Seq<u8>>) -> Seq<u8>
    decreases values.len(),
{
    if values.len() == 0 {
        Seq::<u8>::empty()
    } else {
        concat_values(values.drop_last()) + values.last()
    }
}

/// Appending one byte string extends the concatenation at its end.
pub proof fn lemma_concat_snoc(values: Seq<Seq<u8>>, v: Seq<u8>)
    ensures
        concat_values(values.push(v)) == concat_values(values) + v,
{
    assert(values.push(v).drop_last() =~= values);
    assert(values.push(v).last() == v);
}

/// The commitment values of a list of commitments, in order.
pub open spec fn commitment_values(cs: Seq<Commitment>) -> Seq<Seq<u8>> {
    cs.map_values(|c: Commitment| c.value@)
}

/// The input-side commitment values of a list of input pairs, in order.
pub open spec fn input_commitment_values(inputs: Seq<(Commitment, Witness)>) -> Seq<Seq<u8>> {
    inputs.map_values(|p: (Commitment, Witness)| p.0.value@)
}

/// The witness randomness of a list of input pairs, in order.
pub open spec fn input_witness_randomness(inputs: Seq<(Commitment, Witness)>) -> Seq<Seq<u8>> {
    inputs.map_values(|p: (Commitment, Witness)| p.1.commitment.randomness@)
}

/// The proof data of a range proof: the digest of the commitment value and
/// the bit length.
pub open spec fn range_proof_data(commitment_value: Seq<u8>, bit_length: usize) -> Seq<u8> {
    digest_hex(commitment_value + u64_le(bit_length as u64))
}

/// The challenge at proof creation: the digest of all input commitment
/// values, all output commitment values, and the fee.
pub open spec fn zk_challenge_create(
    input_values: Seq<Seq<u8>>,
    output_values: Seq<Seq<u8>>,
    fee: u64,
) -> Seq<u8> {
    digest_hex(concat_values(input_values) + concat_values(output_values) + u64_le(fee))
}

/// The challenge expected at verification: the digest of all input
/// commitment values, all output commitment values, and the accumulator
/// snapshot — the snapshot standing where creation put the fee.
pub open spec fn zk_challenge_verify(
    input_values: Seq<Seq<u8>>,
    output_values: Seq<Seq<u8>>,
    accumulator_value: Seq<u8>,
) -> Seq<u8> {
    digest_hex(concat_values(input_values) + concat_values(output_values) + accumulator_value)
}

/// The response: the digest of the challenge and all input witnesses'
/// randomness.
pub open spec fn zk_response(challenge: Seq<u8>, randomness_values: Seq<Seq<u8>>) -> Seq<u8> {
    digest_hex(challenge + concat_values(randomness_values))
}

/// The mathematical content of a range proof.
pub ghost struct RangeProofView {
    /// Proof data bytes.
    pub proof_data: Seq<u8>,
    /// Commitment value being proven.
    pub commitment: Seq<u8>,
    /// Bit length of the range.
    pub bit_length: usize,
}

/// A range proof for a commitment: a deterministic hash opening, not an
/// asymptotically sound range proof.
#[derive(Debug, Clone)]
pub struct RangeProof {
    /// Proof data.
    pub proof_data: Vec<u8>,
    /// Commitment value being proven.
    pub commitment: Vec<u8>,
    /// Bit length of the range.
    pub bit_length: usize,
}

impl View for RangeProof {
    type V = RangeProofView;

    open spec fn view(&self) -> RangeProofView {
        RangeProofView {
            proof_data: self.proof_data@,
            commitment: self.commitment@,
            bit_length: self.bit_length,
        }
    }
}

/// Whether a range proof's data matches its commitment and bit length.
pub open spec fn range_proof_accepted(p: RangeProofView) -> bool {
    p.proof_data == range_proof_data(p.commitment, p.bit_length)
}

impl RangeProof {
    /// Creates the range proof of a commitment under the parameter set's
    /// range-proof bit length.
    pub fn create(commitment: &Commitment, parameters: &LelantusParameters) -> (r: Result<
        Self,
        LelantusError,
    >)
        ensures
            r matches Ok(p) && p@ == (RangeProofView {
                proof_data: range_proof_data(commitment@.value, parameters@.range_proof_bits),
                commitment: commitment@.value,
                bit_length: parameters@.range_proof_bits,
            }),
    {
        let mut preimage = clone_bytes(&commitment.value);
        let bits = u64_le_bytes(parameters.range_proof_bits as u64);
        append_bytes(&mut preimage, bits.as_slice());
        let proof_data = hash_hex(preimage.as_slice());
        Ok(
            RangeProof {
                proof_data,
                commitment: clone_bytes(&commitment.value),
                bit_length: parameters.range_proof_bits,
            },
        )
    }

    /// Recomputes the proof data and compares: `Ok(true)` exactly when it
    /// matches.
    pub fn verify(&self, _parameters: &LelantusParameters) -> (r: Result<bool, LelantusError>)
        ensures
            r matches Ok(b) && b == range_proof_accepted(self@),
    {
        let mut preimage = clone_bytes(&self.commitment);
        let bits = u64_le_bytes(self.bit_length as u64);
        append_bytes(&mut preimage, bits.as_slice());
        let expected_proof = hash_hex(preimage.as_slice());
        Ok(bytes_eq(self.proof_data.as_slice(), expected_proof.as_slice()))
    }
}

/// The mathematical content of a knowledge proof.
pub ghost struct ZKProofView {
    /// Proof data bytes.
    pub proof_data: Seq<u8>,
    /// Challenge bytes.
    pub challenge: Seq<u8>,
    /// Response bytes.
    pub response: Seq<u8>,
}

/// The knowledge proof of a JoinSplit.
#[derive(Debug, Clone)]
pub struct ZKProof {
    /// Proof data.
    pub proof_data: Vec<u8>,
    /// Challenge.
    pub challenge: Vec<u8>,
    /// Response.
    pub response: Vec<u8>,
}

impl View for ZKProof {
    type V = ZKProofView;

    open spec fn view(&self) -> ZKProofView {
        ZKProofView {
            proof_data: self.proof_data@,
            challenge: self.challenge@,
            response: self.response@,
        }
    }
}

/// Whether a knowledge proof is accepted against the given commitment
/// values and accumulator snapshot: its challenge equals the
/// verification-side challenge, and its proof data is the digest of
/// challenge and response.
pub open spec fn zk_proof_accepted(
    p: ZKProofView,
    input_values: Seq<Seq<u8>>,
    output_values: Seq<Seq<u8>>,
    accumulator_value: Seq<u8>,
) -> bool {
    &&& p.challenge == zk_challenge_verify(input_values, output_values, accumulator_value)
    &&& p.proof_data == digest_hex(p.challenge + p.response)
}

/// Concatenates the commitment values of a slice of commitments.
fn concat_commitment_values(cs: &[Commitment]) -> (r: Vec<u8>)
    ensures
        r@ == concat_values(commitment_values(cs@)),
{
    let ghost values = commitment_values(cs@);
    let mut r: Vec<u8> = Vec::new();
    let mut i: usize = 0;
    proof {
        assert(values.take(0) =~= Seq::<Seq<u8>>::empty());
    }
    while i < cs.len()
        invariant
            i <= cs@.len(),
            values == commitment_values(cs@),
            values.len() == cs@.len(),
            forall|j: int| 0 <= j < values.len() ==> values[j] == cs@[j].value@,
            r@ == concat_values(values.take(i as int)),
        decreases cs@.len() - i,
    {
        append_bytes(&mut r, cs[i].value.as_slice());
        proof {
            assert(values.take(i + 1).drop_last() =~= values.take(i as int));
            lemma_concat_snoc(values.take(i as int), values[i as int]);
        }
        i = i + 1;
    }
    proof {
        assert(values.take(values.len() as int) =~= values);
    }
    r
}

impl ZKProof {
    /// Creates the knowledge proof of a JoinSplit: the challenge digests
    /// all input and output commitment values and the fee; the response
    /// digests the challenge and all input witnesses' randomness; the
    /// proof data digests challenge and response.
    pub fn create(
        inputs: &[(Commitment, Witness)],
        outputs: &[Commitment],
        fee: u64,
        _parameters: &LelantusParameters,
    ) -> (r: Result<Self, LelantusError>)
        ensures
            r matches Ok(p) && p@ == spec_zk_proof(
                input_commitment_values(inputs@),
                commitment_values(outputs@),
                input_witness_randomness(inputs@),
                fee,
            ),
    {
        let ghost input_values = input_commitment_values(inputs@);
        let ghost randomness_values = input_witness_randomness(inputs@);

        // Challenge: all input values, all output values, then the fee.
        let mut challenge_input: Vec<u8> = Vec::new();
        let mut i: usize = 0;
        proof {
            assert(input_values.take(0) =~= Seq::<Seq<u8>>::empty());
        }
        while i < inputs.len()
            invariant
                i <= inputs@.len(),
                input_values == input_commitment_values(inputs@),
                input_values.len() == inputs@.len(),
                forall|j: int| 0 <= j < input_values.len() ==> input_values[j] == inputs@[j].0.value@,
                challenge_input@ == concat_values(input_values.take(i as int)),
            decreases inputs@.len() - i,
        {
            append_bytes(&mut challenge_input, inputs[i].0.value.as_slice());
            proof {
                assert(input_values.take(i + 1).drop_last() =~= input_values.take(i as int));
                lemma_concat_snoc(input_values.take(i as int), input_values[i as int]);
            }
            i = i + 1;
        }
        proof {
            assert(input_values.take(input_values.len() as int) =~= input_values);
        }
        let output_concat = concat_commitment_values(outputs);
        append_bytes(&mut challenge_input, output_concat.as_slice());
        let fee_bytes = u64_le_bytes(fee);
        append_bytes(&mut challenge_input, fee_bytes.as_slice());
        let challenge = hash_hex(challenge_input.as_slice());

        // Response: the challenge, then all input witnesses' randomness.
        let mut response_input = clone_bytes(&challenge);
        let mut k: usize = 0;
        proof {
            assert(randomness_values.take(0) =~= Seq::<Seq<u8>>::empty());
            assert(challenge@ + concat_values(randomness_values.take(0)) =~= challenge@);
        }
        while k < inputs.len()
            invariant
                k <= inputs@.len(),
                randomness_values == input_witness_randomness(inputs@),
                randomness_values.len() == inputs@.len(),
                forall|j: int|
                    0 <= j < randomness_values.len() ==> randomness_values[j]
                        == inputs@[j].1.commitment.randomness@,
                response_input@ == challenge@ + concat_values(randomness_values.take(k as int)),
            decreases inputs@.len() - k,
        {
            append_bytes(&mut response_input, inputs[k].1.commitment.randomness.as_slice());
            proof {
                assert(randomness_values.take(k + 1).drop_last() =~= randomness_values.take(
                    k as int,
                ));
                lemma_concat_snoc(randomness_values.take(k as int), randomness_values[k as int]);
                assert(challenge@ + concat_values(randomness_values.take(k as int))
                    + randomness_values[k as int] =~= challenge@ + concat_values(
                    randomness_values.take(k + 1),
                ));
            }
            k = k + 1;
        }
        proof {
            assert(randomness_values.take(randomness_values.len() as int) =~= randomness_values);
        }
        let response = hash_hex(response_input.as_slice());

        // Proof data: the digest of challenge and response.
        let mut proof_input = clone_bytes(&challenge);
        append_bytes(&mut proof_input, response.as_slice());
        let proof_data = hash_hex(proof_input.as_slice());

        Ok(ZKProof { proof_data, challenge, response })
    }

    /// Verifies the proof against commitment values and an accumulator
    /// snapshot: recomputes the verification-side challenge — the snapshot
    /// standing where creation put the fee — compares it, then checks the
    /// proof data against the digest of challenge and response.
    pub fn verify(
        &self,
        inputs: &[Commitment],
        outputs: &[Commitment],
        accumulator_value: &[u8],
        _parameters: &LelantusParameters,
    ) -> (r: Result<bool, LelantusError>)
        ensures
            r matches Ok(b) && b == zk_proof_accepted(
                self@,
                commitment_values(inputs@),
                commitment_values(outputs@),
                accumulator_value@,
            ),
    {
        let mut challenge_input = concat_commitment_values(inputs);
        let output_concat = concat_commitment_values(outputs);
        append_bytes(&mut challenge_input, output_concat.as_slice());
        append_bytes(&mut challenge_input, accumulator_value);
        let expected_challenge = hash_hex(challenge_input.as_slice());

        if !bytes_eq(self.challenge.as_slice(), expected_challenge.as_slice()) {
            return Ok(false);
        }

        let mut proof_input = clone_bytes(&self.challenge);
        append_bytes(&mut proof_input, self.response.as_slice());
        let expected_proof = hash_hex(proof_input.as_slice());
        Ok(bytes_eq(self.proof_data.as_slice(), expected_proof.as_slice()))
    }
}

/// The knowledge proof that `create` returns, as a function of the
/// commitment values, the witnesses' randomness and the fee.
pub open spec fn spec_zk_proof(
    input_values: Seq<Seq<u8>>,
    output_values: Seq<Seq<u8>>,
    randomness_values: Seq<Seq<u8>>,
    fee: u64,
) -> ZKProofView {
    let challenge = zk_challenge_create(input_values, output_values, fee);
    let response = zk_response(challenge, randomness_values);
    ZKProofView { proof_data: digest_hex(challenge + response), challenge, response }
}

} // verus!
