//! Value commitments: a commitment binds a 64-bit amount to the hexadecimal
//! SHA-512 digest of generator, amount and randomness, and opens by
//! recomputation under the stored randomness.

use vstd::prelude::*;
use crate::bytes::{u64_le, u64_le_bytes, append_bytes, bytes_eq, clone_bytes};
use crate::crypto::{digest_hex, hash_hex, random_bytes};
use crate::errors::LelantusError;
use crate::parameters::{LelantusParameters, ParametersView, params_valid};

verus! {

/// The mathematical content of a commitment.
pub ghost struct CommitmentView {
    /// Commitment value bytes.
    pub value: Seq<u8>,
    /// Randomness bytes.
    pub randomness: Seq<u8>,
}

/// A value commitment: the digest together with the randomness that opens
/// it.
#[derive(Debug, Clone, PartialEq, Eq)]
pub struct Commitment {
    /// Commitment value (hexadecimal digest bytes).
    pub value: Vec<u8>,
    /// Randomness used in the commitment.
    pub randomness: Vec<u8>,
}

impl View for Commitment {
    type V = CommitmentView;

    open spec fn view(&self) -> CommitmentView {
        CommitmentView { value: self.value@, randomness: self.randomness@ }
    }
}

/// An element of the accumulator, derived one to one from a commitment.
#[derive(Debug, Clone, PartialEq, Eq)]
pub struct AccumulatorElement {
    /// Element value bytes.
    pub value: Vec<u8>,
}

impl Commitment {
    /// Copies this commitment field by field.
    pub fn duplicate(&self) -> (r: Self)
        ensures
            r@ == self@,
    {
        Commitment {
            value: clone_bytes(&self.value),
            randomness: clone_bytes(&self.randomness),
        }
    }

    /// Converts this commitment to an accumulator element carrying its
    /// value bytes.
    pub fn to_element(&self) -> (r: Result<AccumulatorElement, LelantusError>)
        ensures
            r matches Ok(e) && e.value@ == self.value@,
    {
        Ok(AccumulatorElement { value: clone_bytes(&self.value) })
    }
}

/// The commitment digest of a generator, an amount and randomness bytes:
/// the hexadecimal SHA-512 digest of their concatenation, the amount in
/// little-endian bytes.
pub open spec fn commitment_value_of(generator: Seq<u8>, value: u64, randomness: Seq<u8>) -> Seq<
    u8,
> {
    digest_hex(generator + u64_le(value) + randomness)
}

/// The commitment scheme: the validated parameter set and its generator.
#[derive(Debug)]
pub struct CommitmentScheme {
    parameters: LelantusParameters,
    generator: Vec<u8>,
}

impl CommitmentScheme {
    /// The parameter set this scheme was built from.
    pub closed spec fn spec_parameters(&self) -> ParametersView {
        self.parameters@
    }

    /// The generator bytes this scheme commits under.
    pub closed spec fn spec_generator(&self) -> Seq<u8> {
        self.generator@
    }

    /// Whether this scheme is well formed: valid parameters, and the stored
    /// generator is the parameter set's generator.
    pub open spec fn wf(&self) -> bool {
        params_valid(self.spec_parameters()) && self.spec_generator()
            == self.spec_parameters().generator
    }

    /// Builds a scheme over a validated parameter set; fails with
    /// `InvalidParameter` exactly when validation does.
    pub fn new(parameters: &LelantusParameters) -> (r: Result<Self, LelantusError>)
        ensures
            r is Ok <==> params_valid(parameters@),
            r matches Ok(s) ==> s.spec_parameters() == parameters@ && s.wf(),
            r matches Err(e) ==> e == LelantusError::InvalidParameter,
    {
        match parameters.validate() {
            Ok(()) => Ok(
                CommitmentScheme {
                    parameters: parameters.duplicate(),
                    generator: clone_bytes(&parameters.generator),
                },
            ),
            Err(e) => Err(e),
        }
    }

    /// The concatenation `generator ‖ value ‖ randomness` fed to the digest.
    fn commitment_preimage(&self, value: u64, randomness: &Vec<u8>) -> (r: Vec<u8>)
        ensures
            r@ == self.spec_generator() + u64_le(value) + randomness@,
    {
        let mut data = clone_bytes(&self.generator);
        let value_bytes = u64_le_bytes(value);
        append_bytes(&mut data, value_bytes.as_slice());
        append_bytes(&mut data, randomness.as_slice());
        data
    }

    /// Commits to `value` under fresh randomness of exactly
    /// `randomness_bits / 8` bytes; fails with `InvalidCommitment` exactly
    /// when `value` is outside `[min_coin_value, max_coin_value]`.
    pub fn commit(&self, value: u64) -> (r: Result<Commitment, LelantusError>)
        ensures
            r is Ok <==> self.spec_parameters().min_coin_value <= value
                <= self.spec_parameters().max_coin_value,
            r matches Ok(c) ==> c@.randomness.len() == self.spec_parameters().randomness_bits as int
                / 8 && c@.value == commitment_value_of(self.spec_generator(), value, c@.randomness),
            r matches Err(e) ==> e == LelantusError::InvalidCommitment,
    {
        if value > self.parameters.max_coin_value {
            return Err(LelantusError::InvalidCommitment);
        }
        if value < self.parameters.min_coin_value {
            return Err(LelantusError::InvalidCommitment);
        }
        let randomness = random_bytes(self.parameters.randomness_bits / 8);
        let preimage = self.commitment_preimage(value, &randomness);
        let commitment_value = hash_hex(preimage.as_slice());
        Ok(Commitment { value: commitment_value, randomness })
    }

    /// Commits to `value` under the supplied randomness, deterministically;
    /// fails with `InvalidCommitment` exactly when `value` is out of bounds
    /// or the randomness has the wrong length.
    pub fn commit_with_randomness(&self, value: u64, randomness: Vec<u8>) -> (r: Result<
        Commitment,
        LelantusError,
    >)
        ensures
            r is Ok <==> self.spec_parameters().min_coin_value <= value
                <= self.spec_parameters().max_coin_value && randomness@.len()
                == self.spec_parameters().randomness_bits as int / 8,
            r matches Ok(c) ==> c@.randomness == randomness@ && c@.value == commitment_value_of(
                self.spec_generator(),
                value,
                randomness@,
            ),
            r matches Err(e) ==> e == LelantusError::InvalidCommitment,
    {
        if value > self.parameters.max_coin_value {
            return Err(LelantusError::InvalidCommitment);
        }
        if value < self.parameters.min_coin_value {
            return Err(LelantusError::InvalidCommitment);
        }
        if randomness.len() != self.parameters.randomness_bits / 8 {
            return Err(LelantusError::InvalidCommitment);
        }
        let preimage = self.commitment_preimage(value, &randomness);
        let commitment_value = hash_hex(preimage.as_slice());
        Ok(Commitment { value: commitment_value, randomness })
    }

    /// Opens a commitment at `value` by recomputing it under the stored
    /// randomness and comparing; pure, no side effects. Fails with
    /// `InvalidCommitment` exactly when recomputation would.
    pub fn verify(&self, commitment: &Commitment, value: u64) -> (r: Result<bool, LelantusError>)
        ensures
            r is Ok <==> self.spec_parameters().min_coin_value <= value
                <= self.spec_parameters().max_coin_value && commitment@.randomness.len()
                == self.spec_parameters().randomness_bits as int / 8,
            r matches Ok(b) ==> b == (commitment@.value == commitment_value_of(
                self.spec_generator(),
                value,
                commitment@.randomness,
            )),
            r matches Err(e) ==> e == LelantusError::InvalidCommitment,
    {
        let randomness = clone_bytes(&commitment.randomness);
        match self.commit_with_randomness(value, randomness) {
            Ok(recomputed) => Ok(bytes_eq(recomputed.value.as_slice(), commitment.value.as_slice())),
            Err(e) => Err(e),
        }
    }

    /// The generator bytes.
    pub fn generator(&self) -> (r: &[u8])
        ensures
            r@ == self.spec_generator(),
    {
        self.generator.as_slice()
    }

    /// The parameter set.
    pub fn parameters(&self) -> (r: &LelantusParameters)
        ensures
            r@ == self.spec_parameters(),
    {
        &self.parameters
    }
}

/// Law: opening a commitment at the value it was created for always
/// succeeds and yields `true` — whatever randomness `commit` drew.
pub proof fn lemma_commit_then_verify(
    s: &CommitmentScheme,
    value: u64,
    c: Commitment,
    vr: Result<bool, LelantusError>,
)
    requires
        call_ensures(CommitmentScheme::commit, (s, value), Ok(c)),
        call_ensures(CommitmentScheme::verify, (s, &c, value), vr),
    ensures
        vr == Ok::<bool, LelantusError>(true),
{
}

} // verus!
