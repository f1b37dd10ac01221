//! Protocol parameters: privacy level, bit lengths, coin-value bounds and
//! the byte strings every hash chain is anchored to. Validation runs on
//! every scheme or accumulator construction and fails closed.

use vstd::prelude::*;
use vstd::string::StringExecFns;
use crate::bytes::clone_bytes;
use crate::errors::LelantusError;

verus! {

/// Base units per coin.
pub const MIST_PER_SLVR: u64 = 100_000_000;

/// Largest supply of coins, used for the default coin-value ceiling.
pub const MAX_SUPPLY_SLVR: u64 = 21_000_000;

/// Privacy level of a transaction: a larger anonymity set costs a larger
/// proof.
#[derive(Debug, Clone, Copy, PartialEq, Eq, Structural)]
pub enum PrivacyLevel {
    /// Standard privacy (default).
    Standard,
    /// Enhanced privacy with a larger anonymity set.
    Enhanced,
    /// Maximum privacy with the largest anonymity set.
    Maximum,
}

impl PrivacyLevel {
    /// The size of the anonymity set at this privacy level.
    pub fn anonymity_set_size(&self) -> (r: usize)
        ensures
            r == self.spec_anonymity_set_size(),
    {
        match self {
            PrivacyLevel::Standard => 64,
            PrivacyLevel::Enhanced => 256,
            PrivacyLevel::Maximum => 1024,
        }
    }

    /// The anonymity-set size as a specification value.
    pub open spec fn spec_anonymity_set_size(&self) -> usize {
        match self {
            PrivacyLevel::Standard => 64usize,
            PrivacyLevel::Enhanced => 256usize,
            PrivacyLevel::Maximum => 1024usize,
        }
    }

    /// The size in bytes of a proof at this privacy level.
    pub fn proof_size(&self) -> (r: usize)
        ensures
            r == self.spec_proof_size(),
    {
        match self {
            PrivacyLevel::Standard => 2048,
            PrivacyLevel::Enhanced => 4096,
            PrivacyLevel::Maximum => 8192,
        }
    }

    /// The proof size as a specification value.
    pub open spec fn spec_proof_size(&self) -> usize {
        match self {
            PrivacyLevel::Standard => 2048usize,
            PrivacyLevel::Enhanced => 4096usize,
            PrivacyLevel::Maximum => 8192usize,
        }
    }
}

/// The mathematical content of a parameter set.
pub ghost struct ParametersView {
    /// Privacy level.
    pub privacy_level: PrivacyLevel,
    /// Accumulator modulus bit length.
    pub accumulator_modulus_bits: usize,
    /// Commitment randomness bit length.
    pub randomness_bits: usize,
    /// Range proof bit length.
    pub range_proof_bits: usize,
    /// Maximum coin value.
    pub max_coin_value: u64,
    /// Minimum coin value.
    pub min_coin_value: u64,
    /// Accumulator base bytes.
    pub accumulator_base: Seq<u8>,
    /// Generator bytes.
    pub generator: Seq<u8>,
    /// Hash function identifier.
    pub hash_function: Seq<char>,
    /// Proof system identifier.
    pub proof_system: Seq<char>,
}

/// Whether a parameter set is acceptable: bit-length floors, a non-trivial
/// coin-value range, and non-empty anchor byte strings.
pub open spec fn params_valid(p: ParametersView) -> bool {
    &&& p.accumulator_modulus_bits >= 1024
    &&& p.randomness_bits >= 512
    &&& p.range_proof_bits >= 32
    &&& p.max_coin_value > p.min_coin_value
    &&& p.accumulator_base.len() > 0
    &&& p.generator.len() > 0
}

/// Protocol parameters.
#[derive(Debug, Clone)]
pub struct LelantusParameters {
    /// Privacy level.
    pub privacy_level: PrivacyLevel,
    /// Accumulator modulus bit length.
    pub accumulator_modulus_bits: usize,
    /// Commitment randomness bit length.
    pub randomness_bits: usize,
    /// Range proof bit length.
    pub range_proof_bits: usize,
    /// Maximum coin value, in base units.
    pub max_coin_value: u64,
    /// Minimum coin value, in base units.
    pub min_coin_value: u64,
    /// Accumulator base.
    pub accumulator_base: Vec<u8>,
    /// Generator bytes for commitments.
    pub generator: Vec<u8>,
    /// Hash function identifier.
    pub hash_function: String,
    /// Proof system identifier.
    pub proof_system: String,
}

impl View for LelantusParameters {
    type V = ParametersView;

    open spec fn view(&self) -> ParametersView {
        ParametersView {
            privacy_level: self.privacy_level,
            accumulator_modulus_bits: self.accumulator_modulus_bits,
            randomness_bits: self.randomness_bits,
            range_proof_bits: self.range_proof_bits,
            max_coin_value: self.max_coin_value,
            min_coin_value: self.min_coin_value,
            accumulator_base: self.accumulator_base@,
            generator: self.generator@,
            hash_function: self.hash_function@,
            proof_system: self.proof_system@,
        }
    }
}

impl Default for LelantusParameters {
    /// The default parameter set: standard privacy, 4096-bit accumulator
    /// modulus, 512 randomness bits, 128 range-proof bits, the full supply
    /// as coin-value ceiling, and fixed anchor bytes.
    fn default() -> (r: Self)
        ensures
            r@ == spec_default_parameters(),
    {
        let max_coin_value = MAX_SUPPLY_SLVR * MIST_PER_SLVR;
        let r = LelantusParameters {
            privacy_level: PrivacyLevel::Standard,
            accumulator_modulus_bits: 4096,
            randomness_bits: 512,
            range_proof_bits: 128,
            max_coin_value,
            min_coin_value: 1,
            accumulator_base: make_repeated(2u8, 512),
            generator: make_repeated(3u8, 512),
            hash_function: String::from_str("sha512"),
            proof_system: String::from_str("bulletproofs"),
        };
        proof {
            assert(r@.accumulator_base =~= spec_default_parameters().accumulator_base);
            assert(r@.generator =~= spec_default_parameters().generator);
        }
        r
    }
}

/// The default parameter set as a specification value.
pub open spec fn spec_default_parameters() -> ParametersView {
    ParametersView {
        privacy_level: PrivacyLevel::Standard,
        accumulator_modulus_bits: 4096usize,
        randomness_bits: 512usize,
        range_proof_bits: 128usize,
        max_coin_value: (MAX_SUPPLY_SLVR * MIST_PER_SLVR) as u64,
        min_coin_value: 1u64,
        accumulator_base: Seq::new(512, |i: int| 2u8),
        generator: Seq::new(512, |i: int| 3u8),
        hash_function: "sha512"@,
        proof_system: "bulletproofs"@,
    }
}

/// Builds a vector of `n` copies of one byte.
fn make_repeated(b: u8, n: usize) -> (r: Vec<u8>)
    ensures
        r@ == Seq::new(n as nat, |i: int| b),
{
    let mut r: Vec<u8> = Vec::new();
    let mut i: usize = 0;
    while i < n
        invariant
            i <= n,
            r@.len() == i,
            forall|j: int| 0 <= j < i ==> r@[j] == b,
        decreases n - i,
    {
        r.push(b);
        i = i + 1;
    }
    assert(r@ =~= Seq::new(n as nat, |i: int| b));
    r
}

impl LelantusParameters {
    /// The default parameter set with the given privacy level.
    pub fn with_privacy_level(privacy_level: PrivacyLevel) -> (r: Self)
        ensures
            r@ == (ParametersView { privacy_level, ..spec_default_parameters() }),
    {
        let mut r = LelantusParameters::default();
        r.privacy_level = privacy_level;
        r
    }

    /// Checks the parameter floors; fails with `InvalidParameter` exactly
    /// when one is broken.
    pub fn validate(&self) -> (r: Result<(), LelantusError>)
        ensures
            r is Ok <==> params_valid(self@),
            r is Err ==> r == Result::<(), LelantusError>::Err(LelantusError::InvalidParameter),
    {
        if self.accumulator_modulus_bits < 1024 {
            return Err(LelantusError::InvalidParameter);
        }
        if self.randomness_bits < 512 {
            return Err(LelantusError::InvalidParameter);
        }
        if self.range_proof_bits < 32 {
            return Err(LelantusError::InvalidParameter);
        }
        if self.max_coin_value <= self.min_coin_value {
            return Err(LelantusError::InvalidParameter);
        }
        if self.accumulator_base.len() == 0 || self.generator.len() == 0 {
            return Err(LelantusError::InvalidParameter);
        }
        Ok(())
    }

    /// The anonymity-set size of this parameter set's privacy level.
    pub fn anonymity_set_size(&self) -> (r: usize)
        ensures
            r == self.privacy_level.spec_anonymity_set_size(),
    {
        self.privacy_level.anonymity_set_size()
    }

    /// The proof size of this parameter set's privacy level.
    pub fn proof_size(&self) -> (r: usize)
        ensures
            r == self.privacy_level.spec_proof_size(),
    {
        self.privacy_level.proof_size()
    }

    /// Copies this parameter set field by field.
    pub fn duplicate(&self) -> (r: Self)
        ensures
            r@ == self@,
    {
        LelantusParameters {
            privacy_level: self.privacy_level,
            accumulator_modulus_bits: self.accumulator_modulus_bits,
            randomness_bits: self.randomness_bits,
            range_proof_bits: self.range_proof_bits,
            max_coin_value: self.max_coin_value,
            min_coin_value: self.min_coin_value,
            accumulator_base: clone_bytes(&self.accumulator_base),
            generator: clone_bytes(&self.generator),
            hash_function: self.hash_function.clone(),
            proof_system: self.proof_system.clone(),
        }
    }
}

} // verus!
