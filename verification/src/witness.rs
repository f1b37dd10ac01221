//! Per-coin spending witnesses. A witness binds a commitment to its
//! accumulator position and carries the coin amount under authenticated
//! encryption: an 8-byte keystream-encrypted amount, a 32-byte truncated
//! HMAC-SHA-512 tag, and optional trailing metadata. Keys are derived from
//! the commitment's randomness and value by HMAC extraction, then expanded
//! into domain-separated decryption and authentication keys bound to the
//! witness index and metadata. The tag is checked in constant time before
//! any decryption; any mismatch fails closed.

use vstd::prelude::*;
use vstd::string::StrSliceExecFns;
use vstd::utf8::encode_utf8;
use crate::bytes::{u64_le, u64_from_le, u64_le_bytes, u64_read_le, append_bytes, subvec};
use crate::commitment::{Commitment, CommitmentView};
use crate::crypto::{hmac_sha512, hmac_sha512_of};
use crate::errors::LelantusError;

verus! {

/// The mathematical content of a witness.
pub ghost struct WitnessView {
    /// The commitment being witnessed.
    pub commitment: CommitmentView,
    /// Index in the accumulator.
    pub index: usize,
    /// Accumulator value at witness creation.
    pub accumulator_value: Seq<u8>,
    /// Membership proof bytes.
    pub membership_proof: Seq<u8>,
    /// Encrypted coin amount with tag and metadata.
    pub encrypted_value: Seq<u8>,
}

/// A witness for a coin in the accumulator.
#[derive(Debug, Clone)]
pub struct Witness {
    /// The commitment being witnessed.
    pub commitment: Commitment,
    /// Index in the accumulator.
    pub index: usize,
    /// Accumulator value at witness creation.
    pub accumulator_value: Vec<u8>,
    /// Proof of membership.
    pub membership_proof: Vec<u8>,
    /// Coin value, encrypted.
    pub encrypted_value: Vec<u8>,
}

impl View for Witness {
    type V = WitnessView;

    open spec fn view(&self) -> WitnessView {
        WitnessView {
            commitment: self.commitment@,
            index: self.index,
            accumulator_value: self.accumulator_value@,
            membership_proof: self.membership_proof@,
            encrypted_value: self.encrypted_value@,
        }
    }
}

/// Domain-separation label of the decryption key.
pub open spec fn dec_key_label() -> Seq<u8> {
    encode_utf8("lelantus_amount_decryption_key"@)
}

/// Domain-separation label of the authentication key.
pub open spec fn auth_key_label() -> Seq<u8> {
    encode_utf8("lelantus_hmac_verification_key"@)
}

/// The extraction step: a pseudorandom key from the commitment's
/// randomness and value.
pub open spec fn witness_prk(w: WitnessView) -> Seq<u8> {
    hmac_sha512_of(w.commitment.randomness, w.commitment.value)
}

/// The metadata bytes of the encrypted payload: everything past the tag.
pub open spec fn witness_metadata(w: WitnessView) -> Seq<u8> {
    w.encrypted_value.skip(40)
}

/// The encrypted 8-byte amount block of the payload.
pub open spec fn witness_cipher_block(w: WitnessView) -> Seq<u8> {
    w.encrypted_value.take(8)
}

/// The expansion step for decryption: a key bound to the label, the
/// witness index and the metadata.
pub open spec fn witness_dec_key(w: WitnessView) -> Seq<u8> {
    hmac_sha512_of(
        witness_prk(w),
        dec_key_label() + u64_le(w.index as u64) + witness_metadata(w),
    )
}

/// The expansion step for authentication: a key bound to the label and the
/// witness index.
pub open spec fn witness_auth_key(w: WitnessView) -> Seq<u8> {
    hmac_sha512_of(witness_prk(w), auth_key_label() + u64_le(w.index as u64))
}

/// The authentication tag the payload must carry: the first 32 bytes of
/// the HMAC over cipher block, index and metadata under the
/// authentication key.
pub open spec fn witness_expected_tag(w: WitnessView) -> Seq<u8> {
    hmac_sha512_of(
        witness_auth_key(w),
        witness_cipher_block(w) + u64_le(w.index as u64) + witness_metadata(w),
    ).take(32)
}

/// Bytewise exclusive or of `a` with the first `a.len()` bytes of `b`.
pub open spec fn xor_bytes(a: Seq<u8>, b: Seq<u8>) -> Seq<u8>
    recommends
        a.len() <= b.len(),
{
    Seq::new(a.len(), |i: int| a[i] ^ b[i])
}

/// The amount under the cipher block: the block decrypted with the first
/// eight keystream bytes of the decryption key, read little-endian.
pub open spec fn witness_plain_amount(w: WitnessView) -> u64 {
    u64_from_le(xor_bytes(witness_cipher_block(w), witness_dec_key(w).take(8)))
}

/// The amount a witness recovers, if any: `None` on a payload under 40
/// bytes, on a tag mismatch, and on a zero amount.
pub open spec fn recovered_amount(w: WitnessView) -> Option<u64> {
    if w.encrypted_value.len() < 40 {
        None
    } else if w.encrypted_value.subrange(8, 40) != witness_expected_tag(w) {
        None
    } else if witness_plain_amount(w) == 0 {
        None
    } else {
        Some(witness_plain_amount(w))
    }
}

/// Compares two byte slices in constant time over their common length, to
/// prevent timing oracles.
fn constant_time_compare(a: &[u8], b: &[u8]) -> (r: bool)
    ensures
        r == (a@ == b@),
{
    if a.len() != b.len() {
        assert(a@.len() != b@.len());
        return false;
    }
    let mut result: u8 = 0;
    let mut i: usize = 0;
    while i < a.len()
        invariant
            i <= a@.len(),
            a@.len() == b@.len(),
            (result == 0) <==> (forall|j: int| 0 <= j < i ==> a@[j] == b@[j]),
        decreases a@.len() - i,
    {
        let x = a[i];
        let y = b[i];
        let ghost old_result = result;
        result = result | (x ^ y);
        proof {
            assert((old_result | (x ^ y)) == 0 <==> old_result == 0 && x == y) by (bit_vector);
        }
        i = i + 1;
    }
    if result == 0 {
        proof {
            assert(a@ =~= b@);
        }
        true
    } else {
        false
    }
}

/// Builds the decryption-key label bytes.
fn dec_key_label_bytes() -> (r: Vec<u8>)
    ensures
        r@ == dec_key_label(),
{
    let s: &str = "lelantus_amount_decryption_key";
    s.as_bytes_vec()
}

/// Builds the authentication-key label bytes.
fn auth_key_label_bytes() -> (r: Vec<u8>)
    ensures
        r@ == auth_key_label(),
{
    let s: &str = "lelantus_hmac_verification_key";
    s.as_bytes_vec()
}

impl Witness {
    /// Builds a witness from its parts.
    pub fn new(
        commitment: Commitment,
        index: usize,
        accumulator_value: Vec<u8>,
        membership_proof: Vec<u8>,
        encrypted_value: Vec<u8>,
    ) -> (r: Self)
        ensures
            r@ == (WitnessView {
                commitment: commitment@,
                index,
                accumulator_value: accumulator_value@,
                membership_proof: membership_proof@,
                encrypted_value: encrypted_value@,
            }),
    {
        Witness { commitment, index, accumulator_value, membership_proof, encrypted_value }
    }

    /// Shallow structural check: fails with `InvalidWitness` exactly when
    /// the commitment value, the accumulator value or the membership proof
    /// is empty. Does not bind the witness to the accumulator
    /// cryptographically; `Ok(true)` is no proof of membership.
    pub fn verify(&self) -> (r: Result<bool, LelantusError>)
        ensures
            r is Ok <==> self@.commitment.value.len() > 0 && self@.accumulator_value.len() > 0
                && self@.membership_proof.len() > 0,
            r matches Ok(b) ==> b,
            r matches Err(e) ==> e == LelantusError::InvalidWitness,
    {
        if self.commitment.value.len() == 0 {
            return Err(LelantusError::InvalidWitness);
        }
        if self.accumulator_value.len() == 0 {
            return Err(LelantusError::InvalidWitness);
        }
        if self.membership_proof.len() == 0 {
            return Err(LelantusError::InvalidWitness);
        }
        Ok(true)
    }

    /// The commitment being witnessed.
    pub fn commitment(&self) -> (r: &Commitment)
        ensures
            r@ == self@.commitment,
    {
        &self.commitment
    }

    /// The index in the accumulator.
    pub fn index(&self) -> (r: usize)
        ensures
            r == self@.index,
    {
        self.index
    }

    /// The accumulator value at witness creation.
    pub fn accumulator_value(&self) -> (r: &[u8])
        ensures
            r@ == self@.accumulator_value,
    {
        self.accumulator_value.as_slice()
    }

    /// Recovers the coin amount from the encrypted payload: derives the
    /// keys, checks the authentication tag in constant time before any
    /// decryption, then decrypts the 8-byte little-endian amount. Fails
    /// closed with `InvalidWitness` — on a short payload, a tag mismatch
    /// and a zero amount alike — and never returns a substitute amount.
    pub fn get_amount(&self) -> (r: Result<u64, LelantusError>)
        ensures
            r matches Ok(a) ==> recovered_amount(self@) == Some(a),
            r is Err <==> recovered_amount(self@) is None,
            r matches Err(e) ==> e == LelantusError::InvalidWitness,
    {
        if self.encrypted_value.len() < 40 {
            return Err(LelantusError::InvalidWitness);
        }
        let encrypted_amount = subvec(self.encrypted_value.as_slice(), 0, 8);
        let tag = subvec(self.encrypted_value.as_slice(), 8, 40);
        let metadata = subvec(self.encrypted_value.as_slice(), 40, self.encrypted_value.len());
        proof {
            assert(encrypted_amount@ =~= witness_cipher_block(self@));
            assert(metadata@ =~= witness_metadata(self@));
        }

        // Extraction: pseudorandom key from the commitment components.
        let prk = hmac_sha512(
            self.commitment.randomness.as_slice(),
            self.commitment.value.as_slice(),
        );

        // Expansion: the decryption key, bound to index and metadata.
        let index_bytes = u64_le_bytes(self.index as u64);
        let mut dec_key_input = dec_key_label_bytes();
        append_bytes(&mut dec_key_input, index_bytes.as_slice());
        append_bytes(&mut dec_key_input, metadata.as_slice());
        let decryption_key = hmac_sha512(prk.as_slice(), dec_key_input.as_slice());

        // Expansion: the authentication key, bound to the index.
        let mut auth_key_input = auth_key_label_bytes();
        append_bytes(&mut auth_key_input, index_bytes.as_slice());
        let auth_key = hmac_sha512(prk.as_slice(), auth_key_input.as_slice());

        // The tag the payload must carry.
        let mut tag_input = subvec(encrypted_amount.as_slice(), 0, encrypted_amount.len());
        proof {
            assert(tag_input@ =~= witness_cipher_block(self@));
        }
        append_bytes(&mut tag_input, index_bytes.as_slice());
        append_bytes(&mut tag_input, metadata.as_slice());
        let full_tag = hmac_sha512(auth_key.as_slice(), tag_input.as_slice());
        let computed_tag = subvec(full_tag.as_slice(), 0, 32);

        // Constant-time comparison; fail closed before any decryption.
        if !constant_time_compare(tag.as_slice(), computed_tag.as_slice()) {
            return Err(LelantusError::InvalidWitness);
        }

        // Decrypt the amount with the first eight keystream bytes.
        let mut plain: Vec<u8> = Vec::new();
        let mut i: usize = 0;
        while i < 8
            invariant
                i <= 8,
                encrypted_amount@.len() == 8,
                decryption_key@.len() == 64,
                plain@.len() == i,
                forall|j: int|
                    0 <= j < i ==> plain@[j] == (encrypted_amount@[j] ^ decryption_key@[j]),
            decreases 8 - i,
        {
            plain.push(encrypted_amount[i] ^ decryption_key[i]);
            i = i + 1;
        }
        proof {
            assert(plain@ =~= xor_bytes(witness_cipher_block(self@), witness_dec_key(self@).take(8)));
        }
        let amount = u64_read_le(plain.as_slice());

        // Zero-value coins are never valid.
        if amount == 0 {
            return Err(LelantusError::InvalidWitness);
        }
        Ok(amount)
    }
}

/// Law: flipping any single byte of the authentication tag makes amount
/// recovery fail; no substitute amount is ever produced.
pub proof fn lemma_flipped_tag_byte_rejected(w: WitnessView, w2: WitnessView, i: int)
    requires
        recovered_amount(w) is Some,
        8 <= i < 40,
        w2.commitment == w.commitment,
        w2.index == w.index,
        w2.encrypted_value.len() == w.encrypted_value.len(),
        forall|j: int|
            0 <= j < w.encrypted_value.len() && j != i ==> w2.encrypted_value[j]
                == w.encrypted_value[j],
        w2.encrypted_value[i] != w.encrypted_value[i],
    ensures
        recovered_amount(w2) is None,
{
    assert(witness_cipher_block(w2) =~= witness_cipher_block(w));
    assert(witness_metadata(w2) =~= witness_metadata(w));
    assert(witness_expected_tag(w2) == witness_expected_tag(w));
    assert(w.encrypted_value.subrange(8, 40) == witness_expected_tag(w));
    assert(w2.encrypted_value.subrange(8, 40)[i - 8] != w.encrypted_value.subrange(8, 40)[i - 8]);
    assert(w2.encrypted_value.subrange(8, 40) != witness_expected_tag(w2));
}

} // verus!
