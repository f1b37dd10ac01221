//! The cryptographic primitives the protocol is built on, behind trusted
//! declarations: SHA-512 digests, HMAC-SHA-512, random bytes, and UTF-8
//! decoding. Each digest is named by an uninterpreted function of its
//! input alone; everything built on top is verified against those names.

use vstd::prelude::*;
use vstd::utf8::{encode_utf8, valid_utf8, partial_valid_utf8_extend_ascii_block};
use sha2::{Digest, Sha512};
use hmac::{Hmac, KeyInit, Mac};
use crate::errors::LelantusError;
use crate::hex_util::{hex_of, hex_encode_bytes};

verus! {

/// The 64-byte SHA-512 digest of a byte sequence.
pub uninterp spec fn sha512_of(data: Seq<u8>) -> Seq<u8>;

/// The 64-byte HMAC-SHA-512 of a message under a key.
pub uninterp spec fn hmac_sha512_of(key: Seq<u8>, data: Seq<u8>) -> Seq<u8>;

/// The lowercase hexadecimal spelling of the SHA-512 digest: the protocol
/// stores every hash in this 128-byte form.
pub open spec fn digest_hex(data: Seq<u8>) -> Seq<u8> {
    hex_of(sha512_of(data))
}

/// Relies on sha2's `Sha512` (`Digest::digest`): the digest is 64 bytes and
/// a function of the input bytes alone.
#[verifier::external_body]
fn sha512_digest(data: &[u8]) -> (r: Vec<u8>)
    ensures
        r@ == sha512_of(data@),
        r@.len() == 64,
{
    Sha512::digest(data).as_slice().to_vec()
}

/// Relies on hmac's `Hmac<Sha512>` (`KeyInit::new_from_slice`, `Mac::update`,
/// `Mac::finalize`): the tag is 64 bytes and a function of key and message
/// alone; HMAC accepts keys of any length, so `new_from_slice` cannot fail.
#[verifier::external_body]
pub fn hmac_sha512(key: &[u8], data: &[u8]) -> (r: Vec<u8>)
    ensures
        r@ == hmac_sha512_of(key@, data@),
        r@.len() == 64,
{
    let mut mac = <Hmac<Sha512> as KeyInit>::new_from_slice(key).expect(
        "HMAC accepts keys of any length",
    );
    mac.update(data);
    mac.finalize().into_bytes().as_slice().to_vec()
}

/// Relies on rand's `random`: one byte from the thread-local generator;
/// nothing can be promised of its value.
#[verifier::external_body]
fn random_byte() -> u8 {
    rand::random()
}

/// Relies on `String::from_utf8`: succeeds exactly when the bytes are valid
/// UTF-8, and then returns the string those bytes spell.
#[verifier::external_body]
pub fn string_from_utf8(bytes: Vec<u8>) -> (r: Result<String, LelantusError>)
    ensures
        r is Ok <==> valid_utf8(bytes@),
        r matches Ok(s) ==> encode_utf8(s@) == bytes@,
        r matches Err(e) ==> e is SerializationError,
{
    match String::from_utf8(bytes) {
        Ok(s) => Ok(s),
        Err(_) => Err(LelantusError::SerializationError(String::new())),
    }
}

/// Computes the hexadecimal SHA-512 digest of `data`.
pub fn hash_hex(data: &[u8]) -> (r: Vec<u8>)
    ensures
        r@ == digest_hex(data@),
        r@.len() == 128,
{
    let digest = sha512_digest(data);
    hex_encode_bytes(digest.as_slice())
}

/// Draws `n` random bytes.
pub fn random_bytes(n: usize) -> (r: Vec<u8>)
    ensures
        r@.len() == n,
{
    let mut r: Vec<u8> = Vec::new();
    let mut i: usize = 0;
    while i < n
        invariant
            i <= n,
            r@.len() == i,
        decreases n - i,
    {
        r.push(random_byte());
        i = i + 1;
    }
    r
}

/// Builds a string from bytes that are all ASCII.
pub fn string_from_ascii(bytes: Vec<u8>) -> (r: String)
    requires
        forall|i: int| 0 <= i < bytes@.len() ==> bytes@[i] < 128,
    ensures
        encode_utf8(r@) == bytes@,
{
    proof {
        lemma_ascii_valid_utf8(bytes@);
    }
    match string_from_utf8(bytes) {
        Ok(s) => s,
        Err(_) => {
            proof {
                assert(false);
            }
            String::new()
        },
    }
}

/// Bytes that are all ASCII are valid UTF-8.
pub proof fn lemma_ascii_valid_utf8(bytes: Seq<u8>)
    requires
        forall|i: int| 0 <= i < bytes.len() ==> bytes[i] < 128,
    ensures
        valid_utf8(bytes),
{
    assert(bytes.subrange(0, 0) =~= Seq::<u8>::empty());
    assert(forall|i: int|
        0 <= i < bytes.len() ==> #[trigger] vstd::utf8::is_leading_byte_width_1(bytes[i]));
    partial_valid_utf8_extend_ascii_block(bytes, 0, bytes.len() as int);
    assert(bytes.subrange(0, bytes.len() as int) =~= bytes);
}

} // verus!
