//! The wire format of the persisted entities, applied uniformly: a compact
//! binary encoding with 64-bit little-endian integers and length-prefixed
//! byte strings. Every encoder has a decoder proved to invert it, and
//! decoding accepts exactly the encodings.

use vstd::prelude::*;
use vstd::utf8::{encode_utf8, decode_utf8, valid_utf8};
use crate::accumulator::{Accumulator, AccumulatorView};
use crate::bytes::{u64_le, u64_from_le, u64_le_bytes, u64_read_le, append_bytes, subvec,
    lemma_u64_le_from_le};
use crate::commitment::{Commitment, CommitmentView, AccumulatorElement};
use crate::crypto::string_from_utf8;
use crate::errors::LelantusError;
use crate::joinsplit::{JoinSplit, JoinSplitView, JoinSplitProof, JoinSplitProofView};
use crate::parameters::{LelantusParameters, ParametersView, PrivacyLevel};
use crate::proofs::{RangeProof, RangeProofView, ZKProof, ZKProofView};
use crate::witness::{Witness, WitnessView};

verus! {

// ---------------------------------------------------------------------
// Primitives: 64-bit integers, length-prefixed byte strings, strings,
// privacy levels.
// ---------------------------------------------------------------------

/// A length-prefixed byte string: the length as eight little-endian
/// bytes, then the bytes themselves.
pub open spec fn enc_bytes(b: Seq<u8>) -> Seq<u8> {
    u64_le(b.len() as u64) + b
}

/// A length-prefixed UTF-8 string.
pub open spec fn enc_string(s: Seq<char>) -> Seq<u8> {
    enc_bytes(encode_utf8(s))
}

/// A privacy level as one tag byte.
pub open spec fn enc_privacy_level(p: PrivacyLevel) -> Seq<u8> {
    match p {
        PrivacyLevel::Standard => seq![0u8],
        PrivacyLevel::Enhanced => seq![1u8],
        PrivacyLevel::Maximum => seq![2u8],
    }
}

/// Reads a 64-bit integer at `pos`; `None` when fewer than eight bytes
/// remain.
pub open spec fn dec_u64(data: Seq<u8>, pos: int) -> Option<(u64, int)> {
    if 0 <= pos && pos + 8 <= data.len() {
        Some((u64_from_le(data.subrange(pos, pos + 8)), pos + 8))
    } else {
        None
    }
}

/// Reads a length-prefixed byte string at `pos`.
pub open spec fn dec_bytes(data: Seq<u8>, pos: int) -> Option<(Seq<u8>, int)> {
    match dec_u64(data, pos) {
        Option::None => None,
        Option::Some((n, p)) => if p + n <= data.len() {
            Some((data.subrange(p, p + n), p + n))
        } else {
            None
        },
    }
}

/// Reads a length-prefixed UTF-8 string at `pos`; `None` when the bytes
/// are not valid UTF-8.
pub open spec fn dec_string(data: Seq<u8>, pos: int) -> Option<(Seq<char>, int)> {
    match dec_bytes(data, pos) {
        Option::None => None,
        Option::Some((b, p)) => if valid_utf8(b) {
            Some((decode_utf8(b), p))
        } else {
            None
        },
    }
}

/// Reads a privacy-level tag byte at `pos`.
pub open spec fn dec_privacy_level(data: Seq<u8>, pos: int) -> Option<(PrivacyLevel, int)> {
    if 0 <= pos && pos < data.len() {
        if data[pos] == 0 {
            Some((PrivacyLevel::Standard, pos + 1))
        } else if data[pos] == 1 {
            Some((PrivacyLevel::Enhanced, pos + 1))
        } else if data[pos] == 2 {
            Some((PrivacyLevel::Maximum, pos + 1))
        } else {
            None
        }
    } else {
        None
    }
}

/// Reading a 64-bit integer from its own encoding, wherever it stands in
/// a buffer, yields it back.
pub proof fn lemma_dec_enc_u64(data: Seq<u8>, pos: int, v: u64)
    requires
        0 <= pos,
        pos + 8 <= data.len(),
        data.subrange(pos, pos + 8) == u64_le(v),
    ensures
        dec_u64(data, pos) == Some((v, pos + 8)),
{
    lemma_u64_le_from_le(v);
}

/// Reading a byte string from its own encoding yields it back.
pub proof fn lemma_dec_enc_bytes(data: Seq<u8>, pos: int, b: Seq<u8>)
    requires
        0 <= pos,
        b.len() <= u64::MAX,
        pos + enc_bytes(b).len() <= data.len(),
        data.subrange(pos, pos + enc_bytes(b).len()) == enc_bytes(b),
    ensures
        dec_bytes(data, pos) == Some((b, pos + enc_bytes(b).len())),
{
    let e = enc_bytes(b);
    let n = b.len() as u64;
    assert(data.subrange(pos, pos + 8) =~= e.subrange(0, 8));
    assert(e.subrange(0, 8) =~= u64_le(n));
    lemma_dec_enc_u64(data, pos, n);
    assert(data.subrange(pos + 8, pos + 8 + n) =~= e.subrange(8, 8 + n));
    assert(e.subrange(8, 8 + n) =~= b);
}

/// Reading a string from its own encoding yields it back.
pub proof fn lemma_dec_enc_string(data: Seq<u8>, pos: int, s: Seq<char>)
    requires
        0 <= pos,
        encode_utf8(s).len() <= u64::MAX,
        pos + enc_string(s).len() <= data.len(),
        data.subrange(pos, pos + enc_string(s).len()) == enc_string(s),
    ensures
        dec_string(data, pos) == Some((s, pos + enc_string(s).len())),
{
    broadcast use vstd::utf8::encode_utf8_valid_utf8, vstd::utf8::encode_utf8_decode_utf8;

    lemma_dec_enc_bytes(data, pos, encode_utf8(s));
}

/// Reading a privacy level from its own encoding yields it back.
pub proof fn lemma_dec_enc_privacy_level(data: Seq<u8>, pos: int, p: PrivacyLevel)
    requires
        0 <= pos,
        pos + 1 <= data.len(),
        data.subrange(pos, pos + 1) == enc_privacy_level(p),
    ensures
        dec_privacy_level(data, pos) == Some((p, pos + 1)),
{
    assert(data[pos] == enc_privacy_level(p)[0]);
}

/// Appends the encoding of a 64-bit integer.
fn emit_u64(out: &mut Vec<u8>, v: u64)
    ensures
        final(out)@ == old(out)@ + u64_le(v),
{
    let b = u64_le_bytes(v);
    append_bytes(out, b.as_slice());
}

/// Appends the encoding of a byte string.
fn emit_bytes(out: &mut Vec<u8>, b: &[u8])
    ensures
        final(out)@ == old(out)@ + enc_bytes(b@),
{
    emit_u64(out, b.len() as u64);
    append_bytes(out, b);
    assert(final(out)@ =~= old(out)@ + enc_bytes(b@));
}

/// Appends the encoding of a string.
fn emit_string(out: &mut Vec<u8>, s: &String)
    ensures
        final(out)@ == old(out)@ + enc_string(s@),
{
    let b = vstd::string::StrSliceExecFns::as_bytes_vec(s.as_str());
    emit_bytes(out, b.as_slice());
}

/// Appends the encoding of a privacy level.
fn emit_privacy_level(out: &mut Vec<u8>, p: &PrivacyLevel)
    ensures
        final(out)@ == old(out)@ + enc_privacy_level(*p),
{
    let tag: u8 = match p {
        PrivacyLevel::Standard => 0,
        PrivacyLevel::Enhanced => 1,
        PrivacyLevel::Maximum => 2,
    };
    out.push(tag);
    assert(final(out)@ =~= old(out)@ + enc_privacy_level(*p));
}

/// A decoding error.
fn malformed() -> (r: LelantusError)
    ensures
        r is SerializationError,
{
    LelantusError::SerializationError(String::new())
}

/// Parses a 64-bit integer at `pos`.
fn parse_u64(data: &[u8], pos: usize) -> (r: Result<(u64, usize), LelantusError>)
    requires
        pos <= data@.len(),
    ensures
        r matches Ok((v, p)) ==> dec_u64(data@, pos as int) == Some((v, p as int)) && pos < p
            <= data@.len(),
        r is Err <==> dec_u64(data@, pos as int) is None,
        r matches Err(e) ==> e is SerializationError,
{
    if data.len() - pos < 8 {
        return Err(malformed());
    }
    let window = subvec(data, pos, pos + 8);
    let v = u64_read_le(window.as_slice());
    Ok((v, pos + 8))
}

/// Parses a length-prefixed byte string at `pos`.
fn parse_bytes(data: &[u8], pos: usize) -> (r: Result<(Vec<u8>, usize), LelantusError>)
    requires
        pos <= data@.len(),
    ensures
        r matches Ok((b, p)) ==> dec_bytes(data@, pos as int) == Some((b@, p as int)) && pos < p
            <= data@.len(),
        r is Err <==> dec_bytes(data@, pos as int) is None,
        r matches Err(e) ==> e is SerializationError,
{
    let (n, p) = match parse_u64(data, pos) {
        Ok(x) => x,
        Err(e) => {
            return Err(e);
        },
    };
    if n > (data.len() - p) as u64 {
        return Err(malformed());
    }
    let n_usize = n as usize;
    let b = subvec(data, p, p + n_usize);
    Ok((b, p + n_usize))
}

/// Parses a length-prefixed UTF-8 string at `pos`.
fn parse_string(data: &[u8], pos: usize) -> (r: Result<(String, usize), LelantusError>)
    requires
        pos <= data@.len(),
    ensures
        r matches Ok((s, p)) ==> dec_string(data@, pos as int) == Some((s@, p as int)) && pos < p
            <= data@.len(),
        r is Err <==> dec_string(data@, pos as int) is None,
        r matches Err(e) ==> e is SerializationError,
{
    let (b, p) = match parse_bytes(data, pos) {
        Ok(x) => x,
        Err(e) => {
            return Err(e);
        },
    };
    broadcast use vstd::utf8::encode_utf8_decode_utf8, vstd::utf8::decode_utf8_encode_utf8;

    match string_from_utf8(b) {
        Ok(s) => Ok((s, p)),
        Err(e) => Err(e),
    }
}

// ---------------------------------------------------------------------
// Parameter sets.
// ---------------------------------------------------------------------

/// A parameter set: the privacy level, the four numeric fields, then the
/// four length-prefixed fields, in declaration order.
pub open spec fn enc_params(p: ParametersView) -> Seq<u8> {
    enc_privacy_level(p.privacy_level) + u64_le(p.accumulator_modulus_bits as u64) + u64_le(
        p.randomness_bits as u64,
    ) + u64_le(p.range_proof_bits as u64) + u64_le(p.max_coin_value) + u64_le(p.min_coin_value)
        + enc_bytes(p.accumulator_base) + enc_bytes(p.generator) + enc_string(p.hash_function)
        + enc_string(p.proof_system)
}

/// Reads a machine-sized integer at `pos`: a 64-bit integer that must fit
/// the machine word.
pub open spec fn dec_usize(data: Seq<u8>, pos: int) -> Option<(usize, int)> {
    match dec_u64(data, pos) {
        Option::None => None,
        Option::Some((v, p)) => if v <= usize::MAX as u64 {
            Some((v as usize, p))
        } else {
            None
        },
    }
}

/// Reads a parameter set at `pos`.
pub open spec fn dec_params(data: Seq<u8>, pos: int) -> Option<(ParametersView, int)> {
    match dec_privacy_level(data, pos) {
        Option::None => None,
        Option::Some((privacy_level, p1)) => match dec_usize(data, p1) {
            Option::None => None,
            Option::Some((accumulator_modulus_bits, p2)) => match dec_usize(data, p2) {
                Option::None => None,
                Option::Some((randomness_bits, p3)) => match dec_usize(data, p3) {
                    Option::None => None,
                    Option::Some((range_proof_bits, p4)) => match dec_u64(data, p4) {
                        Option::None => None,
                        Option::Some((max_coin_value, p5)) => match dec_u64(data, p5) {
                            Option::None => None,
                            Option::Some((min_coin_value, p6)) => match dec_bytes(data, p6) {
                                Option::None => None,
                                Option::Some((accumulator_base, p7)) => match dec_bytes(
                                    data,
                                    p7,
                                ) {
                                    Option::None => None,
                                    Option::Some((generator, p8)) => match dec_string(data, p8) {
                                        Option::None => None,
                                        Option::Some((hash_function, p9)) => match dec_string(
                                            data,
                                            p9,
                                        ) {
                                            Option::None => None,
                                            Option::Some((proof_system, p10)) => Some(
                                                (
                                                    ParametersView {
                                                        privacy_level,
                                                        accumulator_modulus_bits,
                                                        randomness_bits,
                                                        range_proof_bits,
                                                        max_coin_value,
                                                        min_coin_value,
                                                        accumulator_base,
                                                        generator,
                                                        hash_function,
                                                        proof_system,
                                                    },
                                                    p10,
                                                ),
                                            ),
                                        },
                                    },
                                },
                            },
                        },
                    },
                },
            },
        },
    }
}

/// Reading a machine-sized integer from its own encoding yields it back.
pub proof fn lemma_dec_enc_usize(data: Seq<u8>, pos: int, x: usize)
    requires
        0 <= pos,
        pos + 8 <= data.len(),
        data.subrange(pos, pos + 8) == u64_le(x as u64),
    ensures
        dec_usize(data, pos) == Some((x, pos + 8)),
{
    lemma_dec_enc_u64(data, pos, x as u64);
}

/// A window of a known window: when `data` carries `e` at `pos` and `e`
/// carries `part` at `off`, then `data` carries `part` at `pos + off`.
pub proof fn lemma_window(data: Seq<u8>, pos: int, e: Seq<u8>, off: int, part: Seq<u8>)
    requires
        0 <= pos,
        pos + e.len() <= data.len(),
        data.subrange(pos, pos + e.len()) == e,
        0 <= off,
        off + part.len() <= e.len(),
        e.subrange(off, off + part.len()) == part,
    ensures
        data.subrange(pos + off, pos + off + part.len()) == part,
{
    assert forall|j: int|
        0 <= j < part.len() implies data.subrange(pos + off, pos + off + part.len())[j]
        == part[j] by {
        assert(data.subrange(pos, pos + e.len())[off + j] == e[off + j]);
        assert(e.subrange(off, off + part.len())[j] == e[off + j]);
    }
    assert(data.subrange(pos + off, pos + off + part.len()) =~= part);
}

/// Reading a parameter set from its own encoding yields it back.
#[verifier::rlimit(60)]
pub proof fn lemma_dec_enc_params(data: Seq<u8>, pos: int, v: ParametersView)
    requires
        0 <= pos,
        v.accumulator_base.len() <= u64::MAX,
        v.generator.len() <= u64::MAX,
        encode_utf8(v.hash_function).len() <= u64::MAX,
        encode_utf8(v.proof_system).len() <= u64::MAX,
        pos + enc_params(v).len() <= data.len(),
        data.subrange(pos, pos + enc_params(v).len()) == enc_params(v),
    ensures
        dec_params(data, pos) == Some((v, pos + enc_params(v).len())),
{
    let e = enc_params(v);
    let l6 = enc_bytes(v.accumulator_base).len();
    let l7 = enc_bytes(v.generator).len();
    let l8 = enc_string(v.hash_function).len();
    let l9 = enc_string(v.proof_system).len();
    let o1 = 1int;
    let o2 = o1 + 8;
    let o3 = o2 + 8;
    let o4 = o3 + 8;
    let o5 = o4 + 8;
    let o6 = o5 + 8;
    let o7 = o6 + l6;
    let o8 = o7 + l7;
    let o9 = o8 + l8;
    let o10 = o9 + l9;
    assert(e.len() == o10);
    assert(e.subrange(0, o1) =~= enc_privacy_level(v.privacy_level));
    lemma_window(data, pos, e, 0, enc_privacy_level(v.privacy_level));
    lemma_dec_enc_privacy_level(data, pos, v.privacy_level);
    assert(e.subrange(o1, o2) =~= u64_le(v.accumulator_modulus_bits as u64));
    lemma_window(data, pos, e, o1, u64_le(v.accumulator_modulus_bits as u64));
    lemma_dec_enc_usize(data, pos + o1, v.accumulator_modulus_bits);
    assert(e.subrange(o2, o3) =~= u64_le(v.randomness_bits as u64));
    lemma_window(data, pos, e, o2, u64_le(v.randomness_bits as u64));
    lemma_dec_enc_usize(data, pos + o2, v.randomness_bits);
    assert(e.subrange(o3, o4) =~= u64_le(v.range_proof_bits as u64));
    lemma_window(data, pos, e, o3, u64_le(v.range_proof_bits as u64));
    lemma_dec_enc_usize(data, pos + o3, v.range_proof_bits);
    assert(e.subrange(o4, o5) =~= u64_le(v.max_coin_value));
    lemma_window(data, pos, e, o4, u64_le(v.max_coin_value));
    lemma_dec_enc_u64(data, pos + o4, v.max_coin_value);
    assert(e.subrange(o5, o6) =~= u64_le(v.min_coin_value));
    lemma_window(data, pos, e, o5, u64_le(v.min_coin_value));
    lemma_dec_enc_u64(data, pos + o5, v.min_coin_value);
    assert(e.subrange(o6, o7) =~= enc_bytes(v.accumulator_base));
    lemma_window(data, pos, e, o6, enc_bytes(v.accumulator_base));
    lemma_dec_enc_bytes(data, pos + o6, v.accumulator_base);
    assert(e.subrange(o7, o8) =~= enc_bytes(v.generator));
    lemma_window(data, pos, e, o7, enc_bytes(v.generator));
    lemma_dec_enc_bytes(data, pos + o7, v.generator);
    assert(e.subrange(o8, o9) =~= enc_string(v.hash_function));
    lemma_window(data, pos, e, o8, enc_string(v.hash_function));
    lemma_dec_enc_string(data, pos + o8, v.hash_function);
    assert(e.subrange(o9, o10) =~= enc_string(v.proof_system));
    lemma_window(data, pos, e, o9, enc_string(v.proof_system));
    lemma_dec_enc_string(data, pos + o9, v.proof_system);
}

/// Appends the encoding of a parameter set.
fn emit_params(out: &mut Vec<u8>, p: &LelantusParameters)
    ensures
        final(out)@ == old(out)@ + enc_params(p@),
{
    emit_privacy_level(out, &p.privacy_level);
    emit_u64(out, p.accumulator_modulus_bits as u64);
    emit_u64(out, p.randomness_bits as u64);
    emit_u64(out, p.range_proof_bits as u64);
    emit_u64(out, p.max_coin_value);
    emit_u64(out, p.min_coin_value);
    emit_bytes(out, p.accumulator_base.as_slice());
    emit_bytes(out, p.generator.as_slice());
    emit_string(out, &p.hash_function);
    emit_string(out, &p.proof_system);
    assert(final(out)@ =~= old(out)@ + enc_params(p@));
}

/// Parses a machine-sized integer at `pos`.
fn parse_usize(data: &[u8], pos: usize) -> (r: Result<(usize, usize), LelantusError>)
    requires
        pos <= data@.len(),
    ensures
        r matches Ok((v, p)) ==> dec_usize(data@, pos as int) == Some((v, p as int)) && pos < p
            <= data@.len(),
        r is Err <==> dec_usize(data@, pos as int) is None,
        r matches Err(e) ==> e is SerializationError,
{
    let (v, p) = match parse_u64(data, pos) {
        Ok(x) => x,
        Err(e) => {
            return Err(e);
        },
    };
    if v > usize::MAX as u64 {
        return Err(malformed());
    }
    Ok((v as usize, p))
}

/// Parses a parameter set at `pos`.
fn parse_params(data: &[u8], pos: usize) -> (r: Result<(LelantusParameters, usize), LelantusError>)
    requires
        pos <= data@.len(),
    ensures
        r matches Ok((v, p)) ==> dec_params(data@, pos as int) == Some((v@, p as int)) && pos < p
            <= data@.len(),
        r is Err <==> dec_params(data@, pos as int) is None,
        r matches Err(e) ==> e is SerializationError,
{
    let (privacy_level, p1) = match parse_privacy_level(data, pos) {
        Ok(x) => x,
        Err(e) => {
            return Err(e);
        },
    };
    let (accumulator_modulus_bits, p2) = match parse_usize(data, p1) {
        Ok(x) => x,
        Err(e) => {
            return Err(e);
        },
    };
    let (randomness_bits, p3) = match parse_usize(data, p2) {
        Ok(x) => x,
        Err(e) => {
            return Err(e);
        },
    };
    let (range_proof_bits, p4) = match parse_usize(data, p3) {
        Ok(x) => x,
        Err(e) => {
            return Err(e);
        },
    };
    let (max_coin_value, p5) = match parse_u64(data, p4) {
        Ok(x) => x,
        Err(e) => {
            return Err(e);
        },
    };
    let (min_coin_value, p6) = match parse_u64(data, p5) {
        Ok(x) => x,
        Err(e) => {
            return Err(e);
        },
    };
    let (accumulator_base, p7) = match parse_bytes(data, p6) {
        Ok(x) => x,
        Err(e) => {
            return Err(e);
        },
    };
    let (generator, p8) = match parse_bytes(data, p7) {
        Ok(x) => x,
        Err(e) => {
            return Err(e);
        },
    };
    let (hash_function, p9) = match parse_string(data, p8) {
        Ok(x) => x,
        Err(e) => {
            return Err(e);
        },
    };
    let (proof_system, p10) = match parse_string(data, p9) {
        Ok(x) => x,
        Err(e) => {
            return Err(e);
        },
    };
    Ok(
        (
            LelantusParameters {
                privacy_level,
                accumulator_modulus_bits,
                randomness_bits,
                range_proof_bits,
                max_coin_value,
                min_coin_value,
                accumulator_base,
                generator,
                hash_function,
                proof_system,
            },
            p10,
        ),
    )
}

/// Parses a privacy-level tag byte at `pos`.
fn parse_privacy_level(data: &[u8], pos: usize) -> (r: Result<
    (PrivacyLevel, usize),
    LelantusError,
>)
    requires
        pos <= data@.len(),
    ensures
        r matches Ok((v, p)) ==> dec_privacy_level(data@, pos as int) == Some((v, p as int)) && pos
            < p <= data@.len(),
        r is Err <==> dec_privacy_level(data@, pos as int) is None,
        r matches Err(e) ==> e is SerializationError,
{
    if pos >= data.len() {
        return Err(malformed());
    }
    let tag = data[pos];
    if tag == 0 {
        Ok((PrivacyLevel::Standard, pos + 1))
    } else if tag == 1 {
        Ok((PrivacyLevel::Enhanced, pos + 1))
    } else if tag == 2 {
        Ok((PrivacyLevel::Maximum, pos + 1))
    } else {
        Err(malformed())
    }
}

// ---------------------------------------------------------------------
// Commitments.
// ---------------------------------------------------------------------

/// A commitment: its value, then its randomness, both length-prefixed.
pub open spec fn enc_commitment(c: CommitmentView) -> Seq<u8> {
    enc_bytes(c.value) + enc_bytes(c.randomness)
}

/// Reads a commitment at `pos`.
pub open spec fn dec_commitment(data: Seq<u8>, pos: int) -> Option<(CommitmentView, int)> {
    match dec_bytes(data, pos) {
        Option::None => None,
        Option::Some((value, p1)) => match dec_bytes(data, p1) {
            Option::None => None,
            Option::Some((randomness, p2)) => Some((CommitmentView { value, randomness }, p2)),
        },
    }
}

/// Reading a commitment from its own encoding yields it back.
pub proof fn lemma_dec_enc_commitment(data: Seq<u8>, pos: int, c: CommitmentView)
    requires
        0 <= pos,
        c.value.len() <= u64::MAX,
        c.randomness.len() <= u64::MAX,
        pos + enc_commitment(c).len() <= data.len(),
        data.subrange(pos, pos + enc_commitment(c).len()) == enc_commitment(c),
    ensures
        dec_commitment(data, pos) == Some((c, pos + enc_commitment(c).len())),
{
    let e = enc_commitment(c);
    let l0 = enc_bytes(c.value).len();
    let l1 = enc_bytes(c.randomness).len();
    assert(e.subrange(0, l0 as int) =~= enc_bytes(c.value));
    lemma_window(data, pos, e, 0, enc_bytes(c.value));
    lemma_dec_enc_bytes(data, pos, c.value);
    assert(e.subrange(l0 as int, (l0 + l1) as int) =~= enc_bytes(c.randomness));
    lemma_window(data, pos, e, l0 as int, enc_bytes(c.randomness));
    lemma_dec_enc_bytes(data, pos + l0, c.randomness);
}

/// Appends the encoding of a commitment.
fn emit_commitment(out: &mut Vec<u8>, c: &Commitment)
    ensures
        final(out)@ == old(out)@ + enc_commitment(c@),
{
    emit_bytes(out, c.value.as_slice());
    emit_bytes(out, c.randomness.as_slice());
    assert(final(out)@ =~= old(out)@ + enc_commitment(c@));
}

/// Parses a commitment at `pos`.
fn parse_commitment(data: &[u8], pos: usize) -> (r: Result<(Commitment, usize), LelantusError>)
    requires
        pos <= data@.len(),
    ensures
        r matches Ok((c, p)) ==> dec_commitment(data@, pos as int) == Some((c@, p as int)) && pos
            < p <= data@.len(),
        r is Err <==> dec_commitment(data@, pos as int) is None,
        r matches Err(e) ==> e is SerializationError,
{
    let (value, p1) = match parse_bytes(data, pos) {
        Ok(x) => x,
        Err(e) => {
            return Err(e);
        },
    };
    let (randomness, p2) = match parse_bytes(data, p1) {
        Ok(x) => x,
        Err(e) => {
            return Err(e);
        },
    };
    Ok((Commitment { value, randomness }, p2))
}

impl Commitment {
    /// Serializes this commitment to its wire form.
    pub fn serialize(&self) -> (r: Result<Vec<u8>, LelantusError>)
        ensures
            r matches Ok(b) && b@ == enc_commitment(self@),
    {
        let mut out: Vec<u8> = Vec::new();
        emit_commitment(&mut out, self);
        Ok(out)
    }

    /// Deserializes a commitment from its wire form: succeeds exactly on
    /// a whole, well-formed encoding, else fails with
    /// `SerializationError`.
    pub fn deserialize(data: &[u8]) -> (r: Result<Self, LelantusError>)
        ensures
            r matches Ok(c) ==> dec_commitment(data@, 0) == Some((c@, data@.len() as int)),
            r is Ok <==> (dec_commitment(data@, 0) matches Some((v, p)) && p == data@.len()),
            r matches Err(e) ==> e is SerializationError,
    {
        match parse_commitment(data, 0) {
            Ok((c, p)) => {
                if p != data.len() {
                    return Err(malformed());
                }
                Ok(c)
            },
            Err(e) => Err(e),
        }
    }
}

/// Law: a serialized commitment deserializes to itself, and decoding
/// accepts exactly the encodings.
pub proof fn lemma_commitment_round_trip(c: CommitmentView)
    requires
        c.value.len() <= u64::MAX,
        c.randomness.len() <= u64::MAX,
    ensures
        dec_commitment(enc_commitment(c), 0) == Some(
            (c, enc_commitment(c).len() as int),
        ),
{
    let e = enc_commitment(c);
    assert(e.subrange(0, e.len() as int) =~= e);
    lemma_dec_enc_commitment(e, 0, c);
}

// ---------------------------------------------------------------------
// Accumulators: the chain value, the element log with a count prefix,
// then the parameters.
// ---------------------------------------------------------------------

/// An element log, one length-prefixed byte string per element.
pub open spec fn enc_element_list(es: Seq<Seq<u8>>) -> Seq<u8>
    decreases es.len(),
{
    if es.len() == 0 {
        Seq::<u8>::empty()
    } else {
        enc_bytes(es[0]) + enc_element_list(es.drop_first())
    }
}

/// Reads `n` elements at `pos`.
pub open spec fn dec_element_list(data: Seq<u8>, pos: int, n: nat) -> Option<(Seq<Seq<u8>>, int)>
    decreases n,
{
    if n == 0 {
        Some((Seq::<Seq<u8>>::empty(), pos))
    } else {
        match dec_bytes(data, pos) {
            Option::None => None,
            Option::Some((b, p)) => match dec_element_list(data, p, (n - 1) as nat) {
                Option::None => None,
                Option::Some((es, p2)) => Some((seq![b] + es, p2)),
            },
        }
    }
}

/// Prefixes a parse result with already-parsed items.
pub open spec fn dec_join<T>(prefix: Seq<T>, r: Option<(Seq<T>, int)>) -> Option<(Seq<T>, int)> {
    match r {
        Option::None => None,
        Option::Some((s, p)) => Some((prefix + s, p)),
    }
}

/// An accumulator: its value, the element count, the element log, then
/// the parameters.
pub open spec fn enc_accumulator(a: AccumulatorView) -> Seq<u8> {
    enc_bytes(a.value) + u64_le(a.elements.len() as u64) + enc_element_list(a.elements)
        + enc_params(a.parameters)
}

/// Reads an accumulator at `pos`.
pub open spec fn dec_accumulator(data: Seq<u8>, pos: int) -> Option<(AccumulatorView, int)> {
    match dec_bytes(data, pos) {
        Option::None => None,
        Option::Some((value, p1)) => match dec_u64(data, p1) {
            Option::None => None,
            Option::Some((n, p2)) => match dec_element_list(data, p2, n as nat) {
                Option::None => None,
                Option::Some((elements, p3)) => match dec_params(data, p3) {
                    Option::None => None,
                    Option::Some((parameters, p4)) => Some(
                        (AccumulatorView { value, elements, parameters }, p4),
                    ),
                },
            },
        },
    }
}

/// Reading an element log from its own encoding yields it back.
pub proof fn lemma_dec_enc_element_list(data: Seq<u8>, pos: int, es: Seq<Seq<u8>>)
    requires
        0 <= pos,
        forall|i: int| 0 <= i < es.len() ==> #[trigger] es[i].len() <= u64::MAX,
        pos + enc_element_list(es).len() <= data.len(),
        data.subrange(pos, pos + enc_element_list(es).len()) == enc_element_list(es),
    ensures
        dec_element_list(data, pos, es.len()) == Some((es, pos + enc_element_list(es).len())),
    decreases es.len(),
{
    let e = enc_element_list(es);
    if es.len() == 0 {
        assert(Seq::<Seq<u8>>::empty() =~= es);
    } else {
        let head = es[0];
        let rest = es.drop_first();
        let l0 = enc_bytes(head).len();
        assert(e.subrange(0, l0 as int) =~= enc_bytes(head));
        lemma_window(data, pos, e, 0, enc_bytes(head));
        lemma_dec_enc_bytes(data, pos, head);
        assert(e.subrange(l0 as int, e.len() as int) =~= enc_element_list(rest));
        lemma_window(data, pos, e, l0 as int, enc_element_list(rest));
        lemma_dec_enc_element_list(data, pos + l0, rest);
        assert(seq![head] + rest =~= es);
    }
}

/// Parses `n` elements at `pos`.
fn parse_element_list(data: &[u8], pos: usize, n: u64) -> (r: Result<
    (Vec<AccumulatorElement>, usize),
    LelantusError,
>)
    requires
        pos <= data@.len(),
    ensures
        r matches Ok((es, p)) ==> dec_element_list(data@, pos as int, n as nat) == Some(
            (es@.map_values(|e: AccumulatorElement| e.value@), p as int),
        ) && pos <= p <= data@.len(),
        r is Err <==> dec_element_list(data@, pos as int, n as nat) is None,
        r matches Err(e) ==> e is SerializationError,
{
    let mut out: Vec<AccumulatorElement> = Vec::new();
    let mut cur: usize = pos;
    let mut k: u64 = 0;
    proof {
        assert(out@.map_values(|e: AccumulatorElement| e.value@) =~= Seq::<Seq<u8>>::empty());
        if let Some((s, p)) = dec_element_list(data@, pos as int, n as nat) {
            assert(Seq::<Seq<u8>>::empty() + s =~= s);
        }
    }
    while k < n
        invariant
            pos <= cur <= data@.len(),
            k <= n,
            dec_element_list(data@, pos as int, n as nat) == dec_join(
                out@.map_values(|e: AccumulatorElement| e.value@),
                dec_element_list(data@, cur as int, (n - k) as nat),
            ),
        decreases n - k,
    {
        let ghost collected = out@.map_values(|e: AccumulatorElement| e.value@);
        let (b, p) = match parse_bytes(data, cur) {
            Ok(x) => x,
            Err(e) => {
                proof {
                    assert(dec_element_list(data@, cur as int, (n - k) as nat) is None);
                }
                return Err(e);
            },
        };
        out.push(AccumulatorElement { value: b });
        proof {
            let bv = dec_bytes(data@, cur as int)->Some_0.0;
            assert(dec_element_list(data@, cur as int, (n - k) as nat) == (match dec_element_list(
                data@,
                p as int,
                (n - k - 1) as nat,
            ) {
                Option::None => Option::<(Seq<Seq<u8>>, int)>::None,
                Option::Some((es, p2)) => Some((seq![bv] + es, p2)),
            }));
            assert(out@.map_values(|e: AccumulatorElement| e.value@) =~= collected.push(bv));
            if let Some((s, p2)) = dec_element_list(data@, p as int, (n - k - 1) as nat) {
                assert(collected + (seq![bv] + s) =~= collected.push(bv) + s);
            }
        }
        cur = p;
        k = k + 1;
    }
    proof {
        assert(out@.map_values(|e: AccumulatorElement| e.value@) + Seq::<Seq<u8>>::empty()
            =~= out@.map_values(|e: AccumulatorElement| e.value@));
    }
    Ok((out, cur))
}

/// Appends the encoding of the element log.
fn emit_element_list(out: &mut Vec<u8>, es: &[AccumulatorElement])
    ensures
        final(out)@ == old(out)@ + enc_element_list(
            es@.map_values(|e: AccumulatorElement| e.value@),
        ),
{
    let ghost values = es@.map_values(|e: AccumulatorElement| e.value@);
    let mut i: usize = 0;
    proof {
        assert(values.skip(0) =~= values);
    }
    while i < es.len()
        invariant
            i <= es@.len(),
            values == es@.map_values(|e: AccumulatorElement| e.value@),
            values.len() == es@.len(),
            forall|j: int| 0 <= j < values.len() ==> values[j] == es@[j].value@,
            out@ + enc_element_list(values.skip(i as int)) == old(out)@ + enc_element_list(values),
        decreases es@.len() - i,
    {
        let ghost before = out@;
        emit_bytes(out, es[i].value.as_slice());
        proof {
            let tail = values.skip(i as int);
            assert(tail[0] == values[i as int]);
            assert(tail.drop_first() =~= values.skip(i + 1));
            assert(enc_element_list(tail) == enc_bytes(values[i as int]) + enc_element_list(
                values.skip(i + 1),
            ));
            assert(out@ + enc_element_list(values.skip(i + 1)) =~= before + enc_element_list(
                tail,
            ));
        }
        i = i + 1;
    }
    proof {
        assert(values.skip(values.len() as int) =~= Seq::<Seq<u8>>::empty());
        assert(out@ + Seq::<u8>::empty() =~= out@);
    }
}

impl Accumulator {
    /// Serializes this accumulator to its wire form.
    pub fn serialize(&self) -> (r: Result<Vec<u8>, LelantusError>)
        ensures
            r matches Ok(b) && b@ == enc_accumulator(self@),
    {
        let mut out: Vec<u8> = Vec::new();
        let value_slice = self.value();
        let count = self.element_count();
        let elements_slice = self.elements();
        let params_ref = self.parameters();
        emit_bytes(&mut out, value_slice);
        emit_u64(&mut out, count as u64);
        emit_element_list(&mut out, elements_slice);
        emit_params(&mut out, params_ref);
        proof {
            assert(out@ =~= enc_accumulator(self@));
        }
        Ok(out)
    }

    /// Deserializes an accumulator from its wire form: succeeds exactly
    /// on a whole, well-formed encoding, else fails with
    /// `SerializationError`.
    pub fn deserialize(data: &[u8]) -> (r: Result<Self, LelantusError>)
        ensures
            r matches Ok(a) ==> dec_accumulator(data@, 0) == Some((a@, data@.len() as int)),
            r is Ok <==> (dec_accumulator(data@, 0) matches Some((v, p)) && p == data@.len()),
            r matches Err(e) ==> e is SerializationError,
    {
        let (value, p1) = match parse_bytes(data, 0) {
            Ok(x) => x,
            Err(e) => {
                return Err(e);
            },
        };
        let (n, p2) = match parse_u64(data, p1) {
            Ok(x) => x,
            Err(e) => {
                return Err(e);
            },
        };
        let (elements, p3) = match parse_element_list(data, p2, n) {
            Ok(x) => x,
            Err(e) => {
                return Err(e);
            },
        };
        let (parameters, p4) = match parse_params(data, p3) {
            Ok(x) => x,
            Err(e) => {
                return Err(e);
            },
        };
        if p4 != data.len() {
            return Err(malformed());
        }
        Ok(Accumulator::from_parts(value, elements, parameters))
    }
}

/// Law: a serialized accumulator deserializes to itself — its element
/// count among everything else — and decoding accepts exactly the
/// encodings.
#[verifier::rlimit(100)]
pub proof fn lemma_accumulator_round_trip(a: AccumulatorView)
    requires
        a.value.len() <= u64::MAX,
        a.elements.len() <= u64::MAX,
        forall|i: int| 0 <= i < a.elements.len() ==> #[trigger] a.elements[i].len() <= u64::MAX,
        a.parameters.accumulator_base.len() <= u64::MAX,
        a.parameters.generator.len() <= u64::MAX,
        encode_utf8(a.parameters.hash_function).len() <= u64::MAX,
        encode_utf8(a.parameters.proof_system).len() <= u64::MAX,
    ensures
        dec_accumulator(enc_accumulator(a), 0) == Some((a, enc_accumulator(a).len() as int)),
{
    let e = enc_accumulator(a);
    let l0 = enc_bytes(a.value).len();
    let l1 = 8int;
    let l2 = enc_element_list(a.elements).len();
    let l3 = enc_params(a.parameters).len();
    assert(e.subrange(0, e.len() as int) =~= e);
    assert(e.subrange(0, l0 as int) =~= enc_bytes(a.value));
    lemma_window(e, 0, e, 0, enc_bytes(a.value));
    lemma_dec_enc_bytes(e, 0, a.value);
    assert(e.subrange(l0 as int, l0 + l1) =~= u64_le(a.elements.len() as u64));
    lemma_window(e, 0, e, l0 as int, u64_le(a.elements.len() as u64));
    lemma_dec_enc_u64(e, l0 as int, a.elements.len() as u64);
    assert(e.subrange(l0 + l1, l0 + l1 + l2) =~= enc_element_list(a.elements));
    lemma_window(e, 0, e, l0 + l1, enc_element_list(a.elements));
    lemma_dec_enc_element_list(e, l0 + l1, a.elements);
    assert(e.subrange(l0 + l1 + l2, l0 + l1 + l2 + l3) =~= enc_params(a.parameters));
    lemma_window(e, 0, e, l0 + l1 + l2, enc_params(a.parameters));
    lemma_dec_enc_params(e, l0 + l1 + l2, a.parameters);
}

// ---------------------------------------------------------------------
// Witnesses.
// ---------------------------------------------------------------------

/// A witness: its commitment, index, accumulator snapshot, membership
/// proof and encrypted payload, in declaration order.
pub open spec fn enc_witness(w: WitnessView) -> Seq<u8> {
    enc_commitment(w.commitment) + u64_le(w.index as u64) + enc_bytes(w.accumulator_value)
        + enc_bytes(w.membership_proof) + enc_bytes(w.encrypted_value)
}

/// Reads a witness at `pos`.
pub open spec fn dec_witness(data: Seq<u8>, pos: int) -> Option<(WitnessView, int)> {
    match dec_commitment(data, pos) {
        Option::None => None,
        Option::Some((commitment, p1)) => match dec_usize(data, p1) {
            Option::None => None,
            Option::Some((index, p2)) => match dec_bytes(data, p2) {
                Option::None => None,
                Option::Some((accumulator_value, p3)) => match dec_bytes(data, p3) {
                    Option::None => None,
                    Option::Some((membership_proof, p4)) => match dec_bytes(data, p4) {
                        Option::None => None,
                        Option::Some((encrypted_value, p5)) => Some(
                            (
                                WitnessView {
                                    commitment,
                                    index,
                                    accumulator_value,
                                    membership_proof,
                                    encrypted_value,
                                },
                                p5,
                            ),
                        ),
                    },
                },
            },
        },
    }
}

/// Reading a witness from its own encoding yields it back.
#[verifier::rlimit(60)]
pub proof fn lemma_dec_enc_witness(data: Seq<u8>, pos: int, w: WitnessView)
    requires
        0 <= pos,
        w.commitment.value.len() <= u64::MAX,
        w.commitment.randomness.len() <= u64::MAX,
        w.accumulator_value.len() <= u64::MAX,
        w.membership_proof.len() <= u64::MAX,
        w.encrypted_value.len() <= u64::MAX,
        pos + enc_witness(w).len() <= data.len(),
        data.subrange(pos, pos + enc_witness(w).len()) == enc_witness(w),
    ensures
        dec_witness(data, pos) == Some((w, pos + enc_witness(w).len())),
{
    let e = enc_witness(w);
    let l0 = enc_commitment(w.commitment).len();
    let o1 = l0 as int;
    let o2 = o1 + 8;
    let o3 = o2 + enc_bytes(w.accumulator_value).len();
    let o4 = o3 + enc_bytes(w.membership_proof).len();
    let o5 = o4 + enc_bytes(w.encrypted_value).len();
    assert(e.len() == o5);
    assert(e.subrange(0, o1) =~= enc_commitment(w.commitment));
    lemma_window(data, pos, e, 0, enc_commitment(w.commitment));
    lemma_dec_enc_commitment(data, pos, w.commitment);
    assert(e.subrange(o1, o2) =~= u64_le(w.index as u64));
    lemma_window(data, pos, e, o1, u64_le(w.index as u64));
    lemma_dec_enc_usize(data, pos + o1, w.index);
    assert(e.subrange(o2, o3) =~= enc_bytes(w.accumulator_value));
    lemma_window(data, pos, e, o2, enc_bytes(w.accumulator_value));
    lemma_dec_enc_bytes(data, pos + o2, w.accumulator_value);
    assert(e.subrange(o3, o4) =~= enc_bytes(w.membership_proof));
    lemma_window(data, pos, e, o3, enc_bytes(w.membership_proof));
    lemma_dec_enc_bytes(data, pos + o3, w.membership_proof);
    assert(e.subrange(o4, o5) =~= enc_bytes(w.encrypted_value));
    lemma_window(data, pos, e, o4, enc_bytes(w.encrypted_value));
    lemma_dec_enc_bytes(data, pos + o4, w.encrypted_value);
}

impl Witness {
    /// Serializes this witness to its wire form.
    pub fn serialize(&self) -> (r: Result<Vec<u8>, LelantusError>)
        ensures
            r matches Ok(b) && b@ == enc_witness(self@),
    {
        let mut out: Vec<u8> = Vec::new();
        emit_commitment(&mut out, &self.commitment);
        emit_u64(&mut out, self.index as u64);
        emit_bytes(&mut out, self.accumulator_value.as_slice());
        emit_bytes(&mut out, self.membership_proof.as_slice());
        emit_bytes(&mut out, self.encrypted_value.as_slice());
        proof {
            assert(out@ =~= enc_witness(self@));
        }
        Ok(out)
    }

    /// Deserializes a witness from its wire form: succeeds exactly on a
    /// whole, well-formed encoding, else fails with `SerializationError`.
    pub fn deserialize(data: &[u8]) -> (r: Result<Self, LelantusError>)
        ensures
            r matches Ok(w) ==> dec_witness(data@, 0) == Some((w@, data@.len() as int)),
            r is Ok <==> (dec_witness(data@, 0) matches Some((v, p)) && p == data@.len()),
            r matches Err(e) ==> e is SerializationError,
    {
        let (commitment, p1) = match parse_commitment(data, 0) {
            Ok(x) => x,
            Err(e) => {
                return Err(e);
            },
        };
        let (index, p2) = match parse_usize(data, p1) {
            Ok(x) => x,
            Err(e) => {
                return Err(e);
            },
        };
        let (accumulator_value, p3) = match parse_bytes(data, p2) {
            Ok(x) => x,
            Err(e) => {
                return Err(e);
            },
        };
        let (membership_proof, p4) = match parse_bytes(data, p3) {
            Ok(x) => x,
            Err(e) => {
                return Err(e);
            },
        };
        let (encrypted_value, p5) = match parse_bytes(data, p4) {
            Ok(x) => x,
            Err(e) => {
                return Err(e);
            },
        };
        if p5 != data.len() {
            return Err(malformed());
        }
        Ok(Witness { commitment, index, accumulator_value, membership_proof, encrypted_value })
    }
}

/// Law: a serialized witness deserializes to itself — its index among
/// everything else — and decoding accepts exactly the encodings.
pub proof fn lemma_witness_round_trip(w: WitnessView)
    requires
        w.commitment.value.len() <= u64::MAX,
        w.commitment.randomness.len() <= u64::MAX,
        w.accumulator_value.len() <= u64::MAX,
        w.membership_proof.len() <= u64::MAX,
        w.encrypted_value.len() <= u64::MAX,
    ensures
        dec_witness(enc_witness(w), 0) == Some((w, enc_witness(w).len() as int)),
{
    let e = enc_witness(w);
    assert(e.subrange(0, e.len() as int) =~= e);
    lemma_dec_enc_witness(e, 0, w);
}

// ---------------------------------------------------------------------
// Proofs.
// ---------------------------------------------------------------------

/// A range proof: its proof data, the commitment value, then the bit
/// length.
pub open spec fn enc_range_proof(p: RangeProofView) -> Seq<u8> {
    enc_bytes(p.proof_data) + enc_bytes(p.commitment) + u64_le(p.bit_length as u64)
}

/// Reads a range proof at `pos`.
pub open spec fn dec_range_proof(data: Seq<u8>, pos: int) -> Option<(RangeProofView, int)> {
    match dec_bytes(data, pos) {
        Option::None => None,
        Option::Some((proof_data, p1)) => match dec_bytes(data, p1) {
            Option::None => None,
            Option::Some((commitment, p2)) => match dec_usize(data, p2) {
                Option::None => None,
                Option::Some((bit_length, p3)) => Some(
                    (RangeProofView { proof_data, commitment, bit_length }, p3),
                ),
            },
        },
    }
}

/// Reading a range proof from its own encoding yields it back.
pub proof fn lemma_dec_enc_range_proof(data: Seq<u8>, pos: int, p: RangeProofView)
    requires
        0 <= pos,
        p.proof_data.len() <= u64::MAX,
        p.commitment.len() <= u64::MAX,
        pos + enc_range_proof(p).len() <= data.len(),
        data.subrange(pos, pos + enc_range_proof(p).len()) == enc_range_proof(p),
    ensures
        dec_range_proof(data, pos) == Some((p, pos + enc_range_proof(p).len())),
{
    let e = enc_range_proof(p);
    let o1 = enc_bytes(p.proof_data).len() as int;
    let o2 = o1 + enc_bytes(p.commitment).len();
    let o3 = o2 + 8;
    assert(e.subrange(0, o1) =~= enc_bytes(p.proof_data));
    lemma_window(data, pos, e, 0, enc_bytes(p.proof_data));
    lemma_dec_enc_bytes(data, pos, p.proof_data);
    assert(e.subrange(o1, o2) =~= enc_bytes(p.commitment));
    lemma_window(data, pos, e, o1, enc_bytes(p.commitment));
    lemma_dec_enc_bytes(data, pos + o1, p.commitment);
    assert(e.subrange(o2, o3) =~= u64_le(p.bit_length as u64));
    lemma_window(data, pos, e, o2, u64_le(p.bit_length as u64));
    lemma_dec_enc_usize(data, pos + o2, p.bit_length);
}

/// Appends the encoding of a range proof.
fn emit_range_proof(out: &mut Vec<u8>, p: &RangeProof)
    ensures
        final(out)@ == old(out)@ + enc_range_proof(p@),
{
    emit_bytes(out, p.proof_data.as_slice());
    emit_bytes(out, p.commitment.as_slice());
    emit_u64(out, p.bit_length as u64);
    assert(final(out)@ =~= old(out)@ + enc_range_proof(p@));
}

/// Parses a range proof at `pos`.
fn parse_range_proof(data: &[u8], pos: usize) -> (r: Result<(RangeProof, usize), LelantusError>)
    requires
        pos <= data@.len(),
    ensures
        r matches Ok((p, q)) ==> dec_range_proof(data@, pos as int) == Some((p@, q as int)) && pos
            < q <= data@.len(),
        r is Err <==> dec_range_proof(data@, pos as int) is None,
        r matches Err(e) ==> e is SerializationError,
{
    let (proof_data, p1) = match parse_bytes(data, pos) {
        Ok(x) => x,
        Err(e) => {
            return Err(e);
        },
    };
    let (commitment, p2) = match parse_bytes(data, p1) {
        Ok(x) => x,
        Err(e) => {
            return Err(e);
        },
    };
    let (bit_length, p3) = match parse_usize(data, p2) {
        Ok(x) => x,
        Err(e) => {
            return Err(e);
        },
    };
    Ok((RangeProof { proof_data, commitment, bit_length }, p3))
}

/// A knowledge proof: its proof data, challenge and response, each
/// length-prefixed.
pub open spec fn enc_zk_proof(p: ZKProofView) -> Seq<u8> {
    enc_bytes(p.proof_data) + enc_bytes(p.challenge) + enc_bytes(p.response)
}

/// Reads a knowledge proof at `pos`.
pub open spec fn dec_zk_proof(data: Seq<u8>, pos: int) -> Option<(ZKProofView, int)> {
    match dec_bytes(data, pos) {
        Option::None => None,
        Option::Some((proof_data, p1)) => match dec_bytes(data, p1) {
            Option::None => None,
            Option::Some((challenge, p2)) => match dec_bytes(data, p2) {
                Option::None => None,
                Option::Some((response, p3)) => Some(
                    (ZKProofView { proof_data, challenge, response }, p3),
                ),
            },
        },
    }
}

/// Reading a knowledge proof from its own encoding yields it back.
pub proof fn lemma_dec_enc_zk_proof(data: Seq<u8>, pos: int, p: ZKProofView)
    requires
        0 <= pos,
        p.proof_data.len() <= u64::MAX,
        p.challenge.len() <= u64::MAX,
        p.response.len() <= u64::MAX,
        pos + enc_zk_proof(p).len() <= data.len(),
        data.subrange(pos, pos + enc_zk_proof(p).len()) == enc_zk_proof(p),
    ensures
        dec_zk_proof(data, pos) == Some((p, pos + enc_zk_proof(p).len())),
{
    let e = enc_zk_proof(p);
    let o1 = enc_bytes(p.proof_data).len() as int;
    let o2 = o1 + enc_bytes(p.challenge).len();
    let o3 = o2 + enc_bytes(p.response).len();
    assert(e.subrange(0, o1) =~= enc_bytes(p.proof_data));
    lemma_window(data, pos, e, 0, enc_bytes(p.proof_data));
    lemma_dec_enc_bytes(data, pos, p.proof_data);
    assert(e.subrange(o1, o2) =~= enc_bytes(p.challenge));
    lemma_window(data, pos, e, o1, enc_bytes(p.challenge));
    lemma_dec_enc_bytes(data, pos + o1, p.challenge);
    assert(e.subrange(o2, o3) =~= enc_bytes(p.response));
    lemma_window(data, pos, e, o2, enc_bytes(p.response));
    lemma_dec_enc_bytes(data, pos + o2, p.response);
}

/// Appends the encoding of a knowledge proof.
fn emit_zk_proof(out: &mut Vec<u8>, p: &ZKProof)
    ensures
        final(out)@ == old(out)@ + enc_zk_proof(p@),
{
    emit_bytes(out, p.proof_data.as_slice());
    emit_bytes(out, p.challenge.as_slice());
    emit_bytes(out, p.response.as_slice());
    assert(final(out)@ =~= old(out)@ + enc_zk_proof(p@));
}

/// Parses a knowledge proof at `pos`.
fn parse_zk_proof(data: &[u8], pos: usize) -> (r: Result<(ZKProof, usize), LelantusError>)
    requires
        pos <= data@.len(),
    ensures
        r matches Ok((p, q)) ==> dec_zk_proof(data@, pos as int) == Some((p@, q as int)) && pos < q
            <= data@.len(),
        r is Err <==> dec_zk_proof(data@, pos as int) is None,
        r matches Err(e) ==> e is SerializationError,
{
    let (proof_data, p1) = match parse_bytes(data, pos) {
        Ok(x) => x,
        Err(e) => {
            return Err(e);
        },
    };
    let (challenge, p2) = match parse_bytes(data, p1) {
        Ok(x) => x,
        Err(e) => {
            return Err(e);
        },
    };
    let (response, p3) = match parse_bytes(data, p2) {
        Ok(x) => x,
        Err(e) => {
            return Err(e);
        },
    };
    Ok((ZKProof { proof_data, challenge, response }, p3))
}

// ---------------------------------------------------------------------
// JoinSplit transactions.
// ---------------------------------------------------------------------

/// A commitment list, each commitment encoded in order.
pub open spec fn enc_commitment_list(cs: Seq<CommitmentView>) -> Seq<u8>
    decreases cs.len(),
{
    if cs.len() == 0 {
        Seq::<u8>::empty()
    } else {
        enc_commitment(cs[0]) + enc_commitment_list(cs.drop_first())
    }
}

/// Reads `n` commitments at `pos`.
pub open spec fn dec_commitment_list(data: Seq<u8>, pos: int, n: nat) -> Option<
    (Seq<CommitmentView>, int),
>
    decreases n,
{
    if n == 0 {
        Some((Seq::<CommitmentView>::empty(), pos))
    } else {
        match dec_commitment(data, pos) {
            Option::None => None,
            Option::Some((c, p)) => match dec_commitment_list(data, p, (n - 1) as nat) {
                Option::None => None,
                Option::Some((cs, p2)) => Some((seq![c] + cs, p2)),
            },
        }
    }
}

/// A range-proof list, each proof encoded in order.
pub open spec fn enc_range_proof_list(ps: Seq<RangeProofView>) -> Seq<u8>
    decreases ps.len(),
{
    if ps.len() == 0 {
        Seq::<u8>::empty()
    } else {
        enc_range_proof(ps[0]) + enc_range_proof_list(ps.drop_first())
    }
}

/// Reads `n` range proofs at `pos`.
pub open spec fn dec_range_proof_list(data: Seq<u8>, pos: int, n: nat) -> Option<
    (Seq<RangeProofView>, int),
>
    decreases n,
{
    if n == 0 {
        Some((Seq::<RangeProofView>::empty(), pos))
    } else {
        match dec_range_proof(data, pos) {
            Option::None => None,
            Option::Some((p, q)) => match dec_range_proof_list(data, q, (n - 1) as nat) {
                Option::None => None,
                Option::Some((ps, q2)) => Some((seq![p] + ps, q2)),
            },
        }
    }
}

/// A JoinSplit: the counted input commitments, the counted output
/// commitments, the counted range proofs, the knowledge proof, then the
/// fee.
pub open spec fn enc_joinsplit(j: JoinSplitView) -> Seq<u8> {
    u64_le(j.inputs.len() as u64) + enc_commitment_list(j.inputs) + u64_le(
        j.outputs.len() as u64,
    ) + enc_commitment_list(j.outputs) + u64_le(j.proof.range_proofs.len() as u64)
        + enc_range_proof_list(j.proof.range_proofs) + enc_zk_proof(j.proof.zk_proof) + u64_le(
        j.fee,
    )
}

/// Reads a JoinSplit at `pos`.
pub open spec fn dec_joinsplit(data: Seq<u8>, pos: int) -> Option<(JoinSplitView, int)> {
    match dec_u64(data, pos) {
        Option::None => None,
        Option::Some((n_in, p1)) => match dec_commitment_list(data, p1, n_in as nat) {
            Option::None => None,
            Option::Some((inputs, p2)) => match dec_u64(data, p2) {
                Option::None => None,
                Option::Some((n_out, p3)) => match dec_commitment_list(data, p3, n_out as nat) {
                    Option::None => None,
                    Option::Some((outputs, p4)) => match dec_u64(data, p4) {
                        Option::None => None,
                        Option::Some((n_rp, p5)) => match dec_range_proof_list(
                            data,
                            p5,
                            n_rp as nat,
                        ) {
                            Option::None => None,
                            Option::Some((range_proofs, p6)) => match dec_zk_proof(data, p6) {
                                Option::None => None,
                                Option::Some((zk_proof, p7)) => match dec_u64(data, p7) {
                                    Option::None => None,
                                    Option::Some((fee, p8)) => Some(
                                        (
                                            JoinSplitView {
                                                inputs,
                                                outputs,
                                                proof: JoinSplitProofView { range_proofs, zk_proof },
                                                fee,
                                            },
                                            p8,
                                        ),
                                    ),
                                },
                            },
                        },
                    },
                },
            },
        },
    }
}

/// Whether every commitment of a list is encodable.
pub open spec fn commitment_list_encodable(cs: Seq<CommitmentView>) -> bool {
    forall|i: int|
        0 <= i < cs.len() ==> (#[trigger] cs[i].value.len() <= u64::MAX && cs[i].randomness.len()
            <= u64::MAX)
}

/// Whether every range proof of a list is encodable.
pub open spec fn range_proof_list_encodable(ps: Seq<RangeProofView>) -> bool {
    forall|i: int|
        0 <= i < ps.len() ==> (#[trigger] ps[i].proof_data.len() <= u64::MAX
            && ps[i].commitment.len() <= u64::MAX)
}

/// Reading a commitment list from its own encoding yields it back.
pub proof fn lemma_dec_enc_commitment_list(data: Seq<u8>, pos: int, cs: Seq<CommitmentView>)
    requires
        0 <= pos,
        commitment_list_encodable(cs),
        pos + enc_commitment_list(cs).len() <= data.len(),
        data.subrange(pos, pos + enc_commitment_list(cs).len()) == enc_commitment_list(cs),
    ensures
        dec_commitment_list(data, pos, cs.len()) == Some(
            (cs, pos + enc_commitment_list(cs).len()),
        ),
    decreases cs.len(),
{
    let e = enc_commitment_list(cs);
    if cs.len() == 0 {
        assert(Seq::<CommitmentView>::empty() =~= cs);
    } else {
        let head = cs[0];
        let rest = cs.drop_first();
        let l0 = enc_commitment(head).len();
        assert(e.subrange(0, l0 as int) =~= enc_commitment(head));
        lemma_window(data, pos, e, 0, enc_commitment(head));
        lemma_dec_enc_commitment(data, pos, head);
        assert(e.subrange(l0 as int, e.len() as int) =~= enc_commitment_list(rest));
        lemma_window(data, pos, e, l0 as int, enc_commitment_list(rest));
        lemma_dec_enc_commitment_list(data, pos + l0, rest);
        assert(seq![head] + rest =~= cs);
    }
}

/// Reading a range-proof list from its own encoding yields it back.
pub proof fn lemma_dec_enc_range_proof_list(data: Seq<u8>, pos: int, ps: Seq<RangeProofView>)
    requires
        0 <= pos,
        range_proof_list_encodable(ps),
        pos + enc_range_proof_list(ps).len() <= data.len(),
        data.subrange(pos, pos + enc_range_proof_list(ps).len()) == enc_range_proof_list(ps),
    ensures
        dec_range_proof_list(data, pos, ps.len()) == Some(
            (ps, pos + enc_range_proof_list(ps).len()),
        ),
    decreases ps.len(),
{
    let e = enc_range_proof_list(ps);
    if ps.len() == 0 {
        assert(Seq::<RangeProofView>::empty() =~= ps);
    } else {
        let head = ps[0];
        let rest = ps.drop_first();
        let l0 = enc_range_proof(head).len();
        assert(e.subrange(0, l0 as int) =~= enc_range_proof(head));
        lemma_window(data, pos, e, 0, enc_range_proof(head));
        lemma_dec_enc_range_proof(data, pos, head);
        assert(e.subrange(l0 as int, e.len() as int) =~= enc_range_proof_list(rest));
        lemma_window(data, pos, e, l0 as int, enc_range_proof_list(rest));
        lemma_dec_enc_range_proof_list(data, pos + l0, rest);
        assert(seq![head] + rest =~= ps);
    }
}

/// Appends the encoding of a commitment list.
fn emit_commitment_list(out: &mut Vec<u8>, cs: &[Commitment])
    ensures
        final(out)@ == old(out)@ + enc_commitment_list(cs@.map_values(|c: Commitment| c@)),
{
    let ghost values = cs@.map_values(|c: Commitment| c@);
    let mut i: usize = 0;
    proof {
        assert(values.skip(0) =~= values);
    }
    while i < cs.len()
        invariant
            i <= cs@.len(),
            values == cs@.map_values(|c: Commitment| c@),
            values.len() == cs@.len(),
            forall|j: int| 0 <= j < values.len() ==> values[j] == cs@[j]@,
            out@ + enc_commitment_list(values.skip(i as int)) == old(out)@ + enc_commitment_list(
                values,
            ),
        decreases cs@.len() - i,
    {
        let ghost before = out@;
        emit_commitment(out, &cs[i]);
        proof {
            let tail = values.skip(i as int);
            assert(tail[0] == values[i as int]);
            assert(tail.drop_first() =~= values.skip(i + 1));
            assert(enc_commitment_list(tail) == enc_commitment(values[i as int])
                + enc_commitment_list(values.skip(i + 1)));
            assert(out@ + enc_commitment_list(values.skip(i + 1)) =~= before
                + enc_commitment_list(tail));
        }
        i = i + 1;
    }
    proof {
        assert(values.skip(values.len() as int) =~= Seq::<CommitmentView>::empty());
        assert(out@ + Seq::<u8>::empty() =~= out@);
    }
}

/// Appends the encoding of a range-proof list.
fn emit_range_proof_list(out: &mut Vec<u8>, ps: &[RangeProof])
    ensures
        final(out)@ == old(out)@ + enc_range_proof_list(ps@.map_values(|p: RangeProof| p@)),
{
    let ghost values = ps@.map_values(|p: RangeProof| p@);
    let mut i: usize = 0;
    proof {
        assert(values.skip(0) =~= values);
    }
    while i < ps.len()
        invariant
            i <= ps@.len(),
            values == ps@.map_values(|p: RangeProof| p@),
            values.len() == ps@.len(),
            forall|j: int| 0 <= j < values.len() ==> values[j] == ps@[j]@,
            out@ + enc_range_proof_list(values.skip(i as int)) == old(out)@
                + enc_range_proof_list(values),
        decreases ps@.len() - i,
    {
        let ghost before = out@;
        emit_range_proof(out, &ps[i]);
        proof {
            let tail = values.skip(i as int);
            assert(tail[0] == values[i as int]);
            assert(tail.drop_first() =~= values.skip(i + 1));
            assert(enc_range_proof_list(tail) == enc_range_proof(values[i as int])
                + enc_range_proof_list(values.skip(i + 1)));
            assert(out@ + enc_range_proof_list(values.skip(i + 1)) =~= before
                + enc_range_proof_list(tail));
        }
        i = i + 1;
    }
    proof {
        assert(values.skip(values.len() as int) =~= Seq::<RangeProofView>::empty());
        assert(out@ + Seq::<u8>::empty() =~= out@);
    }
}

/// Parses `n` commitments at `pos`.
fn parse_commitment_list(data: &[u8], pos: usize, n: u64) -> (r: Result<
    (Vec<Commitment>, usize),
    LelantusError,
>)
    requires
        pos <= data@.len(),
    ensures
        r matches Ok((cs, p)) ==> dec_commitment_list(data@, pos as int, n as nat) == Some(
            (cs@.map_values(|c: Commitment| c@), p as int),
        ) && pos <= p <= data@.len(),
        r is Err <==> dec_commitment_list(data@, pos as int, n as nat) is None,
        r matches Err(e) ==> e is SerializationError,
{
    let mut out: Vec<Commitment> = Vec::new();
    let mut cur: usize = pos;
    let mut k: u64 = 0;
    proof {
        assert(out@.map_values(|c: Commitment| c@) =~= Seq::<CommitmentView>::empty());
        if let Some((s, p)) = dec_commitment_list(data@, pos as int, n as nat) {
            assert(Seq::<CommitmentView>::empty() + s =~= s);
        }
    }
    while k < n
        invariant
            pos <= cur <= data@.len(),
            k <= n,
            dec_commitment_list(data@, pos as int, n as nat) == dec_join(
                out@.map_values(|c: Commitment| c@),
                dec_commitment_list(data@, cur as int, (n - k) as nat),
            ),
        decreases n - k,
    {
        let ghost collected = out@.map_values(|c: Commitment| c@);
        let (c, p) = match parse_commitment(data, cur) {
            Ok(x) => x,
            Err(e) => {
                proof {
                    assert(dec_commitment_list(data@, cur as int, (n - k) as nat) is None);
                }
                return Err(e);
            },
        };
        let ghost cv = c@;
        out.push(c);
        proof {
            assert(dec_commitment_list(data@, cur as int, (n - k) as nat) == (
            match dec_commitment_list(data@, p as int, (n - k - 1) as nat) {
                Option::None => Option::<(Seq<CommitmentView>, int)>::None,
                Option::Some((cs, p2)) => Some((seq![cv] + cs, p2)),
            }));
            assert(out@.map_values(|c: Commitment| c@) =~= collected.push(cv));
            if let Some((s, p2)) = dec_commitment_list(data@, p as int, (n - k - 1) as nat) {
                assert(collected + (seq![cv] + s) =~= collected.push(cv) + s);
            }
        }
        cur = p;
        k = k + 1;
    }
    proof {
        assert(out@.map_values(|c: Commitment| c@) + Seq::<CommitmentView>::empty() =~= out@.map_values(
            |c: Commitment| c@,
        ));
    }
    Ok((out, cur))
}

/// Parses `n` range proofs at `pos`.
fn parse_range_proof_list(data: &[u8], pos: usize, n: u64) -> (r: Result<
    (Vec<RangeProof>, usize),
    LelantusError,
>)
    requires
        pos <= data@.len(),
    ensures
        r matches Ok((ps, p)) ==> dec_range_proof_list(data@, pos as int, n as nat) == Some(
            (ps@.map_values(|q: RangeProof| q@), p as int),
        ) && pos <= p <= data@.len(),
        r is Err <==> dec_range_proof_list(data@, pos as int, n as nat) is None,
        r matches Err(e) ==> e is SerializationError,
{
    let mut out: Vec<RangeProof> = Vec::new();
    let mut cur: usize = pos;
    let mut k: u64 = 0;
    proof {
        assert(out@.map_values(|q: RangeProof| q@) =~= Seq::<RangeProofView>::empty());
        if let Some((s, p)) = dec_range_proof_list(data@, pos as int, n as nat) {
            assert(Seq::<RangeProofView>::empty() + s =~= s);
        }
    }
    while k < n
        invariant
            pos <= cur <= data@.len(),
            k <= n,
            dec_range_proof_list(data@, pos as int, n as nat) == dec_join(
                out@.map_values(|q: RangeProof| q@),
                dec_range_proof_list(data@, cur as int, (n - k) as nat),
            ),
        decreases n - k,
    {
        let ghost collected = out@.map_values(|q: RangeProof| q@);
        let (rp, p) = match parse_range_proof(data, cur) {
            Ok(x) => x,
            Err(e) => {
                proof {
                    assert(dec_range_proof_list(data@, cur as int, (n - k) as nat) is None);
                }
                return Err(e);
            },
        };
        let ghost rv = rp@;
        out.push(rp);
        proof {
            assert(dec_range_proof_list(data@, cur as int, (n - k) as nat) == (
            match dec_range_proof_list(data@, p as int, (n - k - 1) as nat) {
                Option::None => Option::<(Seq<RangeProofView>, int)>::None,
                Option::Some((ps, p2)) => Some((seq![rv] + ps, p2)),
            }));
            assert(out@.map_values(|q: RangeProof| q@) =~= collected.push(rv));
            if let Some((s, p2)) = dec_range_proof_list(data@, p as int, (n - k - 1) as nat) {
                assert(collected + (seq![rv] + s) =~= collected.push(rv) + s);
            }
        }
        cur = p;
        k = k + 1;
    }
    proof {
        assert(out@.map_values(|q: RangeProof| q@) + Seq::<RangeProofView>::empty() =~= out@.map_values(
            |q: RangeProof| q@,
        ));
    }
    Ok((out, cur))
}

impl JoinSplit {
    /// Serializes this JoinSplit to its wire form.
    pub fn serialize(&self) -> (r: Result<Vec<u8>, LelantusError>)
        ensures
            r matches Ok(b) && b@ == enc_joinsplit(self@),
    {
        let mut out: Vec<u8> = Vec::new();
        emit_u64(&mut out, self.inputs.len() as u64);
        emit_commitment_list(&mut out, self.inputs.as_slice());
        emit_u64(&mut out, self.outputs.len() as u64);
        emit_commitment_list(&mut out, self.outputs.as_slice());
        emit_u64(&mut out, self.proof.range_proofs.len() as u64);
        emit_range_proof_list(&mut out, self.proof.range_proofs.as_slice());
        emit_zk_proof(&mut out, &self.proof.zk_proof);
        emit_u64(&mut out, self.fee);
        proof {
            assert(out@ =~= enc_joinsplit(self@));
        }
        Ok(out)
    }

    /// Deserializes a JoinSplit from its wire form: succeeds exactly on a
    /// whole, well-formed encoding, else fails with `SerializationError`.
    pub fn deserialize(data: &[u8]) -> (r: Result<Self, LelantusError>)
        ensures
            r matches Ok(j) ==> dec_joinsplit(data@, 0) == Some((j@, data@.len() as int)),
            r is Ok <==> (dec_joinsplit(data@, 0) matches Some((v, p)) && p == data@.len()),
            r matches Err(e) ==> e is SerializationError,
    {
        let (n_in, p1) = match parse_u64(data, 0) {
            Ok(x) => x,
            Err(e) => {
                return Err(e);
            },
        };
        let (inputs, p2) = match parse_commitment_list(data, p1, n_in) {
            Ok(x) => x,
            Err(e) => {
                return Err(e);
            },
        };
        let (n_out, p3) = match parse_u64(data, p2) {
            Ok(x) => x,
            Err(e) => {
                return Err(e);
            },
        };
        let (outputs, p4) = match parse_commitment_list(data, p3, n_out) {
            Ok(x) => x,
            Err(e) => {
                return Err(e);
            },
        };
        let (n_rp, p5) = match parse_u64(data, p4) {
            Ok(x) => x,
            Err(e) => {
                return Err(e);
            },
        };
        let (range_proofs, p6) = match parse_range_proof_list(data, p5, n_rp) {
            Ok(x) => x,
            Err(e) => {
                return Err(e);
            },
        };
        let (zk_proof, p7) = match parse_zk_proof(data, p6) {
            Ok(x) => x,
            Err(e) => {
                return Err(e);
            },
        };
        let (fee, p8) = match parse_u64(data, p7) {
            Ok(x) => x,
            Err(e) => {
                return Err(e);
            },
        };
        if p8 != data.len() {
            return Err(malformed());
        }
        Ok(JoinSplit { inputs, outputs, proof: JoinSplitProof { range_proofs, zk_proof }, fee })
    }
}

/// Law: a serialized JoinSplit deserializes to itself — its input and
/// output counts among everything else — and decoding accepts exactly
/// the encodings.
#[verifier::rlimit(100)]
pub proof fn lemma_joinsplit_round_trip(j: JoinSplitView)
    requires
        j.inputs.len() <= u64::MAX,
        j.outputs.len() <= u64::MAX,
        j.proof.range_proofs.len() <= u64::MAX,
        commitment_list_encodable(j.inputs),
        commitment_list_encodable(j.outputs),
        range_proof_list_encodable(j.proof.range_proofs),
        j.proof.zk_proof.proof_data.len() <= u64::MAX,
        j.proof.zk_proof.challenge.len() <= u64::MAX,
        j.proof.zk_proof.response.len() <= u64::MAX,
    ensures
        dec_joinsplit(enc_joinsplit(j), 0) == Some((j, enc_joinsplit(j).len() as int)),
{
    let e = enc_joinsplit(j);
    let l1 = enc_commitment_list(j.inputs).len();
    let l2 = enc_commitment_list(j.outputs).len();
    let l3 = enc_range_proof_list(j.proof.range_proofs).len();
    let l4 = enc_zk_proof(j.proof.zk_proof).len();
    let o1 = 8int;
    let o2 = o1 + l1;
    let o3 = o2 + 8;
    let o4 = o3 + l2;
    let o5 = o4 + 8;
    let o6 = o5 + l3;
    let o7 = o6 + l4;
    let o8 = o7 + 8;
    assert(e.len() == o8);
    assert(e.subrange(0, e.len() as int) =~= e);
    assert(e.subrange(0, o1) =~= u64_le(j.inputs.len() as u64));
    lemma_window(e, 0, e, 0, u64_le(j.inputs.len() as u64));
    lemma_dec_enc_u64(e, 0, j.inputs.len() as u64);
    assert(e.subrange(o1, o2) =~= enc_commitment_list(j.inputs));
    lemma_window(e, 0, e, o1, enc_commitment_list(j.inputs));
    lemma_dec_enc_commitment_list(e, o1, j.inputs);
    assert(e.subrange(o2, o3) =~= u64_le(j.outputs.len() as u64));
    lemma_window(e, 0, e, o2, u64_le(j.outputs.len() as u64));
    lemma_dec_enc_u64(e, o2, j.outputs.len() as u64);
    assert(e.subrange(o3, o4) =~= enc_commitment_list(j.outputs));
    lemma_window(e, 0, e, o3, enc_commitment_list(j.outputs));
    lemma_dec_enc_commitment_list(e, o3, j.outputs);
    assert(e.subrange(o4, o5) =~= u64_le(j.proof.range_proofs.len() as u64));
    lemma_window(e, 0, e, o4, u64_le(j.proof.range_proofs.len() as u64));
    lemma_dec_enc_u64(e, o4, j.proof.range_proofs.len() as u64);
    assert(e.subrange(o5, o6) =~= enc_range_proof_list(j.proof.range_proofs));
    lemma_window(e, 0, e, o5, enc_range_proof_list(j.proof.range_proofs));
    lemma_dec_enc_range_proof_list(e, o5, j.proof.range_proofs);
    assert(e.subrange(o6, o7) =~= enc_zk_proof(j.proof.zk_proof));
    lemma_window(e, 0, e, o6, enc_zk_proof(j.proof.zk_proof));
    lemma_dec_enc_zk_proof(e, o6, j.proof.zk_proof);
    assert(e.subrange(o7, o8) =~= u64_le(j.fee));
    lemma_window(e, 0, e, o7, u64_le(j.fee));
    lemma_dec_enc_u64(e, o7, j.fee);
}

} // verus!
