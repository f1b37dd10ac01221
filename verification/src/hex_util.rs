//! Hexadecimal encoding and decoding, specified digit by digit: encoding
//! writes two lowercase digits per byte, decoding accepts either case.

use vstd::prelude::*;
use vstd::string::StringSliceAdditionalSpecFns;
use vstd::utf8::encode_utf8;
use crate::errors::LelantusError;

verus! {

/// The lowercase hexadecimal digit of a value below 16.
pub open spec fn hex_digit(n: u8) -> u8
    recommends
        n < 16,
{
    if n < 10 {
        (48 + n) as u8
    } else {
        (87 + n) as u8
    }
}

/// The lowercase hexadecimal spelling of a byte sequence: two digits per
/// byte, high nibble first.
pub open spec fn hex_of(data: Seq<u8>) -> Seq<u8> {
    Seq::new(
        2 * data.len(),
        |i: int|
            if i % 2 == 0 {
                hex_digit(data[i / 2] / 16)
            } else {
                hex_digit(data[i / 2] % 16)
            },
    )
}

/// Whether a byte spells a hexadecimal digit, in either case.
pub open spec fn is_hex_char(c: u8) -> bool {
    (48 <= c && c <= 57) || (97 <= c && c <= 102) || (65 <= c && c <= 70)
}

/// The value of a hexadecimal digit byte.
pub open spec fn hex_char_value(c: u8) -> u8
    recommends
        is_hex_char(c),
{
    if 48 <= c && c <= 57 {
        (c - 48) as u8
    } else if 97 <= c && c <= 102 {
        (c - 87) as u8
    } else {
        (c - 55) as u8
    }
}

/// Whether a byte sequence is well-formed hexadecimal text: even length,
/// every byte a digit.
pub open spec fn is_hex_text(data: Seq<u8>) -> bool {
    data.len() % 2 == 0 && forall|i: int| 0 <= i < data.len() ==> is_hex_char(#[trigger] data[i])
}

/// The bytes spelled by well-formed hexadecimal text.
pub open spec fn hex_value_of(data: Seq<u8>) -> Seq<u8>
    recommends
        is_hex_text(data),
{
    Seq::new(data.len() / 2, |i: int| (hex_char_value(data[2 * i]) * 16 + hex_char_value(
        data[2 * i + 1],
    )) as u8)
}

/// Decoding inverts encoding: the hexadecimal spelling of any byte sequence
/// is well-formed text that spells those bytes back.
pub proof fn lemma_hex_round_trip(data: Seq<u8>)
    ensures
        is_hex_text(hex_of(data)),
        hex_value_of(hex_of(data)) == data,
{
    let h = hex_of(data);
    assert forall|i: int| 0 <= i < h.len() implies is_hex_char(#[trigger] h[i]) by {
        let b = data[i / 2];
        assert(b / 16 < 16 && b % 16 < 16);
    }
    assert forall|i: int| 0 <= i < data.len() implies hex_value_of(h)[i] == data[i] by {
        let b = data[i];
        assert(h[2 * i] == hex_digit(b / 16));
        assert(h[2 * i + 1] == hex_digit(b % 16));
        assert(hex_char_value(hex_digit(b / 16)) == b / 16);
        assert(hex_char_value(hex_digit(b % 16)) == b % 16);
        assert(b / 16 * 16 + b % 16 == b);
    }
    assert(hex_value_of(h) =~= data);
}

/// Encodes bytes as lowercase hexadecimal bytes.
pub fn hex_encode_bytes(data: &[u8]) -> (r: Vec<u8>)
    ensures
        r@ == hex_of(data@),
{
    let mut r: Vec<u8> = Vec::new();
    let mut i: usize = 0;
    while i < data.len()
        invariant
            i <= data@.len(),
            r@.len() == 2 * i,
            forall|j: int| 0 <= j < r@.len() ==> r@[j] == hex_of(data@)[j],
        decreases data@.len() - i,
    {
        let b = data[i];
        let hi = b / 16;
        let lo = b % 16;
        r.push(if hi < 10 { 48 + hi } else { 87 + hi });
        r.push(if lo < 10 { 48 + lo } else { 87 + lo });
        i = i + 1;
    }
    assert(r@ =~= hex_of(data@));
    r
}

/// Encodes bytes as a lowercase hexadecimal string.
pub fn encode(data: &[u8]) -> (r: String)
    ensures
        encode_utf8(r@) == hex_of(data@),
{
    let bytes = hex_encode_bytes(data);
    crate::crypto::string_from_ascii(bytes)
}

/// Decodes a hexadecimal string to bytes; fails with `SerializationError`
/// on odd length or a byte that is no hexadecimal digit.
pub fn decode(hex_str: &str) -> (r: Result<Vec<u8>, LelantusError>)
    ensures
        is_hex_text(hex_str.spec_bytes()) <==> r is Ok,
        r matches Ok(v) ==> v@ == hex_value_of(hex_str.spec_bytes()),
        r matches Err(e) ==> e is SerializationError,
{
    let data: &[u8] = hex_str.as_bytes();
    if data.len() % 2 != 0 {
        return Err(LelantusError::SerializationError(String::new()));
    }
    let mut r: Vec<u8> = Vec::new();
    let mut i: usize = 0;
    while i < data.len()
        invariant
            i <= data@.len(),
            i % 2 == 0,
            data@.len() % 2 == 0,
            data@ == hex_str.spec_bytes(),
            r@.len() == i / 2,
            forall|j: int| 0 <= j < i ==> is_hex_char(#[trigger] data@[j]),
            forall|j: int|
                0 <= j < r@.len() ==> r@[j] == (hex_char_value(data@[2 * j]) * 16 + hex_char_value(
                    data@[2 * j + 1],
                )) as u8,
        decreases data@.len() - i,
    {
        let hi = data[i];
        let lo = data[i + 1];
        let hv = if 48 <= hi && hi <= 57 {
            hi - 48
        } else if 97 <= hi && hi <= 102 {
            hi - 87
        } else if 65 <= hi && hi <= 70 {
            hi - 55
        } else {
            return Err(LelantusError::SerializationError(String::new()));
        };
        let lv = if 48 <= lo && lo <= 57 {
            lo - 48
        } else if 97 <= lo && lo <= 102 {
            lo - 87
        } else if 65 <= lo && lo <= 70 {
            lo - 55
        } else {
            return Err(LelantusError::SerializationError(String::new()));
        };
        r.push(hv * 16 + lv);
        i = i + 2;
    }
    assert(r@ =~= hex_value_of(data@));
    Ok(r)
}

} // verus!
