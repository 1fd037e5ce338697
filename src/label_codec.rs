//! The wire form of choice labels on byte channels: bincode's encoding of a
//! string, a `u64` byte length in little-endian order followed by the label's
//! UTF-8 bytes.

use vstd::prelude::*;
use vstd::utf8::{encode_utf8, encode_utf8_decode_utf8, valid_utf8};
use vstd::arithmetic::div_mod::{lemma_div_denominator, lemma_fundamental_div_mod};
use crate::handler::{ChoreographyError, Label};

verus! {

#[verifier::external_type_specification]
#[verifier::external_body]
pub struct ExBincodeErrorKind(bincode::ErrorKind);

/// The eight little-endian bytes of `n`.
pub open spec fn le_u64(n: nat) -> Seq<u8> {
    seq![
        (n % 0x100) as u8,
        ((n / 0x100) % 0x100) as u8,
        ((n / 0x1_0000) % 0x100) as u8,
        ((n / 0x100_0000) % 0x100) as u8,
        ((n / 0x1_0000_0000) % 0x100) as u8,
        ((n / 0x100_0000_0000) % 0x100) as u8,
        ((n / 0x1_0000_0000_0000) % 0x100) as u8,
        ((n / 0x100_0000_0000_0000) % 0x100) as u8,
    ]
}

/// The number that the first eight bytes of `b` stand for, little-endian.
pub open spec fn le_u64_value(b: Seq<u8>) -> nat {
    b[0] as nat + b[1] as nat * 0x100 + b[2] as nat * 0x1_0000 + b[3] as nat * 0x100_0000 + b[4] as nat
        * 0x1_0000_0000 + b[5] as nat * 0x100_0000_0000 + b[6] as nat * 0x1_0000_0000_0000 + b[7] as nat
        * 0x100_0000_0000_0000
}

/// bincode's form of a string: its UTF-8 length as eight little-endian
/// bytes, then its UTF-8 bytes.
pub open spec fn string_wire(chars: Seq<char>) -> Seq<u8> {
    le_u64(encode_utf8(chars).len()) + encode_utf8(chars)
}

/// Relies on `bincode::serialize` (fixed-width little-endian integers, no
/// size limit, written into a `Vec`): a string is written as its byte length
/// as a `u64`, then its UTF-8 bytes, and writing it cannot fail.
#[verifier::external_body]
fn bincode_encode_str(s: &str) -> (r: Result<Vec<u8>, Box<bincode::ErrorKind>>)
    ensures
        r is Ok,
        r matches Ok(v) ==> v@ == string_wire(s@),
{
    bincode::serialize(s)
}

/// Relies on `bincode::deserialize::<String>`: it reads a `u64` byte length,
/// little-endian, then that many bytes, which must be UTF-8; bytes after them
/// are left unread. It fails only where the bytes run short or are not UTF-8.
#[verifier::external_body]
fn bincode_decode_string(b: &[u8]) -> (r: Result<String, Box<bincode::ErrorKind>>)
    ensures
        r matches Ok(s) ==> b@.len() >= 8 && b@.len() >= 8 + le_u64_value(b@) && encode_utf8(s@)
            == b@.subrange(8, 8 + le_u64_value(b@) as int),
        r is Err ==> !(b@.len() >= 8 + le_u64_value(b@) && valid_utf8(
            b@.subrange(8, 8 + le_u64_value(b@) as int),
        )),
{
    bincode::deserialize(b)
}

/// The bytes that carry `label` over a byte channel.
pub fn encode_label(label: Label) -> (r: Result<Vec<u8>, ChoreographyError>)
    ensures
        r matches Ok(v) && v@ == string_wire(label.0@),
{
    match bincode_encode_str(label.0) {
        Ok(v) => Ok(v),
        Err(_) => Err(ChoreographyError::Transport("Label serialization failed".to_owned())),
    }
}

/// The label carried by `bytes`, which start with its wire form; it fails
/// exactly where the bytes run short or the label is not UTF-8.
pub fn decode_label(bytes: &[u8]) -> (r: Result<String, ChoreographyError>)
    ensures
        r matches Ok(s) ==> bytes@.len() >= 8 + le_u64_value(bytes@) && encode_utf8(s@) == bytes@.subrange(
            8,
            8 + le_u64_value(bytes@) as int,
        ),
        r is Err ==> r matches Err(ChoreographyError::Transport(_)),
        r is Err ==> !(bytes@.len() >= 8 + le_u64_value(bytes@) && valid_utf8(
            bytes@.subrange(8, 8 + le_u64_value(bytes@) as int),
        )),
{
    match bincode_decode_string(bytes) {
        Ok(s) => Ok(s),
        Err(_) => Err(ChoreographyError::Transport("Label deserialization failed".to_owned())),
    }
}

proof fn lemma_le_u64_round_trip(n: nat, rest: Seq<u8>)
    requires
        n < 0x1_0000_0000_0000_0000,
    ensures
        le_u64_value(le_u64(n) + rest) == n,
{
    let x = n as int;
    let q1 = x / 0x100;
    let q2 = x / 0x1_0000;
    let q3 = x / 0x100_0000;
    let q4 = x / 0x1_0000_0000;
    let q5 = x / 0x100_0000_0000;
    let q6 = x / 0x1_0000_0000_0000;
    let q7 = x / 0x100_0000_0000_0000;
    lemma_div_denominator(x, 0x100, 0x100);
    lemma_div_denominator(x, 0x1_0000, 0x100);
    lemma_div_denominator(x, 0x100_0000, 0x100);
    lemma_div_denominator(x, 0x1_0000_0000, 0x100);
    lemma_div_denominator(x, 0x100_0000_0000, 0x100);
    lemma_div_denominator(x, 0x1_0000_0000_0000, 0x100);
    lemma_fundamental_div_mod(x, 0x100);
    lemma_fundamental_div_mod(q1, 0x100);
    lemma_fundamental_div_mod(q2, 0x100);
    lemma_fundamental_div_mod(q3, 0x100);
    lemma_fundamental_div_mod(q4, 0x100);
    lemma_fundamental_div_mod(q5, 0x100);
    lemma_fundamental_div_mod(q6, 0x100);
    lemma_fundamental_div_mod(q7, 0x100);
    assert(q7 / 0x100 == 0);
    let b = le_u64(n) + rest;
    assert(b[0] as int == x % 0x100);
    assert(b[1] as int == q1 % 0x100);
    assert(b[2] as int == q2 % 0x100);
    assert(b[3] as int == q3 % 0x100);
    assert(b[4] as int == q4 % 0x100);
    assert(b[5] as int == q5 % 0x100);
    assert(b[6] as int == q6 % 0x100);
    assert(b[7] as int == q7 % 0x100);
}

/// Decoding the wire form of a label, whatever bytes follow it, can only give
/// the label back.
pub proof fn lemma_label_round_trip(label: Seq<char>, rest: Seq<u8>, decoded: Seq<char>)
    requires
        encode_utf8(label).len() < 0x1_0000_0000_0000_0000,
        ({
            let b = string_wire(label) + rest;
            b.len() >= 8 + le_u64_value(b) && encode_utf8(decoded) == b.subrange(8, 8 + le_u64_value(b) as int)
        }),
    ensures
        decoded == label,
{
    let bytes = encode_utf8(label);
    let b = string_wire(label) + rest;
    assert(b == le_u64(bytes.len()) + (bytes + rest));
    lemma_le_u64_round_trip(bytes.len(), bytes + rest);
    assert(b.subrange(8, 8 + bytes.len() as int) =~= bytes);
    encode_utf8_decode_utf8(label);
    encode_utf8_decode_utf8(decoded);
}

} // verus!
