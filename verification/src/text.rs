//! The text boundary: the two places where the decoder leans on the
//! standard library's UTF-8 machinery, the outside error payload types, and
//! a few small facts about valid UTF-8 that the decoder needs.

use vstd::prelude::*;
use vstd::utf8::decode_utf8;
use vstd::utf8::encode_utf8;
use vstd::utf8::is_char_boundary;
use vstd::utf8::is_char_boundary_iff_not_is_continuation_byte;
use vstd::utf8::pop_first_scalar;
use vstd::utf8::valid_first_scalar;
use vstd::utf8::valid_utf8;
use vstd::utf8::valid_utf8_split;
use vstd::utf8::encode_utf8_decode_utf8;
use vstd::utf8::encode_utf8_valid_utf8;

verus! {

#[verifier::external_type_specification]
#[verifier::external_body]
pub struct ExUtf8Error(std::str::Utf8Error);

#[verifier::external_type_specification]
#[verifier::external_body]
pub struct ExIoError(std::io::Error);

/// Relies on `str::from_utf8`: it returns `Ok` exactly when the bytes are a
/// valid UTF-8 encoding, and `Err` with the description of the fault
/// otherwise.
#[verifier::external_body]
pub(crate) fn check_utf8(bytes: &Vec<u8>) -> (r: Option<std::str::Utf8Error>)
    ensures
        r is None <==> valid_utf8(bytes@),
{
    std::str::from_utf8(bytes).err()
}

/// Relies on `String::from_utf8`: for input that is valid UTF-8 it returns
/// the string made of exactly those bytes, so the string's UTF-8 encoding is
/// the input.
#[verifier::external_body]
pub(crate) fn bytes_into_string(bytes: Vec<u8>) -> (r: String)
    requires
        valid_utf8(bytes@),
    ensures
        encode_utf8(r@) == bytes@,
{
    match String::from_utf8(bytes) {
        Ok(s) => s,
        Err(_) => String::new(),
    }
}

/// A string whose UTF-8 encoding is `bytes` reads back as the decoding of
/// `bytes`.
pub proof fn lemma_encode_inverse(chars: Seq<char>, bytes: Seq<u8>)
    requires
        encode_utf8(chars) == bytes,
    ensures
        valid_utf8(bytes),
        decode_utf8(bytes) == chars,
{
    encode_utf8_valid_utf8(chars);
    encode_utf8_decode_utf8(chars);
}

/// A single ASCII byte on its own is valid UTF-8.
pub proof fn lemma_ascii_byte_valid(b: u8)
    requires
        b < 0x80,
    ensures
        valid_utf8(seq![b]),
{
    let s = seq![b];
    assert(b & 0x7f < 0x80) by (bit_vector);
    assert(valid_first_scalar(s));
    assert(pop_first_scalar(s) =~= Seq::<u8>::empty());
    assert(valid_utf8(Seq::<u8>::empty()));
}

/// Dropping everything up to and including an ASCII byte of a valid UTF-8
/// sequence leaves a valid UTF-8 sequence: an ASCII byte always encodes a
/// whole character by itself.
pub proof fn lemma_valid_suffix_after_ascii(s: Seq<u8>, i: int)
    requires
        valid_utf8(s),
        0 <= i < s.len(),
        s[i] < 0x80,
    ensures
        valid_utf8(s.skip(i + 1)),
{
    is_char_boundary_iff_not_is_continuation_byte(s, i);
    assert(is_char_boundary(s, i));
    valid_utf8_split(s, i);
    let tail = s.subrange(i, s.len() as int);
    assert(valid_utf8(tail));
    assert(tail[0] == s[i]);
    assert(valid_first_scalar(tail));
    assert(pop_first_scalar(tail) =~= s.skip(i + 1));
}

/// Dropping the last byte of a valid UTF-8 sequence whose last byte is
/// ASCII leaves a valid UTF-8 sequence.
pub proof fn lemma_valid_drop_last_ascii(s: Seq<u8>)
    requires
        valid_utf8(s),
        s.len() > 0,
        s.last() < 0x80,
    ensures
        valid_utf8(s.take(s.len() - 1)),
{
    is_char_boundary_iff_not_is_continuation_byte(s, s.len() - 1);
    assert(is_char_boundary(s, s.len() - 1));
    valid_utf8_split(s, s.len() - 1);
    assert(s.subrange(0, s.len() - 1) =~= s.take(s.len() - 1));
}

} // verus!
