//! The calls that leave the library: digests, hexadecimal text, UUIDs, UTF-8 and key ranges.
use crate::bytes::be_bytes;
use md5::Digest;
use vstd::prelude::*;
use vstd::utf8::{encode_utf8, valid_utf8};

verus! {

/// What SHA-256 makes of `bytes`.
pub uninterp spec fn sha256_of(bytes: Seq<u8>) -> Seq<u8>;

/// What MD5 makes of `bytes`.
pub uninterp spec fn md5_of(bytes: Seq<u8>) -> Seq<u8>;

/// The lower-case hexadecimal digit for a value under sixteen.
pub open spec fn hex_digit(value: nat) -> char {
    if value < 10 {
        (48 + value) as char
    } else {
        (87 + value) as char
    }
}

/// Lower-case hexadecimal text: two digits for each byte, the high one first.
pub open spec fn hex_text(bytes: Seq<u8>) -> Seq<char> {
    Seq::new(
        2 * bytes.len(),
        |i: int|
            if i % 2 == 0 {
                hex_digit(bytes[i / 2] as nat / 16)
            } else {
                hex_digit(bytes[i / 2] as nat % 16)
            },
    )
}

/// The value of a hexadecimal digit in either case.
pub open spec fn hex_digit_value(c: u8) -> Option<nat> {
    if 48 <= c <= 57 {
        Some((c - 48) as nat)
    } else if 65 <= c <= 70 {
        Some((c - 55) as nat)
    } else if 97 <= c <= 102 {
        Some((c - 87) as nat)
    } else {
        None
    }
}

/// Whether `text` is an even number of hexadecimal digits.
pub open spec fn is_hex(text: Seq<u8>) -> bool {
    text.len() % 2 == 0 && forall|i: int|
        0 <= i < text.len() ==> (#[trigger] hex_digit_value(text[i])) is Some
}

/// The bytes that hexadecimal `text` stands for.
pub open spec fn hex_bytes(text: Seq<u8>) -> Seq<u8> {
    Seq::new(
        text.len() / 2,
        |i: int|
            (hex_digit_value(text[2 * i])->0 * 16 + hex_digit_value(text[2 * i + 1])->0) as u8,
    )
}

/// The smallest byte string above every byte string that begins with `prefix`.
pub open spec fn prefix_end_of(prefix: Seq<u8>) -> Option<Seq<u8>>
    decreases prefix.len(),
{
    if prefix.len() == 0 {
        None
    } else if prefix.last() == 255 {
        prefix_end_of(prefix.drop_last())
    } else {
        Some(prefix.drop_last().push((prefix.last() + 1) as u8))
    }
}

/// The hyphenated lower-case text of a UUID.
pub open spec fn uuid_text_of(bytes: Seq<u8>) -> Seq<char> {
    let dash = seq!['-'];
    hex_text(bytes.subrange(0, 4)) + dash + hex_text(bytes.subrange(4, 6)) + dash + hex_text(
        bytes.subrange(6, 8),
    ) + dash + hex_text(bytes.subrange(8, 10)) + dash + hex_text(bytes.subrange(10, 16))
}

/// Calls `sha2::Sha256::digest`. The claim is that the 32 bytes that come back depend on `bytes`
/// alone; which bytes they are is left to the name `sha256_of`.
#[verifier::external_body]
pub(crate) fn sha256(bytes: &[u8]) -> (r: [u8; 32])
    ensures
        r@ == sha256_of(bytes@),
{
    sha2::Sha256::digest(bytes).into()
}

/// Calls `md5::Md5::digest`. The claim is that the 16 bytes that come back depend on `bytes`
/// alone; which bytes they are is left to the name `md5_of`.
#[verifier::external_body]
pub(crate) fn md5(bytes: &[u8]) -> (r: [u8; 16])
    ensures
        r@ == md5_of(bytes@),
{
    md5::Md5::digest(bytes).into()
}

/// Calls `hex::encode`, which writes two lower-case digits for each byte.
#[verifier::external_body]
pub(crate) fn hex_encode(bytes: &[u8]) -> (r: String)
    ensures
        r@ == hex_text(bytes@),
{
    hex::encode(bytes)
}

/// Calls `hex::decode`, which takes digits of either case and refuses an odd number of bytes or a
/// byte that is no digit.
#[verifier::external_body]
pub(crate) fn hex_decode(text: &str) -> (r: Option<Vec<u8>>)
    ensures
        r is Some <==> is_hex(encode_utf8(text@)),
        r matches Some(bytes) ==> bytes@ == hex_bytes(encode_utf8(text@)),
{
    hex::decode(text).ok()
}

/// Calls `uuid::Uuid::from_u128`, which takes the number's big-endian bytes.
#[verifier::external_body]
pub(crate) fn uuid_from_u128(value: u128) -> (r: [u8; 16])
    ensures
        r@ == be_bytes(value as nat, 16),
{
    uuid::Uuid::from_u128(value).into_bytes()
}

/// Calls the `Display` of `uuid::Hyphenated`: lower-case digits in groups of 8, 4, 4, 4 and 12.
#[verifier::external_body]
pub(crate) fn uuid_text(bytes: [u8; 16]) -> (r: String)
    ensures
        r@ == uuid_text_of(bytes@),
{
    uuid::Uuid::from_bytes(bytes).hyphenated().to_string()
}

/// Calls `prolly::prefix_range` and keeps the end of the range: the prefix with its last byte that
/// is not `0xff` raised by one and what follows that byte cut off, or nothing where no such byte
/// exists.
#[verifier::external_body]
pub(crate) fn prefix_range_end(prefix: &[u8]) -> (r: Option<Vec<u8>>)
    ensures
        r is Some <==> prefix_end_of(prefix@) is Some,
        r matches Some(end) ==> end@ == prefix_end_of(prefix@)->0,
{
    prolly::prefix_range(prefix).1
}

/// Calls `std::str::from_utf8` and says whether it accepted the bytes.
#[verifier::external_body]
pub(crate) fn is_utf8(bytes: &[u8]) -> (r: bool)
    ensures
        r == valid_utf8(bytes@),
{
    std::str::from_utf8(bytes).is_ok()
}

/// Calls `String::from_utf8`, which keeps the bytes as they are.
#[verifier::external_body]
pub(crate) fn string_from_utf8(bytes: Vec<u8>) -> (r: Option<String>)
    ensures
        r is Some <==> valid_utf8(bytes@),
        r matches Some(text) ==> encode_utf8(text@) == bytes@,
{
    String::from_utf8(bytes).ok()
}

/// Calls `str::strip_prefix` with a string pattern.
#[verifier::external_body]
pub(crate) fn strip_prefix<'a>(text: &'a str, prefix: &str) -> (r: Option<&'a str>)
    ensures
        r is Some <==> prefix@.is_prefix_of(text@),
        r matches Some(rest) ==> text@ == prefix@ + rest@,
{
    text.strip_prefix(prefix)
}

} // verus!
