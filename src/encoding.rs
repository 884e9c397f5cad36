use crate::error::Error;
use crate::model::{Address, Digest};
use std::str::FromStr;
use vstd::prelude::*;

verus! {

/// The `n` least significant bytes of `v`, least significant first: the
/// canonical encoding of a fixed-width unsigned integer.
pub open spec fn le_bytes(v: nat, n: nat) -> Seq<u8>
    decreases n,
{
    if n == 0 {
        Seq::empty()
    } else {
        seq![(v % 256) as u8] + le_bytes(v / 256, (n - 1) as nat)
    }
}

/// The canonical encoding of a boolean: one byte, 1 for true.
pub open spec fn bool_bytes(b: bool) -> Seq<u8> {
    seq![if b { 1u8 } else { 0u8 }]
}

/// Encodes the low `width` bytes of `v`, least significant first.
pub fn encode_uint(v: u128, width: usize) -> (r: Vec<u8>)
    ensures
        r@ == le_bytes(v as nat, width as nat),
{
    let mut out: Vec<u8> = Vec::new();
    let mut cur: u128 = v;
    let mut i: usize = 0;
    while i < width
        invariant
            i <= width,
            out@ + le_bytes(cur as nat, (width - i) as nat) == le_bytes(v as nat, width as nat),
        decreases width - i,
    {
        let b: u8 = (cur % 256) as u8;
        proof {
            let rest = le_bytes(cur as nat / 256, (width - i - 1) as nat);
            assert(le_bytes(cur as nat, (width - i) as nat) == seq![b] + rest);
            assert(out@.push(b) + rest == out@ + (seq![b] + rest));
        }
        out.push(b);
        cur = cur / 256;
        i = i + 1;
    }
    assert(out@ + le_bytes(cur as nat, 0) == out@);
    out
}

/// Encodes a boolean as one byte.
pub fn encode_bool(b: bool) -> (r: Vec<u8>)
    ensures
        r@ == bool_bytes(b),
{
    let mut out: Vec<u8> = Vec::new();
    out.push(if b { 1u8 } else { 0u8 });
    out
}

/// Copies the bytes of a fixed-size array: the canonical encoding of an
/// address is its 32 bytes as they stand.
pub fn encode_bytes32(a: &[u8; 32]) -> (r: Vec<u8>)
    ensures
        r@ == a@,
{
    let mut out: Vec<u8> = Vec::new();
    let mut i: usize = 0;
    while i < 32
        invariant
            i <= 32,
            a@.len() == 32,
            out@ == a@.subrange(0, i as int),
        decreases 32 - i,
    {
        out.push(a[i]);
        assert(a@.subrange(0, i + 1) == a@.subrange(0, i as int).push(a@[i as int]));
        i = i + 1;
    }
    assert(a@.subrange(0, 32) == a@);
    out
}

pub open spec fn is_ascii_alpha(c: char) -> bool {
    ('a' <= c && c <= 'z') || ('A' <= c && c <= 'Z')
}

pub open spec fn is_identifier_rest(c: char) -> bool {
    is_ascii_alpha(c) || ('0' <= c && c <= '9') || c == '_'
}

/// A Move identifier: 1 to 128 characters, starting with an ASCII letter, or
/// with an underscore followed by at least one more character, then only
/// ASCII letters, digits and underscores.
pub open spec fn valid_identifier(s: Seq<char>) -> bool {
    &&& 1 <= s.len() <= 128
    &&& (is_ascii_alpha(s[0]) || (s[0] == '_' && s.len() >= 2))
    &&& forall|i: int| 1 <= i < s.len() ==> is_identifier_rest(#[trigger] s[i])
}

/// Relies on sui_sdk_types::Identifier::from_str, which accepts exactly the
/// Move identifier grammar stated by `valid_identifier`.
#[verifier::external_body]
pub(crate) fn is_identifier(s: &str) -> (r: bool)
    ensures
        r == valid_identifier(s@),
{
    sui_sdk_types::Identifier::from_str(s).is_ok()
}

/// Whether a string parses as a Move type tag.
pub uninterp spec fn type_tag_parses(s: Seq<char>) -> bool;

/// Relies on sui_sdk_types::TypeTag::from_str: whether it accepts the text
/// depends on the text alone.
#[verifier::external_body]
pub(crate) fn is_type_tag(s: &str) -> (r: bool)
    ensures
        r == type_tag_parses(s@),
{
    sui_sdk_types::TypeTag::from_str(s).is_ok()
}

/// The 32 bytes that a text denotes as an address, if it denotes one.
pub uninterp spec fn address_text(s: Seq<char>) -> Option<Seq<u8>>;

/// Relies on sui_sdk_types::Address::from_str (hex digits, optionally
/// `0x`-prefixed, left-padded to 32 bytes): the outcome depends on the text
/// alone.
#[verifier::external_body]
fn parse_address(s: &str) -> (r: Option<[u8; 32]>)
    ensures
        r is Some <==> address_text(s@) is Some,
        r is Some ==> r->0@ == address_text(s@)->0,
{
    sui_sdk_types::Address::from_str(s).ok().map(|a| a.into_inner())
}

/// The 32 bytes that a text denotes as a digest, if it denotes one.
pub uninterp spec fn digest_text(s: Seq<char>) -> Option<Seq<u8>>;

/// Relies on sui_sdk_types::Digest::from_str (base58, decoded by bs58 into
/// a 32-byte array): the outcome depends on the text alone.
#[verifier::external_body]
fn parse_digest(s: &str) -> (r: Option<[u8; 32]>)
    ensures
        r is Some <==> digest_text(s@) is Some,
        r is Some ==> r->0@ == digest_text(s@)->0,
{
    sui_sdk_types::Digest::from_str(s).ok().map(|d| d.into_inner())
}

/// Reads an address from its text form.
pub fn address_from_text(s: &str) -> (r: Result<Address, Error>)
    ensures
        address_text(s@) is None <==> r == Err::<Address, Error>(Error::InvalidAddress),
        address_text(s@) is Some <==> r is Ok,
        r is Ok ==> r->Ok_0.bytes@ == address_text(s@)->0,
{
    match parse_address(s) {
        Some(bytes) => Ok(Address { bytes }),
        None => Err(Error::InvalidAddress),
    }
}

/// Reads a digest from its text form.
pub fn digest_from_text(s: &str) -> (r: Result<Digest, Error>)
    ensures
        digest_text(s@) is None <==> r == Err::<Digest, Error>(Error::InvalidDigest),
        digest_text(s@) is Some <==> r is Ok,
        r is Ok ==> r->Ok_0.bytes@ == digest_text(s@)->0,
{
    match parse_digest(s) {
        Some(bytes) => Ok(Digest { bytes }),
        None => Err(Error::InvalidDigest),
    }
}

/// A payload preceded by its length as a 4-byte little-endian integer.
pub open spec fn framed(payload: Seq<u8>) -> Seq<u8> {
    le_bytes(payload.len(), 4) + payload
}

/// Frames an encoded payload with its length; a payload whose length does
/// not fit in 32 bits is refused.
pub fn frame_payload(payload: &Vec<u8>) -> (r: Result<Vec<u8>, Error>)
    ensures
        payload@.len() <= u32::MAX <==> r is Ok,
        r is Err ==> r == Err::<Vec<u8>, Error>(Error::PayloadTooLarge),
        r is Ok ==> r->Ok_0@ == framed(payload@),
{
    if payload.len() > 4294967295 {
        return Err(Error::PayloadTooLarge);
    }
    let mut out = encode_uint(payload.len() as u128, 4);
    let mut i: usize = 0;
    while i < payload.len()
        invariant
            i <= payload@.len(),
            out@ == le_bytes(payload@.len() as nat, 4) + payload@.subrange(0, i as int),
        decreases payload@.len() - i,
    {
        out.push(payload[i]);
        assert(payload@.subrange(0, i + 1) == payload@.subrange(0, i as int).push(payload@[i as int]));
        i = i + 1;
    }
    assert(payload@.subrange(0, payload@.len() as int) == payload@);
    Ok(out)
}

} // verus!
