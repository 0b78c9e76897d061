//! Public keys of validators, and how they are read from text.

use crate::parallel::hashers::big_endian;
use commonware_codec::DecodeExt;
use vstd::prelude::*;

verus! {

/// An ed25519 public key: its first and its last 16 bytes, both big-endian, so that keys order as
/// their bytes do.
#[derive(Clone, Copy, PartialEq, Eq, Structural, Hash, Debug)]
pub struct PublicKey {
    pub hi: u128,
    pub lo: u128,
}

impl PublicKey {
    /// Whether these are the bytes of the key.
    pub open spec fn has_bytes(self, bytes: Seq<u8>) -> bool {
        &&& bytes.len() == 32
        &&& big_endian(bytes.take(16)) == self.hi
        &&& big_endian(bytes.skip(16)) == self.lo
    }
}

/// The value of a hexadecimal digit.
pub open spec fn hex_digit(c: char) -> Option<u8> {
    if '0' <= c <= '9' {
        Some((c as u8 - '0' as u8) as u8)
    } else if 'a' <= c <= 'f' {
        Some((c as u8 - 'a' as u8 + 10) as u8)
    } else if 'A' <= c <= 'F' {
        Some((c as u8 - 'A' as u8 + 10) as u8)
    } else {
        None
    }
}

/// A text without its `0x` or `0X`.
pub open spec fn without_prefix(s: Seq<char>) -> Seq<char> {
    if s.len() >= 2 && s[0] == '0' && (s[1] == 'x' || s[1] == 'X') {
        s.skip(2)
    } else {
        s
    }
}

/// The bytes that a text spells in hexadecimal digits, two for each; a prefix `0x` or `0X` does not
/// count.
pub open spec fn hex_bytes(s: Seq<char>) -> Option<Seq<u8>> {
    let digits = without_prefix(s);
    if s.len() % 2 == 0 && forall|i: int|
        0 <= i < digits.len() ==> hex_digit(#[trigger] digits[i]) is Some {
        Some(
            Seq::new(
                digits.len() / 2,
                |i: int| (hex_digit(digits[2 * i])->0 * 16 + hex_digit(digits[2 * i + 1])->0) as u8,
            ),
        )
    } else {
        None
    }
}

/// `const_hex::decode`: the bytes that the text spells. It fails on an odd number of characters and
/// on a character that is no digit.
#[verifier::external_body]
fn decode_hex(text: &str) -> (r: Option<Vec<u8>>)
    ensures
        match r {
            Some(bytes) => hex_bytes(text@) == Some(bytes@),
            None => hex_bytes(text@) is None,
        },
{
    const_hex::decode(text).ok()
}

/// Whether `commonware_cryptography::ed25519::PublicKey` takes the bytes for a key: 32 of them that
/// encode a point of the curve.
pub uninterp spec fn is_ed25519_key(bytes: Seq<u8>) -> bool;

/// `commonware_cryptography::ed25519::PublicKey::decode`: the key with the given bytes, where they
/// are those of a key. Which points are keys is left to the curve; no bytes but 32 are.
#[verifier::external_body]
fn decode_key(bytes: &Vec<u8>) -> (r: Option<PublicKey>)
    ensures
        r is Some <==> is_ed25519_key(bytes@),
        r matches Some(key) ==> key.has_bytes(bytes@),
{
    let key = commonware_cryptography::ed25519::PublicKey::decode(&bytes[..]).ok()?;
    let (hi, lo) = key.as_ref().split_at(16);
    Some(PublicKey {
        hi: u128::from_be_bytes(hi.try_into().ok()?),
        lo: u128::from_be_bytes(lo.try_into().ok()?),
    })
}

/// A text without its `0x`.
pub open spec fn without_0x(s: Seq<char>) -> Seq<char> {
    if s.len() >= 2 && s[0] == '0' && s[1] == 'x' {
        s.skip(2)
    } else {
        s
    }
}

/// Whether a text spells the given key, with or without `0x`.
pub open spec fn spells_key(s: Seq<char>, key: PublicKey) -> bool {
    hex_bytes(without_0x(s)) matches Some(bytes) && is_ed25519_key(bytes) && key.has_bytes(bytes)
}

/// Whether a text spells a key.
pub open spec fn is_key_text(s: Seq<char>) -> bool {
    hex_bytes(without_0x(s)) matches Some(bytes) && is_ed25519_key(bytes)
}

/// The key that a text spells, with or without `0x`.
pub fn parse_public_key(text: &str) -> (r: Option<PublicKey>)
    ensures
        r is Some <==> is_key_text(text@),
        r matches Some(key) ==> spells_key(text@, key),
{
    let n: usize = text.unicode_len();
    let digits = if n >= 2 && text.get_char(0) == '0' && text.get_char(1) == 'x' {
        text.substring_char(2, n)
    } else {
        text
    };
    assert(digits@ =~= without_0x(text@));
    match decode_hex(digits) {
        Some(bytes) => decode_key(&bytes),
        None => None,
    }
}

} // verus!
