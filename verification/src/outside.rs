//! The calls into other crates that more than one module makes, and the calls
//! whose results rest on chance or on the clock.

use crate::text::{digit_char, opt_view};
use rand::RngCore;
use sha2::Digest;
use hmac::Mac;
use base64::Engine;
use vstd::prelude::*;

verus! {

/// The SHA-256 digest of some bytes.
pub uninterp spec fn sha256_of(data: Seq<u8>) -> Seq<u8>;

/// Calls `sha2::Sha256::digest`: 32 bytes that depend on the data alone.
#[verifier::external_body]
pub(crate) fn sha256(data: &Vec<u8>) -> (r: Vec<u8>)
    ensures
        r@ == sha256_of(data@),
        r@.len() == 32,
{
    sha2::Sha256::digest(data.as_slice()).to_vec()
}

/// Two lower-case hexadecimal digits for each byte.
pub open spec fn hex_of(data: Seq<u8>) -> Seq<char>
    decreases data.len(),
{
    if data.len() == 0 {
        Seq::empty()
    } else {
        hex_of(data.drop_last()).push(digit_char(data.last() as int / 16)).push(
            digit_char(data.last() as int % 16),
        )
    }
}

/// Calls `hex::encode`: each byte as two lower-case hexadecimal digits.
#[verifier::external_body]
pub(crate) fn hex_encode(data: &Vec<u8>) -> (r: String)
    ensures
        r@ == hex_of(data@),
{
    hex::encode(data)
}

/// The HMAC-SHA1 code of a message under a key.
pub uninterp spec fn hmac_sha1_of(key: Seq<u8>, message: Seq<u8>) -> Seq<u8>;

/// Calls `hmac::Hmac::<sha1::Sha1>`. A key of any length is taken, so
/// `new_from_slice` gives a value; the code is 20 bytes.
#[verifier::external_body]
pub(crate) fn hmac_sha1(key: &[u8], message: &[u8]) -> (r: Vec<u8>)
    ensures
        r@ == hmac_sha1_of(key@, message@),
        r@.len() == 20,
{
    let mut mac = hmac::Hmac::<sha1::Sha1>::new_from_slice(key).unwrap();
    mac.update(message);
    mac.finalize().into_bytes().to_vec()
}

/// The HMAC-SHA256 code of a message under a key.
pub uninterp spec fn hmac_sha256_of(key: Seq<u8>, message: Seq<u8>) -> Seq<u8>;

/// Calls `hmac::Hmac::<sha2::Sha256>`. A key of any length is taken, so
/// `new_from_slice` gives a value; the code is 32 bytes.
#[verifier::external_body]
pub(crate) fn hmac_sha256(key: &[u8], message: &[u8]) -> (r: Vec<u8>)
    ensures
        r@ == hmac_sha256_of(key@, message@),
        r@.len() == 32,
{
    let mut mac = hmac::Hmac::<sha2::Sha256>::new_from_slice(key).unwrap();
    mac.update(message);
    mac.finalize().into_bytes().to_vec()
}

/// Some bytes in the standard Base64 alphabet, padded.
pub uninterp spec fn base64_of(data: Seq<u8>) -> Seq<char>;

/// Calls `base64::engine::general_purpose::STANDARD.encode`.
#[verifier::external_body]
pub(crate) fn base64_encode(data: &Vec<u8>) -> (r: String)
    ensures
        r@ == base64_of(data@),
{
    base64::engine::general_purpose::STANDARD.encode(data)
}

/// Calls `fill_bytes` of `rand::thread_rng`: `n` bytes by chance.
#[verifier::external_body]
pub(crate) fn random_bytes(n: usize) -> (r: Vec<u8>)
    ensures
        r@.len() == n,
{
    let mut out = vec![0u8; n];
    rand::thread_rng().fill_bytes(&mut out);
    out
}

/// Calls `next_u32` of `rand::thread_rng`: a number by chance, of which
/// nothing is stated.
#[verifier::external_body]
pub(crate) fn random_u32() -> (r: u32)
{
    rand::thread_rng().next_u32()
}

/// The shape of a UUID's text: 36 characters, dashes after 8, 12, 16 and 20
/// hexadecimal digits, and those in lower case.
pub open spec fn uuid_shape(s: Seq<char>) -> bool {
    &&& s.len() == 36
    &&& forall|i: int|
        0 <= i < 36 ==> if i == 8 || i == 13 || i == 18 || i == 23 {
            (#[trigger] s[i]) == '-'
        } else {
            '0' <= s[i] <= '9' || 'a' <= s[i] <= 'f'
        }
}

/// Whether all of them look like UUIDs.
pub open spec fn uuid_shapes(ids: Seq<Seq<char>>) -> bool {
    forall|i: int| 0 <= i < ids.len() ==> uuid_shape(#[trigger] ids[i])
}

/// The hyphenated text of the UUID that `s` writes, where it writes one.
pub uninterp spec fn uuid_text(s: Seq<char>) -> Option<Seq<char>>;

/// Calls `uuid::Uuid::new_v4` and writes the result: an id by chance, in the
/// hyphenated text, which is what reading it and writing it again gives.
#[verifier::external_body]
pub(crate) fn new_uuid() -> (r: String)
    ensures
        uuid_shape(r@),
        uuid_text(r@) == Some(r@),
{
    uuid::Uuid::new_v4().to_string()
}

/// Calls `uuid::Uuid::parse_str` and writes what it gives back. Which texts it
/// takes rests on the text alone.
#[verifier::external_body]
pub(crate) fn parse_uuid(s: &str) -> (r: Option<String>)
    ensures
        opt_view(r) == uuid_text(s@),
        r is Some ==> uuid_shape(r->0@),
{
    uuid::Uuid::parse_str(s).ok().map(|u| u.to_string())
}

/// No clock says this second or a later one.
pub const CLOCK_END: i64 = 200_000_000_000_000;

/// Calls `chrono::Utc::now().timestamp`: the seconds since 1970 by the clock,
/// never fewer than none. A date of chrono holds a year of 19 bits with its
/// sign, so the seconds stay well below the end. Which second it is rests on
/// the clock alone.
#[verifier::external_body]
pub(crate) fn now_secs() -> (r: i64)
    ensures
        0 <= r < CLOCK_END,
{
    chrono::Utc::now().timestamp()
}

/// A text in Unicode lower case.
pub uninterp spec fn lowercase_of(s: Seq<char>) -> Seq<char>;

/// Calls `str::to_lowercase`; what it gives rests on the text alone.
#[verifier::external_body]
pub(crate) fn to_lowercase(s: &str) -> (r: String)
    ensures
        r@ == lowercase_of(s@),
{
    s.to_lowercase()
}

} // verus!
