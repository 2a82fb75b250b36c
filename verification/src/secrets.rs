//! Long-lived per-device netplay keys.
//!
//! A key is a bearer credential. Only its digest is stored, there is one row
//! for each device, and a revoked row is refused as an unknown key is.

use crate::identity::Player;
use crate::outside::{hex_encode, hex_of, new_uuid, parse_uuid, random_bytes, uuid_shape, uuid_text};
use crate::players::{hash_api_token, token_digest};
use crate::text::{cat, clean, clean_line};
use vstd::prelude::*;
use vstd::string::*;

verus! {

/// How many characters a device's label keeps.
pub const LABEL_MAX_CHARS: usize = 64;

/// What is stored of a key.
pub fn hash(secret: &str) -> (r: String)
    ensures
        r@ == token_digest(secret@),
{
    hash_api_token(secret)
}

/// The key that some bytes make. The prefix tells it from other tokens.
pub open spec fn key_of(bytes: Seq<u8>) -> Seq<char> {
    "rnp_"@ + hex_of(bytes)
}

/// A key by chance: the prefix and 32 bytes in hexadecimal.
pub fn generate() -> (r: String)
    ensures
        exists|bytes: Seq<u8>| bytes.len() == 32 && r@ == #[trigger] key_of(bytes),
{
    let bytes = random_bytes(32);
    let h = hex_encode(&bytes);
    let r = cat("rnp_", h.as_str());
    proof {
        assert(r@ == key_of(bytes@));
    }
    r
}

/// A key to insert. The plaintext goes to the device, once; the rest is the
/// row.
pub struct NewSecret {
    pub secret: String,
    pub id: String,
    pub secret_hash: String,
    pub label: String,
}

/// Issues a key for one device.
pub fn issue(label: &str) -> (r: NewSecret)
    ensures
        exists|bytes: Seq<u8>| bytes.len() == 32 && r.secret@ == #[trigger] key_of(bytes),
        uuid_shape(r.id@),
        r.secret_hash@ == token_digest(r.secret@),
        r.label@ == clean_line(label@, LABEL_MAX_CHARS as int),
{
    let secret = generate();
    let secret_hash = hash(secret.as_str());
    NewSecret { secret, id: new_uuid(), secret_hash, label: clean(label, LABEL_MAX_CHARS) }
}

/// Why a key was not traded for its player.
#[derive(Clone, Copy, Debug, PartialEq, Eq, Structural)]
pub enum RedeemError {
    /// No live row has the key, or its player is gone.
    InvalidSecret,
    /// The row's player id is no UUID.
    BadId,
}

/// The player that a key belongs to, given the player id of the live row that
/// has its digest, if any.
pub fn redeemed_id(row: Option<String>) -> (r: Result<String, RedeemError>)
    ensures
        match (r, row) {
            (Ok(id), Some(p)) => uuid_text(p@) == Some(id@),
            (Err(e), Some(p)) => uuid_text(p@) is None && e == RedeemError::BadId,
            (Err(e), None) => e == RedeemError::InvalidSecret,
            _ => false,
        },
{
    match row {
        Some(p) => match parse_uuid(p.as_str()) {
            Some(id) => Ok(id),
            None => Err(RedeemError::BadId),
        },
        None => Err(RedeemError::InvalidSecret),
    }
}

/// What a key is traded for, given the player that was loaded for it.
pub fn redeem(player: Option<Player>) -> (r: Result<Player, RedeemError>)
    ensures
        r == (match player {
            Some(p) => Ok::<Player, RedeemError>(p),
            None => Err(RedeemError::InvalidSecret),
        }),
{
    match player {
        Some(p) => Ok(p),
        None => Err(RedeemError::InvalidSecret),
    }
}

/// Whether revoking a key did anything, by the number of rows that it changed.
pub fn revoke(rows: u64) -> (r: bool)
    ensures
        r == (rows > 0),
{
    rows > 0
}

} // verus!
