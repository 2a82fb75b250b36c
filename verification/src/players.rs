//! Anonymous players and their API tokens.

use crate::outside::{hex_encode, hex_of, new_uuid, random_bytes, sha256, sha256_of, uuid_shape};
use crate::text::same;
use vstd::prelude::*;
use vstd::string::*;
use vstd::utf8::encode_utf8;

verus! {

/// What is stored of a token: the digest of its bytes in hexadecimal.
pub open spec fn token_digest(token: Seq<char>) -> Seq<char> {
    hex_of(sha256_of(encode_utf8(token)))
}

pub fn hash_api_token(token: &str) -> (r: String)
    ensures
        r@ == token_digest(token@),
{
    let bytes = token.as_bytes_vec();
    hex_encode(&sha256(&bytes))
}

/// A token by chance: 32 bytes in hexadecimal.
pub fn generate_api_token() -> (r: String)
    ensures
        exists|bytes: Seq<u8>| bytes.len() == 32 && r@ == #[trigger] hex_of(bytes),
{
    let bytes = random_bytes(32);
    hex_encode(&bytes)
}

/// A player to insert. The token goes to the player and its digest to the row.
pub struct NewPlayer {
    pub id: String,
    pub token: String,
    pub token_hash: String,
}

/// A new player under an id and a token by chance.
pub fn create_player() -> (r: NewPlayer)
    ensures
        uuid_shape(r.id@),
        exists|bytes: Seq<u8>| bytes.len() == 32 && r.token@ == #[trigger] hex_of(bytes),
        r.token_hash@ == token_digest(r.token@),
{
    let token = generate_api_token();
    let token_hash = hash_api_token(token.as_str());
    NewPlayer { id: new_uuid(), token, token_hash }
}

/// Whether a token is the one of a row, given what the row stores of it. No
/// row, no match.
pub fn verify_player_token(stored: Option<&str>, token: &str) -> (r: bool)
    ensures
        r == (match stored {
            Some(h) => h@ == token_digest(token@),
            None => false,
        }),
{
    let expected = hash_api_token(token);
    match stored {
        Some(h) => same(h, expected.as_str()),
        None => false,
    }
}

/// As `verify_player_token`, with the message for a mismatch.
pub fn require_player(stored: Option<&str>, token: &str) -> (r: Result<(), &'static str>)
    ensures
        match r {
            Ok(_) => stored is Some && stored->0@ == token_digest(token@),
            Err(e) => !(stored is Some && stored->0@ == token_digest(token@)) && e@
                == "invalid player credentials"@,
        },
{
    if verify_player_token(stored, token) {
        Ok(())
    } else {
        Err("invalid player credentials")
    }
}

} // verus!
