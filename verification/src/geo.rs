//! The operator's country database.

use crate::geo_file::{file_is_sound, sound_file};
use crate::ip_country::Ip;
use crate::text::{upper, uppered};
use vstd::prelude::*;
use vstd::string::*;

verus! {

/// A country database of MaxMind, loaded.
#[verifier::external_body]
pub struct GeoDb {
    reader: maxminddb::Reader<Vec<u8>>,
}

/// What a loaded database holds: by the address, the code of the country as it
/// stands in the record.
pub uninterp spec fn codes_in(db: GeoDb) -> Map<Ip, Seq<char>>;

/// The bytes of the file that a database was loaded from.
pub uninterp spec fn bytes_of(db: GeoDb) -> Seq<u8>;

/// What the bytes of a file are as a database; nothing where they are none.
pub uninterp spec fn codes_of_file(bytes: Seq<u8>) -> Option<Map<Ip, Seq<char>>>;

/// Calls `maxminddb::Reader::from_source`: what it makes of some bytes rests on
/// the bytes alone, and it keeps them. It reads the metadata, and through the
/// tree to where the IPv4 addresses start, with unchecked indices and without a
/// bound on nested values that it skips: hence the sound file.
#[verifier::external_body]
fn load(bytes: Vec<u8>) -> (r: Option<GeoDb>)
    requires
        sound_file(bytes@),
    ensures
        match r {
            Some(db) => bytes_of(db) == bytes@ && codes_of_file(bytes@) == Some(codes_in(db)),
            None => codes_of_file(bytes@) is None,
        },
{
    maxminddb::Reader::from_source(bytes).ok().map(|reader| GeoDb { reader })
}

/// Calls `maxminddb::Reader::lookup`, reads the record as a `geoip2::Country`
/// and takes its `iso_code`: there is none where the address has no record,
/// where the record cannot be read, and where it has no code. The lookup walks
/// the tree with unchecked indices, takes a record above the node count for a
/// place in the data section, and skips nested values there without a bound:
/// hence the sound file.
#[verifier::external_body]
fn code_at(db: &GeoDb, ip: Ip) -> (r: Option<String>)
    requires
        sound_file(bytes_of(*db)),
    ensures
        match r {
            Some(s) => codes_in(*db).contains_key(ip) && codes_in(*db)[ip] == s@,
            None => !codes_in(*db).contains_key(ip),
        },
{
    let at = match ip {
        Ip::V4(n) => n.to_be_bytes().into(),
        Ip::V6(n) => n.to_be_bytes().into(),
    };
    let found = db.reader.lookup(at).ok()?;
    let record = found.decode::<maxminddb::geoip2::Country>().ok()??;
    record.country.iso_code.map(|s| s.to_string())
}

pub open spec fn opt_codes(db: Option<GeoDb>) -> Option<Map<Ip, Seq<char>>> {
    match db {
        Some(db) => Some(codes_in(db)),
        None => None,
    }
}

/// What a database, where there is one, says of an address, in upper case.
pub open spec fn db_code(codes: Option<Map<Ip, Seq<char>>>, ip: Ip) -> Seq<char> {
    match codes {
        Some(m) => if m.contains_key(ip) {
            uppered(m[ip])
        } else {
            Seq::empty()
        },
        None => Seq::empty(),
    }
}

/// Whether a database, where there is one, can be asked for any address.
pub open spec fn db_sound(db: Option<GeoDb>) -> bool {
    match db {
        Some(db) => sound_file(bytes_of(db)),
        None => true,
    }
}

/// What a file, where there is one, gives: nothing where its tree breaks off,
/// where a record of it leads nowhere, and where its values nest without end.
pub open spec fn file_codes(bytes: Option<Seq<u8>>) -> Option<Map<Ip, Seq<char>>> {
    match bytes {
        Some(b) => if sound_file(b) {
            codes_of_file(b)
        } else {
            None
        },
        None => None,
    }
}

pub open spec fn opt_bytes(bytes: Option<Vec<u8>>) -> Option<Seq<u8>> {
    match bytes {
        Some(b) => Some(b@),
        None => None,
    }
}

/// Loads a database. A file that is none, or one that is damaged, costs the
/// database's answers, and nothing else.
pub fn open_db(bytes: Option<Vec<u8>>) -> (r: Option<GeoDb>)
    ensures
        opt_codes(r) == file_codes(opt_bytes(bytes)),
        db_sound(r),
{
    match bytes {
        Some(b) => if file_is_sound(&b) {
            load(b)
        } else {
            None
        },
        None => None,
    }
}

pub fn code_from(db: &Option<GeoDb>, ip: Ip) -> (r: String)
    requires
        db_sound(*db),
    ensures
        r@ == db_code(opt_codes(*db), ip),
{
    match db {
        Some(db) => match code_at(db, ip) {
            Some(c) => upper(c.as_str()),
            None => String::new(),
        },
        None => String::new(),
    }
}

} // verus!
