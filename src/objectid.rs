//! Object identifiers as text, through the bson crate.
use vstd::prelude::*;
use crate::hextext::{hex_bytes, hex_text, is_hex_text};

verus! {

/// The bytes of an object identifier written as text: exactly 24 hex digits.
pub open spec fn object_id_of(s: Seq<char>) -> Option<Seq<u8>> {
    if s.len() == 24 && is_hex_text(s) {
        Some(hex_bytes(s))
    } else {
        None
    }
}

/// Relies on bson::oid::ObjectId::parse_str: it hex-decodes the text and
/// accepts it only when that gives twelve bytes.
#[verifier::external_body]
pub(crate) fn parse_object_id(s: &String) -> (r: Option<[u8; 12]>)
    ensures
        r is Some <==> object_id_of(s@) is Some,
        r is Some ==> object_id_of(s@) == Some(r->0@),
{
    match bson::oid::ObjectId::parse_str(s) {
        Ok(o) => Some(o.bytes()),
        Err(_) => None,
    }
}

/// Relies on bson::oid::ObjectId::to_hex: lowercase hex of the twelve bytes.
#[verifier::external_body]
pub(crate) fn object_id_text(b: [u8; 12]) -> (r: String)
    ensures
        r@ == hex_text(b@),
{
    bson::oid::ObjectId::from_bytes(b).to_hex()
}

} // verus!
