//! The reserved mapping keys that mark extended values in the text tree.
use vstd::prelude::*;

verus! {

pub open spec fn key_type() -> Seq<char> {
    "$type"@
}

pub open spec fn key_binary() -> Seq<char> {
    "$binary"@
}

pub open spec fn key_regex() -> Seq<char> {
    "$regex"@
}

pub open spec fn key_options() -> Seq<char> {
    "$options"@
}

pub open spec fn key_oid() -> Seq<char> {
    "$oid"@
}

pub open spec fn key_date() -> Seq<char> {
    "$date"@
}

pub open spec fn key_code() -> Seq<char> {
    "$code"@
}

pub open spec fn key_scope() -> Seq<char> {
    "$scope"@
}

pub open spec fn key_timestamp() -> Seq<char> {
    "$timestamp"@
}

pub open spec fn key_time() -> Seq<char> {
    "t"@
}

pub open spec fn key_increment() -> Seq<char> {
    "i"@
}

} // verus!
