//! From document values to the text tree.
use vstd::prelude::*;
use crate::datetime::{format_rfc3339, rfc3339_text};
use crate::hextext::{encode_hex, hex_text};
use crate::objectid::object_id_text;
use crate::tags::{
    key_binary, key_code, key_date, key_increment, key_oid, key_options, key_regex, key_scope,
    key_time, key_timestamp, key_type,
};
use crate::value::{Document, elems_view, entries_view, has_symbol, pairs_view, Bson, BsonView, Yaml, YamlView};

verus! {

broadcast use vstd::std_specs::vec::axiom_vec_index_decreases;

pub open spec fn text(s: Seq<char>) -> YamlView {
    YamlView::String(s)
}

/// The text tree of a value. Extended values become mappings keyed by
/// reserved tags; a `Symbol` has no text form.
pub open spec fn encode_view(v: BsonView) -> YamlView
    decreases v,
{
    match v {
        BsonView::Null => YamlView::Null,
        BsonView::Boolean(b) => YamlView::Bool(b),
        BsonView::I32(i) => YamlView::I64(i as i64),
        BsonView::I64(i) => YamlView::I64(i),
        BsonView::FloatingPoint(f) => YamlView::F64(f),
        BsonView::String(s) => YamlView::String(s),
        BsonView::Array(a) => YamlView::Sequence(
            Seq::new(
                a.len(),
                |i: int| if 0 <= i < a.len() { encode_view(a[i]) } else { YamlView::Null },
            ),
        ),
        BsonView::Document(d) => YamlView::Mapping(encode_entries(d)),
        BsonView::Binary(t, b) => YamlView::Mapping(
            seq![(text(key_type()), YamlView::I64(t as i64)), (text(key_binary()), text(hex_text(b)))],
        ),
        BsonView::ObjectId(b) => YamlView::Mapping(seq![(text(key_oid()), text(hex_text(b)))]),
        BsonView::UtcDatetime(ms) => YamlView::Mapping(
            seq![(text(key_date()), text(rfc3339_text(ms)))],
        ),
        BsonView::TimeStamp(t, i) => YamlView::Mapping(
            seq![
                (
                    text(key_timestamp()),
                    YamlView::Mapping(
                        seq![
                            (text(key_time()), YamlView::I64(t as i64)),
                            (text(key_increment()), YamlView::I64(i as i64)),
                        ],
                    ),
                ),
            ],
        ),
        BsonView::RegExp(p, o) => YamlView::Mapping(
            seq![(text(key_regex()), text(p)), (text(key_options()), text(o))],
        ),
        BsonView::JavaScriptCode(c) => YamlView::Mapping(seq![(text(key_code()), text(c))]),
        BsonView::JavaScriptCodeWithScope(c, s) => YamlView::Mapping(
            seq![(text(key_code()), text(c)), (text(key_scope()), YamlView::Mapping(encode_entries(s)))],
        ),
        BsonView::Symbol(_) => YamlView::Null,
    }
}

/// The mapping pairs of a document's entries, in the same order.
pub open spec fn encode_entries(d: Seq<(Seq<char>, BsonView)>) -> Seq<(YamlView, YamlView)>
    decreases d,
{
    Seq::new(
        d.len(),
        |i: int|
            if 0 <= i < d.len() {
                (text(d[i].0), encode_view(d[i].1))
            } else {
                (YamlView::Null, YamlView::Null)
            },
    )
}

fn string_node(s: &str) -> (r: Yaml)
    ensures
        r@ == text(s@),
{
    Yaml::String(s.to_owned())
}

/// Encodes a document's entries as mapping pairs.
pub(crate) fn encode_document(d: &Vec<(String, Bson)>) -> (r: Vec<(Yaml, Yaml)>)
    requires
        forall|i: int| 0 <= i < d@.len() ==> !has_symbol(#[trigger] d@[i].1@),
    ensures
        pairs_view(r@) == encode_entries(entries_view(d@)),
    decreases entries_view(d@), 0int,
{
    let mut out: Vec<(Yaml, Yaml)> = Vec::new();
    let mut i: usize = 0;
    while i < d.len()
        invariant
            i <= d@.len(),
            out@.len() == i,
            forall|i: int| 0 <= i < d@.len() ==> !has_symbol(#[trigger] d@[i].1@),
            forall|j: int|
                0 <= j < i ==> (#[trigger] out@[j]).0@ == text(d@[j].0@) && out@[j].1@
                    == encode_view(d@[j].1@),
        decreases d@.len() - i,
    {
        let key = Yaml::String(d[i].0.clone());
        proof {
            assert(entries_view(d@)[i as int].1 == d@[i as int].1@);
            assert(decreases_to!(entries_view(d@) => d@[i as int].1@));
        }
        let value = bson_ref_to_yaml(&d[i].1);
        out.push((key, value));
        i = i + 1;
    }
    assert(pairs_view(out@) =~= encode_entries(entries_view(d@)));
    out
}

/// Encodes an array's elements.
fn encode_array(a: &Vec<Bson>) -> (r: Vec<Yaml>)
    requires
        forall|i: int| 0 <= i < a@.len() ==> !has_symbol(#[trigger] a@[i]@),
    ensures
        r@.len() == a@.len(),
        forall|i: int| 0 <= i < a@.len() ==> (#[trigger] r@[i])@ == encode_view(a@[i]@),
    decreases elems_view(a@), 0int,
{
    let mut out: Vec<Yaml> = Vec::new();
    let mut i: usize = 0;
    while i < a.len()
        invariant
            i <= a@.len(),
            out@.len() == i,
            forall|j: int| 0 <= j < a@.len() ==> !has_symbol(#[trigger] a@[j]@),
            forall|j: int| 0 <= j < i ==> (#[trigger] out@[j])@ == encode_view(a@[j]@),
        decreases a@.len() - i,
    {
        proof {
            assert(elems_view(a@)[i as int] == a@[i as int]@);
            assert(decreases_to!(elems_view(a@) => a@[i as int]@));
        }
        let value = bson_ref_to_yaml(&a[i]);
        out.push(value);
        i = i + 1;
    }
    out
}

/// Encodes a value as a text tree.
pub fn bson_ref_to_yaml(bson: &Bson) -> (r: Yaml)
    requires
        !has_symbol(bson@),
    ensures
        r@ == encode_view(bson@),
    decreases bson@, 1int,
{
    match bson {
        Bson::Null => {
            assert(bson@ == BsonView::Null);
            Yaml::Null
        },
        Bson::Boolean(b) => Yaml::Bool(*b),
        Bson::I32(i) => Yaml::I64(*i as i64),
        Bson::I64(i) => Yaml::I64(*i),
        Bson::FloatingPoint(f) => Yaml::F64(*f),
        Bson::String(s) => Yaml::String(s.clone()),
        Bson::Array(a) => {
            proof {
                assert forall|j: int| 0 <= j < a@.len() implies !has_symbol(#[trigger] a@[j]@) by {
                    assert(elems_view(a@)[j] == a@[j]@);
                }
            }
            let out = encode_array(a);
            proof {
                let r = Yaml::Sequence(out);
                assert(r@->Sequence_0 =~= encode_view(bson@)->Sequence_0);
            }
            Yaml::Sequence(out)
        },
        Bson::Document(d) => {
            proof {
                assert forall|j: int| 0 <= j < d@.len() implies !has_symbol(#[trigger] d@[j].1@) by {
                    assert(bson@ == BsonView::Document(entries_view(d@)));
                    assert(entries_view(d@)[j].1 == d@[j].1@);
                }
            }
            Yaml::Mapping(encode_document(d))
        },
        Bson::Binary(t, b) => {
            let mut m: Vec<(Yaml, Yaml)> = Vec::new();
            m.push((string_node("$type"), Yaml::I64(*t as i64)));
            m.push((string_node("$binary"), Yaml::String(encode_hex(b))));
            assert(pairs_view(m@) =~= encode_view(bson@)->Mapping_0);
            Yaml::Mapping(m)
        },
        Bson::ObjectId(o) => {
            let mut m: Vec<(Yaml, Yaml)> = Vec::new();
            m.push((string_node("$oid"), Yaml::String(object_id_text(o.bytes))));
            assert(pairs_view(m@) =~= encode_view(bson@)->Mapping_0);
            Yaml::Mapping(m)
        },
        Bson::UtcDatetime(ms) => {
            let mut m: Vec<(Yaml, Yaml)> = Vec::new();
            m.push((string_node("$date"), Yaml::String(format_rfc3339(*ms))));
            assert(pairs_view(m@) =~= encode_view(bson@)->Mapping_0);
            Yaml::Mapping(m)
        },
        Bson::TimeStamp(ts) => {
            let mut inner: Vec<(Yaml, Yaml)> = Vec::new();
            inner.push((string_node("t"), Yaml::I64(ts.time as i64)));
            inner.push((string_node("i"), Yaml::I64(ts.increment as i64)));
            let ghost iv = pairs_view(inner@);
            let mut m: Vec<(Yaml, Yaml)> = Vec::new();
            m.push((string_node("$timestamp"), Yaml::Mapping(inner)));
            assert(iv =~= seq![
                (text(key_time()), YamlView::I64(ts.time as i64)),
                (text(key_increment()), YamlView::I64(ts.increment as i64)),
            ]);
            assert(pairs_view(m@) =~= encode_view(bson@)->Mapping_0);
            Yaml::Mapping(m)
        },
        Bson::RegExp(p, o) => {
            let mut m: Vec<(Yaml, Yaml)> = Vec::new();
            m.push((string_node("$regex"), Yaml::String(p.clone())));
            m.push((string_node("$options"), Yaml::String(o.clone())));
            assert(pairs_view(m@) =~= encode_view(bson@)->Mapping_0);
            Yaml::Mapping(m)
        },
        Bson::JavaScriptCode(c) => {
            let mut m: Vec<(Yaml, Yaml)> = Vec::new();
            m.push((string_node("$code"), Yaml::String(c.clone())));
            assert(pairs_view(m@) =~= encode_view(bson@)->Mapping_0);
            Yaml::Mapping(m)
        },
        Bson::JavaScriptCodeWithScope(c, s) => {
            proof {
                assert forall|j: int| 0 <= j < s@.len() implies !has_symbol(#[trigger] s@[j].1@) by {
                    assert(entries_view(s@)[j].1 == s@[j].1@);
                }
            }
            let scope = encode_document(s);
            let ghost sv = pairs_view(scope@);
            let mut m: Vec<(Yaml, Yaml)> = Vec::new();
            m.push((string_node("$code"), Yaml::String(c.clone())));
            m.push((string_node("$scope"), Yaml::Mapping(scope)));
            assert(pairs_view(m@) =~= encode_view(bson@)->Mapping_0);
            Yaml::Mapping(m)
        },
        Bson::Symbol(_) => {
            proof {
                assert(has_symbol(bson@));
            }
            Yaml::Null
        },
    }
}

/// Encodes a value as a text tree.
pub fn bson_to_yaml(bson: Bson) -> (r: Yaml)
    requires
        !has_symbol(bson@),
    ensures
        r@ == encode_view(bson@),
{
    bson_ref_to_yaml(&bson)
}

/// Encodes a document as a mapping with the same keys in the same order.
pub fn bson_document_to_yaml(doc: Document) -> (r: Yaml)
    requires
        forall|i: int| 0 <= i < doc@.len() ==> !has_symbol(#[trigger] doc@[i].1@),
    ensures
        r@ == YamlView::Mapping(encode_entries(entries_view(doc@))),
        r@ == encode_view(BsonView::Document(entries_view(doc@))),
{
    Yaml::Mapping(encode_document(&doc))
}

/// Whether some element of an array holds a `Symbol` anywhere.
fn array_has_symbol(a: &Vec<Bson>) -> (r: bool)
    ensures
        r == exists|i: int| #![trigger a@[i]] 0 <= i < a@.len() && has_symbol(a@[i]@),
    decreases elems_view(a@), 0int,
{
    let mut i: usize = 0;
    while i < a.len()
        invariant
            i <= a@.len(),
            forall|j: int| 0 <= j < i ==> !has_symbol(#[trigger] a@[j]@),
        decreases a@.len() - i,
    {
        proof {
            assert(elems_view(a@)[i as int] == a@[i as int]@);
            assert(decreases_to!(elems_view(a@) => a@[i as int]@));
        }
        if value_has_symbol(&a[i]) {
            return true;
        }
        i = i + 1;
    }
    false
}

/// Whether a value holds a `Symbol` anywhere; no such value can be encoded.
#[verifier::spinoff_prover]
pub fn value_has_symbol(v: &Bson) -> (r: bool)
    ensures
        r == has_symbol(v@),
    decreases v@, 1int,
{
    match v {
        Bson::Symbol(s) => {
            assert(v@ == BsonView::Symbol(s@));
            true
        },
        Bson::Array(a) => {
            let ghost ev = elems_view(a@);
            assert(v@ == BsonView::Array(ev));
            assert(forall|j: int| 0 <= j < a@.len() ==> #[trigger] ev[j] == a@[j]@);
            assert(v@->Array_0 == ev);
            assert(decreases_to!(v@ => v@->Array_0));
            let r = array_has_symbol(a);
            proof {
                if r {
                    let i = choose|i: int| 0 <= i < a@.len() && has_symbol(#[trigger] a@[i]@);
                    assert(ev[i] == a@[i]@);
                } else {
                    assert forall|i: int| 0 <= i < ev.len() implies !has_symbol(#[trigger] ev[i]) by {
                        assert(ev[i] == a@[i]@);
                    }
                }
            }
            r
        },
        Bson::Document(d) => {
            assert(v@->Document_0 == entries_view(d@));
            assert(decreases_to!(v@ => v@->Document_0));
            document_has_symbol(d)
        },
        Bson::JavaScriptCodeWithScope(c, d) => {
            assert(v@ == BsonView::JavaScriptCodeWithScope(c@, entries_view(d@)));
            assert(v@->JavaScriptCodeWithScope_1 == entries_view(d@));
            assert(decreases_to!(v@ => v@->JavaScriptCodeWithScope_1));
            document_has_symbol(d)
        },
        _ => {
            assert(!(v@ is Symbol || v@ is Array || v@ is Document || v@ is JavaScriptCodeWithScope));
            false
        },
    }
}

/// Whether some field of a document holds a `Symbol` anywhere.
pub fn document_has_symbol(d: &Document) -> (r: bool)
    ensures
        r == exists|i: int| #![trigger d@[i]] 0 <= i < d@.len() && has_symbol(d@[i].1@),
        r == exists|i: int|
            #![trigger entries_view(d@)[i]]
            0 <= i < d@.len() && has_symbol(entries_view(d@)[i].1),
    decreases entries_view(d@), 0int,
{
    let ghost ev = entries_view(d@);
    let mut i: usize = 0;
    while i < d.len()
        invariant
            i <= d@.len(),
            ev == entries_view(d@),
            forall|j: int| 0 <= j < i ==> !has_symbol(#[trigger] d@[j].1@),
            forall|j: int| 0 <= j < d@.len() ==> (#[trigger] ev[j]).1 == d@[j].1@,
        decreases d@.len() - i,
    {
        proof {
            assert(decreases_to!(ev => d@[i as int].1@));
        }
        if value_has_symbol(&d[i].1) {
            assert(ev[i as int].1 == d@[i as int].1@);
            return true;
        }
        i = i + 1;
    }
    proof {
        assert forall|j: int| 0 <= j < d@.len() implies !has_symbol(#[trigger] ev[j].1) by {
            assert(ev[j].1 == d@[j].1@);
        }
    }
    false
}

} // verus!
