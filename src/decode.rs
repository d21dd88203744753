//! From the text tree back to document values.
use vstd::prelude::*;
use crate::datetime::{parse_rfc3339, rfc3339_millis};
use crate::encode::text;
use crate::error::{Error, ErrorType};
use crate::hextext::{decode_hex, hex_bytes, is_hex_text};
use crate::objectid::{object_id_of, parse_object_id};
use crate::tags::{
    key_binary, key_code, key_date, key_increment, key_oid, key_options, key_regex, key_scope,
    key_time, key_timestamp, key_type,
};
use crate::value::{
    fields_distinct, lemma_merge_distinct, merge_fields, put_field, entries_view, elems_view, nodes_view, pairs_view, Bson, BsonView, Document, ObjectId, Timestamp,
    Yaml, YamlView,
};

verus! {

/// The value under key `k` in a two-entry mapping.
pub open spec fn value_of(m: Seq<(YamlView, YamlView)>, k: Seq<char>) -> Option<YamlView> {
    if m[0].0 == text(k) {
        Some(m[0].1)
    } else if m[1].0 == text(k) {
        Some(m[1].1)
    } else {
        None
    }
}

/// An integer node.
pub open spec fn int_of(v: Option<YamlView>) -> Option<i64> {
    match v {
        Some(YamlView::I64(n)) => Some(n),
        _ => None,
    }
}

/// The packed 64-bit timestamp `(t << 32) | i`, each half taken as 64 bits.
pub open spec fn pack_halves(t: i64, i: i64) -> u64 {
    ((t as u64) << 32u64) | (i as u64)
}

/// The (time, increment) pair of a `{"t": .., "i": ..}` mapping with integer
/// values: the two halves of the packed value.
pub open spec fn timestamp_of(v: YamlView) -> Option<(u32, u32)> {
    match v {
        YamlView::Mapping(m) => if m.len() == 2 && int_of(value_of(m, key_time())) is Some && int_of(
            value_of(m, key_increment()),
        ) is Some {
            let p = pack_halves(
                int_of(value_of(m, key_time()))->0,
                int_of(value_of(m, key_increment()))->0,
            );
            Some(((p / 0x1_0000_0000) as u32, (p % 0x1_0000_0000) as u32))
        } else {
            None
        },
        _ => None,
    }
}

pub open spec fn as_document(e: Option<Seq<(Seq<char>, BsonView)>>) -> Option<BsonView> {
    match e {
        Some(d) => Some(BsonView::Document(d)),
        None => None,
    }
}

/// A one-entry mapping with string key `k`: a tag whose value has the right
/// shape gives the extended value, anything else the `plain` reading.
pub open spec fn decode_single(k: Seq<char>, v: YamlView, plain: Option<BsonView>) -> Option<BsonView> {
    if k == key_code() && v is String {
        Some(BsonView::JavaScriptCode(v->String_0))
    } else if k == key_timestamp() && timestamp_of(v) is Some {
        Some(BsonView::TimeStamp((timestamp_of(v)->0).0, (timestamp_of(v)->0).1))
    } else if k == key_oid() && v is String {
        match object_id_of(v->String_0) {
            Some(b) => Some(BsonView::ObjectId(b)),
            None => Some(BsonView::String(v->String_0)),
        }
    } else if k == key_date() && v is String {
        match rfc3339_millis(v->String_0) {
            Some(ms) => Some(BsonView::UtcDatetime(ms)),
            None => Some(BsonView::String(v->String_0)),
        }
    } else {
        plain
    }
}

/// A two-entry mapping with string keys `k1`, `k2` in that order. `scope` is
/// the reading of `v2`'s entries as a document, where `v2` is a mapping.
pub open spec fn decode_pair(
    k1: Seq<char>,
    v1: YamlView,
    k2: Seq<char>,
    v2: YamlView,
    scope: Option<Seq<(Seq<char>, BsonView)>>,
    plain: Option<BsonView>,
) -> Option<BsonView> {
    if k1 == key_regex() && k2 == key_options() && v1 is String && v2 is String {
        Some(BsonView::RegExp(v1->String_0, v2->String_0))
    } else if k1 == key_code() && k2 == key_scope() && v1 is String && v2 is Mapping {
        match scope {
            Some(s) => Some(BsonView::JavaScriptCodeWithScope(v1->String_0, s)),
            None => None,
        }
    } else if k1 == key_type() && k2 == key_binary() && v1 is I64 && v2 is String && is_hex_text(
        v2->String_0,
    ) {
        Some(BsonView::Binary(v1->I64_0 as u8, hex_bytes(v2->String_0)))
    } else {
        plain
    }
}

/// The value a text tree stands for, or `None` where a mapping somewhere
/// has a key that is not a string.
pub open spec fn decode_view(y: YamlView) -> Option<BsonView>
    decreases y, 0int,
{
    match y {
        YamlView::Null => Some(BsonView::Null),
        YamlView::Bool(b) => Some(BsonView::Boolean(b)),
        YamlView::I64(i) => Some(BsonView::I64(i)),
        YamlView::F64(f) => Some(BsonView::FloatingPoint(f)),
        YamlView::String(s) => Some(BsonView::String(s)),
        YamlView::Sequence(s) => if forall|i: int|
            #![trigger s[i]]
            0 <= i < s.len() ==> decode_view(s[i]) is Some {
            Some(
                BsonView::Array(
                    Seq::new(
                        s.len(),
                        |i: int|
                            if 0 <= i < s.len() {
                                decode_view(s[i])->0
                            } else {
                                BsonView::Null
                            },
                    ),
                ),
            )
        } else {
            None
        },
        YamlView::Mapping(m) => if m.len() == 1 {
            if m[0].0 is String {
                decode_single(m[0].0->String_0, m[0].1, as_document(decode_entries(m)))
            } else {
                None
            }
        } else if m.len() == 2 {
            if m[0].0 is String && m[1].0 is String {
                decode_pair(
                    m[0].0->String_0,
                    m[0].1,
                    m[1].0->String_0,
                    m[1].1,
                    match m[1].1 {
                        YamlView::Mapping(inner) => decode_entries(inner),
                        _ => None,
                    },
                    as_document(decode_entries(m)),
                )
            } else {
                None
            }
        } else {
            as_document(decode_entries(m))
        },
    }
}

/// The first `n` pairs of a mapping, keys and values decoded.
pub open spec fn decoded_prefix(m: Seq<(YamlView, YamlView)>, n: int) -> Seq<(Seq<char>, BsonView)>
    decreases m, 0int,
{
    Seq::new(
        n as nat,
        |j: int|
            if 0 <= j < m.len() {
                (m[j].0->String_0, decode_view(m[j].1)->0)
            } else {
                (Seq::empty(), BsonView::Null)
            },
    )
}

/// A mapping read as a document with no tag recognition at its own level,
/// or `None` where a key is not a string or a value fails to decode. A
/// repeated key keeps its first place and takes its last value.
pub open spec fn decode_entries(m: Seq<(YamlView, YamlView)>) -> Option<Seq<(Seq<char>, BsonView)>>
    decreases m, 1int,
{
    if forall|i: int|
        0 <= i < m.len() ==> (#[trigger] m[i]).0 is String && decode_view(m[i].1) is Some {
        Some(
            merge_fields(decoded_prefix(m, m.len() as int)),
        )
    } else {
        None
    }
}

broadcast use vstd::std_specs::vec::axiom_vec_index_decreases;

/// A one-entry mapping under key `k` whose value has the shape that tag needs.
pub open spec fn single_tag(k: Seq<char>, v: YamlView) -> bool {
    ||| k == key_code() && v is String
    ||| k == key_timestamp() && timestamp_of(v) is Some
    ||| k == key_oid() && v is String
    ||| k == key_date() && v is String
}

/// A two-entry mapping under keys `k1`, `k2` whose values have the shapes
/// that tag pair needs.
pub open spec fn pair_tag(k1: Seq<char>, v1: YamlView, k2: Seq<char>, v2: YamlView) -> bool {
    ||| k1 == key_regex() && k2 == key_options() && v1 is String && v2 is String
    ||| k1 == key_code() && k2 == key_scope() && v1 is String && v2 is Mapping
    ||| k1 == key_type() && k2 == key_binary() && v1 is I64 && v2 is String && is_hex_text(
        v2->String_0,
    )
}

/// Whether the decoder reads a mapping as an extended value.
pub open spec fn tag_recognized(m: Seq<(YamlView, YamlView)>) -> bool {
    ||| m.len() == 1 && m[0].0 is String && single_tag(m[0].0->String_0, m[0].1)
    ||| m.len() == 2 && m[0].0 is String && m[1].0 is String && pair_tag(
        m[0].0->String_0,
        m[0].1,
        m[1].0->String_0,
        m[1].1,
    )
}

/// The outcome of a decoding step, held against what `want` says it must be.
pub open spec fn decodes_as<T>(r: Result<T, Error>, want: Option<BsonView>, view: spec_fn(T) -> BsonView) -> bool {
    match r {
        Ok(b) => want == Some(view(b)),
        Err(e) => want is None && e.err_type == ErrorType::ConversionError,
    }
}

fn non_string_key() -> (r: Error)
    ensures
        r.err_type == ErrorType::ConversionError,
{
    Error::coversion_error("Unable to convert YAML mapping with non-string keys")
}

/// Whether a key is the given tag.
fn is_key(k: &String, tag: &str) -> (r: bool)
    ensures
        r == (k@ == tag@),
{
    let t = tag.to_owned();
    k.eq(&t)
}

/// The value under `key` in a two-entry mapping.
fn value_for<'a>(m: &'a Vec<(Yaml, Yaml)>, key: &str) -> (r: Option<&'a Yaml>)
    requires
        m@.len() == 2,
    ensures
        r is Some <==> value_of(pairs_view(m@), key@) is Some,
        r is Some ==> r->0@ == value_of(pairs_view(m@), key@)->0,
{
    let first = match &m[0].0 {
        Yaml::String(s) => is_key(s, key),
        _ => false,
    };
    if first {
        return Some(&m[0].1);
    }
    let second = match &m[1].0 {
        Yaml::String(s) => is_key(s, key),
        _ => false,
    };
    if second {
        Some(&m[1].1)
    } else {
        None
    }
}

fn int_value(v: Option<&Yaml>) -> (r: Option<i64>)
    ensures
        r == int_of(
            match v {
                Some(y) => Some(y@),
                None => None,
            },
        ),
{
    match v {
        Some(Yaml::I64(n)) => Some(*n),
        _ => None,
    }
}

/// Reads `{"t": time, "i": increment}` with integer values and splits
/// `(t << 32) | i` into the timestamp's two halves.
fn convert_timestamp(v: &Yaml) -> (r: Option<Timestamp>)
    ensures
        r is Some <==> timestamp_of(v@) is Some,
        r is Some ==> timestamp_of(v@) == Some((r->0.time, r->0.increment)),
{
    match v {
        Yaml::Mapping(m) => {
            if m.len() != 2 {
                return None;
            }
            let t = int_value(value_for(m, "t"));
            let i = int_value(value_for(m, "i"));
            match (t, i) {
                (Some(time), Some(increment)) => {
                    let packed = ((time as u64) << 32u64) | (increment as u64);
                    Some(Timestamp::from_packed(packed))
                },
                _ => None,
            }
        },
        _ => None,
    }
}

/// An identifier's text: the identifier, or the text itself where it is not one.
fn convert_oid(s: &String) -> (r: Bson)
    ensures
        r@ == match object_id_of(s@) {
            Some(b) => BsonView::ObjectId(b),
            None => BsonView::String(s@),
        },
{
    match parse_object_id(s) {
        Some(bytes) => Bson::ObjectId(ObjectId { bytes }),
        None => Bson::String(s.clone()),
    }
}

/// An instant's text: the instant, or the text itself where it is not one.
fn convert_datetime(s: &String) -> (r: Bson)
    ensures
        r@ == match rfc3339_millis(s@) {
            Some(ms) => BsonView::UtcDatetime(ms),
            None => BsonView::String(s@),
        },
{
    match parse_rfc3339(s) {
        Some(ms) => Bson::UtcDatetime(ms),
        None => Bson::String(s.clone()),
    }
}

/// Decodes each node of a sequence.
fn convert_array_to_bson(s: &Vec<Yaml>) -> (r: Result<Vec<Bson>, Error>)
    ensures
        r is Ok <==> forall|i: int| 0 <= i < s@.len() ==> (#[trigger] decode_view(s@[i]@)) is Some,
        r is Ok ==> r->Ok_0@.len() == s@.len() && forall|i: int|
            0 <= i < s@.len() ==> Some((#[trigger] r->Ok_0@[i])@) == decode_view(s@[i]@),
        r is Err ==> r->Err_0.err_type == ErrorType::ConversionError,
    decreases nodes_view(s@), 0int,
{
    let mut out: Vec<Bson> = Vec::new();
    let mut i: usize = 0;
    while i < s.len()
        invariant
            i <= s@.len(),
            out@.len() == i,
            forall|j: int| 0 <= j < i ==> Some((#[trigger] out@[j])@) == decode_view(s@[j]@),
        decreases s@.len() - i,
    {
        proof {
            assert(nodes_view(s@)[i as int] == s@[i as int]@);
            assert(decreases_to!(nodes_view(s@) => s@[i as int]@));
        }
        match yaml_ref_to_bson(&s[i]) {
            Ok(b) => out.push(b),
            Err(e) => {
                assert(decode_view(s@[i as int]@) is None);
                return Err(e);
            },
        }
        i = i + 1;
    }
    assert forall|j: int| 0 <= j < s@.len() implies (#[trigger] decode_view(s@[j]@)) is Some by {
        assert(Some(out@[j]@) == decode_view(s@[j]@));
    }
    Ok(out)
}

/// Sets field `key` of a document with distinct names: in place where it is
/// present, else at the end.
fn put_field_exec(out: &mut Document, key: String, value: Bson)
    requires
        fields_distinct(entries_view(old(out)@)),
    ensures
        entries_view(final(out)@) == put_field(entries_view(old(out)@), key@, value@),
{
    let ghost pre = out@;
    let ghost d = entries_view(pre);
    let mut j: usize = 0;
    while j < out.len()
        invariant
            out@ == pre,
            pre == old(out)@,
            d == entries_view(pre),
            fields_distinct(d),
            j <= pre.len(),
            forall|q: int| 0 <= q < j ==> (#[trigger] pre[q]).0@ != key@,
        decreases pre.len() - j,
    {
        if out[j].0.eq(&key) {
            proof {
                assert(d[j as int].0 == key@);
                let c = choose|q: int| 0 <= q < d.len() && d[q].0 == key@;
                assert(c == j as int);
            }
            let ghost kv = key@;
            let ghost vv = value@;
            out.set(j, (key, value));
            assert(entries_view(out@) =~= d.update(j as int, (kv, vv)));
            assert(put_field(d, kv, vv) == d.update(j as int, (kv, vv)));
            return;
        }
        j = j + 1;
    }
    proof {
        assert forall|q: int| 0 <= q < d.len() implies d[q].0 != key@ by {
            assert(d[q].0 == pre[q].0@);
        }
    }
    let ghost kv = key@;
    let ghost vv = value@;
    out.push((key, value));
    assert(entries_view(out@) =~= d.push((kv, vv)));
}

/// Decodes a mapping as a document, with no tag recognition at its own level.
pub(crate) fn convert_mapping_to_bson_document(m: &Vec<(Yaml, Yaml)>) -> (r: Result<Document, Error>)
    ensures
        match r {
            Ok(d) => decode_entries(pairs_view(m@)) == Some(entries_view(d@)) && fields_distinct(
                entries_view(d@),
            ),
            Err(e) => decode_entries(pairs_view(m@)) is None && e.err_type
                == ErrorType::ConversionError,
        },
    decreases pairs_view(m@), 0int,
{
    let ghost pm = pairs_view(m@);
    let mut out: Document = Vec::new();
    let mut i: usize = 0;
    assert(entries_view(out@) =~= merge_fields(decoded_prefix(pm, 0)));
    while i < m.len()
        invariant
            i <= m@.len(),
            pm == pairs_view(m@),
            entries_view(out@) == merge_fields(decoded_prefix(pm, i as int)),
            forall|j: int|
                0 <= j < i ==> (#[trigger] pm[j]).0 is String && decode_view(pm[j].1) is Some,
        decreases m@.len() - i,
    {
        let key = match &m[i].0 {
            Yaml::String(k) => k.clone(),
            _ => {
                assert(!(pm[i as int].0 is String));
                return Err(non_string_key());
            },
        };
        proof {
            assert(pm[i as int].1 == m@[i as int].1@);
            assert(decreases_to!(pm => m@[i as int].1@));
        }
        match yaml_ref_to_bson(&m[i].1) {
            Ok(b) => {
                proof {
                    lemma_merge_distinct(decoded_prefix(pm, i as int));
                    let next = decoded_prefix(pm, i + 1);
                    assert(next.drop_last() =~= decoded_prefix(pm, i as int));
                    assert(next.last() == (key@, b@));
                }
                put_field_exec(&mut out, key, b);
            },
            Err(e) => {
                assert(decode_view(pm[i as int].1) is None);
                return Err(e);
            },
        }
        i = i + 1;
    }
    proof {
        lemma_merge_distinct(decoded_prefix(pm, pm.len() as int));
    }
    Ok(out)
}

/// A one-entry mapping whose key is the string `k`.
fn convert_single_pair_mapping(m: &Vec<(Yaml, Yaml)>, k: &String) -> (r: Result<Bson, Error>)
    requires
        m@.len() == 1,
        m@[0].0@ == text(k@),
    ensures
        decodes_as(r, decode_view(YamlView::Mapping(pairs_view(m@))), |b: Bson| b@),
    decreases pairs_view(m@), 1int,
{
    let v = &m[0].1;
    if let Yaml::String(s) = v {
        if is_key(k, "$code") {
            return Ok(Bson::JavaScriptCode(s.clone()));
        }
    }
    if is_key(k, "$timestamp") {
        if let Some(ts) = convert_timestamp(v) {
            return Ok(Bson::TimeStamp(ts));
        }
    }
    if let Yaml::String(s) = v {
        if is_key(k, "$oid") {
            return Ok(convert_oid(s));
        }
        if is_key(k, "$date") {
            return Ok(convert_datetime(s));
        }
    }
    match convert_mapping_to_bson_document(m) {
        Ok(d) => Ok(Bson::Document(d)),
        Err(e) => Err(e),
    }
}

/// A two-entry mapping whose keys are the strings `k1` and `k2`, in order.
fn convert_double_pair_mapping(m: &Vec<(Yaml, Yaml)>, k1: &String, k2: &String) -> (r: Result<
    Bson,
    Error,
>)
    requires
        m@.len() == 2,
        m@[0].0@ == text(k1@),
        m@[1].0@ == text(k2@),
    ensures
        decodes_as(r, decode_view(YamlView::Mapping(pairs_view(m@))), |b: Bson| b@),
    decreases pairs_view(m@), 1int,
{
    let v1 = &m[0].1;
    let v2 = &m[1].1;
    if is_key(k1, "$regex") && is_key(k2, "$options") {
        if let Yaml::String(p) = v1 {
            if let Yaml::String(o) = v2 {
                return Ok(Bson::RegExp(p.clone(), o.clone()));
            }
        }
    }
    if is_key(k1, "$code") && is_key(k2, "$scope") {
        if let Yaml::String(c) = v1 {
            if let Yaml::Mapping(inner) = v2 {
                proof {
                    assert(pairs_view(m@)[1].1 == m@[1].1@);
                    assert(decreases_to!(pairs_view(m@) => pairs_view(inner@)));
                }
                return match convert_mapping_to_bson_document(inner) {
                    Ok(d) => Ok(Bson::JavaScriptCodeWithScope(c.clone(), d)),
                    Err(e) => Err(e),
                };
            }
        }
    }
    if is_key(k1, "$type") && is_key(k2, "$binary") {
        if let Yaml::I64(t) = v1 {
            if let Yaml::String(h) = v2 {
                if let Some(bytes) = decode_hex(h) {
                    return Ok(Bson::Binary(*t as u8, bytes));
                }
            }
        }
    }
    match convert_mapping_to_bson_document(m) {
        Ok(d) => Ok(Bson::Document(d)),
        Err(e) => Err(e),
    }
}

/// How a sequence decodes: element by element, failing where one fails.
pub(crate) proof fn lemma_decode_sequence(ns: Seq<YamlView>)
    ensures
        decode_view(YamlView::Sequence(ns)) is Some <==> forall|i: int|
            0 <= i < ns.len() ==> (#[trigger] decode_view(ns[i])) is Some,
        decode_view(YamlView::Sequence(ns)) is Some ==> {
            let a = decode_view(YamlView::Sequence(ns))->0->Array_0;
            &&& decode_view(YamlView::Sequence(ns))->0 is Array
            &&& a.len() == ns.len()
            &&& forall|i: int| 0 <= i < ns.len() ==> a[i] == decode_view(ns[i])->0
        },
{
    if exists|k: int| 0 <= k < ns.len() && !(decode_view(ns[k]) is Some) {
        let k = choose|k: int| 0 <= k < ns.len() && !(decode_view(ns[k]) is Some);
        assert(!(decode_view(ns[k]) is Some));
    }
}

/// Decodes a text tree.
pub fn yaml_ref_to_bson(yaml: &Yaml) -> (r: Result<Bson, Error>)
    ensures
        decodes_as(r, decode_view(yaml@), |b: Bson| b@),
    decreases yaml@, 2int,
{
    match yaml {
        Yaml::Null => Ok(Bson::Null),
        Yaml::Bool(b) => Ok(Bson::Boolean(*b)),
        Yaml::I64(i) => Ok(Bson::I64(*i)),
        Yaml::F64(f) => Ok(Bson::FloatingPoint(*f)),
        Yaml::String(s) => Ok(Bson::String(s.clone())),
        Yaml::Sequence(s) => {
            let ghost ns = nodes_view(s@);
            proof {
                lemma_decode_sequence(ns);
                assert(yaml@ == YamlView::Sequence(ns));
                assert forall|i: int| 0 <= i < s@.len() implies #[trigger] ns[i] == s@[i]@ by {}
            }
            match convert_array_to_bson(s) {
                Ok(a) => {
                    let r = Bson::Array(a);
                    proof {
                        assert forall|i: int| 0 <= i < ns.len() implies (#[trigger] decode_view(ns[i])) is Some by {
                            assert(ns[i] == s@[i]@);
                        }
                        assert(r@->Array_0 == elems_view(a@));
                        assert forall|i: int| 0 <= i < ns.len() implies #[trigger] elems_view(a@)[i]
                            == decode_view(ns[i])->0 by {
                            assert(ns[i] == s@[i]@);
                            assert(Some(a@[i]@) == decode_view(s@[i]@));
                        }
                        assert(elems_view(a@) =~= decode_view(yaml@)->0->Array_0);
                    }
                    Ok(r)
                },
                Err(e) => {
                    proof {
                        let k = choose|i: int| 0 <= i < s@.len() && !(decode_view(s@[i]@) is Some);
                        assert(ns[k] == s@[k]@);
                    }
                    Err(e)
                },
            }
        },
        Yaml::Mapping(m) => {
            if m.len() == 1 {
                match &m[0].0 {
                    Yaml::String(k) => convert_single_pair_mapping(m, k),
                    _ => Err(non_string_key()),
                }
            } else if m.len() == 2 {
                match &m[0].0 {
                    Yaml::String(k1) => match &m[1].0 {
                        Yaml::String(k2) => convert_double_pair_mapping(m, k1, k2),
                        _ => Err(non_string_key()),
                    },
                    _ => Err(non_string_key()),
                }
            } else {
                match convert_mapping_to_bson_document(m) {
                    Ok(d) => Ok(Bson::Document(d)),
                    Err(e) => Err(e),
                }
            }
        },
    }
}

/// Decodes a text tree; fails exactly where some mapping in it has a key
/// that is not a string.
pub fn yaml_to_bson(yaml: Yaml) -> (r: Result<Bson, Error>)
    ensures
        decodes_as(r, decode_view(yaml@), |b: Bson| b@),
{
    yaml_ref_to_bson(&yaml)
}

} // verus!
