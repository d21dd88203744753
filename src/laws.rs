//! Properties that relate the encoder and the decoder.
use vstd::prelude::*;
use crate::datetime::{rfc3339_millis, rfc3339_text};
use crate::decode::{decoded_prefix, pack_halves, as_document, decode_entries, decode_view, lemma_decode_sequence, tag_recognized, timestamp_of, value_of};
use crate::encode::{encode_entries, encode_view, text};
use crate::hextext::{hex_text, lemma_hex_round_trip};
use crate::tags::{
    key_binary, key_code, key_date, key_increment, key_oid, key_options, key_regex, key_scope,
    key_time, key_timestamp, key_type,
};
use crate::export::{collections_encodable, collections_view};
use crate::import::{collections_of, collections_readable, document_of};
use crate::value::{fields_distinct, lemma_merge_distinct, lemma_merge_identity, entries_view, has_symbol, BsonView, Document, Timestamp, YamlView};

verus! {

/// A value with every 32-bit integer widened to 64 bits: the text form has
/// one integer width.
pub open spec fn widen(v: BsonView) -> BsonView
    decreases v,
{
    match v {
        BsonView::I32(n) => BsonView::I64(n as i64),
        BsonView::Array(a) => BsonView::Array(
            Seq::new(a.len(), |i: int| if 0 <= i < a.len() { widen(a[i]) } else { BsonView::Null }),
        ),
        BsonView::Document(d) => BsonView::Document(widen_fields(d)),
        BsonView::JavaScriptCodeWithScope(c, d) => BsonView::JavaScriptCodeWithScope(
            c,
            widen_fields(d),
        ),
        _ => v,
    }
}

/// A document's fields, each value widened.
pub open spec fn widen_fields(d: Seq<(Seq<char>, BsonView)>) -> Seq<(Seq<char>, BsonView)>
    decreases d,
{
    Seq::new(
        d.len(),
        |i: int| if 0 <= i < d.len() { (d[i].0, widen(d[i].1)) } else { (Seq::empty(), BsonView::Null) },
    )
}

/// Whether a value comes back from its text form as itself, 32-bit integers
/// widened: it holds no object identifier of other than twelve bytes, no
/// instant whose RFC 3339 text reads back as another instant, no document (or scope) with a repeated
/// field name, and no document whose own mapping the decoder would read as
/// an extended value.
pub open spec fn reversible(v: BsonView) -> bool
    decreases v,
{
    match v {
        BsonView::ObjectId(b) => b.len() == 12,
        BsonView::UtcDatetime(ms) => rfc3339_millis(rfc3339_text(ms)) == Some(ms),
        BsonView::Array(a) => forall|i: int| #![trigger a[i]] 0 <= i < a.len() ==> reversible(a[i]),
        BsonView::Document(d) => fields_distinct(d) && !tag_recognized(encode_entries(d))
            && forall|i: int| #![trigger d[i]] 0 <= i < d.len() ==> reversible(d[i].1),
        BsonView::JavaScriptCodeWithScope(_, d) => fields_distinct(d) && forall|i: int|
            #![trigger d[i]]
            0 <= i < d.len() ==> reversible(d[i].1),
        _ => true,
    }
}

proof fn lemma_tags_distinct()
    ensures
        key_code() != key_timestamp(),
        key_code() != key_oid(),
        key_code() != key_date(),
        key_code() != key_regex(),
        key_code() != key_type(),
        key_timestamp() != key_oid(),
        key_timestamp() != key_date(),
        key_oid() != key_date(),
        key_type() != key_regex(),
        key_time() != key_increment(),
{
    reveal_strlit("$code");
    reveal_strlit("$timestamp");
    reveal_strlit("$oid");
    reveal_strlit("$date");
    reveal_strlit("$regex");
    reveal_strlit("$type");
    reveal_strlit("t");
    reveal_strlit("i");
    assert(key_code()[1] != key_timestamp()[1]);
    assert(key_code()[1] != key_oid()[1]);
    assert(key_code()[1] != key_date()[1]);
    assert(key_code()[1] != key_regex()[1]);
    assert(key_code()[1] != key_type()[1]);
    assert(key_timestamp()[1] != key_oid()[1]);
    assert(key_timestamp()[1] != key_date()[1]);
    assert(key_oid()[1] != key_date()[1]);
    assert(key_type()[1] != key_regex()[1]);
    assert(key_time()[0] != key_increment()[0]);
}

pub(crate) proof fn lemma_entries_round_trip(d: Seq<(Seq<char>, BsonView)>)
    requires
        fields_distinct(d),
        forall|i: int| #![trigger d[i]] 0 <= i < d.len() ==> !has_symbol(d[i].1) && reversible(d[i].1),
    ensures
        decode_entries(encode_entries(d)) == Some(widen_fields(d)),
    decreases d, 0int,
{
    let m = encode_entries(d);
    assert forall|i: int| 0 <= i < m.len() implies (#[trigger] m[i]).0 is String && decode_view(
        m[i].1,
    ) == Some(widen(d[i].1)) by {
        assert(m[i] == (text(d[i].0), encode_view(d[i].1)));
        lemma_round_trip(d[i].1);
    }
    let w = widen_fields(d);
    assert(decoded_prefix(m, m.len() as int) =~= w);
    assert forall|a: int, b: int| 0 <= a < b < w.len() implies #[trigger] w[a].0
        != #[trigger] w[b].0 by {
        assert(w[a].0 == d[a].0 && w[b].0 == d[b].0);
    }
    lemma_merge_identity(w);
}

/// The halves of an in-range time and increment survive packing.
proof fn lemma_pack_halves(t: u32, i: u32)
    ensures
        pack_halves(t as i64, i as i64) / 0x1_0000_0000 == t,
        pack_halves(t as i64, i as i64) % 0x1_0000_0000 == i,
{
    let tt = t as u64;
    let ii = i as u64;
    assert(((t as i64) as u64) == tt);
    assert(((i as i64) as u64) == ii);
    assert((tt << 32u64) | ii == tt * 0x1_0000_0000u64 + ii) by (bit_vector)
        requires
            tt < 0x1_0000_0000u64,
            ii < 0x1_0000_0000u64,
    ;
    let ti = t as int;
    let iv = i as int;
    assert((ti * 0x1_0000_0000 + iv) / 0x1_0000_0000 == ti) by (nonlinear_arith)
        requires
            0 <= iv < 0x1_0000_0000,
            0 <= ti,
    ;
    assert((ti * 0x1_0000_0000 + iv) % 0x1_0000_0000 == iv) by (nonlinear_arith)
        requires
            0 <= iv < 0x1_0000_0000,
            0 <= ti,
    ;
}

/// Encoding and then decoding gives back every value that holds no `Symbol`
/// and comes back from its text form as itself (see `reversible`), with
/// 32-bit integers widened to 64 bits.
pub proof fn lemma_round_trip(v: BsonView)
    requires
        !has_symbol(v),
        reversible(v),
    ensures
        decode_view(encode_view(v)) == Some(widen(v)),
    decreases v, 1int,
{
    lemma_tags_distinct();
    match v {
        BsonView::Array(a) => {
            let s = encode_view(v)->Sequence_0;
            lemma_decode_sequence(s);
            assert forall|i: int| 0 <= i < s.len() implies #[trigger] decode_view(s[i]) == Some(
                widen(a[i]),
            ) by {
                assert(s[i] == encode_view(a[i]));
                lemma_round_trip(a[i]);
            }
            assert(decode_view(encode_view(v))->0->Array_0 =~= widen(v)->Array_0);
        },
        BsonView::Document(d) => {
            lemma_entries_round_trip(d);
        },
        BsonView::JavaScriptCodeWithScope(c, d) => {
            lemma_entries_round_trip(d);
        },
        BsonView::Binary(t, b) => {
            lemma_hex_round_trip(b);
        },
        BsonView::ObjectId(b) => {
            lemma_hex_round_trip(b);
        },
        BsonView::TimeStamp(t, i) => {
            let m = encode_view(v)->Mapping_0[0].1->Mapping_0;
            assert(value_of(m, key_time()) == Some(YamlView::I64(t as i64)));
            assert(value_of(m, key_increment()) == Some(YamlView::I64(i as i64)));
            lemma_pack_halves(t, i);
        },
        _ => {},
    }
}

/// A mapping that the decoder does not read as an extended value decodes to
/// a document with distinct field names; where the mapping's keys are
/// distinct, it has the same keys in the same order, each value decoded in
/// turn.
pub proof fn lemma_plain_mapping(m: Seq<(YamlView, YamlView)>)
    requires
        !tag_recognized(m),
    ensures
        decode_view(YamlView::Mapping(m)) == as_document(decode_entries(m)),
        decode_view(YamlView::Mapping(m)) is Some ==> fields_distinct(
            decode_view(YamlView::Mapping(m))->0->Document_0,
        ),
        decode_view(YamlView::Mapping(m)) is Some && mapping_keys_distinct(m) ==> {
            let d = decode_view(YamlView::Mapping(m))->0->Document_0;
            &&& d.len() == m.len()
            &&& forall|i: int|
                0 <= i < m.len() ==> m[i].0 == text(#[trigger] d[i].0) && decode_view(m[i].1) == Some(
                    d[i].1,
                )
        },
{
    if decode_entries(m) is Some {
        let p = decoded_prefix(m, m.len() as int);
        lemma_merge_distinct(p);
        if mapping_keys_distinct(m) {
            assert forall|a: int, b: int| 0 <= a < b < p.len() implies #[trigger] p[a].0
                != #[trigger] p[b].0 by {
                assert(m[a].0 is String && m[b].0 is String);
                assert(m[a].0 != m[b].0);
            }
            lemma_merge_identity(p);
        }
    }
}

/// A mapping with a key that is not a string fails to decode.
pub proof fn lemma_non_string_key(m: Seq<(YamlView, YamlView)>, k: int)
    requires
        0 <= k < m.len(),
        !(m[k].0 is String),
    ensures
        decode_view(YamlView::Mapping(m)) is None,
{
    if m.len() == 1 {
        assert(k == 0);
    } else if m.len() == 2 {
        assert(k == 0 || k == 1);
    } else {
        assert(!(m[k].0 is String && decode_view(m[k].1) is Some));
        assert(decode_entries(m) is None);
    }
}

/// A timestamp's text form decodes to the same two halves, for every pair,
/// the largest time included.
pub proof fn lemma_timestamp_round_trip(time: u32, increment: u32)
    ensures
        decode_view(encode_view(BsonView::TimeStamp(time, increment))) == Some(
            BsonView::TimeStamp(time, increment),
        ),
{
    lemma_round_trip(BsonView::TimeStamp(time, increment));
}

/// Packing a timestamp and splitting the packed value give back its halves.
pub proof fn lemma_packing_inverse(ts: Timestamp)
    ensures
        ts.packed_view() / 0x1_0000_0000 == ts.time,
        ts.packed_view() % 0x1_0000_0000 == ts.increment,
{
    let t = ts.time as int;
    let i = ts.increment as int;
    assert((t * 0x1_0000_0000 + i) / 0x1_0000_0000 == t) by (nonlinear_arith)
        requires
            0 <= i < 0x1_0000_0000,
            0 <= t,
    ;
    assert((t * 0x1_0000_0000 + i) % 0x1_0000_0000 == i) by (nonlinear_arith)
        requires
            0 <= i < 0x1_0000_0000,
            0 <= t,
    ;
}

/// A binary value encodes as its subtype and the lowercase hex of its bytes,
/// and that mapping decodes back to the same subtype and bytes.
pub proof fn lemma_binary_round_trip(subtype: u8, bytes: Seq<u8>)
    ensures
        encode_view(BsonView::Binary(subtype, bytes)) == YamlView::Mapping(
            seq![
                (text(key_type()), YamlView::I64(subtype as i64)),
                (text(key_binary()), text(hex_text(bytes))),
            ],
        ),
        decode_view(encode_view(BsonView::Binary(subtype, bytes))) == Some(
            BsonView::Binary(subtype, bytes),
        ),
{
    lemma_round_trip(BsonView::Binary(subtype, bytes));
}

/// Under `$oid`, a value that is not a string is kept as an ordinary field:
/// never an identifier, and never an error unless the value itself fails.
pub proof fn lemma_oid_wrong_type(v: YamlView)
    requires
        !(v is String),
    ensures
        decode_view(YamlView::Mapping(seq![(text(key_oid()), v)])) == match decode_view(v) {
            Some(b) => Some(BsonView::Document(seq![(key_oid(), b)])),
            None => None,
        },
{
    lemma_tags_distinct();
    let m = seq![(text(key_oid()), v)];
    assert(!tag_recognized(m));
    lemma_plain_mapping(m);
    if decode_view(v) is Some {
        assert(decode_entries(m)->0 =~= seq![(key_oid(), decode_view(v)->0)]);
    } else {
        assert(!(m[0].0 is String && decode_view(m[0].1) is Some));
    }
}

/// Whether no two pairs of a mapping share a key.
pub open spec fn mapping_keys_distinct(m: Seq<(YamlView, YamlView)>) -> bool {
    forall|i: int, j: int| 0 <= i < j < m.len() ==> #[trigger] m[i].0 != #[trigger] m[j].0
}

/// Any mapping that decodes as a document gives distinct field names, and a
/// document with distinct names encodes to a mapping with distinct keys.
pub proof fn lemma_keys_stay_distinct(
    m: Seq<(YamlView, YamlView)>,
    d: Seq<(Seq<char>, BsonView)>,
)
    ensures
        decode_entries(m) is Some ==> fields_distinct(decode_entries(m)->0),
        fields_distinct(d) ==> mapping_keys_distinct(encode_entries(d)),
{
    lemma_merge_distinct(decoded_prefix(m, m.len() as int));
    if fields_distinct(d) {
        let n = encode_entries(d);
        assert forall|i: int, j: int| 0 <= i < j < n.len() implies #[trigger] n[i].0
            != #[trigger] n[j].0 by {
            assert(n[i].0 == text(d[i].0));
            assert(n[j].0 == text(d[j].0));
            assert(d[i].0 != d[j].0);
        }
    }
}

/// The collections, as names and field lists, that a whole-database export
/// reads back as: 32-bit integers widened.
pub open spec fn collections_model(colls: Seq<(String, Vec<Document>)>) -> Seq<
    (Seq<char>, Seq<Seq<(Seq<char>, BsonView)>>),
> {
    Seq::new(
        colls.len(),
        |i: int|
            (
                colls[i].0@,
                Seq::new(colls[i].1@.len(), |j: int| widen_fields(entries_view(colls[i].1@[j]@))),
            ),
    )
}

/// Reading back a whole-database export gives the same collections, in the
/// same order, with the same documents (32-bit integers widened), for
/// documents with distinct field names whose values come back from their
/// text form as themselves.
pub proof fn lemma_collections_round_trip(colls: Seq<(String, Vec<Document>)>)
    requires
        collections_encodable(colls),
        forall|i: int, j: int, k: int|
            0 <= i < colls.len() && 0 <= j < colls[i].1@.len() && 0 <= k < colls[i].1@[j]@.len()
                ==> reversible(#[trigger] colls[i].1@[j]@[k].1@),
        forall|i: int, j: int|
            0 <= i < colls.len() && 0 <= j < colls[i].1@.len() ==> fields_distinct(
                entries_view(#[trigger] colls[i].1@[j]@),
            ),
    ensures
        collections_of(collections_view(colls)) == Some(collections_model(colls)),
{
    let m = collections_view(colls)->Mapping_0;
    assert forall|i: int, j: int|
        0 <= i < colls.len() && 0 <= j < colls[i].1@.len() implies document_of(
        #[trigger] m[i].1->Sequence_0[j],
    ) == Some(widen_fields(entries_view(colls[i].1@[j]@))) by {
        let ev = entries_view(colls[i].1@[j]@);
        assert(m[i].1->Sequence_0[j] == YamlView::Mapping(encode_entries(ev)));
        assert forall|k: int| #![trigger ev[k]] 0 <= k < ev.len() implies !has_symbol(ev[k].1)
            && reversible(ev[k].1) by {
            assert(ev[k].1 == colls[i].1@[j]@[k].1@);
        }
        lemma_entries_round_trip(ev);
    }
    assert(collections_readable(m));
    let got = collections_of(collections_view(colls))->0;
    let want = collections_model(colls);
    assert forall|i: int| 0 <= i < colls.len() implies #[trigger] got[i] == want[i] by {
        assert(got[i].1 =~= want[i].1);
    }
    assert(got =~= want);
}

} // verus!
