use tariff::decode::yaml_to_bson;
use tariff::encode::{bson_document_to_yaml, bson_to_yaml, document_has_symbol, value_has_symbol};
use tariff::import::{yaml_to_collections, yaml_to_document};
use tariff::error::{Error, ErrorType};
use tariff::export::{collections_to_yaml, insert_batch_size};
use tariff::value::{Bson, Document, ObjectId, Timestamp, Yaml};

fn s(x: &str) -> Yaml {
    Yaml::String(x.to_string())
}

fn map(pairs: Vec<(&str, Yaml)>) -> Yaml {
    Yaml::Mapping(pairs.into_iter().map(|(k, v)| (s(k), v)).collect())
}

fn doc(pairs: Vec<(&str, Bson)>) -> Document {
    pairs.into_iter().map(|(k, v)| (k.to_string(), v)).collect()
}

fn dbg<T: std::fmt::Debug>(x: &T) -> String {
    format!("{:?}", x)
}

fn decode_ok(y: Yaml) -> Bson {
    match yaml_to_bson(y) {
        Ok(b) => b,
        Err(e) => panic!("unexpected error: {}", e.description()),
    }
}

fn sample() -> Bson {
    Bson::Document(doc(vec![
        ("null", Bson::Null),
        ("flag", Bson::Boolean(true)),
        ("n", Bson::I64(-7)),
        ("pi", Bson::FloatingPoint(3.25f64.to_bits())),
        ("name", Bson::String("tariff".to_string())),
        ("list", Bson::Array(vec![Bson::I64(1), Bson::String("two".to_string())])),
        ("bin", Bson::Binary(4, vec![0xde, 0xad, 0xbe, 0xef])),
        ("id", Bson::ObjectId(ObjectId { bytes: [0x50, 0x7f, 0x1f, 0x77, 0xbc, 0xf8, 0x6c, 0xd7, 0x99, 0x43, 0x90, 0x11] })),
        ("when", Bson::UtcDatetime(1_500_000_000_123)),
        ("ts", Bson::TimeStamp(Timestamp { time: 7, increment: 9 })),
        ("re", Bson::RegExp("^a.*".to_string(), "i".to_string())),
        ("js", Bson::JavaScriptCode("f()".to_string())),
        (
            "jss",
            Bson::JavaScriptCodeWithScope(
                "g(x)".to_string(),
                doc(vec![("x", Bson::I64(3)), ("inner", Bson::Document(doc(vec![("a", Bson::Null), ("b", Bson::Null), ("c", Bson::Null)])))]),
            ),
        ),
    ]))
}

#[test]
fn round_trip_of_every_variant() {
    let v = sample();
    let back = decode_ok(bson_to_yaml(sample()));
    assert_eq!(dbg(&back), dbg(&v));
}

#[test]
fn round_trip_keeps_key_order() {
    let v = Bson::Document(doc(vec![("z", Bson::I64(1)), ("a", Bson::I64(2)), ("m", Bson::I64(3))]));
    let back = decode_ok(bson_to_yaml(Bson::Document(doc(vec![("z", Bson::I64(1)), ("a", Bson::I64(2)), ("m", Bson::I64(3))]))));
    assert_eq!(dbg(&back), dbg(&v));
}

#[test]
fn int32_widens_to_int64() {
    assert!(matches!(bson_to_yaml(Bson::I32(-5)), Yaml::I64(-5)));
    assert!(matches!(decode_ok(bson_to_yaml(Bson::I32(12))), Bson::I64(12)));
}

#[test]
fn plain_mapping_decodes_to_same_document() {
    let y = map(vec![
        ("b", Yaml::I64(2)),
        ("a", map(vec![("$oid", Yaml::I64(1)), ("$date", Yaml::I64(2)), ("x", Yaml::Null)])),
        ("c", Yaml::Sequence(vec![Yaml::Bool(false)])),
    ]);
    let expected = Bson::Document(doc(vec![
        ("b", Bson::I64(2)),
        ("a", Bson::Document(doc(vec![("$oid", Bson::I64(1)), ("$date", Bson::I64(2)), ("x", Bson::Null)]))),
        ("c", Bson::Array(vec![Bson::Boolean(false)])),
    ]));
    assert_eq!(dbg(&decode_ok(y)), dbg(&expected));
}

#[test]
fn oid_with_wrong_value_type_stays_a_document() {
    let got = decode_ok(map(vec![("$oid", Yaml::I64(42))]));
    let expected = Bson::Document(doc(vec![("$oid", Bson::I64(42))]));
    assert_eq!(dbg(&got), dbg(&expected));
}

#[test]
fn oid_with_invalid_text_becomes_a_string() {
    let got = decode_ok(map(vec![("$oid", s("not-an-id"))]));
    assert_eq!(dbg(&got), dbg(&Bson::String("not-an-id".to_string())));
}

#[test]
fn oid_text_is_lowercase_hex() {
    let id = ObjectId { bytes: [0xAB, 0, 1, 2, 3, 4, 5, 6, 7, 8, 9, 0xFF] };
    let y = bson_to_yaml(Bson::ObjectId(id));
    let expected = map(vec![("$oid", s("ab00010203040506070809ff"))]);
    assert_eq!(dbg(&y), dbg(&expected));
    let upper = decode_ok(map(vec![("$oid", s("AB00010203040506070809FF"))]));
    assert_eq!(dbg(&upper), dbg(&Bson::ObjectId(id)));
}

#[test]
fn date_text_and_back() {
    let y = bson_to_yaml(Bson::UtcDatetime(0));
    assert_eq!(dbg(&y), dbg(&map(vec![("$date", s("1970-01-01T00:00:00+00:00"))])));
    let back = decode_ok(map(vec![("$date", s("1970-01-01T00:00:01.5+00:00"))]));
    assert!(matches!(back, Bson::UtcDatetime(1500)));
}

#[test]
fn date_with_invalid_text_becomes_a_string() {
    let got = decode_ok(map(vec![("$date", s("yesterday"))]));
    assert_eq!(dbg(&got), dbg(&Bson::String("yesterday".to_string())));
}

#[test]
fn timestamp_packing_formula() {
    let ts = Timestamp { time: 1, increment: 2 };
    assert_eq!(ts.packed(), (1u64 << 32) | 2);
    let top = Timestamp { time: 0xFFFF_FFFF, increment: 0xFFFF_FFFF };
    assert_eq!(top.packed(), u64::MAX);
    let edge = Timestamp { time: 0xFFFF_FFFF, increment: 0 };
    assert_eq!(edge.packed(), 0xFFFF_FFFF_0000_0000);
    let split = Timestamp::from_packed(0xFFFF_FFFF_0000_0002);
    assert_eq!((split.time, split.increment), (0xFFFF_FFFF, 2));
}

#[test]
fn timestamp_round_trip() {
    for (t, i) in [(1u32, 2u32), (0xFFFF_FFFF, 0), (0xFFFF_FFFF, 0xFFFF_FFFF), (0, 0)] {
        let y = bson_to_yaml(Bson::TimeStamp(Timestamp { time: t, increment: i }));
        let expected = map(vec![("$timestamp", map(vec![("t", Yaml::I64(t as i64)), ("i", Yaml::I64(i as i64))]))]);
        assert_eq!(dbg(&y), dbg(&expected));
        match decode_ok(y) {
            Bson::TimeStamp(ts) => assert_eq!((ts.time, ts.increment), (t, i)),
            other => panic!("not a timestamp: {:?}", other),
        }
    }
}

#[test]
fn timestamp_with_other_keys_stays_a_document() {
    let y = map(vec![("$timestamp", map(vec![("t", Yaml::I64(1)), ("v", Yaml::I64(2))]))]);
    let expected = Bson::Document(doc(vec![("$timestamp", Bson::Document(doc(vec![("t", Bson::I64(1)), ("v", Bson::I64(2))])))]));
    assert_eq!(dbg(&decode_ok(y)), dbg(&expected));
}

#[test]
fn binary_hex_fidelity() {
    let y = bson_to_yaml(Bson::Binary(0, vec![0x00, 0xFF]));
    let expected = map(vec![("$type", Yaml::I64(0)), ("$binary", s("00ff"))]);
    assert_eq!(dbg(&y), dbg(&expected));
    match decode_ok(expected) {
        Bson::Binary(t, bytes) => {
            assert_eq!(t, 0);
            assert_eq!(bytes, vec![0x00, 0xFF]);
        }
        other => panic!("not binary: {:?}", other),
    }
}

#[test]
fn binary_with_bad_hex_stays_a_document() {
    let y = map(vec![("$type", Yaml::I64(0)), ("$binary", s("0g"))]);
    let expected = Bson::Document(doc(vec![("$type", Bson::I64(0)), ("$binary", Bson::String("0g".to_string()))]));
    assert_eq!(dbg(&decode_ok(y)), dbg(&expected));
    let odd = map(vec![("$type", Yaml::I64(0)), ("$binary", s("abc"))]);
    assert!(matches!(decode_ok(odd), Bson::Document(_)));
}

#[test]
fn tag_pairs_in_other_order_stay_documents() {
    let y = map(vec![("$options", s("i")), ("$regex", s("x"))]);
    let expected = Bson::Document(doc(vec![("$options", Bson::String("i".to_string())), ("$regex", Bson::String("x".to_string()))]));
    assert_eq!(dbg(&decode_ok(y)), dbg(&expected));
}

#[test]
fn regex_and_code_tags() {
    let re = decode_ok(map(vec![("$regex", s("a+")), ("$options", s("m"))]));
    assert_eq!(dbg(&re), dbg(&Bson::RegExp("a+".to_string(), "m".to_string())));
    let code = decode_ok(map(vec![("$code", s("h()"))]));
    assert_eq!(dbg(&code), dbg(&Bson::JavaScriptCode("h()".to_string())));
    let scoped = decode_ok(map(vec![("$code", s("h()")), ("$scope", map(vec![("$oid", s("x"))]))]));
    let expected = Bson::JavaScriptCodeWithScope("h()".to_string(), doc(vec![("$oid", Bson::String("x".to_string()))]));
    assert_eq!(dbg(&scoped), dbg(&expected));
}

#[test]
fn export_shape() {
    let y = bson_document_to_yaml(doc(vec![("_id", Bson::I64(1)), ("x", Bson::I64(11))]));
    let expected = map(vec![("_id", Yaml::I64(1)), ("x", Yaml::I64(11))]);
    assert_eq!(dbg(&y), dbg(&expected));
}

#[test]
fn whole_database_shape() {
    let doc_a = doc(vec![("_id", Bson::I64(1)), ("x", Bson::I64(11))]);
    let doc_b = doc(vec![("_id", Bson::I64(2)), ("x", Bson::I64(22))]);
    let y = collections_to_yaml(&vec![("c1".to_string(), vec![doc_a, doc_b])]);
    let expected = map(vec![(
        "c1",
        Yaml::Sequence(vec![
            map(vec![("_id", Yaml::I64(1)), ("x", Yaml::I64(11))]),
            map(vec![("_id", Yaml::I64(2)), ("x", Yaml::I64(22))]),
        ]),
    )]);
    assert_eq!(dbg(&y), dbg(&expected));
}

#[test]
fn malformed_key_is_an_error() {
    let y = Yaml::Mapping(vec![(Yaml::I64(1), s("one")), (s("b"), Yaml::Null), (s("c"), Yaml::Null)]);
    match yaml_to_bson(y) {
        Err(e) => {
            assert_eq!(e.err_type, ErrorType::ConversionError);
            assert_eq!(e.description(), "Unable to convert YAML mapping with non-string keys");
        }
        Ok(b) => panic!("decoded {:?}", b),
    }
    let single = Yaml::Mapping(vec![(Yaml::Bool(true), s("$oid"))]);
    assert!(yaml_to_bson(single).is_err());
    let nested = Yaml::Sequence(vec![Yaml::Mapping(vec![(s("$code"), s("f")), (Yaml::Null, Yaml::Null)])]);
    assert!(yaml_to_bson(nested).is_err());
}

#[test]
fn conversion_error_carries_its_message() {
    let e = Error::coversion_error("boom");
    assert_eq!(e.description(), "boom");
    assert_eq!(e.err_type, ErrorType::ConversionError);
}

#[test]
fn index_collection_inserts_one_at_a_time() {
    assert_eq!(insert_batch_size("system.indexes"), 1);
    assert_eq!(insert_batch_size("people"), 1000);
}

#[test]
fn symbols_are_found_at_any_depth() {
    assert!(value_has_symbol(&Bson::Symbol("s".to_string())));
    assert!(!value_has_symbol(&sample()));
    let deep = Bson::Array(vec![Bson::Null, Bson::Document(doc(vec![("a", Bson::Symbol("x".to_string()))]))]);
    assert!(value_has_symbol(&deep));
    let scoped = doc(vec![("f", Bson::JavaScriptCodeWithScope("c".to_string(), doc(vec![("s", Bson::Symbol("y".to_string()))])))]);
    assert!(document_has_symbol(&scoped));
    assert!(!document_has_symbol(&doc(vec![("a", Bson::I64(1))])));
}

#[test]
fn line_document_keeps_tag_keys_as_fields() {
    let line = map(vec![("$oid", s("x"))]);
    let got = yaml_to_document(&line).unwrap();
    assert_eq!(dbg(&got), dbg(&doc(vec![("$oid", Bson::String("x".to_string()))])));
    let nested = map(vec![("_id", map(vec![("$oid", s("507f1f77bcf86cd799439011"))]))]);
    let got = yaml_to_document(&nested).unwrap();
    let id = ObjectId { bytes: [0x50, 0x7f, 0x1f, 0x77, 0xbc, 0xf8, 0x6c, 0xd7, 0x99, 0x43, 0x90, 0x11] };
    assert_eq!(dbg(&got), dbg(&doc(vec![("_id", Bson::ObjectId(id))])));
    assert!(yaml_to_document(&Yaml::Sequence(vec![])).is_err());
    assert!(yaml_to_document(&Yaml::Mapping(vec![(Yaml::I64(3), Yaml::Null)])).is_err());
}

#[test]
fn whole_database_reads_back() {
    let doc_a = doc(vec![("_id", Bson::I64(1)), ("x", Bson::I64(11))]);
    let doc_b = doc(vec![("_id", Bson::I64(2)), ("x", Bson::I64(22))]);
    let colls = vec![("c1".to_string(), vec![doc_a, doc_b]), ("c2".to_string(), vec![])];
    let y = collections_to_yaml(&colls);
    let back = yaml_to_collections(&y).unwrap();
    assert_eq!(dbg(&back), dbg(&colls));
}

#[test]
fn whole_database_rejects_other_shapes() {
    let not_map = Yaml::Sequence(vec![]);
    assert_eq!(yaml_to_collections(&not_map).unwrap_err().description(), "Invalid top-level JSON object in file");
    let not_seq = map(vec![("c1", Yaml::I64(1))]);
    assert_eq!(yaml_to_collections(&not_seq).unwrap_err().description(), "Invalid JSON array as value of top-level object");
    let not_doc = map(vec![("c1", Yaml::Sequence(vec![Yaml::I64(1)]))]);
    assert_eq!(yaml_to_collections(&not_doc).unwrap_err().description(), "Invalid JSON object in collection array");
    let bad_key = Yaml::Mapping(vec![(Yaml::Null, Yaml::Sequence(vec![]))]);
    assert!(yaml_to_collections(&bad_key).is_err());
}

#[test]
fn timestamp_halves_outside_u32_still_pack() {
    let cases: [(i64, i64, u32, u32); 4] = [
        (-1, 0, 0xFFFF_FFFF, 0),
        (0, -1, 0xFFFF_FFFF, 0xFFFF_FFFF),
        (0x1_0000_0001, 2, 1, 2),
        (3, 0x1_0000_0005, 3 | 1, 5),
    ];
    for (t, i, time, increment) in cases {
        let y = map(vec![("$timestamp", map(vec![("t", Yaml::I64(t)), ("i", Yaml::I64(i))]))]);
        match decode_ok(y) {
            Bson::TimeStamp(ts) => assert_eq!((ts.time, ts.increment), (time, increment)),
            other => panic!("not a timestamp: {:?}", other),
        }
    }
}

#[test]
fn timestamp_with_keys_in_other_order() {
    let y = map(vec![("$timestamp", map(vec![("i", Yaml::I64(9)), ("t", Yaml::I64(8))]))]);
    match decode_ok(y) {
        Bson::TimeStamp(ts) => assert_eq!((ts.time, ts.increment), (8, 9)),
        other => panic!("not a timestamp: {:?}", other),
    }
}

#[test]
fn repeated_key_keeps_first_place_and_last_value() {
    let y = map(vec![("a", Yaml::I64(1)), ("b", Yaml::I64(2)), ("a", Yaml::I64(3))]);
    let expected = Bson::Document(doc(vec![("a", Bson::I64(3)), ("b", Bson::I64(2))]));
    assert_eq!(dbg(&decode_ok(y)), dbg(&expected));
    let line = map(vec![("x", Yaml::Null), ("x", Yaml::Bool(true))]);
    let got = yaml_to_document(&line).unwrap();
    assert_eq!(dbg(&got), dbg(&doc(vec![("x", Bson::Boolean(true))])));
}
