//! The JSON codec: canonical bytes out, the same record back in.

use eventric_model::codec::{decode, encode, Codec, JsonCodec};
use eventric_model::error::Error;
use eventric_model::event::{Data, Identifier, Position, Tag, Timestamp};
use eventric_model::record::{Field, FieldValue, Record};

fn field(key: &str, value: FieldValue) -> Field {
    Field::new(Identifier::new(key).unwrap(), value)
}

fn course_record() -> Record {
    let mut r = Record::new();
    r.push(field("id", FieldValue::Text(String::from("cs-101"))));
    r.push(field("title", FieldValue::Text(String::from("Intro"))));
    r.push(field("capacity", FieldValue::Uint(30)));
    r
}

fn assert_same_record(a: &Record, b: &Record) {
    assert_eq!(a.len(), b.len());
    for i in 0..a.len() {
        assert_eq!(a.field(i).key().as_str(), b.field(i).key().as_str());
        match (a.field(i).value(), b.field(i).value()) {
            (FieldValue::Text(x), FieldValue::Text(y)) => assert_eq!(x, y),
            (FieldValue::Uint(x), FieldValue::Uint(y)) => assert_eq!(x, y),
            (FieldValue::Flag(x), FieldValue::Flag(y)) => assert_eq!(x, y),
            _ => panic!("field {} changed its shape", i),
        }
    }
}

#[test]
fn encode_emits_canonical_json() {
    let codec = JsonCodec;
    let data = codec.encode_data(&course_record()).unwrap();
    assert_eq!(
        data.bytes().as_slice(),
        br#"{"id":"cs-101","title":"Intro","capacity":30}"#
    );
}

#[test]
fn encode_handles_every_scalar_shape() {
    let codec = JsonCodec;
    let mut r = Record::new();
    r.push(field("ok", FieldValue::Flag(true)));
    r.push(field("off", FieldValue::Flag(false)));
    r.push(field("zero", FieldValue::Uint(0)));
    r.push(field("big", FieldValue::Uint(u64::MAX)));
    r.push(field("note", FieldValue::Text(String::new())));
    let data = codec.encode_data(&r).unwrap();
    assert_eq!(
        data.bytes().as_slice(),
        br#"{"ok":true,"off":false,"zero":0,"big":18446744073709551615,"note":""}"#
    );
}

#[test]
fn empty_record_encodes_to_empty_object() {
    let codec = JsonCodec;
    let data = codec.encode_data(&Record::new()).unwrap();
    assert_eq!(data.bytes().as_slice(), b"{}");
    let back = codec.decode_data(&data).unwrap();
    assert_eq!(back.len(), 0);
}

#[test]
fn round_trip_returns_the_same_record() {
    let codec = JsonCodec;
    let original = course_record();
    let data = codec.encode_data(&original).unwrap();
    let back = codec.decode_data(&data).unwrap();
    assert_same_record(&original, &back);
}

#[test]
fn round_trip_keeps_duplicate_keys_and_extremes() {
    let codec = JsonCodec;
    let mut r = Record::new();
    r.push(field("k", FieldValue::Uint(1)));
    r.push(field("k", FieldValue::Uint(2)));
    r.push(field("n", FieldValue::Uint(u64::MAX)));
    r.push(field("t", FieldValue::Text(String::from(" ~!#$%&'()*+,-./:;<=>?@[]^_`"))));
    let data = codec.encode_data(&r).unwrap();
    let back = codec.decode_data(&data).unwrap();
    assert_same_record(&r, &back);
}

#[test]
fn unencodable_text_is_a_serialization_error() {
    let codec = JsonCodec;
    let mut r = Record::new();
    r.push(field("note", FieldValue::Text(String::from("say \"hi\""))));
    assert_eq!(codec.encode_data(&r).map(|_| ()), Err(Error::Serialization));
    let mut r = Record::new();
    r.push(field("note", FieldValue::Text(String::from("back\\slash"))));
    assert_eq!(codec.encode_data(&r).map(|_| ()), Err(Error::Serialization));
    let mut r = Record::new();
    r.push(field("note", FieldValue::Text(String::from("tab\there"))));
    assert_eq!(codec.encode_data(&r).map(|_| ()), Err(Error::Serialization));
}

#[test]
fn malformed_payloads_are_deserialization_errors() {
    let codec = JsonCodec;
    let cases: Vec<&[u8]> = vec![
        b"{",
        b"[]",
        b"{}x",
        br#"{"id":}"#,
        br#"{"id" : 1}"#,
        br#"{"id":01}"#,
        br#"{"9id":1}"#,
        br#"{"id":1,}"#,
        br#"{"id":18446744073709551616}"#,
        br#"{"id":tru}"#,
    ];
    for bytes in cases {
        let data = Data::new(bytes.to_vec()).unwrap();
        assert_eq!(
            codec.decode_data(&data).map(|_| ()),
            Err(Error::Deserialization),
            "payload {:?} should be rejected",
            String::from_utf8_lossy(bytes)
        );
    }
}

#[test]
fn typed_decode_checks_the_kind_first() {
    let codec = JsonCodec;
    let kind = Identifier::new("course_registered").unwrap();
    let other = Identifier::new("course_defined").unwrap();
    let tags = vec![Tag::new("course", "cs-101").unwrap()];
    let candidate = encode(&codec, &course_record(), kind.clone(), tags).unwrap();
    assert_eq!(candidate.version().value, 0);
    let stored = candidate.into_persistent(Position { value: 0 }, Timestamp { value: 0 });
    assert_eq!(
        decode(&codec, &stored, &other).map(|_| ()),
        Err(Error::IdentifierMismatch)
    );
    let back = decode(&codec, &stored, &kind).unwrap();
    assert_same_record(&course_record(), &back);
}
