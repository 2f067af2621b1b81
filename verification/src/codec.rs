//! Codecs: turning records into payload bytes and back.
//!
//! A codec promises, through its contract, that whatever it encodes it
//! decodes back unchanged. [`JsonCodec`] is the default: it emits the
//! canonical JSON shape of `crate::json` and its parser is verified to
//! recognise exactly that shape.

use vstd::prelude::*;

use crate::error::Error;
use crate::event::{CandidateEvent, CandidateView, Data, Identifier, PersistentEvent, Tag, Version,
    tag_views, valid_identifier};
use crate::json::{ascii_bytes, byte_chars, field_bytes, fields_bytes, flag_bytes,
    is_text_byte, is_text_char, lemma_fields_bytes_push, lemma_identifier_text,
    lemma_record_round_trip, lemma_scan_text_bytes, lemma_scan_text_fail, parse_field,
    parse_fields, parse_record, parse_text, parse_uint, parse_value, record_bytes,
    record_encodable, scan_digits, scan_text, text_encodable, uint_digits, value_bytes,
    lemma_parse_field_shape, lemma_parse_fields_shape};
use crate::record::{Field, FieldValue, FieldView, Record, ValueView};

verus! {

/// A serialization codec over records.
///
/// `encoding` and `decoding` are the codec's mathematical meaning; the
/// executable methods must realise them exactly, and `lemma_round_trip` obliges
/// every codec to decode its own encodings back unchanged.
pub trait Codec {
    /// The bytes this codec emits for a record, if the record is encodable.
    spec fn encoding(&self, r: Seq<FieldView>) -> Option<Seq<u8>>;

    /// The record this codec reads out of a payload, if the payload is
    /// well-formed.
    spec fn decoding(&self, d: Seq<u8>) -> Option<Seq<FieldView>>;

    /// Decoding inverts encoding: a codec reads its own output back unchanged.
    proof fn lemma_round_trip(&self, r: Seq<FieldView>, d: Seq<u8>)
        requires
            self.encoding(r) == Some(d),
        ensures
            self.decoding(d) == Some(r),
    ;

    /// Encode a record into a payload.
    fn encode_data(&self, r: &Record) -> (res: Result<Data, Error>)
        ensures
            res is Ok <==> self.encoding(r@) is Some,
            res matches Ok(d) ==> Some(d@) == self.encoding(r@),
            res matches Err(e) ==> e == Error::Serialization,
    ;

    /// Decode a payload back into a record.
    fn decode_data(&self, d: &Data) -> (res: Result<Record, Error>)
        ensures
            res is Ok <==> self.decoding(d@) is Some,
            res matches Ok(r) ==> Some(r@) == self.decoding(d@),
            res matches Err(e) ==> e == Error::Deserialization,
    ;
}

/// Encode a typed event's record and assemble the candidate event from the
/// kind's identifier, the instance's tags, and the default schema revision.
pub fn encode<C: Codec>(codec: &C, record: &Record, identifier: Identifier, tags: Vec<Tag>) -> (res:
    Result<CandidateEvent, Error>)
    ensures
        res is Ok <==> codec.encoding(record@) is Some,
        res matches Ok(ev) ==> ev@ == (CandidateView {
            data: codec.encoding(record@)->Some_0,
            identifier: identifier@,
            tags: tag_views(tags@),
            version: 0,
        }),
        res matches Err(e) ==> e == Error::Serialization,
{
    let data = codec.encode_data(record)?;
    Ok(CandidateEvent::new(data, identifier, tags, Version::default()))
}

/// Decode a stored event's payload as a record of the given kind; fails with
/// an identifier mismatch when the event is of another kind.
pub fn decode<C: Codec>(codec: &C, event: &PersistentEvent, kind: &Identifier) -> (res: Result<
    Record,
    Error,
>)
    ensures
        res is Ok <==> event@.identifier == kind@ && codec.decoding(event@.data) is Some,
        res matches Ok(r) ==> Some(r@) == codec.decoding(event@.data),
        res matches Err(e) ==> e == if event@.identifier != kind@ {
            Error::IdentifierMismatch
        } else {
            Error::Deserialization
        },
{
    if !(event.identifier() == kind) {
        return Err(Error::IdentifierMismatch);
    }
    codec.decode_data(event.data())
}

/// The default codec: canonical JSON, no whitespace, no escapes.
#[derive(Debug)]
pub struct JsonCodec;

impl Codec for JsonCodec {
    /// The canonical JSON bytes, for records whose text is plain printable
    /// ASCII.
    open spec fn encoding(&self, r: Seq<FieldView>) -> Option<Seq<u8>> {
        if record_encodable(r) {
            Some(record_bytes(r))
        } else {
            None
        }
    }

    /// The strict parse of the canonical shape.
    open spec fn decoding(&self, d: Seq<u8>) -> Option<Seq<FieldView>> {
        parse_record(d)
    }

    proof fn lemma_round_trip(&self, r: Seq<FieldView>, d: Seq<u8>) {
        lemma_record_round_trip(r);
    }

    fn encode_data(&self, r: &Record) -> (res: Result<Data, Error>) {
        let bytes = match encode_record(r) {
            Ok(b) => b,
            Err(e) => {
                return Err(e);
            },
        };
        match Data::new(bytes) {
            Ok(d) => Ok(d),
            Err(_) => {
                proof {
                    assert(false);
                }
                Err(Error::Serialization)
            },
        }
    }

    fn decode_data(&self, d: &Data) -> (res: Result<Record, Error>) {
        parse_record_exec(d.bytes())
    }
}

/// Whether every character of the text is plain printable ASCII.
fn text_ok(s: &str) -> (ok: bool)
    ensures
        ok == text_encodable(s@),
{
    let len: usize = s.unicode_len();
    let mut i: usize = 0;
    while i < len
        invariant
            i <= len == s@.len(),
            forall|k: int| 0 <= k < i ==> is_text_char(#[trigger] s@[k]),
        decreases len - i,
    {
        let c: char = s.get_char(i);
        if !(' ' <= c && c <= '~') || c == '"' || c == '\\' {
            return false;
        }
        i += 1;
    }
    true
}

/// Append the ASCII bytes of encodable text.
fn push_text(out: &mut Vec<u8>, s: &str)
    requires
        text_encodable(s@),
    ensures
        final(out)@ == old(out)@ + ascii_bytes(s@),
{
    let len: usize = s.unicode_len();
    let mut i: usize = 0;
    while i < len
        invariant
            i <= len == s@.len(),
            text_encodable(s@),
            out@ == old(out)@ + ascii_bytes(s@).take(i as int),
        decreases len - i,
    {
        let c: char = s.get_char(i);
        proof {
            assert(is_text_char(s@[i as int]));
        }
        out.push((c as u32) as u8);
        proof {
            assert(out@ =~= old(out)@ + ascii_bytes(s@).take(i + 1));
        }
        i += 1;
    }
    proof {
        assert(ascii_bytes(s@).take(len as int) =~= ascii_bytes(s@));
    }
}

/// Append the canonical decimal digits of `n`.
fn push_digits(out: &mut Vec<u8>, n: u64)
    ensures
        final(out)@ == old(out)@ + uint_digits(n),
    decreases n,
{
    if n < 10 {
        out.push(48 + n as u8);
        proof {
            assert(out@ =~= old(out)@ + uint_digits(n));
        }
    } else {
        push_digits(out, n / 10);
        out.push(48 + (n % 10) as u8);
        proof {
            assert(out@ =~= old(out)@ + uint_digits(n));
        }
    }
}

/// Whether a field value can be encoded.
fn value_ok(v: &FieldValue) -> (ok: bool)
    ensures
        ok == crate::json::value_encodable(v@),
{
    match v {
        FieldValue::Text(s) => text_ok(s.as_str()),
        FieldValue::Uint(_) => true,
        FieldValue::Flag(_) => true,
    }
}

/// Append one encoded field value.
fn push_value(out: &mut Vec<u8>, v: &FieldValue)
    requires
        crate::json::value_encodable(v@),
    ensures
        final(out)@ == old(out)@ + value_bytes(v@),
{
    match v {
        FieldValue::Text(s) => {
            out.push(34);
            push_text(out, s.as_str());
            out.push(34);
            proof {
                assert(out@ =~= old(out)@ + value_bytes(v@));
            }
        },
        FieldValue::Uint(n) => {
            push_digits(out, *n);
        },
        FieldValue::Flag(b) => {
            if *b {
                out.push(116);
                out.push(114);
                out.push(117);
                out.push(101);
            } else {
                out.push(102);
                out.push(97);
                out.push(108);
                out.push(115);
                out.push(101);
            }
            proof {
                assert(out@ =~= old(out)@ + flag_bytes(*b));
            }
        },
    }
}

/// Append one encoded `"key":value` field.
fn push_field(out: &mut Vec<u8>, f: &Field)
    requires
        crate::json::value_encodable(f@.value),
    ensures
        final(out)@ == old(out)@ + field_bytes(f@),
        valid_identifier(f@.key),
{
    let key = f.key();
    out.push(34);
    proof {
        lemma_identifier_text(f@.key);
    }
    push_text(out, key.as_str());
    out.push(34);
    out.push(58);
    push_value(out, f.value());
    proof {
        assert(out@ =~= old(out)@ + field_bytes(f@));
    }
}

/// Relies on String::from_utf8: bytes below 0x80 are valid UTF-8 and decode
/// to the characters with the same code points.
#[verifier::external_body]
fn ascii_to_string(bytes: Vec<u8>) -> (r: String)
    requires
        forall|k: int| 0 <= k < bytes@.len() ==> bytes@[k] < 128,
    ensures
        r@ == byte_chars(bytes@),
{
    match String::from_utf8(bytes) {
        Ok(s) => s,
        Err(_) => String::new(),
    }
}

/// Scan the text run ending at the next quote, returning it with the index of
/// the closing quote.
fn scan_text_exec(d: &Vec<u8>, i: usize) -> (res: Option<(String, usize)>)
    requires
        i <= d@.len(),
    ensures
        res is Some <==> scan_text(d@, i as int) is Some,
        res matches Some((s, j)) ==> scan_text(d@, i as int) == Some((s@, j as int)),
{
    let mut j: usize = i;
    while j < d.len()
        invariant
            i <= j <= d@.len(),
            forall|k: int| i <= k < j ==> is_text_byte(#[trigger] d@[k]) && d@[k] != 34,
        decreases d@.len() - j,
    {
        let b = d[j];
        if b == 34 {
            proof {
                lemma_scan_text_bytes(d@, i as int, j as int);
            }
            let mut bytes: Vec<u8> = Vec::new();
            let mut k: usize = i;
            while k < j
                invariant
                    i <= k <= j < d@.len(),
                    bytes@ == d@.subrange(i as int, k as int),
                    forall|m: int| i <= m < j ==> is_text_byte(#[trigger] d@[m]),
                decreases j - k,
            {
                bytes.push(d[k]);
                proof {
                    assert(bytes@ =~= d@.subrange(i as int, k + 1));
                }
                k += 1;
            }
            proof {
                assert forall|m: int| 0 <= m < bytes@.len() implies bytes@[m] < 128 by {
                    assert(bytes@[m] == d@[i + m]);
                    assert(is_text_byte(d@[i + m]));
                }
            }
            let s = ascii_to_string(bytes);
            return Some((s, j));
        }
        if !(32 <= b && b <= 126) || b == 92 {
            proof {
                lemma_scan_text_fail(d@, i as int, j as int);
            }
            return None;
        }
        j += 1;
    }
    proof {
        lemma_scan_text_fail(d@, i as int, d@.len() as int);
    }
    None
}

/// Fold the digit run starting at `i`, failing on `u64` overflow.
fn scan_digits_exec(d: &Vec<u8>, i: usize) -> (res: Option<(u64, usize)>)
    requires
        i <= d@.len(),
    ensures
        res is Some <==> scan_digits(d@, i as int, 0) is Some,
        res matches Some((n, j)) ==> scan_digits(d@, i as int, 0) == Some((n, j as int)),
{
    let mut j: usize = i;
    let mut acc: u64 = 0;
    while j < d.len() && 48 <= d[j] && d[j] <= 57
        invariant
            i <= j <= d@.len(),
            scan_digits(d@, i as int, 0) == scan_digits(d@, j as int, acc),
        decreases d@.len() - j,
    {
        let digit: u64 = (d[j] - 48) as u64;
        let stepped = match acc.checked_mul(10) {
            Some(x) => x.checked_add(digit),
            None => None,
        };
        match stepped {
            Some(y) => {
                acc = y;
            },
            None => {
                return None;
            },
        }
        j += 1;
    }
    Some((acc, j))
}

/// Parse the quoted text whose opening quote stands at `i`.
fn parse_text_exec(d: &Vec<u8>, i: usize) -> (res: Option<(String, usize)>)
    ensures
        res is Some <==> parse_text(d@, i as int) is Some,
        res matches Some((s, j)) ==> parse_text(d@, i as int) == Some((s@, j as int)),
{
    if i >= d.len() {
        return None;
    }
    if d[i] != 34 {
        return None;
    }
    proof {
        crate::json::lemma_scan_text_shape(d@, i + 1);
    }
    match scan_text_exec(d, i + 1) {
        Some((s, j)) => Some((s, j + 1)),
        None => None,
    }
}

/// Parse the unsigned integer starting at `i`.
fn parse_uint_exec(d: &Vec<u8>, i: usize) -> (res: Option<(u64, usize)>)
    ensures
        res is Some <==> parse_uint(d@, i as int) is Some,
        res matches Some((n, j)) ==> parse_uint(d@, i as int) == Some((n, j as int)),
{
    if i >= d.len() {
        return None;
    }
    let b = d[i];
    if !(48 <= b && b <= 57) {
        return None;
    }
    if b == 48 && i + 1 < d.len() {
        let b1 = d[i + 1];
        if 48 <= b1 && b1 <= 57 {
            return None;
        }
    }
    scan_digits_exec(d, i)
}

/// Parse the value starting at `i`.
fn parse_value_exec(d: &Vec<u8>, i: usize) -> (res: Option<(FieldValue, usize)>)
    ensures
        res is Some <==> parse_value(d@, i as int) is Some,
        res matches Some((v, j)) ==> parse_value(d@, i as int) == Some((v@, j as int)),
{
    if i >= d.len() {
        return None;
    }
    let b = d[i];
    if b == 34 {
        match parse_text_exec(d, i) {
            Some((s, j)) => Some((FieldValue::Text(s), j)),
            None => None,
        }
    } else if 48 <= b && b <= 57 {
        match parse_uint_exec(d, i) {
            Some((n, j)) => Some((FieldValue::Uint(n), j)),
            None => None,
        }
    } else if b == 116 {
        if d.len() - i >= 4 && d[i + 1] == 114 && d[i + 2] == 117 && d[i + 3] == 101 {
            proof {
                assert(d@.subrange(i as int, i + 4) =~= flag_bytes(true));
            }
            Some((FieldValue::Flag(true), i + 4))
        } else {
            proof {
                if i + 4 <= d@.len() {
                    assert(d@.subrange(i as int, i + 4)[1] == d@[i + 1]);
                    assert(d@.subrange(i as int, i + 4)[2] == d@[i + 2]);
                    assert(d@.subrange(i as int, i + 4)[3] == d@[i + 3]);
                }
            }
            None
        }
    } else if b == 102 {
        if d.len() - i >= 5 && d[i + 1] == 97 && d[i + 2] == 108 && d[i + 3] == 115 && d[i + 4]
            == 101 {
            proof {
                assert(d@.subrange(i as int, i + 5) =~= flag_bytes(false));
            }
            Some((FieldValue::Flag(false), i + 5))
        } else {
            proof {
                if i + 5 <= d@.len() {
                    assert(d@.subrange(i as int, i + 5)[1] == d@[i + 1]);
                    assert(d@.subrange(i as int, i + 5)[2] == d@[i + 2]);
                    assert(d@.subrange(i as int, i + 5)[3] == d@[i + 3]);
                    assert(d@.subrange(i as int, i + 5)[4] == d@[i + 4]);
                }
            }
            None
        }
    } else {
        None
    }
}

/// Parse the `"key":value` field starting at `i`.
fn parse_field_exec(d: &Vec<u8>, i: usize) -> (res: Option<(Field, usize)>)
    ensures
        res is Some <==> parse_field(d@, i as int) is Some,
        res matches Some((f, j)) ==> parse_field(d@, i as int) == Some((f@, j as int)),
{
    let (key_text, j) = match parse_text_exec(d, i) {
        Some(kj) => kj,
        None => {
            return None;
        },
    };
    let key = match Identifier::new(key_text.as_str()) {
        Ok(k) => k,
        Err(_) => {
            return None;
        },
    };
    if j >= d.len() {
        return None;
    }
    if d[j] != 58 {
        return None;
    }
    proof {
        crate::json::lemma_parse_value_shape(d@, j + 1);
    }
    match parse_value_exec(d, j + 1) {
        Some((v, m)) => Some((Field::new(key, v), m)),
        None => None,
    }
}

/// Parse the comma-separated fields starting at `i`.
fn parse_fields_exec(d: &Vec<u8>, i: usize) -> (res: Option<(Vec<Field>, usize)>)
    ensures
        res is Some <==> parse_fields(d@, i as int) is Some,
        res matches Some((fs, j)) ==> parse_fields(d@, i as int) == Some((
            fs@.map_values(|f: Field| f@),
            j as int,
        )),
{
    let mut acc: Vec<Field> = Vec::new();
    let mut cur: usize = i;
    loop
        invariant
            i <= cur,
            cur <= d@.len() || cur == i,
            parse_fields(d@, i as int) == (match parse_fields(d@, cur as int) {
                Some((fs2, m)) => Some((acc@.map_values(|f: Field| f@) + fs2, m)),
                None => None,
            }),
        decreases d@.len() - cur,
    {
        proof {
            lemma_parse_field_shape(d@, cur as int);
            lemma_parse_fields_shape(d@, cur as int);
        }
        let (f, j) = match parse_field_exec(d, cur) {
            Some(fj) => fj,
            None => {
                return None;
            },
        };
        if j < d.len() && d[j] == 44 {
            proof {
                lemma_parse_fields_shape(d@, j + 1);
                let ghost prev = acc@.map_values(|f: Field| f@);
                assert(prev.push(f@) =~= (acc@.push(f)).map_values(|f: Field| f@));
                match parse_fields(d@, j + 1) {
                    Some((fs2, m)) => {
                        assert(parse_fields(d@, cur as int) == Some::<(Seq<FieldView>, int)>((
                            seq![f@] + fs2,
                            m,
                        )));
                        assert(prev + (seq![f@] + fs2) =~= (prev.push(f@)) + fs2);
                    },
                    None => {},
                }
            }
            acc.push(f);
            cur = j + 1;
        } else {
            proof {
                assert(parse_fields(d@, cur as int) == Some::<(Seq<FieldView>, int)>((
                    seq![f@],
                    j as int,
                )));
                let ghost prev = acc@.map_values(|f: Field| f@);
                assert(prev + seq![f@] =~= (acc@.push(f)).map_values(|f: Field| f@));
            }
            acc.push(f);
            return Some((acc, j));
        }
    }
}

/// Parse a whole payload as a record.
fn parse_record_exec(d: &Vec<u8>) -> (res: Result<Record, Error>)
    ensures
        res is Ok <==> parse_record(d@) is Some,
        res matches Ok(r) ==> Some(r@) == parse_record(d@),
        res matches Err(e) ==> e == Error::Deserialization,
{
    if d.len() < 2 {
        return Err(Error::Deserialization);
    }
    if d[0] != 123 {
        return Err(Error::Deserialization);
    }
    if d[d.len() - 1] != 125 {
        return Err(Error::Deserialization);
    }
    if d.len() == 2 {
        let r = Record::new();
        return Ok(r);
    }
    let (fields, j) = match parse_fields_exec(d, 1) {
        Some(fj) => fj,
        None => {
            return Err(Error::Deserialization);
        },
    };
    if j != d.len() - 1 {
        return Err(Error::Deserialization);
    }
    let mut r = Record::new();
    let mut i: usize = 0;
    while i < fields.len()
        invariant
            i <= fields@.len(),
            r@ == fields@.map_values(|f: Field| f@).take(i as int),
        decreases fields@.len() - i,
    {
        let f = fields[i].clone();
        r.push(f);
        proof {
            assert(r@ =~= fields@.map_values(|f: Field| f@).take(i + 1));
        }
        i += 1;
    }
    proof {
        assert(fields@.map_values(|f: Field| f@).take(fields@.len() as int) =~= fields@.map_values(
            |f: Field| f@,
        ));
    }
    Ok(r)
}

/// Encode a whole record to its canonical JSON bytes.
fn encode_record(r: &Record) -> (res: Result<Vec<u8>, Error>)
    ensures
        res is Ok <==> record_encodable(r@),
        res matches Ok(b) ==> b@ == record_bytes(r@),
        res matches Err(e) ==> e == Error::Serialization,
{
    let mut out: Vec<u8> = Vec::new();
    out.push(123);
    let n = r.len();
    let mut i: usize = 0;
    while i < n
        invariant
            i <= n == r@.len(),
            record_encodable(r@.take(i as int)),
            out@ == seq![123u8] + fields_bytes(r@.take(i as int)),
        decreases n - i,
    {
        let f = r.field(i);
        let v = f.value();
        if !value_ok(v) {
            proof {
                assert(f@ == r@[i as int]);
                assert(!crate::json::value_encodable(r@[i as int].value));
                if record_encodable(r@) {
                    assert(valid_identifier(r@[i as int].key));
                    assert(crate::json::value_encodable(r@[i as int].value));
                }
                assert(!record_encodable(r@));
            }
            return Err(Error::Serialization);
        }
        if i > 0 {
            out.push(44);
        }
        push_field(&mut out, f);
        proof {
            assert(r@.take(i + 1) =~= r@.take(i as int).push(r@[i as int]));
            lemma_fields_bytes_push(r@.take(i as int), r@[i as int]);
            assert(out@ =~= seq![123u8] + fields_bytes(r@.take(i + 1)));
            assert(record_encodable(r@.take(i + 1))) by {
                assert forall|k: int| 0 <= k < i + 1 implies valid_identifier(
                    #[trigger] r@.take(i + 1)[k].key,
                ) && crate::json::value_encodable(r@.take(i + 1)[k].value) by {
                    if k < i {
                        assert(r@.take(i as int)[k] == r@.take(i + 1)[k]);
                        assert(valid_identifier(r@.take(i as int)[k].key)
                            && crate::json::value_encodable(r@.take(i as int)[k].value));
                    } else {
                        assert(r@.take(i + 1)[k] == r@[i as int]);
                    }
                }
            }
        }
        i += 1;
    }
    out.push(125);
    proof {
        assert(r@.take(n as int) =~= r@);
        assert(out@ =~= record_bytes(r@));
    }
    Ok(out)
}

} // verus!
