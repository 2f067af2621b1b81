//! The canonical JSON shape of a record, as mathematics.
//!
//! A record encodes to one JSON object: `{"key":value,...}` with the fields in
//! record order, text in plain printable ASCII, unsigned integers without
//! leading zeroes, and flags as `true` / `false`. No whitespace is emitted and
//! none is accepted: the parser recognises exactly the encoder's output, so
//! the format is its own proof of round-tripping.

use vstd::prelude::*;

use crate::event::{valid_identifier, is_identifier_start, is_identifier_char};
use crate::record::{FieldView, ValueView};

verus! {

/// Text a record can carry: printable ASCII without the two JSON
/// metacharacters, so no escaping is ever needed.
pub open spec fn is_text_char(c: char) -> bool {
    &&& ' ' <= c && c <= '~'
    &&& c != '"'
    &&& c != '\\'
}

/// Whether a text value can be encoded.
pub open spec fn text_encodable(s: Seq<char>) -> bool {
    forall|i: int| 0 <= i < s.len() ==> is_text_char(#[trigger] s[i])
}

/// Whether a field value can be encoded.
pub open spec fn value_encodable(v: ValueView) -> bool {
    match v {
        ValueView::Text(s) => text_encodable(s),
        ValueView::Uint(_) => true,
        ValueView::Flag(_) => true,
    }
}

/// Whether a whole record can be encoded. Keys carry their own guarantee:
/// they are valid identifiers by construction.
pub open spec fn record_encodable(r: Seq<FieldView>) -> bool {
    forall|i: int| 0 <= i < r.len() ==> valid_identifier(#[trigger] r[i].key) && value_encodable(
        r[i].value,
    )
}

/// ASCII text as its bytes.
pub open spec fn ascii_bytes(s: Seq<char>) -> Seq<u8> {
    Seq::new(s.len(), |i: int| (s[i] as u32) as u8)
}

/// The decimal digits of `n`, most significant first, without leading zeroes.
pub open spec fn uint_digits(n: u64) -> Seq<u8>
    decreases n,
{
    if n < 10 {
        seq![(48 + n) as u8]
    } else {
        uint_digits(n / 10).push((48 + n % 10) as u8)
    }
}

/// `true` / `false` as bytes.
pub open spec fn flag_bytes(b: bool) -> Seq<u8> {
    if b {
        seq![116u8, 114u8, 117u8, 101u8]
    } else {
        seq![102u8, 97u8, 108u8, 115u8, 101u8]
    }
}

/// One encoded value: quoted text, decimal digits, or a flag literal.
pub open spec fn value_bytes(v: ValueView) -> Seq<u8> {
    match v {
        ValueView::Text(s) => seq![34u8] + ascii_bytes(s) + seq![34u8],
        ValueView::Uint(n) => uint_digits(n),
        ValueView::Flag(b) => flag_bytes(b),
    }
}

/// One encoded field: `"key":value`.
pub open spec fn field_bytes(f: FieldView) -> Seq<u8> {
    seq![34u8] + ascii_bytes(f.key) + seq![34u8, 58u8] + value_bytes(f.value)
}

/// Encoded fields joined by commas.
pub open spec fn fields_bytes(fs: Seq<FieldView>) -> Seq<u8>
    decreases fs.len(),
{
    if fs.len() == 0 {
        Seq::empty()
    } else if fs.len() == 1 {
        field_bytes(fs[0])
    } else {
        field_bytes(fs[0]) + seq![44u8] + fields_bytes(fs.drop_first())
    }
}

/// The whole encoded record: `{` fields `}`.
pub open spec fn record_bytes(fs: Seq<FieldView>) -> Seq<u8> {
    seq![123u8] + fields_bytes(fs) + seq![125u8]
}

/// Appending a field extends the encoding at its tail.
pub proof fn lemma_fields_bytes_push(fs: Seq<FieldView>, f: FieldView)
    ensures
        fields_bytes(fs.push(f)) == if fs.len() == 0 {
            field_bytes(f)
        } else {
            fields_bytes(fs) + seq![44u8] + field_bytes(f)
        },
    decreases fs.len(),
{
    if fs.len() == 0 {
        assert(fs.push(f).len() == 1);
        assert(fs.push(f)[0] == f);
    } else if fs.len() == 1 {
        assert(fs.push(f).drop_first() =~= seq![f]);
        assert(fields_bytes(seq![f]) == field_bytes(f));
        assert(fs.drop_first() =~= Seq::<FieldView>::empty());
    } else {
        assert(fs.push(f).drop_first() =~= fs.drop_first().push(f));
        lemma_fields_bytes_push(fs.drop_first(), f);
        assert(fields_bytes(fs.push(f)) == field_bytes(fs[0]) + seq![44u8] + fields_bytes(
            fs.drop_first().push(f),
        ));
        assert(field_bytes(fs[0]) + seq![44u8] + (fields_bytes(fs.drop_first()) + seq![44u8]
            + field_bytes(f)) =~= (field_bytes(fs[0]) + seq![44u8] + fields_bytes(fs.drop_first()))
            + seq![44u8] + field_bytes(f));
    }
}

/// A decimal digit byte.
pub open spec fn is_digit(b: u8) -> bool {
    48 <= b && b <= 57
}

/// A byte the parser accepts inside quotes.
pub open spec fn is_text_byte(b: u8) -> bool {
    &&& 32 <= b && b <= 126
    &&& b != 34
    &&& b != 92
}

/// Scan text bytes from `i` up to the closing quote, which is not consumed.
pub open spec fn scan_text(d: Seq<u8>, i: int) -> Option<(Seq<char>, int)>
    decreases d.len() - i,
{
    if i >= d.len() {
        None
    } else if d[i] == 34 {
        Some((Seq::empty(), i))
    } else if is_text_byte(d[i]) {
        match scan_text(d, i + 1) {
            Some((s, j)) => Some((seq![d[i] as char] + s, j)),
            None => None,
        }
    } else {
        None
    }
}

/// Fold decimal digits from `i` into `acc`; stops at the first non-digit.
/// Fails only when the value would not fit in a `u64`.
pub open spec fn scan_digits(d: Seq<u8>, i: int, acc: u64) -> Option<(u64, int)>
    decreases d.len() - i,
{
    if i >= d.len() {
        Some((acc, i))
    } else if is_digit(d[i]) {
        if acc * 10 + (d[i] - 48) <= u64::MAX {
            scan_digits(d, i + 1, (acc * 10 + (d[i] - 48)) as u64)
        } else {
            None
        }
    } else {
        Some((acc, i))
    }
}

/// Parse a quoted text starting at the opening quote at `i`; the returned
/// index is just past the closing quote.
pub open spec fn parse_text(d: Seq<u8>, i: int) -> Option<(Seq<char>, int)> {
    if 0 <= i < d.len() && d[i] == 34 {
        match scan_text(d, i + 1) {
            Some((s, j)) => Some((s, j + 1)),
            None => None,
        }
    } else {
        None
    }
}

/// Parse an unsigned integer at `i`: at least one digit, no leading zero.
pub open spec fn parse_uint(d: Seq<u8>, i: int) -> Option<(u64, int)> {
    if i < 0 || i >= d.len() || !is_digit(d[i]) {
        None
    } else if d[i] == 48 && i + 1 < d.len() && is_digit(d[i + 1]) {
        None
    } else {
        scan_digits(d, i, 0)
    }
}

/// Parse one value at `i`: text, integer, or flag literal.
pub open spec fn parse_value(d: Seq<u8>, i: int) -> Option<(ValueView, int)> {
    if i < 0 || i >= d.len() {
        None
    } else if d[i] == 34 {
        match parse_text(d, i) {
            Some((s, j)) => Some((ValueView::Text(s), j)),
            None => None,
        }
    } else if is_digit(d[i]) {
        match parse_uint(d, i) {
            Some((n, j)) => Some((ValueView::Uint(n), j)),
            None => None,
        }
    } else if d[i] == 116 {
        if i + 4 <= d.len() && d.subrange(i, i + 4) == flag_bytes(true) {
            Some((ValueView::Flag(true), i + 4))
        } else {
            None
        }
    } else if d[i] == 102 {
        if i + 5 <= d.len() && d.subrange(i, i + 5) == flag_bytes(false) {
            Some((ValueView::Flag(false), i + 5))
        } else {
            None
        }
    } else {
        None
    }
}

/// Parse one `"key":value` field at `i`; the key must be a valid identifier.
pub open spec fn parse_field(d: Seq<u8>, i: int) -> Option<(FieldView, int)> {
    match parse_text(d, i) {
        Some((k, j)) => if valid_identifier(k) && j < d.len() && d[j] == 58 {
            match parse_value(d, j + 1) {
                Some((v, m)) => Some((FieldView { key: k, value: v }, m)),
                None => None,
            }
        } else {
            None
        },
        None => None,
    }
}

/// Parse one or more comma-separated fields starting at `i`.
pub open spec fn parse_fields(d: Seq<u8>, i: int) -> Option<(Seq<FieldView>, int)>
    decreases d.len() - i,
        via check_parse_fields_decreases
{
    match parse_field(d, i) {
        Some((f, j)) => if j < d.len() && d[j] == 44 {
            match parse_fields(d, j + 1) {
                Some((fs, m)) => Some((seq![f] + fs, m)),
                None => None,
            }
        } else {
            Some((seq![f], j))
        },
        None => None,
    }
}

#[via_fn]
proof fn check_parse_fields_decreases(d: Seq<u8>, i: int) {
    lemma_parse_field_shape(d, i);
}

/// Parse a whole record: `{}` or `{` fields `}`, consuming every byte.
pub open spec fn parse_record(d: Seq<u8>) -> Option<Seq<FieldView>> {
    if d.len() < 2 || d[0] != 123 || d[d.len() - 1] != 125 {
        None
    } else if d.len() == 2 {
        Some(Seq::empty())
    } else {
        match parse_fields(d, 1) {
            Some((fs, j)) => if j == d.len() - 1 {
                Some(fs)
            } else {
                None
            },
            None => None,
        }
    }
}

/// A successful text scan stops on the closing quote, within bounds.
pub proof fn lemma_scan_text_shape(d: Seq<u8>, i: int)
    ensures
        scan_text(d, i) matches Some((s, j)) ==> i <= j < d.len() && d[j] == 34 && s.len() == j - i,
    decreases d.len() - i,
{
    if i >= d.len() {
    } else if d[i] == 34 {
    } else if is_text_byte(d[i]) {
        lemma_scan_text_shape(d, i + 1);
    }
}

/// A successful digit scan stops on the first non-digit, within bounds.
pub proof fn lemma_scan_digits_shape(d: Seq<u8>, i: int, acc: u64)
    ensures
        0 <= i <= d.len() && scan_digits(d, i, acc) is Some ==> ({
            let j = scan_digits(d, i, acc)->Some_0.1;
            &&& i <= j <= d.len()
            &&& j < d.len() ==> !is_digit(d[j])
            &&& i < d.len() && is_digit(d[i]) ==> j > i
        }),
    decreases d.len() - i,
{
    if 0 <= i < d.len() {
        if is_digit(d[i]) {
            if acc * 10 + (d[i] - 48) <= u64::MAX {
                lemma_scan_digits_shape(d, i + 1, (acc * 10 + (d[i] - 48)) as u64);
            }
        }
    }
}

/// A successful value parse makes progress and stays within bounds.
pub proof fn lemma_parse_value_shape(d: Seq<u8>, i: int)
    ensures
        parse_value(d, i) matches Some((v, j)) ==> i < j <= d.len(),
{
    lemma_scan_text_shape(d, i + 1);
    lemma_scan_digits_shape(d, i, 0);
}

/// A successful field parse makes progress and stays within bounds.
pub proof fn lemma_parse_field_shape(d: Seq<u8>, i: int)
    ensures
        parse_field(d, i) matches Some((f, j)) ==> i < j <= d.len(),
{
    lemma_scan_text_shape(d, i + 1);
    match parse_text(d, i) {
        Some((k, j)) => {
            lemma_parse_value_shape(d, j + 1);
        },
        None => {},
    }
}

/// Encodable text survives the trip through bytes: each byte is a text byte
/// and casts back to the original character.
pub proof fn lemma_ascii_bytes_text(s: Seq<char>)
    requires
        text_encodable(s),
    ensures
        forall|k: int| 0 <= k < s.len() ==> is_text_byte(#[trigger] ascii_bytes(s)[k]),
        forall|k: int| 0 <= k < s.len() ==> (#[trigger] ascii_bytes(s)[k]) as char == s[k],
{
    assert forall|k: int| 0 <= k < s.len() implies is_text_byte(#[trigger] ascii_bytes(s)[k]) && (
    ascii_bytes(s)[k]) as char == s[k] by {
        assert(is_text_char(s[k]));
    }
}

/// Identifiers are made of text characters, so keys never need escaping.
pub proof fn lemma_identifier_text(k: Seq<char>)
    requires
        valid_identifier(k),
    ensures
        text_encodable(k),
{
    assert forall|i: int| 0 <= i < k.len() implies is_text_char(#[trigger] k[i]) by {
        if i == 0 {
            assert(is_identifier_start(k[0]));
        } else {
            assert(is_identifier_char(k[i]));
        }
    }
}

/// Scanning a region of encodable text bounded by a quote yields exactly that
/// text, stopping on the quote.
pub proof fn lemma_scan_text_canon(d: Seq<u8>, i: int, s: Seq<char>)
    requires
        text_encodable(s),
        0 <= i,
        i + s.len() < d.len(),
        d.subrange(i, i + s.len()) == ascii_bytes(s),
        d[i + s.len()] == 34,
    ensures
        scan_text(d, i) == Some((s, i + s.len())),
    decreases s.len(),
{
    lemma_ascii_bytes_text(s);
    if s.len() == 0 {
        assert(s =~= Seq::<char>::empty());
    } else {
        assert(d[i] == ascii_bytes(s)[0]) by {
            assert(d.subrange(i, i + s.len())[0] == d[i]);
        }
        assert(is_text_byte(d[i]));
        let rest = s.drop_first();
        assert(text_encodable(rest)) by {
            assert(forall|k: int| 0 <= k < rest.len() ==> rest[k] == s[k + 1]);
        }
        assert(d.subrange(i + 1, i + 1 + rest.len()) =~= ascii_bytes(rest)) by {
            assert forall|k: int| 0 <= k < rest.len() implies d.subrange(i + 1, i + 1 + rest.len())[k]
                == ascii_bytes(rest)[k] by {
                assert(d.subrange(i, i + s.len())[k + 1] == d[i + 1 + k]);
                assert(ascii_bytes(s)[k + 1] == (s[k + 1] as u32) as u8);
            }
        }
        lemma_scan_text_canon(d, i + 1, rest);
        assert(seq![d[i] as char] + rest =~= s);
    }
}

/// Ten to the `k`.
pub open spec fn pow10(k: nat) -> nat
    decreases k,
{
    if k == 0 {
        1nat
    } else {
        10 * pow10((k - 1) as nat)
    }
}

/// Every byte of a canonical digit string is a digit, and the leading digit is
/// zero only for the number zero itself.
pub proof fn lemma_uint_digits_form(n: u64)
    ensures
        uint_digits(n).len() >= 1,
        forall|k: int| 0 <= k < uint_digits(n).len() ==> is_digit(#[trigger] uint_digits(n)[k]),
        uint_digits(n)[0] == 48 <==> n == 0,
        n < pow10(uint_digits(n).len() as nat),
    decreases n,
{
    if n < 10 {
        assert(uint_digits(n) == seq![(48 + n) as u8]);
        assert(pow10(1) == 10 * pow10(0));
        assert(pow10(0) == 1);
    } else {
        lemma_uint_digits_form(n / 10);
        let prev = uint_digits(n / 10);
        assert(uint_digits(n) == prev.push((48 + n % 10) as u8));
        assert(uint_digits(n)[0] == prev[0]);
        assert(n / 10 > 0);
        assert(n < pow10(uint_digits(n).len() as nat)) by {
            assert(n / 10 < pow10(prev.len() as nat));
            assert(uint_digits(n).len() == prev.len() + 1);
            assert(pow10((prev.len() + 1) as nat) == 10 * pow10(prev.len() as nat));
            assert(n / 10 + 1 <= pow10(prev.len() as nat));
            assert(n < 10 * (n / 10 + 1)) by {
                assert(n == 10 * (n / 10) + n % 10);
            }
            assert(10 * (n / 10 + 1) <= 10 * pow10(prev.len() as nat)) by (nonlinear_arith)
                requires
                    n / 10 + 1 <= pow10(prev.len() as nat),
            ;
        }
    }
}

/// Scanning the canonical digits of `n` folds them onto `acc` exactly, moving
/// the cursor past the digits.
pub proof fn lemma_scan_digits_chunk(d: Seq<u8>, i: int, acc: u64, n: u64)
    requires
        0 <= i,
        i + uint_digits(n).len() <= d.len(),
        d.subrange(i, i + uint_digits(n).len()) == uint_digits(n),
        acc * pow10(uint_digits(n).len() as nat) + n <= u64::MAX,
    ensures
        scan_digits(d, i, acc) == scan_digits(
            d,
            i + uint_digits(n).len(),
            (acc * pow10(uint_digits(n).len() as nat) + n) as u64,
        ),
    decreases n,
{
    let ds = uint_digits(n);
    if n < 10 {
        assert(ds == seq![(48 + n) as u8]);
        assert(ds[0] == (48 + n) as u8);
        assert(d[i] == ds[0]) by {
            assert(d.subrange(i, i + 1)[0] == d[i]);
        }
        assert(d[i] == 48 + n);
        assert(is_digit(d[i]));
        assert(pow10(1) == 10 * pow10(0));
        assert(pow10(0) == 1);
        assert(acc * 10 + n <= u64::MAX);
        assert(scan_digits(d, i, acc) == scan_digits(d, i + 1, (acc * 10 + n) as u64));
    } else {
        let prev = uint_digits(n / 10);
        let l1 = prev.len();
        assert(ds == prev.push((48 + n % 10) as u8));
        assert(pow10((l1 + 1) as nat) == 10 * pow10(l1 as nat));
        let big = acc * pow10((l1 + 1) as nat) + n;
        let mid = acc * pow10(l1 as nat) + n / 10;
        assert(big == mid * 10 + n % 10) by (nonlinear_arith)
            requires
                big == acc * (10 * pow10(l1 as nat)) + n,
                mid == acc * pow10(l1 as nat) + n / 10,
                n == 10 * (n / 10) + n % 10,
        ;
        assert(mid <= big) by {
            assert(mid * 10 <= mid * 10 + n % 10);
            assert(mid <= mid * 10) by (nonlinear_arith)
                requires
                    mid >= 0,
            ;
        }
        assert(d.subrange(i, i + l1) =~= prev) by {
            assert forall|k: int| 0 <= k < l1 implies d.subrange(i, i + l1)[k] == prev[k] by {
                assert(d.subrange(i, i + ds.len())[k] == d[i + k]);
                assert(ds[k] == prev[k]);
            }
        }
        lemma_scan_digits_chunk(d, i, acc, n / 10);
        assert(scan_digits(d, i, acc) == scan_digits(d, i + l1, mid as u64));
        assert(d[i + l1] == ds[l1 as int]) by {
            assert(d.subrange(i, i + ds.len())[l1 as int] == d[i + l1]);
        }
        assert(d[i + l1] == 48 + n % 10);
        assert(is_digit(d[i + l1]));
        assert((mid as u64) * 10 + (d[i + l1] - 48) == big);
        assert(scan_digits(d, i + l1, mid as u64) == scan_digits(d, i + l1 + 1, big as u64));
    }
}

/// Parsing at the canonical digits of `n`, bounded by a non-digit or the end
/// of input, yields exactly `n`.
pub proof fn lemma_parse_uint_canon(d: Seq<u8>, i: int, n: u64)
    requires
        0 <= i,
        i + uint_digits(n).len() <= d.len(),
        d.subrange(i, i + uint_digits(n).len()) == uint_digits(n),
        i + uint_digits(n).len() == d.len() || !is_digit(d[i + uint_digits(n).len()]),
    ensures
        parse_uint(d, i) == Some((n, i + uint_digits(n).len())),
{
    let ds = uint_digits(n);
    lemma_uint_digits_form(n);
    assert(d[i] == ds[0]) by {
        assert(d.subrange(i, i + ds.len())[0] == d[i]);
    }
    assert(is_digit(d[i]));
    if n == 0 {
        assert(ds.len() == 1);
        assert(d[i] == 48);
        assert(!(i + 1 < d.len() && is_digit(d[i + 1])));
        assert(scan_digits(d, i, 0) == scan_digits(d, i + 1, 0));
    } else {
        assert(d[i] != 48);
        assert(0 * pow10(ds.len() as nat) + n <= u64::MAX);
        lemma_scan_digits_chunk(d, i, 0, n);
    }
}

/// Parsing at the canonical bytes of an encodable value, bounded by a comma,
/// a closing brace or the end of input, yields exactly that value.
pub proof fn lemma_parse_value_canon(d: Seq<u8>, i: int, v: ValueView)
    requires
        value_encodable(v),
        0 <= i,
        i + value_bytes(v).len() <= d.len(),
        d.subrange(i, i + value_bytes(v).len()) == value_bytes(v),
        i + value_bytes(v).len() == d.len() || d[i + value_bytes(v).len()] == 44 || d[i
            + value_bytes(v).len()] == 125,
    ensures
        parse_value(d, i) == Some((v, i + value_bytes(v).len())),
{
    let vb = value_bytes(v);
    let vl = vb.len() as int;
    assert forall|k: int| 0 <= k < vl implies d[i + k] == vb[k] by {
        assert(d.subrange(i, i + vl)[k] == d[i + k]);
    }
    match v {
        ValueView::Text(s) => {
            assert(vb[0] == 34);
            assert(d[i] == 34);
            assert(d.subrange(i + 1, i + 1 + s.len()) =~= ascii_bytes(s)) by {
                assert forall|k: int| 0 <= k < s.len() implies d.subrange(
                    i + 1,
                    i + 1 + s.len(),
                )[k] == ascii_bytes(s)[k] by {
                    assert(vb[1 + k] == ascii_bytes(s)[k]);
                    assert(d[i + (1 + k)] == vb[1 + k]);
                }
            }
            assert(d[i + 1 + s.len()] == 34) by {
                assert(vb[1 + s.len() as int] == 34);
            }
            lemma_scan_text_canon(d, i + 1, s);
        },
        ValueView::Uint(n) => {
            lemma_uint_digits_form(n);
            assert(d[i] == vb[0]);
            assert(is_digit(d[i]));
            assert(d[i] != 34);
            assert(d.subrange(i, i + vl) == uint_digits(n));
            lemma_parse_uint_canon(d, i, n);
        },
        ValueView::Flag(b) => {
            assert(d[i] == vb[0]);
            if b {
                assert(d[i] == 116);
                assert(d.subrange(i, i + 4) == flag_bytes(true));
            } else {
                assert(d[i] == 102);
                assert(d.subrange(i, i + 5) == flag_bytes(false));
            }
        },
    }
}

/// Parsing at the canonical bytes of an encodable field, bounded by a comma,
/// a closing brace or the end of input, yields exactly that field.
pub proof fn lemma_parse_field_canon(d: Seq<u8>, i: int, f: FieldView)
    requires
        valid_identifier(f.key),
        value_encodable(f.value),
        0 <= i,
        i + field_bytes(f).len() <= d.len(),
        d.subrange(i, i + field_bytes(f).len()) == field_bytes(f),
        i + field_bytes(f).len() == d.len() || d[i + field_bytes(f).len()] == 44 || d[i
            + field_bytes(f).len()] == 125,
    ensures
        parse_field(d, i) == Some((f, i + field_bytes(f).len())),
{
    let fb = field_bytes(f);
    let fl = fb.len() as int;
    let kl = f.key.len() as int;
    let vb = value_bytes(f.value);
    assert forall|k: int| 0 <= k < fl implies d[i + k] == fb[k] by {
        assert(d.subrange(i, i + fl)[k] == d[i + k]);
    }
    assert(fb[0] == 34);
    assert(d[i] == 34);
    lemma_identifier_text(f.key);
    assert(d.subrange(i + 1, i + 1 + kl) =~= ascii_bytes(f.key)) by {
        assert forall|k: int| 0 <= k < kl implies d.subrange(i + 1, i + 1 + kl)[k] == ascii_bytes(
            f.key,
        )[k] by {
            assert(fb[1 + k] == ascii_bytes(f.key)[k]);
            assert(d[i + (1 + k)] == fb[1 + k]);
        }
    }
    assert(d[i + 1 + kl] == 34) by {
        assert(fb[1 + kl] == 34);
    }
    lemma_scan_text_canon(d, i + 1, f.key);
    assert(parse_text(d, i) == Some((f.key, i + kl + 2)));
    assert(d[i + kl + 2] == 58) by {
        assert(fb[kl + 2] == 58);
    }
    assert(d.subrange(i + kl + 3, i + kl + 3 + vb.len()) =~= vb) by {
        assert forall|k: int| 0 <= k < vb.len() implies d.subrange(
            i + kl + 3,
            i + kl + 3 + vb.len(),
        )[k] == vb[k] by {
            assert(fb[kl + 3 + k] == vb[k]);
            assert(d[i + (kl + 3 + k)] == fb[kl + 3 + k]);
        }
    }
    assert(i + kl + 3 + vb.len() == i + fl);
    lemma_parse_value_canon(d, i + kl + 3, f.value);
}

/// Parsing at the canonical bytes of a non-empty encodable field list, bounded
/// by the record's closing brace, yields exactly those fields.
pub proof fn lemma_parse_fields_canon(d: Seq<u8>, i: int, fs: Seq<FieldView>)
    requires
        fs.len() >= 1,
        record_encodable(fs),
        0 <= i,
        i + fields_bytes(fs).len() < d.len(),
        d.subrange(i, i + fields_bytes(fs).len()) == fields_bytes(fs),
        d[i + fields_bytes(fs).len()] == 125,
    ensures
        parse_fields(d, i) == Some((fs, i + fields_bytes(fs).len())),
    decreases fs.len(),
{
    let fsb = fields_bytes(fs);
    let fsl = fsb.len() as int;
    let f0b = field_bytes(fs[0]);
    let f0l = f0b.len() as int;
    assert(valid_identifier(fs[0].key) && value_encodable(fs[0].value));
    assert forall|k: int| 0 <= k < fsl implies d[i + k] == fsb[k] by {
        assert(d.subrange(i, i + fsl)[k] == d[i + k]);
    }
    if fs.len() == 1 {
        assert(fsb == f0b);
        lemma_parse_field_canon(d, i, fs[0]);
        assert(d[i + f0l] == 125);
        assert(seq![fs[0]] =~= fs);
    } else {
        let rest = fs.drop_first();
        let rb = fields_bytes(rest);
        assert(fsb == f0b + seq![44u8] + rb);
        assert(d.subrange(i, i + f0l) =~= f0b) by {
            assert forall|k: int| 0 <= k < f0l implies d.subrange(i, i + f0l)[k] == f0b[k] by {
                assert(fsb[k] == f0b[k]);
            }
        }
        assert(d[i + f0l] == 44) by {
            assert(fsb[f0l] == 44);
        }
        lemma_parse_field_canon(d, i, fs[0]);
        assert(record_encodable(rest)) by {
            assert(forall|k: int| 0 <= k < rest.len() ==> #[trigger] rest[k] == fs[k + 1]);
        }
        assert(d.subrange(i + f0l + 1, i + f0l + 1 + rb.len()) =~= rb) by {
            assert forall|k: int| 0 <= k < rb.len() implies d.subrange(
                i + f0l + 1,
                i + f0l + 1 + rb.len(),
            )[k] == rb[k] by {
                assert(fsb[f0l + 1 + k] == rb[k]);
                assert(d[i + (f0l + 1 + k)] == fsb[f0l + 1 + k]);
            }
        }
        assert(i + f0l + 1 + rb.len() == i + fsl);
        lemma_parse_fields_canon(d, i + f0l + 1, rest);
        assert(seq![fs[0]] + rest =~= fs);
    }
}

/// The parser recognises exactly what the encoder emits: parsing the
/// canonical bytes of any encodable record yields that record back.
pub proof fn lemma_record_round_trip(fs: Seq<FieldView>)
    requires
        record_encodable(fs),
    ensures
        parse_record(record_bytes(fs)) == Some(fs),
{
    let d = record_bytes(fs);
    let fsb = fields_bytes(fs);
    assert(d.len() == fsb.len() + 2);
    assert(d[0] == 123);
    assert(d[d.len() - 1] == 125) by {
        assert(d == seq![123u8] + fsb + seq![125u8]);
    }
    if fs.len() == 0 {
        assert(fsb == Seq::<u8>::empty());
        assert(d.len() == 2);
        assert(Seq::<FieldView>::empty() =~= fs);
    } else {
        assert(fsb.len() >= 1) by {
            assert(field_bytes(fs[0])[0] == 34);
            if fs.len() == 1 {
                assert(fsb == field_bytes(fs[0]));
            }
        }
        assert(d.len() > 2);
        assert(d.subrange(1, 1 + fsb.len() as int) =~= fsb) by {
            assert forall|k: int| 0 <= k < fsb.len() implies d.subrange(1, 1 + fsb.len() as int)[k]
                == fsb[k] by {
                assert(d[1 + k] == fsb[k]);
            }
        }
        lemma_parse_fields_canon(d, 1, fs);
    }
}

/// The characters of a run of bytes.
pub open spec fn byte_chars(bs: Seq<u8>) -> Seq<char> {
    Seq::new(bs.len(), |k: int| bs[k] as char)
}

/// A scan over a region of text bytes closed by a quote yields the region's
/// characters and stops on the quote.
pub proof fn lemma_scan_text_bytes(d: Seq<u8>, i: int, j: int)
    requires
        0 <= i <= j < d.len(),
        forall|k: int| i <= k < j ==> is_text_byte(#[trigger] d[k]),
        d[j] == 34,
    ensures
        scan_text(d, i) == Some((byte_chars(d.subrange(i, j)), j)),
    decreases j - i,
{
    if i == j {
        assert(byte_chars(d.subrange(i, j)) =~= Seq::<char>::empty());
    } else {
        assert(is_text_byte(d[i]));
        assert(d[i] != 34);
        lemma_scan_text_bytes(d, i + 1, j);
        assert(seq![d[i] as char] + byte_chars(d.subrange(i + 1, j)) =~= byte_chars(
            d.subrange(i, j),
        )) by {
            assert(forall|k: int| 0 <= k < j - i - 1 ==> #[trigger] d.subrange(i + 1, j)[k] == d[i
                + 1 + k]);
            assert(forall|k: int| 0 <= k < j - i ==> #[trigger] d.subrange(i, j)[k] == d[i + k]);
        }
    }
}

/// A scan over a quote-free region that ends at a non-text byte, or runs off
/// the end of the input, fails.
pub proof fn lemma_scan_text_fail(d: Seq<u8>, i: int, m: int)
    requires
        0 <= i <= m <= d.len(),
        forall|k: int| i <= k < m ==> is_text_byte(#[trigger] d[k]) && d[k] != 34,
        m == d.len() || (d[m] != 34 && !is_text_byte(d[m])),
    ensures
        scan_text(d, i) is None,
    decreases m - i,
{
    if i < m {
        lemma_scan_text_fail(d, i + 1, m);
    }
}

/// A successful fields parse makes progress and stays within bounds.
pub proof fn lemma_parse_fields_shape(d: Seq<u8>, i: int)
    ensures
        parse_fields(d, i) matches Some((fs, j)) ==> i < j <= d.len() && fs.len() > 0,
    decreases d.len() - i,
{
    lemma_parse_field_shape(d, i);
    match parse_field(d, i) {
        Some((f, j)) => {
            if j < d.len() && d[j] == 44 {
                lemma_parse_fields_shape(d, j + 1);
            }
        },
        None => {},
    }
}

} // verus!
