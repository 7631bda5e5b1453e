//! The structured-text codec: the project's human-readable wire format.
//!
//! A batch of records is rendered as an array of objects; each object holds
//! `"sequence"` and `"timestamp"` first and then the payload fields
//! flattened, in document order.  The `stream` name is never on the wire.
//! The format restricts keys and string values to printable ASCII without
//! quotes or backslashes, so no escaping is ever needed and every document
//! has exactly one rendering.

use vstd::prelude::*;

use crate::base::{
    fields_model, records_model, value_model, FieldValue, Payload, RecordModel, ValueModel,
};
use crate::decimal::{append_dec_bytes_u64, dec_bytes, digit_byte};
use crate::serialization::Error;

verus! {

/// ASCII characters map one to one onto their bytes.
pub open spec fn chars_to_bytes(s: Seq<char>) -> Seq<u8> {
    s.map(|i: int, c: char| c as u8)
}

/// A character that can stand in a key or string value without escaping:
/// printable ASCII except the quote and the backslash.
pub open spec fn json_safe_char(c: char) -> bool {
    ' ' <= c && c <= '~' && c != '"' && c != '\\'
}

pub open spec fn json_safe_str(s: Seq<char>) -> bool {
    forall|i: int| 0 <= i < s.len() ==> json_safe_char(#[trigger] s[i])
}

/// A payload key: safe to render, and not one of the two fixed field names.
pub open spec fn valid_key(k: Seq<char>) -> bool {
    &&& json_safe_str(k)
    &&& k != "sequence"@
    &&& k != "timestamp"@
}

/// A representable payload leaf.  A nonnegative integer is always carried as
/// `U64`: the wire form cannot tell a nonnegative signed value apart from an
/// unsigned one, so the signed variant is reserved for negatives.
pub open spec fn valid_value(v: ValueModel) -> bool {
    match v {
        ValueModel::Str(s) => json_safe_str(s),
        ValueModel::I64(n) => n < 0,
        _ => true,
    }
}

/// A representable document: renderable keys and values, no duplicate keys.
pub open spec fn valid_fields(fs: Seq<(Seq<char>, ValueModel)>) -> bool {
    &&& forall|i: int|
        0 <= i < fs.len() ==> valid_key(#[trigger] fs[i].0) && valid_value(fs[i].1)
    &&& forall|i: int, j: int| 0 <= i < j < fs.len() ==> fs[i].0 != fs[j].0
}

pub open spec fn valid_record(r: RecordModel) -> bool {
    valid_fields(r.fields)
}

pub open spec fn valid_records(rs: Seq<RecordModel>) -> bool {
    forall|i: int| 0 <= i < rs.len() ==> valid_record(#[trigger] rs[i])
}

/// The rendering of a signed integer: a minus sign for negatives, then the
/// decimal digits of the magnitude.
pub open spec fn json_of_i64(n: i64) -> Seq<u8> {
    if n >= 0 {
        dec_bytes(n as nat)
    } else {
        seq![45u8] + dec_bytes((-(n as int)) as nat)
    }
}

/// The rendering of one payload leaf.
pub open spec fn json_of_value(v: ValueModel) -> Seq<u8> {
    match v {
        ValueModel::U64(n) => dec_bytes(n as nat),
        ValueModel::I64(n) => json_of_i64(n),
        ValueModel::Bool(b) => if b {
            seq![116u8, 114u8, 117u8, 101u8]
        } else {
            seq![102u8, 97u8, 108u8, 115u8, 101u8]
        },
        ValueModel::Str(s) => seq![34u8] + chars_to_bytes(s) + seq![34u8],
    }
}

/// The rendering of one payload field: a comma, the quoted key, a colon and
/// the value.
pub open spec fn json_of_field(k: Seq<char>, v: ValueModel) -> Seq<u8> {
    seq![44u8, 34u8] + chars_to_bytes(k) + seq![34u8, 58u8] + json_of_value(v)
}

pub open spec fn json_of_fields(fs: Seq<(Seq<char>, ValueModel)>) -> Seq<u8>
    decreases fs.len(),
{
    if fs.len() == 0 {
        Seq::<u8>::empty()
    } else {
        json_of_field(fs[0].0, fs[0].1) + json_of_fields(fs.drop_first())
    }
}

/// The opening of a record object: the two fixed fields.
pub open spec fn json_record_header(sequence: u32, timestamp: u64) -> Seq<u8> {
    seq![123u8, 34u8] + chars_to_bytes("sequence"@) + seq![34u8, 58u8] + dec_bytes(sequence as nat)
        + seq![44u8, 34u8] + chars_to_bytes("timestamp"@) + seq![34u8, 58u8] + dec_bytes(
        timestamp as nat,
    )
}

/// The rendering of one record object.
pub open spec fn json_of_record(r: RecordModel) -> Seq<u8> {
    json_record_header(r.sequence, r.timestamp) + json_of_fields(r.fields) + seq![125u8]
}

/// The comma-prefixed renderings of the records after the first.
pub open spec fn json_records_rest(rs: Seq<RecordModel>) -> Seq<u8>
    decreases rs.len(),
{
    if rs.len() == 0 {
        Seq::<u8>::empty()
    } else {
        seq![44u8] + json_of_record(rs[0]) + json_records_rest(rs.drop_first())
    }
}

/// The comma-joined renderings of the records of a batch.
pub open spec fn json_records_body(rs: Seq<RecordModel>) -> Seq<u8>
    decreases rs.len(),
{
    if rs.len() == 0 {
        Seq::<u8>::empty()
    } else {
        json_of_record(rs[0]) + json_records_rest(rs.drop_first())
    }
}

/// The rendering of a whole batch: an array of record objects.
pub open spec fn json_of_records(rs: Seq<RecordModel>) -> Seq<u8> {
    seq![91u8] + json_records_body(rs) + seq![93u8]
}

/// The rendering wrapped as an object under a single `messages` key, used by
/// the codecs that need a document rather than an array at the top level.
pub open spec fn json_of_records_wrapped(rs: Seq<RecordModel>) -> Seq<u8> {
    seq![123u8, 34u8] + chars_to_bytes("messages"@) + seq![34u8, 58u8] + json_of_records(rs)
        + seq![125u8]
}

/// Appends an ASCII literal's bytes.
pub(crate) fn append_ascii(out: &mut Vec<u8>, s: &str)
    requires
        s.is_ascii(),
    ensures
        final(out)@ == old(out)@ + chars_to_bytes(s@),
{
    broadcast use vstd::string::is_ascii_spec_bytes;

    let b: &[u8] = s.as_bytes();
    out.extend_from_slice(b);
    proof {
        assert(final(out)@ =~= old(out)@ + chars_to_bytes(s@));
    }
}

/// Appends the rendering of a signed integer.
fn append_json_i64(out: &mut Vec<u8>, n: i64)
    ensures
        final(out)@ == old(out)@ + json_of_i64(n),
{
    if n >= 0 {
        append_dec_bytes_u64(out, n as u64);
    } else {
        out.push(45);
        let m: u64 = if n == i64::MIN {
            9223372036854775808u64
        } else {
            (-n) as u64
        };
        append_dec_bytes_u64(out, m);
        proof {
            assert(final(out)@ =~= old(out)@ + json_of_i64(n));
        }
    }
}

/// Appends the rendering of one payload leaf.
fn append_json_value(out: &mut Vec<u8>, v: &FieldValue)
    requires
        valid_value(value_model(*v)),
    ensures
        final(out)@ == old(out)@ + json_of_value(value_model(*v)),
{
    match v {
        FieldValue::U64(n) => {
            append_dec_bytes_u64(out, *n);
        },
        FieldValue::I64(n) => {
            append_json_i64(out, *n);
        },
        FieldValue::Bool(b) => {
            if *b {
                out.push(116);
                out.push(114);
                out.push(117);
                out.push(101);
            } else {
                out.push(102);
                out.push(97);
                out.push(108);
                out.push(115);
                out.push(101);
            }
            proof {
                assert(final(out)@ =~= old(out)@ + json_of_value(value_model(*v)));
            }
        },
        FieldValue::Str(s) => {
            proof {
                assert forall|i: int| 0 <= i < s@.len() implies '\0' <= #[trigger] s@[i]
                    <= '\u{7f}' by {
                    assert(json_safe_char(s@[i]));
                }
            }
            out.push(34);
            append_ascii(out, s.as_str());
            out.push(34);
            proof {
                assert(final(out)@ =~= old(out)@ + json_of_value(value_model(*v)));
            }
        },
    }
}

/// Appending a record to the tail of a batch appends its comma-prefixed
/// rendering.
proof fn lemma_records_rest_snoc(rs: Seq<RecordModel>, r: RecordModel)
    ensures
        json_records_rest(rs.push(r)) == json_records_rest(rs) + seq![44u8] + json_of_record(r),
    decreases rs.len(),
{
    if rs.len() == 0 {
        let pushed = rs.push(r);
        assert(pushed[0] == r);
        assert(pushed.drop_first() =~= Seq::<RecordModel>::empty());
        assert(json_records_rest(Seq::<RecordModel>::empty()) == Seq::<u8>::empty());
        assert(json_records_rest(rs.push(r)) =~= json_records_rest(rs) + seq![44u8]
            + json_of_record(r));
    } else {
        assert(rs.push(r).drop_first() =~= rs.drop_first().push(r));
        assert(rs.push(r)[0] == rs[0]);
        lemma_records_rest_snoc(rs.drop_first(), r);
        assert(json_records_rest(rs.push(r)) =~= json_records_rest(rs) + seq![44u8]
            + json_of_record(r));
    }
}

/// Appending a record to a batch appends its rendering, with a comma when
/// the batch was not empty.
proof fn lemma_records_body_snoc(rs: Seq<RecordModel>, r: RecordModel)
    ensures
        rs.len() == 0 ==> json_records_body(rs.push(r)) == json_of_record(r),
        rs.len() > 0 ==> json_records_body(rs.push(r)) == json_records_body(rs) + seq![44u8]
            + json_of_record(r),
    decreases rs.len(),
{
    if rs.len() == 0 {
        let pushed = rs.push(r);
        assert(pushed[0] == r);
        assert(pushed.drop_first() =~= Seq::<RecordModel>::empty());
        assert(json_records_rest(Seq::<RecordModel>::empty()) == Seq::<u8>::empty());
        assert(json_records_body(rs.push(r)) =~= json_of_record(r));
    } else {
        assert(rs.push(r).drop_first() =~= rs.drop_first().push(r));
        assert(rs.push(r)[0] == rs[0]);
        lemma_records_rest_snoc(rs.drop_first(), r);
        assert(json_records_body(rs.push(r)) =~= json_records_body(rs) + seq![44u8]
            + json_of_record(r));
    }
}

/// Appending a field to a document appends its rendering.
proof fn lemma_fields_snoc(fs: Seq<(Seq<char>, ValueModel)>, kv: (Seq<char>, ValueModel))
    ensures
        json_of_fields(fs.push(kv)) == json_of_fields(fs) + json_of_field(kv.0, kv.1),
    decreases fs.len(),
{
    if fs.len() == 0 {
        let pushed = fs.push(kv);
        assert(pushed[0] == kv);
        assert(pushed.drop_first() =~= Seq::<(Seq<char>, ValueModel)>::empty());
        assert(json_of_fields(Seq::<(Seq<char>, ValueModel)>::empty()) == Seq::<u8>::empty());
        assert(json_of_fields(pushed) == json_of_field(kv.0, kv.1) + json_of_fields(
            pushed.drop_first(),
        ));
        assert(json_of_fields(fs.push(kv)) =~= json_of_fields(fs) + json_of_field(kv.0, kv.1));
    } else {
        assert(fs.push(kv).drop_first() =~= fs.drop_first().push(kv));
        lemma_fields_snoc(fs.drop_first(), kv);
        assert(json_of_fields(fs.push(kv)) =~= json_of_fields(fs) + json_of_field(kv.0, kv.1));
    }
}

/// Appends the renderings of all payload fields, in document order.
fn append_fields(out: &mut Vec<u8>, fields: &Vec<(String, FieldValue)>)
    requires
        valid_fields(fields_model(fields@)),
    ensures
        final(out)@ == old(out)@ + json_of_fields(fields_model(fields@)),
{
    let ghost fs = fields_model(fields@);
    let mut i: usize = 0;
    proof {
        assert(fs.take(0) =~= Seq::<(Seq<char>, ValueModel)>::empty());
        assert(out@ =~= old(out)@ + json_of_fields(fs.take(0)));
    }
    while i < fields.len()
        invariant
            i <= fields.len(),
            fs == fields_model(fields@),
            valid_fields(fs),
            fs.len() == fields@.len(),
            out@ == old(out)@ + json_of_fields(fs.take(i as int)),
        decreases fields.len() - i,
    {
        let kv: &(String, FieldValue) = &fields[i];
        proof {
            assert(fs[i as int] == (kv.0@, value_model(kv.1)));
            assert(valid_key(fs[i as int].0) && valid_value(fs[i as int].1));
            assert forall|j: int| 0 <= j < kv.0@.len() implies '\0' <= #[trigger] kv.0@[j]
                <= '\u{7f}' by {
                assert(json_safe_char(kv.0@[j]));
            }
        }
        out.push(44);
        out.push(34);
        append_ascii(out, kv.0.as_str());
        out.push(34);
        out.push(58);
        append_json_value(out, &kv.1);
        proof {
            lemma_fields_snoc(fs.take(i as int), fs[i as int]);
            assert(fs.take(i + 1) =~= fs.take(i as int).push(fs[i as int]));
            assert(out@ =~= old(out)@ + json_of_fields(fs.take(i + 1)));
        }
        i = i + 1;
    }
    proof {
        assert(fs.take(fields@.len() as int) =~= fs);
    }
}

/// Appends the rendering of one record object.
fn append_record(out: &mut Vec<u8>, p: &Payload)
    requires
        valid_record(p.model()),
    ensures
        final(out)@ == old(out)@ + json_of_record(p.model()),
{
    proof {
        reveal_strlit("sequence");
        reveal_strlit("timestamp");
        assert(vstd::string::is_ascii("sequence"));
        assert(vstd::string::is_ascii("timestamp"));
    }
    out.push(123);
    out.push(34);
    append_ascii(out, "sequence");
    out.push(34);
    out.push(58);
    append_dec_bytes_u64(out, p.sequence as u64);
    out.push(44);
    out.push(34);
    append_ascii(out, "timestamp");
    out.push(34);
    out.push(58);
    append_dec_bytes_u64(out, p.timestamp);
    append_fields(out, &p.payload);
    out.push(125);
    proof {
        assert(final(out)@ =~= old(out)@ + json_of_record(p.model()));
    }
}

/// Renders a batch of records as the text wire format.
fn encode_records(payload: &Vec<Payload>) -> (r: Vec<u8>)
    requires
        valid_records(records_model(payload@)),
    ensures
        r@ == json_of_records(records_model(payload@)),
{
    let ghost rs = records_model(payload@);
    let mut out: Vec<u8> = Vec::new();
    out.push(91);
    let mut i: usize = 0;
    proof {
        assert(json_records_body(rs.take(0)) =~= Seq::<u8>::empty());
        assert(out@ =~= seq![91u8] + json_records_body(rs.take(0)));
    }
    while i < payload.len()
        invariant
            i <= payload.len(),
            rs == records_model(payload@),
            valid_records(rs),
            rs.len() == payload@.len(),
            out@ == seq![91u8] + json_records_body(rs.take(i as int)),
        decreases payload.len() - i,
    {
        if i > 0 {
            out.push(44);
        }
        proof {
            assert(rs[i as int] == payload@[i as int].model());
            assert(valid_record(rs[i as int]));
        }
        append_record(&mut out, &payload[i]);
        proof {
            lemma_records_body_snoc(rs.take(i as int), rs[i as int]);
            assert(rs.take(i + 1) =~= rs.take(i as int).push(rs[i as int]));
            assert(out@ =~= seq![91u8] + json_records_body(rs.take(i + 1)));
        }
        i = i + 1;
    }
    out.push(93);
    proof {
        assert(rs.take(payload@.len() as int) =~= rs);
        assert(out@ =~= json_of_records(rs));
    }
    out
}

/// Whether every character of `s` can stand unescaped in the text format.
pub(crate) fn check_json_safe(s: &String) -> (r: bool)
    ensures
        r == json_safe_str(s@),
{
    let n: usize = s.as_str().unicode_len();
    let mut i: usize = 0;
    while i < n
        invariant
            i <= n,
            n == s@.len(),
            forall|j: int| 0 <= j < i ==> json_safe_char(#[trigger] s@[j]),
        decreases n - i,
    {
        let c: char = s.as_str().get_char(i);
        if !(' ' <= c && c <= '~' && c != '"' && c != '\\') {
            return false;
        }
        i = i + 1;
    }
    true
}

/// Whether one payload leaf is representable in the text format.
fn check_value(v: &FieldValue) -> (r: bool)
    ensures
        r == valid_value(value_model(*v)),
{
    match v {
        FieldValue::Str(s) => check_json_safe(s),
        FieldValue::I64(n) => *n < 0,
        _ => true,
    }
}

/// Whether one document is representable in the text format: every key and
/// string value renderable, no key clashing with a fixed field name or
/// repeated.
fn check_fields(fields: &Vec<(String, FieldValue)>) -> (r: bool)
    ensures
        r == valid_fields(fields_model(fields@)),
{
    let ghost fs = fields_model(fields@);
    let sequence_key: String = String::from_str("sequence");
    let timestamp_key: String = String::from_str("timestamp");
    let mut j: usize = 0;
    while j < fields.len()
        invariant
            j <= fields.len(),
            fs == fields_model(fields@),
            fs.len() == fields@.len(),
            sequence_key@ == "sequence"@,
            timestamp_key@ == "timestamp"@,
            forall|k: int| 0 <= k < j ==> valid_key(#[trigger] fs[k].0) && valid_value(fs[k].1),
            forall|k: int, l: int| 0 <= k < l < j ==> fs[k].0 != fs[l].0,
        decreases fields.len() - j,
    {
        let kv: &(String, FieldValue) = &fields[j];
        proof {
            assert(fs[j as int] == (kv.0@, value_model(kv.1)));
        }
        if !check_json_safe(&kv.0) {
            proof {
                assert(!valid_key(fs[j as int].0));
                if valid_fields(fs) {
                    assert(0 <= j as int && (j as int) < fs.len());
                    assert(fs[j as int].0 == kv.0@);
                    assert(valid_key(fs[j as int].0) && valid_value(fs[j as int].1));
                }
            }
            return false;
        }
        if kv.0 == sequence_key || kv.0 == timestamp_key {
            proof {
                assert(!valid_key(fs[j as int].0));
                if valid_fields(fs) {
                    assert(0 <= j as int && (j as int) < fs.len());
                    assert(fs[j as int].0 == kv.0@);
                    assert(valid_key(fs[j as int].0) && valid_value(fs[j as int].1));
                }
            }
            return false;
        }
        if !check_value(&kv.1) {
            proof {
                assert(!valid_value(fs[j as int].1));
                if valid_fields(fs) {
                    assert(0 <= j as int && (j as int) < fs.len());
                    assert(fs[j as int].0 == kv.0@);
                    assert(valid_key(fs[j as int].0) && valid_value(fs[j as int].1));
                }
            }
            return false;
        }
        let mut k: usize = 0;
        while k < j
            invariant
                k <= j,
                j < fields@.len(),
                fs == fields_model(fields@),
                fs.len() == fields@.len(),
                kv.0@ == fs[j as int].0,
                forall|l: int| 0 <= l < k ==> #[trigger] fs[l].0 != fs[j as int].0,
            decreases j - k,
        {
            proof {
                assert(fs[k as int].0 == fields@[k as int].0@);
            }
            if fields[k].0 == kv.0 {
                proof {
                    assert(fs[k as int].0 == fs[j as int].0);
                    if valid_fields(fs) {
                        assert(fs[k as int].0 != fs[j as int].0);
                    }
                }
                return false;
            }
            k = k + 1;
        }
        proof {
            assert(valid_key(fs[j as int].0));
            assert(valid_value(fs[j as int].1));
            assert forall|a: int|
                0 <= a < j + 1 implies valid_key(#[trigger] fs[a].0) && valid_value(
                fs[a].1,
            ) by {
                if a == j as int {
                    assert(valid_key(fs[j as int].0));
                    assert(valid_value(fs[j as int].1));
                }
            }
        }
        j = j + 1;
    }
    proof {
        assert(valid_fields(fs)) by {
            assert forall|k: int| 0 <= k < fs.len() implies valid_key(#[trigger] fs[k].0)
                && valid_value(fs[k].1) by {
                assert(k < j);
            }
            assert forall|k: int, l: int| 0 <= k < l < fs.len() implies fs[k].0 != fs[l].0 by {
                assert(k < j && l < j);
            }
        }
    }
    true
}

/// Whether a whole batch is representable in the text format.
pub fn check_records(payload: &Vec<Payload>) -> (r: bool)
    ensures
        r == valid_records(records_model(payload@)),
{
    let ghost rs = records_model(payload@);
    let mut i: usize = 0;
    while i < payload.len()
        invariant
            i <= payload.len(),
            rs == records_model(payload@),
            rs.len() == payload@.len(),
            forall|j: int| 0 <= j < i ==> valid_record(#[trigger] rs[j]),
        decreases payload.len() - i,
    {
        proof {
            assert(rs[i as int] == payload@[i as int].model());
        }
        if !check_fields(&payload[i].payload) {
            proof {
                assert(!valid_record(rs[i as int]));
                if valid_records(rs) {
                    assert(valid_record(rs[i as int]));
                }
            }
            return false;
        }
        proof {
            assert(valid_record(rs[i as int]));
        }
        i = i + 1;
    }
    proof {
        assert(valid_records(rs)) by {
            assert forall|j: int| 0 <= j < rs.len() implies valid_record(#[trigger] rs[j]) by {
                assert(j < i);
            }
        }
    }
    true
}

pub open spec fn is_digit_byte(b: u8) -> bool {
    48 <= b <= 57
}

/// The numeric value of a digit string, most significant digit first.
pub open spec fn dec_value(s: Seq<u8>) -> int
    decreases s.len(),
{
    if s.len() == 0 {
        0
    } else {
        dec_value(s.drop_last()) * 10 + (s.last() - 48)
    }
}

/// A decimal rendering is nonempty and made of digits.
proof fn lemma_dec_bytes_digits(n: nat)
    ensures
        dec_bytes(n).len() >= 1,
        forall|i: int| 0 <= i < dec_bytes(n).len() ==> is_digit_byte(#[trigger] dec_bytes(n)[i]),
    decreases n,
{
    if n >= 10 {
        lemma_dec_bytes_digits(n / 10);
    }
}

/// Reading the decimal rendering of `n` back gives `n`.
proof fn lemma_dec_value_of_dec_bytes(n: nat)
    ensures
        dec_value(dec_bytes(n)) == n,
    decreases n,
{
    if n < 10 {
        assert(dec_bytes(n).drop_last() =~= Seq::<u8>::empty());
        assert(dec_value(Seq::<u8>::empty()) == 0);
        assert(dec_bytes(n).last() == digit_byte(n));
        assert(digit_byte(n) == 48 + n);
    } else {
        lemma_dec_value_of_dec_bytes(n / 10);
        assert(dec_bytes(n).drop_last() =~= dec_bytes(n / 10));
        assert(dec_bytes(n).last() == digit_byte(n % 10));
        assert(digit_byte(n % 10) == 48 + n % 10);
    }
}

/// The value of a digit string is never negative.
proof fn lemma_dec_value_nonneg(s: Seq<u8>)
    requires
        forall|i: int| 0 <= i < s.len() ==> is_digit_byte(#[trigger] s[i]),
    ensures
        dec_value(s) >= 0,
    decreases s.len(),
{
    if s.len() > 0 {
        lemma_dec_value_nonneg(s.drop_last());
    }
}

/// The value of a prefix of a digit string never exceeds the whole value.
proof fn lemma_dec_value_prefix_le(s: Seq<u8>, k: int)
    requires
        forall|i: int| 0 <= i < s.len() ==> is_digit_byte(#[trigger] s[i]),
        0 <= k <= s.len(),
    ensures
        dec_value(s.take(k)) <= dec_value(s),
    decreases s.len() - k,
{
    if k == s.len() {
        assert(s.take(k) =~= s);
    } else {
        assert(s.take(k + 1).drop_last() =~= s.take(k));
        assert(s.take(k + 1).last() == s[k]);
        assert forall|i: int| 0 <= i < s.take(k).len() implies is_digit_byte(
            #[trigger] s.take(k)[i],
        ) by {
            assert(s.take(k)[i] == s[i]);
        }
        lemma_dec_value_nonneg(s.take(k));
        assert(dec_value(s.take(k + 1)) == dec_value(s.take(k)) * 10 + (s[k] - 48));
        assert(dec_value(s.take(k)) <= dec_value(s.take(k + 1)));
        lemma_dec_value_prefix_le(s, k + 1);
    }
}

/// Reads a run of decimal digits starting at `start` and returns the value
/// with the position after the run.  Reads back exactly what the decimal
/// rendering of any value wrote, whenever a non-digit (or the end) follows.
fn parse_u64(bytes: &Vec<u8>, start: usize) -> (r: Option<(u64, usize)>)
    requires
        start <= bytes@.len(),
    ensures
        r matches Some(p) ==> start < p.1 <= bytes@.len(),
        forall|n: u64, rest: Seq<u8>|
            (bytes@.skip(start as int) == #[trigger] (dec_bytes(n as nat) + rest) && (rest.len()
                == 0 || !is_digit_byte(rest[0]))) ==> (r matches Some(p) && p.0 == n
                && bytes@.skip(p.1 as int) == rest),
{
    let len: usize = bytes.len();
    let mut pos: usize = start;
    let mut acc: u64 = 0;
    if pos == len || !(48 <= bytes[pos] && bytes[pos] <= 57) {
        proof {
            assert forall|n: u64, rest: Seq<u8>|
                (bytes@.skip(start as int) == #[trigger] (dec_bytes(n as nat) + rest) && (
                rest.len() == 0 || !is_digit_byte(rest[0]))) implies false by {
                lemma_dec_bytes_digits(n as nat);
                assert(bytes@.skip(start as int).len() == len - start);
                assert(len - start >= 1);
                assert(bytes@.skip(start as int)[0] == dec_bytes(n as nat)[0]);
                assert(bytes@.skip(start as int)[0] == bytes@[start as int]);
                assert(is_digit_byte(bytes@[start as int]));
            }
        }
        return None;
    }
    while pos < len && 48 <= bytes[pos] && bytes[pos] <= 57
        invariant
            start <= pos <= len,
            len == bytes@.len(),
            start < len,
            is_digit_byte(bytes@[start as int]),
            forall|i: int| start <= i < pos ==> is_digit_byte(#[trigger] bytes@[i]),
            acc == dec_value(bytes@.subrange(start as int, pos as int)),
        decreases len - pos,
    {
        let d: u8 = bytes[pos] - 48;
        let next: Option<u64> = acc.checked_mul(10);
        let stepped: Option<u64> = match next {
            Some(x) => x.checked_add(d as u64),
            None => None,
        };
        match stepped {
            Some(y) => {
                proof {
                    assert(bytes@.subrange(start as int, pos + 1).drop_last() =~= bytes@.subrange(
                        start as int,
                        pos as int,
                    ));
                    assert(bytes@.subrange(start as int, pos + 1).last() == bytes@[pos as int]);
                }
                acc = y;
                pos = pos + 1;
            },
            None => {
                proof {
                    assert forall|n: u64, rest: Seq<u8>|
                        (bytes@.skip(start as int) == #[trigger] (dec_bytes(n as nat) + rest) && (
                        rest.len() == 0 || !is_digit_byte(rest[0]))) implies false by {
                        let ds = dec_bytes(n as nat);
                        lemma_dec_bytes_digits(n as nat);
                        lemma_dec_value_of_dec_bytes(n as nat);
                        // The scanned digits are a strict prefix of the
                        // rendering, so the stepped value still fits.
                        assert(bytes@.skip(start as int).len() == len - start);
                        assert(len - start == ds.len() + rest.len());
                        assert(is_digit_byte(bytes@[pos as int]));
                        if pos - start >= ds.len() {
                            assert(start + ds.len() < len);
                            assert(rest.len() > 0);
                            assert(rest[0] == bytes@.skip(start as int)[ds.len() as int]);
                            assert(rest[0] == bytes@[start + ds.len()]);
                            assert(is_digit_byte(bytes@[start + ds.len()]));
                        }
                        assert(pos - start < ds.len());
                        assert(bytes@.subrange(start as int, pos as int) =~= ds.take(
                            pos - start,
                        ));
                        assert(bytes@.subrange(start as int, pos + 1) =~= ds.take(
                            pos - start + 1,
                        ));
                        assert(bytes@.subrange(start as int, pos + 1).drop_last()
                            =~= bytes@.subrange(start as int, pos as int));
                        assert(dec_value(ds.take(pos - start + 1)) == acc * 10 + (
                        bytes@[pos as int] - 48));
                        lemma_dec_value_prefix_le(ds, pos - start + 1);
                        assert(acc * 10 + (bytes@[pos as int] - 48) <= n);
                    }
                }
                return None;
            },
        }
    }
    proof {
        assert(pos > start);
        assert forall|n: u64, rest: Seq<u8>|
            (bytes@.skip(start as int) == #[trigger] (dec_bytes(n as nat) + rest) && (rest.len()
                == 0 || !is_digit_byte(rest[0]))) implies (acc == n && bytes@.skip(pos as int)
            == rest) by {
            let ds = dec_bytes(n as nat);
            lemma_dec_bytes_digits(n as nat);
            lemma_dec_value_of_dec_bytes(n as nat);
            assert(bytes@.skip(start as int).len() == len - start);
            assert(len - start == ds.len() + rest.len());
            if pos - start > ds.len() {
                // The scan would have stopped at the non-digit that follows
                // the rendering.
                assert(start + ds.len() < len);
                assert(rest.len() > 0);
                assert(rest[0] == bytes@.skip(start as int)[ds.len() as int]);
                assert(rest[0] == bytes@[start + ds.len()]);
                assert(is_digit_byte(bytes@[start + ds.len()]));
            }
            if pos - start < ds.len() {
                // The scan only stops at the end or at a non-digit, but the
                // rendering continues with a digit here.
                assert(bytes@.skip(start as int)[pos - start] == bytes@[pos as int]);
                assert(bytes@[pos as int] == ds[pos - start]);
                assert(is_digit_byte(bytes@[pos as int]));
                assert(pos < len);
            }
            assert(pos - start == ds.len());
            assert(bytes@.subrange(start as int, pos as int) =~= ds);
            assert(acc == n);
            assert forall|i: int| 0 <= i < rest.len() implies bytes@.skip(pos as int)[i]
                == rest[i] by {
                assert(bytes@.skip(pos as int)[i] == bytes@[pos + i]);
                assert(bytes@.skip(start as int)[pos - start + i] == bytes@[pos + i]);
            }
            assert(bytes@.skip(pos as int) =~= rest);
        }
    }
    Some((acc, pos))
}

/// Relies on String::from_utf8: ASCII bytes decode to themselves, one
/// character per byte.
#[verifier::external_body]
pub(crate) fn string_from_ascii(bytes: Vec<u8>) -> (r: String)
    requires
        forall|i: int| 0 <= i < bytes@.len() ==> bytes@[i] < 128,
    ensures
        r@ == bytes@.map(|i: int, b: u8| b as char),
{
    match String::from_utf8(bytes) {
        Ok(s) => s,
        Err(_) => String::new(),
    }
}

/// The bytes of a renderable string are its characters: printable, no
/// quote, below 128, and mapping back to the same characters.
pub(crate) proof fn lemma_chars_to_bytes_safe(sv: Seq<char>)
    requires
        json_safe_str(sv),
    ensures
        chars_to_bytes(sv).len() == sv.len(),
        forall|i: int|
            0 <= i < sv.len() ==> 32 <= #[trigger] chars_to_bytes(sv)[i] <= 126
                && chars_to_bytes(sv)[i] != 34,
        forall|i: int| 0 <= i < sv.len() ==> (#[trigger] chars_to_bytes(sv)[i]) as char == sv[i],
{
    assert forall|i: int|
        0 <= i < sv.len() implies 32 <= #[trigger] chars_to_bytes(sv)[i] <= 126
        && chars_to_bytes(sv)[i] != 34 && (chars_to_bytes(sv)[i]) as char == sv[i] by {
        assert(json_safe_char(sv[i]));
        assert(chars_to_bytes(sv)[i] == sv[i] as u8);
    }
}

/// Reads a quoted string starting at `start`.  Reads back exactly what the
/// renderer wrote for any renderable string.
fn parse_string(bytes: &Vec<u8>, start: usize) -> (r: Option<(String, usize)>)
    requires
        start <= bytes@.len(),
    ensures
        r matches Some(p) ==> start < p.1 <= bytes@.len(),
        forall|sv: Seq<char>, rest: Seq<u8>|
            (json_safe_str(sv) && bytes@.skip(start as int) == #[trigger] ((seq![34u8]
                + chars_to_bytes(sv) + seq![34u8]) + rest)) ==> (r matches Some(p) && p.0@ == sv
                && bytes@.skip(p.1 as int) == rest),
{
    let len: usize = bytes.len();
    if start == len || bytes[start] != 34 {
        proof {
            assert forall|sv: Seq<char>, rest: Seq<u8>|
                (json_safe_str(sv) && bytes@.skip(start as int) == #[trigger] ((seq![34u8]
                    + chars_to_bytes(sv) + seq![34u8]) + rest)) implies false by {
                assert(bytes@.skip(start as int).len() == len - start);
                assert(bytes@.skip(start as int)[0] == 34);
                assert(bytes@.skip(start as int)[0] == bytes@[start as int]);
            }
        }
        return None;
    }
    let mut pos: usize = start + 1;
    let mut collected: Vec<u8> = Vec::new();
    while pos < len && bytes[pos] != 34
        invariant
            start + 1 <= pos <= len,
            len == bytes@.len(),
            bytes@[start as int] == 34,
            collected@ == bytes@.subrange(start + 1, pos as int),
            forall|i: int| start + 1 <= i < pos ==> #[trigger] bytes@[i] != 34,
            forall|i: int| 0 <= i < collected@.len() ==> collected@[i] < 128,
        decreases len - pos,
    {
        let b: u8 = bytes[pos];
        if b >= 128 {
            proof {
                assert forall|sv: Seq<char>, rest: Seq<u8>|
                    (json_safe_str(sv) && bytes@.skip(start as int) == #[trigger] ((seq![34u8]
                        + chars_to_bytes(sv) + seq![34u8]) + rest)) implies false by {
                    let cb = chars_to_bytes(sv);
                    lemma_chars_to_bytes_safe(sv);
                    assert(bytes@.skip(start as int).len() == len - start);
                    // Every scanned byte sits inside the character run: the
                    // closing quote would have stopped the scan.
                    if pos - start - 1 >= cb.len() {
                        assert(bytes@.skip(start as int)[cb.len() as int + 1] == 34);
                        assert(bytes@[start + cb.len() + 1] == 34);
                        assert(start + 1 <= start + cb.len() + 1 < pos);
                    }
                    assert(pos - start - 1 < cb.len());
                    assert(bytes@.skip(start as int)[pos - start] == bytes@[pos as int]);
                    assert(cb[pos - start - 1] == bytes@[pos as int]);
                    assert(bytes@[pos as int] <= 126);
                }
            }
            return None;
        }
        collected.push(b);
        pos = pos + 1;
        proof {
            assert(collected@ =~= bytes@.subrange(start + 1, pos as int));
        }
    }
    if pos == len {
        proof {
            assert forall|sv: Seq<char>, rest: Seq<u8>|
                (json_safe_str(sv) && bytes@.skip(start as int) == #[trigger] ((seq![34u8]
                    + chars_to_bytes(sv) + seq![34u8]) + rest)) implies false by {
                let cb = chars_to_bytes(sv);
                lemma_chars_to_bytes_safe(sv);
                assert(bytes@.skip(start as int).len() == len - start);
                if pos - start - 1 >= cb.len() {
                    assert(bytes@.skip(start as int)[cb.len() as int + 1] == 34);
                    assert(bytes@[start + cb.len() + 1] == 34);
                    assert(start + 1 <= start + cb.len() + 1 < pos);
                } else {
                    assert(bytes@.skip(start as int)[pos - start] == bytes@[pos as int]);
                    assert(cb[pos - start - 1] == bytes@[pos as int]);
                    assert(pos < len);
                }
            }
        }
        return None;
    }
    let made: String = string_from_ascii(collected);
    proof {
        assert forall|sv: Seq<char>, rest: Seq<u8>|
            (json_safe_str(sv) && bytes@.skip(start as int) == #[trigger] ((seq![34u8]
                + chars_to_bytes(sv) + seq![34u8]) + rest)) implies (made@ == sv && bytes@.skip(
            pos + 1,
        ) == rest) by {
            let cb = chars_to_bytes(sv);
            lemma_chars_to_bytes_safe(sv);
            assert(bytes@.skip(start as int).len() == len - start);
            if pos - start - 1 < cb.len() {
                // The scan stopped at a quote, but the rendering still has a
                // plain character here.
                assert(bytes@.skip(start as int)[pos - start] == bytes@[pos as int]);
                assert(cb[pos - start - 1] == bytes@[pos as int]);
                assert(bytes@[pos as int] != 34);
            }
            if pos - start - 1 > cb.len() {
                // The closing quote would have stopped the scan earlier.
                assert(bytes@.skip(start as int)[cb.len() as int + 1] == 34);
                assert(bytes@[start + cb.len() + 1] == 34);
                assert(start + 1 <= start + cb.len() + 1 < pos);
            }
            assert(pos - start - 1 == cb.len());
            assert forall|i: int| 0 <= i < cb.len() implies collected@[i] == cb[i] by {
                assert(collected@[i] == bytes@[start + 1 + i]);
                assert(bytes@.skip(start as int)[1 + i] == bytes@[start + 1 + i]);
            }
            assert(collected@ =~= cb);
            assert forall|i: int| 0 <= i < sv.len() implies made@[i] == sv[i] by {
                assert(made@[i] == collected@[i] as char);
                assert(cb[i] as char == sv[i]);
            }
            assert(made@ =~= sv);
            assert forall|i: int| 0 <= i < rest.len() implies bytes@.skip(pos + 1)[i]
                == rest[i] by {
                assert(bytes@.skip(pos + 1)[i] == bytes@[pos + 1 + i]);
                assert(bytes@.skip(start as int)[pos - start + 1 + i] == bytes@[pos + 1 + i]);
            }
            assert(bytes@.skip(pos + 1) =~= rest);
        }
    }
    Some((made, pos + 1))
}

/// What byte a value rendering starts with, by variant.
proof fn lemma_json_of_value_first(v: ValueModel)
    requires
        valid_value(v),
    ensures
        json_of_value(v).len() >= 1,
        v matches ValueModel::U64(_) ==> is_digit_byte(json_of_value(v)[0]),
        v matches ValueModel::I64(_) ==> json_of_value(v)[0] == 45,
        v == ValueModel::Bool(true) ==> json_of_value(v)[0] == 116,
        v == ValueModel::Bool(false) ==> json_of_value(v)[0] == 102,
        v matches ValueModel::Str(_) ==> json_of_value(v)[0] == 34,
{
    match v {
        ValueModel::U64(n) => {
            lemma_dec_bytes_digits(n as nat);
        },
        ValueModel::I64(n) => {
            lemma_dec_bytes_digits((-(n as int)) as nat);
        },
        ValueModel::Bool(_) => {},
        ValueModel::Str(_) => {},
    }
}

/// Whether `rest` can follow the rendering of `v` without changing how the
/// rendering reads back: a digit must not directly follow a number.
pub open spec fn value_boundary_ok(v: ValueModel, rest: Seq<u8>) -> bool {
    match v {
        ValueModel::U64(_) => rest.len() == 0 || !is_digit_byte(rest[0]),
        ValueModel::I64(_) => rest.len() == 0 || !is_digit_byte(rest[0]),
        _ => true,
    }
}

/// Reads one payload leaf starting at `start`.  Reads back exactly what the
/// renderer wrote for any representable leaf, whenever what follows cannot
/// extend the rendering.
fn parse_value(bytes: &Vec<u8>, start: usize) -> (r: Option<(FieldValue, usize)>)
    requires
        start <= bytes@.len(),
    ensures
        r matches Some(p) ==> start < p.1 <= bytes@.len(),
        forall|v: ValueModel, rest: Seq<u8>|
            (valid_value(v) && value_boundary_ok(v, rest) && bytes@.skip(start as int)
                == #[trigger] (json_of_value(v) + rest)) ==> (r matches Some(p) && value_model(p.0)
                == v && bytes@.skip(p.1 as int) == rest),
{
    let len: usize = bytes.len();
    if start == len {
        proof {
            assert forall|v: ValueModel, rest: Seq<u8>|
                (valid_value(v) && value_boundary_ok(v, rest) && bytes@.skip(start as int)
                    == #[trigger] (json_of_value(v) + rest)) implies false by {
                lemma_json_of_value_first(v);
                assert(bytes@.skip(start as int).len() == len - start);
            }
        }
        return None;
    }
    let b: u8 = bytes[start];
    proof {
        assert(bytes@.skip(start as int)[0] == bytes@[start as int]);
    }
    if b == 34 {
        let parsed: Option<(String, usize)> = parse_string(bytes, start);
        match parsed {
            Some(p) => {
                proof {
                    assert forall|v: ValueModel, rest: Seq<u8>|
                        (valid_value(v) && value_boundary_ok(v, rest) && bytes@.skip(start as int)
                            == #[trigger] (json_of_value(v) + rest)) implies (value_model(
                        FieldValue::Str(p.0),
                    ) == v && bytes@.skip(p.1 as int) == rest) by {
                        lemma_json_of_value_first(v);
                        if !(v matches ValueModel::Str(_)) {
                            assert(json_of_value(v)[0] != 34);
                            assert(bytes@.skip(start as int)[0] == json_of_value(v)[0]);
                        }
                        let sv = v->Str_0;
                        assert(json_of_value(v) == (seq![34u8] + chars_to_bytes(sv) + seq![34u8]));
                        assert(bytes@.skip(start as int) == (seq![34u8] + chars_to_bytes(sv)
                            + seq![34u8]) + rest);
                    }
                }
                Some((FieldValue::Str(p.0), p.1))
            },
            None => {
                proof {
                    assert forall|v: ValueModel, rest: Seq<u8>|
                        (valid_value(v) && value_boundary_ok(v, rest) && bytes@.skip(start as int)
                            == #[trigger] (json_of_value(v) + rest)) implies false by {
                        lemma_json_of_value_first(v);
                        if !(v matches ValueModel::Str(_)) {
                            assert(json_of_value(v)[0] != 34);
                            assert(bytes@.skip(start as int)[0] == json_of_value(v)[0]);
                        }
                        let sv = v->Str_0;
                        assert(bytes@.skip(start as int) == (seq![34u8] + chars_to_bytes(sv)
                            + seq![34u8]) + rest);
                    }
                }
                None
            },
        }
    } else if b == 116 {
        if len - start >= 4 && bytes[start + 1] == 114 && bytes[start + 2] == 117 && bytes[start
            + 3] == 101 {
            proof {
                assert forall|v: ValueModel, rest: Seq<u8>|
                    (valid_value(v) && value_boundary_ok(v, rest) && bytes@.skip(start as int)
                        == #[trigger] (json_of_value(v) + rest)) implies (value_model(
                    FieldValue::Bool(true),
                ) == v && bytes@.skip(start + 4) == rest) by {
                    lemma_json_of_value_first(v);
                    if v != ValueModel::Bool(true) {
                        assert(json_of_value(v)[0] != 116);
                        assert(bytes@.skip(start as int)[0] == json_of_value(v)[0]);
                    }
                    assert(json_of_value(v).len() == 4);
                    assert(bytes@.skip(start as int).len() == len - start);
                    assert(len - start == 4 + rest.len());
                    assert forall|i: int| 0 <= i < rest.len() implies bytes@.skip(start + 4)[i]
                        == rest[i] by {
                        assert(bytes@.skip(start + 4)[i] == bytes@[start + 4 + i]);
                        assert(bytes@.skip(start as int)[4 + i] == bytes@[start + 4 + i]);
                    }
                    assert(bytes@.skip(start + 4) =~= rest);
                }
            }
            Some((FieldValue::Bool(true), start + 4))
        } else {
            proof {
                assert forall|v: ValueModel, rest: Seq<u8>|
                    (valid_value(v) && value_boundary_ok(v, rest) && bytes@.skip(start as int)
                        == #[trigger] (json_of_value(v) + rest)) implies false by {
                    lemma_json_of_value_first(v);
                    if v != ValueModel::Bool(true) {
                        assert(json_of_value(v)[0] != 116);
                        assert(bytes@.skip(start as int)[0] == json_of_value(v)[0]);
                    }
                    assert(json_of_value(v).len() == 4);
                    assert(bytes@.skip(start as int).len() == len - start);
                    assert(bytes@.skip(start as int)[1] == bytes@[start + 1]);
                    assert(bytes@.skip(start as int)[2] == bytes@[start + 2]);
                    assert(bytes@.skip(start as int)[3] == bytes@[start + 3]);
                }
            }
            None
        }
    } else if b == 102 {
        if len - start >= 5 && bytes[start + 1] == 97 && bytes[start + 2] == 108 && bytes[start
            + 3] == 115 && bytes[start + 4] == 101 {
            proof {
                assert forall|v: ValueModel, rest: Seq<u8>|
                    (valid_value(v) && value_boundary_ok(v, rest) && bytes@.skip(start as int)
                        == #[trigger] (json_of_value(v) + rest)) implies (value_model(
                    FieldValue::Bool(false),
                ) == v && bytes@.skip(start + 5) == rest) by {
                    lemma_json_of_value_first(v);
                    if v != ValueModel::Bool(false) {
                        assert(json_of_value(v)[0] != 102);
                        assert(bytes@.skip(start as int)[0] == json_of_value(v)[0]);
                    }
                    assert(json_of_value(v).len() == 5);
                    assert(bytes@.skip(start as int).len() == len - start);
                    assert(len - start == 5 + rest.len());
                    assert forall|i: int| 0 <= i < rest.len() implies bytes@.skip(start + 5)[i]
                        == rest[i] by {
                        assert(bytes@.skip(start + 5)[i] == bytes@[start + 5 + i]);
                        assert(bytes@.skip(start as int)[5 + i] == bytes@[start + 5 + i]);
                    }
                    assert(bytes@.skip(start + 5) =~= rest);
                }
            }
            Some((FieldValue::Bool(false), start + 5))
        } else {
            proof {
                assert forall|v: ValueModel, rest: Seq<u8>|
                    (valid_value(v) && value_boundary_ok(v, rest) && bytes@.skip(start as int)
                        == #[trigger] (json_of_value(v) + rest)) implies false by {
                    lemma_json_of_value_first(v);
                    if v != ValueModel::Bool(false) {
                        assert(json_of_value(v)[0] != 102);
                        assert(bytes@.skip(start as int)[0] == json_of_value(v)[0]);
                    }
                    assert(json_of_value(v).len() == 5);
                    assert(bytes@.skip(start as int).len() == len - start);
                    assert(bytes@.skip(start as int)[1] == bytes@[start + 1]);
                    assert(bytes@.skip(start as int)[2] == bytes@[start + 2]);
                    assert(bytes@.skip(start as int)[3] == bytes@[start + 3]);
                    assert(bytes@.skip(start as int)[4] == bytes@[start + 4]);
                }
            }
            None
        }
    } else if b == 45 {
        let parsed: Option<(u64, usize)> = parse_u64(bytes, start + 1);
        proof {
            assert forall|v: ValueModel, rest: Seq<u8>|
                (valid_value(v) && value_boundary_ok(v, rest) && bytes@.skip(start as int)
                    == #[trigger] (json_of_value(v) + rest)) implies (v matches ValueModel::I64(n)
                && n < 0 && bytes@.skip(start + 1) == dec_bytes((-(n as int)) as nat) + rest
                && (-(n as int)) <= 9223372036854775808) by {
                lemma_json_of_value_first(v);
                if !(v matches ValueModel::I64(_)) {
                    assert(json_of_value(v)[0] != 45);
                    assert(bytes@.skip(start as int)[0] == json_of_value(v)[0]);
                }
                let n = v->I64_0;
                let mag = dec_bytes((-(n as int)) as nat);
                assert(json_of_value(v) == seq![45u8] + mag);
                assert(bytes@.skip(start as int).len() == len - start);
                assert(json_of_value(v).len() == 1 + mag.len());
                assert(len - start == 1 + mag.len() + rest.len());
                assert forall|i: int| 0 <= i < mag.len() + rest.len() implies bytes@.skip(
                    start + 1,
                )[i] == (mag + rest)[i] by {
                    assert(bytes@.skip(start + 1)[i] == bytes@[start + 1 + i]);
                    assert(bytes@.skip(start as int)[1 + i] == bytes@[start + 1 + i]);
                    assert((json_of_value(v) + rest)[1 + i] == (mag + rest)[i]);
                }
                assert(bytes@.skip(start + 1).len() == mag.len() + rest.len());
                assert(bytes@.skip(start + 1) =~= mag + rest);
            }
        }
        match parsed {
            Some(p) => {
                if p.0 > 9223372036854775808u64 {
                    proof {
                        assert forall|v: ValueModel, rest: Seq<u8>|
                            (valid_value(v) && value_boundary_ok(v, rest) && bytes@.skip(
                                start as int,
                            ) == #[trigger] (json_of_value(v) + rest)) implies false by {
                            let n = v->I64_0;
                            assert(p.0 == (-(n as int)) as nat);
                        }
                    }
                    None
                } else {
                    let value: i64 = if p.0 == 9223372036854775808u64 {
                        i64::MIN
                    } else {
                        -(p.0 as i64)
                    };
                    proof {
                        assert forall|v: ValueModel, rest: Seq<u8>|
                            (valid_value(v) && value_boundary_ok(v, rest) && bytes@.skip(
                                start as int,
                            ) == #[trigger] (json_of_value(v) + rest)) implies (value_model(
                            FieldValue::I64(value),
                        ) == v && bytes@.skip(p.1 as int) == rest) by {
                            let n = v->I64_0;
                            assert(p.0 == (-(n as int)) as nat);
                            assert(value == n);
                        }
                    }
                    Some((FieldValue::I64(value), p.1))
                }
            },
            None => {
                proof {
                    assert forall|v: ValueModel, rest: Seq<u8>|
                        (valid_value(v) && value_boundary_ok(v, rest) && bytes@.skip(start as int)
                            == #[trigger] (json_of_value(v) + rest)) implies false by {
                        let n = v->I64_0;
                        let mag = dec_bytes((-(n as int)) as nat);
                        assert(bytes@.skip(start + 1) == mag + rest);
                    }
                }
                None
            },
        }
    } else if 48 <= b && b <= 57 {
        let parsed: Option<(u64, usize)> = parse_u64(bytes, start);
        proof {
            assert forall|v: ValueModel, rest: Seq<u8>|
                (valid_value(v) && value_boundary_ok(v, rest) && bytes@.skip(start as int)
                    == #[trigger] (json_of_value(v) + rest)) implies (v matches ValueModel::U64(n)
                && bytes@.skip(start as int) == dec_bytes(n as nat) + rest) by {
                lemma_json_of_value_first(v);
                if !(v matches ValueModel::U64(_)) {
                    assert(!is_digit_byte(json_of_value(v)[0]));
                    assert(bytes@.skip(start as int)[0] == json_of_value(v)[0]);
                }
            }
        }
        match parsed {
            Some(p) => {
                proof {
                    assert forall|v: ValueModel, rest: Seq<u8>|
                        (valid_value(v) && value_boundary_ok(v, rest) && bytes@.skip(start as int)
                            == #[trigger] (json_of_value(v) + rest)) implies (value_model(
                        FieldValue::U64(p.0),
                    ) == v && bytes@.skip(p.1 as int) == rest) by {
                        let n = v->U64_0;
                        assert(p.0 == n);
                    }
                }
                Some((FieldValue::U64(p.0), p.1))
            },
            None => {
                proof {
                    assert forall|v: ValueModel, rest: Seq<u8>|
                        (valid_value(v) && value_boundary_ok(v, rest) && bytes@.skip(start as int)
                            == #[trigger] (json_of_value(v) + rest)) implies false by {
                        let n = v->U64_0;
                        assert(bytes@.skip(start as int) == dec_bytes(n as nat) + rest);
                    }
                }
                None
            },
        }
    } else {
        proof {
            assert forall|v: ValueModel, rest: Seq<u8>|
                (valid_value(v) && value_boundary_ok(v, rest) && bytes@.skip(start as int)
                    == #[trigger] (json_of_value(v) + rest)) implies false by {
                lemma_json_of_value_first(v);
                assert(bytes@.skip(start as int)[0] == json_of_value(v)[0]);
            }
        }
        None
    }
}

/// Reads an expected run of bytes starting at `start`.
fn expect_bytes(bytes: &Vec<u8>, start: usize, pat: &Vec<u8>) -> (r: Option<usize>)
    requires
        start <= bytes@.len(),
    ensures
        r matches Some(p) ==> p <= bytes@.len() && p == start + pat@.len(),
        forall|rest: Seq<u8>|
            bytes@.skip(start as int) == #[trigger] (pat@ + rest) ==> (r matches Some(p)
                && bytes@.skip(p as int) == rest),
{
    let len: usize = bytes.len();
    if len - start < pat.len() {
        proof {
            assert forall|rest: Seq<u8>|
                bytes@.skip(start as int) == #[trigger] (pat@ + rest) implies false by {
                assert(bytes@.skip(start as int).len() == len - start);
            }
        }
        return None;
    }
    let mut i: usize = 0;
    while i < pat.len()
        invariant
            i <= pat@.len(),
            start + pat@.len() <= len,
            len == bytes@.len(),
            forall|j: int| 0 <= j < i ==> bytes@[start + j] == #[trigger] pat@[j],
        decreases pat@.len() - i,
    {
        if bytes[start + i] != pat[i] {
            proof {
                assert forall|rest: Seq<u8>|
                    bytes@.skip(start as int) == #[trigger] (pat@ + rest) implies false by {
                    assert(bytes@.skip(start as int)[i as int] == bytes@[start + i]);
                    assert((pat@ + rest)[i as int] == pat@[i as int]);
                }
            }
            return None;
        }
        i = i + 1;
    }
    proof {
        assert forall|rest: Seq<u8>|
            bytes@.skip(start as int) == #[trigger] (pat@ + rest) implies bytes@.skip(
            (start + pat@.len()) as int,
        ) == rest by {
            let p = start + pat@.len();
            assert(bytes@.skip(start as int).len() == len - start);
            assert forall|j: int| 0 <= j < rest.len() implies bytes@.skip(p as int)[j]
                == rest[j] by {
                assert(bytes@.skip(p as int)[j] == bytes@[p + j]);
                assert(bytes@.skip(start as int)[pat@.len() + j] == bytes@[p + j]);
            }
            assert(bytes@.skip(p as int) =~= rest);
        }
    }
    Some(start + pat.len())
}

/// The fixed bytes that open a record object, up to the sequence value.
fn record_open_pat() -> (r: Vec<u8>)
    ensures
        r@ == seq![123u8, 34u8] + chars_to_bytes("sequence"@) + seq![34u8, 58u8],
{
    proof {
        reveal_strlit("sequence");
    }
    let mut pat: Vec<u8> = Vec::new();
    pat.push(123);
    pat.push(34);
    pat.push(115);
    pat.push(101);
    pat.push(113);
    pat.push(117);
    pat.push(101);
    pat.push(110);
    pat.push(99);
    pat.push(101);
    pat.push(34);
    pat.push(58);
    proof {
        assert(pat@ =~= seq![123u8, 34u8] + chars_to_bytes("sequence"@) + seq![34u8, 58u8]);
    }
    pat
}

/// The fixed bytes between the sequence value and the timestamp value.
fn record_mid_pat() -> (r: Vec<u8>)
    ensures
        r@ == seq![44u8, 34u8] + chars_to_bytes("timestamp"@) + seq![34u8, 58u8],
{
    proof {
        reveal_strlit("timestamp");
    }
    let mut pat: Vec<u8> = Vec::new();
    pat.push(44);
    pat.push(34);
    pat.push(116);
    pat.push(105);
    pat.push(109);
    pat.push(101);
    pat.push(115);
    pat.push(116);
    pat.push(97);
    pat.push(109);
    pat.push(112);
    pat.push(34);
    pat.push(58);
    proof {
        assert(pat@ =~= seq![44u8, 34u8] + chars_to_bytes("timestamp"@) + seq![34u8, 58u8]);
    }
    pat
}

/// A nonempty document rendering begins with the comma of its first field.
proof fn lemma_json_of_fields_first(fs: Seq<(Seq<char>, ValueModel)>)
    ensures
        fs.len() == 0 ==> json_of_fields(fs).len() == 0,
        fs.len() > 0 ==> json_of_fields(fs).len() >= 1 && json_of_fields(fs)[0] == 44,
{
}

/// Peeling the first field off a document rendering.
proof fn lemma_json_of_fields_step(fs: Seq<(Seq<char>, ValueModel)>, k: int)
    requires
        0 <= k < fs.len(),
    ensures
        json_of_fields(fs.skip(k)) == seq![44u8, 34u8] + chars_to_bytes(fs[k].0) + seq![
            34u8,
            58u8,
        ] + json_of_value(fs[k].1) + json_of_fields(fs.skip(k + 1)),
{
    assert(fs.skip(k)[0] == fs[k]);
    assert(fs.skip(k).drop_first() =~= fs.skip(k + 1));
    assert(json_of_fields(fs.skip(k)) == json_of_field(fs[k].0, fs[k].1) + json_of_fields(
        fs.skip(k + 1),
    ));
    assert(json_of_field(fs[k].0, fs[k].1) + json_of_fields(fs.skip(k + 1)) =~= seq![44u8, 34u8]
        + chars_to_bytes(fs[k].0) + seq![34u8, 58u8] + json_of_value(fs[k].1) + json_of_fields(
        fs.skip(k + 1),
    ));
}

/// The canonical rendering of a record, seen from its `m`-th member on:
/// member 0 is the sequence, member 1 the timestamp, member `m >= 2` the
/// payload field `m - 2`.  The leading separator of a member is included
/// from the payload fields on, exactly as `json_of_fields` renders it.
pub open spec fn record_tail_at(rm: RecordModel, m: int, rest: Seq<u8>) -> Seq<u8> {
    if m == 0 {
        seq![34u8] + chars_to_bytes("sequence"@) + seq![34u8, 58u8] + dec_bytes(rm.sequence as nat)
            + seq![44u8, 34u8] + chars_to_bytes("timestamp"@) + seq![34u8, 58u8] + dec_bytes(
            rm.timestamp as nat,
        ) + json_of_fields(rm.fields) + seq![125u8] + rest
    } else if m == 1 {
        seq![44u8, 34u8] + chars_to_bytes("timestamp"@) + seq![34u8, 58u8] + dec_bytes(
            rm.timestamp as nat,
        ) + json_of_fields(rm.fields) + seq![125u8] + rest
    } else {
        json_of_fields(rm.fields.skip(m - 2)) + seq![125u8] + rest
    }
}

/// The key of the `m`-th member of a record's canonical rendering.
pub open spec fn member_key(rm: RecordModel, m: int) -> Seq<char> {
    if m == 0 {
        "sequence"@
    } else if m == 1 {
        "timestamp"@
    } else {
        rm.fields[m - 2].0
    }
}

/// How the canonical rendering presents its `m`-th member: the quoted key,
/// a colon and the value, with a separating comma from the second member on.
proof fn lemma_member_shape(rm: RecordModel, rest: Seq<u8>, m: int)
    requires
        valid_record(rm),
        0 <= m < rm.fields.len() + 2,
    ensures
        json_safe_str(member_key(rm, m)),
        m == 0 ==> record_tail_at(rm, 0, rest) == (seq![34u8] + chars_to_bytes(member_key(rm, 0))
            + seq![34u8]) + (seq![58u8] + record_value_tail(rm, 0, rest)),
        m >= 1 ==> record_tail_at(rm, m, rest).len() >= 1 && record_tail_at(rm, m, rest)[0] == 44
            && record_tail_at(rm, m, rest).skip(1) == (seq![34u8] + chars_to_bytes(
            member_key(rm, m),
        ) + seq![34u8]) + (seq![58u8] + record_value_tail(rm, m, rest)),
{
    reveal_strlit("sequence");
    reveal_strlit("timestamp");
    assert(json_safe_str("sequence"@));
    assert(json_safe_str("timestamp"@));
    if m == 0 {
        assert(record_tail_at(rm, 0, rest) =~= (seq![34u8] + chars_to_bytes(member_key(rm, 0))
            + seq![34u8]) + (seq![58u8] + record_value_tail(rm, 0, rest)));
    } else if m == 1 {
        let x1 = (seq![34u8] + chars_to_bytes("timestamp"@) + seq![34u8]) + (seq![58u8]
            + record_value_tail(rm, 1, rest));
        assert(rm.fields.skip(0) =~= rm.fields);
        assert(record_tail_at(rm, 2, rest) =~= json_of_fields(rm.fields) + seq![125u8] + rest);
        assert(record_tail_at(rm, 1, rest) =~= seq![44u8] + x1);
        assert((seq![44u8] + x1).skip(1) =~= x1);
    } else {
        let k = m - 2;
        assert(0 <= k < rm.fields.len());
        assert(valid_fields(rm.fields));
        assert(valid_key(rm.fields[k].0));
        assert(valid_value(rm.fields[k].1));
        lemma_json_of_fields_step(rm.fields, k);
        let xk = (seq![34u8] + chars_to_bytes(rm.fields[k].0) + seq![34u8]) + (seq![58u8]
            + record_value_tail(rm, m, rest));
        assert(record_tail_at(rm, m, rest) =~= seq![44u8] + xk);
        assert((seq![44u8] + xk).skip(1) =~= xk);
    }
}

/// What follows the colon of the `m`-th member, and that it cannot extend
/// a numeric value.
proof fn lemma_value_shape(rm: RecordModel, rest: Seq<u8>, m: int)
    requires
        valid_record(rm),
        0 <= m < rm.fields.len() + 2,
    ensures
        m == 0 ==> record_value_tail(rm, 0, rest) == dec_bytes(rm.sequence as nat)
            + record_tail_at(rm, 1, rest) && record_tail_at(rm, 1, rest).len() >= 1
            && !is_digit_byte(record_tail_at(rm, 1, rest)[0]),
        m == 1 ==> record_value_tail(rm, 1, rest) == dec_bytes(rm.timestamp as nat)
            + record_tail_at(rm, 2, rest) && record_tail_at(rm, 2, rest).len() >= 1
            && !is_digit_byte(record_tail_at(rm, 2, rest)[0]),
        m >= 2 ==> valid_value(rm.fields[m - 2].1) && record_value_tail(rm, m, rest)
            == json_of_value(rm.fields[m - 2].1) + record_tail_at(rm, m + 1, rest)
            && value_boundary_ok(rm.fields[m - 2].1, record_tail_at(rm, m + 1, rest)),
{
    if m == 0 {
        assert(record_tail_at(rm, 1, rest)[0] == 44);
    } else if m == 1 {
        assert(rm.fields.skip(0) =~= rm.fields);
        lemma_json_of_fields_first(rm.fields);
        if rm.fields.len() > 0 {
            assert(record_tail_at(rm, 2, rest)[0] == 44);
        } else {
            assert(record_tail_at(rm, 2, rest)[0] == 125);
        }
    } else {
        let k = m - 2;
        assert(0 <= k < rm.fields.len());
        assert(valid_fields(rm.fields));
        assert(valid_key(rm.fields[k].0));
        assert(valid_value(rm.fields[k].1));
        lemma_json_of_fields_first(rm.fields.skip(k + 1));
        if rm.fields.skip(k + 1).len() > 0 {
            assert(record_tail_at(rm, m + 1, rest)[0] == 44);
        } else {
            assert(record_tail_at(rm, m + 1, rest)[0] == 125);
        }
    }
}

/// The fixed member keys name their own positions: no payload key may
/// repeat them, and they differ from each other.
proof fn lemma_member_key_position(rm: RecordModel, m: int)
    requires
        valid_record(rm),
        0 <= m < rm.fields.len() + 2,
    ensures
        member_key(rm, m) == "sequence"@ ==> m == 0,
        member_key(rm, m) == "timestamp"@ ==> m == 1,
{
    reveal_strlit("sequence");
    reveal_strlit("timestamp");
    assert("sequence"@.len() == 8 && "timestamp"@.len() == 9);
    if m >= 2 {
        assert(valid_key(rm.fields[m - 2].0));
    }
}

/// Reads one record object starting at `start`.  The two fixed fields and
/// the payload fields are accepted in any member order, a missing fixed
/// field reading as zero; what the renderer wrote reads back exactly.
#[verifier::rlimit(100)]
fn parse_record(bytes: &Vec<u8>, start: usize) -> (r: Option<(Payload, usize)>)
    requires
        start <= bytes@.len(),
    ensures
        r matches Some(p) ==> start < p.1 <= bytes@.len(),
        forall|rm: RecordModel, rest: Seq<u8>|
            (valid_record(rm) && bytes@.skip(start as int) == #[trigger] (json_of_record(rm)
                + rest)) ==> (r matches Some(p) && p.0.model() == rm && bytes@.skip(p.1 as int)
                == rest),
{
    let len: usize = bytes.len();
    if start == len || bytes[start] != 123 {
        proof {
            assert forall|rm: RecordModel, rest: Seq<u8>|
                (valid_record(rm) && bytes@.skip(start as int) == #[trigger] (json_of_record(rm)
                    + rest)) implies false by {
                assert(bytes@.skip(start as int).len() == len - start);
                assert(bytes@.skip(start as int)[0] == bytes@[start as int]);
                assert((json_of_record(rm) + rest)[0] == 123);
            }
        }
        return None;
    }
    let mut pos: usize = start + 1;
    let mut seq_val: u32 = 0;
    let mut ts_val: u64 = 0;
    let mut seq_seen: bool = false;
    let mut ts_seen: bool = false;
    let mut collected: Vec<(String, FieldValue)> = Vec::new();
    let sequence_key: String = String::from_str("sequence");
    let timestamp_key: String = String::from_str("timestamp");
    let mut first: bool = true;
    proof {
        reveal_strlit("sequence");
        reveal_strlit("timestamp");
        assert forall|rm: RecordModel, rest: Seq<u8>|
            (valid_record(rm) && bytes@.skip(start as int) == #[trigger] (json_of_record(rm)
                + rest)) implies bytes@.skip(pos as int) == record_tail_at(rm, 0, rest) by {
            let after = record_tail_at(rm, 0, rest);
            assert(bytes@.skip(start as int) =~= seq![123u8] + after);
            assert(bytes@.skip(start as int).len() == len - start);
            assert forall|i: int| 0 <= i < after.len() implies bytes@.skip(pos as int)[i]
                == after[i] by {
                assert(bytes@.skip(pos as int)[i] == bytes@[pos + i]);
                assert(bytes@.skip(start as int)[1 + i] == bytes@[pos + i]);
            }
            assert(bytes@.skip(pos as int).len() == after.len());
            assert(bytes@.skip(pos as int) =~= after);
        }
    }
    loop
        invariant
            start < pos <= len,
            len == bytes@.len(),
            sequence_key@ == "sequence"@,
            timestamp_key@ == "timestamp"@,
            first ==> !seq_seen && !ts_seen && collected@.len() == 0,
            forall|rm: RecordModel, rest: Seq<u8>|
                (valid_record(rm) && bytes@.skip(start as int) == #[trigger] (json_of_record(rm)
                    + rest)) ==> ({
                    let m = if !seq_seen {
                        0int
                    } else if !ts_seen {
                        1int
                    } else {
                        collected@.len() as int + 2
                    };
                    &&& m <= rm.fields.len() + 2
                    &&& bytes@.skip(pos as int) == record_tail_at(rm, m, rest)
                    &&& (seq_seen ==> seq_val == rm.sequence)
                    &&& (ts_seen ==> ts_val == rm.timestamp)
                    &&& (!seq_seen ==> !ts_seen && collected@.len() == 0)
                    &&& (!ts_seen ==> collected@.len() == 0)
                    &&& fields_model(collected@) == rm.fields.take(collected@.len() as int)
                    &&& (!first ==> seq_seen)
                }),
        decreases len - pos,
    {
        let ghost seq_seen0 = seq_seen;
        let ghost ts_seen0 = ts_seen;
        let ghost collected0 = collected@;
        let ghost pos0 = pos as int;
        if !first {
            if pos == len {
                proof {
                    assert forall|rm: RecordModel, rest: Seq<u8>|
                        (valid_record(rm) && bytes@.skip(start as int) == #[trigger] (
                        json_of_record(rm) + rest)) implies false by {
                        assert(bytes@.skip(pos as int).len() == len - pos);
                        let m = if !seq_seen {
                            0int
                        } else if !ts_seen {
                            1int
                        } else {
                            collected@.len() as int + 2
                        };
                        if m >= 2 {
                            lemma_json_of_fields_first(rm.fields.skip(m - 2));
                        }
                    }
                }
                return None;
            }
            let b: u8 = bytes[pos];
            proof {
                assert(bytes@.skip(pos as int)[0] == bytes@[pos as int]);
            }
            if b == 125 {
                if !(seq_seen && ts_seen) {
                    proof {
                        assert forall|rm: RecordModel, rest: Seq<u8>|
                            (valid_record(rm) && bytes@.skip(start as int) == #[trigger] (
                            json_of_record(rm) + rest)) implies false by {
                            let m = if !seq_seen {
                                0int
                            } else if !ts_seen {
                                1int
                            } else {
                                collected@.len() as int + 2
                            };
                            assert(m <= 1);
                            assert(bytes@.skip(pos as int)[0] == record_tail_at(rm, m, rest)[0]);
                        }
                    }
                    return None;
                }
                let made = Payload {
                    stream: String::new(),
                    sequence: seq_val,
                    timestamp: ts_val,
                    payload: collected,
                };
                proof {
                    assert forall|rm: RecordModel, rest: Seq<u8>|
                        (valid_record(rm) && bytes@.skip(start as int) == #[trigger] (
                        json_of_record(rm) + rest)) implies (made.model() == rm && bytes@.skip(
                        pos + 1,
                    ) == rest) by {
                        let k = made.payload@.len() as int;
                        lemma_json_of_fields_first(rm.fields.skip(k));
                        if k < rm.fields.len() {
                            assert(bytes@.skip(pos as int)[0] == json_of_fields(
                                rm.fields.skip(k),
                            )[0]);
                        }
                        assert(k == rm.fields.len());
                        assert(rm.fields.take(k) =~= rm.fields);
                        assert(made.model().fields == rm.fields);
                        assert(made.model() == rm);
                        assert(bytes@.skip(pos as int).len() == len - pos);
                        assert forall|i: int| 0 <= i < rest.len() implies bytes@.skip(pos + 1)[i]
                            == rest[i] by {
                            assert(bytes@.skip(pos + 1)[i] == bytes@[pos + 1 + i]);
                            assert(bytes@.skip(pos as int)[1 + i] == bytes@[pos + 1 + i]);
                        }
                        assert(bytes@.skip(pos + 1) =~= rest);
                    }
                }
                return Some((made, pos + 1));
            }
            if b != 44 {
                proof {
                    assert forall|rm: RecordModel, rest: Seq<u8>|
                        (valid_record(rm) && bytes@.skip(start as int) == #[trigger] (
                        json_of_record(rm) + rest)) implies false by {
                        let m = if !seq_seen {
                            0int
                        } else if !ts_seen {
                            1int
                        } else {
                            collected@.len() as int + 2
                        };
                        if m >= 2 {
                            lemma_json_of_fields_first(rm.fields.skip(m - 2));
                            if m - 2 < rm.fields.len() {
                                assert(bytes@.skip(pos as int)[0] == json_of_fields(
                                    rm.fields.skip(m - 2),
                                )[0]);
                            } else {
                                assert(bytes@.skip(pos as int)[0] == 125);
                            }
                        } else {
                            assert(bytes@.skip(pos as int)[0] == record_tail_at(rm, m, rest)[0]);
                        }
                    }
                }
                return None;
            }
            pos = pos + 1;
            proof {
                assert forall|rm: RecordModel, rest: Seq<u8>|
                    (valid_record(rm) && bytes@.skip(start as int) == #[trigger] (
                    json_of_record(rm) + rest)) implies bytes@.skip(pos as int) == bytes@.skip(
                    pos0,
                ).skip(1) by {
                    assert(bytes@.skip(pos0).len() == len - pos0);
                    assert forall|i: int| 0 <= i < len - pos implies bytes@.skip(pos as int)[i]
                        == bytes@.skip(pos0).skip(1)[i] by {
                        assert(bytes@.skip(pos as int)[i] == bytes@[pos + i]);
                        assert(bytes@.skip(pos0).skip(1)[i] == bytes@.skip(pos0)[1 + i]);
                        assert(bytes@.skip(pos0)[1 + i] == bytes@[pos0 + 1 + i]);
                    }
                    assert(bytes@.skip(pos as int) =~= bytes@.skip(pos0).skip(1));
                }
            }
        }
        // One member: a quoted key, a colon, and its value.
        let ghost mid = pos as int;
        proof {
            assert forall|rm: RecordModel, rest: Seq<u8>|
                (valid_record(rm) && bytes@.skip(start as int) == #[trigger] (json_of_record(rm)
                    + rest)) implies ({
                let m = if !seq_seen0 {
                    0int
                } else if !ts_seen0 {
                    1int
                } else {
                    collected0.len() as int + 2
                };
                &&& json_safe_str(member_key(rm, m))
                &&& m < rm.fields.len() + 2
                &&& bytes@.skip(mid) == (seq![34u8] + chars_to_bytes(member_key(rm, m)) + seq![
                    34u8,
                ]) + (seq![58u8] + record_value_tail(rm, m, rest))
            }) by {
                let m = if !seq_seen0 {
                    0int
                } else if !ts_seen0 {
                    1int
                } else {
                    collected0.len() as int + 2
                };
                if m >= 2 && m - 2 >= rm.fields.len() {
                    lemma_json_of_fields_first(rm.fields.skip(m - 2));
                    assert(record_tail_at(rm, m, rest)[0] == 125);
                    assert(bytes@.skip(pos0)[0] == 125);
                }
                lemma_member_shape(rm, rest, m);
                if m == 0 {
                    assert(bytes@.skip(mid) == record_tail_at(rm, 0, rest));
                } else {
                    assert(bytes@.skip(mid) == record_tail_at(rm, m, rest).skip(1));
                }
            }
        }
        let key_parsed: Option<(String, usize)> = parse_string(bytes, pos);
        let (key, q1) = match key_parsed {
            Some(p) => p,
            None => {
                return None;
            },
        };
        if q1 == len || bytes[q1] != 58 {
            proof {
                assert forall|rm: RecordModel, rest: Seq<u8>|
                    (valid_record(rm) && bytes@.skip(start as int) == #[trigger] (
                    json_of_record(rm) + rest)) implies false by {
                    assert(bytes@.skip(q1 as int)[0] == 58);
                    assert(bytes@.skip(q1 as int)[0] == bytes@[q1 as int]);
                    assert(bytes@.skip(q1 as int).len() == len - q1);
                }
            }
            return None;
        }
        let q2: usize = q1 + 1;
        proof {
            assert forall|rm: RecordModel, rest: Seq<u8>|
                (valid_record(rm) && bytes@.skip(start as int) == #[trigger] (json_of_record(rm)
                    + rest)) implies ({
                let m = if !seq_seen0 {
                    0int
                } else if !ts_seen0 {
                    1int
                } else {
                    collected0.len() as int + 2
                };
                let key_spec = if m == 0 {
                    "sequence"@
                } else if m == 1 {
                    "timestamp"@
                } else {
                    rm.fields[m - 2].0
                };
                &&& key@ == key_spec
                &&& bytes@.skip(q2 as int) == record_value_tail(rm, m, rest)
            }) by {
                let after = bytes@.skip(q1 as int).skip(1);
                assert(bytes@.skip(q1 as int).len() == len - q1);
                assert forall|i: int| 0 <= i < len - q2 implies bytes@.skip(q2 as int)[i]
                    == after[i] by {
                    assert(bytes@.skip(q2 as int)[i] == bytes@[q2 + i]);
                    assert(after[i] == bytes@.skip(q1 as int)[1 + i]);
                    assert(bytes@.skip(q1 as int)[1 + i] == bytes@[q1 + 1 + i]);
                }
                assert(bytes@.skip(q2 as int) =~= after);
            }
        }
        if key == sequence_key {
            let parsed: Option<(u64, usize)> = parse_u64(bytes, q2);
            proof {
                assert forall|rm: RecordModel, rest: Seq<u8>|
                    (valid_record(rm) && bytes@.skip(start as int) == #[trigger] (
                    json_of_record(rm) + rest)) implies (!seq_seen0 && !ts_seen0 && collected0.len()
                    == 0 && (parsed matches Some(p) && p.0 == rm.sequence as u64 && bytes@.skip(
                    p.1 as int,
                ) == record_tail_at(rm, 1, rest))) by {
                    let m = if !seq_seen0 {
                        0int
                    } else if !ts_seen0 {
                        1int
                    } else {
                        collected0.len() as int + 2
                    };
                    lemma_member_key_position(rm, m);
                    assert(m == 0);
                    lemma_value_shape(rm, rest, 0);
                    assert(dec_bytes((rm.sequence as u64) as nat) == dec_bytes(
                        rm.sequence as nat,
                    ));
                }
            }
            let p = match parsed {
                Some(p) => p,
                None => {
                    return None;
                },
            };
            if p.0 > 0xffff_ffffu64 {
                proof {
                    assert forall|rm: RecordModel, rest: Seq<u8>|
                        (valid_record(rm) && bytes@.skip(start as int) == #[trigger] (
                        json_of_record(rm) + rest)) implies false by {
                        assert(p.0 == rm.sequence as u64);
                    }
                }
                return None;
            }
            seq_val = p.0 as u32;
            seq_seen = true;
            pos = p.1;
        } else if key == timestamp_key {
            let parsed: Option<(u64, usize)> = parse_u64(bytes, q2);
            proof {
                assert forall|rm: RecordModel, rest: Seq<u8>|
                    (valid_record(rm) && bytes@.skip(start as int) == #[trigger] (
                    json_of_record(rm) + rest)) implies (seq_seen0 && !ts_seen0 && collected0.len()
                    == 0 && (parsed matches Some(p) && p.0 == rm.timestamp && bytes@.skip(
                    p.1 as int,
                ) == record_tail_at(rm, 2, rest))) by {
                    let m = if !seq_seen0 {
                        0int
                    } else if !ts_seen0 {
                        1int
                    } else {
                        collected0.len() as int + 2
                    };
                    lemma_member_key_position(rm, m);
                    assert(m == 1);
                    lemma_value_shape(rm, rest, 1);
                }
            }
            let p = match parsed {
                Some(p) => p,
                None => {
                    return None;
                },
            };
            ts_val = p.0;
            ts_seen = true;
            pos = p.1;
        } else {
            let parsed: Option<(FieldValue, usize)> = parse_value(bytes, q2);
            proof {
                assert forall|rm: RecordModel, rest: Seq<u8>|
                    (valid_record(rm) && bytes@.skip(start as int) == #[trigger] (
                    json_of_record(rm) + rest)) implies (seq_seen0 && ts_seen0 && collected0.len()
                    + 2 < rm.fields.len() + 2 && (parsed matches Some(p) && value_model(p.0)
                    == rm.fields[collected0.len() as int].1 && key@
                    == rm.fields[collected0.len() as int].0 && bytes@.skip(p.1 as int)
                    == record_tail_at(rm, collected0.len() as int + 3, rest))) by {
                    let m = if !seq_seen0 {
                        0int
                    } else if !ts_seen0 {
                        1int
                    } else {
                        collected0.len() as int + 2
                    };
                    if m == 0 {
                        assert(key@ == "sequence"@);
                    }
                    if m == 1 {
                        assert(key@ == "timestamp"@);
                    }
                    assert(m >= 2);
                    lemma_value_shape(rm, rest, m);
                }
            }
            let p = match parsed {
                Some(p) => p,
                None => {
                    return None;
                },
            };
            collected.push((key, p.0));
            pos = p.1;
            proof {
                assert forall|rm: RecordModel, rest: Seq<u8>|
                    (valid_record(rm) && bytes@.skip(start as int) == #[trigger] (
                    json_of_record(rm) + rest)) implies fields_model(collected@)
                    == rm.fields.take(collected@.len() as int) by {
                    assert(fields_model(collected@) =~= rm.fields.take(collected0.len() as int + 1));
                }
            }
        }
        first = false;
    }
}

/// The canonical rendering from the value of the `m`-th member on.
pub open spec fn record_value_tail(rm: RecordModel, m: int, rest: Seq<u8>) -> Seq<u8> {
    if m == 0 {
        dec_bytes(rm.sequence as nat) + record_tail_at(rm, 1, rest)
    } else if m == 1 {
        dec_bytes(rm.timestamp as nat) + record_tail_at(rm, 2, rest)
    } else {
        json_of_value(rm.fields[m - 2].1) + record_tail_at(rm, m + 1, rest)
    }
}


/// A record rendering begins with the opening brace of its object.
proof fn lemma_json_of_record_first(rm: RecordModel)
    ensures
        json_of_record(rm).len() >= 1,
        json_of_record(rm)[0] == 123,
{
    assert(json_of_record(rm)[0] == 123);
}

/// Peeling the first comma-prefixed record off a batch-tail rendering.
proof fn lemma_json_records_rest_step(rs: Seq<RecordModel>, k: int)
    requires
        0 <= k < rs.len(),
    ensures
        json_records_rest(rs.skip(k)) == seq![44u8] + json_of_record(rs[k]) + json_records_rest(
            rs.skip(k + 1),
        ),
{
    assert(rs.skip(k)[0] == rs[k]);
    assert(rs.skip(k).drop_first() =~= rs.skip(k + 1));
}

/// A nonempty batch-tail rendering begins with a comma.
proof fn lemma_json_records_rest_first(rs: Seq<RecordModel>)
    ensures
        rs.len() == 0 ==> json_records_rest(rs).len() == 0,
        rs.len() > 0 ==> json_records_rest(rs).len() >= 1 && json_records_rest(rs)[0] == 44,
{
}

/// Reads a bracketed array of record objects starting at `start`.  Reads
/// back exactly what the renderer wrote for any representable batch.
#[verifier::rlimit(80)]
fn parse_records_array(bytes: &Vec<u8>, start: usize) -> (r: Option<(Vec<Payload>, usize)>)
    requires
        start <= bytes@.len(),
    ensures
        r matches Some(p) ==> start < p.1 <= bytes@.len(),
        forall|rs: Seq<RecordModel>, rest: Seq<u8>|
            (valid_records(rs) && bytes@.skip(start as int) == #[trigger] (json_of_records(rs)
                + rest)) ==> (r matches Some(p) && records_model(p.0@) == rs && bytes@.skip(
                p.1 as int,
            ) == rest),
{
    let len: usize = bytes.len();
    if start == len || bytes[start] != 91 {
        proof {
            assert forall|rs: Seq<RecordModel>, rest: Seq<u8>|
                (valid_records(rs) && bytes@.skip(start as int) == #[trigger] (json_of_records(rs)
                    + rest)) implies false by {
                assert(bytes@.skip(start as int).len() == len - start);
                assert(bytes@.skip(start as int)[0] == bytes@[start as int]);
                assert((json_of_records(rs) + rest)[0] == 91);
            }
        }
        return None;
    }
    let mut pos: usize = start + 1;
    proof {
        assert forall|rs: Seq<RecordModel>, rest: Seq<u8>|
            (valid_records(rs) && bytes@.skip(start as int) == #[trigger] (json_of_records(rs)
                + rest)) implies bytes@.skip(pos as int) == json_records_body(rs) + (seq![93u8]
            + rest) by {
            let after = json_records_body(rs) + (seq![93u8] + rest);
            assert(bytes@.skip(start as int) =~= seq![91u8] + after);
            assert(bytes@.skip(start as int).len() == len - start);
            assert forall|i: int| 0 <= i < after.len() implies bytes@.skip(pos as int)[i]
                == after[i] by {
                assert(bytes@.skip(pos as int)[i] == bytes@[pos + i]);
                assert(bytes@.skip(start as int)[1 + i] == bytes@[start + 1 + i]);
            }
            assert(bytes@.skip(pos as int) =~= after);
        }
    }
    let mut collected: Vec<Payload> = Vec::new();
    if pos < len && bytes[pos] == 93 {
        proof {
            assert(bytes@.skip(pos as int)[0] == bytes@[pos as int]);
            assert forall|rs: Seq<RecordModel>, rest: Seq<u8>|
                (valid_records(rs) && bytes@.skip(start as int) == #[trigger] (json_of_records(rs)
                    + rest)) implies (rs.len() == 0 && records_model(collected@) == rs
                && bytes@.skip(pos + 1) == rest) by {
                if rs.len() > 0 {
                    lemma_json_of_record_first(rs[0]);
                    assert(json_records_body(rs)[0] == 123);
                    assert(bytes@.skip(pos as int)[0] == 123);
                }
                assert(records_model(collected@) =~= rs);
                assert(bytes@.skip(pos as int).len() == len - pos);
                assert forall|i: int| 0 <= i < rest.len() implies bytes@.skip(pos + 1)[i]
                    == rest[i] by {
                    assert(bytes@.skip(pos + 1)[i] == bytes@[pos + 1 + i]);
                    assert(bytes@.skip(pos as int)[1 + i] == bytes@[pos + 1 + i]);
                }
                assert(bytes@.skip(pos + 1) =~= rest);
            }
        }
        return Some((collected, pos + 1));
    }
    proof {
        assert forall|rs: Seq<RecordModel>, rest: Seq<u8>|
            (valid_records(rs) && bytes@.skip(start as int) == #[trigger] (json_of_records(rs)
                + rest)) implies (rs.len() > 0 && valid_record(rs[0]) && bytes@.skip(pos as int)
            == json_of_record(rs[0]) + (json_records_rest(rs.skip(1)) + seq![93u8] + rest)) by {
            assert(bytes@.skip(pos as int).len() == len - pos);
            if rs.len() == 0 {
                assert(bytes@.skip(pos as int) == seq![93u8] + rest);
                assert(bytes@.skip(pos as int)[0] == 93);
                assert(bytes@.skip(pos as int)[0] == bytes@[pos as int]);
                assert(pos < len);
            }
            assert(rs.len() > 0);
            assert(rs.skip(1) =~= rs.drop_first());
            assert(bytes@.skip(pos as int) =~= json_of_record(rs[0]) + (json_records_rest(
                rs.skip(1),
            ) + seq![93u8] + rest));
        }
    }
    let first: Option<(Payload, usize)> = parse_record(bytes, pos);
    let (rec0, q0) = match first {
        Some(p) => p,
        None => {
            return None;
        },
    };
    collected.push(rec0);
    pos = q0;
    proof {
        assert forall|rs: Seq<RecordModel>, rest: Seq<u8>|
            (valid_records(rs) && bytes@.skip(start as int) == #[trigger] (json_of_records(rs)
                + rest)) implies (collected@.len() <= rs.len() && records_model(collected@)
            == rs.take(collected@.len() as int) && bytes@.skip(pos as int) == json_records_rest(
            rs.skip(collected@.len() as int),
        ) + seq![93u8] + rest) by {
            assert(rec0.model() == rs[0]);
            assert(records_model(collected@) =~= rs.take(1));
            assert(bytes@.skip(pos as int) == json_records_rest(rs.skip(1)) + seq![93u8] + rest);
        }
    }
    loop
        invariant
            start < pos <= len,
            len == bytes@.len(),
            collected@.len() >= 1,
            forall|rs: Seq<RecordModel>, rest: Seq<u8>|
                (valid_records(rs) && bytes@.skip(start as int) == #[trigger] (json_of_records(rs)
                    + rest)) ==> {
                    &&& collected@.len() <= rs.len()
                    &&& records_model(collected@) == rs.take(collected@.len() as int)
                    &&& bytes@.skip(pos as int) == json_records_rest(
                        rs.skip(collected@.len() as int),
                    ) + seq![93u8] + rest
                },
        decreases len - pos,
    {
        if pos == len {
            proof {
                assert forall|rs: Seq<RecordModel>, rest: Seq<u8>|
                    (valid_records(rs) && bytes@.skip(start as int) == #[trigger] (
                    json_of_records(rs) + rest)) implies false by {
                    assert(bytes@.skip(pos as int).len() == len - pos);
                    lemma_json_records_rest_first(rs.skip(collected@.len() as int));
                }
            }
            return None;
        }
        let b: u8 = bytes[pos];
        proof {
            assert(bytes@.skip(pos as int)[0] == bytes@[pos as int]);
        }
        if b == 93 {
            proof {
                assert forall|rs: Seq<RecordModel>, rest: Seq<u8>|
                    (valid_records(rs) && bytes@.skip(start as int) == #[trigger] (
                    json_of_records(rs) + rest)) implies (records_model(collected@) == rs
                    && bytes@.skip(pos + 1) == rest) by {
                    let k = collected@.len() as int;
                    lemma_json_records_rest_first(rs.skip(k));
                    if k < rs.len() {
                        assert(bytes@.skip(pos as int)[0] == 44);
                    }
                    assert(k == rs.len());
                    assert(rs.take(k) =~= rs);
                    assert(bytes@.skip(pos as int).len() == len - pos);
                    assert forall|i: int| 0 <= i < rest.len() implies bytes@.skip(pos + 1)[i]
                        == rest[i] by {
                        assert(bytes@.skip(pos + 1)[i] == bytes@[pos + 1 + i]);
                        assert(bytes@.skip(pos as int)[1 + i] == bytes@[pos + 1 + i]);
                    }
                    assert(bytes@.skip(pos + 1) =~= rest);
                }
            }
            return Some((collected, pos + 1));
        }
        if b != 44 {
            proof {
                assert forall|rs: Seq<RecordModel>, rest: Seq<u8>|
                    (valid_records(rs) && bytes@.skip(start as int) == #[trigger] (
                    json_of_records(rs) + rest)) implies false by {
                    let k = collected@.len() as int;
                    lemma_json_records_rest_first(rs.skip(k));
                    if k < rs.len() {
                        assert(bytes@.skip(pos as int)[0] == 44);
                    } else {
                        assert(bytes@.skip(pos as int)[0] == 93);
                    }
                }
            }
            return None;
        }
        let ghost k_snap = collected@.len() as int;
        proof {
            assert forall|rs: Seq<RecordModel>, rest: Seq<u8>|
                (valid_records(rs) && bytes@.skip(start as int) == #[trigger] (json_of_records(rs)
                    + rest)) implies (k_snap < rs.len() && valid_record(rs[k_snap])
                && bytes@.skip(pos + 1) == json_of_record(rs[k_snap]) + (json_records_rest(
                rs.skip(k_snap + 1),
            ) + seq![93u8] + rest)) by {
                let k = k_snap;
                lemma_json_records_rest_first(rs.skip(k));
                if k >= rs.len() {
                    assert(bytes@.skip(pos as int)[0] == 93);
                }
                assert(k < rs.len());
                lemma_json_records_rest_step(rs, k);
                let after = json_of_record(rs[k]) + (json_records_rest(rs.skip(k + 1)) + seq![
                    93u8,
                ] + rest);
                assert(bytes@.skip(pos as int) =~= seq![44u8] + after);
                assert(bytes@.skip(pos as int).len() == len - pos);
                assert forall|i: int| 0 <= i < after.len() implies bytes@.skip(pos + 1)[i]
                    == after[i] by {
                    assert(bytes@.skip(pos + 1)[i] == bytes@[pos + 1 + i]);
                    assert(bytes@.skip(pos as int)[1 + i] == bytes@[pos + 1 + i]);
                }
                assert(bytes@.skip(pos + 1) =~= after);
            }
        }
        let next: Option<(Payload, usize)> = parse_record(bytes, pos + 1);
        let (rec, q) = match next {
            Some(p) => p,
            None => {
                return None;
            },
        };
        collected.push(rec);
        pos = q;
        proof {
            assert forall|rs: Seq<RecordModel>, rest: Seq<u8>|
                (valid_records(rs) && bytes@.skip(start as int) == #[trigger] (json_of_records(rs)
                    + rest)) implies (collected@.len() <= rs.len() && records_model(collected@)
                == rs.take(collected@.len() as int) && bytes@.skip(pos as int)
                == json_records_rest(rs.skip(collected@.len() as int)) + seq![93u8] + rest) by {
                assert(rec.model() == rs[k_snap]);
                assert(collected@.len() == k_snap + 1);
                assert(records_model(collected@) =~= rs.take(k_snap + 1));
            }
        }
    }
}

/// Reads a whole batch from the text wire format.  Reads back exactly what
/// the renderer wrote for any representable batch; the `stream` name, which
/// is not on the wire, comes back empty.
pub fn deserialize_records(bytes: &Vec<u8>) -> (r: Result<Vec<Payload>, Error>)
    ensures
        r matches Err(e) ==> e matches Error::Json(_),
        forall|rs: Seq<RecordModel>|
            (#[trigger] valid_records(rs) && bytes@ == json_of_records(rs)) ==> (r matches Ok(v)
                && records_model(v@) == rs),
{
    proof {
        assert forall|rs: Seq<RecordModel>|
            (#[trigger] valid_records(rs) && bytes@ == json_of_records(rs)) implies bytes@.skip(0)
            == json_of_records(rs) + Seq::<u8>::empty() by {
            assert(bytes@.skip(0) =~= bytes@);
            assert(json_of_records(rs) + Seq::<u8>::empty() =~= json_of_records(rs));
        }
    }
    let parsed: Option<(Vec<Payload>, usize)> = parse_records_array(bytes, 0);
    match parsed {
        Some(p) => {
            if p.1 == bytes.len() {
                proof {
                    assert forall|rs: Seq<RecordModel>|
                        (#[trigger] valid_records(rs) && bytes@ == json_of_records(rs)) implies
                        records_model(p.0@) == rs by {
                        assert(bytes@.skip(0) == json_of_records(rs) + Seq::<u8>::empty());
                    }
                }
                Ok(p.0)
            } else {
                proof {
                    assert forall|rs: Seq<RecordModel>|
                        (#[trigger] valid_records(rs) && bytes@ == json_of_records(rs)) implies
                        false by {
                        assert(bytes@.skip(0) == json_of_records(rs) + Seq::<u8>::empty());
                        assert(bytes@.skip(p.1 as int) == Seq::<u8>::empty());
                        assert(bytes@.skip(p.1 as int).len() == bytes@.len() - p.1);
                    }
                }
                Err(Error::Json(String::from_str("trailing bytes after the batch rendering")))
            }
        },
        None => {
            proof {
                assert forall|rs: Seq<RecordModel>|
                    (#[trigger] valid_records(rs) && bytes@ == json_of_records(rs)) implies
                    false by {
                    assert(bytes@.skip(0) == json_of_records(rs) + Seq::<u8>::empty());
                }
            }
            Err(Error::Json(String::from_str("not a batch rendering")))
        },
    }
}

/// The fixed bytes that open the wrapped form of a batch rendering.
fn wrapped_open_pat() -> (r: Vec<u8>)
    ensures
        r@ == seq![123u8, 34u8] + chars_to_bytes("messages"@) + seq![34u8, 58u8],
{
    proof {
        reveal_strlit("messages");
    }
    let mut pat: Vec<u8> = Vec::new();
    pat.push(123);
    pat.push(34);
    pat.push(109);
    pat.push(101);
    pat.push(115);
    pat.push(115);
    pat.push(97);
    pat.push(103);
    pat.push(101);
    pat.push(115);
    pat.push(34);
    pat.push(58);
    proof {
        assert(pat@ =~= seq![123u8, 34u8] + chars_to_bytes("messages"@) + seq![34u8, 58u8]);
    }
    pat
}

/// Reads a whole batch from the wrapped form of the text wire format.
pub fn deserialize_records_wrapped(bytes: &Vec<u8>) -> (r: Result<Vec<Payload>, Error>)
    ensures
        r matches Err(e) ==> e matches Error::Json(_),
        forall|rs: Seq<RecordModel>|
            (#[trigger] valid_records(rs) && bytes@ == json_of_records_wrapped(rs)) ==> (r matches
                Ok(v) && records_model(v@) == rs),
{
    let len: usize = bytes.len();
    let open_pat: Vec<u8> = wrapped_open_pat();
    proof {
        assert forall|rs: Seq<RecordModel>|
            (#[trigger] valid_records(rs) && bytes@ == json_of_records_wrapped(rs)) implies
            bytes@.skip(0) == open_pat@ + (json_of_records(rs) + seq![125u8]) by {
            assert(bytes@.skip(0) =~= bytes@);
            assert(json_of_records_wrapped(rs) =~= open_pat@ + (json_of_records(rs) + seq![
                125u8,
            ]));
        }
    }
    let p1: Option<usize> = expect_bytes(bytes, 0, &open_pat);
    let q1: usize = match p1 {
        Some(q) => q,
        None => {
            return Err(Error::Json(String::from_str("not a wrapped batch rendering")));
        },
    };
    let parsed: Option<(Vec<Payload>, usize)> = parse_records_array(bytes, q1);
    proof {
        assert forall|rs: Seq<RecordModel>|
            (#[trigger] valid_records(rs) && bytes@ == json_of_records_wrapped(rs)) implies
            bytes@.skip(q1 as int) == json_of_records(rs) + seq![125u8] by {
            assert(bytes@.skip(0) == open_pat@ + (json_of_records(rs) + seq![125u8]));
        }
    }
    let p2: (Vec<Payload>, usize) = match parsed {
        Some(p) => p,
        None => {
            return Err(Error::Json(String::from_str("not a wrapped batch rendering")));
        },
    };
    if !(p2.1 < len && p2.1 + 1 == len && bytes[p2.1] == 125) {
        proof {
            assert forall|rs: Seq<RecordModel>|
                (#[trigger] valid_records(rs) && bytes@ == json_of_records_wrapped(rs)) implies
                false by {
                assert(bytes@.skip(p2.1 as int) == seq![125u8]);
                assert(bytes@.skip(p2.1 as int).len() == len - p2.1);
                assert(bytes@.skip(p2.1 as int)[0] == bytes@[p2.1 as int]);
            }
        }
        return Err(Error::Json(String::from_str("not a wrapped batch rendering")));
    }
    proof {
        assert forall|rs: Seq<RecordModel>|
            (#[trigger] valid_records(rs) && bytes@ == json_of_records_wrapped(rs)) implies
            records_model(p2.0@) == rs by {
            assert(bytes@.skip(q1 as int) == json_of_records(rs) + seq![125u8]);
        }
    }
    Ok(p2.0)
}

/// Serializes a batch as the text wire format: succeeds exactly on the
/// representable batches and yields their unique rendering.
pub fn serialize_records(payload: &Vec<Payload>) -> (r: Result<Vec<u8>, Error>)
    ensures
        valid_records(records_model(payload@)) ==> (r matches Ok(v) && v@ == json_of_records(
            records_model(payload@),
        )),
        !valid_records(records_model(payload@)) ==> r is Err,
{
    if !check_records(payload) {
        return Err(Error::Json(String::from_str("document not representable in the text format")));
    }
    Ok(encode_records(payload))
}

/// Serializes a batch as the text format wrapped in a single-key object,
/// for codecs that need a document at the top level.
pub fn serialize_records_wrapped(payload: &Vec<Payload>) -> (r: Result<Vec<u8>, Error>)
    ensures
        valid_records(records_model(payload@)) ==> (r matches Ok(v) && v@
            == json_of_records_wrapped(records_model(payload@))),
        !valid_records(records_model(payload@)) ==> r is Err,
{
    if !check_records(payload) {
        return Err(Error::Json(String::from_str("document not representable in the text format")));
    }
    proof {
        reveal_strlit("messages");
        assert(vstd::string::is_ascii("messages"));
    }
    let mut out: Vec<u8> = Vec::new();
    out.push(123);
    out.push(34);
    append_ascii(&mut out, "messages");
    out.push(34);
    out.push(58);
    let body: Vec<u8> = encode_records(payload);
    out.extend_from_slice(body.as_slice());
    out.push(125);
    proof {
        assert(out@ =~= json_of_records_wrapped(records_model(payload@)));
    }
    Ok(out)
}

} // verus!
