//! The static binary-schema codec.
//!
//! The schema registry fixes one message layout per topic.  Two layouts are
//! carried here, the ones free of floating-point fields.  `test.canList`
//! is the all-integer one: a list of messages `{ timestamp (field 1,
//! varint), sequence (field 2, zigzag varint), data (field 3, varint) }`.
//! `test.peripheralsList` holds nine peripheral status strings (fields 1
//! to 9, length-delimited) and the same sequence (field 10) and timestamp
//! (field 11).  Each list element is length-delimited under field 1 of the
//! list message; every field is written, defaults included, so each batch
//! has exactly one wire form, and any reader of the layout decodes it.
//! Topics whose layouts carry floating-point fields are out of this
//! codec's reach.

use vstd::prelude::*;

use crate::base::{fields_model, records_model, FieldValue, Payload, RecordModel, ValueModel};
use crate::serialization::text::{
    append_ascii, chars_to_bytes, check_json_safe, json_safe_str, lemma_chars_to_bytes_safe,
    string_from_ascii,
};
use crate::serialization::Error;
use vstd::string::StrSliceExecFns;
use vstd::string::StringExecFns;

verus! {

/// The base-128 little-endian varint encoding.
pub open spec fn varint(x: nat) -> Seq<u8>
    decreases x,
{
    if x < 128 {
        seq![x as u8]
    } else {
        seq![(128 + x % 128) as u8] + varint(x / 128)
    }
}

/// The zigzag mapping of a signed 32-bit value, as the schema compiler
/// encodes `sint32`.
pub open spec fn zigzag32(n: i32) -> nat {
    if n >= 0 {
        (2 * n) as nat
    } else {
        (-2 * (n as int) - 1) as nat
    }
}

/// Whether a record fits the all-integer layout: exactly one payload field,
/// `data`, holding an unsigned integer.
pub open spec fn can_record_ok(rm: RecordModel) -> bool {
    &&& rm.fields.len() == 1
    &&& rm.fields[0].0 == "data"@
    &&& rm.fields[0].1 matches ValueModel::U64(_)
}

pub open spec fn can_records_ok(rs: Seq<RecordModel>) -> bool {
    forall|i: int| 0 <= i < rs.len() ==> can_record_ok(#[trigger] rs[i])
}

/// The `data` value of a record in the all-integer layout.
pub open spec fn can_data(rm: RecordModel) -> u64 {
    rm.fields[0].1->U64_0
}

/// The wire bytes of one list element's message body.
pub open spec fn can_body(rm: RecordModel) -> Seq<u8> {
    seq![8u8] + varint(rm.timestamp as nat) + seq![16u8] + varint(zigzag32(rm.sequence as i32))
        + seq![24u8] + varint(can_data(rm) as nat)
}

/// The wire bytes of a whole batch: each element length-delimited under
/// field 1 of the list message.
pub open spec fn can_wire(rs: Seq<RecordModel>) -> Seq<u8>
    decreases rs.len(),
{
    if rs.len() == 0 {
        Seq::<u8>::empty()
    } else {
        seq![10u8] + varint(can_body(rs[0]).len()) + can_body(rs[0]) + can_wire(rs.drop_first())
    }
}

/// Appending a record to a batch appends its delimited element.
proof fn lemma_can_wire_snoc(rs: Seq<RecordModel>, rm: RecordModel)
    ensures
        can_wire(rs.push(rm)) == can_wire(rs) + (seq![10u8] + varint(can_body(rm).len())
            + can_body(rm)),
    decreases rs.len(),
{
    if rs.len() == 0 {
        assert(rs.push(rm)[0] == rm);
        assert(rs.push(rm).drop_first() =~= Seq::<RecordModel>::empty());
        assert(can_wire(Seq::<RecordModel>::empty()) == Seq::<u8>::empty());
        assert(can_wire(rs.push(rm)) == seq![10u8] + varint(can_body(rm).len()) + can_body(rm)
            + can_wire(Seq::<RecordModel>::empty()));
        assert(can_wire(rs.push(rm)) =~= can_wire(rs) + (seq![10u8] + varint(can_body(rm).len())
            + can_body(rm)));
    } else {
        assert(rs.push(rm)[0] == rs[0]);
        assert(rs.push(rm).drop_first() =~= rs.drop_first().push(rm));
        lemma_can_wire_snoc(rs.drop_first(), rm);
        assert(can_wire(rs.push(rm)) =~= can_wire(rs) + (seq![10u8] + varint(can_body(rm).len())
            + can_body(rm)));
    }
}

/// Peeling the first delimited element off a batch-tail encoding.
proof fn lemma_can_wire_step(rs: Seq<RecordModel>, k: int)
    requires
        0 <= k < rs.len(),
    ensures
        can_wire(rs.skip(k)) == seq![10u8] + varint(can_body(rs[k]).len()) + can_body(rs[k])
            + can_wire(rs.skip(k + 1)),
{
    assert(rs.skip(k)[0] == rs[k]);
    assert(rs.skip(k).drop_first() =~= rs.skip(k + 1));
}

/// The fixed key names of the peripheral-status layout, in field order.
pub open spec fn peri_field_names() -> Seq<Seq<char>> {
    seq![
        "gps"@,
        "gsm"@,
        "imu"@,
        "left_indicator"@,
        "right_indicator"@,
        "headlamp"@,
        "horn"@,
        "left_brake"@,
        "right_brake"@,
    ]
}

/// The string carried by the `i`-th payload field.
pub open spec fn peri_str(rm: RecordModel, i: int) -> Seq<char> {
    rm.fields[i].1->Str_0
}

/// Whether a record fits the peripheral-status layout: exactly the nine
/// named string fields, in field order, each renderable and shorter than
/// 2^32 characters.
pub open spec fn peri_record_ok(rm: RecordModel) -> bool {
    &&& rm.fields.len() == 9
    &&& forall|i: int|
        0 <= i < 9 ==> {
            &&& (#[trigger] rm.fields[i]).0 == peri_field_names()[i]
            &&& rm.fields[i].1 matches ValueModel::Str(_)
            &&& json_safe_str(peri_str(rm, i))
            &&& peri_str(rm, i).len() <= 0xffff_ffff
        }
}

pub open spec fn peri_records_ok(rs: Seq<RecordModel>) -> bool {
    forall|i: int| 0 <= i < rs.len() ==> peri_record_ok(#[trigger] rs[i])
}

/// One length-delimited string field on the wire.
pub open spec fn string_field(tag: u8, s: Seq<char>) -> Seq<u8> {
    seq![tag] + varint(s.len()) + chars_to_bytes(s)
}

/// The wire bytes of the string fields from index `j` on; field `j` gets
/// tag `8 * (j + 1) + 2`.
pub open spec fn peri_fields_bytes(rm: RecordModel, j: int) -> Seq<u8>
    decreases 9 - j,
{
    if j < 0 || j >= 9 {
        Seq::<u8>::empty()
    } else {
        string_field((8 * j + 10) as u8, peri_str(rm, j)) + peri_fields_bytes(rm, j + 1)
    }
}

/// The wire bytes of one peripheral-status element's message body.
pub open spec fn peri_body(rm: RecordModel) -> Seq<u8> {
    peri_fields_bytes(rm, 0) + seq![80u8] + varint(zigzag32(rm.sequence as i32)) + seq![88u8]
        + varint(rm.timestamp as nat)
}

/// The wire bytes of a whole peripheral-status batch.
pub open spec fn peri_wire(rs: Seq<RecordModel>) -> Seq<u8>
    decreases rs.len(),
{
    if rs.len() == 0 {
        Seq::<u8>::empty()
    } else {
        seq![10u8] + varint(peri_body(rs[0]).len()) + peri_body(rs[0]) + peri_wire(rs.drop_first())
    }
}

/// The topics this codec carries, with their record conditions.
pub open spec fn proto_supported(t: Seq<char>, rs: Seq<RecordModel>) -> bool {
    ||| (t == "test.canList"@ && can_records_ok(rs))
    ||| (t == "test.peripheralsList"@ && peri_records_ok(rs))
}

/// The wire form for a topic: the peripheral-status layout under its name,
/// the all-integer layout otherwise.
pub open spec fn proto_wire_of(t: Seq<char>, rs: Seq<RecordModel>) -> Seq<u8> {
    if t == "test.peripheralsList"@ {
        peri_wire(rs)
    } else {
        can_wire(rs)
    }
}

/// Appending a record to a peripheral-status batch appends its delimited
/// element.
proof fn lemma_peri_wire_snoc(rs: Seq<RecordModel>, rm: RecordModel)
    ensures
        peri_wire(rs.push(rm)) == peri_wire(rs) + (seq![10u8] + varint(peri_body(rm).len())
            + peri_body(rm)),
    decreases rs.len(),
{
    if rs.len() == 0 {
        assert(rs.push(rm)[0] == rm);
        assert(rs.push(rm).drop_first() =~= Seq::<RecordModel>::empty());
        assert(peri_wire(Seq::<RecordModel>::empty()) == Seq::<u8>::empty());
        assert(peri_wire(rs.push(rm)) == seq![10u8] + varint(peri_body(rm).len()) + peri_body(rm)
            + peri_wire(Seq::<RecordModel>::empty()));
        assert(peri_wire(rs.push(rm)) =~= peri_wire(rs) + (seq![10u8] + varint(
            peri_body(rm).len(),
        ) + peri_body(rm)));
    } else {
        assert(rs.push(rm)[0] == rs[0]);
        assert(rs.push(rm).drop_first() =~= rs.drop_first().push(rm));
        lemma_peri_wire_snoc(rs.drop_first(), rm);
        assert(peri_wire(rs.push(rm)) =~= peri_wire(rs) + (seq![10u8] + varint(
            peri_body(rm).len(),
        ) + peri_body(rm)));
    }
}

/// Peeling the first delimited element off a peripheral-status batch tail.
proof fn lemma_peri_wire_step(rs: Seq<RecordModel>, k: int)
    requires
        0 <= k < rs.len(),
    ensures
        peri_wire(rs.skip(k)) == seq![10u8] + varint(peri_body(rs[k]).len()) + peri_body(rs[k])
            + peri_wire(rs.skip(k + 1)),
{
    assert(rs.skip(k)[0] == rs[k]);
    assert(rs.skip(k).drop_first() =~= rs.skip(k + 1));
}

/// The string fields of a conforming record stay far under 2^64 wire bytes.
proof fn lemma_peri_fields_bytes_len(rm: RecordModel, j: int)
    requires
        peri_record_ok(rm),
        0 <= j <= 9,
    ensures
        peri_fields_bytes(rm, j).len() <= (9 - j) * 0x1_0000_000b,
    decreases 9 - j,
{
    if j < 9 {
        lemma_varint_len10(peri_str(rm, j).len());
        lemma_peri_fields_bytes_len(rm, j + 1);
    }
}

/// A conforming element's body stays far under 2^64 wire bytes.
proof fn lemma_peri_body_len(rm: RecordModel)
    requires
        peri_record_ok(rm),
    ensures
        peri_body(rm).len() < 0x1_0000_0000_0000_0000,
{
    lemma_peri_fields_bytes_len(rm, 0);
    lemma_zigzag32_bound(rm.sequence as i32);
    lemma_varint_len10(zigzag32(rm.sequence as i32));
    lemma_varint_len10(rm.timestamp as nat);
}

/// A varint is nonempty, and a nonempty batch encoding opens with the
/// delimited-element tag.
proof fn lemma_varint_len(x: nat)
    ensures
        varint(x).len() >= 1,
        varint(x)[0] == (if x < 128 {
            x as u8
        } else {
            (128 + x % 128) as u8
        }),
{
}

/// Appends the varint encoding of `n`.
fn append_varint(out: &mut Vec<u8>, n: u64)
    ensures
        final(out)@ == old(out)@ + varint(n as nat),
    decreases n,
{
    if n < 128 {
        out.push(n as u8);
        proof {
            assert(final(out)@ =~= old(out)@ + varint(n as nat));
        }
    } else {
        let b: u8 = 128 + (n % 128) as u8;
        out.push(b);
        proof {
            assert(n / 128 < n) by (nonlinear_arith)
                requires
                    n >= 128,
            ;
        }
        append_varint(out, n / 128);
        proof {
            assert(final(out)@ =~= old(out)@ + varint(n as nat));
        }
    }
}

/// Reads one varint starting at `start`.  Reads back exactly what the
/// encoder wrote for any value.
fn parse_varint(bytes: &Vec<u8>, start: usize) -> (r: Option<(u64, usize)>)
    requires
        start <= bytes@.len(),
    ensures
        r matches Some(p) ==> start < p.1 <= bytes@.len(),
        forall|n: u64, rest: Seq<u8>|
            bytes@.skip(start as int) == #[trigger] (varint(n as nat) + rest) ==> (r matches Some(
                p,
            ) && p.0 == n && bytes@.skip(p.1 as int) == rest),
    decreases bytes@.len() - start,
{
    let len: usize = bytes.len();
    if start == len {
        proof {
            assert forall|n: u64, rest: Seq<u8>|
                bytes@.skip(start as int) == #[trigger] (varint(n as nat) + rest) implies false by {
                lemma_varint_len(n as nat);
                assert(bytes@.skip(start as int).len() == len - start);
            }
        }
        return None;
    }
    let b: u8 = bytes[start];
    proof {
        assert(bytes@.skip(start as int)[0] == bytes@[start as int]);
    }
    if b < 128 {
        proof {
            assert forall|n: u64, rest: Seq<u8>|
                bytes@.skip(start as int) == #[trigger] (varint(n as nat) + rest) implies (n
                == b as u64 && bytes@.skip(start + 1) == rest) by {
                lemma_varint_len(n as nat);
                assert(bytes@.skip(start as int)[0] == varint(n as nat)[0]);
                if n >= 128 {
                    assert(varint(n as nat)[0] == (128 + (n as nat) % 128) as u8);
                    assert((n as nat) % 128 < 128);
                    assert(varint(n as nat)[0] >= 128);
                }
                assert(n < 128);
                assert(varint(n as nat) =~= seq![n as u8]);
                assert(bytes@.skip(start as int).len() == len - start);
                assert forall|i: int| 0 <= i < rest.len() implies bytes@.skip(start + 1)[i]
                    == rest[i] by {
                    assert(bytes@.skip(start + 1)[i] == bytes@[start + 1 + i]);
                    assert(bytes@.skip(start as int)[1 + i] == bytes@[start + 1 + i]);
                }
                assert(bytes@.skip(start + 1) =~= rest);
            }
        }
        return Some((b as u64, start + 1));
    }
    let tail: Option<(u64, usize)> = parse_varint(bytes, start + 1);
    proof {
        assert forall|n: u64, rest: Seq<u8>|
            bytes@.skip(start as int) == #[trigger] (varint(n as nat) + rest) implies (n >= 128
            && b == (128 + (n as nat) % 128) as u8 && bytes@.skip(start + 1) == varint(
            (n / 128) as nat,
        ) + rest) by {
            lemma_varint_len(n as nat);
            assert(bytes@.skip(start as int)[0] == varint(n as nat)[0]);
            if (n as nat) < 128 {
                assert(varint(n as nat)[0] == n as u8);
                assert(varint(n as nat)[0] < 128);
            }
            assert(n >= 128);
            assert(varint(n as nat) == seq![(128 + (n as nat) % 128) as u8] + varint(
                (n as nat) / 128,
            ));
            assert((n as nat) / 128 == (n / 128) as nat);
            let vtail = varint((n / 128) as nat);
            assert(bytes@.skip(start as int) =~= seq![(128 + (n as nat) % 128) as u8] + (vtail
                + rest));
            assert(bytes@.skip(start as int).len() == len - start);
            assert forall|i: int| 0 <= i < vtail.len() + rest.len() implies bytes@.skip(
                start + 1,
            )[i] == (vtail + rest)[i] by {
                assert(bytes@.skip(start + 1)[i] == bytes@[start + 1 + i]);
                assert(bytes@.skip(start as int)[1 + i] == bytes@[start + 1 + i]);
                assert((seq![(128 + (n as nat) % 128) as u8] + (vtail + rest))[1 + i] == (vtail
                    + rest)[i]);
            }
            assert(bytes@.skip(start + 1).len() == vtail.len() + rest.len());
            assert(bytes@.skip(start + 1) =~= vtail + rest);
        }
    }
    match tail {
        Some(p) => {
            let scaled: Option<u64> = p.0.checked_mul(128);
            let combined: Option<u64> = match scaled {
                Some(x) => x.checked_add((b - 128) as u64),
                None => None,
            };
            match combined {
                Some(value) => {
                    proof {
                        assert forall|n: u64, rest: Seq<u8>|
                            bytes@.skip(start as int) == #[trigger] (varint(n as nat)
                                + rest) implies (value == n && bytes@.skip(p.1 as int)
                            == rest) by {
                            assert(p.0 == n / 128);
                            assert(b == (128 + (n as nat) % 128) as u8);
                            assert((b - 128) as u64 == n % 128);
                            assert(n == (n / 128) * 128 + n % 128) by (nonlinear_arith);
                        }
                    }
                    Some((value, p.1))
                },
                None => {
                    proof {
                        assert forall|n: u64, rest: Seq<u8>|
                            bytes@.skip(start as int) == #[trigger] (varint(n as nat)
                                + rest) implies false by {
                            assert(p.0 == n / 128);
                            assert(b == (128 + (n as nat) % 128) as u8);
                            assert((b - 128) as u64 == n % 128);
                            assert(n == (n / 128) * 128 + n % 128) by (nonlinear_arith);
                        }
                    }
                    None
                },
            }
        },
        None => {
            proof {
                assert forall|n: u64, rest: Seq<u8>|
                    bytes@.skip(start as int) == #[trigger] (varint(n as nat) + rest) implies
                    false by {
                    assert(bytes@.skip(start + 1) == varint((n / 128) as nat) + rest);
                }
            }
            None
        },
    }
}

/// The zigzag mapping, executably.
fn zigzag32_exec(n: u32) -> (z: u64)
    ensures
        z == zigzag32(n as i32),
        z <= 0xffff_ffff,
{
    let s: i32 = n as i32;
    if s >= 0 {
        (s as u64) * 2
    } else {
        let m: i64 = -(s as i64);
        (2 * m - 1) as u64
    }
}

/// The zigzag mapping stays under 2^32.
proof fn lemma_zigzag32_bound(n: i32)
    ensures
        zigzag32(n) < 0x1_0000_0000,
{
}

/// The inverse zigzag mapping, executably: recovers the unsigned 32-bit
/// carrier of the signed value.
fn unzigzag32_exec(z: u64) -> (r: u32)
    requires
        z <= 0xffff_ffff,
    ensures
        zigzag32(r as i32) == z,
{
    let z32: u32 = z as u32;
    if z32 % 2 == 0 {
        let r: u32 = z32 / 2;
        proof {
            assert(r < 0x8000_0000);
            assert(r as i32 == r as int) by (bit_vector)
                requires
                    r < 0x8000_0000u32,
            ;
        }
        r
    } else {
        let m: u32 = z32 / 2 + 1;
        let r: u32 = (0x1_0000_0000u64 - m as u64) as u32;
        proof {
            assert(1 <= m <= 0x8000_0000);
            assert(r as int == 0x1_0000_0000 - m as int);
            assert(r >= 0x8000_0000);
            assert(r as i32 == r as int - 0x1_0000_0000) by (bit_vector)
                requires
                    r >= 0x8000_0000u32,
            ;
            assert(r as i32 == -(m as int));
            assert(zigzag32(r as i32) == 2 * (m as int) - 1);
            assert(z32 == 2 * (z32 / 2) + 1);
        }
        r
    }
}

/// A zigzag value names one signed 32-bit carrier.
proof fn lemma_zigzag32_injective(a: u32, b: u32)
    requires
        zigzag32(a as i32) == zigzag32(b as i32),
    ensures
        a == b,
{
    assert(a as i32 == b as i32 ==> a == b) by (bit_vector);
}

/// Powers of the varint base.
pub open spec fn exp128(k: nat) -> nat
    decreases k,
{
    if k == 0 {
        1
    } else {
        128 * exp128((k - 1) as nat)
    }
}

proof fn lemma_varint_len_le(x: nat, k: nat)
    requires
        k >= 1,
        x < exp128(k),
    ensures
        varint(x).len() <= k,
    decreases k,
{
    if x < 128 {
    } else {
        assert(exp128(k) == 128 * exp128((k - 1) as nat));
        if k == 1 {
            assert(exp128(1) == 128 * exp128(0));
            assert(exp128(0) == 1);
            assert(x < 128);
        }
        assert(x / 128 < exp128((k - 1) as nat)) by (nonlinear_arith)
            requires
                x < 128 * exp128((k - 1) as nat),
                exp128((k - 1) as nat) >= 1,
        {
            assert(exp128((k - 1) as nat) >= 1) by {
                lemma_exp128_pos((k - 1) as nat);
            }
        }
        lemma_varint_len_le(x / 128, (k - 1) as nat);
    }
}

proof fn lemma_exp128_pos(k: nat)
    ensures
        exp128(k) >= 1,
    decreases k,
{
    if k > 0 {
        lemma_exp128_pos((k - 1) as nat);
    }
}

/// A 64-bit value's varint never exceeds ten bytes.
proof fn lemma_varint_len10(x: nat)
    requires
        x < 0x1_0000_0000_0000_0000,
    ensures
        varint(x).len() <= 10,
{
    assert(exp128(0) == 1);
    assert(exp128(1) == 128);
    assert(exp128(2) == 0x4000);
    assert(exp128(3) == 0x20_0000);
    assert(exp128(4) == 0x1000_0000);
    assert(exp128(5) == 0x8_0000_0000);
    assert(exp128(6) == 0x400_0000_0000);
    assert(exp128(7) == 0x2_0000_0000_0000);
    assert(exp128(8) == 0x100_0000_0000_0000);
    assert(exp128(9) == 0x8000_0000_0000_0000);
    assert(exp128(10) == 0x40_0000_0000_0000_0000);
    lemma_varint_len_le(x, 10);
}

/// The length of a delimited element's body stays far under 2^64.
proof fn lemma_can_body_len(rm: RecordModel)
    ensures
        can_body(rm).len() <= 33,
{
    lemma_varint_len10(rm.timestamp as nat);
    lemma_zigzag32_bound(rm.sequence as i32);
    lemma_varint_len10(zigzag32(rm.sequence as i32));
    lemma_varint_len10(can_data(rm) as nat);
}

/// Deserializes a batch from the all-integer layout.  Reads back exactly
/// what the serializer wrote for any conforming batch on that topic; the
/// `stream` name, which is not on the wire, comes back empty.
#[verifier::rlimit(80)]
fn deserialize_can(payload: &Vec<u8>, stream: &str) -> (r: Result<Vec<Payload>, Error>)
    ensures
        r matches Err(e) ==> e matches Error::UnknownTopic(_) || e matches Error::ProstDecode(_),
        forall|rs: Seq<RecordModel>|
            (stream@ == "test.canList"@ && can_records_ok(rs) && payload@ == #[trigger] can_wire(
                rs,
            )) ==> (r matches Ok(v) && records_model(v@) == rs),
{
    let len: usize = payload.len();
    let target: String = String::from_str("test.canList");
    let given: String = stream.to_owned();
    if !(given == target) {
        return Err(Error::UnknownTopic(given));
    }
    let data_key: String = String::from_str("data");
    let mut collected: Vec<Payload> = Vec::new();
    let mut pos: usize = 0;
    proof {
        assert forall|rs: Seq<RecordModel>|
            (stream@ == "test.canList"@ && can_records_ok(rs) && payload@ == #[trigger] can_wire(
                rs,
            )) implies (records_model(collected@) == rs.take(0) && payload@.skip(0) == can_wire(
            rs.skip(0),
        )) by {
            assert(records_model(collected@) =~= rs.take(0));
            assert(rs.skip(0) =~= rs);
            assert(payload@.skip(0) =~= payload@);
        }
    }
    loop
        invariant
            pos <= len,
            len == payload@.len(),
            data_key@ == "data"@,
            forall|rs: Seq<RecordModel>|
                (stream@ == "test.canList"@ && can_records_ok(rs) && payload@
                    == #[trigger] can_wire(rs)) ==> {
                    &&& collected@.len() <= rs.len()
                    &&& records_model(collected@) == rs.take(collected@.len() as int)
                    &&& payload@.skip(pos as int) == can_wire(rs.skip(collected@.len() as int))
                },
        decreases len - pos,
    {
        if pos == len {
            let done = collected;
            proof {
                assert forall|rs: Seq<RecordModel>|
                    (stream@ == "test.canList"@ && can_records_ok(rs) && payload@
                        == #[trigger] can_wire(rs)) implies records_model(done@) == rs by {
                    let k = done@.len() as int;
                    assert(payload@.skip(pos as int).len() == len - pos);
                    if k < rs.len() {
                        lemma_can_wire_step(rs.skip(k), 0);
                        assert(rs.skip(k)[0] == rs[k]);
                        lemma_varint_len(can_body(rs[k]).len());
                        assert(can_wire(rs.skip(k)).len() >= 1);
                    }
                    assert(k == rs.len());
                    assert(rs.take(k) =~= rs);
                }
            }
            return Ok(done);
        }
        let b: u8 = payload[pos];
        proof {
            assert(payload@.skip(pos as int)[0] == payload@[pos as int]);
        }
        if b != 10 {
            proof {
                assert forall|rs: Seq<RecordModel>|
                    (stream@ == "test.canList"@ && can_records_ok(rs) && payload@
                        == #[trigger] can_wire(rs)) implies false by {
                    let k = collected@.len() as int;
                    if k < rs.len() {
                        lemma_can_wire_step(rs, k);
                        assert(payload@.skip(pos as int)[0] == 10);
                    } else {
                        assert(payload@.skip(pos as int).len() == 0);
                    }
                }
            }
            return Err(Error::ProstDecode(String::from_str("unexpected tag in list message")));
        }
        let ghost k_snap = collected@.len() as int;
        proof {
            assert forall|rs: Seq<RecordModel>|
                (stream@ == "test.canList"@ && can_records_ok(rs) && payload@
                    == #[trigger] can_wire(rs)) implies (k_snap < rs.len() && payload@.skip(
                pos + 1,
            ) == varint(can_body(rs[k_snap]).len() as u64 as nat) + (can_body(rs[k_snap])
                + can_wire(rs.skip(k_snap + 1)))) by {
                let k = k_snap;
                if k >= rs.len() {
                    assert(payload@.skip(pos as int).len() == 0);
                }
                lemma_can_wire_step(rs, k);
                lemma_can_body_len(rs[k]);
                let l = can_body(rs[k]).len();
                assert(l as u64 as nat == l);
                let after = varint(l) + (can_body(rs[k]) + can_wire(rs.skip(k + 1)));
                assert(payload@.skip(pos as int) =~= seq![10u8] + after);
                assert(payload@.skip(pos as int).len() == len - pos);
                assert forall|i: int| 0 <= i < after.len() implies payload@.skip(pos + 1)[i]
                    == after[i] by {
                    assert(payload@.skip(pos + 1)[i] == payload@[pos + 1 + i]);
                    assert(payload@.skip(pos as int)[1 + i] == payload@[pos + 1 + i]);
                }
                assert(payload@.skip(pos + 1).len() == after.len());
                assert(payload@.skip(pos + 1) =~= after);
            }
        }
        let blen_parsed: Option<(u64, usize)> = parse_varint(payload, pos + 1);
        let q0: usize = match blen_parsed {
            Some(p) => p.1,
            None => {
                return Err(Error::ProstDecode(String::from_str("bad element length")));
            },
        };
        proof {
            assert forall|rs: Seq<RecordModel>|
                (stream@ == "test.canList"@ && can_records_ok(rs) && payload@
                    == #[trigger] can_wire(rs)) implies (payload@.skip(q0 as int) == seq![8u8] + (
            varint(rs[k_snap].timestamp as nat) + (seq![16u8] + (varint(
                zigzag32(rs[k_snap].sequence as i32),
            ) + (seq![24u8] + (varint(can_data(rs[k_snap]) as nat) + can_wire(
                rs.skip(k_snap + 1),
            )))))) && pos < q0) by {
                let k = k_snap;
                lemma_can_body_len(rs[k]);
                assert(payload@.skip(q0 as int) == can_body(rs[k]) + can_wire(rs.skip(k + 1)));
                assert(can_body(rs[k]) + can_wire(rs.skip(k + 1)) =~= seq![8u8] + (varint(
                    rs[k].timestamp as nat,
                ) + (seq![16u8] + (varint(zigzag32(rs[k].sequence as i32)) + (seq![24u8] + (varint(
                    can_data(rs[k]) as nat,
                ) + can_wire(rs.skip(k + 1))))))));
            }
        }
        // timestamp field
        if q0 == len || payload[q0] != 8 {
            proof {
                assert forall|rs: Seq<RecordModel>|
                    (stream@ == "test.canList"@ && can_records_ok(rs) && payload@
                        == #[trigger] can_wire(rs)) implies false by {
                    assert(payload@.skip(q0 as int)[0] == 8);
                    assert(payload@.skip(q0 as int)[0] == payload@[q0 as int]);
                    assert(payload@.skip(q0 as int).len() == len - q0);
                }
            }
            return Err(Error::ProstDecode(String::from_str("missing timestamp field")));
        }
        proof {
            assert forall|rs: Seq<RecordModel>|
                (stream@ == "test.canList"@ && can_records_ok(rs) && payload@
                    == #[trigger] can_wire(rs)) implies payload@.skip(q0 + 1) == varint(
                rs[k_snap].timestamp as nat,
            ) + (seq![16u8] + (varint(zigzag32(rs[k_snap].sequence as i32)) + (seq![24u8] + (varint(
                can_data(rs[k_snap]) as nat,
            ) + can_wire(rs.skip(k_snap + 1)))))) by {
                let after = varint(rs[k_snap].timestamp as nat) + (seq![16u8] + (varint(
                    zigzag32(rs[k_snap].sequence as i32),
                ) + (seq![24u8] + (varint(can_data(rs[k_snap]) as nat) + can_wire(
                    rs.skip(k_snap + 1),
                )))));
                assert(payload@.skip(q0 as int) == seq![8u8] + after);
                assert(payload@.skip(q0 as int).len() == len - q0);
                assert forall|i: int| 0 <= i < after.len() implies payload@.skip(q0 + 1)[i]
                    == after[i] by {
                    assert(payload@.skip(q0 + 1)[i] == payload@[q0 + 1 + i]);
                    assert(payload@.skip(q0 as int)[1 + i] == payload@[q0 + 1 + i]);
                }
                assert(payload@.skip(q0 + 1).len() == after.len());
                assert(payload@.skip(q0 + 1) =~= after);
            }
        }
        let ts_parsed: Option<(u64, usize)> = parse_varint(payload, q0 + 1);
        let (timestamp, q1) = match ts_parsed {
            Some(p) => p,
            None => {
                return Err(Error::ProstDecode(String::from_str("bad timestamp value")));
            },
        };
        // sequence field
        if q1 == len || payload[q1] != 16 {
            proof {
                assert forall|rs: Seq<RecordModel>|
                    (stream@ == "test.canList"@ && can_records_ok(rs) && payload@
                        == #[trigger] can_wire(rs)) implies false by {
                    assert(payload@.skip(q1 as int)[0] == 16);
                    assert(payload@.skip(q1 as int)[0] == payload@[q1 as int]);
                    assert(payload@.skip(q1 as int).len() == len - q1);
                }
            }
            return Err(Error::ProstDecode(String::from_str("missing sequence field")));
        }
        proof {
            assert forall|rs: Seq<RecordModel>|
                (stream@ == "test.canList"@ && can_records_ok(rs) && payload@
                    == #[trigger] can_wire(rs)) implies (timestamp == rs[k_snap].timestamp
                && payload@.skip(q1 + 1) == varint(zigzag32(rs[k_snap].sequence as i32)) + (seq![
                24u8,
            ] + (varint(can_data(rs[k_snap]) as nat) + can_wire(rs.skip(k_snap + 1))))) by {
                let after = varint(zigzag32(rs[k_snap].sequence as i32)) + (seq![24u8] + (varint(
                    can_data(rs[k_snap]) as nat,
                ) + can_wire(rs.skip(k_snap + 1))));
                assert(payload@.skip(q1 as int) == seq![16u8] + after);
                assert(payload@.skip(q1 as int).len() == len - q1);
                assert forall|i: int| 0 <= i < after.len() implies payload@.skip(q1 + 1)[i]
                    == after[i] by {
                    assert(payload@.skip(q1 + 1)[i] == payload@[q1 + 1 + i]);
                    assert(payload@.skip(q1 as int)[1 + i] == payload@[q1 + 1 + i]);
                }
                assert(payload@.skip(q1 + 1).len() == after.len());
                assert(payload@.skip(q1 + 1) =~= after);
                lemma_zigzag32_bound(rs[k_snap].sequence as i32);
            }
        }
        let z_parsed: Option<(u64, usize)> = parse_varint(payload, q1 + 1);
        let (z, q2) = match z_parsed {
            Some(p) => p,
            None => {
                return Err(Error::ProstDecode(String::from_str("bad sequence value")));
            },
        };
        if z > 0xffff_ffffu64 {
            proof {
                assert forall|rs: Seq<RecordModel>|
                    (stream@ == "test.canList"@ && can_records_ok(rs) && payload@
                        == #[trigger] can_wire(rs)) implies false by {
                    lemma_zigzag32_bound(rs[k_snap].sequence as i32);
                    assert(z == zigzag32(rs[k_snap].sequence as i32));
                }
            }
            return Err(Error::ProstDecode(String::from_str("sequence value out of range")));
        }
        let sequence: u32 = unzigzag32_exec(z);
        // data field
        if q2 == len || payload[q2] != 24 {
            proof {
                assert forall|rs: Seq<RecordModel>|
                    (stream@ == "test.canList"@ && can_records_ok(rs) && payload@
                        == #[trigger] can_wire(rs)) implies false by {
                    assert(payload@.skip(q2 as int)[0] == 24);
                    assert(payload@.skip(q2 as int)[0] == payload@[q2 as int]);
                    assert(payload@.skip(q2 as int).len() == len - q2);
                }
            }
            return Err(Error::ProstDecode(String::from_str("missing data field")));
        }
        proof {
            assert forall|rs: Seq<RecordModel>|
                (stream@ == "test.canList"@ && can_records_ok(rs) && payload@
                    == #[trigger] can_wire(rs)) implies (sequence == rs[k_snap].sequence
                && payload@.skip(q2 + 1) == varint(can_data(rs[k_snap]) as nat) + can_wire(
                rs.skip(k_snap + 1),
            )) by {
                assert(z == zigzag32(rs[k_snap].sequence as i32));
                lemma_zigzag32_injective(sequence, rs[k_snap].sequence);
                let after = varint(can_data(rs[k_snap]) as nat) + can_wire(rs.skip(k_snap + 1));
                assert(payload@.skip(q2 as int) == seq![24u8] + after);
                assert(payload@.skip(q2 as int).len() == len - q2);
                assert forall|i: int| 0 <= i < after.len() implies payload@.skip(q2 + 1)[i]
                    == after[i] by {
                    assert(payload@.skip(q2 + 1)[i] == payload@[q2 + 1 + i]);
                    assert(payload@.skip(q2 as int)[1 + i] == payload@[q2 + 1 + i]);
                }
                assert(payload@.skip(q2 + 1).len() == after.len());
                assert(payload@.skip(q2 + 1) =~= after);
            }
        }
        let data_parsed: Option<(u64, usize)> = parse_varint(payload, q2 + 1);
        let (data, q3) = match data_parsed {
            Some(p) => p,
            None => {
                return Err(Error::ProstDecode(String::from_str("bad data value")));
            },
        };
        let mut doc: Vec<(String, FieldValue)> = Vec::new();
        doc.push((data_key.clone(), FieldValue::U64(data)));
        let rec = Payload { stream: String::new(), sequence, timestamp, payload: doc };
        collected.push(rec);
        pos = q3;
        proof {
            assert forall|rs: Seq<RecordModel>|
                (stream@ == "test.canList"@ && can_records_ok(rs) && payload@
                    == #[trigger] can_wire(rs)) implies (collected@.len() <= rs.len()
                && records_model(collected@) == rs.take(collected@.len() as int) && payload@.skip(
                pos as int,
            ) == can_wire(rs.skip(collected@.len() as int))) by {
                assert(data == can_data(rs[k_snap]));
                assert(payload@.skip(pos as int) == can_wire(rs.skip(k_snap + 1)));
                assert(can_record_ok(rs[k_snap]));
                assert(rec.model().fields =~= rs[k_snap].fields);
                assert(rec.model() == rs[k_snap]);
                assert(collected@.len() == k_snap + 1);
                assert(records_model(collected@) =~= rs.take(k_snap + 1));
            }
        }
    }
}

/// Serializes a batch under the all-integer layout.  Succeeds exactly on
/// that topic with conforming records, and yields their unique wire form.
fn serialize_can(payload: &Vec<Payload>, stream: &str) -> (r: Result<Vec<u8>, Error>)
    ensures
        r matches Err(e) ==> e matches Error::UnknownTopic(_) || e matches Error::SchemaMismatch(
            _,
        ),
        (stream@ == "test.canList"@ && can_records_ok(records_model(payload@))) ==> (r matches Ok(
            v,
        ) && v@ == can_wire(records_model(payload@))),
        r matches Ok(v) ==> (stream@ == "test.canList"@ && can_records_ok(records_model(payload@))
            && v@ == can_wire(records_model(payload@))),
{
    let ghost rs = records_model(payload@);
    let target: String = String::from_str("test.canList");
    let given: String = stream.to_owned();
    if !(given == target) {
        proof {
            reveal_strlit("test.canList");
        }
        return Err(Error::UnknownTopic(given));
    }
    let data_key: String = String::from_str("data");
    let mut out: Vec<u8> = Vec::new();
    let mut i: usize = 0;
    proof {
        assert(rs.take(0) =~= Seq::<RecordModel>::empty());
        assert(out@ =~= can_wire(rs.take(0)));
    }
    while i < payload.len()
        invariant
            i <= payload.len(),
            rs == records_model(payload@),
            rs.len() == payload@.len(),
            data_key@ == "data"@,
            out@ == can_wire(rs.take(i as int)),
            forall|j: int| 0 <= j < i ==> can_record_ok(#[trigger] rs[j]),
        decreases payload.len() - i,
    {
        let p: &Payload = &payload[i];
        proof {
            assert(rs[i as int] == payload@[i as int].model());
        }
        if p.payload.len() != 1 {
            proof {
                assert(!can_record_ok(rs[i as int]));
                if can_records_ok(rs) {
                    assert(can_record_ok(rs[i as int]));
                }
            }
            return Err(
                Error::SchemaMismatch(
                    String::from_str("the all-integer layout takes exactly one payload field"),
                ),
            );
        }
        let kv: &(String, FieldValue) = &p.payload[0];
        proof {
            assert(rs[i as int].fields[0] == (kv.0@, crate::base::value_model(kv.1)));
        }
        if !(kv.0 == data_key) {
            proof {
                assert(!can_record_ok(rs[i as int]));
                if can_records_ok(rs) {
                    assert(can_record_ok(rs[i as int]));
                }
            }
            return Err(Error::SchemaMismatch(String::from_str("payload field data is required")));
        }
        let data: u64 = match &kv.1 {
            FieldValue::U64(n) => *n,
            _ => {
                proof {
                    assert(!can_record_ok(rs[i as int]));
                    if can_records_ok(rs) {
                        assert(can_record_ok(rs[i as int]));
                    }
                }
                return Err(
                    Error::SchemaMismatch(
                        String::from_str("payload field data must be an unsigned integer"),
                    ),
                );
            },
        };
        proof {
            assert(can_record_ok(rs[i as int]));
            assert(can_data(rs[i as int]) == data);
        }
        let mut body: Vec<u8> = Vec::new();
        body.push(8);
        append_varint(&mut body, p.timestamp);
        body.push(16);
        let z: u64 = zigzag32_exec(p.sequence);
        append_varint(&mut body, z);
        body.push(24);
        append_varint(&mut body, data);
        proof {
            assert(body@ =~= can_body(rs[i as int]));
        }
        out.push(10);
        append_varint(&mut out, body.len() as u64);
        out.extend_from_slice(body.as_slice());
        proof {
            lemma_can_wire_snoc(rs.take(i as int), rs[i as int]);
            assert(rs.take(i + 1) =~= rs.take(i as int).push(rs[i as int]));
            assert((body@.len() as u64) as nat == can_body(rs[i as int]).len());
            assert(out@ =~= can_wire(rs.take(i + 1)));
        }
        i = i + 1;
    }
    proof {
        assert(rs.take(payload@.len() as int) =~= rs);
        assert(can_records_ok(rs)) by {
            assert forall|j: int| 0 <= j < rs.len() implies can_record_ok(#[trigger] rs[j]) by {
                assert(j < i);
            }
        }
    }
    Ok(out)
}

/// The nine fixed key names, as strings, in field order.
fn peri_keys() -> (r: Vec<String>)
    ensures
        r@.len() == 9,
        forall|i: int| 0 <= i < 9 ==> (#[trigger] r@[i])@ == peri_field_names()[i],
{
    let mut keys: Vec<String> = Vec::new();
    keys.push(String::from_str("gps"));
    keys.push(String::from_str("gsm"));
    keys.push(String::from_str("imu"));
    keys.push(String::from_str("left_indicator"));
    keys.push(String::from_str("right_indicator"));
    keys.push(String::from_str("headlamp"));
    keys.push(String::from_str("horn"));
    keys.push(String::from_str("left_brake"));
    keys.push(String::from_str("right_brake"));
    keys
}

/// Serializes a batch under the peripheral-status layout: succeeds exactly
/// on conforming records and yields their unique wire form.
#[verifier::rlimit(80)]
fn serialize_peri(payload: &Vec<Payload>) -> (r: Result<Vec<u8>, Error>)
    ensures
        peri_records_ok(records_model(payload@)) ==> r is Ok,
        r matches Ok(v) ==> peri_records_ok(records_model(payload@)) && v@ == peri_wire(
            records_model(payload@),
        ),
        r matches Err(e) ==> e matches Error::SchemaMismatch(_),
{
    let ghost rs = records_model(payload@);
    let keys: Vec<String> = peri_keys();
    let mut out: Vec<u8> = Vec::new();
    let mut i: usize = 0;
    proof {
        assert(rs.take(0) =~= Seq::<RecordModel>::empty());
        assert(out@ =~= peri_wire(rs.take(0)));
    }
    while i < payload.len()
        invariant
            i <= payload.len(),
            rs == records_model(payload@),
            rs.len() == payload@.len(),
            keys@.len() == 9,
            forall|t: int| 0 <= t < 9 ==> (#[trigger] keys@[t])@ == peri_field_names()[t],
            out@ == peri_wire(rs.take(i as int)),
            forall|j: int| 0 <= j < i ==> peri_record_ok(#[trigger] rs[j]),
        decreases payload.len() - i,
    {
        proof {
            assert(rs[i as int] == payload@[i as int].model());
        }
        if payload[i].payload.len() != 9 {
            proof {
                if peri_records_ok(rs) {
                    assert(peri_record_ok(rs[i as int]));
                }
            }
            return Err(
                Error::SchemaMismatch(
                    String::from_str(
                        "the peripheral-status layout takes exactly nine payload fields",
                    ),
                ),
            );
        }
        let mut body: Vec<u8> = Vec::new();
        let mut j: usize = 0;
        proof {
            assert(peri_fields_bytes(rs[i as int], 0) =~= body@ + peri_fields_bytes(
                rs[i as int],
                0,
            ));
        }
        while j < 9
            invariant
                j <= 9,
                i < payload@.len(),
                rs == records_model(payload@),
                rs.len() == payload@.len(),
                rs[i as int] == payload@[i as int].model(),
                payload@[i as int].payload@.len() == 9,
                rs[i as int].fields.len() == 9,
                keys@.len() == 9,
                forall|t: int| 0 <= t < 9 ==> (#[trigger] keys@[t])@ == peri_field_names()[t],
                peri_fields_bytes(rs[i as int], 0) == body@ + peri_fields_bytes(
                    rs[i as int],
                    j as int,
                ),
                forall|t: int|
                    0 <= t < j ==> {
                        &&& (#[trigger] rs[i as int].fields[t]).0 == peri_field_names()[t]
                        &&& rs[i as int].fields[t].1 matches ValueModel::Str(_)
                        &&& json_safe_str(peri_str(rs[i as int], t))
                        &&& peri_str(rs[i as int], t).len() <= 0xffff_ffff
                    },
            decreases 9 - j,
        {
            let kv: &(String, FieldValue) = &payload[i].payload[j];
            proof {
                assert(rs[i as int].fields == fields_model(payload@[i as int].payload@));
                assert(rs[i as int].fields[j as int] == (kv.0@, crate::base::value_model(kv.1)));
            }
            if !(kv.0 == keys[j]) {
                proof {
                    assert(!peri_record_ok(rs[i as int]));
                    if peri_records_ok(rs) {
                        assert(peri_record_ok(rs[i as int]));
                    }
                }
                return Err(
                    Error::SchemaMismatch(
                        String::from_str(
                            "peripheral-status payloads carry the nine named fields in order",
                        ),
                    ),
                );
            }
            let sj: &String = match &kv.1 {
                FieldValue::Str(s) => s,
                _ => {
                    proof {
                        assert(!peri_record_ok(rs[i as int]));
                        if peri_records_ok(rs) {
                            assert(peri_record_ok(rs[i as int]));
                        }
                    }
                    return Err(
                        Error::SchemaMismatch(
                            String::from_str("peripheral-status fields must hold strings"),
                        ),
                    );
                },
            };
            if !check_json_safe(sj) {
                proof {
                    assert(!peri_record_ok(rs[i as int]));
                    if peri_records_ok(rs) {
                        assert(peri_record_ok(rs[i as int]));
                    }
                }
                return Err(
                    Error::SchemaMismatch(
                        String::from_str("peripheral-status strings must be renderable"),
                    ),
                );
            }
            let slen: usize = sj.as_str().unicode_len();
            if slen > 0xffff_ffffusize {
                proof {
                    assert(!peri_record_ok(rs[i as int]));
                    if peri_records_ok(rs) {
                        assert(peri_record_ok(rs[i as int]));
                    }
                }
                return Err(
                    Error::SchemaMismatch(
                        String::from_str("a peripheral-status string is too long for the wire"),
                    ),
                );
            }
            let tag: u8 = 8 * (j as u8) + 10;
            body.push(tag);
            append_varint(&mut body, slen as u64);
            proof {
                assert forall|c: int| 0 <= c < sj@.len() implies '\0' <= #[trigger] sj@[c]
                    <= '\u{7f}' by {
                    assert(crate::serialization::text::json_safe_char(sj@[c]));
                }
            }
            append_ascii(&mut body, sj.as_str());
            proof {
                assert(tag == (8 * (j as int) + 10) as u8);
                assert(peri_str(rs[i as int], j as int) == sj@);
                assert(varint((slen as u64) as nat) == varint(sj@.len()));
                assert(string_field(tag, peri_str(rs[i as int], j as int)) =~= seq![tag] + varint(
                    sj@.len(),
                ) + chars_to_bytes(sj@));
                assert(peri_fields_bytes(rs[i as int], j as int) == string_field(
                    (8 * (j as int) + 10) as u8,
                    peri_str(rs[i as int], j as int),
                ) + peri_fields_bytes(rs[i as int], j + 1));
                assert(peri_fields_bytes(rs[i as int], 0) =~= body@ + peri_fields_bytes(
                    rs[i as int],
                    j + 1,
                ));
                assert forall|t: int|
                    0 <= t < j + 1 implies {
                    &&& (#[trigger] rs[i as int].fields[t]).0 == peri_field_names()[t]
                    &&& rs[i as int].fields[t].1 matches ValueModel::Str(_)
                    &&& json_safe_str(peri_str(rs[i as int], t))
                    &&& peri_str(rs[i as int], t).len() <= 0xffff_ffff
                } by {
                    if t == j as int {
                        assert(rs[i as int].fields[t].0 == kv.0@);
                    }
                }
            }
            j = j + 1;
        }
        proof {
            assert(peri_fields_bytes(rs[i as int], 9) == Seq::<u8>::empty());
            assert(body@ =~= peri_fields_bytes(rs[i as int], 0));
            assert(peri_record_ok(rs[i as int]));
        }
        body.push(80);
        let seq_value: u32 = payload[i].sequence;
        let z: u64 = zigzag32_exec(seq_value);
        append_varint(&mut body, z);
        body.push(88);
        let ts_value: u64 = payload[i].timestamp;
        append_varint(&mut body, ts_value);
        proof {
            assert(seq_value == rs[i as int].sequence);
            assert(ts_value == rs[i as int].timestamp);
            assert(body@ =~= peri_body(rs[i as int]));
        }
        out.push(10);
        append_varint(&mut out, body.len() as u64);
        out.extend_from_slice(body.as_slice());
        proof {
            lemma_peri_wire_snoc(rs.take(i as int), rs[i as int]);
            assert(rs.take(i + 1) =~= rs.take(i as int).push(rs[i as int]));
            assert((body@.len() as u64) as nat == peri_body(rs[i as int]).len());
            assert(out@ =~= peri_wire(rs.take(i + 1)));
        }
        i = i + 1;
    }
    proof {
        assert(rs.take(payload@.len() as int) =~= rs);
        assert(peri_records_ok(rs)) by {
            assert forall|j: int| 0 <= j < rs.len() implies peri_record_ok(#[trigger] rs[j]) by {
                assert(j < i);
            }
        }
    }
    Ok(out)
}

/// The two topic names never name the same type.
proof fn lemma_proto_topics_distinct()
    ensures
        "test.canList"@ != "test.peripheralsList"@,
{
    reveal_strlit("test.canList");
    reveal_strlit("test.peripheralsList");
    assert("test.canList"@.len() == 12 && "test.peripheralsList"@.len() == 20);
}

/// Serializes a batch for a topic of the registry.  Succeeds exactly on a
/// known topic with records that fit its layout, and yields their unique
/// wire form.
pub fn serialize(payload: &Vec<Payload>, stream: &str) -> (r: Result<Vec<u8>, Error>)
    ensures
        proto_supported(stream@, records_model(payload@)) ==> r is Ok,
        r matches Ok(v) ==> proto_supported(stream@, records_model(payload@)) && v@
            == proto_wire_of(stream@, records_model(payload@)),
        r matches Err(e) ==> e matches Error::UnknownTopic(_) || e matches Error::SchemaMismatch(
            _,
        ),
{
    proof {
        lemma_proto_topics_distinct();
    }
    let can_target: String = String::from_str("test.canList");
    let peri_target: String = String::from_str("test.peripheralsList");
    let given: String = stream.to_owned();
    if given == can_target {
        serialize_can(payload, stream)
    } else if given == peri_target {
        serialize_peri(payload)
    } else {
        Err(Error::UnknownTopic(given))
    }
}

/// Reads one varint field with its expected tag byte.
fn parse_tagged_varint(bytes: &Vec<u8>, start: usize, tag: u8) -> (r: Option<(u64, usize)>)
    requires
        start <= bytes@.len(),
    ensures
        r matches Some(p) ==> start < p.1 <= bytes@.len(),
        forall|n: u64, rest: Seq<u8>|
            bytes@.skip(start as int) == #[trigger] ((seq![tag] + varint(n as nat)) + rest) ==> (
            r matches Some(p) && p.0 == n && bytes@.skip(p.1 as int) == rest),
{
    let len: usize = bytes.len();
    if start == len || bytes[start] != tag {
        proof {
            assert forall|n: u64, rest: Seq<u8>|
                bytes@.skip(start as int) == #[trigger] ((seq![tag] + varint(n as nat))
                    + rest) implies false by {
                assert(bytes@.skip(start as int).len() == len - start);
                assert(bytes@.skip(start as int)[0] == ((seq![tag] + varint(n as nat)) + rest)[0]);
                assert(bytes@.skip(start as int)[0] == bytes@[start as int]);
            }
        }
        return None;
    }
    proof {
        assert forall|n: u64, rest: Seq<u8>|
            bytes@.skip(start as int) == #[trigger] ((seq![tag] + varint(n as nat))
                + rest) implies bytes@.skip(start + 1) == varint(n as nat) + rest by {
            let after = varint(n as nat) + rest;
            assert(bytes@.skip(start as int) =~= seq![tag] + after);
            assert(bytes@.skip(start as int).len() == len - start);
            assert forall|i: int| 0 <= i < after.len() implies bytes@.skip(start + 1)[i]
                == after[i] by {
                assert(bytes@.skip(start + 1)[i] == bytes@[start + 1 + i]);
                assert(bytes@.skip(start as int)[1 + i] == bytes@[start + 1 + i]);
            }
            assert(bytes@.skip(start + 1).len() == after.len());
            assert(bytes@.skip(start + 1) =~= after);
        }
    }
    parse_varint(bytes, start + 1)
}

/// Reads one length-delimited string field with its expected tag byte.
/// Reads back exactly what the encoder wrote for any renderable string.
#[verifier::rlimit(80)]
fn parse_tagged_string(bytes: &Vec<u8>, start: usize, tag: u8) -> (r: Option<(String, usize)>)
    requires
        start <= bytes@.len(),
    ensures
        r matches Some(p) ==> start < p.1 <= bytes@.len(),
        forall|s: Seq<char>, rest: Seq<u8>|
            (json_safe_str(s) && s.len() <= 0xffff_ffff && bytes@.skip(start as int)
                == #[trigger] (string_field(tag, s) + rest)) ==> (r matches Some(p) && p.0@ == s
                && bytes@.skip(p.1 as int) == rest),
{
    let len: usize = bytes.len();
    if start == len || bytes[start] != tag {
        proof {
            assert forall|s: Seq<char>, rest: Seq<u8>|
                (json_safe_str(s) && s.len() <= 0xffff_ffff && bytes@.skip(start as int)
                    == #[trigger] (string_field(tag, s) + rest)) implies false by {
                assert(bytes@.skip(start as int).len() == len - start);
                assert(bytes@.skip(start as int)[0] == (string_field(tag, s) + rest)[0]);
                assert((string_field(tag, s) + rest)[0] == tag);
                assert(bytes@.skip(start as int)[0] == bytes@[start as int]);
            }
        }
        return None;
    }
    proof {
        assert forall|s: Seq<char>, rest: Seq<u8>|
            (json_safe_str(s) && s.len() <= 0xffff_ffff && bytes@.skip(start as int)
                == #[trigger] (string_field(tag, s) + rest)) implies (bytes@.skip(start + 1)
            == varint((s.len() as u64) as nat) + (chars_to_bytes(s) + rest)) by {
            lemma_chars_to_bytes_safe(s);
            assert((s.len() as u64) as nat == s.len());
            let after = varint(s.len()) + (chars_to_bytes(s) + rest);
            assert(bytes@.skip(start as int) =~= seq![tag] + after);
            assert(bytes@.skip(start as int).len() == len - start);
            assert forall|i: int| 0 <= i < after.len() implies bytes@.skip(start + 1)[i]
                == after[i] by {
                assert(bytes@.skip(start + 1)[i] == bytes@[start + 1 + i]);
                assert(bytes@.skip(start as int)[1 + i] == bytes@[start + 1 + i]);
            }
            assert(bytes@.skip(start + 1).len() == after.len());
            assert(bytes@.skip(start + 1) =~= after);
        }
    }
    let length_parsed: Option<(u64, usize)> = parse_varint(bytes, start + 1);
    let (slen, q) = match length_parsed {
        Some(p) => p,
        None => {
            proof {
                assert forall|s: Seq<char>, rest: Seq<u8>|
                    (json_safe_str(s) && s.len() <= 0xffff_ffff && bytes@.skip(start as int)
                        == #[trigger] (string_field(tag, s) + rest)) implies false by {
                    assert(bytes@.skip(start + 1) == varint((s.len() as u64) as nat)
                        + (chars_to_bytes(s) + rest));
                }
            }
            return None;
        },
    };
    if slen > (len - q) as u64 {
        proof {
            assert forall|s: Seq<char>, rest: Seq<u8>|
                (json_safe_str(s) && s.len() <= 0xffff_ffff && bytes@.skip(start as int)
                    == #[trigger] (string_field(tag, s) + rest)) implies false by {
                lemma_chars_to_bytes_safe(s);
                assert(slen == s.len() as u64);
                assert(bytes@.skip(q as int) == chars_to_bytes(s) + rest);
                assert(bytes@.skip(q as int).len() == len - q);
            }
        }
        return None;
    }
    let n: usize = slen as usize;
    let mut taken: Vec<u8> = Vec::new();
    let mut i: usize = 0;
    while i < n
        invariant
            i <= n,
            q + n <= len,
            len == bytes@.len(),
            n == slen as int,
            taken@ == bytes@.subrange(q as int, q + i),
            forall|t: int| 0 <= t < i ==> #[trigger] taken@[t] < 128,
            forall|s: Seq<char>, rest: Seq<u8>|
                (json_safe_str(s) && s.len() <= 0xffff_ffff && bytes@.skip(start as int)
                    == #[trigger] (string_field(tag, s) + rest)) ==> (slen == s.len() as u64
                    && bytes@.skip(q as int) == chars_to_bytes(s) + rest),
        decreases n - i,
    {
        let b: u8 = bytes[q + i];
        if b >= 128 {
            proof {
                assert forall|s: Seq<char>, rest: Seq<u8>|
                    (json_safe_str(s) && s.len() <= 0xffff_ffff && bytes@.skip(start as int)
                        == #[trigger] (string_field(tag, s) + rest)) implies false by {
                    lemma_chars_to_bytes_safe(s);
                    assert(bytes@.skip(q as int)[i as int] == chars_to_bytes(s)[i as int]);
                    assert(bytes@.skip(q as int)[i as int] == bytes@[q + i]);
                    assert(chars_to_bytes(s)[i as int] <= 126);
                }
            }
            return None;
        }
        taken.push(b);
        proof {
            assert(taken@ =~= bytes@.subrange(q as int, q + i + 1));
        }
        i = i + 1;
    }
    let made: String = string_from_ascii(taken);
    proof {
        assert forall|s: Seq<char>, rest: Seq<u8>|
            (json_safe_str(s) && s.len() <= 0xffff_ffff && bytes@.skip(start as int)
                == #[trigger] (string_field(tag, s) + rest)) implies (made@ == s && bytes@.skip(
            (q + n) as int,
        ) == rest) by {
            lemma_chars_to_bytes_safe(s);
            let cb = chars_to_bytes(s);
            assert(cb.len() == n);
            assert forall|t: int| 0 <= t < n implies bytes@.subrange(q as int, q + n)[t]
                == cb[t] by {
                assert(bytes@.subrange(q as int, q + n)[t] == bytes@[q + t]);
                assert(bytes@.skip(q as int)[t] == bytes@[q + t]);
            }
            assert(bytes@.subrange(q as int, q + n) =~= cb);
            assert forall|t: int| 0 <= t < s.len() implies made@[t] == s[t] by {
                assert(made@[t] == bytes@.subrange(q as int, q + n)[t] as char);
                assert(cb[t] as char == s[t]);
            }
            assert(made@ =~= s);
            assert(bytes@.skip(q as int).len() == len - q);
            assert forall|t: int| 0 <= t < rest.len() implies bytes@.skip((q + n) as int)[t]
                == rest[t] by {
                assert(bytes@.skip((q + n) as int)[t] == bytes@[q + n + t]);
                assert(bytes@.skip(q as int)[n + t] == bytes@[q + n + t]);
            }
            assert(bytes@.skip((q + n) as int).len() == rest.len());
            assert(bytes@.skip((q + n) as int) =~= rest);
        }
    }
    Some((made, q + n))
}

/// What follows the string fields of a peripheral-status element: the two
/// integer fields, then `w`.
pub open spec fn peri_int_tail(rm: RecordModel, w: Seq<u8>) -> Seq<u8> {
    seq![80u8] + varint(zigzag32(rm.sequence as i32)) + seq![88u8] + varint(rm.timestamp as nat)
        + w
}

/// Deserializes a batch from the peripheral-status layout.  Reads back
/// exactly what the serializer wrote for any conforming batch; the `stream`
/// name, which is not on the wire, comes back empty.
#[verifier::rlimit(100)]
fn deserialize_peri(payload: &Vec<u8>) -> (r: Result<Vec<Payload>, Error>)
    ensures
        forall|rs: Seq<RecordModel>|
            (peri_records_ok(rs) && payload@ == #[trigger] peri_wire(rs)) ==> (r matches Ok(v)
                && records_model(v@) == rs),
        r matches Err(e) ==> e matches Error::ProstDecode(_),
{
    let len: usize = payload.len();
    let keys: Vec<String> = peri_keys();
    let mut collected: Vec<Payload> = Vec::new();
    let mut pos: usize = 0;
    proof {
        assert forall|rs: Seq<RecordModel>|
            (peri_records_ok(rs) && payload@ == #[trigger] peri_wire(rs)) implies (records_model(
            collected@,
        ) == rs.take(0) && payload@.skip(0) == peri_wire(rs.skip(0))) by {
            assert(records_model(collected@) =~= rs.take(0));
            assert(rs.skip(0) =~= rs);
            assert(payload@.skip(0) =~= payload@);
        }
    }
    loop
        invariant
            pos <= len,
            len == payload@.len(),
            keys@.len() == 9,
            forall|t: int| 0 <= t < 9 ==> (#[trigger] keys@[t])@ == peri_field_names()[t],
            forall|rs: Seq<RecordModel>|
                (peri_records_ok(rs) && payload@ == #[trigger] peri_wire(rs)) ==> {
                    &&& collected@.len() <= rs.len()
                    &&& records_model(collected@) == rs.take(collected@.len() as int)
                    &&& payload@.skip(pos as int) == peri_wire(rs.skip(collected@.len() as int))
                },
        decreases len - pos,
    {
        if pos == len {
            let done = collected;
            proof {
                assert forall|rs: Seq<RecordModel>|
                    (peri_records_ok(rs) && payload@ == #[trigger] peri_wire(rs)) implies
                    records_model(done@) == rs by {
                    let k = done@.len() as int;
                    assert(payload@.skip(pos as int).len() == len - pos);
                    if k < rs.len() {
                        lemma_peri_wire_step(rs.skip(k), 0);
                        assert(rs.skip(k)[0] == rs[k]);
                        lemma_varint_len(peri_body(rs[k]).len());
                        assert(peri_wire(rs.skip(k)).len() >= 1);
                    }
                    assert(k == rs.len());
                    assert(rs.take(k) =~= rs);
                }
            }
            return Ok(done);
        }
        let b: u8 = payload[pos];
        proof {
            assert(payload@.skip(pos as int)[0] == payload@[pos as int]);
        }
        if b != 10 {
            proof {
                assert forall|rs: Seq<RecordModel>|
                    (peri_records_ok(rs) && payload@ == #[trigger] peri_wire(rs)) implies false by {
                    let k = collected@.len() as int;
                    if k < rs.len() {
                        lemma_peri_wire_step(rs, k);
                        assert(payload@.skip(pos as int)[0] == 10);
                    } else {
                        assert(payload@.skip(pos as int).len() == 0);
                    }
                }
            }
            return Err(Error::ProstDecode(String::from_str("unexpected tag in list message")));
        }
        let ghost k_snap = collected@.len() as int;
        proof {
            assert forall|rs: Seq<RecordModel>|
                (peri_records_ok(rs) && payload@ == #[trigger] peri_wire(rs)) implies (k_snap
                < rs.len() && peri_record_ok(rs[k_snap]) && payload@.skip(pos + 1) == varint(
                peri_body(rs[k_snap]).len() as u64 as nat,
            ) + (peri_body(rs[k_snap]) + (peri_wire(rs.skip(k_snap + 1)) + Seq::<u8>::empty())))
                by {
                let k = k_snap;
                if k >= rs.len() {
                    assert(payload@.skip(pos as int).len() == 0);
                }
                lemma_peri_wire_step(rs, k);
                lemma_peri_body_len(rs[k]);
                let l = peri_body(rs[k]).len();
                assert(l as u64 as nat == l);
                let after = varint(l) + (peri_body(rs[k]) + (peri_wire(rs.skip(k + 1))
                    + Seq::<u8>::empty()));
                assert(payload@.skip(pos as int) =~= seq![10u8] + after);
                assert(payload@.skip(pos as int).len() == len - pos);
                assert forall|i: int| 0 <= i < after.len() implies payload@.skip(pos + 1)[i]
                    == after[i] by {
                    assert(payload@.skip(pos + 1)[i] == payload@[pos + 1 + i]);
                    assert(payload@.skip(pos as int)[1 + i] == payload@[pos + 1 + i]);
                }
                assert(payload@.skip(pos + 1).len() == after.len());
                assert(payload@.skip(pos + 1) =~= after);
            }
        }
        let blen_parsed: Option<(u64, usize)> = parse_varint(payload, pos + 1);
        let q0: usize = match blen_parsed {
            Some(p) => p.1,
            None => {
                return Err(Error::ProstDecode(String::from_str("bad element length")));
            },
        };
        proof {
            assert forall|rs: Seq<RecordModel>|
                (peri_records_ok(rs) && payload@ == #[trigger] peri_wire(rs)) implies
                payload@.skip(q0 as int) == peri_fields_bytes(rs[k_snap], 0) + peri_int_tail(
                rs[k_snap],
                peri_wire(rs.skip(k_snap + 1)),
            ) by {
                assert(payload@.skip(q0 as int) == peri_body(rs[k_snap]) + (peri_wire(
                    rs.skip(k_snap + 1),
                ) + Seq::<u8>::empty()));
                assert(peri_body(rs[k_snap]) + (peri_wire(rs.skip(k_snap + 1))
                    + Seq::<u8>::empty()) =~= peri_fields_bytes(rs[k_snap], 0) + peri_int_tail(
                    rs[k_snap],
                    peri_wire(rs.skip(k_snap + 1)),
                ));
            }
        }
        let mut doc: Vec<(String, FieldValue)> = Vec::new();
        let mut q: usize = q0;
        let mut j: usize = 0;
        proof {
            assert forall|rs: Seq<RecordModel>|
                (peri_records_ok(rs) && payload@ == #[trigger] peri_wire(rs)) implies
                fields_model(doc@) == rs[k_snap].fields.take(0) by {
                assert(fields_model(doc@) =~= rs[k_snap].fields.take(0));
            }
        }
        while j < 9
            invariant
                j <= 9,
                pos < q <= len,
                len == payload@.len(),
                doc@.len() == j,
                keys@.len() == 9,
                forall|t: int| 0 <= t < 9 ==> (#[trigger] keys@[t])@ == peri_field_names()[t],
                forall|rs: Seq<RecordModel>|
                    (peri_records_ok(rs) && payload@ == #[trigger] peri_wire(rs)) ==> {
                        &&& k_snap < rs.len()
                        &&& peri_record_ok(rs[k_snap])
                        &&& fields_model(doc@) == rs[k_snap].fields.take(j as int)
                        &&& payload@.skip(q as int) == peri_fields_bytes(rs[k_snap], j as int)
                            + peri_int_tail(rs[k_snap], peri_wire(rs.skip(k_snap + 1)))
                    },
            decreases 9 - j,
        {
            let tag: u8 = 8 * (j as u8) + 10;
            proof {
                assert forall|rs: Seq<RecordModel>|
                    (peri_records_ok(rs) && payload@ == #[trigger] peri_wire(rs)) implies (
                json_safe_str(peri_str(rs[k_snap], j as int)) && peri_str(
                    rs[k_snap],
                    j as int,
                ).len() <= 0xffff_ffff && payload@.skip(q as int) == string_field(
                    tag,
                    peri_str(rs[k_snap], j as int),
                ) + (peri_fields_bytes(rs[k_snap], j + 1) + peri_int_tail(
                    rs[k_snap],
                    peri_wire(rs.skip(k_snap + 1)),
                ))) by {
                    let rm = rs[k_snap];
                    assert(peri_fields_bytes(rm, j as int) == string_field(
                        (8 * (j as int) + 10) as u8,
                        peri_str(rm, j as int),
                    ) + peri_fields_bytes(rm, j + 1));
                    assert(tag == (8 * (j as int) + 10) as u8);
                    assert(payload@.skip(q as int) =~= string_field(tag, peri_str(rm, j as int))
                        + (peri_fields_bytes(rm, j + 1) + peri_int_tail(
                        rm,
                        peri_wire(rs.skip(k_snap + 1)),
                    )));
                }
            }
            let parsed: Option<(String, usize)> = parse_tagged_string(payload, q, tag);
            let (made, q_next) = match parsed {
                Some(p) => p,
                None => {
                    return Err(
                        Error::ProstDecode(String::from_str("missing peripheral-status field")),
                    );
                },
            };
            doc.push((keys[j].clone(), FieldValue::Str(made)));
            q = q_next;
            proof {
                assert forall|rs: Seq<RecordModel>|
                    (peri_records_ok(rs) && payload@ == #[trigger] peri_wire(rs)) implies (
                fields_model(doc@) == rs[k_snap].fields.take(j + 1) && payload@.skip(q as int)
                    == peri_fields_bytes(rs[k_snap], j + 1) + peri_int_tail(
                    rs[k_snap],
                    peri_wire(rs.skip(k_snap + 1)),
                )) by {
                    let rm = rs[k_snap];
                    assert(made@ == peri_str(rm, j as int));
                    assert(rm.fields[j as int].0 == peri_field_names()[j as int]);
                    assert(rm.fields[j as int].1 matches ValueModel::Str(_));
                    assert(fields_model(doc@) =~= rm.fields.take(j + 1));
                }
            }
            j = j + 1;
        }
        proof {
            assert forall|rs: Seq<RecordModel>|
                (peri_records_ok(rs) && payload@ == #[trigger] peri_wire(rs)) implies (
            payload@.skip(q as int) == (seq![80u8] + varint(zigzag32(rs[k_snap].sequence as i32)))
                + (seq![88u8] + varint(rs[k_snap].timestamp as nat) + peri_wire(
                rs.skip(k_snap + 1),
            ))) by {
                let rm = rs[k_snap];
                assert(peri_fields_bytes(rm, 9) == Seq::<u8>::empty());
                assert(peri_fields_bytes(rm, 9) + peri_int_tail(rm, peri_wire(rs.skip(k_snap + 1)))
                    =~= (seq![80u8] + varint(zigzag32(rm.sequence as i32))) + (seq![88u8] + varint(
                    rm.timestamp as nat,
                ) + peri_wire(rs.skip(k_snap + 1))));
            }
        }
        let z_parsed: Option<(u64, usize)> = parse_tagged_varint(payload, q, 80);
        let (z, q10) = match z_parsed {
            Some(p) => p,
            None => {
                proof {
                    assert forall|rs: Seq<RecordModel>|
                        (peri_records_ok(rs) && payload@ == #[trigger] peri_wire(rs)) implies
                        false by {
                        lemma_zigzag32_bound(rs[k_snap].sequence as i32);
                        assert(payload@.skip(q as int) == (seq![80u8] + varint(
                            (zigzag32(rs[k_snap].sequence as i32) as u64) as nat,
                        )) + (seq![88u8] + varint(rs[k_snap].timestamp as nat) + peri_wire(
                            rs.skip(k_snap + 1),
                        )));
                    }
                }
                return Err(Error::ProstDecode(String::from_str("bad sequence value")));
            },
        };
        if z > 0xffff_ffffu64 {
            proof {
                assert forall|rs: Seq<RecordModel>|
                    (peri_records_ok(rs) && payload@ == #[trigger] peri_wire(rs)) implies false by {
                    lemma_zigzag32_bound(rs[k_snap].sequence as i32);
                    assert(payload@.skip(q as int) == (seq![80u8] + varint(
                        (zigzag32(rs[k_snap].sequence as i32) as u64) as nat,
                    )) + (seq![88u8] + varint(rs[k_snap].timestamp as nat) + peri_wire(
                        rs.skip(k_snap + 1),
                    )));
                    assert(z == zigzag32(rs[k_snap].sequence as i32));
                }
            }
            return Err(Error::ProstDecode(String::from_str("sequence value out of range")));
        }
        let sequence: u32 = unzigzag32_exec(z);
        proof {
            assert forall|rs: Seq<RecordModel>|
                (peri_records_ok(rs) && payload@ == #[trigger] peri_wire(rs)) implies (sequence
                == rs[k_snap].sequence && payload@.skip(q10 as int) == (seq![88u8] + varint(
                rs[k_snap].timestamp as nat,
            )) + peri_wire(rs.skip(k_snap + 1))) by {
                lemma_zigzag32_bound(rs[k_snap].sequence as i32);
                assert(payload@.skip(q as int) == (seq![80u8] + varint(
                    (zigzag32(rs[k_snap].sequence as i32) as u64) as nat,
                )) + (seq![88u8] + varint(rs[k_snap].timestamp as nat) + peri_wire(
                    rs.skip(k_snap + 1),
                )));
                assert(z == zigzag32(rs[k_snap].sequence as i32));
                lemma_zigzag32_injective(sequence, rs[k_snap].sequence);
                assert((seq![88u8] + varint(rs[k_snap].timestamp as nat) + peri_wire(
                    rs.skip(k_snap + 1),
                )) =~= (seq![88u8] + varint(rs[k_snap].timestamp as nat)) + peri_wire(
                    rs.skip(k_snap + 1),
                ));
            }
        }
        let ts_parsed: Option<(u64, usize)> = parse_tagged_varint(payload, q10, 88);
        let (timestamp, q11) = match ts_parsed {
            Some(p) => p,
            None => {
                proof {
                    assert forall|rs: Seq<RecordModel>|
                        (peri_records_ok(rs) && payload@ == #[trigger] peri_wire(rs)) implies
                        false by {
                        assert(payload@.skip(q10 as int) == (seq![88u8] + varint(
                            (rs[k_snap].timestamp as u64) as nat,
                        )) + peri_wire(rs.skip(k_snap + 1)));
                    }
                }
                return Err(Error::ProstDecode(String::from_str("bad timestamp value")));
            },
        };
        let rec = Payload { stream: String::new(), sequence, timestamp, payload: doc };
        collected.push(rec);
        pos = q11;
        proof {
            assert forall|rs: Seq<RecordModel>|
                (peri_records_ok(rs) && payload@ == #[trigger] peri_wire(rs)) implies (
            collected@.len() <= rs.len() && records_model(collected@) == rs.take(
                collected@.len() as int,
            ) && payload@.skip(pos as int) == peri_wire(rs.skip(collected@.len() as int))) by {
                let rm = rs[k_snap];
                assert(payload@.skip(q10 as int) == (seq![88u8] + varint(
                    (rm.timestamp as u64) as nat,
                )) + peri_wire(rs.skip(k_snap + 1)));
                assert(timestamp == rm.timestamp);
                assert(payload@.skip(pos as int) == peri_wire(rs.skip(k_snap + 1)));
                assert(rec.model().fields == fields_model(rec.payload@));
                assert(rm.fields.take(9) =~= rm.fields);
                assert(rec.model().fields == rm.fields);
                assert(rec.model() == rm);
                assert(collected@.len() == k_snap + 1);
                assert(records_model(collected@) =~= rs.take(k_snap + 1));
            }
        }
    }
}

/// Deserializes a batch for a topic of the registry.  For every known topic
/// and conforming batch, feeding back the topic's wire form restores the
/// records exactly; the `stream` name, which is not on the wire, comes back
/// empty.
pub fn deserialize(payload: &Vec<u8>, stream: &str) -> (r: Result<Vec<Payload>, Error>)
    ensures
        forall|rs: Seq<RecordModel>|
            (proto_supported(stream@, rs) && payload@ == #[trigger] proto_wire_of(stream@, rs))
                ==> (r matches Ok(v) && records_model(v@) == rs),
        r matches Err(e) ==> e matches Error::UnknownTopic(_) || e matches Error::ProstDecode(_),
{
    proof {
        lemma_proto_topics_distinct();
    }
    let can_target: String = String::from_str("test.canList");
    let peri_target: String = String::from_str("test.peripheralsList");
    let given: String = stream.to_owned();
    if given == can_target {
        let r = deserialize_can(payload, stream);
        proof {
            assert forall|rs: Seq<RecordModel>|
                (proto_supported(stream@, rs) && payload@ == #[trigger] proto_wire_of(stream@, rs))
                    implies (r matches Ok(v) && records_model(v@) == rs)
                by {
                assert(stream@ == "test.canList"@);
                assert(can_records_ok(rs));
                assert(proto_wire_of(stream@, rs) == can_wire(rs));
            }
        }
        r
    } else if given == peri_target {
        let r = deserialize_peri(payload);
        proof {
            assert forall|rs: Seq<RecordModel>|
                (proto_supported(stream@, rs) && payload@ == #[trigger] proto_wire_of(stream@, rs))
                    implies (r matches Ok(v) && records_model(v@) == rs)
                by {
                assert(stream@ == "test.peripheralsList"@);
                assert(peri_records_ok(rs));
                assert(proto_wire_of(stream@, rs) == peri_wire(rs));
            }
        }
        r
    } else {
        Err(Error::UnknownTopic(given))
    }
}

} // verus!
