//! What the writer emits, the reader reads back.

use vstd::prelude::*;
use crate::{SnmpError, fold_be, be_int, pow256, lemma_pow256_7};
use crate::asnreader::{
    spec_read_length, spec_read_raw, spec_read_i64, spec_read_value, spec_read_boolean, spec_read_empty,
};
use crate::varbinds::spec_next_varbind;
use crate::value::ValueSpec;
use crate::snmp::{PduModel, spec_parse_pdu, spec_parse_pdu_body, spec_message_type};
use crate::{asn1, snmp, BUFFER_SIZE};
use crate::objectidentifier::{
    oid_step, spec_decode_oid, subid_high, subid_bytes, subids_bytes, oid_body, oid_well_formed,
};
use crate::pdu::{
    lemma_be_min_len, be_min, length_bytes, tlv, int_octet, mag_body, int_body, int_bytes,
    is_respondable, value_bytes, oid_bytes, varbind_bytes, varbinds_concat, pdu_frame, pdu_bytes,
};

verus! {

/// DER's rule for INTEGER bodies: no leading octet that only repeats the
/// sign of the next one.
pub open spec fn der_minimal(s: Seq<u8>) -> bool {
    &&& s.len() >= 1
    &&& s.len() >= 2 ==> !(s[0] == 0 && s[1] < 128)
    &&& s.len() >= 2 ==> !(s[0] == 0xff && s[1] >= 128)
}

proof fn lemma_be_min_value(n: nat)
    ensures
        fold_be(0, be_min(n)) == n,
        n > 0 ==> be_min(n).len() >= 1,
    decreases n,
{
    if n > 0 {
        lemma_be_min_value(n / 256);
        let b = be_min(n);
        assert(b.drop_last() == be_min(n / 256));
    }
}

/// A length field is read back as the length that was written.
pub proof fn lemma_length_round_trip(n: nat, rest: Seq<u8>)
    requires
        n <= usize::MAX,
    ensures
        spec_read_length(length_bytes(n) + rest) == Ok::<(nat, Seq<u8>), SnmpError>((n, rest)),
{
    let s = length_bytes(n) + rest;
    if n < 128 {
        assert(s.drop_first() =~= rest);
    } else {
        let b = be_min(n);
        lemma_be_min_value(n);
        lemma_pow256_7();
        lemma_be_min_len(n, 8);
        let k = b.len();
        assert(s[0] == 0x80 + k);
        assert(s.subrange(1, 1 + k as int) =~= b);
        assert(s.skip(1 + k as int) =~= rest);
    }
}

/// An element is read back with the body that was written.
pub proof fn lemma_tlv_round_trip(tag: u8, body: Seq<u8>, rest: Seq<u8>)
    requires
        body.len() <= usize::MAX,
    ensures
        spec_read_raw(tlv(tag, body) + rest, tag) == Ok::<(Seq<u8>, Seq<u8>), SnmpError>(
            (body, rest),
        ),
{
    let s = tlv(tag, body) + rest;
    assert(s.drop_first() =~= length_bytes(body.len()) + (body + rest));
    lemma_length_round_trip(body.len(), body + rest);
    assert((body + rest).take(body.len() as int) =~= body);
    assert((body + rest).skip(body.len() as int) =~= rest);
}

proof fn lemma_mag_body_facts(m: nat, neg: bool)
    ensures
        mag_body(m, neg).len() >= 1,
        neg ==> mag_body(m, neg)[0] >= 128,
        !neg ==> mag_body(m, neg)[0] < 128,
        fold_be(if neg { -1 } else { 0 }, mag_body(m, neg)) == if neg { -m - 1 } else { m as int },
        der_minimal(mag_body(m, neg)),
    decreases m,
{
    let init: int = if neg { -1 } else { 0 };
    let s = mag_body(m, neg);
    if m < 128 {
        assert(s.drop_last() =~= Seq::<u8>::empty());
        assert(fold_be(init, s.drop_last()) == init);
        assert(s.last() == s[0]);
        assert(fold_be(init, s) == init * 256 + s[0]);
    } else {
        let q = m / 256;
        let r = m % 256;
        lemma_mag_body_facts(q, neg);
        let p = mag_body(q, neg);
        assert(s == p + seq![int_octet(r, neg)]);
        assert(s.drop_last() =~= p);
        assert(s[0] == p[0]);
        assert(fold_be(init, s) == fold_be(init, p) * 256 + int_octet(r, neg));
        if q < 128 {
            assert(p =~= seq![int_octet(q, neg)]);
        } else {
            let pp = mag_body(q / 256, neg);
            lemma_mag_body_facts(q / 256, neg);
            assert(p == pp + seq![int_octet(q % 256, neg)]);
            assert(p.len() >= 2);
            assert(s[1] == p[1]);
        }
    }
}

proof fn lemma_mag_body_len(m: nat, neg: bool, k: nat)
    requires
        m < 128 * pow256(k),
    ensures
        mag_body(m, neg).len() <= k + 1,
    decreases m,
{
    if m >= 128 {
        assert(k > 0) by {
            if k == 0 {
                assert(pow256(0) == 1);
            }
        }
        let p = pow256((k - 1) as nat);
        assert(m / 256 < 128 * p) by (nonlinear_arith)
            requires
                m < 128 * (256 * p),
        ;
        lemma_mag_body_len(m / 256, neg, (k - 1) as nat);
    }
}

/// Facts about the body of a 64-bit INTEGER: at most eight octets, minimal,
/// and its two's-complement value is `n`.
pub proof fn lemma_int_body(n: i64)
    ensures
        1 <= int_body(n as int).len() <= 8,
        der_minimal(int_body(n as int)),
        be_int(int_body(n as int)) == n,
{
    let neg = n < 0;
    let m: nat = if neg { (-(n as int) - 1) as nat } else { n as nat };
    lemma_mag_body_facts(m, neg);
    lemma_pow256_7();
    lemma_mag_body_len(m, neg, 7);
}

/// Encoding an INTEGER-like element and reading it back gives the same
/// value, and the body is of minimal length.
pub proof fn lemma_integer_round_trip(tag: u8, n: i64, rest: Seq<u8>)
    ensures
        spec_read_i64(int_bytes(tag, n as int) + rest, tag) == Ok::<(i64, Seq<u8>), SnmpError>(
            (n, rest),
        ),
        der_minimal(int_body(n as int)),
{
    lemma_int_body(n);
    lemma_tlv_round_trip(tag, int_body(n as int), rest);
}

proof fn lemma_subid_high_step(w: nat, tail: Seq<u8>, acc: Seq<u32>, d: bool)
    requires
        acc.len() < 128,
        w < 0x2000000,
    ensures
        oid_step(subid_high(w) + tail, acc, 0, d) == oid_step(
            tail,
            acc,
            w as int,
            if w == 0 { d } else { false },
        ),
    decreases w,
{
    if w == 0 {
        assert(subid_high(w) + tail =~= tail);
    } else {
        let q = w / 128;
        let b = (w % 128 + 128) as u8;
        let t2 = seq![b] + tail;
        assert(subid_high(w) + tail =~= subid_high(q) + t2);
        lemma_subid_high_step(q, t2, acc, d);
        assert(t2[0] == b);
        assert(t2.drop_first() =~= tail);
        assert(b % 128 == w % 128);
        assert(q * 128 + w % 128 == w);
    }
}

proof fn lemma_subid_step(v: u32, rest: Seq<u8>, acc: Seq<u32>, d: bool)
    requires
        acc.len() < 128,
    ensures
        oid_step(subid_bytes(v as nat) + rest, acc, 0, d) == oid_step(rest, acc.push(v), 0, true),
{
    let w = (v / 128) as nat;
    let b = (v % 128) as u8;
    let t2 = seq![b] + rest;
    assert(subid_bytes(v as nat) + rest =~= subid_high(w) + t2);
    lemma_subid_high_step(w, t2, acc, d);
    assert(t2[0] == b);
    assert(t2.drop_first() =~= rest);
    assert(w * 128 + b % 128 == v);
}

proof fn lemma_subids_step(ids: Seq<u32>, acc: Seq<u32>, d: bool)
    requires
        ids.len() >= 1,
        acc.len() + ids.len() <= 128,
    ensures
        oid_step(subids_bytes(ids), acc, 0, d) == Ok::<Seq<u32>, SnmpError>(acc + ids),
    decreases ids.len(),
{
    let rest = ids.drop_first();
    lemma_subid_step(ids[0], subids_bytes(rest), acc, d);
    if rest.len() == 0 {
        assert(subids_bytes(rest) == Seq::<u8>::empty());
        assert(subids_bytes(ids) =~= subid_bytes(ids[0] as nat) + subids_bytes(rest));
        assert(acc.push(ids[0]) =~= acc + ids);
    } else {
        lemma_subids_step(rest, acc.push(ids[0]), true);
        assert(acc.push(ids[0]) + rest =~= acc + ids);
    }
}

/// Encoding a name of three to 128 sub-identifiers and decoding the content
/// octets gives the name back. (A name of two sub-identifiers is written
/// as one octet, which the decoder refuses as too short.)
pub proof fn lemma_oid_round_trip(ids: Seq<u32>)
    requires
        oid_well_formed(ids),
        3 <= ids.len() <= 128,
    ensures
        spec_decode_oid(oid_body(ids)) == Ok::<Seq<u32>, SnmpError>(ids),
{
    let raw = oid_body(ids);
    let first = (ids[0] * 40 + ids[1]) as u8;
    assert(raw[0] == first);
    assert(first / 40 == ids[0] && first % 40 == ids[1]);
    let init = seq![(first / 40) as u32, (first % 40) as u32];
    assert(raw.drop_first() =~= subids_bytes(ids.skip(2)));
    lemma_subids_step(ids.skip(2), init, false);
    assert(init + ids.skip(2) =~= ids);
    assert(raw.len() >= 2) by {
        assert(subid_bytes(ids[2] as nat).len() >= 1);
        assert(ids.skip(2)[0] == ids[2]);
    }
}

/// A name of two sub-identifiers is written as one octet and is refused
/// when read back.
pub proof fn lemma_oid_two_arcs(ids: Seq<u32>)
    requires
        oid_well_formed(ids),
        ids.len() == 2,
    ensures
        spec_decode_oid(oid_body(ids)) == Err::<Seq<u32>, SnmpError>(SnmpError::AsnInvalidLen),
{
    assert(ids.skip(2) =~= Seq::<u32>::empty());
    assert(subids_bytes(ids.skip(2)) == Seq::<u8>::empty());
    assert(oid_body(ids).len() == 1);
}

/// A value whose wire form keeps its shape: an IpAddress holds four octets.
pub open spec fn value_valid(v: ValueSpec) -> bool {
    v is IpAddress ==> v->IpAddress_0.len() == 4
}

proof fn lemma_boolean_round_trip(b: bool, rest: Seq<u8>)
    ensures
        spec_read_value(value_bytes(ValueSpec::Boolean(b)) + rest) == Ok::<
            (ValueSpec, Seq<u8>),
            SnmpError,
        >((ValueSpec::Boolean(b), rest)),
{
    let s = value_bytes(ValueSpec::Boolean(b)) + rest;
    let byte: u8 = if b { 1u8 } else { 0u8 };
    let r2 = seq![byte] + rest;
    assert(s.drop_first() =~= seq![1u8] + r2);
    lemma_length_round_trip(1, r2);
    assert(r2.drop_first() =~= rest);
    assert(r2[0] == byte);
    assert(s[0] == asn1::TYPE_BOOLEAN);
    assert(spec_read_boolean(s) == Ok::<(bool, Seq<u8>), SnmpError>((b, rest)));
}

proof fn lemma_empty_round_trip(v: ValueSpec, rest: Seq<u8>)
    requires
        v is Null || v is EndOfMibView || v is NoSuchObject || v is NoSuchInstance,
    ensures
        spec_read_value(value_bytes(v) + rest) == Ok::<(ValueSpec, Seq<u8>), SnmpError>((v, rest)),
{
    let s = value_bytes(v) + rest;
    assert(s.drop_first() =~= seq![0u8] + rest);
    lemma_length_round_trip(0, rest);
    assert(spec_read_empty(s, s[0]) == Ok::<Seq<u8>, SnmpError>(rest));
}

proof fn lemma_windowed_round_trip(v: ValueSpec, rest: Seq<u8>)
    requires
        v is OctetString || v is ObjectIdentifier || v is Opaque || v is IpAddress,
        value_valid(v),
        value_bytes(v).len() <= usize::MAX,
    ensures
        spec_read_value(value_bytes(v) + rest) == Ok::<(ValueSpec, Seq<u8>), SnmpError>((v, rest)),
{
    match v {
        ValueSpec::OctetString(b) => lemma_tlv_round_trip(asn1::TYPE_OCTETSTRING, b, rest),
        ValueSpec::ObjectIdentifier(b) => lemma_tlv_round_trip(
            asn1::TYPE_OBJECTIDENTIFIER,
            b,
            rest,
        ),
        ValueSpec::Opaque(b) => lemma_tlv_round_trip(snmp::TYPE_OPAQUE, b, rest),
        ValueSpec::IpAddress(b) => lemma_tlv_round_trip(snmp::TYPE_IPADDRESS, b, rest),
        _ => {},
    }
}

proof fn lemma_numeric_round_trip(v: ValueSpec, rest: Seq<u8>)
    requires
        v is Integer || v is Counter32 || v is Unsigned32 || v is Timeticks || v is Counter64,
    ensures
        spec_read_value(value_bytes(v) + rest) == Ok::<(ValueSpec, Seq<u8>), SnmpError>((v, rest)),
{
    let s = value_bytes(v) + rest;
    match v {
        ValueSpec::Integer(n) => {
            lemma_integer_round_trip(asn1::TYPE_INTEGER, n, rest);
        },
        ValueSpec::Counter32(n) => {
            let m = n as i64;
            lemma_integer_round_trip(snmp::TYPE_COUNTER32, m, rest);
            assert(s[0] == snmp::TYPE_COUNTER32);
            assert(m as u32 == n);
        },
        ValueSpec::Unsigned32(n) => {
            let m = n as i64;
            lemma_integer_round_trip(snmp::TYPE_UNSIGNED32, m, rest);
            assert(s[0] == snmp::TYPE_UNSIGNED32);
            assert(m as u32 == n);
        },
        ValueSpec::Timeticks(n) => {
            let m = n as i64;
            lemma_integer_round_trip(snmp::TYPE_TIMETICKS, m, rest);
            assert(s[0] == snmp::TYPE_TIMETICKS);
            assert(m as u32 == n);
        },
        ValueSpec::Counter64(n) => {
            let m = #[verifier::truncate] (n as i64);
            lemma_integer_round_trip(snmp::TYPE_COUNTER64, m, rest);
            assert(s[0] == snmp::TYPE_COUNTER64);
            assert((#[verifier::truncate] ((#[verifier::truncate] (n as i64)) as u64)) == n)
                by (bit_vector);
        },
        _ => {},
    }
}

/// Writing a value and reading it back gives the same value.
pub proof fn lemma_value_round_trip(v: ValueSpec, rest: Seq<u8>)
    requires
        is_respondable(v),
        value_valid(v),
        value_bytes(v).len() <= usize::MAX,
    ensures
        spec_read_value(value_bytes(v) + rest) == Ok::<(ValueSpec, Seq<u8>), SnmpError>((v, rest)),
{
    if let ValueSpec::Boolean(b) = v {
        lemma_boolean_round_trip(b, rest);
    } else if v is Null || v is EndOfMibView || v is NoSuchObject || v is NoSuchInstance {
        lemma_empty_round_trip(v, rest);
    } else if v is OctetString || v is ObjectIdentifier || v is Opaque || v is IpAddress {
        lemma_windowed_round_trip(v, rest);
    } else {
        lemma_numeric_round_trip(v, rest);
    }
}

/// Reading a written varbind gives its name's content octets and its value.
pub proof fn lemma_varbind_round_trip(vb: (Seq<u32>, ValueSpec), rest: Seq<u8>)
    requires
        is_respondable(vb.1),
        value_valid(vb.1),
        varbind_bytes(vb).len() <= usize::MAX,
    ensures
        spec_next_varbind(varbind_bytes(vb) + rest) == Some((oid_body(vb.0), vb.1, rest)),
{
    let inner = oid_bytes(vb.0) + value_bytes(vb.1);
    lemma_tlv_round_trip(asn1::TYPE_SEQUENCE, inner, rest);
    lemma_tlv_round_trip(asn1::TYPE_OBJECTIDENTIFIER, crate::objectidentifier::oid_body(vb.0), value_bytes(vb.1));
    lemma_value_round_trip(vb.1, Seq::<u8>::empty());
    assert(value_bytes(vb.1) + Seq::<u8>::empty() =~= value_bytes(vb.1));
}

/// Every pair of the varbind list contents `s`, read one after another
/// until the list ends or a pair fails to decode.
pub open spec fn spec_varbinds_all(s: Seq<u8>) -> Seq<(Seq<u8>, ValueSpec)>
    decreases s.len(),
{
    match spec_next_varbind(s) {
        None => seq![],
        Some((name, v, rest)) => if rest.len() < s.len() {
            seq![(name, v)] + spec_varbinds_all(rest)
        } else {
            seq![]
        },
    }
}

/// The pairs as the reader gives them: each name as its content octets.
pub open spec fn varbinds_as_read(vbs: Seq<(Seq<u32>, ValueSpec)>) -> Seq<(Seq<u8>, ValueSpec)> {
    vbs.map_values(|p: (Seq<u32>, ValueSpec)| (oid_body(p.0), p.1))
}

/// Whether every pair can be written and read back.
pub open spec fn varbinds_valid(vbs: Seq<(Seq<u32>, ValueSpec)>) -> bool {
    forall|i: int|
        0 <= i < vbs.len() ==> is_respondable(#[trigger] vbs[i].1) && value_valid(vbs[i].1)
            && oid_well_formed(vbs[i].0)
}

/// Walking the written varbind list gives back every pair in order.
pub proof fn lemma_varbinds_round_trip(vbs: Seq<(Seq<u32>, ValueSpec)>)
    requires
        varbinds_valid(vbs),
        varbinds_concat(vbs).len() <= usize::MAX,
    ensures
        spec_varbinds_all(varbinds_concat(vbs)) == varbinds_as_read(vbs),
    decreases vbs.len(),
{
    if vbs.len() == 0 {
        assert(spec_next_varbind(Seq::<u8>::empty()) is None);
        assert(varbinds_as_read(vbs) =~= Seq::<(Seq<u8>, ValueSpec)>::empty());
    } else {
        let rest = vbs.drop_first();
        assert(varbinds_valid(rest)) by {
            assert forall|i: int| 0 <= i < rest.len() implies is_respondable(#[trigger] rest[i].1)
                && value_valid(rest[i].1) && oid_well_formed(rest[i].0) by {
                assert(rest[i] == vbs[i + 1]);
            }
        }
        let first = vbs[0];
        let s = varbinds_concat(vbs);
        let tail = varbinds_concat(rest);
        assert(s == varbind_bytes(first) + tail);
        assert(varbind_bytes(first).len() >= 1);
        assert(spec_next_varbind(s) == Some((oid_body(first.0), first.1, tail))) by {
            lemma_varbind_round_trip(first, tail);
        }
        lemma_varbinds_round_trip(rest);
        assert(spec_varbinds_all(s) == seq![(oid_body(first.0), first.1)] + spec_varbinds_all(
            tail,
        ));
        assert(varbinds_as_read(vbs) =~= seq![(oid_body(first.0), first.1)] + varbinds_as_read(
            rest,
        ));
    }
}

/// The header fields that a message with these parts is parsed into.
pub open spec fn header_model(
    tag: u8,
    community: Seq<u8>,
    req_id: i32,
    field1: i64,
    field2: i64,
    list: Seq<u8>,
) -> PduModel {
    PduModel {
        community,
        message_type: spec_message_type(tag)->Ok_0,
        req_id,
        error_status: field1 as u32,
        error_index: field2 as u32,
        varbinds: list,
    }
}

/// Parsing a written message gives back its header fields and the varbind
/// list contents.
pub proof fn lemma_frame_round_trip(
    tag: u8,
    community: Seq<u8>,
    req_id: i32,
    field1: i64,
    field2: i64,
    list: Seq<u8>,
)
    requires
        spec_message_type(tag) is Ok,
        0 <= field1 <= i32::MAX,
        0 <= field2 <= i32::MAX,
        pdu_frame(tag, community, req_id as int, field1 as int, field2 as int, list).len()
            <= BUFFER_SIZE,
    ensures
        spec_parse_pdu(pdu_frame(tag, community, req_id as int, field1 as int, field2 as int, list))
            == Ok::<PduModel, SnmpError>(header_model(tag, community, req_id, field1, field2, list)),
{
    let e = Seq::<u8>::empty();
    let l = tlv(asn1::TYPE_SEQUENCE, list);
    let inner = int_bytes(asn1::TYPE_INTEGER, req_id as int) + int_bytes(
        asn1::TYPE_INTEGER,
        field1 as int,
    ) + int_bytes(asn1::TYPE_INTEGER, field2 as int) + l;
    let c = tlv(tag, inner);
    let b = tlv(asn1::TYPE_OCTETSTRING, community);
    let a = int_bytes(asn1::TYPE_INTEGER, snmp::VERSION_2 as int);
    let outer = a + b + c;
    let all = pdu_frame(tag, community, req_id as int, field1 as int, field2 as int, list);
    assert(all + e =~= tlv(asn1::TYPE_SEQUENCE, outer) + e);
    lemma_tlv_round_trip(asn1::TYPE_SEQUENCE, outer, e);
    assert(outer =~= a + (b + c));
    lemma_integer_round_trip(asn1::TYPE_INTEGER, snmp::VERSION_2, b + c);
    lemma_tlv_round_trip(asn1::TYPE_OCTETSTRING, community, c);
    assert(c + e =~= c);
    lemma_tlv_round_trip(tag, inner, e);
    lemma_body_round_trip(tag, community, req_id, field1, field2, list);
    assert(all =~= all + e);
}

#[verifier::rlimit(80)]
proof fn lemma_body_round_trip(
    tag: u8,
    community: Seq<u8>,
    req_id: i32,
    field1: i64,
    field2: i64,
    list: Seq<u8>,
)
    requires
        spec_message_type(tag) is Ok,
        0 <= field1 <= i32::MAX,
        0 <= field2 <= i32::MAX,
        list.len() <= BUFFER_SIZE,
    ensures
        spec_parse_pdu_body(
            community,
            spec_message_type(tag)->Ok_0,
            int_bytes(asn1::TYPE_INTEGER, req_id as int) + int_bytes(asn1::TYPE_INTEGER, field1 as int)
                + int_bytes(asn1::TYPE_INTEGER, field2 as int) + tlv(asn1::TYPE_SEQUENCE, list),
        ) == Ok::<PduModel, SnmpError>(header_model(tag, community, req_id, field1, field2, list)),
{
    let e = Seq::<u8>::empty();
    let l = tlv(asn1::TYPE_SEQUENCE, list);
    let i3 = int_bytes(asn1::TYPE_INTEGER, field2 as int);
    let i2 = int_bytes(asn1::TYPE_INTEGER, field1 as int);
    let i1 = int_bytes(asn1::TYPE_INTEGER, req_id as int);
    assert(i1 + i2 + i3 + l =~= i1 + (i2 + (i3 + l)));
    lemma_integer_round_trip(asn1::TYPE_INTEGER, req_id as i64, i2 + (i3 + l));
    lemma_integer_round_trip(asn1::TYPE_INTEGER, field1, i3 + l);
    lemma_integer_round_trip(asn1::TYPE_INTEGER, field2, l);
    assert(l + e =~= l);
    lemma_tlv_round_trip(asn1::TYPE_SEQUENCE, list, e);
    assert(spec_read_raw(l, asn1::TYPE_SEQUENCE) == Ok::<(Seq<u8>, Seq<u8>), SnmpError>((list, e)));
    assert(spec_read_i64(i3 + l, asn1::TYPE_INTEGER) == Ok::<(i64, Seq<u8>), SnmpError>((field2, l)));
    assert(spec_read_i64(i2 + (i3 + l), asn1::TYPE_INTEGER) == Ok::<(i64, Seq<u8>), SnmpError>(
        (field1, i3 + l),
    ));
    assert(spec_read_i64(i1 + (i2 + (i3 + l)), asn1::TYPE_INTEGER) == Ok::<(i64, Seq<u8>), SnmpError>(
        (req_id as i64, i2 + (i3 + l)),
    ));
}

/// Building a message and parsing it gives back the request id, community,
/// message type, error status and index, and every varbind's name and value
/// in order; each name of three to 128 sub-identifiers decodes to itself.
pub proof fn lemma_pdu_round_trip(
    tag: u8,
    community: Seq<u8>,
    req_id: i32,
    field1: i64,
    field2: i64,
    vbs: Seq<(Seq<u32>, ValueSpec)>,
)
    requires
        spec_message_type(tag) is Ok,
        0 <= field1 <= i32::MAX,
        0 <= field2 <= i32::MAX,
        varbinds_valid(vbs),
        pdu_bytes(tag, community, req_id as int, field1 as int, field2 as int, vbs).len()
            <= BUFFER_SIZE,
    ensures
        spec_parse_pdu(pdu_bytes(tag, community, req_id as int, field1 as int, field2 as int, vbs))
            == Ok::<PduModel, SnmpError>(
            header_model(tag, community, req_id, field1, field2, varbinds_concat(vbs)),
        ),
        spec_varbinds_all(varbinds_concat(vbs)) == varbinds_as_read(vbs),
        forall|i: int|
            0 <= i < vbs.len() && 3 <= #[trigger] vbs[i].0.len() <= 128 ==> spec_decode_oid(
                varbinds_as_read(vbs)[i].0,
            ) == Ok::<Seq<u32>, SnmpError>(vbs[i].0),
{
    lemma_frame_round_trip(tag, community, req_id, field1, field2, varbinds_concat(vbs));
    lemma_varbinds_round_trip(vbs);
    lemma_names_round_trip(vbs);
}

proof fn lemma_names_round_trip(vbs: Seq<(Seq<u32>, ValueSpec)>)
    requires
        varbinds_valid(vbs),
    ensures
        forall|i: int|
            0 <= i < vbs.len() && 3 <= #[trigger] vbs[i].0.len() <= 128 ==> spec_decode_oid(
                varbinds_as_read(vbs)[i].0,
            ) == Ok::<Seq<u32>, SnmpError>(vbs[i].0),
{
    assert forall|i: int|
        0 <= i < vbs.len() && 3 <= #[trigger] vbs[i].0.len() <= 128 implies spec_decode_oid(
            varbinds_as_read(vbs)[i].0,
        ) == Ok::<Seq<u32>, SnmpError>(vbs[i].0) by {
        assert(oid_well_formed(vbs[i].0));
        lemma_oid_round_trip(vbs[i].0);
    }
}

/// The reader holds to DER: a BOOLEAN body other than 0 or 1, the
/// indefinite length form, the reserved length octet 0xFF and a body shorter
/// than its declared length are all refused.
pub proof fn lemma_der_strictness(tag: u8, n: u8, body: Seq<u8>, rest: Seq<u8>)
    requires
        n < 128,
        body.len() < n,
    ensures
        spec_read_boolean(seq![asn1::TYPE_BOOLEAN, 1u8, 2u8] + rest) == Err::<(bool, Seq<u8>), SnmpError>(
            SnmpError::AsnParseError,
        ),
        spec_read_length(seq![0x80u8] + rest) == Err::<(nat, Seq<u8>), SnmpError>(
            SnmpError::AsnInvalidLen,
        ),
        spec_read_length(seq![0xffu8] + rest) == Err::<(nat, Seq<u8>), SnmpError>(
            SnmpError::AsnInvalidLen,
        ),
        spec_read_raw(seq![tag, n] + body, tag) == Err::<(Seq<u8>, Seq<u8>), SnmpError>(
            SnmpError::AsnInvalidLen,
        ),
{
    let s = seq![asn1::TYPE_BOOLEAN, 1u8, 2u8] + rest;
    assert(s.drop_first() =~= seq![1u8] + (seq![2u8] + rest));
    lemma_length_round_trip(1, seq![2u8] + rest);
    assert((seq![2u8] + rest)[0] == 2);
    let t = seq![tag, n] + body;
    assert(t.drop_first() =~= seq![n] + body);
    assert((seq![n] + body).drop_first() =~= body);
    assert((seq![0x80u8] + rest)[0] == 0x80);
    assert((seq![0xffu8] + rest)[0] == 0xff);
}

/// A message whose version field is 0 is refused as an unsupported version.
pub proof fn lemma_version_rejection(rest: Seq<u8>)
    requires
        rest.len() < BUFFER_SIZE,
    ensures
        spec_parse_pdu(tlv(asn1::TYPE_SEQUENCE, int_bytes(asn1::TYPE_INTEGER, 0) + rest))
            == Err::<PduModel, SnmpError>(SnmpError::UnsupportedVersion),
{
    let outer = int_bytes(asn1::TYPE_INTEGER, 0) + rest;
    let e = Seq::<u8>::empty();
    assert(tlv(asn1::TYPE_SEQUENCE, outer) + e =~= tlv(asn1::TYPE_SEQUENCE, outer));
    lemma_tlv_round_trip(asn1::TYPE_SEQUENCE, outer, e);
    lemma_integer_round_trip(asn1::TYPE_INTEGER, 0, rest);
}

/// A message whose request id is 2^31 is refused as out of range.
#[verifier::rlimit(40)]
pub proof fn lemma_req_id_rejection(
    tag: u8,
    community: Seq<u8>,
    field1: i64,
    field2: i64,
    list: Seq<u8>,
)
    requires
        spec_message_type(tag) is Ok,
        pdu_frame(tag, community, 0x80000000, field1 as int, field2 as int, list).len()
            <= BUFFER_SIZE,
    ensures
        spec_parse_pdu(pdu_frame(tag, community, 0x80000000, field1 as int, field2 as int, list))
            == Err::<PduModel, SnmpError>(SnmpError::ValueOutOfRange),
{
    let e = Seq::<u8>::empty();
    let l = tlv(asn1::TYPE_SEQUENCE, list);
    let i3 = int_bytes(asn1::TYPE_INTEGER, field2 as int);
    let i2 = int_bytes(asn1::TYPE_INTEGER, field1 as int);
    let i1 = int_bytes(asn1::TYPE_INTEGER, 0x80000000);
    let inner = i1 + i2 + i3 + l;
    let c = tlv(tag, inner);
    let b = tlv(asn1::TYPE_OCTETSTRING, community);
    let a = int_bytes(asn1::TYPE_INTEGER, snmp::VERSION_2 as int);
    let outer = a + b + c;
    let all = pdu_frame(tag, community, 0x80000000, field1 as int, field2 as int, list);
    assert(all + e =~= tlv(asn1::TYPE_SEQUENCE, outer) + e);
    lemma_tlv_round_trip(asn1::TYPE_SEQUENCE, outer, e);
    assert(outer =~= a + (b + c));
    lemma_integer_round_trip(asn1::TYPE_INTEGER, snmp::VERSION_2, b + c);
    lemma_tlv_round_trip(asn1::TYPE_OCTETSTRING, community, c);
    assert(c + e =~= c);
    lemma_tlv_round_trip(tag, inner, e);
    assert(inner =~= i1 + (i2 + i3 + l));
    lemma_integer_round_trip(asn1::TYPE_INTEGER, 0x80000000, i2 + i3 + l);
    assert(spec_parse_pdu_body(community, spec_message_type(tag)->Ok_0, inner) == Err::<
        PduModel,
        SnmpError,
    >(SnmpError::ValueOutOfRange));
    assert(all =~= all + e);
}

} // verus!
