//! The reverse DER writer and the PDU builders.

use vstd::prelude::*;
use crate::{BUFFER_SIZE, pow256, lemma_pow256_7};
use crate::asn1;
use crate::snmp;
use crate::objectidentifier::{oid_body, oid_well_formed, subid_bytes, subid_high, subids_bytes};
use crate::value::{Value, ValueSpec};

verus! {

/// Minimal unsigned big-endian octets of `n` (empty for zero).
pub open spec fn be_min(n: nat) -> Seq<u8>
    decreases n,
{
    if n == 0 {
        seq![]
    } else {
        be_min(n / 256) + seq![(n % 256) as u8]
    }
}

/// A DER length field: short form below 128, else long form.
pub open spec fn length_bytes(n: nat) -> Seq<u8> {
    if n < 128 {
        seq![n as u8]
    } else {
        seq![(0x80 + be_min(n).len()) as u8] + be_min(n)
    }
}

/// Identifier, length and body of one element.
pub open spec fn tlv(tag: u8, body: Seq<u8>) -> Seq<u8> {
    seq![tag] + length_bytes(body.len()) + body
}

/// One octet of a two's-complement body: `x`, or its complement when the
/// value is negative.
pub open spec fn int_octet(x: nat, neg: bool) -> u8 {
    if neg {
        (255 - x) as u8
    } else {
        x as u8
    }
}

/// Minimal two's-complement octets of `-m-1` (when `neg`) or `m`.
pub open spec fn mag_body(m: nat, neg: bool) -> Seq<u8>
    decreases m,
{
    if m < 128 {
        seq![int_octet(m, neg)]
    } else {
        mag_body(m / 256, neg) + seq![int_octet(m % 256, neg)]
    }
}

/// Minimal two's-complement big-endian body of the INTEGER `n`.
pub open spec fn int_body(n: int) -> Seq<u8> {
    if n >= 0 {
        mag_body(n as nat, false)
    } else {
        mag_body((-n - 1) as nat, true)
    }
}

/// An INTEGER-like element with identifier `tag`.
pub open spec fn int_bytes(tag: u8, n: int) -> Seq<u8> {
    tlv(tag, int_body(n))
}

/// Values that a SetRequest can carry.
pub open spec fn is_settable(v: ValueSpec) -> bool {
    match v {
        ValueSpec::Boolean(_) => true,
        ValueSpec::Null => true,
        ValueSpec::Integer(_) => true,
        ValueSpec::OctetString(_) => true,
        ValueSpec::ObjectIdentifier(_) => true,
        ValueSpec::IpAddress(_) => true,
        ValueSpec::Counter32(_) => true,
        ValueSpec::Unsigned32(_) => true,
        ValueSpec::Timeticks(_) => true,
        ValueSpec::Opaque(_) => true,
        ValueSpec::Counter64(_) => true,
        _ => false,
    }
}

/// Values that a Response can carry: those of a SetRequest and the three
/// exception markers.
pub open spec fn is_respondable(v: ValueSpec) -> bool {
    ||| is_settable(v)
    ||| v is EndOfMibView
    ||| v is NoSuchObject
    ||| v is NoSuchInstance
}

/// Wire form of a value.
pub open spec fn value_bytes(v: ValueSpec) -> Seq<u8> {
    match v {
        ValueSpec::Boolean(b) => seq![asn1::TYPE_BOOLEAN, 1u8, if b { 1u8 } else { 0u8 }],
        ValueSpec::Null => seq![asn1::TYPE_NULL, 0u8],
        ValueSpec::Integer(n) => int_bytes(asn1::TYPE_INTEGER, n as int),
        ValueSpec::OctetString(s) => tlv(asn1::TYPE_OCTETSTRING, s),
        ValueSpec::ObjectIdentifier(s) => tlv(asn1::TYPE_OBJECTIDENTIFIER, s),
        ValueSpec::IpAddress(ip) => tlv(snmp::TYPE_IPADDRESS, ip),
        ValueSpec::Counter32(n) => int_bytes(snmp::TYPE_COUNTER32, n as int),
        ValueSpec::Unsigned32(n) => int_bytes(snmp::TYPE_UNSIGNED32, n as int),
        ValueSpec::Timeticks(n) => int_bytes(snmp::TYPE_TIMETICKS, n as int),
        ValueSpec::Opaque(s) => tlv(snmp::TYPE_OPAQUE, s),
        ValueSpec::Counter64(n) => int_bytes(snmp::TYPE_COUNTER64, (#[verifier::truncate] (n as i64)) as int),
        ValueSpec::EndOfMibView => seq![snmp::SNMP_ENDOFMIBVIEW, 0u8],
        ValueSpec::NoSuchObject => seq![snmp::SNMP_NOSUCHOBJECT, 0u8],
        ValueSpec::NoSuchInstance => seq![snmp::SNMP_NOSUCHINSTANCE, 0u8],
        _ => seq![],
    }
}

/// An OBJECT IDENTIFIER element for the name `ids`.
pub open spec fn oid_bytes(ids: Seq<u32>) -> Seq<u8> {
    tlv(asn1::TYPE_OBJECTIDENTIFIER, oid_body(ids))
}

/// One varbind: SEQUENCE { name, value }.
pub open spec fn varbind_bytes(vb: (Seq<u32>, ValueSpec)) -> Seq<u8> {
    tlv(asn1::TYPE_SEQUENCE, oid_bytes(vb.0) + value_bytes(vb.1))
}

/// The varbinds `vbs`, one after the other.
pub open spec fn varbinds_concat(vbs: Seq<(Seq<u32>, ValueSpec)>) -> Seq<u8>
    decreases vbs.len(),
{
    if vbs.len() == 0 {
        seq![]
    } else {
        varbind_bytes(vbs[0]) + varbinds_concat(vbs.drop_first())
    }
}

/// A whole SNMPv2c message around the varbind list contents `list`: version,
/// community and the PDU with tag `tag`, request id and the two integer fields.
pub open spec fn pdu_frame(
    tag: u8,
    community: Seq<u8>,
    req_id: int,
    field1: int,
    field2: int,
    list: Seq<u8>,
) -> Seq<u8> {
    tlv(
        asn1::TYPE_SEQUENCE,
        int_bytes(asn1::TYPE_INTEGER, snmp::VERSION_2 as int) + tlv(asn1::TYPE_OCTETSTRING, community)
            + tlv(
            tag,
            int_bytes(asn1::TYPE_INTEGER, req_id) + int_bytes(asn1::TYPE_INTEGER, field1)
                + int_bytes(asn1::TYPE_INTEGER, field2) + tlv(asn1::TYPE_SEQUENCE, list),
        ),
    )
}

/// A whole SNMPv2c message carrying the varbinds `vbs`.
pub open spec fn pdu_bytes(
    tag: u8,
    community: Seq<u8>,
    req_id: int,
    field1: int,
    field2: int,
    vbs: Seq<(Seq<u32>, ValueSpec)>,
) -> Seq<u8> {
    pdu_frame(tag, community, req_id, field1, field2, varbinds_concat(vbs))
}

/// The names held by a list of borrowed names.
pub open spec fn names_model(names: Seq<&[u32]>) -> Seq<Seq<u32>> {
    names.map_values(|n: &[u32]| n@)
}

/// Each name paired with a NULL value.
pub open spec fn null_varbinds(names: Seq<Seq<u32>>) -> Seq<(Seq<u32>, ValueSpec)> {
    names.map_values(|n: Seq<u32>| (n, ValueSpec::Null))
}

/// The model of a list of (name, value) pairs.
pub open spec fn pairs_model(values: Seq<(&[u32], Value)>) -> Seq<(Seq<u32>, ValueSpec)> {
    values.map_values(|p: (&[u32], Value)| (p.0@, p.1@))
}

/// Fixed-capacity buffer filled from its tail toward its front; the encoded
/// message is always its last `len` bytes.
pub struct Buf {
    len: usize,
    buf: [u8; 4096],
}

impl View for Buf {
    type V = Seq<u8>;

    closed spec fn view(&self) -> Seq<u8> {
        self.buf@.subrange(BUFFER_SIZE - self.len, BUFFER_SIZE as int)
    }
}

impl Default for Buf {
    fn default() -> (r: Buf)
        ensures
            r.wf(),
            r@ == Seq::<u8>::empty(),
    {
        let r = Buf { len: 0, buf: [0u8; 4096] };
        assert(r@ =~= Seq::<u8>::empty());
        r
    }
}

/// `n` below `256^k` has at most `k` minimal octets.
pub proof fn lemma_be_min_len(n: nat, k: nat)
    requires
        n < pow256(k),
    ensures
        be_min(n).len() <= k,
    decreases n,
{
    if n > 0 {
        assert(k > 0);
        let p = pow256((k - 1) as nat);
        assert(n / 256 < p) by (nonlinear_arith)
            requires
                n < 256 * p,
        ;
        lemma_be_min_len(n / 256, (k - 1) as nat);
    }
}

impl Buf {
    /// The buffer's invariant: the written part fits its capacity.
    pub closed spec fn wf(&self) -> bool {
        self.len <= BUFFER_SIZE
    }

    /// Number of bytes written.
    pub fn len(&self) -> (r: usize)
        requires
            self.wf(),
        ensures
            r == self@.len(),
    {
        self.len
    }

    /// The encoded bytes.
    pub fn as_bytes(&self) -> (r: &[u8])
        requires
            self.wf(),
        ensures
            r@ == self@,
    {
        let (_, tail) = self.buf.as_slice().split_at(BUFFER_SIZE - self.len);
        tail
    }

    fn reset(&mut self)
        requires
            old(self).wf(),
        ensures
            final(self).wf(),
            final(self)@ == Seq::<u8>::empty(),
    {
        self.len = 0;
        assert(self@ =~= Seq::<u8>::empty());
    }

    fn push_byte(&mut self, byte: u8)
        requires
            old(self).wf(),
            old(self)@.len() + 1 <= BUFFER_SIZE,
        ensures
            final(self).wf(),
            final(self)@ == seq![byte] + old(self)@,
    {
        let ghost prev = self@;
        let idx = BUFFER_SIZE - self.len - 1;
        self.buf[idx] = byte;
        self.len = self.len + 1;
        assert(self@ =~= seq![byte] + prev);
    }

    fn push_chunk(&mut self, chunk: &[u8])
        requires
            old(self).wf(),
            old(self)@.len() + chunk@.len() <= BUFFER_SIZE,
        ensures
            final(self).wf(),
            final(self)@ == chunk@ + old(self)@,
    {
        let ghost start = self@;
        let mut i: usize = chunk.len();
        assert(chunk@.skip(i as int) + start =~= start);
        while i > 0
            invariant
                i <= chunk@.len(),
                self.wf(),
                start.len() + chunk@.len() <= BUFFER_SIZE,
                self@ == chunk@.skip(i as int) + start,
            decreases i,
        {
            self.push_byte(chunk[i - 1]);
            assert(seq![chunk@[i - 1]] + chunk@.skip(i as int) =~= chunk@.skip(i - 1));
            i = i - 1;
        }
        assert(chunk@.skip(0) =~= chunk@);
    }

    fn push_length(&mut self, len: usize)
        requires
            old(self).wf(),
            old(self)@.len() + length_bytes(len as nat).len() <= BUFFER_SIZE,
        ensures
            final(self).wf(),
            final(self)@ == length_bytes(len as nat) + old(self)@,
    {
        if len < 128 {
            self.push_byte(len as u8);
        } else {
            let ghost start = self@;
            let ghost pushed = Seq::<u8>::empty();
            let mut m: usize = len;
            let mut count: usize = 0;
            proof {
                lemma_pow256_7();
                lemma_be_min_len(len as nat, 8);
                assert(be_min(m as nat) + pushed =~= be_min(len as nat));
            }
            while m > 0
                invariant
                    self.wf(),
                    self@ == pushed + start,
                    be_min(m as nat) + pushed == be_min(len as nat),
                    count == pushed.len(),
                    start.len() + 1 + be_min(len as nat).len() <= BUFFER_SIZE,
                    be_min(len as nat).len() <= 8,
                decreases m,
            {
                let b = (m % 256) as u8;
                self.push_byte(b);
                proof {
                    assert(be_min(m as nat) == be_min((m / 256) as nat) + seq![b]);
                    assert(be_min((m / 256) as nat) + (seq![b] + pushed) =~= be_min(m as nat)
                        + pushed);
                    pushed = seq![b] + pushed;
                }
                m = m / 256;
                count = count + 1;
            }
            assert(pushed =~= be_min(len as nat));
            self.push_byte(0x80u8 + count as u8);
        }
    }

    /// Pushes the identifier and length of a constructed element whose
    /// contents are everything written since the buffer held `before_len` bytes.
    fn push_constructed(&mut self, ident: u8, before_len: usize)
        requires
            old(self).wf(),
            before_len <= old(self)@.len(),
            old(self)@.len() + 1 + length_bytes((old(self)@.len() - before_len) as nat).len()
                <= BUFFER_SIZE,
        ensures
            final(self).wf(),
            final(self)@ == tlv(ident, old(self)@.take(old(self)@.len() - before_len))
                + old(self)@.skip(old(self)@.len() - before_len),
    {
        let ghost start = self@;
        let written = self.len - before_len;
        self.push_length(written);
        self.push_byte(ident);
        assert(start =~= start.take(written as int) + start.skip(written as int));
        assert(self@ =~= tlv(ident, start.take(written as int)) + start.skip(written as int));
    }

    fn push_sequence(&mut self, before_len: usize)
        requires
            old(self).wf(),
            before_len <= old(self)@.len(),
            old(self)@.len() + 1 + length_bytes((old(self)@.len() - before_len) as nat).len()
                <= BUFFER_SIZE,
        ensures
            final(self).wf(),
            final(self)@ == tlv(
                asn1::TYPE_SEQUENCE,
                old(self)@.take(old(self)@.len() - before_len),
            ) + old(self)@.skip(old(self)@.len() - before_len),
    {
        self.push_constructed(asn1::TYPE_SEQUENCE, before_len)
    }
    /// Pushes the minimal two's-complement body of `n`; returns its length.
    fn push_i64(&mut self, n: i64) -> (count: usize)
        requires
            old(self).wf(),
            old(self)@.len() + int_body(n as int).len() <= BUFFER_SIZE,
        ensures
            final(self).wf(),
            final(self)@ == int_body(n as int) + old(self)@,
            count == int_body(n as int).len(),
    {
        let ghost start = self@;
        let neg = n < 0;
        let mut m: u64 = if neg {
            (-(n + 1)) as u64
        } else {
            n as u64
        };
        let ghost m0 = m as nat;
        let ghost pushed = Seq::<u8>::empty();
        let mut count: usize = 0;
        assert(int_body(n as int) == mag_body(m0, neg));
        assert(mag_body(m as nat, neg) + pushed =~= mag_body(m0, neg));
        while m >= 128
            invariant
                self.wf(),
                self@ == pushed + start,
                mag_body(m as nat, neg) + pushed == mag_body(m0, neg),
                count == pushed.len(),
                start.len() + mag_body(m0, neg).len() <= BUFFER_SIZE,
            decreases m,
        {
            let low = (m % 256) as u8;
            let b = if neg {
                255 - low
            } else {
                low
            };
            assert(mag_body(m as nat, neg) == mag_body((m / 256) as nat, neg) + seq![b]);
            assert(mag_body((m / 256) as nat, neg).len() >= 1) by {
                reveal_with_fuel(mag_body, 1);
                lemma_mag_body_nonempty((m / 256) as nat, neg);
            }
            self.push_byte(b);
            proof {
                assert(mag_body((m / 256) as nat, neg) + (seq![b] + pushed) =~= mag_body(
                    m as nat,
                    neg,
                ) + pushed);
                pushed = seq![b] + pushed;
            }
            m = m / 256;
            count = count + 1;
        }
        let low = m as u8;
        let b = if neg {
            255 - low
        } else {
            low
        };
        self.push_byte(b);
        assert(self@ =~= mag_body(m0, neg) + start);
        count + 1
    }

    fn push_integer(&mut self, n: i64)
        requires
            old(self).wf(),
            old(self)@.len() + int_bytes(asn1::TYPE_INTEGER, n as int).len() <= BUFFER_SIZE,
        ensures
            final(self).wf(),
            final(self)@ == int_bytes(asn1::TYPE_INTEGER, n as int) + old(self)@,
    {
        self.push_int_type(asn1::TYPE_INTEGER, n)
    }

    /// Pushes an INTEGER-like element with identifier `ident`.
    fn push_int_type(&mut self, ident: u8, n: i64)
        requires
            old(self).wf(),
            old(self)@.len() + int_bytes(ident, n as int).len() <= BUFFER_SIZE,
        ensures
            final(self).wf(),
            final(self)@ == int_bytes(ident, n as int) + old(self)@,
    {
        let ghost start = self@;
        let len = self.push_i64(n);
        self.push_length(len);
        self.push_byte(ident);
        assert(self@ =~= int_bytes(ident, n as int) + start);
    }

    fn push_endofmibview(&mut self)
        requires
            old(self).wf(),
            old(self)@.len() + 2 <= BUFFER_SIZE,
        ensures
            final(self).wf(),
            final(self)@ == seq![snmp::SNMP_ENDOFMIBVIEW, 0u8] + old(self)@,
    {
        self.push_marker(snmp::SNMP_ENDOFMIBVIEW)
    }

    fn push_nosuchobject(&mut self)
        requires
            old(self).wf(),
            old(self)@.len() + 2 <= BUFFER_SIZE,
        ensures
            final(self).wf(),
            final(self)@ == seq![snmp::SNMP_NOSUCHOBJECT, 0u8] + old(self)@,
    {
        self.push_marker(snmp::SNMP_NOSUCHOBJECT)
    }

    fn push_nosuchinstance(&mut self)
        requires
            old(self).wf(),
            old(self)@.len() + 2 <= BUFFER_SIZE,
        ensures
            final(self).wf(),
            final(self)@ == seq![snmp::SNMP_NOSUCHINSTANCE, 0u8] + old(self)@,
    {
        self.push_marker(snmp::SNMP_NOSUCHINSTANCE)
    }

    fn push_null(&mut self)
        requires
            old(self).wf(),
            old(self)@.len() + 2 <= BUFFER_SIZE,
        ensures
            final(self).wf(),
            final(self)@ == seq![asn1::TYPE_NULL, 0u8] + old(self)@,
    {
        self.push_marker(asn1::TYPE_NULL)
    }

    /// Pushes an element with identifier `ident` and an empty body.
    fn push_marker(&mut self, ident: u8)
        requires
            old(self).wf(),
            old(self)@.len() + 2 <= BUFFER_SIZE,
        ensures
            final(self).wf(),
            final(self)@ == seq![ident, 0u8] + old(self)@,
    {
        let ghost start = self@;
        self.push_byte(0);
        self.push_byte(ident);
        assert(self@ =~= seq![ident, 0u8] + start);
    }

    fn push_counter32(&mut self, n: u32)
        requires
            old(self).wf(),
            old(self)@.len() + int_bytes(snmp::TYPE_COUNTER32, n as int).len() <= BUFFER_SIZE,
        ensures
            final(self).wf(),
            final(self)@ == int_bytes(snmp::TYPE_COUNTER32, n as int) + old(self)@,
    {
        self.push_int_type(snmp::TYPE_COUNTER32, n as i64)
    }

    fn push_unsigned32(&mut self, n: u32)
        requires
            old(self).wf(),
            old(self)@.len() + int_bytes(snmp::TYPE_UNSIGNED32, n as int).len() <= BUFFER_SIZE,
        ensures
            final(self).wf(),
            final(self)@ == int_bytes(snmp::TYPE_UNSIGNED32, n as int) + old(self)@,
    {
        self.push_int_type(snmp::TYPE_UNSIGNED32, n as i64)
    }

    fn push_timeticks(&mut self, n: u32)
        requires
            old(self).wf(),
            old(self)@.len() + int_bytes(snmp::TYPE_TIMETICKS, n as int).len() <= BUFFER_SIZE,
        ensures
            final(self).wf(),
            final(self)@ == int_bytes(snmp::TYPE_TIMETICKS, n as int) + old(self)@,
    {
        self.push_int_type(snmp::TYPE_TIMETICKS, n as i64)
    }

    fn push_counter64(&mut self, n: u64)
        requires
            old(self).wf(),
            old(self)@.len() + int_bytes(snmp::TYPE_COUNTER64, (n as i64) as int).len()
                <= BUFFER_SIZE,
        ensures
            final(self).wf(),
            final(self)@ == int_bytes(snmp::TYPE_COUNTER64, (n as i64) as int) + old(self)@,
    {
        self.push_int_type(snmp::TYPE_COUNTER64, n as i64)
    }

    /// Pushes an element with identifier `ident` and the body `bytes`.
    fn push_primitive(&mut self, ident: u8, bytes: &[u8])
        requires
            old(self).wf(),
            old(self)@.len() + tlv(ident, bytes@).len() <= BUFFER_SIZE,
        ensures
            final(self).wf(),
            final(self)@ == tlv(ident, bytes@) + old(self)@,
    {
        let ghost start = self@;
        self.push_chunk(bytes);
        self.push_length(bytes.len());
        self.push_byte(ident);
        assert(self@ =~= tlv(ident, bytes@) + start);
    }

    fn push_opaque(&mut self, bytes: &[u8])
        requires
            old(self).wf(),
            old(self)@.len() + tlv(snmp::TYPE_OPAQUE, bytes@).len() <= BUFFER_SIZE,
        ensures
            final(self).wf(),
            final(self)@ == tlv(snmp::TYPE_OPAQUE, bytes@) + old(self)@,
    {
        self.push_primitive(snmp::TYPE_OPAQUE, bytes)
    }

    fn push_boolean(&mut self, boolean: bool)
        requires
            old(self).wf(),
            old(self)@.len() + 3 <= BUFFER_SIZE,
        ensures
            final(self).wf(),
            final(self)@ == seq![asn1::TYPE_BOOLEAN, 1u8, if boolean { 1u8 } else { 0u8 }]
                + old(self)@,
    {
        let ghost start = self@;
        if boolean {
            self.push_byte(1);
        } else {
            self.push_byte(0);
        }
        self.push_length(1);
        self.push_byte(asn1::TYPE_BOOLEAN);
        assert(self@ =~= seq![asn1::TYPE_BOOLEAN, 1u8, if boolean { 1u8 } else { 0u8 }]
            + start);
    }

    fn push_ipaddress(&mut self, ip: &[u8; 4])
        requires
            old(self).wf(),
            old(self)@.len() + tlv(snmp::TYPE_IPADDRESS, ip@).len() <= BUFFER_SIZE,
        ensures
            final(self).wf(),
            final(self)@ == tlv(snmp::TYPE_IPADDRESS, ip@) + old(self)@,
    {
        self.push_primitive(snmp::TYPE_IPADDRESS, ip.as_slice())
    }

    fn push_object_identifier_raw(&mut self, input: &[u8])
        requires
            old(self).wf(),
            old(self)@.len() + tlv(asn1::TYPE_OBJECTIDENTIFIER, input@).len() <= BUFFER_SIZE,
        ensures
            final(self).wf(),
            final(self)@ == tlv(asn1::TYPE_OBJECTIDENTIFIER, input@) + old(self)@,
    {
        self.push_primitive(asn1::TYPE_OBJECTIDENTIFIER, input)
    }

    fn push_octet_string(&mut self, bytes: &[u8])
        requires
            old(self).wf(),
            old(self)@.len() + tlv(asn1::TYPE_OCTETSTRING, bytes@).len() <= BUFFER_SIZE,
        ensures
            final(self).wf(),
            final(self)@ == tlv(asn1::TYPE_OCTETSTRING, bytes@) + old(self)@,
    {
        self.push_primitive(asn1::TYPE_OCTETSTRING, bytes)
    }
}

proof fn lemma_mag_body_nonempty(m: nat, neg: bool)
    ensures
        mag_body(m, neg).len() >= 1,
    decreases m,
{
    if m >= 128 {
        lemma_mag_body_nonempty(m / 256, neg);
    }
}

impl Buf {
    /// Pushes the base-128 form of one sub-identifier.
    fn push_subid(&mut self, v: u32)
        requires
            old(self).wf(),
            old(self)@.len() + subid_bytes(v as nat).len() <= BUFFER_SIZE,
        ensures
            final(self).wf(),
            final(self)@ == subid_bytes(v as nat) + old(self)@,
    {
        let ghost start = self@;
        let b = (v % 128) as u8;
        self.push_byte(b);
        let ghost pushed = seq![b];
        let mut w: u32 = v / 128;
        assert(subid_high(w as nat) + pushed == subid_bytes(v as nat));
        while w != 0
            invariant
                self.wf(),
                self@ == pushed + start,
                subid_high(w as nat) + pushed == subid_bytes(v as nat),
                start.len() + subid_bytes(v as nat).len() <= BUFFER_SIZE,
            decreases w,
        {
            let b = (w % 128 + 128) as u8;
            assert(subid_high(w as nat) == subid_high((w / 128) as nat) + seq![b]);
            self.push_byte(b);
            proof {
                assert(subid_high((w / 128) as nat) + (seq![b] + pushed) =~= subid_high(w as nat)
                    + pushed);
                pushed = seq![b] + pushed;
            }
            w = w / 128;
        }
        assert(pushed =~= subid_bytes(v as nat));
    }

    /// Encodes the name `input` as an OBJECT IDENTIFIER element.
    fn push_object_identifier(&mut self, input: &[u32])
        requires
            old(self).wf(),
            oid_well_formed(input@),
            old(self)@.len() + oid_bytes(input@).len() <= BUFFER_SIZE,
        ensures
            final(self).wf(),
            final(self)@ == oid_bytes(input@) + old(self)@,
    {
        let ghost start = self@;
        let length_before = self.len;
        let mut j: usize = input.len();
        proof {
            assert(input@.subrange(2, j as int) + input@.skip(j as int) =~= input@.skip(2));
            lemma_subids_bytes_concat(input@.subrange(2, j as int), input@.skip(j as int));
            assert(input@.skip(j as int) =~= Seq::<u32>::empty());
        }
        while j > 2
            invariant
                2 <= j <= input@.len(),
                self.wf(),
                self@ == subids_bytes(input@.skip(j as int)) + start,
                subids_bytes(input@.subrange(2, j as int)) + subids_bytes(input@.skip(j as int))
                    == subids_bytes(input@.skip(2)),
                start.len() + oid_bytes(input@).len() <= BUFFER_SIZE,
                length_before == start.len(),
            decreases j,
        {
            let v = input[j - 1];
            proof {
                let a = input@.subrange(2, j - 1);
                assert(input@.subrange(2, j as int) =~= a + seq![v]);
                lemma_subids_bytes_concat(a, seq![v]);
                assert(seq![v].drop_first() =~= Seq::<u32>::empty());
                assert(subids_bytes(seq![v].drop_first()) == Seq::<u8>::empty());
                assert(seq![v][0] == v);
                assert(subids_bytes(seq![v]) =~= subid_bytes(v as nat));
                assert(input@.skip(j - 1).drop_first() =~= input@.skip(j as int));
                assert(input@.skip(j - 1)[0] == v);
            }
            self.push_subid(v);
            j = j - 1;
        }
        self.push_byte((input[0] * 40 + input[1]) as u8);
        assert(self@ =~= oid_body(input@) + start);
        let written = self.len - length_before;
        self.push_length(written);
        self.push_byte(asn1::TYPE_OBJECTIDENTIFIER);
        assert(self@ =~= oid_bytes(input@) + start);
    }
}

proof fn lemma_subids_bytes_concat(a: Seq<u32>, b: Seq<u32>)
    ensures
        subids_bytes(a + b) == subids_bytes(a) + subids_bytes(b),
    decreases a.len(),
{
    if a.len() == 0 {
        assert(a + b =~= b);
    } else {
        assert((a + b).drop_first() =~= a.drop_first() + b);
        lemma_subids_bytes_concat(a.drop_first(), b);
        assert(subids_bytes(a) + subids_bytes(b) =~= subid_bytes(a[0] as nat) + (subids_bytes(
            a.drop_first(),
        ) + subids_bytes(b)));
    }
}

proof fn lemma_varbinds_concat(a: Seq<(Seq<u32>, ValueSpec)>, b: Seq<(Seq<u32>, ValueSpec)>)
    ensures
        varbinds_concat(a + b) == varbinds_concat(a) + varbinds_concat(b),
    decreases a.len(),
{
    if a.len() == 0 {
        assert(a + b =~= b);
    } else {
        assert((a + b).drop_first() =~= a.drop_first() + b);
        lemma_varbinds_concat(a.drop_first(), b);
        assert(varbinds_concat(a) + varbinds_concat(b) =~= varbind_bytes(a[0]) + (
        varbinds_concat(a.drop_first()) + varbinds_concat(b)));
    }
}

impl Buf {
    fn push_value(&mut self, v: &Value)
        requires
            old(self).wf(),
            is_respondable(v@),
            old(self)@.len() + value_bytes(v@).len() <= BUFFER_SIZE,
        ensures
            final(self).wf(),
            final(self)@ == value_bytes(v@) + old(self)@,
    {
        match v {
            Value::Boolean(b) => self.push_boolean(*b),
            Value::Null => self.push_null(),
            Value::Integer(i) => self.push_integer(*i),
            Value::OctetString(ostr) => self.push_octet_string(ostr),
            Value::ObjectIdentifier(objid) => self.push_object_identifier_raw(objid.raw()),
            Value::IpAddress(ip) => self.push_ipaddress(ip),
            Value::Counter32(i) => self.push_counter32(*i),
            Value::Unsigned32(i) => self.push_unsigned32(*i),
            Value::Timeticks(tt) => self.push_timeticks(*tt),
            Value::Opaque(bytes) => self.push_opaque(bytes),
            Value::Counter64(i) => self.push_counter64(*i),
            Value::EndOfMibView => self.push_endofmibview(),
            Value::NoSuchObject => self.push_nosuchobject(),
            Value::NoSuchInstance => self.push_nosuchinstance(),
            _ => {},
        }
    }

    /// Pushes SEQUENCE { name, value }.
    fn push_varbind(&mut self, name: &[u32], v: &Value)
        requires
            old(self).wf(),
            oid_well_formed(name@),
            is_respondable(v@),
            old(self)@.len() + varbind_bytes((name@, v@)).len() <= BUFFER_SIZE,
        ensures
            final(self).wf(),
            final(self)@ == varbind_bytes((name@, v@)) + old(self)@,
    {
        let ghost start = self@;
        let mark = self.len;
        self.push_value(v);
        self.push_object_identifier(name);
        assert(self@ == (oid_bytes(name@) + value_bytes(v@)) + start);
        assert(self@.take(self@.len() - mark) =~= oid_bytes(name@) + value_bytes(v@));
        assert(self@.skip(self@.len() - mark) =~= start);
        self.push_sequence(mark);
    }

    /// Wraps the varbind list contents, which the buffer holds alone, into
    /// the whole message.
    fn push_frame(&mut self, tag: u8, community: &[u8], req_id: i64, field1: i64, field2: i64)
        requires
            old(self).wf(),
            pdu_frame(tag, community@, req_id as int, field1 as int, field2 as int, old(self)@).len()
                <= BUFFER_SIZE,
        ensures
            final(self).wf(),
            final(self)@ == pdu_frame(
                tag,
                community@,
                req_id as int,
                field1 as int,
                field2 as int,
                old(self)@,
            ),
    {
        let ghost list = self@;
        self.push_sequence(0);
        assert(list.take(list.len() - 0) =~= list);
        assert(list.skip(list.len() - 0) =~= Seq::<u8>::empty());
        let ghost s1 = self@;
        assert(s1 =~= tlv(asn1::TYPE_SEQUENCE, list));
        self.push_integer(field2);
        self.push_integer(field1);
        self.push_integer(req_id);
        let ghost inner = int_bytes(asn1::TYPE_INTEGER, req_id as int) + int_bytes(
            asn1::TYPE_INTEGER,
            field1 as int,
        ) + int_bytes(asn1::TYPE_INTEGER, field2 as int) + tlv(asn1::TYPE_SEQUENCE, list);
        assert(self@ =~= inner);
        assert(self@.take(self@.len() - 0) =~= inner);
        assert(self@.skip(self@.len() - 0) =~= Seq::<u8>::empty());
        self.push_constructed(tag, 0);
        let ghost s2 = self@;
        assert(s2 =~= tlv(tag, inner));
        self.push_octet_string(community);
        self.push_integer(snmp::VERSION_2);
        let ghost outer = int_bytes(asn1::TYPE_INTEGER, snmp::VERSION_2 as int) + tlv(
            asn1::TYPE_OCTETSTRING,
            community@,
        ) + tlv(tag, inner);
        assert(self@ =~= outer);
        assert(self@.take(self@.len() - 0) =~= outer);
        assert(self@.skip(self@.len() - 0) =~= Seq::<u8>::empty());
        self.push_sequence(0);
        assert(self@ =~= pdu_frame(
            tag,
            community@,
            req_id as int,
            field1 as int,
            field2 as int,
            list,
        ));
    }
}

proof fn lemma_varbinds_step(vbs: Seq<(Seq<u32>, ValueSpec)>, i: int)
    requires
        0 < i <= vbs.len(),
    ensures
        varbinds_concat(vbs.skip(i - 1)) == varbind_bytes(vbs[i - 1]) + varbinds_concat(
            vbs.skip(i),
        ),
        varbinds_concat(vbs.take(i)) == varbinds_concat(vbs.take(i - 1)) + varbind_bytes(
            vbs[i - 1],
        ),
{
    assert(vbs.skip(i - 1).drop_first() =~= vbs.skip(i));
    assert(vbs.skip(i - 1)[0] == vbs[i - 1]);
    let one = seq![vbs[i - 1]];
    assert(vbs.take(i) =~= vbs.take(i - 1) + one);
    lemma_varbinds_concat(vbs.take(i - 1), one);
    assert(one.drop_first() =~= Seq::<(Seq<u32>, ValueSpec)>::empty());
    assert(varbinds_concat(one.drop_first()) == Seq::<u8>::empty());
    assert(varbinds_concat(one) =~= varbind_bytes(vbs[i - 1]));
}

proof fn lemma_varbinds_split(vbs: Seq<(Seq<u32>, ValueSpec)>, i: int)
    requires
        0 <= i <= vbs.len(),
    ensures
        varbinds_concat(vbs.take(i)) + varbinds_concat(vbs.skip(i)) == varbinds_concat(vbs),
{
    assert(vbs =~= vbs.take(i) + vbs.skip(i));
    lemma_varbinds_concat(vbs.take(i), vbs.skip(i));
}

impl Buf {
    /// Pushes one varbind per pair of `values`, in order.
    fn push_varbinds(&mut self, values: &[(&[u32], Value)])
        requires
            old(self).wf(),
            forall|i: int|
                0 <= i < values@.len() ==> oid_well_formed(#[trigger] values@[i].0@)
                    && is_respondable(values@[i].1@),
            old(self)@.len() + varbinds_concat(pairs_model(values@)).len() <= BUFFER_SIZE,
        ensures
            final(self).wf(),
            final(self)@ == varbinds_concat(pairs_model(values@)) + old(self)@,
    {
        let ghost start = self@;
        let ghost vbs = pairs_model(values@);
        let mut i: usize = values.len();
        proof {
            lemma_varbinds_split(vbs, i as int);
            assert(vbs.skip(i as int) =~= Seq::<(Seq<u32>, ValueSpec)>::empty());
            assert(self@ =~= varbinds_concat(vbs.skip(i as int)) + start);
        }
        while i > 0
            invariant
                i <= values@.len(),
                vbs == pairs_model(values@),
                vbs.len() == values@.len(),
                forall|k: int|
                    0 <= k < values@.len() ==> oid_well_formed(#[trigger] values@[k].0@)
                        && is_respondable(values@[k].1@),
                self.wf(),
                self@ == varbinds_concat(vbs.skip(i as int)) + start,
                varbinds_concat(vbs.take(i as int)) + varbinds_concat(vbs.skip(i as int))
                    == varbinds_concat(vbs),
                start.len() + varbinds_concat(vbs).len() <= BUFFER_SIZE,
            decreases i,
        {
            let pair = &values[i - 1];
            proof {
                lemma_varbinds_step(vbs, i as int);
                assert(vbs[i - 1] == (pair.0@, pair.1@));
                assert(oid_well_formed(values@[i - 1].0@));
            }
            self.push_varbind(pair.0, &pair.1);
            i = i - 1;
        }
        assert(vbs.skip(0) =~= vbs);
    }

    /// Pushes one varbind with a NULL value per name of `names`, in order.
    fn push_null_varbinds(&mut self, names: &[&[u32]])
        requires
            old(self).wf(),
            forall|i: int| 0 <= i < names@.len() ==> oid_well_formed(#[trigger] names@[i]@),
            old(self)@.len() + varbinds_concat(null_varbinds(names_model(names@))).len()
                <= BUFFER_SIZE,
        ensures
            final(self).wf(),
            final(self)@ == varbinds_concat(null_varbinds(names_model(names@))) + old(self)@,
    {
        let ghost start = self@;
        let ghost vbs = null_varbinds(names_model(names@));
        let mut i: usize = names.len();
        proof {
            lemma_varbinds_split(vbs, i as int);
            assert(vbs.skip(i as int) =~= Seq::<(Seq<u32>, ValueSpec)>::empty());
            assert(self@ =~= varbinds_concat(vbs.skip(i as int)) + start);
        }
        while i > 0
            invariant
                i <= names@.len(),
                vbs == null_varbinds(names_model(names@)),
                vbs.len() == names@.len(),
                forall|k: int| 0 <= k < names@.len() ==> oid_well_formed(#[trigger] names@[k]@),
                self.wf(),
                self@ == varbinds_concat(vbs.skip(i as int)) + start,
                varbinds_concat(vbs.take(i as int)) + varbinds_concat(vbs.skip(i as int))
                    == varbinds_concat(vbs),
                start.len() + varbinds_concat(vbs).len() <= BUFFER_SIZE,
            decreases i,
        {
            let name = names[i - 1];
            let null = Value::Null;
            proof {
                lemma_varbinds_step(vbs, i as int);
                assert(vbs[i - 1] == (name@, null@));
            }
            self.push_varbind(name, &null);
            i = i - 1;
        }
        assert(vbs.skip(0) =~= vbs);
    }
}

/// Builds a GetRequest for `name` into `buf`.
pub fn build_get(community: &[u8], req_id: i32, name: &[u32], buf: &mut Buf)
    requires
        old(buf).wf(),
        oid_well_formed(name@),
        pdu_bytes(snmp::MSG_GET, community@, req_id as int, 0, 0, seq![(name@, ValueSpec::Null)]).len()
            <= BUFFER_SIZE,
    ensures
        final(buf).wf(),
        final(buf)@ == pdu_bytes(
            snmp::MSG_GET,
            community@,
            req_id as int,
            0,
            0,
            seq![(name@, ValueSpec::Null)],
        ),
{
    build_single(snmp::MSG_GET, community, req_id, name, buf)
}

/// Builds a GetNextRequest for `name` into `buf`.
pub fn build_getnext(community: &[u8], req_id: i32, name: &[u32], buf: &mut Buf)
    requires
        old(buf).wf(),
        oid_well_formed(name@),
        pdu_bytes(
            snmp::MSG_GET_NEXT,
            community@,
            req_id as int,
            0,
            0,
            seq![(name@, ValueSpec::Null)],
        ).len() <= BUFFER_SIZE,
    ensures
        final(buf).wf(),
        final(buf)@ == pdu_bytes(
            snmp::MSG_GET_NEXT,
            community@,
            req_id as int,
            0,
            0,
            seq![(name@, ValueSpec::Null)],
        ),
{
    build_single(snmp::MSG_GET_NEXT, community, req_id, name, buf)
}

/// Builds a request with tag `tag` for the one name `name`.
fn build_single(tag: u8, community: &[u8], req_id: i32, name: &[u32], buf: &mut Buf)
    requires
        old(buf).wf(),
        oid_well_formed(name@),
        pdu_bytes(tag, community@, req_id as int, 0, 0, seq![(name@, ValueSpec::Null)]).len()
            <= BUFFER_SIZE,
    ensures
        final(buf).wf(),
        final(buf)@ == pdu_bytes(tag, community@, req_id as int, 0, 0, seq![(name@, ValueSpec::Null)]),
{
    let ghost vbs = seq![(name@, ValueSpec::Null)];
    buf.reset();
    let null = Value::Null;
    proof {
        assert(vbs.drop_first() =~= Seq::<(Seq<u32>, ValueSpec)>::empty());
        assert(varbinds_concat(vbs.drop_first()) == Seq::<u8>::empty());
        assert(varbinds_concat(vbs) =~= varbind_bytes((name@, null@)));
    }
    buf.push_varbind(name, &null);
    assert(buf@ =~= varbinds_concat(vbs));
    buf.push_frame(tag, community, req_id as i64, 0, 0);
}

/// Builds a GetBulkRequest for `names` into `buf`.
pub fn build_getbulk(
    community: &[u8],
    req_id: i32,
    names: &[&[u32]],
    non_repeaters: u32,
    max_repetitions: u32,
    buf: &mut Buf,
)
    requires
        old(buf).wf(),
        forall|i: int| 0 <= i < names@.len() ==> oid_well_formed(#[trigger] names@[i]@),
        pdu_bytes(
            snmp::MSG_GET_BULK,
            community@,
            req_id as int,
            non_repeaters as int,
            max_repetitions as int,
            null_varbinds(names_model(names@)),
        ).len() <= BUFFER_SIZE,
    ensures
        final(buf).wf(),
        final(buf)@ == pdu_bytes(
            snmp::MSG_GET_BULK,
            community@,
            req_id as int,
            non_repeaters as int,
            max_repetitions as int,
            null_varbinds(names_model(names@)),
        ),
{
    buf.reset();
    buf.push_null_varbinds(names);
    assert(buf@ =~= varbinds_concat(null_varbinds(names_model(names@))));
    buf.push_frame(
        snmp::MSG_GET_BULK,
        community,
        req_id as i64,
        non_repeaters as i64,
        max_repetitions as i64,
    );
}

/// Builds a SetRequest carrying `values` into `buf`.
pub fn build_set(community: &[u8], req_id: i32, values: &[(&[u32], Value)], buf: &mut Buf)
    requires
        old(buf).wf(),
        forall|i: int|
            0 <= i < values@.len() ==> oid_well_formed(#[trigger] values@[i].0@) && is_settable(
                values@[i].1@,
            ),
        pdu_bytes(snmp::MSG_SET, community@, req_id as int, 0, 0, pairs_model(values@)).len()
            <= BUFFER_SIZE,
    ensures
        final(buf).wf(),
        final(buf)@ == pdu_bytes(snmp::MSG_SET, community@, req_id as int, 0, 0, pairs_model(values@)),
{
    buf.reset();
    buf.push_varbinds(values);
    assert(buf@ =~= varbinds_concat(pairs_model(values@)));
    buf.push_frame(snmp::MSG_SET, community, req_id as i64, 0, 0);
}

/// Builds a Response carrying `values` into `buf`.
pub fn build_response(community: &[u8], req_id: i32, values: &[(&[u32], Value)], buf: &mut Buf)
    requires
        old(buf).wf(),
        forall|i: int|
            0 <= i < values@.len() ==> oid_well_formed(#[trigger] values@[i].0@)
                && is_respondable(values@[i].1@),
        pdu_bytes(snmp::MSG_RESPONSE, community@, req_id as int, 0, 0, pairs_model(values@)).len()
            <= BUFFER_SIZE,
    ensures
        final(buf).wf(),
        final(buf)@ == pdu_bytes(
            snmp::MSG_RESPONSE,
            community@,
            req_id as int,
            0,
            0,
            pairs_model(values@),
        ),
{
    buf.reset();
    buf.push_varbinds(values);
    assert(buf@ =~= varbinds_concat(pairs_model(values@)));
    buf.push_frame(snmp::MSG_RESPONSE, community, req_id as i64, 0, 0);
}

} // verus!
