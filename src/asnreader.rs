//! A zero-copy DER reader over a borrowed byte window.

use vstd::prelude::*;
use crate::{SnmpError, SnmpResult, decode_i64, spec_decode_i64, fold_be, be_uint, pow256};
use crate::{lemma_pow256_mono, lemma_pow256_7};
use crate::asn1;
use crate::snmp;
use crate::objectidentifier::ObjectIdentifier;
use crate::value::{Value, ValueSpec};

verus! {

/// ASN.1/DER decoder over the SNMP subset. Extended tag numbers, the
/// indefinite length form and INTEGERs beyond 64 bits are not supported.
#[derive(Debug, Clone, Copy)]
pub struct AsnReader<'a> {
    inner: &'a [u8],
}

impl<'a> View for AsnReader<'a> {
    type V = Seq<u8>;

    closed spec fn view(&self) -> Seq<u8> {
        self.inner@
    }
}

/// Whether `t` is what is left of `s` once some prefix has been consumed.
pub open spec fn is_suffix(t: Seq<u8>, s: Seq<u8>) -> bool {
    t.len() <= s.len() && t == s.skip(s.len() - t.len())
}

proof fn lemma_suffix_trans(a: Seq<u8>, b: Seq<u8>, c: Seq<u8>)
    requires
        is_suffix(a, b),
        is_suffix(b, c),
    ensures
        is_suffix(a, c),
{
    assert(a =~= c.skip(c.len() - a.len()));
}

proof fn lemma_drop_first_suffix(a: Seq<u8>)
    ensures
        a.len() > 0 ==> is_suffix(a.drop_first(), a),
{
    if a.len() > 0 {
        assert(a.drop_first() =~= a.skip(1));
    }
}

proof fn lemma_suffix_refl(a: Seq<u8>)
    ensures
        is_suffix(a, a),
{
    assert(a =~= a.skip(0));
}

/// Reading one octet from `s`.
pub open spec fn spec_read_byte(s: Seq<u8>) -> SnmpResult<(u8, Seq<u8>)> {
    if s.len() == 0 {
        Err(SnmpError::AsnEof)
    } else {
        Ok((s[0], s.drop_first()))
    }
}

/// Reading a length field from `s`: its value and what follows it.
pub open spec fn spec_read_length(s: Seq<u8>) -> SnmpResult<(nat, Seq<u8>)> {
    if s.len() == 0 {
        Err(SnmpError::AsnEof)
    } else if s[0] < 128 {
        Ok((s[0] as nat, s.drop_first()))
    } else if s[0] == 0x80 || s[0] == 0xff {
        Err(SnmpError::AsnInvalidLen)
    } else {
        let k = s[0] - 128;
        if k > 8 {
            Err(SnmpError::AsnInvalidLen)
        } else if s.len() < 1 + k {
            Err(SnmpError::AsnEof)
        } else if be_uint(s.subrange(1, 1 + k)) > usize::MAX {
            Err(SnmpError::AsnInvalidLen)
        } else {
            Ok((be_uint(s.subrange(1, 1 + k)) as nat, s.skip(1 + k)))
        }
    }
}

/// Reading an identifier octet that must equal `tag`, a length and the body:
/// the body and what follows it.
pub open spec fn spec_read_raw(s: Seq<u8>, tag: u8) -> SnmpResult<(Seq<u8>, Seq<u8>)> {
    if s.len() == 0 {
        Err(SnmpError::AsnEof)
    } else if s[0] != tag {
        Err(SnmpError::AsnWrongType)
    } else {
        match spec_read_length(s.drop_first()) {
            Err(e) => Err(e),
            Ok((n, rest)) => if n > rest.len() {
                Err(SnmpError::AsnInvalidLen)
            } else {
                Ok((rest.take(n as int), rest.skip(n as int)))
            },
        }
    }
}

/// Reading an integer-valued element with identifier `tag`.
pub open spec fn spec_read_i64(s: Seq<u8>, tag: u8) -> SnmpResult<(i64, Seq<u8>)> {
    match spec_read_raw(s, tag) {
        Err(e) => Err(e),
        Ok((body, rest)) => match spec_decode_i64(body) {
            Err(e) => Err(e),
            Ok(n) => Ok((n, rest)),
        },
    }
}

/// Reading a BOOLEAN: a body of exactly one octet, 0 or 1.
pub open spec fn spec_read_boolean(s: Seq<u8>) -> SnmpResult<(bool, Seq<u8>)> {
    if s.len() == 0 {
        Err(SnmpError::AsnEof)
    } else if s[0] != asn1::TYPE_BOOLEAN {
        Err(SnmpError::AsnWrongType)
    } else {
        match spec_read_length(s.drop_first()) {
            Err(e) => Err(e),
            Ok((n, rest)) => if n != 1 {
                Err(SnmpError::AsnInvalidLen)
            } else if rest.len() == 0 {
                Err(SnmpError::AsnEof)
            } else if rest[0] == 0 {
                Ok((false, rest.drop_first()))
            } else if rest[0] == 1 {
                Ok((true, rest.drop_first()))
            } else {
                Err(SnmpError::AsnParseError)
            },
        }
    }
}

/// Reading an element with identifier `tag` and an empty body.
pub open spec fn spec_read_empty(s: Seq<u8>, tag: u8) -> SnmpResult<Seq<u8>> {
    if s.len() == 0 {
        Err(SnmpError::AsnEof)
    } else if s[0] != tag {
        Err(SnmpError::AsnWrongType)
    } else {
        match spec_read_length(s.drop_first()) {
            Err(e) => Err(e),
            Ok((n, rest)) => if n != 0 {
                Err(SnmpError::AsnInvalidLen)
            } else {
                Ok(rest)
            },
        }
    }
}

/// Reading a NULL: a body of length zero.
pub open spec fn spec_read_null(s: Seq<u8>) -> SnmpResult<Seq<u8>> {
    spec_read_empty(s, asn1::TYPE_NULL)
}

/// Reading an IpAddress: a body of exactly four octets.
pub open spec fn spec_read_ipaddress(s: Seq<u8>) -> SnmpResult<(Seq<u8>, Seq<u8>)> {
    match spec_read_raw(s, snmp::TYPE_IPADDRESS) {
        Err(e) => Err(e),
        Ok((body, rest)) => if body.len() != 4 {
            Err(SnmpError::AsnInvalidLen)
        } else {
            Ok((body, rest))
        },
    }
}

/// Tags whose body is kept as a window: the value that wraps it.
pub open spec fn spec_windowed(tag: u8, body: Seq<u8>) -> ValueSpec {
    if tag == asn1::TYPE_OCTETSTRING {
        ValueSpec::OctetString(body)
    } else if tag == asn1::TYPE_OBJECTIDENTIFIER {
        ValueSpec::ObjectIdentifier(body)
    } else if tag == asn1::TYPE_SEQUENCE {
        ValueSpec::Sequence(body)
    } else if tag == asn1::TYPE_SET {
        ValueSpec::AsnSet(body)
    } else if tag == snmp::TYPE_OPAQUE {
        ValueSpec::Opaque(body)
    } else if tag == snmp::MSG_GET {
        ValueSpec::SnmpGetRequest(body)
    } else if tag == snmp::MSG_GET_NEXT {
        ValueSpec::SnmpGetNextRequest(body)
    } else if tag == snmp::MSG_GET_BULK {
        ValueSpec::SnmpGetBulkRequest(body)
    } else if tag == snmp::MSG_RESPONSE {
        ValueSpec::SnmpResponse(body)
    } else if tag == snmp::MSG_SET {
        ValueSpec::SnmpSetRequest(body)
    } else if tag == snmp::MSG_INFORM {
        ValueSpec::SnmpInformRequest(body)
    } else if tag == snmp::MSG_TRAP {
        ValueSpec::SnmpTrap(body)
    } else if tag == snmp::MSG_REPORT {
        ValueSpec::SnmpReport(body)
    } else {
        ValueSpec::Constructed(tag, body)
    }
}

/// Whether a tag's body is kept as a window by `spec_read_value`.
pub open spec fn is_windowed(tag: u8) -> bool {
    ||| tag == asn1::TYPE_OCTETSTRING
    ||| tag == asn1::TYPE_OBJECTIDENTIFIER
    ||| tag == asn1::TYPE_SEQUENCE
    ||| tag == asn1::TYPE_SET
    ||| tag == snmp::TYPE_OPAQUE
    ||| (tag & asn1::CONSTRUCTED) == asn1::CONSTRUCTED
}

/// Reading the next value of any supported kind, dispatched on its tag.
pub open spec fn spec_read_value(s: Seq<u8>) -> SnmpResult<(ValueSpec, Seq<u8>)> {
    if s.len() == 0 {
        Err(SnmpError::AsnEof)
    } else {
        let t = s[0];
        if t == asn1::TYPE_BOOLEAN {
            match spec_read_boolean(s) {
                Err(e) => Err(e),
                Ok((b, rest)) => Ok((ValueSpec::Boolean(b), rest)),
            }
        } else if t == asn1::TYPE_NULL {
            match spec_read_null(s) {
                Err(e) => Err(e),
                Ok(rest) => Ok((ValueSpec::Null, rest)),
            }
        } else if t == asn1::TYPE_INTEGER {
            match spec_read_i64(s, t) {
                Err(e) => Err(e),
                Ok((n, rest)) => Ok((ValueSpec::Integer(n), rest)),
            }
        } else if t == snmp::SNMP_NOSUCHOBJECT || t == snmp::SNMP_NOSUCHINSTANCE || t
            == snmp::SNMP_ENDOFMIBVIEW {
            match spec_read_empty(s, t) {
                Err(e) => Err(e),
                Ok(rest) => Ok(
                    (
                        if t == snmp::SNMP_NOSUCHOBJECT {
                            ValueSpec::NoSuchObject
                        } else if t == snmp::SNMP_NOSUCHINSTANCE {
                            ValueSpec::NoSuchInstance
                        } else {
                            ValueSpec::EndOfMibView
                        },
                        rest,
                    ),
                ),
            }
        } else if t == snmp::TYPE_IPADDRESS {
            match spec_read_ipaddress(s) {
                Err(e) => Err(e),
                Ok((ip, rest)) => Ok((ValueSpec::IpAddress(ip), rest)),
            }
        } else if t == snmp::TYPE_COUNTER32 {
            match spec_read_i64(s, t) {
                Err(e) => Err(e),
                Ok((n, rest)) => Ok((ValueSpec::Counter32(n as u32), rest)),
            }
        } else if t == snmp::TYPE_UNSIGNED32 {
            match spec_read_i64(s, t) {
                Err(e) => Err(e),
                Ok((n, rest)) => Ok((ValueSpec::Unsigned32(n as u32), rest)),
            }
        } else if t == snmp::TYPE_TIMETICKS {
            match spec_read_i64(s, t) {
                Err(e) => Err(e),
                Ok((n, rest)) => Ok((ValueSpec::Timeticks(n as u32), rest)),
            }
        } else if t == snmp::TYPE_COUNTER64 {
            match spec_read_i64(s, t) {
                Err(e) => Err(e),
                Ok((n, rest)) => Ok((ValueSpec::Counter64(n as u64), rest)),
            }
        } else if is_windowed(t) {
            match spec_read_raw(s, t) {
                Err(e) => Err(e),
                Ok((body, rest)) => Ok((spec_windowed(t, body), rest)),
            }
        } else {
            Err(SnmpError::AsnUnsupportedType)
        }
    }
}

proof fn lemma_be_uint_bound(s: Seq<u8>)
    ensures
        0 <= fold_be(0, s) < pow256(s.len()),
    decreases s.len(),
{
    if s.len() > 0 {
        lemma_be_uint_bound(s.drop_last());
        let f = fold_be(0, s.drop_last());
        let p = pow256(s.drop_last().len());
        assert(0 <= f * 256 + s.last() < 256 * p) by (nonlinear_arith)
            requires
                0 <= f < p,
                0 <= s.last() < 256,
        ;
    }
}

impl<'a> AsnReader<'a> {
    pub fn from_bytes(bytes: &'a [u8]) -> (r: AsnReader<'a>)
        ensures
            r@ == bytes@,
    {
        AsnReader { inner: bytes }
    }

    /// The bytes not yet consumed.
    pub fn remaining(&self) -> (r: &'a [u8])
        ensures
            r@ == self@,
    {
        self.inner
    }

    pub fn peek_byte(&mut self) -> (r: SnmpResult<u8>)
        ensures
            final(self)@ == old(self)@,
            match spec_read_byte(old(self)@) {
                Ok((b, _)) => r == Ok::<u8, SnmpError>(b),
                Err(e) => r == Err::<u8, SnmpError>(e),
            },
    {
        if self.inner.len() == 0 {
            Err(SnmpError::AsnEof)
        } else {
            Ok(self.inner[0])
        }
    }

    pub fn read_byte(&mut self) -> (r: SnmpResult<u8>)
        ensures
            match spec_read_byte(old(self)@) {
                Ok((b, rest)) => r == Ok::<u8, SnmpError>(b) && final(self)@ == rest,
                Err(e) => r == Err::<u8, SnmpError>(e) && final(self)@ == old(self)@,
            },
            is_suffix(final(self)@, old(self)@),
    {
        proof {
            lemma_suffix_refl(self@);
            lemma_drop_first_suffix(self@);
        }
        if self.inner.len() == 0 {
            Err(SnmpError::AsnEof)
        } else {
            let (head, tail) = self.inner.split_at(1);
            assert(tail@ == self.inner@.drop_first());
            self.inner = tail;
            Ok(head[0])
        }
    }

    pub fn read_length(&mut self) -> (r: SnmpResult<usize>)
        ensures
            match spec_read_length(old(self)@) {
                Ok((n, rest)) => r is Ok && r->Ok_0 == n && final(self)@ == rest,
                Err(e) => r == Err::<usize, SnmpError>(e) && final(self)@ == old(self)@,
            },
            is_suffix(final(self)@, old(self)@),
    {
        let s = self.inner;
        proof {
            lemma_suffix_refl(s@);
            lemma_drop_first_suffix(s@);
        }
        if s.len() == 0 {
            return Err(SnmpError::AsnEof);
        }
        let head = s[0];
        if head < 128 {
            let (_, tail) = s.split_at(1);
            assert(tail@ == s@.drop_first());
            self.inner = tail;
            return Ok(head as usize);
        }
        if head == 0x80 || head == 0xff {
            return Err(SnmpError::AsnInvalidLen);
        }
        let k = (head - 128) as usize;
        if k > 8 {
            return Err(SnmpError::AsnInvalidLen);
        }
        if s.len() < 1 + k {
            return Err(SnmpError::AsnEof);
        }
        let mut acc: u64 = 0;
        let mut i: usize = 1;
        while i <= k
            invariant
                1 <= i <= k + 1,
                k <= 8,
                1 + k <= s@.len(),
                acc as int == fold_be(0, s@.subrange(1, i as int)),
            decreases k + 1 - i,
        {
            proof {
                let t = s@.subrange(1, i as int);
                lemma_be_uint_bound(t);
                lemma_pow256_mono(t.len(), 7);
                lemma_pow256_7();
                assert(s@.subrange(1, i as int + 1).drop_last() == t);
                assert(acc * 256 + s@[i as int] < 0x10000000000000000) by (nonlinear_arith)
                    requires
                        acc < pow256(t.len()),
                        pow256(t.len()) <= 0x100000000000000,
                        s@[i as int] < 256,
                ;
            }
            acc = acc * 256 + s[i] as u64;
            i = i + 1;
        }
        if acc > usize::MAX as u64 {
            return Err(SnmpError::AsnInvalidLen);
        }
        let (_, tail) = s.split_at(1 + k);
        self.inner = tail;
        assert(tail@ =~= s@.skip(s@.len() - tail@.len()));
        Ok(acc as usize)
    }

    pub fn read_i64_type(&mut self, expected_ident: u8) -> (r: SnmpResult<i64>)
        ensures
            match spec_read_i64(old(self)@, expected_ident) {
                Ok((n, rest)) => r == Ok::<i64, SnmpError>(n) && final(self)@ == rest,
                Err(e) => r == Err::<i64, SnmpError>(e),
            },
            is_suffix(final(self)@, old(self)@),
    {
        let val = self.read_raw(expected_ident);
        match val {
            Err(e) => Err(e),
            Ok(body) => decode_i64(body),
        }
    }

    pub fn read_raw(&mut self, expected_ident: u8) -> (r: SnmpResult<&'a [u8]>)
        ensures
            match spec_read_raw(old(self)@, expected_ident) {
                Ok((body, rest)) => r is Ok && r->Ok_0@ == body && final(self)@ == rest,
                Err(e) => r is Err && r->Err_0 == e,
            },
            is_suffix(final(self)@, old(self)@),
    {
        let ghost s0 = self@;
        let ident = match self.read_byte() {
            Ok(b) => b,
            Err(e) => return Err(e),
        };
        if ident != expected_ident {
            return Err(SnmpError::AsnWrongType);
        }
        let ghost s1 = self@;
        let val_len = match self.read_length() {
            Ok(n) => n,
            Err(e) => {
                proof {
                    lemma_suffix_trans(self@, s1, s0);
                }
                return Err(e);
            },
        };
        proof {
            lemma_suffix_trans(self@, s1, s0);
        }
        if val_len > self.inner.len() {
            return Err(SnmpError::AsnInvalidLen);
        }
        let ghost s2 = self@;
        let (val, remaining) = self.inner.split_at(val_len);
        self.inner = remaining;
        proof {
            assert(remaining@ =~= s2.skip(s2.len() - remaining@.len()));
            lemma_suffix_trans(self@, s2, s0);
        }
        Ok(val)
    }

    /// Reads a constructed element with identifier `expected_ident` and
    /// returns a reader over its contents.
    pub fn read_constructed(&mut self, expected_ident: u8) -> (r: SnmpResult<AsnReader<'a>>)
        ensures
            match spec_read_raw(old(self)@, expected_ident) {
                Ok((body, rest)) => r is Ok && r->Ok_0@ == body && final(self)@ == rest,
                Err(e) => r is Err && r->Err_0 == e,
            },
            is_suffix(final(self)@, old(self)@),
    {
        match self.read_raw(expected_ident) {
            Ok(body) => Ok(AsnReader::from_bytes(body)),
            Err(e) => Err(e),
        }
    }

    pub fn read_asn_boolean(&mut self) -> (r: SnmpResult<bool>)
        ensures
            match spec_read_boolean(old(self)@) {
                Ok((b, rest)) => r == Ok::<bool, SnmpError>(b) && final(self)@ == rest,
                Err(e) => r == Err::<bool, SnmpError>(e),
            },
            is_suffix(final(self)@, old(self)@),
    {
        let ghost s0 = self@;
        let ident = match self.read_byte() {
            Ok(b) => b,
            Err(e) => return Err(e),
        };
        if ident != asn1::TYPE_BOOLEAN {
            return Err(SnmpError::AsnWrongType);
        }
        let ghost s1 = self@;
        let val_len = match self.read_length() {
            Ok(n) => n,
            Err(e) => {
                proof {
                    lemma_suffix_trans(self@, s1, s0);
                }
                return Err(e);
            },
        };
        proof {
            lemma_suffix_trans(self@, s1, s0);
        }
        if val_len != 1 {
            return Err(SnmpError::AsnInvalidLen);
        }
        let ghost s2 = self@;
        let last = self.read_byte();
        proof {
            lemma_suffix_trans(self@, s2, s0);
        }
        match last {
            Ok(0) => Ok(false),
            Ok(1) => Ok(true),
            Ok(_) => Err(SnmpError::AsnParseError),
            Err(e) => Err(e),
        }
    }

    pub fn read_asn_integer(&mut self) -> (r: SnmpResult<i64>)
        ensures
            match spec_read_i64(old(self)@, asn1::TYPE_INTEGER) {
                Ok((n, rest)) => r == Ok::<i64, SnmpError>(n) && final(self)@ == rest,
                Err(e) => r == Err::<i64, SnmpError>(e),
            },
            is_suffix(final(self)@, old(self)@),
    {
        self.read_i64_type(asn1::TYPE_INTEGER)
    }

    pub fn read_asn_octetstring(&mut self) -> (r: SnmpResult<&'a [u8]>)
        ensures
            match spec_read_raw(old(self)@, asn1::TYPE_OCTETSTRING) {
                Ok((body, rest)) => r is Ok && r->Ok_0@ == body && final(self)@ == rest,
                Err(e) => r is Err && r->Err_0 == e,
            },
            is_suffix(final(self)@, old(self)@),
    {
        self.read_raw(asn1::TYPE_OCTETSTRING)
    }

    pub fn read_asn_null(&mut self) -> (r: SnmpResult<()>)
        ensures
            match spec_read_null(old(self)@) {
                Ok(rest) => r is Ok && final(self)@ == rest,
                Err(e) => r == Err::<(), SnmpError>(e),
            },
            is_suffix(final(self)@, old(self)@),
    {
        self.read_empty(asn1::TYPE_NULL)
    }

    /// Reads an element with identifier `expected_ident` and an empty body.
    fn read_empty(&mut self, expected_ident: u8) -> (r: SnmpResult<()>)
        ensures
            match spec_read_empty(old(self)@, expected_ident) {
                Ok(rest) => r is Ok && final(self)@ == rest,
                Err(e) => r == Err::<(), SnmpError>(e),
            },
            is_suffix(final(self)@, old(self)@),
    {
        let ghost s0 = self@;
        let ident = match self.read_byte() {
            Ok(b) => b,
            Err(e) => return Err(e),
        };
        if ident != expected_ident {
            return Err(SnmpError::AsnWrongType);
        }
        let ghost s1 = self@;
        let len = match self.read_length() {
            Ok(n) => n,
            Err(e) => {
                proof {
                    lemma_suffix_trans(self@, s1, s0);
                }
                return Err(e);
            },
        };
        proof {
            lemma_suffix_trans(self@, s1, s0);
        }
        if len != 0 {
            Err(SnmpError::AsnInvalidLen)
        } else {
            Ok(())
        }
    }

    pub fn read_asn_objectidentifier(&mut self) -> (r: SnmpResult<ObjectIdentifier<'a>>)
        ensures
            match spec_read_raw(old(self)@, asn1::TYPE_OBJECTIDENTIFIER) {
                Ok((body, rest)) => r is Ok && r->Ok_0@ == body && final(self)@ == rest,
                Err(e) => r is Err && r->Err_0 == e,
            },
            is_suffix(final(self)@, old(self)@),
    {
        match self.read_raw(asn1::TYPE_OBJECTIDENTIFIER) {
            Ok(body) => Ok(ObjectIdentifier::from_bytes(body)),
            Err(e) => Err(e),
        }
    }

    /// Reads a SEQUENCE and returns a reader over its contents.
    pub fn read_asn_sequence(&mut self) -> (r: SnmpResult<AsnReader<'a>>)
        ensures
            match spec_read_raw(old(self)@, asn1::TYPE_SEQUENCE) {
                Ok((body, rest)) => r is Ok && r->Ok_0@ == body && final(self)@ == rest,
                Err(e) => r is Err && r->Err_0 == e,
            },
            is_suffix(final(self)@, old(self)@),
    {
        self.read_constructed(asn1::TYPE_SEQUENCE)
    }

    pub fn read_snmp_counter32(&mut self) -> (r: SnmpResult<u32>)
        ensures
            match spec_read_i64(old(self)@, snmp::TYPE_COUNTER32) {
                Ok((n, rest)) => r == Ok::<u32, SnmpError>(n as u32) && final(self)@ == rest,
                Err(e) => r == Err::<u32, SnmpError>(e),
            },
            is_suffix(final(self)@, old(self)@),
    {
        match self.read_i64_type(snmp::TYPE_COUNTER32) {
            Ok(n) => Ok(n as u32),
            Err(e) => Err(e),
        }
    }

    pub fn read_snmp_unsigned32(&mut self) -> (r: SnmpResult<u32>)
        ensures
            match spec_read_i64(old(self)@, snmp::TYPE_UNSIGNED32) {
                Ok((n, rest)) => r == Ok::<u32, SnmpError>(n as u32) && final(self)@ == rest,
                Err(e) => r == Err::<u32, SnmpError>(e),
            },
            is_suffix(final(self)@, old(self)@),
    {
        match self.read_i64_type(snmp::TYPE_UNSIGNED32) {
            Ok(n) => Ok(n as u32),
            Err(e) => Err(e),
        }
    }

    pub fn read_snmp_timeticks(&mut self) -> (r: SnmpResult<u32>)
        ensures
            match spec_read_i64(old(self)@, snmp::TYPE_TIMETICKS) {
                Ok((n, rest)) => r == Ok::<u32, SnmpError>(n as u32) && final(self)@ == rest,
                Err(e) => r == Err::<u32, SnmpError>(e),
            },
            is_suffix(final(self)@, old(self)@),
    {
        match self.read_i64_type(snmp::TYPE_TIMETICKS) {
            Ok(n) => Ok(n as u32),
            Err(e) => Err(e),
        }
    }

    pub fn read_snmp_counter64(&mut self) -> (r: SnmpResult<u64>)
        ensures
            match spec_read_i64(old(self)@, snmp::TYPE_COUNTER64) {
                Ok((n, rest)) => r == Ok::<u64, SnmpError>(n as u64) && final(self)@ == rest,
                Err(e) => r == Err::<u64, SnmpError>(e),
            },
            is_suffix(final(self)@, old(self)@),
    {
        match self.read_i64_type(snmp::TYPE_COUNTER64) {
            Ok(n) => Ok(n as u64),
            Err(e) => Err(e),
        }
    }

    pub fn read_snmp_opaque(&mut self) -> (r: SnmpResult<&'a [u8]>)
        ensures
            match spec_read_raw(old(self)@, snmp::TYPE_OPAQUE) {
                Ok((body, rest)) => r is Ok && r->Ok_0@ == body && final(self)@ == rest,
                Err(e) => r is Err && r->Err_0 == e,
            },
            is_suffix(final(self)@, old(self)@),
    {
        self.read_raw(snmp::TYPE_OPAQUE)
    }

    pub fn read_snmp_ipaddress(&mut self) -> (r: SnmpResult<[u8; 4]>)
        ensures
            match spec_read_ipaddress(old(self)@) {
                Ok((ip, rest)) => r is Ok && r->Ok_0@ == ip && final(self)@ == rest,
                Err(e) => r is Err && r->Err_0 == e,
            },
            is_suffix(final(self)@, old(self)@),
    {
        let val = match self.read_raw(snmp::TYPE_IPADDRESS) {
            Ok(v) => v,
            Err(e) => return Err(e),
        };
        if val.len() != 4 {
            return Err(SnmpError::AsnInvalidLen);
        }
        let ip = [val[0], val[1], val[2], val[3]];
        assert(ip@ == val@);
        Ok(ip)
    }
    /// Reads an element whose body is kept as a window, wrapped by its tag.
    fn read_windowed(&mut self, ident: u8) -> (r: SnmpResult<Value<'a>>)
        ensures
            match spec_read_raw(old(self)@, ident) {
                Ok((body, rest)) => r is Ok && r->Ok_0@ == spec_windowed(ident, body) && final(self)@
                    == rest,
                Err(e) => r is Err && r->Err_0 == e,
            },
            is_suffix(final(self)@, old(self)@),
    {
        let body = match self.read_raw(ident) {
            Ok(b) => b,
            Err(e) => return Err(e),
        };
        let sub = AsnReader::from_bytes(body);
        let v = if ident == asn1::TYPE_OCTETSTRING {
            Value::OctetString(body)
        } else if ident == asn1::TYPE_OBJECTIDENTIFIER {
            Value::ObjectIdentifier(ObjectIdentifier::from_bytes(body))
        } else if ident == asn1::TYPE_SEQUENCE {
            Value::Sequence(sub)
        } else if ident == asn1::TYPE_SET {
            Value::AsnSet(sub)
        } else if ident == snmp::TYPE_OPAQUE {
            Value::Opaque(body)
        } else if ident == snmp::MSG_GET {
            Value::SnmpGetRequest(sub)
        } else if ident == snmp::MSG_GET_NEXT {
            Value::SnmpGetNextRequest(sub)
        } else if ident == snmp::MSG_GET_BULK {
            Value::SnmpGetBulkRequest(sub)
        } else if ident == snmp::MSG_RESPONSE {
            Value::SnmpResponse(sub)
        } else if ident == snmp::MSG_SET {
            Value::SnmpSetRequest(sub)
        } else if ident == snmp::MSG_INFORM {
            Value::SnmpInformRequest(sub)
        } else if ident == snmp::MSG_TRAP {
            Value::SnmpTrap(sub)
        } else if ident == snmp::MSG_REPORT {
            Value::SnmpReport(sub)
        } else {
            Value::Constructed(ident, sub)
        };
        Ok(v)
    }

    /// Reads the next value of any supported kind, dispatched on its tag.
    /// Unknown constructed tags give `Constructed`; unknown primitive tags
    /// give `AsnUnsupportedType`. This is the strict form of `next`.
    pub fn read_value(&mut self) -> (r: SnmpResult<Value<'a>>)
        ensures
            match spec_read_value(old(self)@) {
                Ok((v, rest)) => r is Ok && r->Ok_0@ == v && final(self)@ == rest,
                Err(e) => r is Err && r->Err_0 == e,
            },
            is_suffix(final(self)@, old(self)@),
    {
        proof {
            lemma_suffix_refl(self@);
        }
        let ident = match self.peek_byte() {
            Ok(b) => b,
            Err(e) => return Err(e),
        };
        if ident == asn1::TYPE_BOOLEAN {
            match self.read_asn_boolean() {
                Ok(b) => Ok(Value::Boolean(b)),
                Err(e) => Err(e),
            }
        } else if ident == asn1::TYPE_NULL {
            match self.read_asn_null() {
                Ok(()) => Ok(Value::Null),
                Err(e) => Err(e),
            }
        } else if ident == asn1::TYPE_INTEGER {
            match self.read_asn_integer() {
                Ok(n) => Ok(Value::Integer(n)),
                Err(e) => Err(e),
            }
        } else if ident == snmp::SNMP_NOSUCHOBJECT || ident == snmp::SNMP_NOSUCHINSTANCE || ident
            == snmp::SNMP_ENDOFMIBVIEW {
            match self.read_empty(ident) {
                Ok(()) => Ok(
                    if ident == snmp::SNMP_NOSUCHOBJECT {
                        Value::NoSuchObject
                    } else if ident == snmp::SNMP_NOSUCHINSTANCE {
                        Value::NoSuchInstance
                    } else {
                        Value::EndOfMibView
                    },
                ),
                Err(e) => Err(e),
            }
        } else if ident == snmp::TYPE_IPADDRESS {
            match self.read_snmp_ipaddress() {
                Ok(ip) => Ok(Value::IpAddress(ip)),
                Err(e) => Err(e),
            }
        } else if ident == snmp::TYPE_COUNTER32 {
            match self.read_snmp_counter32() {
                Ok(n) => Ok(Value::Counter32(n)),
                Err(e) => Err(e),
            }
        } else if ident == snmp::TYPE_UNSIGNED32 {
            match self.read_snmp_unsigned32() {
                Ok(n) => Ok(Value::Unsigned32(n)),
                Err(e) => Err(e),
            }
        } else if ident == snmp::TYPE_TIMETICKS {
            match self.read_snmp_timeticks() {
                Ok(n) => Ok(Value::Timeticks(n)),
                Err(e) => Err(e),
            }
        } else if ident == snmp::TYPE_COUNTER64 {
            match self.read_snmp_counter64() {
                Ok(n) => Ok(Value::Counter64(n)),
                Err(e) => Err(e),
            }
        } else if ident == asn1::TYPE_OCTETSTRING || ident == asn1::TYPE_OBJECTIDENTIFIER
            || ident == asn1::TYPE_SEQUENCE || ident == asn1::TYPE_SET
            || ident == snmp::TYPE_OPAQUE || (ident & asn1::CONSTRUCTED) == asn1::CONSTRUCTED {
            self.read_windowed(ident)
        } else {
            Err(SnmpError::AsnUnsupportedType)
        }
    }

    /// Best-effort streaming: the next value, or `None` at the end of the
    /// window or on the first decoding failure.
    pub fn next(&mut self) -> (r: Option<Value<'a>>)
        ensures
            match spec_read_value(old(self)@) {
                Ok((v, rest)) => r is Some && r->Some_0@ == v && final(self)@ == rest,
                Err(_) => r is None,
            },
            is_suffix(final(self)@, old(self)@),
    {
        match self.read_value() {
            Ok(v) => Some(v),
            Err(_) => None,
        }
    }
}

} // verus!
