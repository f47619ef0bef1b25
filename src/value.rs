//! The values that the decoder yields and the encoder emits.

use vstd::prelude::*;
use crate::asnreader::AsnReader;
use crate::objectidentifier::ObjectIdentifier;

verus! {

/// One decoded ASN.1 or SNMP value; constructed kinds carry a reader over
/// their contents.
#[derive(Debug, Clone, Copy)]
pub enum Value<'a> {
    Boolean(bool),
    Null,
    Integer(i64),
    OctetString(&'a [u8]),
    ObjectIdentifier(ObjectIdentifier<'a>),
    Sequence(AsnReader<'a>),
    AsnSet(AsnReader<'a>),
    Constructed(u8, AsnReader<'a>),
    IpAddress([u8; 4]),
    Counter32(u32),
    Unsigned32(u32),
    Timeticks(u32),
    Opaque(&'a [u8]),
    Counter64(u64),
    EndOfMibView,
    NoSuchObject,
    NoSuchInstance,
    SnmpGetRequest(AsnReader<'a>),
    SnmpGetNextRequest(AsnReader<'a>),
    SnmpGetBulkRequest(AsnReader<'a>),
    SnmpResponse(AsnReader<'a>),
    SnmpSetRequest(AsnReader<'a>),
    SnmpInformRequest(AsnReader<'a>),
    SnmpTrap(AsnReader<'a>),
    SnmpReport(AsnReader<'a>),
}

/// Mathematical model of a `Value`: every borrowed window becomes its bytes.
pub enum ValueSpec {
    Boolean(bool),
    Null,
    Integer(i64),
    OctetString(Seq<u8>),
    ObjectIdentifier(Seq<u8>),
    Sequence(Seq<u8>),
    AsnSet(Seq<u8>),
    Constructed(u8, Seq<u8>),
    IpAddress(Seq<u8>),
    Counter32(u32),
    Unsigned32(u32),
    Timeticks(u32),
    Opaque(Seq<u8>),
    Counter64(u64),
    EndOfMibView,
    NoSuchObject,
    NoSuchInstance,
    SnmpGetRequest(Seq<u8>),
    SnmpGetNextRequest(Seq<u8>),
    SnmpGetBulkRequest(Seq<u8>),
    SnmpResponse(Seq<u8>),
    SnmpSetRequest(Seq<u8>),
    SnmpInformRequest(Seq<u8>),
    SnmpTrap(Seq<u8>),
    SnmpReport(Seq<u8>),
}

impl<'a> View for Value<'a> {
    type V = ValueSpec;

    open spec fn view(&self) -> ValueSpec {
        match *self {
            Value::Boolean(b) => ValueSpec::Boolean(b),
            Value::Null => ValueSpec::Null,
            Value::Integer(n) => ValueSpec::Integer(n),
            Value::OctetString(s) => ValueSpec::OctetString(s@),
            Value::ObjectIdentifier(o) => ValueSpec::ObjectIdentifier(o@),
            Value::Sequence(r) => ValueSpec::Sequence(r@),
            Value::AsnSet(r) => ValueSpec::AsnSet(r@),
            Value::Constructed(t, r) => ValueSpec::Constructed(t, r@),
            Value::IpAddress(ip) => ValueSpec::IpAddress(ip@),
            Value::Counter32(n) => ValueSpec::Counter32(n),
            Value::Unsigned32(n) => ValueSpec::Unsigned32(n),
            Value::Timeticks(n) => ValueSpec::Timeticks(n),
            Value::Opaque(s) => ValueSpec::Opaque(s@),
            Value::Counter64(n) => ValueSpec::Counter64(n),
            Value::EndOfMibView => ValueSpec::EndOfMibView,
            Value::NoSuchObject => ValueSpec::NoSuchObject,
            Value::NoSuchInstance => ValueSpec::NoSuchInstance,
            Value::SnmpGetRequest(r) => ValueSpec::SnmpGetRequest(r@),
            Value::SnmpGetNextRequest(r) => ValueSpec::SnmpGetNextRequest(r@),
            Value::SnmpGetBulkRequest(r) => ValueSpec::SnmpGetBulkRequest(r@),
            Value::SnmpResponse(r) => ValueSpec::SnmpResponse(r@),
            Value::SnmpSetRequest(r) => ValueSpec::SnmpSetRequest(r@),
            Value::SnmpInformRequest(r) => ValueSpec::SnmpInformRequest(r@),
            Value::SnmpTrap(r) => ValueSpec::SnmpTrap(r@),
            Value::SnmpReport(r) => ValueSpec::SnmpReport(r@),
        }
    }
}

} // verus!
