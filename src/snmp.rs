//! SNMPv2c tags, message types and the parsed PDU header.

use vstd::prelude::*;
use crate::{SnmpError, SnmpResult};
use crate::asn1;
use crate::asnreader::{AsnReader, spec_read_raw, spec_read_i64};
use crate::varbinds::Varbinds;

verus! {

/// The version field that SNMPv2c carries.
pub const VERSION_2: i64 = 1;

pub const MSG_GET: u8 = 0xa0;
pub const MSG_GET_NEXT: u8 = 0xa1;
pub const MSG_RESPONSE: u8 = 0xa2;
pub const MSG_SET: u8 = 0xa3;
pub const MSG_GET_BULK: u8 = 0xa5;
pub const MSG_INFORM: u8 = 0xa6;
pub const MSG_TRAP: u8 = 0xa7;
pub const MSG_REPORT: u8 = 0xa8;

pub const TYPE_IPADDRESS: u8 = 0x40;
pub const TYPE_COUNTER32: u8 = 0x41;
pub const TYPE_UNSIGNED32: u8 = 0x42;
pub const TYPE_GAUGE32: u8 = 0x42;
pub const TYPE_TIMETICKS: u8 = 0x43;
pub const TYPE_OPAQUE: u8 = 0x44;
pub const TYPE_COUNTER64: u8 = 0x46;

pub const SNMP_NOSUCHOBJECT: u8 = 0x80;
pub const SNMP_NOSUCHINSTANCE: u8 = 0x81;
pub const SNMP_ENDOFMIBVIEW: u8 = 0x82;

pub const ERRSTATUS_NOERROR: u32 = 0;
pub const ERRSTATUS_TOOBIG: u32 = 1;
pub const ERRSTATUS_NOSUCHNAME: u32 = 2;
pub const ERRSTATUS_BADVALUE: u32 = 3;
pub const ERRSTATUS_READONLY: u32 = 4;
pub const ERRSTATUS_GENERR: u32 = 5;
pub const ERRSTATUS_NOACCESS: u32 = 6;
pub const ERRSTATUS_WRONGTYPE: u32 = 7;
pub const ERRSTATUS_WRONGLENGTH: u32 = 8;
pub const ERRSTATUS_WRONGENCODING: u32 = 9;
pub const ERRSTATUS_WRONGVALUE: u32 = 10;
pub const ERRSTATUS_NOCREATION: u32 = 11;
pub const ERRSTATUS_INCONSISTENTVALUE: u32 = 12;
pub const ERRSTATUS_RESOURCEUNAVAILABLE: u32 = 13;
pub const ERRSTATUS_COMMITFAILED: u32 = 14;
pub const ERRSTATUS_UNDOFAILED: u32 = 15;
pub const ERRSTATUS_AUTHORIZATIONERROR: u32 = 16;
pub const ERRSTATUS_NOTWRITABLE: u32 = 17;
pub const ERRSTATUS_INCONSISTENTNAME: u32 = 18;

/// The eight SNMPv2c PDU kinds.
#[derive(Debug, PartialEq, Eq, Clone, Copy, Structural)]
pub enum SnmpMessageType {
    GetRequest,
    GetNextRequest,
    GetBulkRequest,
    Response,
    SetRequest,
    InformRequest,
    Trap,
    Report,
}

/// The message type that a PDU tag octet names.
pub open spec fn spec_message_type(ident: u8) -> SnmpResult<SnmpMessageType> {
    if ident == MSG_GET {
        Ok(SnmpMessageType::GetRequest)
    } else if ident == MSG_GET_NEXT {
        Ok(SnmpMessageType::GetNextRequest)
    } else if ident == MSG_GET_BULK {
        Ok(SnmpMessageType::GetBulkRequest)
    } else if ident == MSG_RESPONSE {
        Ok(SnmpMessageType::Response)
    } else if ident == MSG_SET {
        Ok(SnmpMessageType::SetRequest)
    } else if ident == MSG_INFORM {
        Ok(SnmpMessageType::InformRequest)
    } else if ident == MSG_TRAP {
        Ok(SnmpMessageType::Trap)
    } else if ident == MSG_REPORT {
        Ok(SnmpMessageType::Report)
    } else {
        Err(SnmpError::AsnWrongType)
    }
}

impl SnmpMessageType {
    pub fn from_ident(ident: u8) -> (r: SnmpResult<SnmpMessageType>)
        ensures
            r == spec_message_type(ident),
    {
        match ident {
            MSG_GET => Ok(SnmpMessageType::GetRequest),
            MSG_GET_NEXT => Ok(SnmpMessageType::GetNextRequest),
            MSG_GET_BULK => Ok(SnmpMessageType::GetBulkRequest),
            MSG_RESPONSE => Ok(SnmpMessageType::Response),
            MSG_SET => Ok(SnmpMessageType::SetRequest),
            MSG_INFORM => Ok(SnmpMessageType::InformRequest),
            MSG_TRAP => Ok(SnmpMessageType::Trap),
            MSG_REPORT => Ok(SnmpMessageType::Report),
            _ => Err(SnmpError::AsnWrongType),
        }
    }
}

/// Model of a parsed PDU header; `varbinds` is the varbind list's contents.
pub struct PduModel {
    pub community: Seq<u8>,
    pub message_type: SnmpMessageType,
    pub req_id: i32,
    pub error_status: u32,
    pub error_index: u32,
    pub varbinds: Seq<u8>,
}

/// Whether `n` lies in `0..=i32::MAX`.
pub open spec fn in_index_range(n: i64) -> bool {
    0 <= n <= i32::MAX
}

/// Parsing the fields inside the message-type element `body`.
pub open spec fn spec_parse_pdu_body(
    community: Seq<u8>,
    message_type: SnmpMessageType,
    body: Seq<u8>,
) -> SnmpResult<PduModel> {
    match spec_read_i64(body, asn1::TYPE_INTEGER) {
        Err(e) => Err(e),
        Ok((req_id, s1)) => if req_id < i32::MIN || req_id > i32::MAX {
            Err(SnmpError::ValueOutOfRange)
        } else {
            match spec_read_i64(s1, asn1::TYPE_INTEGER) {
                Err(e) => Err(e),
                Ok((status, s2)) => if !in_index_range(status) {
                    Err(SnmpError::ValueOutOfRange)
                } else {
                    match spec_read_i64(s2, asn1::TYPE_INTEGER) {
                        Err(e) => Err(e),
                        Ok((index, s3)) => if !in_index_range(index) {
                            Err(SnmpError::ValueOutOfRange)
                        } else {
                            match spec_read_raw(s3, asn1::TYPE_SEQUENCE) {
                                Err(e) => Err(e),
                                Ok((vb, _)) => Ok(
                                    PduModel {
                                        community,
                                        message_type,
                                        req_id: req_id as i32,
                                        error_status: status as u32,
                                        error_index: index as u32,
                                        varbinds: vb,
                                    },
                                ),
                            }
                        },
                    }
                },
            }
        },
    }
}

/// Parsing one SNMPv2c message held in `bytes`.
pub open spec fn spec_parse_pdu(bytes: Seq<u8>) -> SnmpResult<PduModel> {
    match spec_read_raw(bytes, asn1::TYPE_SEQUENCE) {
        Err(e) => Err(e),
        Ok((seq, _)) => match spec_read_i64(seq, asn1::TYPE_INTEGER) {
            Err(e) => Err(e),
            Ok((version, s1)) => if version != VERSION_2 {
                Err(SnmpError::UnsupportedVersion)
            } else {
                match spec_read_raw(s1, asn1::TYPE_OCTETSTRING) {
                    Err(e) => Err(e),
                    Ok((community, s2)) => if s2.len() == 0 {
                        Err(SnmpError::AsnEof)
                    } else {
                        match spec_message_type(s2[0]) {
                            Err(e) => Err(e),
                            Ok(mt) => match spec_read_raw(s2, s2[0]) {
                                Err(e) => Err(e),
                                Ok((body, _)) => spec_parse_pdu_body(community, mt, body),
                            },
                        }
                    },
                }
            },
        },
    }
}

/// A parsed SNMPv2c message: header fields and the unread varbind list.
#[derive(Debug)]
pub struct SnmpPdu<'a> {
    pub version: i64,
    pub community: &'a [u8],
    pub message_type: SnmpMessageType,
    pub req_id: i32,
    pub error_status: u32,
    pub error_index: u32,
    pub varbinds: Varbinds<'a>,
}

/// Whether the parsed `p` carries the fields of the model `m`.
pub open spec fn pdu_matches(p: SnmpPdu, m: PduModel) -> bool {
    &&& p.version == VERSION_2
    &&& p.community@ == m.community
    &&& p.message_type == m.message_type
    &&& p.req_id == m.req_id
    &&& p.error_status == m.error_status
    &&& p.error_index == m.error_index
    &&& p.varbinds@ == m.varbinds
}

impl<'a> SnmpPdu<'a> {
    /// Parses the header strictly; the varbinds are decoded only when read.
    pub fn from_bytes(bytes: &'a [u8]) -> (r: SnmpResult<SnmpPdu<'a>>)
        ensures
            match spec_parse_pdu(bytes@) {
                Ok(m) => r is Ok && pdu_matches(r->Ok_0, m),
                Err(e) => r is Err && r->Err_0 == e,
            },
    {
        let mut outer = AsnReader::from_bytes(bytes);
        let seq = match outer.read_raw(asn1::TYPE_SEQUENCE) {
            Ok(s) => s,
            Err(e) => return Err(e),
        };
        let mut rdr = AsnReader::from_bytes(seq);
        let version = match rdr.read_asn_integer() {
            Ok(v) => v,
            Err(e) => return Err(e),
        };
        if version != VERSION_2 {
            return Err(SnmpError::UnsupportedVersion);
        }
        let community = match rdr.read_asn_octetstring() {
            Ok(c) => c,
            Err(e) => return Err(e),
        };
        let ident = match rdr.peek_byte() {
            Ok(b) => b,
            Err(e) => return Err(e),
        };
        let message_type = match SnmpMessageType::from_ident(ident) {
            Ok(m) => m,
            Err(e) => return Err(e),
        };
        let body = match rdr.read_raw(ident) {
            Ok(b) => b,
            Err(e) => return Err(e),
        };
        let mut response_pdu = AsnReader::from_bytes(body);
        let req_id = match response_pdu.read_asn_integer() {
            Ok(v) => v,
            Err(e) => return Err(e),
        };
        if req_id < i32::MIN as i64 || req_id > i32::MAX as i64 {
            return Err(SnmpError::ValueOutOfRange);
        }
        let error_status = match response_pdu.read_asn_integer() {
            Ok(v) => v,
            Err(e) => return Err(e),
        };
        if error_status < 0 || error_status > i32::MAX as i64 {
            return Err(SnmpError::ValueOutOfRange);
        }
        let error_index = match response_pdu.read_asn_integer() {
            Ok(v) => v,
            Err(e) => return Err(e),
        };
        if error_index < 0 || error_index > i32::MAX as i64 {
            return Err(SnmpError::ValueOutOfRange);
        }
        let varbind_bytes = match response_pdu.read_raw(asn1::TYPE_SEQUENCE) {
            Ok(v) => v,
            Err(e) => return Err(e),
        };
        Ok(
            SnmpPdu {
                version,
                community,
                message_type,
                req_id: req_id as i32,
                error_status: error_status as u32,
                error_index: error_index as u32,
                varbinds: Varbinds::from_bytes(varbind_bytes),
            },
        )
    }
}

} // verus!
