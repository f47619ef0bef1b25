use snmp::asn1;
use snmp::snmp::{MSG_GET_BULK, MSG_RESPONSE, SNMP_ENDOFMIBVIEW};
use snmp::{
    build_get, build_getbulk, build_getnext, build_response, build_set, AsnReader, Buf,
    ObjIdBuf, ObjectIdentifier, SnmpError, SnmpMessageType, SnmpPdu, Value,
};

fn tlv(tag: u8, body: &[u8]) -> Vec<u8> {
    let mut out = vec![tag];
    let n = body.len();
    if n < 128 {
        out.push(n as u8);
    } else if n < 256 {
        out.push(0x81);
        out.push(n as u8);
    } else {
        out.push(0x82);
        out.push((n >> 8) as u8);
        out.push(n as u8);
    }
    out.extend_from_slice(body);
    out
}

fn decode_name(oid: &ObjectIdentifier) -> Vec<u32> {
    let mut out: ObjIdBuf = [0u32; 128];
    oid.read_name(&mut out).unwrap().to_vec()
}

fn response_with_value(name_body: &[u8], value: &[u8]) -> Vec<u8> {
    let mut pair = tlv(asn1::TYPE_OBJECTIDENTIFIER, name_body);
    pair.extend_from_slice(value);
    let list = tlv(asn1::TYPE_SEQUENCE, &tlv(asn1::TYPE_SEQUENCE, &pair));
    let mut pdu = vec![0x02, 0x01, 0x07, 0x02, 0x01, 0x00, 0x02, 0x01, 0x00];
    pdu.extend_from_slice(&list);
    let mut msg = vec![0x02, 0x01, 0x01];
    msg.extend_from_slice(&tlv(asn1::TYPE_OCTETSTRING, b"public"));
    msg.extend_from_slice(&tlv(MSG_RESPONSE, &pdu));
    tlv(asn1::TYPE_SEQUENCE, &msg)
}

#[test]
fn get_request_for_sys_descr() {
    let mut buf = Buf::default();
    build_get(b"public", 0x12345678, &[1, 3, 6, 1, 2, 1, 1, 1, 0], &mut buf);
    let expected: Vec<u8> = vec![
        0x30, 0x29, 0x02, 0x01, 0x01, 0x04, 0x06, 0x70, 0x75, 0x62, 0x6c, 0x69, 0x63, 0xa0, 0x1c,
        0x02, 0x04, 0x12, 0x34, 0x56, 0x78, 0x02, 0x01, 0x00, 0x02, 0x01, 0x00, 0x30, 0x0e, 0x30,
        0x0c, 0x06, 0x08, 0x2b, 0x06, 0x01, 0x02, 0x01, 0x01, 0x01, 0x00, 0x05, 0x00,
    ];
    assert_eq!(buf.as_bytes(), &expected[..]);
    assert_eq!(buf.len(), expected.len());

    let pdu = SnmpPdu::from_bytes(buf.as_bytes()).unwrap();
    assert_eq!(pdu.version, 1);
    assert_eq!(pdu.community, b"public");
    assert_eq!(pdu.message_type, SnmpMessageType::GetRequest);
    assert_eq!(pdu.req_id, 0x12345678);
    assert_eq!(pdu.error_status, 0);
    assert_eq!(pdu.error_index, 0);
    let mut vbs = pdu.varbinds;
    let (name, value) = vbs.next().unwrap();
    assert_eq!(decode_name(&name), vec![1, 3, 6, 1, 2, 1, 1, 1, 0]);
    assert!(matches!(value, Value::Null));
    assert!(vbs.next().is_none());
}

#[test]
fn getnext_request_tag() {
    let mut buf = Buf::default();
    build_getnext(b"private", -5, &[1, 3, 6, 1], &mut buf);
    let pdu = SnmpPdu::from_bytes(buf.as_bytes()).unwrap();
    assert_eq!(pdu.message_type, SnmpMessageType::GetNextRequest);
    assert_eq!(pdu.community, b"private");
    assert_eq!(pdu.req_id, -5);
    assert_eq!(buf.as_bytes()[14], 0xa1);
}

#[test]
fn response_with_counter64() {
    let name = [0x2b, 0x06, 0x01, 0x02, 0x01, 0x1f, 0x01, 0x01, 0x01, 0x06, 0x01];
    let value = [0x46, 0x07, 0x00, 0x01, 0x00, 0x00, 0x00, 0x00, 0x00];
    let bytes = response_with_value(&name, &value);
    let pdu = SnmpPdu::from_bytes(&bytes).unwrap();
    assert_eq!(pdu.message_type, SnmpMessageType::Response);
    assert_eq!(pdu.req_id, 7);
    let mut vbs = pdu.varbinds;
    let (oid, v) = vbs.next().unwrap();
    assert_eq!(decode_name(&oid), vec![1, 3, 6, 1, 2, 1, 31, 1, 1, 1, 6, 1]);
    assert!(matches!(v, Value::Counter64(1_099_511_627_776)));
    assert!(vbs.next().is_none());
}

#[test]
fn getbulk_round_trip() {
    let a: &[u32] = &[1, 3, 6, 1, 2, 1, 2, 2, 1, 2];
    let b: &[u32] = &[1, 3, 6, 1, 2, 1, 2, 2, 1, 10];
    let mut buf = Buf::default();
    build_getbulk(b"public", 4242, &[a, b], 0, 10, &mut buf);
    let pdu = SnmpPdu::from_bytes(buf.as_bytes()).unwrap();
    assert_eq!(pdu.message_type, SnmpMessageType::GetBulkRequest);
    assert_eq!(pdu.req_id, 4242);
    assert_eq!(pdu.error_status, 0);
    assert_eq!(pdu.error_index, 10);
    let mut vbs = pdu.varbinds;
    let (n1, v1) = vbs.next().unwrap();
    let (n2, v2) = vbs.next().unwrap();
    assert!(vbs.next().is_none());
    assert_eq!(decode_name(&n1), a.to_vec());
    assert_eq!(decode_name(&n2), b.to_vec());
    assert!(matches!(v1, Value::Null));
    assert!(matches!(v2, Value::Null));
    assert!(buf.as_bytes().contains(&MSG_GET_BULK));
}

#[test]
fn end_of_mib_view_round_trip() {
    let name = [0x2b, 0x06, 0x01];
    let bytes = response_with_value(&name, &[SNMP_ENDOFMIBVIEW, 0x00]);
    let pdu = SnmpPdu::from_bytes(&bytes).unwrap();
    let mut vbs = pdu.varbinds;
    let (oid, v) = vbs.next().unwrap();
    assert!(matches!(v, Value::EndOfMibView));

    let names = decode_name(&oid);
    let mut buf = Buf::default();
    build_response(b"public", 7, &[(&names[..], v)], &mut buf);
    assert_eq!(buf.as_bytes(), &bytes[..]);
    let out = buf.as_bytes();
    assert_eq!(&out[out.len() - 2..], &[0x82, 0x00]);
}

#[test]
fn oid_largest_subid() {
    let mut buf = Buf::default();
    build_get(b"", 1, &[1, 3, 4294967295], &mut buf);
    let out = buf.as_bytes();
    let body = [0x2b, 0x8f, 0xff, 0xff, 0xff, 0x7f];
    let at = out.windows(8).position(|w| w[0] == 0x06 && w[1] == 0x06 && w[2..] == body);
    assert!(at.is_some());
    let oid = ObjectIdentifier::from_bytes(&body);
    assert_eq!(decode_name(&oid), vec![1, 3, 4294967295]);
}

#[test]
fn overlong_integer() {
    let bytes = [0x02, 0x09, 0x01, 0, 0, 0, 0, 0, 0, 0, 0];
    let mut rdr = AsnReader::from_bytes(&bytes);
    assert_eq!(rdr.read_asn_integer(), Err(SnmpError::AsnIntOverflow));
}

#[test]
fn integer_round_trip_and_minimal_length() {
    let cases: [(i64, usize); 13] = [
        (i64::MIN, 8),
        (i64::MIN + 1, 8),
        (-65537, 3),
        (-129, 2),
        (-128, 1),
        (-1, 1),
        (0, 1),
        (1, 1),
        (127, 1),
        (128, 2),
        (65535, 3),
        (65536, 3),
        (i64::MAX, 8),
    ];
    for &(n, len) in cases.iter() {
        let name: &[u32] = &[1, 3, 6];
        let mut buf = Buf::default();
        build_set(b"c", 1, &[(name, Value::Integer(n))], &mut buf);
        let pdu = SnmpPdu::from_bytes(buf.as_bytes()).unwrap();
        let mut vbs = pdu.varbinds;
        let (_, v) = vbs.next().unwrap();
        assert!(matches!(v, Value::Integer(m) if m == n));
        let out = buf.as_bytes();
        let total = out.len();
        let body = &out[total - len..];
        assert_eq!(out[total - len - 1] as usize, len);
        assert_eq!(out[total - len - 2], asn1::TYPE_INTEGER);
        let mut rdr = AsnReader::from_bytes(&out[total - len - 2..]);
        assert_eq!(rdr.read_asn_integer(), Ok(n));
        if len > 1 {
            assert!(!(body[0] == 0 && body[1] < 128));
            assert!(!(body[0] == 0xff && body[1] >= 128));
        }
    }
}

#[test]
fn oid_round_trip() {
    let mut long: Vec<u32> = vec![2, 39];
    for i in 0..126u32 {
        long.push(i * 40_000_000);
    }
    let names: Vec<Vec<u32>> = vec![
        vec![0, 0, 0],
        vec![1, 3, 6, 1, 4, 1, 9, 9, 127],
        vec![2, 39, 128, 16383, 16384, 2097151, 2097152],
        long,
    ];
    for name in names.iter() {
        let mut buf = Buf::default();
        build_get(b"public", 3, name, &mut buf);
        let pdu = SnmpPdu::from_bytes(buf.as_bytes()).unwrap();
        let mut vbs = pdu.varbinds;
        let (oid, _) = vbs.next().unwrap();
        assert_eq!(&decode_name(&oid), name);
    }
}

#[test]
fn oid_two_arcs_is_refused() {
    let oid = ObjectIdentifier::from_bytes(&[0x2b]);
    let mut out: ObjIdBuf = [0u32; 128];
    assert_eq!(oid.read_name(&mut out), Err(SnmpError::AsnInvalidLen));
}

#[test]
fn oid_decode_errors() {
    let mut out: ObjIdBuf = [0u32; 128];
    let dangling = ObjectIdentifier::from_bytes(&[0x2b, 0x86]);
    assert_eq!(dangling.read_name(&mut out), Err(SnmpError::AsnParseError));
    let wide = ObjectIdentifier::from_bytes(&[0x2b, 0x90, 0x80, 0x80, 0x80, 0x00]);
    assert_eq!(wide.read_name(&mut out), Err(SnmpError::AsnIntOverflow));
    let mut many = vec![0x2b];
    many.extend(std::iter::repeat(1u8).take(127));
    assert_eq!(ObjectIdentifier::from_bytes(&many).read_name(&mut out), Err(SnmpError::AsnEof));
    let mut most = vec![0x2b];
    most.extend(std::iter::repeat(1u8).take(126));
    assert_eq!(ObjectIdentifier::from_bytes(&most).read_name(&mut out).unwrap().len(), 128);
}

#[test]
fn set_round_trip_every_value_kind() {
    let raw_oid = [0x2b, 0x06, 0x01, 0x02];
    let values: Vec<Value> = vec![
        Value::Boolean(true),
        Value::Boolean(false),
        Value::Null,
        Value::Integer(-300),
        Value::OctetString(b"hello"),
        Value::ObjectIdentifier(ObjectIdentifier::from_bytes(&raw_oid)),
        Value::IpAddress([10, 0, 0, 254]),
        Value::Counter32(u32::MAX),
        Value::Unsigned32(0x8000_0000),
        Value::Timeticks(12345),
        Value::Opaque(&[0x9f, 0x78, 0x04]),
        Value::Counter64(u64::MAX),
    ];
    let name: &[u32] = &[1, 3, 6, 1, 2, 1, 1, 3, 0];
    let pairs: Vec<(&[u32], Value)> = values.iter().map(|v| (name, *v)).collect();
    let mut buf = Buf::default();
    build_set(b"secret", -1, &pairs, &mut buf);
    let pdu = SnmpPdu::from_bytes(buf.as_bytes()).unwrap();
    assert_eq!(pdu.message_type, SnmpMessageType::SetRequest);
    assert_eq!(pdu.req_id, -1);
    assert_eq!(pdu.community, b"secret");
    let mut vbs = pdu.varbinds;
    let mut got = Vec::new();
    while let Some((oid, v)) = vbs.next() {
        assert_eq!(decode_name(&oid), name.to_vec());
        got.push(v);
    }
    assert_eq!(got.len(), values.len());
    assert!(matches!(got[0], Value::Boolean(true)));
    assert!(matches!(got[1], Value::Boolean(false)));
    assert!(matches!(got[2], Value::Null));
    assert!(matches!(got[3], Value::Integer(-300)));
    assert!(matches!(got[4], Value::OctetString(s) if s == b"hello"));
    assert!(matches!(got[5], Value::ObjectIdentifier(o) if o.raw() == &raw_oid[..]));
    assert!(matches!(got[6], Value::IpAddress([10, 0, 0, 254])));
    assert!(matches!(got[7], Value::Counter32(u32::MAX)));
    assert!(matches!(got[8], Value::Unsigned32(0x8000_0000)));
    assert!(matches!(got[9], Value::Timeticks(12345)));
    assert!(matches!(got[10], Value::Opaque(s) if s == &[0x9f, 0x78, 0x04]));
    assert!(matches!(got[11], Value::Counter64(u64::MAX)));
}

#[test]
fn response_round_trip_with_exceptions() {
    let a: &[u32] = &[1, 3, 6, 1, 2, 1, 1, 1, 0];
    let b: &[u32] = &[1, 3, 6, 1, 2, 1, 1, 2, 0];
    let c: &[u32] = &[1, 3, 6, 1, 2, 1, 1, 3, 0];
    let d: &[u32] = &[1, 3, 6, 1, 2, 1, 1, 4, 0];
    let pairs = [
        (a, Value::NoSuchObject),
        (b, Value::NoSuchInstance),
        (c, Value::EndOfMibView),
        (d, Value::OctetString(b"router")),
    ];
    let mut buf = Buf::default();
    build_response(b"public", i32::MIN, &pairs, &mut buf);
    let pdu = SnmpPdu::from_bytes(buf.as_bytes()).unwrap();
    assert_eq!(pdu.req_id, i32::MIN);
    assert_eq!(pdu.message_type, SnmpMessageType::Response);
    let mut vbs = pdu.varbinds;
    let (n, v) = vbs.next().unwrap();
    assert_eq!(decode_name(&n), a.to_vec());
    assert!(matches!(v, Value::NoSuchObject));
    let (n, v) = vbs.next().unwrap();
    assert_eq!(decode_name(&n), b.to_vec());
    assert!(matches!(v, Value::NoSuchInstance));
    let (n, v) = vbs.next().unwrap();
    assert_eq!(decode_name(&n), c.to_vec());
    assert!(matches!(v, Value::EndOfMibView));
    let (n, v) = vbs.next().unwrap();
    assert_eq!(decode_name(&n), d.to_vec());
    assert!(matches!(v, Value::OctetString(s) if s == b"router"));
    assert!(vbs.next().is_none());
}

#[test]
fn long_form_lengths() {
    let community = vec![b'x'; 300];
    let mut buf = Buf::default();
    build_get(&community, 9, &[1, 3, 6, 1], &mut buf);
    let out = buf.as_bytes();
    assert_eq!(&out[..2], &[0x30, 0x82]);
    let pdu = SnmpPdu::from_bytes(out).unwrap();
    assert_eq!(pdu.community, &community[..]);

    let mut rdr = AsnReader::from_bytes(&[0x81, 0x05, 0xaa]);
    assert_eq!(rdr.read_length(), Ok(5));
    assert_eq!(rdr.remaining(), &[0xaa]);
}

#[test]
fn der_strictness() {
    let mut rdr = AsnReader::from_bytes(&[0x01, 0x01, 0x02]);
    assert_eq!(rdr.read_asn_boolean(), Err(SnmpError::AsnParseError));
    let mut rdr = AsnReader::from_bytes(&[0x01, 0x01, 0x01]);
    assert_eq!(rdr.read_asn_boolean(), Ok(true));
    let mut rdr = AsnReader::from_bytes(&[0x80, 0x01]);
    assert_eq!(rdr.read_length(), Err(SnmpError::AsnInvalidLen));
    let mut rdr = AsnReader::from_bytes(&[0xff, 0x01]);
    assert_eq!(rdr.read_length(), Err(SnmpError::AsnInvalidLen));
    let mut rdr = AsnReader::from_bytes(&[0x04, 0x05, 0x61, 0x62]);
    assert_eq!(rdr.read_asn_octetstring(), Err(SnmpError::AsnInvalidLen));
    let mut rdr = AsnReader::from_bytes(&[0x02, 0x03, 0x01]);
    assert_eq!(rdr.read_asn_integer(), Err(SnmpError::AsnInvalidLen));
}

#[test]
fn version_rejection() {
    let mut buf = Buf::default();
    build_get(b"public", 1, &[1, 3, 6], &mut buf);
    let mut bytes = buf.as_bytes().to_vec();
    assert_eq!(&bytes[2..5], &[0x02, 0x01, 0x01]);
    bytes[4] = 0;
    assert_eq!(SnmpPdu::from_bytes(&bytes).err(), Some(SnmpError::UnsupportedVersion));
}

#[test]
fn request_id_range_rejection() {
    let mut pdu = vec![0x02, 0x05, 0x00, 0x80, 0x00, 0x00, 0x00, 0x02, 0x01, 0x00, 0x02, 0x01, 0x00];
    pdu.extend_from_slice(&[0x30, 0x00]);
    let mut msg = vec![0x02, 0x01, 0x01];
    msg.extend_from_slice(&tlv(asn1::TYPE_OCTETSTRING, b"public"));
    msg.extend_from_slice(&tlv(0xa0, &pdu));
    let bytes = tlv(asn1::TYPE_SEQUENCE, &msg);
    assert_eq!(SnmpPdu::from_bytes(&bytes).err(), Some(SnmpError::ValueOutOfRange));
}

#[test]
fn error_status_range_rejection() {
    let mut pdu = vec![0x02, 0x01, 0x01, 0x02, 0x01, 0xff, 0x02, 0x01, 0x00];
    pdu.extend_from_slice(&[0x30, 0x00]);
    let mut msg = vec![0x02, 0x01, 0x01];
    msg.extend_from_slice(&tlv(asn1::TYPE_OCTETSTRING, b"public"));
    msg.extend_from_slice(&tlv(0xa2, &pdu));
    let bytes = tlv(asn1::TYPE_SEQUENCE, &msg);
    assert_eq!(SnmpPdu::from_bytes(&bytes).err(), Some(SnmpError::ValueOutOfRange));
}

#[test]
fn unknown_message_type() {
    let mut msg = vec![0x02, 0x01, 0x01];
    msg.extend_from_slice(&tlv(asn1::TYPE_OCTETSTRING, b"public"));
    msg.extend_from_slice(&tlv(0xa4, &[]));
    let bytes = tlv(asn1::TYPE_SEQUENCE, &msg);
    assert_eq!(SnmpPdu::from_bytes(&bytes).err(), Some(SnmpError::AsnWrongType));
    assert_eq!(SnmpMessageType::from_ident(0xa8), Ok(SnmpMessageType::Report));
    assert_eq!(SnmpMessageType::from_ident(0xa6), Ok(SnmpMessageType::InformRequest));
    assert_eq!(SnmpMessageType::from_ident(0xa7), Ok(SnmpMessageType::Trap));
}

#[test]
fn reader_errors() {
    let mut rdr = AsnReader::from_bytes(&[]);
    assert_eq!(rdr.peek_byte(), Err(SnmpError::AsnEof));
    assert_eq!(rdr.read_byte(), Err(SnmpError::AsnEof));
    assert!(rdr.next().is_none());
    let mut rdr = AsnReader::from_bytes(&[0x05, 0x00]);
    assert_eq!(rdr.read_asn_integer(), Err(SnmpError::AsnWrongType));
    let mut rdr = AsnReader::from_bytes(&[0x05, 0x01, 0x00]);
    assert_eq!(rdr.read_asn_null(), Err(SnmpError::AsnInvalidLen));
    let mut rdr = AsnReader::from_bytes(&[0x07, 0x00]);
    assert_eq!(rdr.read_value().err(), Some(SnmpError::AsnUnsupportedType));
    let mut rdr = AsnReader::from_bytes(&[0x40, 0x03, 1, 2, 3]);
    assert_eq!(rdr.read_snmp_ipaddress(), Err(SnmpError::AsnInvalidLen));
    let mut rdr = AsnReader::from_bytes(&[0x84, 0x00]);
    assert_eq!(rdr.read_length(), Err(SnmpError::AsnEof));
}

#[test]
fn reader_streams_values() {
    let bytes = [
        0x02, 0x01, 0x05, 0x41, 0x01, 0x07, 0x42, 0x02, 0x00, 0x80, 0x43, 0x01, 0x09, 0x31, 0x00,
        0x3f, 0x02, 0x05, 0x00, 0x44, 0x01, 0xaa, 0x06, 0x01, 0x2b, 0x30, 0x03, 0x02, 0x01, 0x01,
        0x09, 0x00,
    ];
    let mut rdr = AsnReader::from_bytes(&bytes);
    assert!(matches!(rdr.next(), Some(Value::Integer(5))));
    assert_eq!(rdr.peek_byte(), Ok(0x41));
    assert!(matches!(rdr.next(), Some(Value::Counter32(7))));
    assert!(matches!(rdr.next(), Some(Value::Unsigned32(128))));
    assert!(matches!(rdr.next(), Some(Value::Timeticks(9))));
    assert!(matches!(rdr.next(), Some(Value::AsnSet(_))));
    match rdr.next() {
        Some(Value::Constructed(0x3f, mut inner)) => {
            assert!(matches!(inner.next(), Some(Value::Null)));
            assert!(inner.next().is_none());
        }
        _ => panic!("expected a constructed value"),
    }
    assert!(matches!(rdr.next(), Some(Value::Opaque(s)) if s == &[0xaa]));
    assert!(matches!(rdr.next(), Some(Value::ObjectIdentifier(o)) if o.raw() == &[0x2b]));
    match rdr.next() {
        Some(Value::Sequence(mut inner)) => {
            assert!(matches!(inner.read_value(), Ok(Value::Integer(1))));
        }
        _ => panic!("expected a sequence"),
    }
    assert!(rdr.next().is_none());
}

#[test]
fn constructed_readers() {
    let bytes = [0x30, 0x03, 0x02, 0x01, 0x2a, 0xa2, 0x00];
    let mut rdr = AsnReader::from_bytes(&bytes);
    let mut seq = rdr.read_asn_sequence().unwrap();
    assert_eq!(seq.read_asn_integer(), Ok(42));
    assert_eq!(rdr.read_constructed(0xa0).err(), Some(SnmpError::AsnWrongType));
    let mut rdr = AsnReader::from_bytes(&bytes[5..]);
    let inner = rdr.read_constructed(0xa2).unwrap();
    assert_eq!(inner.remaining().len(), 0);
    let mut rdr = AsnReader::from_bytes(&[0x46, 0x01, 0xff]);
    assert_eq!(rdr.read_snmp_counter64(), Ok(u64::MAX));
    let mut rdr = AsnReader::from_bytes(&[0x04, 0x02, 0x68, 0x69]);
    assert_eq!(rdr.read_asn_octetstring(), Ok(&b"hi"[..]));
    let mut rdr = AsnReader::from_bytes(&[0x44, 0x00]);
    assert_eq!(rdr.read_snmp_opaque(), Ok(&b""[..]));
    let mut rdr = AsnReader::from_bytes(&[0x43, 0x01, 0x10]);
    assert_eq!(rdr.read_snmp_timeticks(), Ok(16));
    let mut rdr = AsnReader::from_bytes(&[0x42, 0x01, 0x10]);
    assert_eq!(rdr.read_snmp_unsigned32(), Ok(16));
    let mut rdr = AsnReader::from_bytes(&[0x41, 0x01, 0x10]);
    assert_eq!(rdr.read_snmp_counter32(), Ok(16));
    let mut rdr = AsnReader::from_bytes(&[0x40, 0x04, 1, 2, 3, 4]);
    assert_eq!(rdr.read_snmp_ipaddress(), Ok([1, 2, 3, 4]));
    let mut rdr = AsnReader::from_bytes(&[0x06, 0x02, 0x2b, 0x06]);
    let oid = rdr.read_asn_objectidentifier().unwrap();
    assert_eq!(oid.raw(), &[0x2b, 0x06]);
    assert_eq!(rdr.read_i64_type(0x02), Err(SnmpError::AsnEof));
    let mut rdr = AsnReader::from_bytes(&[0x41, 0x00]);
    assert_eq!(rdr.read_raw(0x41), Ok(&b""[..]));
}

#[test]
fn varbinds_stop_on_bad_pair() {
    let list = [0x30, 0x04, 0x06, 0x01, 0x2b, 0x07, 0x30, 0x00];
    let mut vbs = snmp::Varbinds::from_bytes(&list);
    assert!(vbs.next().is_none());
    let good = [0x30, 0x05, 0x06, 0x01, 0x2b, 0x05, 0x00];
    let mut vbs = snmp::Varbinds::from_bytes(&good);
    assert!(vbs.next().is_some());
    assert!(vbs.next().is_none());
}

#[test]
fn decode_i64_sign_extension() {
    assert_eq!(snmp::decode_i64(&[]), Ok(0));
    assert_eq!(snmp::decode_i64(&[0xff]), Ok(-1));
    assert_eq!(snmp::decode_i64(&[0x00, 0xff]), Ok(255));
    assert_eq!(snmp::decode_i64(&[0xff, 0x7f]), Ok(-129));
    assert_eq!(snmp::decode_i64(&[0x80, 0, 0, 0, 0, 0, 0, 0]), Ok(i64::MIN));
    assert_eq!(snmp::decode_i64(&[0; 9]), Err(SnmpError::AsnIntOverflow));
}

#[test]
fn oid_text_and_comparison() {
    let oid = ObjectIdentifier::from_bytes(&[0x2b, 0x06, 0x01, 0x8f, 0xff, 0xff, 0xff, 0x7f]);
    assert_eq!(oid.to_text(), Ok(String::from("1.3.6.1.4294967295")));
    assert!(oid.eq_name(&[1, 3, 6, 1, 4294967295]));
    assert!(!oid.eq_name(&[1, 3, 6, 1]));
    assert!(!oid.eq_name(&[1, 3, 6, 1, 4294967294]));
    let zero = ObjectIdentifier::from_bytes(&[0x00, 0x00]);
    assert_eq!(zero.to_text(), Ok(String::from("0.0.0")));
    let bad = ObjectIdentifier::from_bytes(&[0x2b]);
    assert_eq!(bad.to_text(), Err(SnmpError::AsnInvalidLen));
    assert!(!bad.eq_name(&[1, 3]));
    assert_eq!(oid, ObjectIdentifier::from_bytes(&[0x2b, 0x06, 0x01, 0x8f, 0xff, 0xff, 0xff, 0x7f]));
}

#[test]
fn buffer_starts_empty_and_resets() {
    let mut buf = Buf::default();
    assert_eq!(buf.len(), 0);
    assert!(buf.as_bytes().is_empty());
    build_get(b"a", 1, &[1, 3, 6], &mut buf);
    let first = buf.as_bytes().to_vec();
    build_get(b"a", 1, &[1, 3, 6], &mut buf);
    assert_eq!(buf.as_bytes(), &first[..]);
}
