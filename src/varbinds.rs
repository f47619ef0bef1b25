//! Lazy sequence of (name, value) pairs of a PDU.

use vstd::prelude::*;
use crate::asn1;
use crate::asnreader::{AsnReader, is_suffix, spec_read_raw, spec_read_value};
use crate::objectidentifier::ObjectIdentifier;
use crate::value::{Value, ValueSpec};

verus! {

/// The contents of a PDU's varbind list, read one pair at a time.
#[derive(Debug, Clone, Copy)]
pub struct Varbinds<'a> {
    inner: AsnReader<'a>,
}

impl<'a> View for Varbinds<'a> {
    type V = Seq<u8>;

    closed spec fn view(&self) -> Seq<u8> {
        self.inner@
    }
}

/// The next pair of the list `s`: its name's content octets, its value and
/// the rest of the list; `None` at the end or on a decoding failure.
pub open spec fn spec_next_varbind(s: Seq<u8>) -> Option<(Seq<u8>, ValueSpec, Seq<u8>)> {
    match spec_read_raw(s, asn1::TYPE_SEQUENCE) {
        Err(_) => None,
        Ok((pair, rest)) => match spec_read_raw(pair, asn1::TYPE_OBJECTIDENTIFIER) {
            Err(_) => None,
            Ok((name, after)) => match spec_read_value(after) {
                Err(_) => None,
                Ok((v, _)) => Some((name, v, rest)),
            },
        },
    }
}

impl<'a> Varbinds<'a> {
    pub fn from_bytes(bytes: &'a [u8]) -> (r: Varbinds<'a>)
        ensures
            r@ == bytes@,
    {
        Varbinds { inner: AsnReader::from_bytes(bytes) }
    }

    /// The next pair, or `None` at the end of the list or on the first
    /// decoding failure.
    pub fn next(&mut self) -> (r: Option<(ObjectIdentifier<'a>, Value<'a>)>)
        ensures
            match spec_next_varbind(old(self)@) {
                Some((name, v, rest)) => r is Some && r->Some_0.0@ == name && r->Some_0.1@ == v
                    && final(self)@ == rest,
                None => r is None,
            },
            is_suffix(final(self)@, old(self)@),
    {
        let mut pair = match self.inner.read_asn_sequence() {
            Ok(p) => p,
            Err(_) => return None,
        };
        let name = match pair.read_asn_objectidentifier() {
            Ok(n) => n,
            Err(_) => return None,
        };
        match pair.read_value() {
            Ok(v) => Some((name, v)),
            Err(_) => None,
        }
    }
}

} // verus!
