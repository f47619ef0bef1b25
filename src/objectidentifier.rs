//! OBJECT IDENTIFIER content octets and their sub-identifiers.

use vstd::prelude::*;
use crate::{SnmpError, SnmpResult};

verus! {

/// Most sub-identifiers that a decoded name may hold.
pub const MAX_SUBIDS: usize = 128;

/// Storage for a decoded name.
pub type ObjIdBuf = [u32; 128];

/// The raw DER content octets of an OBJECT IDENTIFIER (no tag or length).
#[derive(Debug, Clone, Copy, PartialEq, Eq)]
pub struct ObjectIdentifier<'a> {
    inner: &'a [u8],
}

impl<'a> View for ObjectIdentifier<'a> {
    type V = Seq<u8>;

    closed spec fn view(&self) -> Seq<u8> {
        self.inner@
    }
}

/// Decoding of the octets `bytes` that follow the first one, with `acc` the
/// sub-identifiers emitted so far, `cur` the one being accumulated and `done`
/// whether the last octet seen ended a sub-identifier.
pub open spec fn oid_step(bytes: Seq<u8>, acc: Seq<u32>, cur: int, done: bool) -> SnmpResult<
    Seq<u32>,
>
    decreases bytes.len(),
{
    if bytes.len() == 0 {
        if done {
            Ok(acc)
        } else {
            Err(SnmpError::AsnParseError)
        }
    } else if acc.len() >= 128 {
        Err(SnmpError::AsnEof)
    } else if cur >= 0x2000000 {
        Err(SnmpError::AsnIntOverflow)
    } else {
        let b = bytes[0];
        let v = cur * 128 + (b % 128);
        if b < 128 {
            oid_step(bytes.drop_first(), acc.push(v as u32), 0, true)
        } else {
            oid_step(bytes.drop_first(), acc, v, false)
        }
    }
}

/// The sub-identifiers that the content octets `raw` denote.
pub open spec fn spec_decode_oid(raw: Seq<u8>) -> SnmpResult<Seq<u32>> {
    if raw.len() < 2 {
        Err(SnmpError::AsnInvalidLen)
    } else {
        oid_step(raw.drop_first(), seq![(raw[0] / 40) as u32, (raw[0] % 40) as u32], 0, false)
    }
}

/// The higher seven-bit groups of a sub-identifier, continuation bit set.
pub open spec fn subid_high(w: nat) -> Seq<u8>
    decreases w,
{
    if w == 0 {
        seq![]
    } else {
        subid_high(w / 128) + seq![(w % 128 + 128) as u8]
    }
}

/// Base-128 encoding of one sub-identifier.
pub open spec fn subid_bytes(v: nat) -> Seq<u8> {
    subid_high(v / 128) + seq![(v % 128) as u8]
}

/// Base-128 encodings of the sub-identifiers `ids`, one after the other.
pub open spec fn subids_bytes(ids: Seq<u32>) -> Seq<u8>
    decreases ids.len(),
{
    if ids.len() == 0 {
        seq![]
    } else {
        subid_bytes(ids[0] as nat) + subids_bytes(ids.drop_first())
    }
}

/// A name that can be encoded: at least two sub-identifiers, a first arc
/// below three and a second arc below forty.
pub open spec fn oid_well_formed(ids: Seq<u32>) -> bool {
    &&& ids.len() >= 2
    &&& ids[0] < 3
    &&& ids[1] < 40
}

/// Content octets of the name `ids`: `40·a + b`, then the remaining arcs.
pub open spec fn oid_body(ids: Seq<u32>) -> Seq<u8> {
    seq![(ids[0] * 40 + ids[1]) as u8] + subids_bytes(ids.skip(2))
}

/// Decimal digits of `n`, most significant first.
pub open spec fn decimal(n: nat) -> Seq<u8>
    decreases n,
{
    if n < 10 {
        seq![(48 + n) as u8]
    } else {
        decimal(n / 10) + seq![(48 + n % 10) as u8]
    }
}

/// The sub-identifiers `ids` in decimal, joined with `.`.
pub open spec fn dotted(ids: Seq<u32>) -> Seq<u8>
    decreases ids.len(),
{
    if ids.len() == 0 {
        seq![]
    } else if ids.len() == 1 {
        decimal(ids[0] as nat)
    } else {
        dotted(ids.drop_last()) + seq![46u8] + decimal(ids.last() as nat)
    }
}

/// Whether every byte of `s` is ASCII.
pub open spec fn is_ascii(s: Seq<u8>) -> bool {
    forall|i: int| 0 <= i < s.len() ==> #[trigger] s[i] < 128
}

/// Relies on String::from_utf8: ASCII bytes are valid UTF-8 and each one
/// becomes the character of the same value.
#[verifier::external_body]
fn ascii_string(bytes: Vec<u8>) -> (r: String)
    requires
        is_ascii(bytes@),
    ensures
        r@ == bytes@.map_values(|b: u8| b as char),
{
    String::from_utf8(bytes).unwrap_or_default()
}

fn push_decimal(out: &mut Vec<u8>, n: u32)
    ensures
        final(out)@ == old(out)@ + decimal(n as nat),
    decreases n,
{
    if n >= 10 {
        push_decimal(out, n / 10);
    }
    out.push(48 + (n % 10) as u8);
}

proof fn lemma_decimal_ascii(n: nat)
    ensures
        is_ascii(decimal(n)),
    decreases n,
{
    if n >= 10 {
        lemma_decimal_ascii(n / 10);
        let a = decimal(n / 10);
        let d = seq![(48 + n % 10) as u8];
        assert forall|i: int| 0 <= i < (a + d).len() implies #[trigger] (a + d)[i] < 128 by {
            if i < a.len() {
                assert((a + d)[i] == a[i]);
            }
        }
    }
}

proof fn lemma_dotted_ascii(ids: Seq<u32>)
    ensures
        is_ascii(dotted(ids)),
    decreases ids.len(),
{
    if ids.len() == 1 {
        lemma_decimal_ascii(ids[0] as nat);
    } else if ids.len() > 1 {
        lemma_dotted_ascii(ids.drop_last());
        lemma_decimal_ascii(ids.last() as nat);
        let a = dotted(ids.drop_last()) + seq![46u8];
        let b = decimal(ids.last() as nat);
        assert forall|i: int| 0 <= i < (a + b).len() implies #[trigger] (a + b)[i] < 128 by {
            if i < a.len() {
                assert((a + b)[i] == a[i]);
                if i < a.len() - 1 {
                    assert(a[i] == dotted(ids.drop_last())[i]);
                }
            } else {
                assert((a + b)[i] == b[i - a.len()]);
            }
        }
    }
}

impl<'a> ObjectIdentifier<'a> {
    pub fn from_bytes(bytes: &'a [u8]) -> (r: ObjectIdentifier<'a>)
        ensures
            r@ == bytes@,
    {
        ObjectIdentifier { inner: bytes }
    }

    /// Decodes the sub-identifiers into `out` and returns them as a prefix of it.
    pub fn read_name<'b>(&self, out: &'b mut ObjIdBuf) -> (r: SnmpResult<&'b [u32]>)
        ensures
            match spec_decode_oid(self@) {
                Ok(ids) => r is Ok && r->Ok_0@ == ids,
                Err(e) => r is Err && r->Err_0 == e,
            },
    {
        let input = self.inner;
        if input.len() < 2 {
            return Err(SnmpError::AsnInvalidLen);
        }
        out[0] = (input[0] / 40) as u32;
        out[1] = (input[0] % 40) as u32;
        let ghost init = seq![(input[0] / 40) as u32, (input[0] % 40) as u32];
        let mut pos: usize = 2;
        let mut cur: u32 = 0;
        let mut is_done = false;
        let mut i: usize = 1;
        assert(out@.take(2) == init);
        assert(input@.skip(1) == input@.drop_first());
        while i < input.len()
            invariant
                1 <= i <= input@.len(),
                input@ == self@,
                2 <= pos <= 128,
                out@.len() == 128,
                oid_step(input@.skip(i as int), out@.take(pos as int), cur as int, is_done)
                    == spec_decode_oid(input@),
            decreases input@.len() - i,
        {
            let b = input[i];
            assert(input@.skip(i as int).drop_first() == input@.skip(i as int + 1));
            assert(input@.skip(i as int).len() > 0 && input@.skip(i as int)[0] == b);
            assert(out@.take(pos as int).len() == pos);
            if pos == 128 {
                assert(oid_step(input@.skip(i as int), out@.take(pos as int), cur as int, is_done)
                    == Err::<Seq<u32>, SnmpError>(SnmpError::AsnEof));
                return Err(SnmpError::AsnEof);
            }
            if cur >= 0x2000000 {
                return Err(SnmpError::AsnIntOverflow);
            }
            is_done = b < 128;
            cur = cur * 128 + (b % 128) as u32;
            if is_done {
                let ghost prev = out@;
                out[pos] = cur;
                assert(out@.take(pos as int + 1) == prev.take(pos as int).push(cur));
                pos = pos + 1;
                cur = 0;
            }
            i = i + 1;
        }
        if !is_done {
            Err(SnmpError::AsnParseError)
        } else {
            assert(input@.skip(i as int).len() == 0);
            Ok(&out[0..pos])
        }
    }

    /// Whether the name decodes and equals `other` sub-identifier by
    /// sub-identifier.
    pub fn eq_name(&self, other: &[u32]) -> (r: bool)
        ensures
            r == (spec_decode_oid(self@) is Ok && spec_decode_oid(self@)->Ok_0 == other@),
    {
        let mut buf: ObjIdBuf = [0u32; 128];
        let name = match self.read_name(&mut buf) {
            Ok(n) => n,
            Err(_) => return false,
        };
        if name.len() != other.len() {
            return false;
        }
        let mut i: usize = 0;
        while i < name.len()
            invariant
                i <= name@.len(),
                name@.len() == other@.len(),
                spec_decode_oid(self@) is Ok && spec_decode_oid(self@)->Ok_0 == name@,
                forall|k: int| 0 <= k < i ==> name@[k] == other@[k],
            decreases name@.len() - i,
        {
            if name[i] != other[i] {
                assert(name@[i as int] != other@[i as int]);
                return false;
            }
            i = i + 1;
        }
        assert(name@ =~= other@);
        true
    }

    /// The name as text: sub-identifiers in decimal joined with `.`.
    pub fn to_text(&self) -> (r: SnmpResult<String>)
        ensures
            match spec_decode_oid(self@) {
                Ok(ids) => r is Ok && r->Ok_0@ == dotted(ids).map_values(|b: u8| b as char),
                Err(e) => r is Err && r->Err_0 == e,
            },
    {
        let mut buf: ObjIdBuf = [0u32; 128];
        let name = match self.read_name(&mut buf) {
            Ok(n) => n,
            Err(e) => return Err(e),
        };
        let mut out: Vec<u8> = Vec::new();
        let mut i: usize = 0;
        while i < name.len()
            invariant
                i <= name@.len(),
                out@ == dotted(name@.take(i as int)),
            decreases name@.len() - i,
        {
            if i > 0 {
                out.push(46);
            }
            push_decimal(&mut out, name[i]);
            proof {
                let t = name@.take(i as int + 1);
                assert(t.drop_last() =~= name@.take(i as int));
                assert(t.last() == name@[i as int]);
                assert(out@ =~= dotted(t));
            }
            i = i + 1;
        }
        assert(name@.take(name@.len() as int) =~= name@);
        proof {
            lemma_dotted_ascii(name@);
        }
        Ok(ascii_string(out))
    }

    pub fn raw(&self) -> (r: &'a [u8])
        ensures
            r@ == self@,
    {
        self.inner
    }
}

} // verus!
