//! SNMPv2c PDU encoding and decoding over a DER subset.

use vstd::prelude::*;

pub mod asn1;
pub mod objectidentifier;
pub mod asnreader;
pub mod value;
pub mod snmp;
pub mod varbinds;
pub mod pdu;
pub mod roundtrip;

pub use asnreader::AsnReader;
pub use objectidentifier::{ObjectIdentifier, ObjIdBuf};
pub use pdu::{Buf, build_get, build_getnext, build_getbulk, build_set, build_response};
pub use snmp::{SnmpMessageType, SnmpPdu};
pub use value::Value;
pub use varbinds::Varbinds;

verus! {

/// Failures reported by the decoder.
#[derive(Debug, PartialEq, Eq, Clone, Copy, Structural)]
pub enum SnmpError {
    AsnParseError,
    AsnInvalidLen,
    AsnWrongType,
    AsnUnsupportedType,
    AsnEof,
    AsnIntOverflow,
    UnsupportedVersion,
    RequestIdMismatch,
    CommunityMismatch,
    ValueOutOfRange,
    SendError,
    ReceiveError,
}

pub type SnmpResult<T> = Result<T, SnmpError>;

/// Capacity of the encoding buffer.
pub const BUFFER_SIZE: usize = 4096;

/// `256` raised to `n`.
pub open spec fn pow256(n: nat) -> int
    decreases n,
{
    if n == 0 {
        1
    } else {
        256 * pow256((n - 1) as nat)
    }
}

/// Big-endian accumulation of `s` onto a starting value `init`.
pub open spec fn fold_be(init: int, s: Seq<u8>) -> int
    decreases s.len(),
{
    if s.len() == 0 {
        init
    } else {
        fold_be(init, s.drop_last()) * 256 + s.last()
    }
}

/// The unsigned big-endian value of `s`.
pub open spec fn be_uint(s: Seq<u8>) -> int {
    fold_be(0, s)
}

/// The two's-complement big-endian value of `s` (zero when empty).
pub open spec fn be_int(s: Seq<u8>) -> int {
    if s.len() > 0 && s[0] >= 128 {
        fold_be(-1, s)
    } else {
        fold_be(0, s)
    }
}

/// Result of decoding an INTEGER body.
pub open spec fn spec_decode_i64(s: Seq<u8>) -> SnmpResult<i64> {
    if s.len() > 8 {
        Err(SnmpError::AsnIntOverflow)
    } else {
        Ok(be_int(s) as i64)
    }
}

pub proof fn lemma_pow256_pos(n: nat)
    ensures
        pow256(n) >= 1,
    decreases n,
{
    if n > 0 {
        lemma_pow256_pos((n - 1) as nat);
    }
}

pub proof fn lemma_pow256_mono(a: nat, b: nat)
    requires
        a <= b,
    ensures
        pow256(a) <= pow256(b),
    decreases b,
{
    if a < b {
        lemma_pow256_mono(a, (b - 1) as nat);
        lemma_pow256_pos((b - 1) as nat);
    }
}

pub proof fn lemma_pow256_7()
    ensures
        pow256(7) == 0x100000000000000,
        pow256(8) == 0x10000000000000000,
{
    reveal_with_fuel(pow256, 9);
}

/// Bounds of a big-endian fold over a non-empty prefix.
proof fn lemma_fold_be_bounds(init: int, s: Seq<u8>)
    requires
        s.len() >= 1,
        init == 0 || init == -1,
        init == -1 <==> s[0] >= 128,
    ensures
        -128 * pow256((s.len() - 1) as nat) <= fold_be(init, s) < 128 * pow256(
            (s.len() - 1) as nat,
        ),
        init == 0 ==> fold_be(init, s) >= 0,
        init == -1 ==> fold_be(init, s) < 0,
    decreases s.len(),
{
    if s.len() == 1 {
        assert(s.drop_last().len() == 0);
        assert(fold_be(init, s.drop_last()) == init);
        assert(s.last() == s[0]);
        assert(fold_be(init, s) == init * 256 + s[0]);
        reveal_with_fuel(pow256, 1);
    } else {
        let p = s.drop_last();
        assert(p[0] == s[0]);
        lemma_fold_be_bounds(init, p);
        let k = (s.len() - 2) as nat;
        assert(pow256((s.len() - 1) as nat) == 256 * pow256(k));
        let f = fold_be(init, p);
        assert(-128 * pow256(k) <= f < 128 * pow256(k));
        assert(fold_be(init, s) == f * 256 + s.last());
        assert(-128 * (256 * pow256(k)) <= f * 256 + s.last() < 128 * (256 * pow256(k)))
            by (nonlinear_arith)
            requires
                -128 * pow256(k) <= f < 128 * pow256(k),
                0 <= s.last() < 256,
                init == 0 ==> f >= 0,
                init == -1 ==> f < 0,
        ;
        assert(init == -1 ==> f * 256 + s.last() < 0) by (nonlinear_arith)
            requires
                init == -1 ==> f < 0,
                0 <= s.last() < 256,
        ;
        assert(init == 0 ==> f * 256 + s.last() >= 0) by (nonlinear_arith)
            requires
                init == 0 ==> f >= 0,
                0 <= s.last() < 256,
        ;
    }
}

/// Decodes a two's-complement big-endian INTEGER body of at most eight bytes.
pub fn decode_i64(i: &[u8]) -> (r: SnmpResult<i64>)
    ensures
        r == spec_decode_i64(i@),
        r is Ok ==> r->Ok_0 as int == be_int(i@),
{
    if i.len() > 8 {
        return Err(SnmpError::AsnIntOverflow);
    }
    if i.len() == 0 {
        return Ok(0);
    }
    let neg = i[0] >= 128;
    let init: i64 = if neg { -1 } else { 0 };
    let mut acc: i64 = init;
    let mut k: usize = 0;
    while k < i.len()
        invariant
            i@.len() <= 8,
            i@.len() >= 1,
            k <= i@.len(),
            init == 0 || init == -1,
            init == -1 <==> i@[0] >= 128,
            acc as int == fold_be(init as int, i@.take(k as int)),
        decreases i@.len() - k,
    {
        let b = i[k];
        proof {
            assert(i@.take(k as int + 1).drop_last() == i@.take(k as int));
            if k > 0 {
                assert(i@.take(k as int)[0] == i@[0]);
                lemma_fold_be_bounds(init as int, i@.take(k as int));
                lemma_pow256_mono((k - 1) as nat, 6);
                lemma_pow256_7();
                reveal_with_fuel(pow256, 8);
                assert(-0x8000000000000000 <= acc * 256 + b < 0x8000000000000000) by (nonlinear_arith)
                    requires
                        -128 * pow256((k - 1) as nat) <= acc < 128 * pow256((k - 1) as nat),
                        pow256((k - 1) as nat) <= pow256(6),
                        pow256(6) == 0x1000000000000,
                        0 <= b < 256,
                ;
            }
        }
        acc = acc * 256 + b as i64;
        k = k + 1;
    }
    assert(i@.take(i@.len() as int) == i@);
    proof {
        lemma_fold_be_bounds(init as int, i@);
    }
    Ok(acc)
}

} // verus!
