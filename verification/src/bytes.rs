//! Big-endian 16- and 32-bit fields, as they appear on the wire.

use vstd::prelude::*;

verus! {

/// The 16-bit value held by two bytes, high byte first.
pub open spec fn be16(hi: u8, lo: u8) -> int {
    hi as int * 256 + lo as int
}

/// The 16-bit field starting at position `i` of `buf`.
pub open spec fn be16_at(buf: Seq<u8>, i: int) -> int
    recommends
        0 <= i,
        i + 2 <= buf.len(),
{
    be16(buf[i], buf[i + 1])
}

/// The 32-bit field starting at position `i` of `buf`.
pub open spec fn be32_at(buf: Seq<u8>, i: int) -> int
    recommends
        0 <= i,
        i + 4 <= buf.len(),
{
    buf[i] as int * 0x1000000 + buf[i + 1] as int * 0x10000 + buf[i + 2] as int * 256 + buf[i
        + 3] as int
}

/// The two bytes of a 16-bit value, high byte first.
pub open spec fn be16_bytes(x: u16) -> Seq<u8> {
    seq![(x / 256) as u8, (x % 256) as u8]
}

/// Splitting a 16-bit value into two bytes and reading them back yields the
/// value again.
pub proof fn lemma_be16_bytes_roundtrip(x: u16)
    ensures
        be16(be16_bytes(x)[0], be16_bytes(x)[1]) == x,
{
    assert(x / 256 * 256 + x % 256 == x) by (nonlinear_arith);
}

/// Appends the two big-endian bytes of `x` to `out`.
pub fn push_be16(out: &mut Vec<u8>, x: u16)
    ensures
        final(out)@ == old(out)@ + be16_bytes(x),
{
    out.push((x / 256) as u8);
    out.push((x % 256) as u8);
    proof {
        assert(out@ =~= old(out)@ + be16_bytes(x));
    }
}

/// Reads the 16-bit field starting at position `i` of `buf`.
pub fn read_be16(buf: &Vec<u8>, i: usize) -> (r: u16)
    requires
        i + 2 <= buf@.len(),
    ensures
        r == be16_at(buf@, i as int),
{
    let _n = buf.len();
    let hi = buf[i];
    let lo = buf[i + 1];
    hi as u16 * 256 + lo as u16
}

/// Reads the 32-bit field starting at position `i` of `buf`.
pub fn read_be32(buf: &Vec<u8>, i: usize) -> (r: u32)
    requires
        i + 4 <= buf@.len(),
    ensures
        r == be32_at(buf@, i as int),
{
    let _n = buf.len();
    let b0 = buf[i];
    let b1 = buf[i + 1];
    let b2 = buf[i + 2];
    let b3 = buf[i + 3];
    b0 as u32 * 0x1000000 + b1 as u32 * 0x10000 + b2 as u32 * 256 + b3 as u32
}

} // verus!
