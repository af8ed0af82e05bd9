//! Little-endian field codecs shared by the on-disk formats.
//!
//! Every structure that persists itself does so through explicit byte-level
//! encode and decode routines built from these helpers, independent of any
//! in-memory layout.

use vstd::prelude::*;

verus! {

/// The low byte of a 16-bit value.
pub open spec fn spec_lo16(x: u16) -> u8 {
    (x % 256) as u8
}

/// The high byte of a 16-bit value.
pub open spec fn spec_hi16(x: u16) -> u8 {
    (x / 256) as u8
}

/// The 16-bit value with low byte `l` and high byte `h`.
pub open spec fn spec_le16(l: u8, h: u8) -> u16 {
    (l + 256 * h) as u16
}

/// Byte `k` (little-endian, `k < 4`) of a 32-bit value.
pub open spec fn spec_byte32(x: u32, k: int) -> u8 {
    if k == 0 {
        (x % 256) as u8
    } else if k == 1 {
        ((x / 256) % 256) as u8
    } else if k == 2 {
        ((x / 65536) % 256) as u8
    } else {
        ((x / 16777216) % 256) as u8
    }
}

/// The 32-bit value assembled from four little-endian bytes.
pub open spec fn spec_le32(b0: u8, b1: u8, b2: u8, b3: u8) -> u32 {
    (b0 + 256 * b1 + 65536 * b2 + 16777216 * b3) as u32
}

/// Splitting a 16-bit value into bytes and reassembling them is the identity.
pub proof fn lemma_le16_roundtrip(x: u16)
    ensures
        spec_le16(spec_lo16(x), spec_hi16(x)) == x,
{
    assert(x % 256 + 256 * (x / 256) == x) by (nonlinear_arith);
}

/// Splitting a 32-bit value into bytes and reassembling them is the identity.
pub proof fn lemma_le32_roundtrip(x: u32)
    ensures
        spec_le32(spec_byte32(x, 0), spec_byte32(x, 1), spec_byte32(x, 2), spec_byte32(x, 3)) == x,
{
    let i = x as int;
    assert(i % 256 + 256 * ((i / 256) % 256) + 65536 * ((i / 65536) % 256) + 16777216 * ((i
        / 16777216) % 256) == i) by (nonlinear_arith)
        requires
            0 <= i < 0x1_0000_0000,
    ;
}

/// Reads the 16-bit little-endian value at `off` in `b`.
pub fn read_le16(b: &[u8], off: usize) -> (r: u16)
    requires
        off + 2 <= b@.len(),
    ensures
        r == spec_le16(b@[off as int], b@[off as int + 1]),
{
    b[off] as u16 + 256 * b[off + 1] as u16
}

/// The two little-endian bytes of a 16-bit value.
pub fn split_le16(x: u16) -> (r: (u8, u8))
    ensures
        r.0 == spec_lo16(x),
        r.1 == spec_hi16(x),
        spec_le16(r.0, r.1) == x,
{
    proof {
        lemma_le16_roundtrip(x);
    }
    ((x % 256) as u8, (x / 256) as u8)
}

/// Reads the 32-bit little-endian value at `off` in `b`.
pub fn read_le32(b: &[u8], off: usize) -> (r: u32)
    requires
        off + 4 <= b@.len(),
    ensures
        r == spec_le32(b@[off as int], b@[off as int + 1], b@[off as int + 2], b@[off as int + 3]),
{
    b[off] as u32 + 256 * b[off + 1] as u32 + 65536 * b[off + 2] as u32 + 16777216 * b[off
        + 3] as u32
}

/// The four little-endian bytes of a 32-bit value.
pub fn split_le32(x: u32) -> (r: (u8, u8, u8, u8))
    ensures
        r.0 == spec_byte32(x, 0),
        r.1 == spec_byte32(x, 1),
        r.2 == spec_byte32(x, 2),
        r.3 == spec_byte32(x, 3),
        spec_le32(r.0, r.1, r.2, r.3) == x,
{
    proof {
        lemma_le32_roundtrip(x);
    }
    (
        (x % 256) as u8,
        ((x / 256) % 256) as u8,
        ((x / 65536) % 256) as u8,
        ((x / 16777216) % 256) as u8,
    )
}

} // verus!
