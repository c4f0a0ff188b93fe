//! Little-endian and big-endian integer readers over raw byte slices.
//!
//! Every on-disk structure of the pool format is decoded through these
//! functions, so each one carries an exact specification of the value it
//! extracts from the byte sequence.

use vstd::prelude::*;

verus! {

broadcast use vstd::slice::axiom_spec_len;

/// The little-endian u16 stored at offset `off` of `s`.
pub open spec fn le16(s: Seq<u8>, off: int) -> u16 {
    (s[off] as u16) | ((s[off + 1] as u16) << 8)
}

/// The little-endian u32 stored at offset `off` of `s`.
pub open spec fn le32(s: Seq<u8>, off: int) -> u32 {
    (s[off] as u32) | ((s[off + 1] as u32) << 8) | ((s[off + 2] as u32) << 16) | ((s[off + 3]
        as u32) << 24)
}

/// The little-endian u64 stored at offset `off` of `s`.
pub open spec fn le64(s: Seq<u8>, off: int) -> u64 {
    (s[off] as u64) | ((s[off + 1] as u64) << 8) | ((s[off + 2] as u64) << 16) | ((s[off + 3]
        as u64) << 24) | ((s[off + 4] as u64) << 32) | ((s[off + 5] as u64) << 40) | ((s[off + 6]
        as u64) << 48) | ((s[off + 7] as u64) << 56)
}

/// The big-endian u16 stored at offset `off` of `s`.
pub open spec fn be16(s: Seq<u8>, off: int) -> u16 {
    (s[off + 1] as u16) | ((s[off] as u16) << 8)
}

/// The big-endian u32 stored at offset `off` of `s`.
pub open spec fn be32(s: Seq<u8>, off: int) -> u32 {
    (s[off + 3] as u32) | ((s[off + 2] as u32) << 8) | ((s[off + 1] as u32) << 16) | ((s[off]
        as u32) << 24)
}

/// The big-endian u64 stored at offset `off` of `s`.
pub open spec fn be64(s: Seq<u8>, off: int) -> u64 {
    (s[off + 7] as u64) | ((s[off + 6] as u64) << 8) | ((s[off + 5] as u64) << 16) | ((s[off + 4]
        as u64) << 24) | ((s[off + 3] as u64) << 32) | ((s[off + 2] as u64) << 40) | ((s[off + 1]
        as u64) << 48) | ((s[off] as u64) << 56)
}

pub fn read_u8(data: &[u8], off: usize) -> (r: u8)
    requires
        off < data@.len(),
    ensures
        r == data@[off as int],
{
    data[off]
}

pub fn read_u16_le(data: &[u8], off: usize) -> (r: u16)
    requires
        off + 2 <= data@.len(),
    ensures
        r == le16(data@, off as int),
{
    (data[off] as u16) | ((data[off + 1] as u16) << 8)
}

pub fn read_u32_le(data: &[u8], off: usize) -> (r: u32)
    requires
        off + 4 <= data@.len(),
    ensures
        r == le32(data@, off as int),
{
    (data[off] as u32) | ((data[off + 1] as u32) << 8) | ((data[off + 2] as u32) << 16) | ((data[off
        + 3] as u32) << 24)
}

pub fn read_u64_le(data: &[u8], off: usize) -> (r: u64)
    requires
        off + 8 <= data@.len(),
    ensures
        r == le64(data@, off as int),
{
    (data[off] as u64) | ((data[off + 1] as u64) << 8) | ((data[off + 2] as u64) << 16) | ((data[off
        + 3] as u64) << 24) | ((data[off + 4] as u64) << 32) | ((data[off + 5] as u64) << 40) | ((
    data[off + 6] as u64) << 48) | ((data[off + 7] as u64) << 56)
}

pub fn read_u16_be(data: &[u8], off: usize) -> (r: u16)
    requires
        off + 2 <= data@.len(),
    ensures
        r == be16(data@, off as int),
{
    let _n: usize = data.len();
    (data[off + 1] as u16) | ((data[off] as u16) << 8)
}

pub fn read_u32_be(data: &[u8], off: usize) -> (r: u32)
    requires
        off + 4 <= data@.len(),
    ensures
        r == be32(data@, off as int),
{
    let _n: usize = data.len();
    (data[off + 3] as u32) | ((data[off + 2] as u32) << 8) | ((data[off + 1] as u32) << 16) | ((
    data[off] as u32) << 24)
}

pub fn read_u64_be(data: &[u8], off: usize) -> (r: u64)
    requires
        off + 8 <= data@.len(),
    ensures
        r == be64(data@, off as int),
{
    let _n: usize = data.len();
    (data[off + 7] as u64) | ((data[off + 6] as u64) << 8) | ((data[off + 5] as u64) << 16) | ((
    data[off + 4] as u64) << 24) | ((data[off + 3] as u64) << 32) | ((data[off + 2] as u64) << 40)
        | ((data[off + 1] as u64) << 48) | ((data[off] as u64) << 56)
}

/// Copy `len` bytes starting at `off` into a fresh vector.
pub fn read_bytes(data: &[u8], off: usize, len: usize) -> (r: Vec<u8>)
    requires
        off + len <= data@.len(),
    ensures
        r@ == data@.subrange(off as int, off + len),
{
    let _n: usize = data.len();
    let mut r: Vec<u8> = Vec::new();
    let mut i: usize = 0;
    while i < len
        invariant
            off + len <= data@.len(),
            off + len <= usize::MAX,
            i <= len,
            r@ == data@.subrange(off as int, off + i),
        decreases len - i,
    {
        r.push(data[off + i]);
        proof {
            assert(r@ =~= data@.subrange(off as int, off + i + 1));
        }
        i = i + 1;
    }
    r
}

} // verus!
