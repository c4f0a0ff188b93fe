//! The fletcher2 and fletcher4 checksums used to verify pool blocks.
//!
//! Both are running sums over little-endian lanes with wrapping 64-bit
//! arithmetic; trailing bytes that do not fill a full lane are ignored.

use vstd::prelude::*;
use crate::byte_reader::{le32, le64, read_u32_le, read_u64_le};
use vstd::wrapping::u64_specs;

verus! {

broadcast use vstd::slice::axiom_spec_len;

/// State of the fletcher4 accumulators after the first `n` 4-byte words of `s`.
pub open spec fn fletcher4_state(s: Seq<u8>, n: int) -> (u64, u64, u64, u64)
    decreases n,
{
    if n <= 0 {
        (0u64, 0u64, 0u64, 0u64)
    } else {
        let prev = fletcher4_state(s, n - 1);
        let w = le32(s, 4 * (n - 1)) as u64;
        let s1 = u64_specs::wrapping_add(prev.0, w);
        let s2 = u64_specs::wrapping_add(prev.1, s1);
        let s3 = u64_specs::wrapping_add(prev.2, s2);
        let s4 = u64_specs::wrapping_add(prev.3, s3);
        (s1, s2, s3, s4)
    }
}

/// The fletcher4 checksum of a byte sequence, as the four accumulators.
pub open spec fn fletcher4(s: Seq<u8>) -> Seq<u64> {
    let st = fletcher4_state(s, s.len() as int / 4);
    seq![st.0, st.1, st.2, st.3]
}

/// State of the fletcher2 accumulators after the first `n` 16-byte lane pairs of `s`.
pub open spec fn fletcher2_state(s: Seq<u8>, n: int) -> (u64, u64, u64, u64)
    decreases n,
{
    if n <= 0 {
        (0u64, 0u64, 0u64, 0u64)
    } else {
        let prev = fletcher2_state(s, n - 1);
        let w0 = le64(s, 16 * (n - 1));
        let w1 = le64(s, 16 * (n - 1) + 8);
        let s1 = u64_specs::wrapping_add(prev.0, w0);
        let s2 = u64_specs::wrapping_add(prev.1, w1);
        let s3 = u64_specs::wrapping_add(prev.2, s1);
        let s4 = u64_specs::wrapping_add(prev.3, s2);
        (s1, s2, s3, s4)
    }
}

/// The fletcher2 checksum of a byte sequence, as the four accumulators.
pub open spec fn fletcher2(s: Seq<u8>) -> Seq<u64> {
    let st = fletcher2_state(s, s.len() as int / 16);
    seq![st.0, st.1, st.2, st.3]
}

pub fn do_fletcher4(data: &[u8]) -> (r: [u64; 4])
    ensures
        r@ == fletcher4(data@),
{
    let mut s1: u64 = 0;
    let mut s2: u64 = 0;
    let mut s3: u64 = 0;
    let mut s4: u64 = 0;
    let n: usize = data.len();
    let nwords: usize = n / 4;
    let mut i: usize = 0;
    while i < nwords
        invariant
            n == data@.len(),
            nwords == data@.len() / 4,
            i <= nwords,
            (s1, s2, s3, s4) == fletcher4_state(data@, i as int),
        decreases nwords - i,
    {
        let w = read_u32_le(data, 4 * i);
        s1 = s1.wrapping_add(w as u64);
        s2 = s2.wrapping_add(s1);
        s3 = s3.wrapping_add(s2);
        s4 = s4.wrapping_add(s3);
        i = i + 1;
    }
    [s1, s2, s3, s4]
}

pub fn do_fletcher2(data: &[u8]) -> (r: [u64; 4])
    ensures
        r@ == fletcher2(data@),
{
    let mut s1: u64 = 0;
    let mut s2: u64 = 0;
    let mut s3: u64 = 0;
    let mut s4: u64 = 0;
    let n: usize = data.len();
    let npairs: usize = n / 16;
    let mut i: usize = 0;
    while i < npairs
        invariant
            n == data@.len(),
            npairs == data@.len() / 16,
            i <= npairs,
            (s1, s2, s3, s4) == fletcher2_state(data@, i as int),
        decreases npairs - i,
    {
        let w0 = read_u64_le(data, 16 * i);
        let w1 = read_u64_le(data, 16 * i + 8);
        s1 = s1.wrapping_add(w0);
        s2 = s2.wrapping_add(w1);
        s3 = s3.wrapping_add(s1);
        s4 = s4.wrapping_add(s2);
        i = i + 1;
    }
    [s1, s2, s3, s4]
}

/// Compare two checksums for equality.
pub fn checksum_eq(a: &[u64; 4], b: &[u64; 4]) -> (r: bool)
    ensures
        r == (a@ =~= b@),
{
    a[0] == b[0] && a[1] == b[1] && a[2] == b[2] && a[3] == b[3]
}

} // verus!
