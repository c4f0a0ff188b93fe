//! Self-extending back-reference copies shared by the block decompressors.
//!
//! A match instruction appends bytes taken from earlier in the output buffer;
//! the source window may overlap the bytes being appended, which repeats the
//! tail of the buffer.

use vstd::prelude::*;

verus! {

/// The buffer after appending `n` bytes copied one at a time from position
/// `pos` onward; the source may run into the freshly appended bytes.
pub open spec fn backref_copy(out: Seq<u8>, pos: int, n: int) -> Seq<u8>
    decreases n,
{
    if n <= 0 {
        out
    } else {
        backref_copy(out.push(out[pos]), pos + 1, n - 1)
    }
}

pub proof fn lemma_backref_copy_len(out: Seq<u8>, pos: int, n: int)
    requires
        0 <= pos < out.len(),
        0 <= n,
    ensures
        backref_copy(out, pos, n).len() == out.len() + n,
    decreases n,
{
    if n > 0 {
        lemma_backref_copy_len(out.push(out[pos]), pos + 1, n - 1);
    }
}

/// Append `n` bytes starting `lookback` bytes before the end of `out`.
pub fn push_backref(out: &mut Vec<u8>, lookback: usize, n: u64)
    requires
        0 < lookback <= old(out)@.len(),
    ensures
        final(out)@ == backref_copy(old(out)@, old(out)@.len() - lookback, n as int),
{
    let ghost orig = out@;
    let ghost pos0 = out@.len() - lookback;
    let mut pos: usize = out.len() - lookback;
    let mut k: u64 = 0;
    while k < n
        invariant
            k <= n,
            pos == pos0 + k,
            0 <= pos0 < orig.len(),
            out@.len() == orig.len() + k,
            pos < out@.len(),
            backref_copy(out@, pos as int, (n - k) as int) == backref_copy(
                orig,
                pos0,
                n as int,
            ),
        decreases n - k,
    {
        let _l: usize = out.len();
        let b = out[pos];
        out.push(b);
        pos = pos + 1;
        k = k + 1;
    }
}

} // verus!
