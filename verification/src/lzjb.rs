//! The LZJB coder: a copy-map driven byte coder with 6-bit match lengths
//! and 10-bit offsets.  Decoding runs until the requested output length has
//! been produced.

use vstd::prelude::*;
use crate::backref::{backref_copy, lemma_backref_copy_len, push_backref};

verus! {

broadcast use vstd::slice::axiom_spec_len;

pub const MATCH_BITS: usize = 6;

pub const MATCH_MIN: usize = 3;

pub const OFFSET_MASK: usize = 0x3FF;

/// One decoding pass: `copymap` holds the current control byte and
/// `copymask` the bit (1 to 128) that the previous step consumed; a fresh
/// control byte is read when the mask wraps.  `None` is a truncated or
/// invalid stream.
pub open spec fn lzjb_decode_from(
    s: Seq<u8>,
    ip0: int,
    out: Seq<u8>,
    copymap0: u8,
    copymask0: u16,
    target: int,
) -> Option<Seq<u8>>
    decreases target - out.len()
        via lzjb_decode_from_dec
{
    if target <= out.len() {
        Some(out)
    } else if 2 * (copymask0 as int) == 256 && !(0 <= ip0 < s.len()) {
        None
    } else {
        let wraps = 2 * (copymask0 as int) == 256;
        let copymask: u16 = if wraps {
            1
        } else {
            (2 * copymask0) as u16
        };
        let copymap: u8 = if wraps {
            s[ip0]
        } else {
            copymap0
        };
        let ip = if wraps {
            ip0 + 1
        } else {
            ip0
        };
        if copymap & (copymask as u8) != 0 {
            if ip + 2 > s.len() {
                None
            } else {
                let byte0 = s[ip];
                let byte1 = s[ip + 1];
                let lookback_size = (byte0 >> 2) as int + 3;
                let lookback = ((((byte0 as u16) << 8) | (byte1 as u16)) & 0x3FF) as int;
                if lookback > out.len() || lookback == 0 {
                    None
                } else {
                    let ncopy = if lookback_size <= target - out.len() {
                        lookback_size
                    } else {
                        target - out.len()
                    };
                    lzjb_decode_from(
                        s,
                        ip + 2,
                        backref_copy(out, out.len() - lookback, ncopy),
                        copymap,
                        copymask,
                        target,
                    )
                }
            }
        } else {
            if !(0 <= ip < s.len()) {
                None
            } else {
                lzjb_decode_from(s, ip + 1, out.push(s[ip]), copymap, copymask, target)
            }
        }
    }
}

#[via_fn]
proof fn lzjb_decode_from_dec(
    s: Seq<u8>,
    ip0: int,
    out: Seq<u8>,
    copymap0: u8,
    copymask0: u16,
    target: int,
) {
    if target > out.len() {
        let wraps = 2 * (copymask0 as int) == 256;
        if wraps && !(0 <= ip0 < s.len()) {
        } else {
            let ip = if wraps {
                ip0 + 1
            } else {
                ip0
            };
            if ip + 2 <= s.len() {
                let byte0 = s[ip];
                let byte1 = s[ip + 1];
                let lookback_size = (byte0 >> 2) as int + 3;
                let lookback = ((((byte0 as u16) << 8) | (byte1 as u16)) & 0x3FF) as int;
                if 0 < lookback <= out.len() {
                    let ncopy = if lookback_size <= target - out.len() {
                        lookback_size
                    } else {
                        target - out.len()
                    };
                    lemma_backref_copy_len(out, out.len() - lookback, ncopy);
                }
            }
        }
    }
}

/// Decoding a stream from its start.
pub open spec fn lzjb_decode(s: Seq<u8>, target: int) -> Option<Seq<u8>> {
    lzjb_decode_from(s, 0, Seq::empty(), 0, 128, target)
}

/// Decode an LZJB stream until `output_length` bytes have been produced.
pub fn lzjb_decompress(data: &[u8], output_length: usize) -> (r: Result<Vec<u8>, ()>)
    ensures
        match r {
            Ok(v) => lzjb_decode(data@, output_length as int) == Some(v@) && v@.len()
                == output_length,
            Err(_) => lzjb_decode(data@, output_length as int) is None,
        },
{
    let n: usize = data.len();
    let mut out: Vec<u8> = Vec::new();
    let mut copymap: u8 = 0;
    let mut copymask: u16 = 128;
    let mut ip: usize = 0;
    while out.len() < output_length
        invariant
            n == data@.len(),
            ip <= n,
            copymask == 1 || copymask == 2 || copymask == 4 || copymask == 8 || copymask == 16
                || copymask == 32 || copymask == 64 || copymask == 128,
            out@.len() <= output_length,
            lzjb_decode_from(data@, ip as int, out@, copymap, copymask, output_length as int)
                == lzjb_decode(data@, output_length as int),
        decreases output_length - out@.len(),
    {
        copymask = copymask * 2;
        if copymask == 256 {
            copymask = 1;
            if ip >= n {
                return Err(());
            }
            copymap = data[ip];
            ip = ip + 1;
        }

        if copymap & (copymask as u8) != 0 {
            if ip >= n || ip + 1 >= n {
                return Err(());
            }
            let byte0 = data[ip];
            let byte1 = data[ip + 1];
            ip = ip + 2;
            let lookback_size: usize = (byte0 >> 2) as usize + 3;
            let lookback: usize = ((((byte0 as u16) << 8) | (byte1 as u16)) & 0x3FF) as usize;
            if lookback > out.len() || lookback == 0 {
                return Err(());
            }
            let remaining: usize = output_length - out.len();
            let ncopy: usize = if lookback_size <= remaining {
                lookback_size
            } else {
                remaining
            };
            proof {
                lemma_backref_copy_len(out@, out@.len() - lookback as int, ncopy as int);
            }
            push_backref(&mut out, lookback, ncopy as u64);
        } else {
            if ip >= n {
                return Err(());
            }
            out.push(data[ip]);
            ip = ip + 1;
        }
    }
    Ok(out)
}

/// The position in a literal-only stream where output byte `m` is read:
/// each group of eight payload bytes is led by one zero control byte.
pub open spec fn lzjb_lit_ip(m: int) -> int {
    if m % 8 == 0 {
        9 * (m / 8)
    } else {
        9 * (m / 8) + 1 + m % 8
    }
}

/// The copy mask in force before output byte `m` of a literal-only stream.
pub open spec fn lzjb_lit_mask(m: int) -> u16 {
    if m % 8 == 0 {
        128
    } else if m % 8 == 1 {
        1
    } else if m % 8 == 2 {
        2
    } else if m % 8 == 3 {
        4
    } else if m % 8 == 4 {
        8
    } else if m % 8 == 5 {
        16
    } else if m % 8 == 6 {
        32
    } else {
        64
    }
}

/// The length of the literal-only stream for a payload of `len` bytes.
pub open spec fn lzjb_lit_len(len: int) -> int {
    len + (len + 7) / 8
}

/// The literal-only encoding of `x`: a zero control byte before every group
/// of eight payload bytes.
pub open spec fn lzjb_literal_stream(x: Seq<u8>) -> Seq<u8> {
    Seq::new(
        lzjb_lit_len(x.len() as int) as nat,
        |p: int|
            if p % 9 == 0 {
                0u8
            } else {
                x[8 * (p / 9) + p % 9 - 1]
            },
    )
}

/// Encode `data` with a zero copy map: every byte is a literal.
pub fn lzjb_compress(data: &[u8]) -> (r: Vec<u8>)
    ensures
        r@ == lzjb_literal_stream(data@),
        forall|t: int|
            0 <= t <= data@.len() ==> lzjb_decode(r@, t) == Some(data@.take(t)),
{
    let n: usize = data.len();
    let mut out: Vec<u8> = Vec::new();
    let mut i: usize = 0;
    while i < n
        invariant
            n == data@.len(),
            i <= n,
            i % 8 == 0 || i == n,
            out@ =~= lzjb_literal_stream(data@).take(lzjb_lit_ip(i as int)),
            out@.len() == lzjb_lit_ip(i as int),
        decreases n - i,
    {
        out.push(0u8);
        proof {
            assert(out@ =~= lzjb_literal_stream(data@).take(lzjb_lit_ip(i as int) + 1));
        }
        let mut j: usize = 0;
        while j < 8 && i + j < n
            invariant
                n == data@.len(),
                i % 8 == 0,
                i < n,
                j <= 8,
                i + j <= n,
                out@.len() == lzjb_lit_ip(i as int) + 1 + j,
                out@ =~= lzjb_literal_stream(data@).take(lzjb_lit_ip(i as int) + 1 + j),
            decreases 8 - j,
        {
            out.push(data[i + j]);
            proof {
                assert(out@ =~= lzjb_literal_stream(data@).take(
                    lzjb_lit_ip(i as int) + 1 + j + 1,
                ));
            }
            j = j + 1;
        }
        i = i + j;
        proof {
            assert(i as int % 8 == 0 || i == n);
            assert(out@.len() == if i as int % 8 == 0 {
                lzjb_lit_ip(i as int)
            } else {
                lzjb_lit_len(data@.len() as int)
            });
            assert(out@ =~= lzjb_literal_stream(data@).take(lzjb_lit_ip(i as int)));
        }
    }
    proof {
        assert(out@ =~= lzjb_literal_stream(data@));
        assert forall|t: int| 0 <= t <= data@.len() implies lzjb_decode(
            lzjb_literal_stream(data@),
            t,
        ) == Some(data@.take(t)) by {
            lemma_lzjb_literal_stream_decodes(data@, t, 0);
            assert(data@.take(0) =~= Seq::<u8>::empty());
        }
    }
    out
}

/// From the state reached after producing `m` bytes, decoding a
/// literal-only stream yields the first `target` payload bytes.
proof fn lemma_lzjb_literal_stream_decodes(x: Seq<u8>, target: int, m: int)
    requires
        0 <= m <= target <= x.len(),
    ensures
        lzjb_decode_from(
            lzjb_literal_stream(x),
            lzjb_lit_ip(m),
            x.take(m),
            0,
            lzjb_lit_mask(m),
            target,
        ) == Some(x.take(target)),
    decreases target - m,
{
    let s = lzjb_literal_stream(x);
    if m == target {
        assert(x.take(m).len() == m);
    } else {
        let j = m % 8;
        let g = m / 8;
        let mask0 = lzjb_lit_mask(m);
        assert(x.take(m).len() == m);
        assert(forall|c: u8| 0u8 & c == 0) by (bit_vector);
        if j == 0 {
            // A control byte is consumed first; it is zero, so the next
            // payload byte is a literal.
            assert(0 <= 9 * g < s.len());
            assert(s[9 * g] == 0u8);
            assert(s[9 * g + 1] == x[8 * g]);
            assert(x.take(m).push(x[m]) =~= x.take(m + 1));
            lemma_lzjb_literal_stream_decodes(x, target, m + 1);
        } else {
            assert(2 * (mask0 as int) != 256);
            let ip = lzjb_lit_ip(m);
            assert(ip == 9 * g + 1 + j);
            assert(0 <= ip < s.len());
            assert(ip % 9 == 1 + j && ip / 9 == g);
            assert(s[ip] == x[8 * g + j]);
            assert(x.take(m).push(x[m]) =~= x.take(m + 1));
            lemma_lzjb_literal_stream_decodes(x, target, m + 1);
        }
    }
}

/// Decoding inverts encoding: the literal-only stream for `x`, decoded to
/// any prefix length, returns exactly that prefix of `x`.
pub proof fn lemma_lzjb_round_trip(x: Seq<u8>, target: int)
    requires
        0 <= target <= x.len(),
    ensures
        lzjb_decode(lzjb_literal_stream(x), target) == Some(x.take(target)),
{
    lemma_lzjb_literal_stream_decodes(x, target, 0);
    assert(x.take(0) =~= Seq::<u8>::empty());
}

} // verus!
