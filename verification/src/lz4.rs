//! The LZ4 block coder used for compressed pool blocks.
//!
//! A stream is a sequence of tokens: each token carries a literal-length
//! nibble and a match-length nibble, both extended by 0xFF continuation
//! bytes, followed by the literal bytes, a two-byte little-endian match
//! offset, and the match extension bytes.  A stream that ends right after
//! the literals of a token whose match nibble is zero is complete.

use vstd::prelude::*;
use crate::backref::{backref_copy, lemma_backref_copy_len, push_backref};
use crate::byte_reader::{le16, read_u16_le};

verus! {

broadcast use vstd::slice::axiom_spec_len;

/// Sum of a run of length-extension bytes starting at `ip`: bytes are added
/// until one below 0xFF is included.  Returns the sum and the position after
/// the run, or `None` when the input ends inside the run.
pub open spec fn lz4_ext_sum(s: Seq<u8>, ip: int) -> Option<(int, int)>
    decreases s.len() - ip,
{
    if ip < 0 || ip >= s.len() {
        None
    } else if s[ip] == 0xFF {
        match lz4_ext_sum(s, ip + 1) {
            None => None,
            Some((sum, nip)) => Some((sum + 255, nip)),
        }
    } else {
        Some((s[ip] as int, ip + 1))
    }
}

pub proof fn lemma_lz4_ext_sum_bounds(s: Seq<u8>, ip: int)
    ensures
        lz4_ext_sum(s, ip) is Some ==> {
            let (sum, nip) = lz4_ext_sum(s, ip)->Some_0;
            &&& ip < nip <= s.len()
            &&& 0 <= sum
        },
    decreases s.len() - ip,
{
    if 0 <= ip < s.len() && s[ip] == 0xFF {
        lemma_lz4_ext_sum_bounds(s, ip + 1);
    }
}

/// Adds an already-consumed partial sum onto the rest of an extension run.
pub open spec fn lz4_ext_shift(acc: int, rest: Option<(int, int)>) -> Option<(int, int)> {
    match rest {
        None => None,
        Some((sum, nip)) => Some((acc + sum, nip)),
    }
}

/// The literal length of the token at `ip` and the position of the first
/// literal byte.
pub open spec fn lz4_lit_ext(s: Seq<u8>, ip: int) -> Option<(int, int)> {
    let lit_nib = (s[ip] & 0xF0) >> 4;
    if lit_nib == 0xF {
        lz4_ext_shift(0xF, lz4_ext_sum(s, ip + 1))
    } else {
        Some((lit_nib as int, ip + 1))
    }
}

/// The raw match length (before the implicit +4) for a token whose match
/// nibble is `look_nib`, with the match offset sitting at `ip3`.
pub open spec fn lz4_look_ext(s: Seq<u8>, ip3: int, look_nib: u8) -> Option<(int, int)> {
    if look_nib == 0xF {
        lz4_ext_shift(0xF, lz4_ext_sum(s, ip3 + 2))
    } else {
        Some((look_nib as int, ip3 + 2))
    }
}

/// One decoding pass over the stream `s` from position `ip` with the output
/// built so far.  `Ok` is a completed stream; `Err` carries the partial
/// output produced before the stream turned out to be truncated or invalid.
pub open spec fn lz4_decode_from(s: Seq<u8>, ip: int, out: Seq<u8>) -> Result<Seq<u8>, Seq<u8>>
    decreases s.len() - ip
        via lz4_decode_from_dec
{
    if ip < 0 || ip >= s.len() {
        Err(out)
    } else {
        let look_nib = s[ip] & 0x0F;
        match lz4_lit_ext(s, ip) {
            None => Err(out),
            Some((lit_size, ip2)) => {
                if ip2 + lit_size > s.len() {
                    Err(out + s.subrange(ip2, s.len() as int))
                } else {
                    let out2 = out + s.subrange(ip2, ip2 + lit_size);
                    let ip3 = ip2 + lit_size;
                    if ip3 + 2 > s.len() {
                        if look_nib == 0 {
                            Ok(out2)
                        } else {
                            Err(out2)
                        }
                    } else {
                        let lookback = le16(s, ip3) as int;
                        if lookback > out2.len() || lookback == 0 {
                            Err(out2)
                        } else {
                            match lz4_look_ext(s, ip3, look_nib) {
                                None => Err(out2),
                                Some((look_size0, ip4)) => lz4_decode_from(
                                    s,
                                    ip4,
                                    backref_copy(out2, out2.len() - lookback, look_size0 + 4),
                                ),
                            }
                        }
                    }
                }
            },
        }
    }
}

#[via_fn]
proof fn lz4_decode_from_dec(s: Seq<u8>, ip: int, out: Seq<u8>) {
    if 0 <= ip < s.len() {
        lemma_lz4_ext_sum_bounds(s, ip + 1);
        match lz4_lit_ext(s, ip) {
            None => {},
            Some((lit_size, ip2)) => {
                lemma_lz4_ext_sum_bounds(s, ip2 + lit_size + 2);
            },
        }
    }
}

/// The decoding of a whole stream.
pub open spec fn lz4_decode(s: Seq<u8>) -> Result<Seq<u8>, Seq<u8>> {
    lz4_decode_from(s, 0, Seq::empty())
}

/// Decode a raw LZ4 block stream.  `hint_output_size` only pre-sizes the
/// output buffer; it never changes the result.
pub fn lz4_decompress_blocks(data: &[u8], hint_output_size: Option<usize>) -> (r: Result<
    Vec<u8>,
    Vec<u8>,
>)
    requires
        data@.len() <= 0x1000_0000,
    ensures
        match r {
            Ok(v) => lz4_decode(data@) == Ok::<Seq<u8>, Seq<u8>>(v@),
            Err(v) => lz4_decode(data@) == Err::<Seq<u8>, Seq<u8>>(v@),
        },
{
    let mut out: Vec<u8> = match hint_output_size {
        Some(hint) => Vec::with_capacity(hint),
        None => Vec::new(),
    };
    let n: usize = data.len();
    let mut ip: usize = 0;
    loop
        invariant
            n == data@.len(),
            n <= 0x1000_0000,
            ip <= n,
            lz4_decode_from(data@, ip as int, out@) == lz4_decode(data@),
        decreases n - ip,
    {
        if ip >= n {
            return Err(out);
        }
        let ghost ip_tok = ip as int;
        let ghost out_tok = out@;
        let token = data[ip];
        ip = ip + 1;
        let lit_nib = (token & 0xF0) >> 4;
        let look_nib = token & 0x0F;

        let mut lit_size: u64 = lit_nib as u64;
        if lit_nib == 0xF {
            loop
                invariant_except_break
                    lz4_ext_shift(lit_size as int, lz4_ext_sum(data@, ip as int))
                        == lz4_ext_shift(0xF, lz4_ext_sum(data@, ip_tok + 1)),
                invariant
                    n == data@.len(),
                    n <= 0x1000_0000,
                    0 <= ip_tok,
                    ip_tok < ip <= n,
                    out@ == out_tok,
                    token == data@[ip_tok],
                    lit_nib == (token & 0xF0) >> 4,
                    lit_nib == 0xF,
                    0xF <= lit_size <= 0xF + 255 * (ip - ip_tok),
                    lz4_decode_from(data@, ip_tok, out_tok) == lz4_decode(data@),
                ensures
                    out@ == out_tok,
                    ip <= n,
                    lz4_lit_ext(data@, ip_tok) == Some((lit_size as int, ip as int)),
                decreases n - ip,
            {
                if ip >= n {
                    assert(lz4_lit_ext(data@, ip_tok) is None);
                    assert(lz4_decode_from(data@, ip_tok, out_tok) == Err::<Seq<u8>, Seq<u8>>(
                        out_tok,
                    ));
                    return Err(out);
                }
                let e = data[ip];
                ip = ip + 1;
                lit_size = lit_size + e as u64;
                if e != 0xFF {
                    break ;
                }
            }
        }
        assert(lz4_lit_ext(data@, ip_tok) == Some((lit_size as int, ip as int)));

        // Copy the literal run; a truncated run yields the partial output.
        let ghost ip_lit = ip as int;
        proof {
            assert(out@ =~= out_tok + data@.subrange(ip_lit, ip_lit));
        }
        let mut k: u64 = 0;
        while k < lit_size
            invariant
                n == data@.len(),
                n <= 0x1000_0000,
                k <= lit_size,
                ip as int == ip_lit + k,
                ip <= n,
                0 <= ip_tok < n,
                ip_tok < ip_lit <= n,
                token == data@[ip_tok],
                look_nib == token & 0x0F,
                out@ == out_tok + data@.subrange(ip_lit, ip as int),
                lz4_decode_from(data@, ip_tok, out_tok) == lz4_decode(data@),
                lz4_lit_ext(data@, ip_tok) == Some((lit_size as int, ip_lit)),
            decreases lit_size - k,
        {
            if ip >= n {
                proof {
                    assert(out@ =~= out_tok + data@.subrange(ip_lit, data@.len() as int));
                    assert(lz4_decode_from(data@, ip_tok, out_tok) == Err::<Seq<u8>, Seq<u8>>(
                        out_tok + data@.subrange(ip_lit, data@.len() as int),
                    ));
                }
                return Err(out);
            }
            let b = data[ip];
            out.push(b);
            proof {
                assert(data@.subrange(ip_lit, ip + 1 as int) =~= data@.subrange(
                    ip_lit,
                    ip as int,
                ).push(b));
                assert(out@ =~= out_tok + data@.subrange(ip_lit, ip + 1 as int));
            }
            ip = ip + 1;
            k = k + 1;
        }
        let ghost out2 = out@;
        assert(out2 == out_tok + data@.subrange(ip_lit, ip_lit + lit_size as int));

        if ip + 2 > n {
            // The stream ended before a match offset: complete exactly when
            // the token asked for no match bytes.
            if look_nib == 0 {
                return Ok(out);
            } else {
                return Err(out);
            }
        }
        let ghost ip3 = ip as int;
        let lookback = read_u16_le(data, ip);
        ip = ip + 2;
        if lookback as usize > out.len() || lookback == 0 {
            return Err(out);
        }

        let mut look_size: u64 = look_nib as u64;
        if look_nib == 0xF {
            loop
                invariant_except_break
                    lz4_ext_shift(look_size as int, lz4_ext_sum(data@, ip as int))
                        == lz4_ext_shift(0xF, lz4_ext_sum(data@, ip3 + 2)),
                invariant
                    n == data@.len(),
                    n <= 0x1000_0000,
                    0 <= ip_tok < n,
                    ip3 + 2 <= ip <= n,
                    out@ == out2,
                    0 < lookback as int <= out2.len(),
                    lookback as int == le16(data@, ip3),
                    token == data@[ip_tok],
                    look_nib == token & 0x0F,
                    look_nib == 0xF,
                    0xF <= look_size <= 0xF + 255 * (ip - ip3),
                    lz4_decode_from(data@, ip_tok, out_tok) == lz4_decode(data@),
                    lz4_lit_ext(data@, ip_tok) == Some((lit_size as int, ip_lit)),
                    ip_tok < ip_lit,
                    ip3 == ip_lit + lit_size as int,
                    out2 == out_tok + data@.subrange(ip_lit, ip3),
                ensures
                    out@ == out2,
                    ip <= n,
                    lz4_look_ext(data@, ip3, look_nib) == Some((look_size as int, ip as int)),
                decreases n - ip,
            {
                if ip >= n {
                    assert(lz4_look_ext(data@, ip3, look_nib) is None);
                    assert(lz4_decode_from(data@, ip_tok, out_tok) == Err::<Seq<u8>, Seq<u8>>(
                        out2,
                    ));
                    return Err(out);
                }
                let e = data[ip];
                ip = ip + 1;
                look_size = look_size + e as u64;
                if e != 0xFF {
                    break ;
                }
            }
        }
        assert(lz4_look_ext(data@, ip3, look_nib) == Some((look_size as int, ip as int)));
        look_size = look_size + 4;

        proof {
            lemma_backref_copy_len(out@, out@.len() - lookback as int, look_size as int);
        }
        push_backref(&mut out, lookback as usize, look_size);
        assert(lz4_decode_from(data@, ip as int, out@) == lz4_decode(data@));
    }
}

/// Encode `data` as a single all-literal LZ4 token stream.
pub fn lz4_compress(data: &[u8]) -> (r: Vec<u8>)
    requires
        data@.len() <= 0x100_0000,
    ensures
        lz4_decode(r@) == Ok::<Seq<u8>, Seq<u8>>(data@),
{
    let n: usize = data.len();
    let mut out: Vec<u8> = Vec::new();
    if n < 0xF {
        out.push((n as u8) << 4);
        proof {
            assert(out@ =~= seq![(n as u8) << 4]);
        }
    } else {
        out.push(0xF0u8);
        proof {
            assert(out@ =~= seq![0xF0u8] + Seq::new(0nat, |i: int| 0xFFu8));
        }
        let mut rem: usize = n - 0xF;
        while rem >= 255
            invariant
                out@.len() >= 1,
                rem <= n - 0xF,
                n <= 0x100_0000,
                out@ == seq![0xF0u8] + Seq::new((out@.len() - 1) as nat, |i: int| 0xFFu8),
                0xF + 255 * (out@.len() - 1) + rem == n,
            decreases rem,
        {
            out.push(0xFFu8);
            proof {
                assert(out@ =~= seq![0xF0u8] + Seq::new((out@.len() - 1) as nat, |i: int| 0xFFu8));
            }
            rem = rem - 255;
        }
        let ghost q = (out@.len() - 1) as int;
        out.push(rem as u8);
        proof {
            assert(q == (n - 0xF) / 255 && rem as int == (n - 0xF) % 255) by (nonlinear_arith)
                requires
                    0xF + 255 * q + rem == n,
                    0 <= rem < 255,
                    0 <= q,
            ;
            assert(out@ =~= seq![0xF0u8] + Seq::new(q as nat, |i: int| 0xFFu8) + seq![
                ((n - 0xF) % 255) as u8,
            ]);
        }
    }
    let ghost header = out@;
    let mut i: usize = 0;
    while i < n
        invariant
            n == data@.len(),
            i <= n,
            out@ == header + data@.subrange(0, i as int),
        decreases n - i,
    {
        out.push(data[i]);
        proof {
            assert(out@ =~= header + data@.subrange(0, i + 1 as int));
        }
        i = i + 1;
    }
    proof {
        assert(data@.subrange(0, n as int) =~= data@);
        lemma_lz4_literal_stream_decodes(out@, data@, n as int);
    }
    out
}

/// A run of `q` 0xFF bytes followed by a final byte below 255 sums to
/// `255 * q` plus that byte.
proof fn lemma_lz4_ext_sum_of_run(s: Seq<u8>, ip: int, q: int, last: u8)
    requires
        0 <= ip,
        0 <= q,
        ip + q < s.len(),
        forall|j: int| ip <= j < ip + q ==> s[j] == 0xFFu8,
        s[ip + q] == last,
        last != 0xFF,
    ensures
        lz4_ext_sum(s, ip) == Some((255 * q + last as int, ip + q + 1)),
    decreases q,
{
    if q > 0 {
        lemma_lz4_ext_sum_of_run(s, ip + 1, q - 1, last);
    }
}

/// The stream produced by `lz4_compress` decodes to exactly its payload.
proof fn lemma_lz4_literal_stream_decodes(s: Seq<u8>, payload: Seq<u8>, n: int)
    requires
        n == payload.len(),
        0 <= n <= 0x100_0000,
        n < 0xF ==> s =~= seq![(n as u8) << 4] + payload,
        n >= 0xF ==> {
            let q = (n - 0xF) / 255;
            let rem = (n - 0xF) % 255;
            s =~= seq![0xF0u8] + Seq::new(q as nat, |i: int| 0xFFu8) + seq![rem as u8] + payload
        },
    ensures
        lz4_decode(s) == Ok::<Seq<u8>, Seq<u8>>(payload),
{
    if n < 0xF {
        let nn = n as u8;
        let token = nn << 4;
        assert(nn < 0xF);
        assert(((nn << 4) & 0xF0) >> 4 == nn && (nn << 4) & 0x0F == 0) by (bit_vector)
            requires
                nn < 0xF,
        ;
        assert(s[0] == token);
        assert(lz4_lit_ext(s, 0) == Some((n, 1int)));
        assert(s.subrange(1, 1 + n) =~= payload);
        assert(lz4_decode_from(s, 0, Seq::empty()) == Ok::<Seq<u8>, Seq<u8>>(
            Seq::empty() + payload,
        ));
        assert(Seq::<u8>::empty() + payload =~= payload);
    } else {
        let q = (n - 0xF) / 255;
        let rem = (n - 0xF) % 255;
        assert(0 <= q && 0 <= rem < 255 && 255 * q + rem == n - 0xF) by (nonlinear_arith)
            requires
                n >= 0xF,
                q == (n - 0xF) / 255,
                rem == (n - 0xF) % 255,
        ;
        assert(s[0] == 0xF0u8);
        assert((0xF0u8 & 0xF0) >> 4 == 0xF && 0xF0u8 & 0x0F == 0) by (bit_vector);
        assert(forall|j: int| 1 <= j < 1 + q ==> s[j] == 0xFFu8);
        assert(s[1 + q] == rem as u8);
        assert(rem as u8 as int == rem && rem as u8 != 0xFFu8);
        lemma_lz4_ext_sum_of_run(s, 1, q, rem as u8);
        assert(lz4_ext_sum(s, 1) == Some((255 * q + rem, 2 + q)));
        assert(lz4_lit_ext(s, 0) == Some((n, 2 + q)));
        assert(s.subrange(2 + q, 2 + q + n) =~= payload);
        assert(lz4_decode_from(s, 0, Seq::empty()) == Ok::<Seq<u8>, Seq<u8>>(
            Seq::empty() + payload,
        ));
        assert(Seq::<u8>::empty() + payload =~= payload);
    }
}

/// Decoding inverts encoding: the all-literal stream built for `x` decodes
/// back to `x`.
pub proof fn lemma_lz4_round_trip(x: Seq<u8>)
    requires
        x.len() <= 0x100_0000,
    ensures
        ({
            let enc = if x.len() < 0xF {
                seq![(x.len() as u8) << 4] + x
            } else {
                let q = (x.len() - 0xF) / 255;
                let rem = (x.len() - 0xF) % 255;
                seq![0xF0u8] + Seq::new(q as nat, |i: int| 0xFFu8) + seq![rem as u8] + x
            };
            lz4_decode(enc) == Ok::<Seq<u8>, Seq<u8>>(x)
        }),
{
    let enc = if x.len() < 0xF {
        seq![(x.len() as u8) << 4] + x
    } else {
        let q = (x.len() - 0xF) / 255;
        let rem = (x.len() - 0xF) % 255;
        seq![0xF0u8] + Seq::new(q as nat, |i: int| 0xFFu8) + seq![rem as u8] + x
    };
    lemma_lz4_literal_stream_decodes(enc, x, x.len() as int);
}

} // verus!
