//! Checksum-convolution block recovery: given a table of truncated
//! per-sector fletcher4 sums, locate candidate offsets whose accumulated
//! sum matches a target checksum, then verify candidates exactly.

use vstd::prelude::*;
use crate::fletcher::{do_fletcher4, fletcher4, fletcher4_state, checksum_eq};
use crate::zio::{raidz_col_map, rotated_at, DataVirtualAddress};
use crate::{raidz_read_bytes, VdevRaidz};
use vstd::wrapping::u64_specs;

verus! {

broadcast use vstd::slice::axiom_spec_len;

/// How many `true` bits a mask prefix holds.
pub open spec fn count_true(mask: Seq<bool>, k: int) -> int
    decreases k,
{
    if k <= 0 {
        0
    } else {
        count_true(mask, k - 1) + if mask[k - 1] {
            1int
        } else {
            0int
        }
    }
}

/// Build the data-column mask for a block of `psize` bytes starting at
/// byte offset `off`: one entry per sector column, `true` where a data
/// sector lands and `false` on parity columns, with the single-parity
/// megabyte rotation applied.  The mask ends at the last data sector.
pub fn calculate_convolution_vector_for_block(
    off: u64,
    psize: usize,
    is_raidz1: bool,
    sector_size: usize,
    raidz_ndevices: usize,
    raidz_nparity: usize,
) -> (r: Vec<bool>)
    requires
        raidz_nparity < raidz_ndevices,
        raidz_ndevices <= 0x1_0000,
        1 <= sector_size,
        1 <= psize / sector_size,
    ensures
        ({
            let rot = is_raidz1 && (off as int / 0x100000) % 2 == 1;
            &&& (forall|i: int|
                0 <= i < r@.len() ==> #[trigger] r@[i] == (raidz_col_map(
                    rot,
                    i % raidz_ndevices as int,
                ) >= raidz_nparity))
            &&& count_true(r@, r@.len() as int) == psize as int / sector_size as int
            &&& r@.len() >= 1
            &&& r@.len() <= (psize as int / sector_size as int) * raidz_ndevices
                + raidz_ndevices
            &&& r@[r@.len() - 1]
        }),
{
    let ghost rot = is_raidz1 && (off as int / 0x100000) % 2 == 1;
    let rotated: bool = is_raidz1 && (off / 0x100000) % 2 == 1;
    let mut remaining: usize = psize / sector_size;
    let target: usize = remaining;
    let mut res: Vec<bool> = Vec::new();
    // A column that always carries data, whatever the rotation.
    let witness: usize = if raidz_nparity >= 2 {
        raidz_nparity
    } else if raidz_nparity == 1 && rotated {
        0
    } else if raidz_nparity == 1 {
        1
    } else {
        0
    };
    proof {
        assert(raidz_ndevices as int % raidz_ndevices as int == 0 && 0int % (
        raidz_ndevices as int) == 0) by (nonlinear_arith)
            requires
                raidz_ndevices as int > 0,
        ;
    }
    while remaining > 0
        invariant_except_break
            res@.len() as int % raidz_ndevices as int == 0,
            res@.len() <= (target - remaining) * (raidz_ndevices as int),
        invariant
            raidz_ndevices as int % raidz_ndevices as int == 0,
            raidz_nparity < raidz_ndevices <= 0x1_0000,
            rotated == rot,
            witness < raidz_ndevices,
            raidz_col_map(rot, witness as int) >= raidz_nparity,
            remaining <= target,
            count_true(res@, res@.len() as int) == target - remaining,
            forall|i: int|
                0 <= i < res@.len() ==> #[trigger] res@[i] == (raidz_col_map(
                    rot,
                    i % raidz_ndevices as int,
                ) >= raidz_nparity),
            remaining > 0 || (res@.len() >= 1 && res@[res@.len() - 1]),
        ensures
            remaining == 0,
            count_true(res@, res@.len() as int) == target,
            res@.len() >= 1 && res@[res@.len() - 1],
            res@.len() <= target * (raidz_ndevices as int) + raidz_ndevices,
            forall|i: int|
                0 <= i < res@.len() ==> #[trigger] res@[i] == (raidz_col_map(
                    rot,
                    i % raidz_ndevices as int,
                ) >= raidz_nparity),
        decreases remaining,
    {
        let ghost rem0 = remaining as int;
        let mut col: usize = 0;
        let mut broke: bool = false;
        while col < raidz_ndevices
            invariant_except_break
                !broke,
                remaining >= 1,
                res@.len() as int % raidz_ndevices as int == col as int % raidz_ndevices as int,
                res@.len() <= (target - rem0) * (raidz_ndevices as int) + col,
            invariant
                raidz_ndevices as int % raidz_ndevices as int == 0,
                raidz_nparity < raidz_ndevices <= 0x1_0000,
                rotated == rot,
                witness < raidz_ndevices,
                raidz_col_map(rot, witness as int) >= raidz_nparity,
                col <= raidz_ndevices,
                remaining <= rem0 <= target,
                count_true(res@, res@.len() as int) == target - remaining,
                col > witness ==> remaining < rem0,
                forall|i: int|
                    0 <= i < res@.len() ==> #[trigger] res@[i] == (raidz_col_map(
                        rot,
                        i % raidz_ndevices as int,
                    ) >= raidz_nparity),
            ensures
                broke ==> remaining == 0 && res@.len() >= 1 && res@[res@.len() - 1],
                !broke ==> res@.len() as int % raidz_ndevices as int == 0 && remaining < rem0
                    && remaining >= 1,
                remaining <= rem0,
                res@.len() <= (target - rem0) * (raidz_ndevices as int) + raidz_ndevices,
                count_true(res@, res@.len() as int) == target - remaining,
                forall|i: int|
                    0 <= i < res@.len() ==> #[trigger] res@[i] == (raidz_col_map(
                        rot,
                        i % raidz_ndevices as int,
                    ) >= raidz_nparity),
            decreases raidz_ndevices - col,
        {
            let mapped_column: usize = if rotated && col == 0 {
                1
            } else if rotated && col == 1 {
                0
            } else {
                col
            };
            let ghost res_before = res@;
            let is_data: bool = mapped_column >= raidz_nparity;
            res.push(is_data);
            proof {
                assert(res@.drop_last() =~= res_before);
                lemma_count_true_prefix(res@, res_before, res_before.len() as int);
                assert(mapped_column as int == raidz_col_map(rot, col as int));
                assert(col as int % raidz_ndevices as int == col as int) by (nonlinear_arith)
                    requires
                        0 <= col as int && (col as int) < (raidz_ndevices as int),
                ;
                assert((res@.len() - 1) as int % raidz_ndevices as int == col as int);
            }
            if is_data {
                remaining = remaining - 1;
                if remaining == 0 {
                    broke = true;
                    proof {
                        assert(res@[res@.len() - 1]);
                    }
                    break ;
                }
            }
            proof {
                assert((col as int + 1) % raidz_ndevices as int == (res_before.len() + 1) as int
                    % raidz_ndevices as int) by (nonlinear_arith)
                    requires
                        res_before.len() as int % raidz_ndevices as int == col as int
                            % raidz_ndevices as int,
                        raidz_ndevices as int > 0,
                        res_before.len() >= 0,
                        col as int >= 0,
                ;
            }
            col = col + 1;
        }
        if broke {
            proof {
                assert((target - rem0) * (raidz_ndevices as int) <= target * (
                raidz_ndevices as int)) by (nonlinear_arith)
                    requires
                        0 <= rem0,
                        raidz_ndevices as int >= 1,
                        rem0 <= target,
                ;
            }
            break ;
        }
        proof {
            assert((target - rem0) * (raidz_ndevices as int) + raidz_ndevices as int <= (target
                - remaining) * (raidz_ndevices as int)) by (nonlinear_arith)
                requires
                    remaining <= rem0 - 1,
                    raidz_ndevices as int >= 1,
            ;
            assert((target - remaining) * (raidz_ndevices as int) <= target * (
            raidz_ndevices as int)) by (nonlinear_arith)
                requires
                    0 <= remaining,
                    raidz_ndevices as int >= 1,
                    remaining <= target,
            ;
        }
    }
    res
}

/// Counting more of the mask never lowers the count.
pub proof fn lemma_count_true_mono(mask: Seq<bool>, j: int, m: int)
    requires
        0 <= j <= m,
    ensures
        count_true(mask, j) <= count_true(mask, m),
    decreases m - j,
{
    if j < m {
        lemma_count_true_mono(mask, j, m - 1);
    }
}

/// Counts lie between zero and the prefix length.
pub proof fn lemma_count_true_bounds(mask: Seq<bool>, j: int)
    requires
        0 <= j,
    ensures
        0 <= count_true(mask, j) <= j,
    decreases j,
{
    if j > 0 {
        lemma_count_true_bounds(mask, j - 1);
    }
}

/// Counting ignores elements past the prefix.
proof fn lemma_count_true_prefix(a: Seq<bool>, b: Seq<bool>, k: int)
    requires
        0 <= k <= a.len(),
        k <= b.len(),
        forall|i: int| 0 <= i < k ==> a[i] == b[i],
    ensures
        count_true(a, k) == count_true(b, k),
    decreases k,
{
    if k > 0 {
        lemma_count_true_prefix(a, b, k - 1);
    }
}

/// The exact integer convolution sum: the table values under the mask,
/// starting at table position `k`; positions past the table count as zero.
pub open spec fn conv_sum(table: Seq<u32>, mask: Seq<bool>, k: int, j: int) -> int
    decreases j,
{
    if j <= 0 {
        0
    } else {
        conv_sum(table, mask, k, j - 1) + if mask[j - 1] && 0 <= k + j - 1 < table.len() {
            table[k + j - 1] as int
        } else {
            0int
        }
    }
}

/// The partial fletcher4 sums a block starting at each table position
/// would have: entry `k` is the masked sum of the table entries from `k`
/// on.  This is the integer form of convolving the table with the
/// reversed mask.
pub fn calculate_fletcher4_partial_block_checksums(table: &[u32], mask: &Vec<bool>) -> (r: Vec<
    u64,
>)
    requires
        1 <= mask@.len() <= 0x1_0000_0000,
        mask@.len() <= table@.len(),
    ensures
        r@.len() == table@.len() - (mask@.len() - 1),
        forall|k: int|
            0 <= k < r@.len() ==> #[trigger] r@[k] == conv_sum(
                table@,
                mask@,
                k,
                mask@.len() as int,
            ),
{
    let n: usize = table.len();
    let m: usize = mask.len();
    let count: usize = n - (m - 1);
    let mut r: Vec<u64> = Vec::new();
    let mut k: usize = 0;
    while k < count
        invariant
            n == table@.len(),
            m == mask@.len(),
            1 <= m <= 0x1_0000_0000,
            m <= n,
            count == n - (m - 1),
            r@.len() == k,
            k <= count,
            forall|q: int|
                0 <= q < k ==> #[trigger] r@[q] == conv_sum(table@, mask@, q, mask@.len() as int),
        decreases count - k,
    {
        let mut sum: u64 = 0;
        let mut j: usize = 0;
        while j < m
            invariant
                n == table@.len(),
                m == mask@.len(),
                m <= 0x1_0000_0000,
                k + m <= n + 1,
                k < count,
                count == n - (m - 1),
                j <= m,
                sum == conv_sum(table@, mask@, k as int, j as int),
                sum <= j * 0x1_0000_0000,
            decreases m - j,
        {
            proof {
                assert((j as int) * 0x1_0000_0000 + 0x1_0000_0000 == (j as int + 1)
                    * 0x1_0000_0000) by (nonlinear_arith);
            }
            if mask[j] {
                sum = sum + table[k + j] as u64;
            }
            j = j + 1;
        }
        r.push(sum);
        k = k + 1;
    }
    r
}

/// The low 32 bits of the first fletcher4 accumulator of a byte string:
/// what the checksum table stores for each sector.
pub open spec fn sector_table_entry(sector: Seq<u8>) -> u32 {
    (fletcher4(sector)[0] & 0xFFFF_FFFF) as u32
}

/// The first fletcher4 accumulator is additive over concatenation at
/// 4-byte boundaries, modulo 2^64.
pub proof fn lemma_fletcher4_s1_concat(a: Seq<u8>, b: Seq<u8>)
    requires
        a.len() % 4 == 0,
    ensures
        fletcher4(a + b)[0] == u64_specs::wrapping_add(fletcher4(a)[0], fletcher4(b)[0]),
{
    let ab = a + b;
    let na = a.len() as int / 4;
    let nb = b.len() as int / 4;
    vstd::arithmetic::div_mod::lemma_fundamental_div_mod(a.len() as int, 4);
    vstd::arithmetic::div_mod::lemma_fundamental_div_mod(b.len() as int, 4);
    assert(0 <= b.len() as int % 4 < 4) by (nonlinear_arith)
        requires
            b.len() >= 0,
    ;
    vstd::arithmetic::div_mod::lemma_fundamental_div_mod_converse(
        ab.len() as int,
        4,
        na + nb,
        b.len() as int % 4,
    );
    lemma_fletcher4_s1_shift(a, b, nb);
}

/// Processing `n` more words of the concatenation past `a` adds the same
/// amount to the first accumulator as processing `n` words of `b` alone.
proof fn lemma_fletcher4_s1_shift(a: Seq<u8>, b: Seq<u8>, n: int)
    requires
        a.len() % 4 == 0,
        0 <= n,
        4 * n <= b.len(),
    ensures
        fletcher4_state(a + b, a.len() as int / 4 + n).0 == u64_specs::wrapping_add(
            fletcher4_state(a, a.len() as int / 4).0,
            fletcher4_state(b, n).0,
        ),
    decreases n,
{
    let ab = a + b;
    let na = a.len() as int / 4;
    if n == 0 {
        lemma_fletcher4_s1_prefix(a, b, na);
    } else {
        lemma_fletcher4_s1_shift(a, b, n - 1);
        assert(4 * (na + n - 1) == a.len() + 4 * (n - 1)) by (nonlinear_arith)
            requires
                na == a.len() as int / 4,
                a.len() % 4 == 0,
        ;
        assert(crate::byte_reader::le32(ab, a.len() + 4 * (n - 1)) == crate::byte_reader::le32(
            b,
            4 * (n - 1),
        ));
    }
}

/// The first accumulator over the words of `a` is unchanged by appending
/// `b`.
proof fn lemma_fletcher4_s1_prefix(a: Seq<u8>, b: Seq<u8>, k: int)
    requires
        0 <= k,
        4 * k <= a.len(),
    ensures
        fletcher4_state(a + b, k) == fletcher4_state(a, k),
    decreases k,
{
    if k > 0 {
        lemma_fletcher4_s1_prefix(a, b, k - 1);
        assert(crate::byte_reader::le32(a + b, 4 * (k - 1)) == crate::byte_reader::le32(
            a,
            4 * (k - 1),
        ));
    }
}

/// The table entries of the masked sectors, summed.
pub open spec fn masked_entry_sum(sectors: Seq<Seq<u8>>, mask: Seq<bool>, j: int) -> int
    decreases j,
{
    if j <= 0 {
        0
    } else {
        masked_entry_sum(sectors, mask, j - 1) + if mask[j - 1] {
            sector_table_entry(sectors[j - 1]) as int
        } else {
            0int
        }
    }
}

/// The masked sectors themselves, in order.
pub open spec fn selected_sectors(sectors: Seq<Seq<u8>>, mask: Seq<bool>, j: int) -> Seq<Seq<u8>>
    decreases j,
{
    if j <= 0 {
        Seq::empty()
    } else if mask[j - 1] {
        selected_sectors(sectors, mask, j - 1).push(sectors[j - 1])
    } else {
        selected_sectors(sectors, mask, j - 1)
    }
}

/// The sweep's soundness direction: where a block truly lies at masked
/// sectors, the masked sum of the table entries agrees with the low half
/// of the block's first fletcher4 accumulator.  A true location is never
/// filtered out by the partial match.
pub proof fn lemma_partial_checksum_superset(sectors: Seq<Seq<u8>>, mask: Seq<bool>, j: int)
    requires
        0 <= j <= sectors.len(),
        j <= mask.len(),
        forall|i: int| 0 <= i < sectors.len() ==> (#[trigger] sectors[i]).len() % 4 == 0,
    ensures
        (fletcher4(selected_sectors(sectors, mask, j).flatten())[0] as int) % 0x1_0000_0000
            == masked_entry_sum(sectors, mask, j) % 0x1_0000_0000,
    decreases j,
{
    broadcast use vstd::prelude::Seq::lemma_flatten_push;

    if j == 0 {
        assert(selected_sectors(sectors, mask, 0).flatten() =~= Seq::<u8>::empty());
        assert(fletcher4(Seq::<u8>::empty())[0] == 0);
    } else {
        lemma_partial_checksum_superset(sectors, mask, j - 1);
        let prev = selected_sectors(sectors, mask, j - 1);
        let prev_flat = prev.flatten();
        if mask[j - 1] {
            let sec = sectors[j - 1];
            assert(selected_sectors(sectors, mask, j).flatten() =~= prev_flat + sec);
            lemma_flatten_of_aligned(sectors, mask, j - 1);
            lemma_fletcher4_s1_concat(prev_flat, sec);
            let x = fletcher4(prev_flat)[0];
            let y = fletcher4(sec)[0];
            let z = u64_specs::wrapping_add(x, y);
            if x + y > u64::MAX {
                vstd::arithmetic::div_mod::lemma_mod_multiples_vanish(
                    0x1_0000_0000,
                    x as int + y as int - 0x1_0000_0000_0000_0000,
                    0x1_0000_0000,
                );
            }
            assert(z as int % 0x1_0000_0000 == (x as int + y as int) % 0x1_0000_0000);
            vstd::arithmetic::div_mod::lemma_add_mod_noop(x as int, y as int, 0x1_0000_0000);
            assert(sector_table_entry(sec) as int == y as int % 0x1_0000_0000) by {
                assert(y & 0xFFFF_FFFF == y % 0x1_0000_0000) by (bit_vector);
            }
            vstd::arithmetic::div_mod::lemma_add_mod_noop(
                masked_entry_sum(sectors, mask, j - 1),
                sector_table_entry(sec) as int,
                0x1_0000_0000,
            );
            let e = sector_table_entry(sec) as int;
            assert(e % 0x1_0000_0000 == e) by (nonlinear_arith)
                requires
                    0 <= e,
                    e < 0x1_0000_0000,
            ;
        } else {
            assert(selected_sectors(sectors, mask, j) == prev);
        }
    }
}

/// Whatever is selected flattens to a length that is a multiple of four,
/// because every sector's length is.
proof fn lemma_flatten_of_aligned(sectors: Seq<Seq<u8>>, mask: Seq<bool>, j: int)
    requires
        0 <= j <= sectors.len(),
        j <= mask.len(),
        forall|i: int| 0 <= i < sectors.len() ==> (#[trigger] sectors[i]).len() % 4 == 0,
    ensures
        selected_sectors(sectors, mask, j).flatten().len() % 4 == 0,
    decreases j,
{
    broadcast use vstd::prelude::Seq::lemma_flatten_push;

    if j == 0 {
        assert(selected_sectors(sectors, mask, 0).flatten() =~= Seq::<u8>::empty());
    } else {
        lemma_flatten_of_aligned(sectors, mask, j - 1);
        if mask[j - 1] {
            let prev_flat = selected_sectors(sectors, mask, j - 1).flatten();
            let sec = sectors[j - 1];
            assert(selected_sectors(sectors, mask, j).flatten() =~= prev_flat + sec);
            assert((prev_flat.len() + sec.len()) % 4 == 0) by (nonlinear_arith)
                requires
                    prev_flat.len() % 4 == 0,
                    sec.len() % 4 == 0,
            ;
        }
    }
}


/// The probe address the sweep reads candidate position `k` through.
pub open spec fn yolo_probe_dva(asize: int, k: int) -> DataVirtualAddress {
    DataVirtualAddress {
        vdev_id: 0,
        data_allocated_size_minus_one_in_512b_sectors: 0,
        offset_in_512b_sectors: ((k * asize) / 512) as u64,
        is_gang: false,
    }
}

/// Whether `mask` is the data-column mask the sweep builds for a block of
/// `target` data sectors probed at byte offset `off`: the column pattern
/// under the rotation, counting `target` data slots, ending on one.
/// These conditions pin the mask completely.
pub open spec fn conv_mask_shape(mask: Seq<bool>, rot: bool, n: int, p: int, target: int) -> bool {
    &&& (forall|i: int|
        0 <= i < mask.len() ==> #[trigger] mask[i] == (raidz_col_map(rot, i % n) >= p))
    &&& count_true(mask, mask.len() as int) == target
    &&& mask.len() >= 1
    &&& mask[mask.len() - 1]
}

/// Two masks of the same shape are the same mask.
pub proof fn lemma_conv_mask_unique(m1: Seq<bool>, m2: Seq<bool>, rot: bool, n: int, p: int, target: int)
    requires
        1 <= n,
        conv_mask_shape(m1, rot, n, p, target),
        conv_mask_shape(m2, rot, n, p, target),
    ensures
        m1 == m2,
{
    if m1.len() < m2.len() {
        lemma_count_true_prefix(m1, m2, m1.len() as int);
        lemma_count_true_mono(m2, m1.len() as int, m2.len() - 1);
        assert(count_true(m2, m2.len() as int) == count_true(m2, m2.len() - 1) + 1);
        assert(false);
    } else if m2.len() < m1.len() {
        lemma_count_true_prefix(m2, m1, m2.len() as int);
        lemma_count_true_mono(m1, m2.len() as int, m1.len() - 1);
        assert(count_true(m1, m1.len() as int) == count_true(m1, m1.len() - 1) + 1);
        assert(false);
    } else {
        assert(m1 =~= m2);
    }
}

/// Whether sweep position `k` is a hit: its masked partial sum matches
/// the low half of the target's first accumulator, the probe read
/// succeeds, and the full fletcher4 of what it reads is the target.
/// Everything a fresh sweep can return, and everything it may pass over,
/// is fixed by this predicate.
pub open spec fn yolo_candidate(
    devs: Seq<Seq<u8>>,
    asize: int,
    n: int,
    p: int,
    checksum: [u64; 4],
    psize: int,
    table: Seq<u32>,
    k: int,
) -> bool {
    exists|mask: Seq<bool>|
        {
            &&& #[trigger] conv_mask_shape(
                mask,
                rotated_at(p, k * asize),
                n,
                p,
                psize / asize,
            )
            &&& conv_sum(table, mask, k, mask.len() as int) % 0x1_0000_0000 == (
            checksum@[0] as int) % 0x1_0000_0000
            &&& k * asize <= u64::MAX
            &&& crate::zio::dva_raw_read_ok(devs, asize, n, p, yolo_probe_dva(asize, k), psize)
            &&& fletcher4(
                crate::zio::dva_raw_read_bytes(
                    devs,
                    asize,
                    n,
                    p,
                    yolo_probe_dva(asize, k),
                    psize,
                ),
            ) == checksum@
        }
}

/// A persistent map of already answered recovery queries, keyed by
/// (checksum, physical size).
pub struct YoloCache {
    pub entries: Vec<(([u64; 4], u64), Option<u64>)>,
}

/// The cached answer for `key`: the most recently inserted one.
pub open spec fn yolo_cache_lookup(
    entries: Seq<(([u64; 4], u64), Option<u64>)>,
    key: ([u64; 4], u64),
) -> Option<Option<u64>>
    decreases entries.len(),
{
    if entries.len() == 0 {
        None
    } else if (entries.last().0).0@ == key.0@ && (entries.last().0).1 == key.1 {
        Some(entries.last().1)
    } else {
        yolo_cache_lookup(entries.drop_last(), key)
    }
}

impl YoloCache {
    pub fn new() -> (r: YoloCache)
        ensures
            r.entries@.len() == 0,
    {
        YoloCache { entries: Vec::new() }
    }

    pub fn lookup(&self, key: &([u64; 4], u64)) -> (r: Option<Option<u64>>)
        ensures
            r == yolo_cache_lookup(self.entries@, *key),
    {
        let n: usize = self.entries.len();
        let mut i: usize = n;
        proof {
            assert(self.entries@.take(n as int) =~= self.entries@);
        }
        while i > 0
            invariant
                i <= n,
                n == self.entries@.len(),
                yolo_cache_lookup(self.entries@, *key) == yolo_cache_lookup(
                    self.entries@.take(i as int),
                    *key,
                ),
            decreases i,
        {
            i = i - 1;
            let e = &self.entries[i];
            proof {
                assert(self.entries@.take(i + 1).last() == self.entries@[i as int]);
                assert(self.entries@.take(i + 1).drop_last() =~= self.entries@.take(i as int));
            }
            if checksum_eq(&e.0.0, &key.0) && e.0.1 == key.1 {
                return Some(e.1);
            }
        }
        proof {
            assert(self.entries@.take(0) =~= Seq::<(([u64; 4], u64), Option<u64>)>::empty());
        }
        None
    }

    pub fn insert(&mut self, key: ([u64; 4], u64), value: Option<u64>)
        ensures
            final(self).entries@ == old(self).entries@.push((key, value)),
            yolo_cache_lookup(final(self).entries@, key) == Some(value),
    {
        self.entries.push((key, value));
        proof {
            assert(final(self).entries@.last() == (key, value));
        }
    }
}

/// Search the sector-checksum table for a block whose fletcher4 matches
/// `checksum`: positions whose masked partial sum matches the low 32 bits
/// are verified by a full read and checksum.  Positive and negative
/// answers are remembered in the cache.
pub fn find_block_with_fletcher4_checksum(
    vdevs: &mut VdevRaidz,
    cache: &mut YoloCache,
    checksum: &[u64; 4],
    psize: usize,
    table: &[u32],
) -> (r: Option<u64>)
    requires
        old(vdevs).wf(),
        1 <= psize <= 0x1000_0000,
    ensures
        final(vdevs).wf(),
        VdevRaidz::same_geometry(*old(vdevs), *final(vdevs)),
        yolo_cache_lookup(old(cache).entries@, (*checksum, psize as u64)) is Some ==> r == yolo_cache_lookup(
            old(cache).entries@,
            (*checksum, psize as u64),
        )->Some_0 && final(cache).entries@ == old(cache).entries@,
        yolo_cache_lookup(old(cache).entries@, (*checksum, psize as u64)) is None
            ==> yolo_cache_lookup(final(cache).entries@, (*checksum, psize as u64)) == Some(r),
        match r {
            Some(off) => yolo_cache_lookup(old(cache).entries@, (*checksum, psize as u64))
                is Some || (exists|k: int|
                {
                    &&& 0 <= k < table@.len()
                    &&& off == k * old(vdevs).spec_asize()
                    &&& #[trigger] yolo_candidate(
                        old(vdevs).dev_views(),
                        old(vdevs).spec_asize() as int,
                        old(vdevs).spec_ndevices() as int,
                        old(vdevs).spec_nparity() as int,
                        *checksum,
                        psize as int,
                        table@,
                        k,
                    )
                    &&& (forall|k2: int|
                        0 <= k2 < k ==> !yolo_candidate(
                            old(vdevs).dev_views(),
                            old(vdevs).spec_asize() as int,
                            old(vdevs).spec_ndevices() as int,
                            old(vdevs).spec_nparity() as int,
                            *checksum,
                            psize as int,
                            table@,
                            k2,
                        ))
                }),
            None => yolo_cache_lookup(old(cache).entries@, (*checksum, psize as u64)) is Some
                || (psize as int / old(vdevs).spec_asize() as int) < 1 || (forall|k: int|
                0 <= k < table@.len() ==> !yolo_candidate(
                    old(vdevs).dev_views(),
                    old(vdevs).spec_asize() as int,
                    old(vdevs).spec_ndevices() as int,
                    old(vdevs).spec_nparity() as int,
                    *checksum,
                    psize as int,
                    table@,
                    k,
                )),
        },
{
    let key: ([u64; 4], u64) = (*checksum, psize as u64);
    match cache.lookup(&key) {
        Some(answer) => {
            return answer;
        },
        None => {},
    }
    let info = match vdevs.get_raidz_info() {
        Some(i) => i,
        None => {
            proof {
                assert(false);
            }
            return None;
        },
    };
    let sector_size: usize = vdevs.get_asize();
    let partial_target: u32 = checksum[0] as u32;
    if psize / sector_size < 1 {
        cache.insert(key, None);
        return None;
    }
    let is_raidz1: bool = info.nparity == 1;
    let ndevices = info.ndevices;
    let nparity = info.nparity;
    let nt: usize = table.len();
    let mut k: usize = 0;
    while k < nt
        invariant
            old(vdevs).wf(),
            vdevs.wf(),
            VdevRaidz::same_geometry(*old(vdevs), *vdevs),
            nt == table@.len(),
            nparity < ndevices <= 0x1_0000,
            1 <= sector_size == old(vdevs).spec_asize(),
            1 <= psize <= 0x1000_0000,
            1 <= psize / sector_size,
            is_raidz1 == (nparity == 1),
            partial_target == checksum[0] as u32,
            cache.entries@ == old(cache).entries@,
            yolo_cache_lookup(old(cache).entries@, key) is None,
            key == (*checksum, psize as u64),
            ndevices == old(vdevs).spec_ndevices(),
            nparity == old(vdevs).spec_nparity(),
            forall|k2: int|
                0 <= k2 < k ==> !yolo_candidate(
                    old(vdevs).dev_views(),
                    old(vdevs).spec_asize() as int,
                    old(vdevs).spec_ndevices() as int,
                    old(vdevs).spec_nparity() as int,
                    *checksum,
                    psize as int,
                    table@,
                    k2,
                ),
        decreases nt - k,
    {
        let ghost devs0 = old(vdevs).dev_views();
        let ghost a0 = old(vdevs).spec_asize() as int;
        let ghost n0 = old(vdevs).spec_ndevices() as int;
        let ghost p0 = old(vdevs).spec_nparity() as int;
        let off: u64 = match (k as u64).checked_mul(sector_size as u64) {
            Some(o) => o,
            None => {
                proof {
                    assert forall|k2: int|
                        0 <= k2 < nt implies !yolo_candidate(
                        devs0,
                        a0,
                        n0,
                        p0,
                        *checksum,
                        psize as int,
                        table@,
                        k2,
                    ) by {
                        if k2 >= k {
                            assert(k2 * a0 >= k as int * a0) by (nonlinear_arith)
                                requires
                                    k2 >= k as int,
                                    a0 >= 0,
                            ;
                        }
                    }
                }
                cache.insert(key, None);
                return None;
            },
        };
        let mask = calculate_convolution_vector_for_block(
            off,
            psize,
            is_raidz1,
            sector_size,
            ndevices,
            nparity,
        );
        let mut sum: u64 = 0;
        let mlen: usize = mask.len();
        let mut j: usize = 0;
        while j < mlen
            invariant
                nt == table@.len(),
                mlen == mask@.len(),
                k < nt,
                j <= mlen,
                sum == conv_sum(table@, mask@, k as int, j as int),
                sum <= count_true(mask@, j as int) * 0x1_0000_0000,
                count_true(mask@, mlen as int) <= 0x1000_0000,
            decreases mlen - j,
        {
            proof {
                lemma_count_true_mono(mask@, j as int, mlen as int);
                lemma_count_true_mono(mask@, j + 1, mlen as int);
                lemma_count_true_bounds(mask@, j as int);
                assert(count_true(mask@, j + 1) == count_true(mask@, j as int) + if mask@[
                    j as int] {
                    1int
                } else {
                    0int
                });
                assert((count_true(mask@, j as int) + 1) * 0x1_0000_0000 == count_true(
                    mask@,
                    j as int,
                ) * 0x1_0000_0000 + 0x1_0000_0000) by (nonlinear_arith);
                assert(count_true(mask@, j + 1) * 0x1_0000_0000 <= 0x1000_0000
                    * 0x1_0000_0000) by (nonlinear_arith)
                    requires
                        count_true(mask@, j + 1) <= 0x1000_0000,
                ;
            }
            if mask[j] && j < nt - k {
                sum = sum + table[k + j] as u64;
            }
            j = j + 1;
        }
        proof {
            assert((sum as u32) as u64 == sum % 0x1_0000_0000) by (bit_vector);
        }
        let ghost target32 = (checksum@[0] as int) % 0x1_0000_0000;
        proof {
            let c0 = checksum@[0];
            assert((c0 as u32) as u64 == c0 % 0x1_0000_0000) by (bit_vector);
        }
        if sum as u32 == partial_target {
            let dva = DataVirtualAddress::from(0, off, false);
            proof {
                assert(dva == yolo_probe_dva(a0, k as int));
            }
            match dva.dereference_raw(vdevs, psize) {
                Ok(data) => {
                    let computed = do_fletcher4(data.as_slice());
                    if checksum_eq(&computed, checksum) {
                        proof {
                            assert(computed@ =~= checksum@);
                            assert(conv_mask_shape(
                                mask@,
                                rotated_at(p0, k as int * a0),
                                n0,
                                p0,
                                psize as int / a0,
                            ));
                            assert(yolo_candidate(
                                devs0,
                                a0,
                                n0,
                                p0,
                                *checksum,
                                psize as int,
                                table@,
                                k as int,
                            ));
                        }
                        cache.insert(key, Some(off));
                        return Some(off);
                    }
                    proof {
                        refute_candidate_bad_data(
                            devs0,
                            a0,
                            n0,
                            p0,
                            *checksum,
                            psize as int,
                            table@,
                            k as int,
                            computed@,
                        );
                    }
                },
                Err(_) => {
                    proof {
                        assert(!crate::zio::dva_raw_read_ok(
                            devs0,
                            a0,
                            n0,
                            p0,
                            yolo_probe_dva(a0, k as int),
                            psize as int,
                        ));
                    }
                },
            }
        } else {
            proof {
                assert forall|m: Seq<bool>|
                    #[trigger] conv_mask_shape(
                    m,
                    rotated_at(p0, k as int * a0),
                    n0,
                    p0,
                    psize as int / a0,
                ) implies !(conv_sum(table@, m, k as int, m.len() as int) % 0x1_0000_0000 == (
                checksum@[0] as int) % 0x1_0000_0000) by {
                    lemma_conv_mask_unique(
                        m,
                        mask@,
                        rotated_at(p0, k as int * a0),
                        n0,
                        p0,
                        psize as int / a0,
                    );
                }
            }
        }
        proof {
            assert(!yolo_candidate(devs0, a0, n0, p0, *checksum, psize as int, table@, k as int));
        }
        k = k + 1;
    }
    cache.insert(key, None);
    None
}

/// A position whose probe read hashes to something else is no candidate.
proof fn refute_candidate_bad_data(
    devs: Seq<Seq<u8>>,
    asize: int,
    n: int,
    p: int,
    checksum: [u64; 4],
    psize: int,
    table: Seq<u32>,
    k: int,
    got: Seq<u64>,
)
    requires
        got == fletcher4(
            crate::zio::dva_raw_read_bytes(devs, asize, n, p, yolo_probe_dva(asize, k), psize),
        ),
        got != checksum@,
    ensures
        !yolo_candidate(devs, asize, n, p, checksum, psize, table, k),
{
}

} // verus!
