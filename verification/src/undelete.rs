//! Orphan recovery: fragment candidates parsed from raw offsets, the
//! parent/child graph over them, and aggregated reads across equivalent
//! file fragments.

use vstd::prelude::*;
use crate::byte_reader::read_bytes;
use crate::dmu::{
    dnode_block_read_valid,
    DNode,
    DNodeDirectoryContents,
    DNodePlainFileContents,
    ObjSet,
};
use crate::fletcher::{checksum_eq, do_fletcher4};
use crate::zio::{bp_deref_wf_check, BlockPointer};
use crate::VdevRaidz;

verus! {

broadcast use vstd::slice::axiom_spec_len;

/// The recursion cap of fragment expansion.
pub const EXPAND_DEPTH_LIMIT: u64 = 8;

/// Whether two half-open ranges share a point.
pub fn overlaps(start1: u64, end1: u64, start2: u64, end2: u64) -> (r: bool)
    ensures
        r == (start1 < end2 && start2 < end1),
{
    start1 < end2 && start2 < end1
}

/// Parse a checksum printed as four comma-separated decimal numbers in
/// square brackets.
pub fn parse_checksum_from_str(s: &[u8]) -> (r: Result<[u64; 4], ()>)
    ensures
        s@.len() < 2 ==> r is Err,
{
    let n: usize = s.len();
    if n < 2 {
        return Err(());
    }
    let mut parts: Vec<u64> = Vec::new();
    let mut cur: u64 = 0;
    let mut have_digit: bool = false;
    let mut i: usize = 0;
    while i < n
        invariant
            n == s@.len(),
            i <= n,
            parts@.len() <= 4,
        decreases n - i,
    {
        let b = s[i];
        if b >= 48 && b <= 57 {
            if cur > 0x28F5C28F5C28F5B {
                return Err(());
            }
            cur = cur * 10 + (b - 48) as u64;
            have_digit = true;
        } else if b == 44 {
            if !have_digit || parts.len() >= 4 {
                return Err(());
            }
            parts.push(cur);
            cur = 0;
            have_digit = false;
        } else if b == 91 || b == 93 || b == 32 || b == 9 || b == 10 || b == 13 {
        } else {
            return Err(());
        }
        i = i + 1;
    }
    if !have_digit || parts.len() != 3 {
        return Err(());
    }
    parts.push(cur);
    Ok([parts[0], parts[1], parts[2], parts[3]])
}

/// Parse a hash printed as four comma-separated decimal numbers in square
/// brackets.
pub fn parse_hsh_from_str(s: &[u8]) -> (r: Result<[u64; 4], ()>)
    ensures
        s@.len() < 2 ==> r is Err,
{
    parse_checksum_from_str(s)
}

/// A block of pointers as recovered from raw bytes: one slot per 128-byte
/// window, kept only when it parsed and dereferenced.
pub struct IndirectBlock {
    pub bps: Vec<Option<BlockPointer>>,
}

/// The logical size of the first present pointer from index `i` on; zero
/// when none is present.
pub open spec fn first_present_lsize(bps: Seq<Option<BlockPointer>>, i: int) -> int
    decreases bps.len() - i,
{
    if i < 0 || i >= bps.len() {
        0
    } else {
        match bps[i] {
            Some(bp) => crate::zio::bp_lsize(bp),
            None => first_present_lsize(bps, i + 1),
        }
    }
}

/// What one slot of the gap-filled concatenation holds: a present
/// pointer's resolved bytes of the common length `l`, or `l` zero bytes.
pub open spec fn gap_slot_ok(
    bps: Seq<Option<BlockPointer>>,
    d: Seq<u8>,
    l: int,
    k: int,
) -> bool {
    match bps[k] {
        Some(bp) => crate::zio::bp_lsize(bp) == l && crate::dmu::bp_data_valid(
            bp,
            d.subrange(k * l, (k + 1) * l),
        ),
        None => forall|x: int| 0 <= x < l ==> #[trigger] d[k * l + x] == 0,
    }
}

/// The gap-filled concatenation in full: a common in-range block size,
/// the total length, and every slot either resolved or zero filled.
pub open spec fn gaps_result_ok(bps: Seq<Option<BlockPointer>>, d: Seq<u8>) -> bool {
    let l = first_present_lsize(bps, 0);
    &&& 1 <= l
    &&& l <= 0x100_0000
    &&& d.len() == bps.len() * l
    &&& forall|k: int| 0 <= k < bps.len() ==> #[trigger] gap_slot_ok(bps, d, l, k)
}

/// A slot's claim survives appending bytes past the end of the filled
/// prefix.
proof fn lemma_gap_slot_extend(
    bps: Seq<Option<BlockPointer>>,
    d1: Seq<u8>,
    d2: Seq<u8>,
    l: int,
    kk: int,
)
    requires
        0 <= kk,
        0 < l,
        (kk + 1) * l <= d1.len(),
        d2.len() >= d1.len(),
        forall|ii: int| 0 <= ii < d1.len() ==> #[trigger] d2[ii] == d1[ii],
        gap_slot_ok(bps, d1, l, kk),
    ensures
        gap_slot_ok(bps, d2, l, kk),
{
    assert(0 <= kk * l && kk * l < (kk + 1) * l) by (nonlinear_arith)
        requires
            0 <= kk,
            0 < l,
    ;
    assert((kk + 1) * l == kk * l + l) by (nonlinear_arith);
    match bps[kk] {
        Some(bp) => {
            assert(d2.subrange(kk * l, (kk + 1) * l) =~= d1.subrange(kk * l, (kk + 1) * l));
        },
        None => {
            assert forall|x: int| 0 <= x < l implies #[trigger] d2[kk * l + x] == 0 by {
                assert(d1[kk * l + x] == 0);
            }
        },
    }
}

/// Skipping absent slots does not change the first present size.
proof fn lemma_first_present_skip(bps: Seq<Option<BlockPointer>>, i: int)
    requires
        0 <= i <= bps.len(),
        forall|j: int| 0 <= j < i ==> (#[trigger] bps[j]) is None,
    ensures
        first_present_lsize(bps, 0) == first_present_lsize(bps, i),
    decreases i,
{
    if i > 0 {
        lemma_first_present_skip(bps, i - 1);
    }
}

impl IndirectBlock {
    /// Parse every 128-byte window of `data` (a trailing partial window
    /// counts as an absent slot); a pointer is kept only when it parses
    /// and resolves.  A block with no resolving pointer is not an
    /// indirect block.
    pub fn from_bytes_le(data: &[u8], vdevs: &mut VdevRaidz) -> (r: Option<IndirectBlock>)
        requires
            old(vdevs).wf(),
        ensures
            final(vdevs).wf(),
            VdevRaidz::same_geometry(*old(vdevs), *final(vdevs)),
            match r {
                Some(ib) => {
                    &&& ib.bps@.len() == (data@.len() + 127) as int / 128
                    &&& (forall|i: int|
                        0 <= i < ib.bps@.len() && (#[trigger] ib.bps@[i]) is Some ==> 128 * i
                            + 128 <= data@.len() && crate::zio::bp_matches(
                            ib.bps@[i]->Some_0,
                            data@,
                            128 * i,
                        ))
                    &&& (exists|i: int| 0 <= i < ib.bps@.len() && (#[trigger] ib.bps@[i]) is Some)
                },
                None => true,
            },
    {
        let mut res: Vec<Option<BlockPointer>> = Vec::new();
        let mut found_any: bool = false;
        let ghost mut wit: int = 0;
        let total: usize = data.len() / 128;
        proof {
            crate::arith::lemma_le_div_iff(total as int, 128, data@.len() as int);
        }
        let mut i: usize = 0;
        while i < total
            invariant
                old(vdevs).wf(),
                vdevs.wf(),
                VdevRaidz::same_geometry(*old(vdevs), *vdevs),
                total == data@.len() as int / 128,
                total * 128 <= usize::MAX,
                i <= total,
                res@.len() == i,
                forall|q: int|
                    0 <= q < res@.len() && (#[trigger] res@[q]) is Some ==> 128 * q + 128
                        <= data@.len() && crate::zio::bp_matches(
                        res@[q]->Some_0,
                        data@,
                        128 * q,
                    ),
                found_any ==> 0 <= wit < res@.len() && res@[wit] is Some,
            decreases total - i,
        {
            proof {
                crate::arith::lemma_le_div_iff(total as int, 128, data@.len() as int);
                assert((i as int + 1) * 128 <= total as int * 128) by (nonlinear_arith)
                    requires
                        i as int + 1 <= total as int,
                ;
            }
            match BlockPointer::from_bytes_le(data, i * 128) {
                Some(bp) => {
                    proof {
                        crate::zio::lemma_bp_matches_deref_wf(bp, data@, i as int * 128);
                    }
                    match bp.dereference(vdevs) {
                        Ok(_) => {
                            res.push(Some(bp));
                            proof {
                                wit = res@.len() - 1;
                                assert(res@[wit] is Some);
                            }
                            found_any = true;
                        },
                        Err(_) => {
                            res.push(None);
                        },
                    }
                },
                None => {
                    res.push(None);
                },
            }
            i = i + 1;
        }
        if data.len() % 128 != 0 {
            // The trailing partial window can never parse as a pointer.
            res.push(None);
            proof {
                vstd::arithmetic::div_mod::lemma_fundamental_div_mod(data@.len() as int, 128);
                assert(res@.len() == (data@.len() + 127) as int / 128) by (nonlinear_arith)
                    requires
                        res@.len() == data@.len() as int / 128 + 1,
                        data@.len() as int == 128 * (data@.len() as int / 128) + data@.len()
                            as int % 128,
                        0 < data@.len() as int % 128 < 128,
                ;
            }
        } else {
            proof {
                vstd::arithmetic::div_mod::lemma_fundamental_div_mod(data@.len() as int, 128);
                assert(res@.len() == (data@.len() + 127) as int / 128) by (nonlinear_arith)
                    requires
                        res@.len() == data@.len() as int / 128,
                        data@.len() as int == 128 * (data@.len() as int / 128),
                ;
            }
        }
        if !found_any {
            return None;
        }
        proof {
            assert(res@[wit] is Some);
        }
        Some(IndirectBlock { bps: res })
    }

    /// Concatenate the data of every pointer: each present pointer
    /// contributes its resolved bytes, each absent slot the common block
    /// size of zeroes; pointers of unequal sizes reject the block.
    #[verifier::rlimit(60)]
    pub fn get_data_with_gaps(&self, vdevs: &mut VdevRaidz) -> (r: Option<Vec<u8>>)
        requires
            old(vdevs).wf(),
        ensures
            final(vdevs).wf(),
            VdevRaidz::same_geometry(*old(vdevs), *final(vdevs)),
            match r {
                Some(d) => gaps_result_ok(self.bps@, d@),
                None => true,
            },
    {
        let ghost big_l = first_present_lsize(self.bps@, 0);
        let mut chunk_size: u64 = 0;
        let nb: usize = self.bps.len();
        let mut i: usize = 0;
        let mut found: bool = false;
        while i < nb
            invariant_except_break
                !found,
            invariant
                i <= nb,
                nb == self.bps@.len(),
                forall|j: int| 0 <= j < i ==> (#[trigger] self.bps@[j]) is None,
            ensures
                found ==> i < nb && self.bps@[i as int] is Some && chunk_size
                    == crate::zio::bp_lsize(self.bps@[i as int]->Some_0),
                !found ==> i == nb,
            decreases nb - i,
        {
            match &self.bps[i] {
                Some(bp) => {
                    chunk_size = bp.parse_logical_size();
                    found = true;
                    break ;
                },
                None => {},
            }
            i = i + 1;
        }
        proof {
            if found {
                lemma_first_present_skip(self.bps@, i as int);
                assert(big_l == chunk_size as int);
            }
        }
        if !found || chunk_size == 0 || chunk_size > 0x100_0000 {
            return None;
        }
        let csize: usize = chunk_size as usize;
        let mut res: Vec<u8> = Vec::new();
        let mut k: usize = 0;
        while k < nb
            invariant
                old(vdevs).wf(),
                vdevs.wf(),
                VdevRaidz::same_geometry(*old(vdevs), *vdevs),
                k <= nb,
                nb == self.bps@.len(),
                nb <= usize::MAX,
                1 <= csize <= 0x100_0000,
                csize as int == big_l,
                big_l == first_present_lsize(self.bps@, 0),
                res@.len() == k * big_l,
                forall|kk: int|
                    0 <= kk < k ==> #[trigger] gap_slot_ok(self.bps@, res@, big_l, kk),
            decreases nb - k,
        {
            let ghost res0 = res@;
            proof {
                assert((k as int + 1) * big_l == k as int * big_l + big_l) by (nonlinear_arith);
                assert(k as int * big_l <= nb as int * big_l && (k as int + 1) * big_l
                    <= nb as int * big_l) by (nonlinear_arith)
                    requires
                        0 <= k as int,
                        k as int + 1 <= nb as int,
                        big_l >= 0,
                ;
            }
            match &self.bps[k] {
                Some(bp) => {
                    if bp.parse_logical_size() != csize as u64 {
                        return None;
                    }
                    if !bp_deref_wf_check(bp) {
                        return None;
                    }
                    let data = match bp.dereference(vdevs) {
                        Ok(d) => d,
                        Err(_) => {
                            return None;
                        },
                    };
                    if data.len() != csize {
                        return None;
                    }
                    let mut data2 = data;
                    let ghost dv = data2@;
                    proof {
                        assert(crate::dmu::bp_data_valid(*bp, dv));
                        assert(crate::zio::bp_lsize(*bp) == big_l);
                        assert(self.bps@[k as int] == Some(*bp));
                    }
                    res.append(&mut data2);
                    proof {
                        assert(res@.take(res0.len() as int) =~= res0);
                        assert(res@.subrange(k as int * big_l, (k as int + 1) * big_l) =~= dv);
                        assert(gap_slot_ok(self.bps@, res@, big_l, k as int));
                    }
                },
                None => {
                    proof {
                        assert(res@.take(res0.len() as int) =~= res0);
                    }
                    let mut z: usize = 0;
                    while z < csize
                        invariant
                            z <= csize,
                            res@.len() == res0.len() + z,
                            forall|x: int| 0 <= x < z ==> #[trigger] res@[res0.len() + x] == 0,
                            res@.take(res0.len() as int) == res0,
                        decreases csize - z,
                    {
                        res.push(0u8);
                        proof {
                            assert(res@.take(res0.len() as int) =~= res0);
                        }
                        z = z + 1;
                    }
                    proof {
                        assert(gap_slot_ok(self.bps@, res@, big_l, k as int));
                    }
                },
            }
            proof {
                assert(res@.take(res0.len() as int) == res0);
                assert forall|ii: int|
                    0 <= ii < res0.len() implies #[trigger] res@[ii] == res0[ii] by {
                    assert(res0[ii] == res@.take(res0.len() as int)[ii]);
                }
                assert forall|kk: int|
                    0 <= kk < k + 1 implies #[trigger] gap_slot_ok(
                    self.bps@,
                    res@,
                    big_l,
                    kk,
                ) by {
                    if kk < k {
                        assert((kk + 1) * big_l <= k as int * big_l) by (nonlinear_arith)
                            requires
                                kk + 1 <= k as int,
                                big_l >= 0,
                        ;
                        lemma_gap_slot_extend(self.bps@, res0, res@, big_l, kk);
                    }
                }
            }
            k = k + 1;
        }
        Some(res)
    }
}

/// The body of a recovered fragment.
pub enum FragmentData {
    FileDNode(DNodePlainFileContents),
    DirectoryDNode(DNodeDirectoryContents, Vec<Vec<u8>>),
    ObjSetDNode(ObjSet),
    IndirectBlock(IndirectBlock),
}

/// A recovered fragment: its body and the hashes of its known children.
pub struct Fragment {
    pub data: FragmentData,
    pub children: Vec<[u64; 4]>,
}

impl Fragment {
    pub fn from_data(data: FragmentData) -> (r: Fragment)
        ensures
            r.children@.len() == 0,
    {
        Fragment { data, children: Vec::new() }
    }

    /// Record `h` as a child if it is not yet known.
    pub fn add_child(&mut self, h: [u64; 4]) {
        let n: usize = self.children.len();
        let mut i: usize = 0;
        while i < n
            invariant
                i <= n,
                n == self.children@.len(),
            decreases n - i,
        {
            if checksum_eq(&self.children[i], &h) {
                return ;
            }
            i = i + 1;
        }
        self.children.push(h);
    }

    /// Whether `h` is a known child.
    pub fn has_child(&self, h: &[u64; 4]) -> (r: bool) {
        let n: usize = self.children.len();
        let mut i: usize = 0;
        while i < n
            invariant
                i <= n,
                n == self.children@.len(),
            decreases n - i,
        {
            if checksum_eq(&self.children[i], h) {
                return true;
            }
            i = i + 1;
        }
        false
    }

    /// Whether this fragment is a child of `potential_parent`: decided by
    /// the kinds of the two fragments and by hashing what the parent's
    /// pointers resolve to.
    pub fn is_child_of(
        &self,
        vdevs: &mut VdevRaidz,
        self_hash: &[u64; 4],
        potential_parent: &Fragment,
    ) -> (r: bool)
        requires
            old(vdevs).wf(),
        ensures
            final(vdevs).wf(),
            VdevRaidz::same_geometry(*old(vdevs), *final(vdevs)),
    {
        if potential_parent.has_child(self_hash) {
            return true;
        }
        match (&potential_parent.data, &self.data) {
            (FragmentData::IndirectBlock(parent), FragmentData::IndirectBlock(_)) => {
                opt_bps_point_to_hash(&parent.bps, vdevs, self_hash)
            },
            (FragmentData::IndirectBlock(parent), FragmentData::FileDNode(_))
            | (FragmentData::IndirectBlock(parent), FragmentData::DirectoryDNode(_, _)) => {
                let parent_data = match parent.get_data_with_gaps(vdevs) {
                    Some(d) => d,
                    None => {
                        return false;
                    },
                };
                let found = search_le_bytes_for_dnodes(parent_data.as_slice(), vdevs);
                let nf: usize = found.len();
                let mut i: usize = 0;
                while i < nf
                    invariant
                        old(vdevs).wf(),
                        vdevs.wf(),
                        VdevRaidz::same_geometry(*old(vdevs), *vdevs),
                        i <= nf,
                        nf == found@.len(),
                    decreases nf - i,
                {
                    if checksum_eq(&found[i].0, self_hash) {
                        return true;
                    }
                    i = i + 1;
                }
                false
            },
            (FragmentData::ObjSetDNode(parent), FragmentData::IndirectBlock(_)) => {
                bps_point_to_hash(parent.metadnode.get_block_pointers(), vdevs, self_hash)
            },
            (FragmentData::DirectoryDNode(parent, _), FragmentData::IndirectBlock(_)) => {
                bps_point_to_hash(parent.0.get_block_pointers(), vdevs, self_hash)
            },
            (FragmentData::FileDNode(parent), FragmentData::IndirectBlock(_)) => {
                bps_point_to_hash(parent.0.get_block_pointers(), vdevs, self_hash)
            },
            _ => false,
        }
    }
}

/// Whether some present pointer of `bps` resolves to data hashing to
/// `target`.
fn opt_bps_point_to_hash(
    bps: &Vec<Option<BlockPointer>>,
    vdevs: &mut VdevRaidz,
    target: &[u64; 4],
) -> (r: bool)
    requires
        old(vdevs).wf(),
    ensures
        final(vdevs).wf(),
        VdevRaidz::same_geometry(*old(vdevs), *final(vdevs)),
{
    let n: usize = bps.len();
    let mut i: usize = 0;
    while i < n
        invariant
            old(vdevs).wf(),
            vdevs.wf(),
            VdevRaidz::same_geometry(*old(vdevs), *vdevs),
            i <= n,
            n == bps@.len(),
        decreases n - i,
    {
        match &bps[i] {
            Some(bp) => {
                if bp_deref_wf_check(bp) {
                    match bp.dereference(vdevs) {
                        Ok(data) => {
                            let hsh = do_fletcher4(data.as_slice());
                            if checksum_eq(&hsh, target) {
                                return true;
                            }
                        },
                        Err(_) => {},
                    }
                }
            },
            None => {},
        }
        i = i + 1;
    }
    false
}

/// Whether some pointer of `bps` resolves to data hashing to `target`.
fn bps_point_to_hash(bps: &Vec<BlockPointer>, vdevs: &mut VdevRaidz, target: &[u64; 4]) -> (r:
    bool)
    requires
        old(vdevs).wf(),
    ensures
        final(vdevs).wf(),
        VdevRaidz::same_geometry(*old(vdevs), *final(vdevs)),
{
    let n: usize = bps.len();
    let mut i: usize = 0;
    while i < n
        invariant
            old(vdevs).wf(),
            vdevs.wf(),
            VdevRaidz::same_geometry(*old(vdevs), *vdevs),
            i <= n,
            n == bps@.len(),
        decreases n - i,
    {
        let bp = &bps[i];
        if bp_deref_wf_check(bp) {
            match bp.dereference(vdevs) {
                Ok(data) => {
                    let hsh = do_fletcher4(data.as_slice());
                    if checksum_eq(&hsh, target) {
                        return true;
                    }
                },
                Err(_) => {},
            }
        }
        i = i + 1;
    }
    false
}

/// Scan 512-byte aligned windows of `data` for object sets and file or
/// directory DNodes whose pointers resolve; each hit is keyed by the
/// fletcher4 of its bytes.
pub fn search_le_bytes_for_dnodes(data: &[u8], vdevs: &mut VdevRaidz) -> (r: Vec<
    ([u64; 4], Fragment),
>)
    requires
        old(vdevs).wf(),
    ensures
        final(vdevs).wf(),
        VdevRaidz::same_geometry(*old(vdevs), *final(vdevs)),
{
    let mut res: Vec<([u64; 4], Fragment)> = Vec::new();
    let nsectors: usize = data.len() / 512;
    proof {
        crate::arith::lemma_le_div_iff(nsectors as int, 512, data@.len() as int);
    }
    let mut s: usize = 0;
    while s < nsectors
        invariant
            old(vdevs).wf(),
            vdevs.wf(),
            VdevRaidz::same_geometry(*old(vdevs), *vdevs),
            s <= nsectors,
            nsectors == data@.len() as int / 512,
            nsectors * 512 <= usize::MAX,
        decreases nsectors - s,
    {
        proof {
            crate::arith::lemma_le_div_iff(nsectors as int, 512, data@.len() as int);
            assert((s as int + 1) * 512 <= nsectors as int * 512) by (nonlinear_arith)
                requires
                    s as int + 1 <= nsectors as int,
            ;
        }
        // An object-set candidate: this sector and the next, when there is
        // one.
        let avail: usize = if s + 2 <= nsectors {
            1024
        } else {
            512
        };
        let objset_data = read_bytes(data, s * 512, avail);
        if avail >= 512 {
            match ObjSet::from_bytes_le(objset_data.as_slice(), 0) {
                Some(objset) => {
                    if bps_resolve_any(objset.metadnode.get_block_pointers(), vdevs) {
                        let hash = do_fletcher4(objset_data.as_slice());
                        res.push((hash, Fragment::from_data(FragmentData::ObjSetDNode(objset))));
                    }
                },
                None => {},
            }
        }
        // A DNode candidate spanning its declared slots.
        let nslots: usize = DNode::get_n_slots_from_bytes_le(data, s * 512);
        let limit: usize = if nslots > nsectors - s {
            nsectors - s
        } else {
            nslots
        };
        if limit >= 1 {
            let dnode_data = read_bytes(data, s * 512, limit * 512);
            proof {
                assert((s as int + limit as int) * 512 <= nsectors as int * 512)
                    by (nonlinear_arith)
                    requires
                        s as int + limit as int <= nsectors as int,
                ;
                assert(s as int * 512 + limit as int * 512 == (s as int + limit as int) * 512)
                    by (nonlinear_arith);
            }
            let hash = do_fletcher4(dnode_data.as_slice());
            if dnode_data.len() >= 64 {
                match DNode::from_bytes_le(dnode_data.as_slice(), 0) {
                    Some(DNode::PlainFileContents(f)) => {
                        if bps_resolve_any(f.0.get_block_pointers(), vdevs) {
                            res.push(
                                (hash, Fragment::from_data(FragmentData::FileDNode(f))),
                            );
                        }
                    },
                    Some(DNode::DirectoryContents(d)) => {
                        if bps_resolve_any(d.0.get_block_pointers(), vdevs) {
                            match d.dump_zap_contents(vdevs) {
                                Some(contents) => {
                                    let mut names: Vec<Vec<u8>> = Vec::new();
                                    let nc: usize = contents.len();
                                    let mut c: usize = 0;
                                    while c < nc
                                        invariant
                                            old(vdevs).wf(),
                                            vdevs.wf(),
                                            VdevRaidz::same_geometry(*old(vdevs), *vdevs),
                                            c <= nc,
                                            nc == contents@.len(),
                                        decreases nc - c,
                                    {
                                        names.push(
                                            read_bytes(
                                                contents[c].0.as_slice(),
                                                0,
                                                contents[c].0.len(),
                                            ),
                                        );
                                        c = c + 1;
                                    }
                                    res.push(
                                        (
                                            hash,
                                            Fragment::from_data(
                                                FragmentData::DirectoryDNode(d, names),
                                            ),
                                        ),
                                    );
                                },
                                None => {},
                            }
                        }
                    },
                    _ => {},
                }
            }
        }
        s = s + 1;
    }
    res
}

/// Whether any pointer of `bps` resolves.
fn bps_resolve_any(bps: &Vec<BlockPointer>, vdevs: &mut VdevRaidz) -> (r: bool)
    requires
        old(vdevs).wf(),
    ensures
        final(vdevs).wf(),
        VdevRaidz::same_geometry(*old(vdevs), *final(vdevs)),
{
    let n: usize = bps.len();
    let mut i: usize = 0;
    while i < n
        invariant
            old(vdevs).wf(),
            vdevs.wf(),
            VdevRaidz::same_geometry(*old(vdevs), *vdevs),
            i <= n,
            n == bps@.len(),
        decreases n - i,
    {
        let bp = &bps[i];
        if bp_deref_wf_check(bp) {
            match bp.dereference(vdevs) {
                Ok(_) => {
                    return true;
                },
                Err(_) => {},
            }
        }
        i = i + 1;
    }
    false
}

/// Resolve each pointer and keep what parses as a further indirect
/// block.
fn collect_indirect_children(
    bps: &Vec<BlockPointer>,
    vdevs: &mut VdevRaidz,
    out: &mut Vec<([u64; 4], Fragment)>,
)
    requires
        old(vdevs).wf(),
    ensures
        final(vdevs).wf(),
        VdevRaidz::same_geometry(*old(vdevs), *final(vdevs)),
{
    let n: usize = bps.len();
    let mut i: usize = 0;
    while i < n
        invariant
            old(vdevs).wf(),
            vdevs.wf(),
            VdevRaidz::same_geometry(*old(vdevs), *vdevs),
            i <= n,
            n == bps@.len(),
        decreases n - i,
    {
        let bp = &bps[i];
        if bp_deref_wf_check(bp) {
            match bp.dereference(vdevs) {
                Ok(data) => {
                    match IndirectBlock::from_bytes_le(data.as_slice(), vdevs) {
                        Some(ib) => {
                            let hsh = do_fletcher4(data.as_slice());
                            out.push((hsh, Fragment::from_data(FragmentData::IndirectBlock(ib))));
                        },
                        None => {},
                    }
                },
                Err(_) => {},
            }
        }
        i = i + 1;
    }
}

/// Expand a fragment: resolve its pointers, parse what they point to as
/// further fragments, record them as children, and recurse to the depth
/// cap.
pub fn expand_fragment(
    fragment_to_expand: &mut Fragment,
    vdevs: &mut VdevRaidz,
    depth: u64,
) -> (r: Option<Vec<([u64; 4], Fragment)>>)
    requires
        old(vdevs).wf(),
    ensures
        final(vdevs).wf(),
        VdevRaidz::same_geometry(*old(vdevs), *final(vdevs)),
    decreases depth,
{
    if depth == 0 {
        return None;
    }
    let mut subfragments: Vec<([u64; 4], Fragment)> = Vec::new();
    let mut from_indirect: Option<Vec<u8>> = None;
    match &fragment_to_expand.data {
        FragmentData::FileDNode(f) => {
            collect_indirect_children(f.0.get_block_pointers(), vdevs, &mut subfragments);
        },
        FragmentData::DirectoryDNode(d, _) => {
            collect_indirect_children(d.0.get_block_pointers(), vdevs, &mut subfragments);
        },
        FragmentData::ObjSetDNode(os) => {
            collect_indirect_children(
                os.metadnode.get_block_pointers(),
                vdevs,
                &mut subfragments,
            );
        },
        FragmentData::IndirectBlock(_) => {},
    }
    match &fragment_to_expand.data {
        FragmentData::IndirectBlock(indir) => {
            let nb: usize = indir.bps.len();
            let mut i: usize = 0;
            while i < nb
                invariant
                    old(vdevs).wf(),
                    vdevs.wf(),
                    VdevRaidz::same_geometry(*old(vdevs), *vdevs),
                    i <= nb,
                    nb == indir.bps@.len(),
                decreases nb - i,
            {
                match &indir.bps[i] {
                    Some(bp) => {
                        if bp_deref_wf_check(bp) {
                            match bp.dereference(vdevs) {
                                Ok(data) => {
                                    match IndirectBlock::from_bytes_le(
                                        data.as_slice(),
                                        vdevs,
                                    ) {
                                        Some(ib) => {
                                            let hsh = do_fletcher4(data.as_slice());
                                            subfragments.push(
                                                (
                                                    hsh,
                                                    Fragment::from_data(
                                                        FragmentData::IndirectBlock(ib),
                                                    ),
                                                ),
                                            );
                                        },
                                        None => {},
                                    }
                                },
                                Err(_) => {},
                            }
                        }
                    },
                    None => {},
                }
                i = i + 1;
            }
            let ib2 = match &fragment_to_expand.data {
                FragmentData::IndirectBlock(ib) => ib,
                _ => {
                    return None;
                },
            };
            from_indirect = ib2.get_data_with_gaps(vdevs);
        },
        _ => {},
    }
    match from_indirect {
        Some(data) => {
            let mut more = search_le_bytes_for_dnodes(data.as_slice(), vdevs);
            subfragments.append(&mut more);
        },
        None => {},
    }
    let ns: usize = subfragments.len();
    let mut k: usize = 0;
    while k < ns
        invariant
            k <= ns,
            ns <= subfragments@.len(),
        decreases ns - k,
    {
        let h = subfragments[k].0;
        fragment_to_expand.add_child(h);
        k = k + 1;
    }
    let mut all: Vec<([u64; 4], Fragment)> = Vec::new();
    let mut k2: usize = 0;
    while k2 < ns
        invariant
            old(vdevs).wf(),
            vdevs.wf(),
            VdevRaidz::same_geometry(*old(vdevs), *vdevs),
            k2 <= ns,
            ns <= subfragments@.len(),
            depth >= 1,
        decreases ns - k2,
    {
        let mut sub = match vec_take_at(&mut subfragments, k2) {
            Some(s) => s,
            None => {
                return None;
            },
        };
        match expand_fragment(&mut sub.1, vdevs, depth - 1) {
            Some(mut deeper) => {
                all.append(&mut deeper);
            },
            None => {},
        }
        all.push(sub);
        k2 = k2 + 1;
    }
    Some(all)
}

/// Take the element at `i` out, replacing it with an empty marker, so it
/// can be expanded while the rest of the list stays addressable.
fn vec_take_at(v: &mut Vec<([u64; 4], Fragment)>, i: usize) -> (r: Option<([u64; 4], Fragment)>)
    ensures
        final(v)@.len() == old(v)@.len(),
        r is Some <==> i < old(v)@.len(),
{
    if i >= v.len() {
        return None;
    }
    let placeholder: ([u64; 4], Fragment) = (
        [0u64, 0, 0, 0],
        Fragment {
            data: FragmentData::IndirectBlock(IndirectBlock { bps: Vec::new() }),
            children: Vec::new(),
        },
    );
    let ghost len0 = v@.len();
    v.push(placeholder);
    let r = v.swap_remove(i);
    Some(r)
}

/// Link fragments: find each fragment's children among the others and
/// return the hashes that no fragment claims as a child (the roots).
pub fn build_graph(nodes: &mut Vec<([u64; 4], Fragment)>, vdevs: &mut VdevRaidz) -> (r: Vec<
    [u64; 4],
>)
    requires
        old(vdevs).wf(),
    ensures
        final(vdevs).wf(),
        VdevRaidz::same_geometry(*old(vdevs), *final(vdevs)),
{
    let n: usize = nodes.len();
    let mut edges: Vec<(usize, [u64; 4])> = Vec::new();
    let mut is_root: Vec<bool> = Vec::new();
    let mut i0: usize = 0;
    while i0 < n
        invariant
            i0 <= n,
            is_root@.len() == i0,
        decreases n - i0,
    {
        is_root.push(true);
        i0 = i0 + 1;
    }
    let mut i: usize = 0;
    while i < n
        invariant
            old(vdevs).wf(),
            vdevs.wf(),
            VdevRaidz::same_geometry(*old(vdevs), *vdevs),
            i <= n,
            n == nodes@.len(),
            is_root@.len() == n,
        decreases n - i,
    {
        let mut j: usize = 0;
        while j < n
            invariant
                old(vdevs).wf(),
                vdevs.wf(),
                VdevRaidz::same_geometry(*old(vdevs), *vdevs),
                i < n,
                j <= n,
                n == nodes@.len(),
                is_root@.len() == n,
            decreases n - j,
        {
            if i != j {
                let hash_j = nodes[j].0;
                let child = nodes[j].1.is_child_of(vdevs, &hash_j, &nodes[i].1);
                if child {
                    edges.push((i, hash_j));
                    is_root.set(j, false);
                }
            }
            j = j + 1;
        }
        i = i + 1;
    }
    let ne: usize = edges.len();
    let mut e: usize = 0;
    while e < ne
        invariant
            e <= ne,
            ne == edges@.len(),
            n == nodes@.len(),
        decreases ne - e,
    {
        let (idx, h) = (edges[e].0, edges[e].1);
        if idx < nodes.len() {
            let node = &mut nodes[idx];
            node.1.add_child(h);
        }
        e = e + 1;
    }
    let mut roots: Vec<[u64; 4]> = Vec::new();
    let mut q: usize = 0;
    while q < n
        invariant
            q <= n,
            n == nodes@.len(),
            is_root@.len() == n,
        decreases n - q,
    {
        if is_root[q] {
            roots.push(nodes[q].0);
        }
        q = q + 1;
    }
    roots
}

/// Read logical block `block_id` by trying each file fragment in order
/// and returning the first block that resolves, with the hash of the
/// fragment that served it.
pub fn aggregated_read_block(
    block_id: u64,
    fragments: &Vec<([u64; 4], Fragment)>,
    vdevs: &mut VdevRaidz,
) -> (r: Result<(Vec<u8>, [u64; 4]), ()>)
    requires
        old(vdevs).wf(),
    ensures
        final(vdevs).wf(),
        VdevRaidz::same_geometry(*old(vdevs), *final(vdevs)),
        match r {
            Ok(p) => exists|j: int|
                0 <= j < fragments@.len() && (#[trigger] fragments@[j]).1.data
                    is FileDNode && dnode_block_read_valid(
                    fragments@[j].1.data->FileDNode_0.0,
                    block_id as int,
                    p.0@,
                ) && fragments@[j].0@ == p.1@,
            Err(_) => true,
        },
{
    let n: usize = fragments.len();
    let mut i: usize = 0;
    while i < n
        invariant
            old(vdevs).wf(),
            vdevs.wf(),
            VdevRaidz::same_geometry(*old(vdevs), *vdevs),
            i <= n,
            n == fragments@.len(),
        decreases n - i,
    {
        match &fragments[i].1.data {
            FragmentData::FileDNode(f) => {
                match f.0.read_block(block_id, vdevs) {
                    Ok(data) => {
                        let h = fragments[i].0;
                        proof {
                            assert((fragments@[i as int]).1.data is FileDNode);
                            assert(h@ == fragments@[i as int].0@);
                        }
                        return Ok((data, h));
                    },
                    Err(_) => {},
                }
            },
            _ => {},
        }
        i = i + 1;
    }
    Err(())
}

/// Collect, for `block_id`, the hash of each readable copy of the block
/// across the file fragments.
pub fn aggregated_lookup_block(
    block_id: u64,
    fragments: &Vec<([u64; 4], Fragment)>,
    vdevs: &mut VdevRaidz,
) -> (r: Result<Vec<[u64; 4]>, ()>)
    requires
        old(vdevs).wf(),
    ensures
        final(vdevs).wf(),
        VdevRaidz::same_geometry(*old(vdevs), *final(vdevs)),
{
    let mut hashes: Vec<[u64; 4]> = Vec::new();
    let n: usize = fragments.len();
    let mut i: usize = 0;
    while i < n
        invariant
            old(vdevs).wf(),
            vdevs.wf(),
            VdevRaidz::same_geometry(*old(vdevs), *vdevs),
            i <= n,
            n == fragments@.len(),
        decreases n - i,
    {
        match &fragments[i].1.data {
            FragmentData::FileDNode(f) => {
                match f.0.read_block(block_id, vdevs) {
                    Ok(data) => {
                        hashes.push(do_fletcher4(data.as_slice()));
                    },
                    Err(_) => {},
                }
            },
            _ => {},
        }
        i = i + 1;
    }
    Ok(hashes)
}

/// The views of a list of byte buffers, in order.
pub open spec fn seq_views(blocks: Seq<Vec<u8>>) -> Seq<Seq<u8>> {
    blocks.map_values(|b: Vec<u8>| b@)
}

/// Assemble one candidate of a damaged span: the chosen source blocks
/// concatenated, the bytes before the span dropped, and the result cut
/// or zero-padded to exactly `size` bytes.  Nothing is returned when the
/// sources do not even reach the span's start.
pub fn surgeon_assemble_candidate(blocks: &Vec<Vec<u8>>, skip: usize, size: usize) -> (r: Option<
    Vec<u8>,
>)
    ensures
        r is Some <==> skip <= seq_views(blocks@).flatten().len(),
        match r {
            Some(v) => {
                let flat = seq_views(blocks@).flatten();
                &&& v@.len() == size
                &&& forall|i: int|
                    0 <= i < size ==> v@[i] == (if skip + i < flat.len() {
                        flat[skip + i]
                    } else {
                        0u8
                    })
            },
            None => true,
        },
{
    broadcast use vstd::prelude::Seq::lemma_flatten_push;

    let mut flat: Vec<u8> = Vec::new();
    let ghost mut parts: Seq<Seq<u8>> = Seq::empty();
    proof {
        assert(parts.flatten() =~= flat@);
    }
    let nblocks: usize = blocks.len();
    let mut i: usize = 0;
    while i < nblocks
        invariant
            i <= nblocks,
            nblocks == blocks@.len(),
            parts.len() == i,
            forall|k: int| 0 <= k < i ==> parts[k] == (#[trigger] blocks@[k])@,
            flat@ == parts.flatten(),
        decreases nblocks - i,
    {
        let ghost parts_before = parts;
        let blen: usize = blocks[i].len();
        let mut j: usize = 0;
        while j < blen
            invariant
                j <= blen,
                i < nblocks,
                nblocks == blocks@.len(),
                blen == blocks@[i as int]@.len(),
                flat@ == parts_before.flatten() + blocks@[i as int]@.take(j as int),
            decreases blen - j,
        {
            flat.push(blocks[i][j]);
            proof {
                assert(blocks@[i as int]@.take(j as int + 1) =~= blocks@[i as int]@.take(
                    j as int,
                ).push(blocks@[i as int]@[j as int]));
                assert(flat@ =~= parts_before.flatten() + blocks@[i as int]@.take(j as int + 1));
            }
            j = j + 1;
        }
        proof {
            assert(blocks@[i as int]@.take(blen as int) =~= blocks@[i as int]@);
            parts = parts.push(blocks@[i as int]@);
            parts_before.lemma_flatten_push(blocks@[i as int]@);
            assert(flat@ =~= parts.flatten());
        }
        i = i + 1;
    }
    proof {
        assert(parts =~= seq_views(blocks@));
    }
    let flen: usize = flat.len();
    if skip > flen {
        return None;
    }
    let span: usize = flen - skip;
    let mut v: Vec<u8> = Vec::new();
    let mut k: usize = 0;
    while k < size
        invariant
            k <= size,
            skip + span == flen,
            flen == seq_views(blocks@).flatten().len(),
            flat@ == seq_views(blocks@).flatten(),
            v@.len() == k,
            forall|x: int|
                0 <= x < k ==> v@[x] == (if skip + x < flen as int {
                    flat@[skip + x]
                } else {
                    0u8
                }),
        decreases size - k,
    {
        if k < span {
            v.push(flat[skip + k]);
        } else {
            v.push(0u8);
        }
        k = k + 1;
    }
    Some(v)
}

/// Whether a buffer has the shape of a whole XZ stream: the six magic
/// bytes at the start and the two footer magic bytes at the end.
pub open spec fn xz_stream_shape(d: Seq<u8>) -> bool {
    &&& d.len() >= 8
    &&& d[0] == 0xFD
    &&& d[1] == 0x37
    &&& d[2] == 0x7A
    &&& d[3] == 0x58
    &&& d[4] == 0x5A
    &&& d[5] == 0x00
    &&& d[d.len() - 2] == 0x59
    &&& d[d.len() - 1] == 0x5A
}

/// Test an assembled candidate for the XZ stream shape.
pub fn xz_stream_shape_ok(data: &Vec<u8>) -> (r: bool)
    ensures
        r == xz_stream_shape(data@),
{
    let n: usize = data.len();
    if n < 8 {
        return false;
    }
    data[0] == 0xFD && data[1] == 0x37 && data[2] == 0x7A && data[3] == 0x58 && data[4] == 0x5A
        && data[5] == 0x00 && data[n - 2] == 0x59 && data[n - 1] == 0x5A
}

} // verus!
