//! The data management layer: object types, DNodes and their indirect
//! block trees, and object sets.

use vstd::prelude::*;
use crate::byte_reader::{le16, le64, read_bytes, read_u16_le, read_u64_le, read_u8};
use crate::zio::{
    checksum_method_value,
    compression_method_value,
    BlockPointer,
    ChecksumMethod,
    CompressionMethod,
};
use crate::VdevRaidz;

verus! {

broadcast use vstd::slice::axiom_spec_len;

#[derive(Debug, PartialEq, Eq, Clone, Copy, Structural)]
pub enum ObjType {
    Unallocated,
    ObjectDirectory,
    ObjectArray,
    PackedNVList,
    PackedNVListSize,
    BlockPointerList,
    BlockPointerListHeader,
    SpaceMapHeader,
    SpaceMap,
    IntentLog,
    DNode,
    ObjSet,
    DSLDirectory,
    DSLDirectoryChildMap,
    DSLDataSetSnapshotMap,
    DSLProperties,
    DSLDataset,
    ZNode,
    OldAccessControlList,
    PlainFileContents,
    DirectoryContents,
    MasterNode,
    DeleteQueue,
    ZVol,
    ZVolProperties,
    PlainOther,
    U64Other,
    ZapOther,
    ErrorLog,
    SpaHistory,
    SpaHistoryOffsets,
    PoolProperties,
    DSLPermissions,
    AccessControlList,
    SystemAccessControlList,
    FUidTable,
    FUidSize,
    NextClones,
    ScanQueue,
    UserGroupUsed,
    UserGroupQuota,
    UserRefs,
    DDTZap,
    DDTStats,
    SystemAttributes,
    SystemAttributesMasterNode,
    SystemAttributesRegistrations,
    SystemAttributesLayouts,
    ScanXLate,
    Dedup,
    DeadList,
    DeadListHeader,
    DSLClones,
    BlockPointerObjectSubObject,
}

/// The on-disk discriminant of the type tag.
pub open spec fn obj_type_value(t: ObjType) -> usize {
    match t {
        ObjType::Unallocated => 0,
        ObjType::ObjectDirectory => 1,
        ObjType::ObjectArray => 2,
        ObjType::PackedNVList => 3,
        ObjType::PackedNVListSize => 4,
        ObjType::BlockPointerList => 5,
        ObjType::BlockPointerListHeader => 6,
        ObjType::SpaceMapHeader => 7,
        ObjType::SpaceMap => 8,
        ObjType::IntentLog => 9,
        ObjType::DNode => 10,
        ObjType::ObjSet => 11,
        ObjType::DSLDirectory => 12,
        ObjType::DSLDirectoryChildMap => 13,
        ObjType::DSLDataSetSnapshotMap => 14,
        ObjType::DSLProperties => 15,
        ObjType::DSLDataset => 16,
        ObjType::ZNode => 17,
        ObjType::OldAccessControlList => 18,
        ObjType::PlainFileContents => 19,
        ObjType::DirectoryContents => 20,
        ObjType::MasterNode => 21,
        ObjType::DeleteQueue => 22,
        ObjType::ZVol => 23,
        ObjType::ZVolProperties => 24,
        ObjType::PlainOther => 25,
        ObjType::U64Other => 26,
        ObjType::ZapOther => 27,
        ObjType::ErrorLog => 28,
        ObjType::SpaHistory => 29,
        ObjType::SpaHistoryOffsets => 30,
        ObjType::PoolProperties => 31,
        ObjType::DSLPermissions => 32,
        ObjType::AccessControlList => 33,
        ObjType::SystemAccessControlList => 34,
        ObjType::FUidTable => 35,
        ObjType::FUidSize => 36,
        ObjType::NextClones => 37,
        ObjType::ScanQueue => 38,
        ObjType::UserGroupUsed => 39,
        ObjType::UserGroupQuota => 40,
        ObjType::UserRefs => 41,
        ObjType::DDTZap => 42,
        ObjType::DDTStats => 43,
        ObjType::SystemAttributes => 44,
        ObjType::SystemAttributesMasterNode => 45,
        ObjType::SystemAttributesRegistrations => 46,
        ObjType::SystemAttributesLayouts => 47,
        ObjType::ScanXLate => 48,
        ObjType::Dedup => 49,
        ObjType::DeadList => 50,
        ObjType::DeadListHeader => 51,
        ObjType::DSLClones => 52,
        ObjType::BlockPointerObjectSubObject => 53,
    }
}

impl ObjType {
    pub fn from_value(value: usize) -> (r: Option<Self>)
        ensures
            match r {
                Some(t) => value == obj_type_value(t),
                None => value > 53,
            },
    {
        Some(
            match value {
                0 => Self::Unallocated,
                1 => Self::ObjectDirectory,
                2 => Self::ObjectArray,
                3 => Self::PackedNVList,
                4 => Self::PackedNVListSize,
                5 => Self::BlockPointerList,
                6 => Self::BlockPointerListHeader,
                7 => Self::SpaceMapHeader,
                8 => Self::SpaceMap,
                9 => Self::IntentLog,
                10 => Self::DNode,
                11 => Self::ObjSet,
                12 => Self::DSLDirectory,
                13 => Self::DSLDirectoryChildMap,
                14 => Self::DSLDataSetSnapshotMap,
                15 => Self::DSLProperties,
                16 => Self::DSLDataset,
                17 => Self::ZNode,
                18 => Self::OldAccessControlList,
                19 => Self::PlainFileContents,
                20 => Self::DirectoryContents,
                21 => Self::MasterNode,
                22 => Self::DeleteQueue,
                23 => Self::ZVol,
                24 => Self::ZVolProperties,
                25 => Self::PlainOther,
                26 => Self::U64Other,
                27 => Self::ZapOther,
                28 => Self::ErrorLog,
                29 => Self::SpaHistory,
                30 => Self::SpaHistoryOffsets,
                31 => Self::PoolProperties,
                32 => Self::DSLPermissions,
                33 => Self::AccessControlList,
                34 => Self::SystemAccessControlList,
                35 => Self::FUidTable,
                36 => Self::FUidSize,
                37 => Self::NextClones,
                38 => Self::ScanQueue,
                39 => Self::UserGroupUsed,
                40 => Self::UserGroupQuota,
                41 => Self::UserRefs,
                42 => Self::DDTZap,
                43 => Self::DDTStats,
                44 => Self::SystemAttributes,
                45 => Self::SystemAttributesMasterNode,
                46 => Self::SystemAttributesRegistrations,
                47 => Self::SystemAttributesLayouts,
                48 => Self::ScanXLate,
                49 => Self::Dedup,
                50 => Self::DeadList,
                51 => Self::DeadListHeader,
                52 => Self::DSLClones,
                53 => Self::BlockPointerObjectSubObject,
                _ => {
                    return None;
                },
            },
        )
    }
}

#[derive(Debug, PartialEq, Eq, Clone, Copy, Structural)]
pub enum BonusType {
    Unallocated,
    PackedNVListSize,
    SpaceMapHeader,
    DSLDirectory,
    DSLDataset,
    ZNode,
    SystemAttributes,
}

/// The on-disk discriminant of the type tag.
pub open spec fn bonus_type_value(t: BonusType) -> usize {
    match t {
        BonusType::Unallocated => 0,
        BonusType::PackedNVListSize => 4,
        BonusType::SpaceMapHeader => 7,
        BonusType::DSLDirectory => 12,
        BonusType::DSLDataset => 16,
        BonusType::ZNode => 17,
        BonusType::SystemAttributes => 44,
    }
}

impl BonusType {
    pub fn from_value(value: usize) -> (r: Option<Self>)
        ensures
            match r {
                Some(t) => value == bonus_type_value(t),
                None => !(value == 0 || value == 4 || value == 7 || value == 12 || value == 16 || value == 17 || value == 44),
            },
    {
        Some(
            match value {
                0 => Self::Unallocated,
                4 => Self::PackedNVListSize,
                7 => Self::SpaceMapHeader,
                12 => Self::DSLDirectory,
                16 => Self::DSLDataset,
                17 => Self::ZNode,
                44 => Self::SystemAttributes,
                _ => {
                    return None;
                },
            },
        )
    }
}

#[derive(Debug, PartialEq, Eq, Clone, Copy, Structural)]
pub enum ObjSetType {
    Unallocated,
    Meta,
    Zfs,
    Zvol,
}

/// The on-disk discriminant of the type tag.
pub open spec fn obj_set_type_value(t: ObjSetType) -> usize {
    match t {
        ObjSetType::Unallocated => 0,
        ObjSetType::Meta => 1,
        ObjSetType::Zfs => 2,
        ObjSetType::Zvol => 3,
    }
}

impl ObjSetType {
    pub fn from_value(value: usize) -> (r: Option<Self>)
        ensures
            match r {
                Some(t) => value == obj_set_type_value(t),
                None => value > 3,
            },
    {
        Some(
            match value {
                0 => Self::Unallocated,
                1 => Self::Meta,
                2 => Self::Zfs,
                3 => Self::Zvol,
                _ => {
                    return None;
                },
            },
        )
    }
}

/// The DNode flag marking the allocation count as bytes rather than
/// sectors.
pub const DNODE_FLAG_USED_BYTES: u8 = 1;

/// The DNode flag marking a spill block pointer, which this library does
/// not support.
pub const DNODE_FLAG_SPILL: u8 = 4;

/// The type-independent part of a DNode: geometry of its indirect tree,
/// its block pointers, and its bonus buffer.
pub struct DNodeBase {
    pub indirect_blocksize_log2: u8,
    pub n_indirect_levels: u8,
    pub checksum_method: ChecksumMethod,
    pub compression_method: CompressionMethod,
    pub data_blocksize_in_sectors: u16,
    pub num_slots: u8,
    pub max_indirect_block_id: u64,
    pub total_allocated: u64,
    pub total_allocated_is_in_bytes: bool,
    pub block_pointers: Vec<BlockPointer>,
    pub bonus_data: Vec<u8>,
}

/// The number of 512-byte slots a DNode whose tail holds `nbp` block
/// pointers and `bonus_len` bonus bytes must occupy.
pub open spec fn dnode_rounded_size(nbp: int, bonus_len: int) -> int {
    let total = 64 + nbp * 128 + bonus_len;
    if total % 512 == 0 {
        total
    } else {
        (total / 512 + 1) * 512
    }
}

/// Whether the bytes at `off` parse as a DNode of a supported shape.
pub open spec fn dnode_parse_ok(s: Seq<u8>, off: int) -> bool {
    let nbp = s[off + 3] as int;
    let bonus_len = le16(s, off + 10) as int;
    let extra = s[off + 12] as int;
    &&& off + 64 <= s.len()
    &&& s[off] <= 53
    &&& (s[off + 4] == 0 || s[off + 4] == 4 || s[off + 4] == 7 || s[off + 4] == 12 || s[off + 4]
        == 16 || s[off + 4] == 17 || s[off + 4] == 44)
    &&& s[off + 5] <= 14
    &&& s[off + 6] <= 16
    &&& s[off + 7] & DNODE_FLAG_SPILL == 0
    &&& 1 <= nbp <= 3
    &&& dnode_rounded_size(nbp, bonus_len) == (extra + 1) * 512
    &&& off + 64 + nbp * 128 + bonus_len <= s.len()
}

/// Whether `bp` is the parse of one of the `nbp` pointer slots in the
/// tail of the DNode at `off`.
pub open spec fn bp_from_some_slot(bp: BlockPointer, s: Seq<u8>, off: int, nbp: int) -> bool {
    exists|sl: int|
        0 <= sl < nbp && #[trigger] crate::zio::bp_matches(bp, s, off + 64 + sl * 128)
}

/// The field equations of a parsed DNode (the type tags are returned
/// alongside).
pub open spec fn dnode_base_matches(dn: DNodeBase, s: Seq<u8>, off: int) -> bool {
    let nbp = s[off + 3] as int;
    let bonus_len = le16(s, off + 10) as int;
    &&& dn.indirect_blocksize_log2 == s[off + 1]
    &&& dn.n_indirect_levels == s[off + 2]
    &&& checksum_method_value(dn.checksum_method) == s[off + 5]
    &&& compression_method_value(dn.compression_method) == s[off + 6]
    &&& dn.data_blocksize_in_sectors == le16(s, off + 8)
    &&& dn.num_slots == s[off + 12] + 1
    &&& dn.max_indirect_block_id == le64(s, off + 16)
    &&& dn.total_allocated == le64(s, off + 24)
    &&& dn.total_allocated_is_in_bytes == ((s[off + 7] & DNODE_FLAG_USED_BYTES) != 0)
    &&& dn.bonus_data@ == s.subrange(off + 64 + nbp * 128, off + 64 + nbp * 128 + bonus_len)
    &&& dn.block_pointers@.len() <= nbp
    &&& (forall|j: int|
        0 <= j < dn.block_pointers@.len() ==> bp_from_some_slot(
            #[trigger] dn.block_pointers@[j],
            s,
            off,
            nbp,
        ))
}

impl DNodeBase {
    pub fn get_ondisk_size(&self) -> (r: usize)
        ensures
            r == self.num_slots * 512,
    {
        self.num_slots as usize * 512
    }

    /// How many 512-byte slots the DNode starting at `off` occupies.
    pub fn get_n_slots_from_bytes_le(data: &[u8], off: usize) -> (r: usize)
        requires
            off + 13 <= data@.len(),
        ensures
            r == data@[off + 12] + 1,
    {
        let _n: usize = data.len();
        read_u8(data, off + 12) as usize + 1
    }

    /// Parse the DNode at `off`, returning it with its object-type and
    /// bonus-type tags.
    pub fn from_bytes_le(data: &[u8], off: usize) -> (r: Option<(DNodeBase, ObjType, BonusType)>)
        requires
            off + 64 <= data@.len(),
        ensures
            r is Some <==> dnode_parse_ok(data@, off as int),
            match r {
                Some((dn, typ, bonus)) => dnode_base_matches(dn, data@, off as int)
                    && obj_type_value(typ) == data@[off as int] && bonus_type_value(bonus)
                    == data@[off + 4],
                None => true,
            },
    {
        let _n: usize = data.len();
        let dnode_type = match ObjType::from_value(read_u8(data, off) as usize) {
            Some(t) => t,
            None => {
                return None;
            },
        };
        let indirect_blocksize_log2 = read_u8(data, off + 1);
        let n_indirect_levels = read_u8(data, off + 2);
        let n_block_pointers = read_u8(data, off + 3);
        let bonus_data_type = match BonusType::from_value(read_u8(data, off + 4) as usize) {
            Some(t) => t,
            None => {
                return None;
            },
        };
        let checksum_method = match ChecksumMethod::from_value(read_u8(data, off + 5) as usize) {
            Some(m) => m,
            None => {
                return None;
            },
        };
        let compression_method = match CompressionMethod::from_value(
            read_u8(data, off + 6) as usize,
        ) {
            Some(m) => m,
            None => {
                return None;
            },
        };
        let flags = read_u8(data, off + 7);
        let data_blocksize_in_sectors = read_u16_le(data, off + 8);
        let bonus_data_len = read_u16_le(data, off + 10);
        let extra_slots = read_u8(data, off + 12);
        let max_indirect_block_id = read_u64_le(data, off + 16);
        let total_allocated = read_u64_le(data, off + 24);
        if flags & DNODE_FLAG_SPILL != 0 {
            return None;
        }
        if !(n_block_pointers >= 1 && n_block_pointers <= 3) {
            return None;
        }
        let total_size: usize = 64 + n_block_pointers as usize * 128 + bonus_data_len as usize;
        let rounded_up_total_size: usize = if total_size % 512 == 0 {
            total_size
        } else {
            (total_size / 512 + 1) * 512
        };
        if rounded_up_total_size != (extra_slots as usize + 1) * 512 {
            return None;
        }
        if total_size as u64 > data.len() as u64 || off as u64 > data.len() as u64
            - total_size as u64 {
            return None;
        }
        let mut block_pointers: Vec<BlockPointer> = Vec::new();
        let ghost nbp = data@[off + 3] as int;
        let mut k: usize = 0;
        while k < n_block_pointers as usize
            invariant
                k <= n_block_pointers as usize,
                n_block_pointers as int == nbp,
                1 <= nbp <= 3,
                off + 64 + nbp * 128 <= data@.len(),
                off + 64 + nbp * 128 <= usize::MAX,
                block_pointers@.len() <= k,
                forall|j: int|
                    0 <= j < block_pointers@.len() ==> bp_from_some_slot(
                        #[trigger] block_pointers@[j],
                        data@,
                        off as int,
                        nbp,
                    ),
            decreases n_block_pointers as usize - k,
        {
            match BlockPointer::from_bytes_le(data, off + 64 + k * 128) {
                Some(bp) => {
                    proof {
                        assert(crate::zio::bp_matches(bp, data@, off + 64 + (k as int) * 128));
                        assert(bp_from_some_slot(bp, data@, off as int, nbp));
                    }
                    block_pointers.push(bp);
                },
                None => {},
            }
            k = k + 1;
        }
        let bonus_data = read_bytes(data, off + 64 + n_block_pointers as usize * 128, bonus_data_len as usize);
        Some(
            (
                DNodeBase {
                    indirect_blocksize_log2,
                    n_indirect_levels,
                    checksum_method,
                    compression_method,
                    data_blocksize_in_sectors,
                    num_slots: extra_slots + 1,
                    max_indirect_block_id,
                    total_allocated,
                    total_allocated_is_in_bytes: (flags & DNODE_FLAG_USED_BYTES) != 0,
                    block_pointers,
                    bonus_data,
                },
                dnode_type,
                bonus_data_type,
            ),
        )
    }

    /// The data block size in bytes.
    pub fn parse_data_block_size(&self) -> (r: usize)
        ensures
            r == self.data_blocksize_in_sectors * 512,
    {
        self.data_blocksize_in_sectors as usize * 512
    }

    /// The indirect block size in bytes; meaningful shifts run from 7 (one
    /// pointer) to 24.
    pub fn parse_indirect_block_size(&self) -> (r: usize)
        requires
            self.indirect_blocksize_log2 <= 24,
        ensures
            r == (1usize << self.indirect_blocksize_log2),
    {
        1usize << self.indirect_blocksize_log2
    }

    /// The addressable byte size of this object.
    pub fn get_data_size(&self) -> (r: u64)
        requires
            (self.max_indirect_block_id + 1) * (self.data_blocksize_in_sectors * 512)
                <= u64::MAX,
        ensures
            r == (self.max_indirect_block_id + 1) * (self.data_blocksize_in_sectors * 512),
    {
        let dbs: u64 = self.data_blocksize_in_sectors as u64 * 512;
        if dbs == 0 {
            proof {
                assert((self.max_indirect_block_id + 1) * (self.data_blocksize_in_sectors * 512)
                    == 0) by (nonlinear_arith)
                    requires
                        self.data_blocksize_in_sectors * 512 == 0,
                ;
            }
            return 0;
        }
        proof {
            assert(self.max_indirect_block_id + 1 <= (self.max_indirect_block_id + 1) * (
            self.data_blocksize_in_sectors * 512)) by (nonlinear_arith)
                requires
                    self.data_blocksize_in_sectors * 512 >= 1,
            ;
        }
        (self.max_indirect_block_id + 1) * dbs
    }

    pub fn get_block_pointers(&self) -> (r: &Vec<BlockPointer>)
        ensures
            r@ == self.block_pointers@,
    {
        &self.block_pointers
    }

    pub fn get_bonus_data(&self) -> (r: &Vec<u8>)
        ensures
            r@ == self.bonus_data@,
    {
        &self.bonus_data
    }
}

/// Whether `v` is data correctly resolved from `bp`: a normal pointer's
/// checksum covers some physical bytes that decompress to `v`, and an
/// embedded pointer decodes to exactly `v`.
pub open spec fn bp_data_valid(bp: BlockPointer, v: Seq<u8>) -> bool {
    match bp {
        BlockPointer::Normal(b) => crate::block_entry_ok(
            b.checksum,
            checksum_method_value(b.checksum_method),
            v,
        ),
        BlockPointer::Embedded(e) => crate::zio::embedded_deref_spec(e) == Some(v),
    }
}

/// Whether `v` is reachable from `bp` by consuming the pointer offsets in
/// `tags` from last to first: each step resolves the current pointer and
/// reads the next one at 128 times the tag.
pub open spec fn dnode_descend_valid(bp: BlockPointer, tags: Seq<usize>, v: Seq<u8>) -> bool
    decreases tags.len(),
{
    if tags.len() == 0 {
        bp_data_valid(bp, v)
    } else {
        exists|d: Seq<u8>, bp2: BlockPointer|
            {
                &&& #[trigger] bp_data_valid(bp, d)
                &&& 128 * (tags.last() as int) + 128 <= d.len()
                &&& #[trigger] crate::zio::bp_matches(bp2, d, 128 * (tags.last() as int))
                &&& dnode_descend_valid(bp2, tags.drop_last(), v)
            }
    }
}

/// The per-level pointer offsets for data block `id`: one entry per
/// indirection level, dividing by the branching factor, except the top
/// level which divides by the DNode's own pointer count.
pub open spec fn dnode_tag_offsets(id: int, bpc: int, nbp: int, levels: int) -> Seq<usize>
    decreases levels,
{
    if levels <= 0 {
        Seq::empty()
    } else if levels == 1 {
        seq![(id % nbp) as usize]
    } else {
        seq![(id % bpc) as usize] + dnode_tag_offsets(id / bpc, bpc, nbp, levels - 1)
    }
}

/// Whether `b` is a valid read of data block `i` of the DNode: the right
/// length, reached through the indirect tree from the right top pointer.
pub open spec fn dnode_block_read_valid(dn: DNodeBase, i: int, b: Seq<u8>) -> bool {
    let bpc = ((1u64 << dn.indirect_blocksize_log2 as u64) as int) / 128;
    let tags = dnode_tag_offsets(i, bpc, dn.block_pointers@.len() as int, dn.n_indirect_levels as int);
    &&& b.len() == dn.data_blocksize_in_sectors * 512
    &&& tags.len() >= 1
    &&& (tags.last() as int) < dn.block_pointers@.len()
    &&& dnode_descend_valid(dn.block_pointers@[tags.last() as int], tags.drop_last(), b)
}

/// Walk down the tree: resolve `bp`, then follow the pointer at each of
/// the first `k` tags, from the last one down.
fn read_block_descend(
    bp: &BlockPointer,
    tags: &Vec<usize>,
    k: usize,
    vdevs: &mut VdevRaidz,
) -> (r: Result<Vec<u8>, ()>)
    requires
        old(vdevs).wf(),
        crate::zio::bp_deref_wf(*bp),
        k <= tags@.len(),
        forall|j: int| 0 <= j < tags@.len() ==> #[trigger] tags@[j] < 0x2_0000,
    ensures
        final(vdevs).wf(),
        VdevRaidz::same_geometry(*old(vdevs), *final(vdevs)),
        match r {
            Ok(v) => dnode_descend_valid(*bp, tags@.take(k as int), v@),
            Err(_) => true,
        },
    decreases k,
{
    let data = match bp.dereference(vdevs) {
        Ok(d) => d,
        Err(_) => {
            return Err(());
        },
    };
    if k == 0 {
        proof {
            assert(tags@.take(0) =~= Seq::<usize>::empty());
        }
        return Ok(data);
    }
    let t: usize = tags[k - 1];
    if 128 * t + 128 > data.len() {
        return Err(());
    }
    let bp2 = match BlockPointer::from_bytes_le(data.as_slice(), 128 * t) {
        Some(b) => b,
        None => {
            return Err(());
        },
    };
    proof {
        crate::zio::lemma_bp_matches_deref_wf(bp2, data@, 128 * t as int);
    }
    let out = match read_block_descend(&bp2, tags, k - 1, vdevs) {
        Ok(v) => v,
        Err(_) => {
            return Err(());
        },
    };
    proof {
        let tk = tags@.take(k as int);
        assert(tk.last() == tags@[k - 1]);
        assert(tk.drop_last() =~= tags@.take(k - 1));
        assert(bp_data_valid(*bp, data@));
        assert(crate::zio::bp_matches(bp2, data@, 128 * (tk.last() as int)));
        assert(dnode_descend_valid(bp2, tk.drop_last(), out@));
    }
    Ok(out)
}

/// Whether `out` is a valid result of reading `size` bytes at `offset`
/// of the object: a window of per-index valid blocks, trimmed to the
/// requested range.
pub open spec fn dnode_read_result_ok(dn: DNodeBase, offset: int, size: int, out: Seq<u8>) -> bool {
    &&& out.len() == size
    &&& (size > 0 ==> exists|blocks: Seq<Seq<u8>>|
        {
            &&& blocks.len() >= 1
            &&& (forall|j: int|
                0 <= j < blocks.len() ==> dnode_block_read_valid(
                    dn,
                    offset / (dn.data_blocksize_in_sectors * 512) as int + j,
                    #[trigger] blocks[j],
                ))
            &&& offset % (dn.data_blocksize_in_sectors * 512) as int + size <= blocks.len() * (
            dn.data_blocksize_in_sectors * 512)
            &&& out == #[trigger] blocks.flatten().subrange(
                offset % (dn.data_blocksize_in_sectors * 512) as int,
                offset % (dn.data_blocksize_in_sectors * 512) as int + size,
            )
        })
}

impl DNodeBase {
    /// Read data block `block_id` of this object through its indirect
    /// tree.
    pub fn read_block(&self, block_id: u64, vdevs: &mut VdevRaidz) -> (r: Result<Vec<u8>, ()>)
        requires
            old(vdevs).wf(),
        ensures
            final(vdevs).wf(),
            VdevRaidz::same_geometry(*old(vdevs), *final(vdevs)),
            match r {
                Ok(v) => dnode_block_read_valid(*self, block_id as int, v@),
                Err(_) => true,
            },
            block_id > self.max_indirect_block_id ==> r is Err,
            r is Ok ==> block_id <= self.max_indirect_block_id && self.n_indirect_levels >= 1
                && self.block_pointers@.len() >= 1,
    {
        if block_id > self.max_indirect_block_id {
            return Err(());
        }
        if self.n_indirect_levels < 1 {
            return Err(());
        }
        if self.indirect_blocksize_log2 < 8 || self.indirect_blocksize_log2 > 24 {
            return Err(());
        }
        let nbp: usize = self.block_pointers.len();
        if nbp == 0 {
            return Err(());
        }
        let bpc: usize = self.parse_indirect_block_size() / 128;
        proof {
            lemma_shift_bounds(self.indirect_blocksize_log2);
        }
        let levels: usize = self.n_indirect_levels as usize;
        let ghost all_tags = dnode_tag_offsets(
            block_id as int,
            bpc as int,
            nbp as int,
            levels as int,
        );
        let mut tags: Vec<usize> = Vec::new();
        let mut id: u64 = block_id;
        let mut level: usize = 1;
        proof {
            assert(tags@ + dnode_tag_offsets(id as int, bpc as int, nbp as int, levels as int)
                =~= all_tags);
        }
        while level < levels
            invariant
                1 <= level <= levels,
                levels <= 255,
                2 <= bpc <= 0x2_0000,
                1 <= nbp,
                tags@.len() == level - 1,
                forall|j: int| 0 <= j < tags@.len() ==> #[trigger] tags@[j] < 0x2_0000,
                tags@ + dnode_tag_offsets(
                    id as int,
                    bpc as int,
                    nbp as int,
                    (levels - level + 1) as int,
                ) == all_tags,
            decreases levels - level,
        {
            let t: usize = (id % bpc as u64) as usize;
            tags.push(t);
            let ghost id_prev = id as int;
            id = id / bpc as u64;
            proof {
                assert(dnode_tag_offsets(
                    id_prev,
                    bpc as int,
                    nbp as int,
                    (levels - level + 1) as int,
                ) == seq![t] + dnode_tag_offsets(
                    id as int,
                    bpc as int,
                    nbp as int,
                    (levels - level) as int,
                ));
                assert(tags@ + dnode_tag_offsets(
                    id as int,
                    bpc as int,
                    nbp as int,
                    (levels - level) as int,
                ) =~= all_tags);
            }
            level = level + 1;
        }
        let top: usize = (id % nbp as u64) as usize;
        proof {
            assert(dnode_tag_offsets(id as int, bpc as int, nbp as int, 1) =~= seq![top]);
            assert(all_tags =~= tags@ + seq![top]);
            assert(all_tags.last() == top);
            assert(all_tags.drop_last() =~= tags@);
        }
        let bp = &self.block_pointers[top];
        if !crate::zio::bp_deref_wf_check(bp) {
            return Err(());
        }
        let tlen = tags.len();
        let data = match read_block_descend(bp, &tags, tlen, vdevs) {
            Ok(v) => v,
            Err(_) => {
                return Err(());
            },
        };
        if data.len() != self.parse_data_block_size() {
            return Err(());
        }
        proof {
            assert(tags@.take(tlen as int) =~= tags@);
        }
        Ok(data)
    }

    /// Read `size` bytes of the object starting at byte `offset`.  Reading
    /// zero bytes always succeeds.
    pub fn read(&self, offset: u64, size: usize, vdevs: &mut VdevRaidz) -> (r: Result<
        Vec<u8>,
        (),
    >)
        requires
            old(vdevs).wf(),
        ensures
            final(vdevs).wf(),
            VdevRaidz::same_geometry(*old(vdevs), *final(vdevs)),
            match r {
                Ok(v) => dnode_read_result_ok(*self, offset as int, size as int, v@),
                Err(_) => true,
            },
            size == 0 ==> r is Ok,
    {
        broadcast use vstd::prelude::Seq::lemma_flatten_push;

        if size == 0 {
            return Ok(Vec::new());
        }
        if self.data_blocksize_in_sectors == 0 {
            return Err(());
        }
        let dbs: usize = self.parse_data_block_size();
        if size as u64 >= u64::MAX - dbs as u64 {
            return Err(());
        }
        let ghost dbsi = dbs as int;
        let first_block: u64 = offset / dbs as u64;
        let skip: usize = (offset % dbs as u64) as usize;
        let ghost blocks0: Seq<Seq<u8>> = Seq::empty();
        let mut blocks_read: u64 = 0;
        let mut buf: Vec<u8> = Vec::new();
        let ghost mut blocks: Seq<Seq<u8>> = Seq::empty();
        proof {
            assert(blocks.flatten() =~= buf@);
        }
        while (buf.len() as u64) < skip as u64 + size as u64
            invariant
                old(vdevs).wf(),
                vdevs.wf(),
                VdevRaidz::same_geometry(*old(vdevs), *vdevs),
                dbs == self.data_blocksize_in_sectors * 512,
                dbs >= 1,
                size >= 1,
                dbsi == dbs as int,
                dbsi <= 0x2000_0000,
                skip < dbsi,
                skip + size < u64::MAX,
                first_block == offset as int / dbsi,
                skip == offset as int % dbsi,
                blocks.len() == blocks_read,
                buf@ == blocks.flatten(),
                buf@.len() == blocks.len() * dbsi,
                dbsi >= 512,
                blocks_read * 512 <= buf@.len(),
                forall|j: int|
                    0 <= j < blocks.len() ==> dnode_block_read_valid(
                        *self,
                        first_block + j,
                        #[trigger] blocks[j],
                    ),
            decreases
                    if skip + size >= buf@.len() {
                        skip + size - buf@.len()
                    } else {
                        0int
                    },
        {
            let idx: u64 = match first_block.checked_add(blocks_read) {
                Some(x) => x,
                None => {
                    return Err(());
                },
            };
            let block = match self.read_block(idx, vdevs) {
                Ok(b) => b,
                Err(_) => {
                    return Err(());
                },
            };
            let mut b2 = block;
            proof {
                let old_blocks = blocks;
                blocks = blocks.push(b2@);
                old_blocks.lemma_flatten_push(b2@);
                assert(blocks.flatten() =~= buf@ + b2@);
                assert(blocks.len() * dbsi == (blocks.len() - 1) * dbsi + dbsi)
                    by (nonlinear_arith);
            }
            buf.append(&mut b2);
            blocks_read = blocks_read + 1;
        }
        proof {
            assert(skip + size <= blocks.len() * dbsi);
            if blocks.len() == 0 {
                assert(blocks.len() * dbsi == 0) by (nonlinear_arith)
                    requires
                        blocks.len() == 0,
                ;
            }
        }
        let out = read_bytes(buf.as_slice(), skip, size);
        proof {
            assert(out@ == blocks.flatten().subrange(skip as int, skip as int + size));
        }
        Ok(out)
    }
}

/// Shifting one by an exponent between 8 and 24 lands between 256 and 16
/// MiB, so the branching factor is between 2 and 131072.
proof fn lemma_shift_bounds(e: u8)
    requires
        8 <= e <= 24,
    ensures
        256 <= (1usize << e) <= 0x100_0000,
        2 <= ((1usize << e) as int) / 128 <= 0x2_0000,
        (1usize << e) as int == (1u64 << e as u64) as int,
{
    assert(8 <= e <= 24 ==> 256 <= (1usize << e) <= 0x100_0000 && (1usize << e) as int == (1u64
        << e as u64) as int) by (bit_vector);
}

/// An object set: the meta-DNode whose data blocks form the DNode array,
/// the intent-log header, and the object-set kind.
pub struct ObjSet {
    pub metadnode: DNodeBase,
    pub zil: Option<crate::zil::ZilHeader>,
    pub typ: ObjSetType,
}

/// Whether the bytes at `off` parse as an object set this library
/// accepts.
pub open spec fn objset_parse_ok(s: Seq<u8>, off: int) -> bool {
    &&& dnode_parse_ok(s, off)
    &&& s[off] == 10
    &&& off + (s[off + 12] as int + 1) * 512 + 200 <= s.len()
    &&& le64(s, off + (s[off + 12] as int + 1) * 512 + 192) <= 3
}

impl ObjSet {
    pub fn get_ondisk_size() -> (r: usize)
        ensures
            r == 1024,
    {
        1024
    }

    pub fn from_bytes_le(data: &[u8], off: usize) -> (r: Option<ObjSet>)
        requires
            off + 64 <= data@.len(),
        ensures
            r is Some <==> objset_parse_ok(data@, off as int),
            match r {
                Some(os) => dnode_base_matches(os.metadnode, data@, off as int)
                    && obj_set_type_value(os.typ) == le64(
                    data@,
                    off + (data@[off + 12] as int + 1) * 512 + 192,
                ),
                None => true,
            },
    {
        let _n: usize = data.len();
        let (metadnode, metadnode_type, _bonus) = match DNodeBase::from_bytes_le(data, off) {
            Some(t) => t,
            None => {
                return None;
            },
        };
        match metadnode_type {
            ObjType::DNode => {},
            _ => {
                return None;
            },
        }
        let meta_size: usize = metadnode.get_ondisk_size();
        if meta_size as u64 + 200 > data.len() as u64 || off as u64 > data.len() as u64
            - meta_size as u64 - 200 {
            return None;
        }
        let zil = crate::zil::ZilHeader::from_bytes_le(data, off + meta_size);
        let typ_raw = read_u64_le(data, off + meta_size + 192);
        if typ_raw > 3 {
            return None;
        }
        let typ = match ObjSetType::from_value(typ_raw as usize) {
            Some(t) => t,
            None => {
                proof {
                    assert(false);
                }
                return None;
            },
        };
        Some(ObjSet { metadnode, zil, typ })
    }
}

/// A ZAP-bearing DNode (object directory, master node, or one of the
/// system-attribute nodes).
pub struct ZapDNode(pub DNodeBase);

/// A DSL directory DNode; its bonus buffer holds a `DSLDirectoryData`.
pub struct DNodeDSLDirectory(pub DNodeBase);

/// A DSL dataset DNode; its bonus buffer holds a `DSLDatasetData`.
pub struct DNodeDSLDataset(pub DNodeBase);

/// A directory-contents DNode: a ZAP of names to object ids.
pub struct DNodeDirectoryContents(pub DNodeBase, pub BonusType);

/// A plain-file DNode: its indirect tree addresses the file bytes.
pub struct DNodePlainFileContents(pub DNodeBase, pub BonusType);

impl DNodeDSLDirectory {
    /// Decode the bonus buffer as DSL directory data.
    pub fn parse_bonus_data(&self) -> (r: Option<crate::dsl::DSLDirectoryData>)
        ensures
            match r {
                Some(d) => self.0.bonus_data@.len() >= 88 && d.head_dataset_object_number
                    == le64(self.0.bonus_data@, 8),
                None => self.0.bonus_data@.len() < 88,
            },
    {
        if self.0.bonus_data.len() < 88 {
            return None;
        }
        Some(crate::dsl::DSLDirectoryData::from_bytes_le(self.0.bonus_data.as_slice(), 0))
    }
}

impl DNodeDSLDataset {
    /// Decode the bonus buffer as DSL dataset data.
    pub fn parse_bonus_data(&self) -> (r: Option<crate::dsl::DSLDatasetData>)
        ensures
            r is Some <==> self.0.bonus_data@.len() >= 256 && crate::zio::bp_parseable(
                self.0.bonus_data@,
                128,
            ),
            match r {
                Some(d) => self.0.bonus_data@.len() >= 256 && crate::zio::bp_matches(
                    d.block_pointer,
                    self.0.bonus_data@,
                    128,
                ),
                None => true,
            },
    {
        if self.0.bonus_data.len() < 256 {
            return None;
        }
        crate::dsl::DSLDatasetData::from_bytes_le(self.0.bonus_data.as_slice(), 0)
    }
}

/// Whether a (object type, bonus type) tag pair names a DNode shape the
/// library handles.
pub open spec fn dnode_supported_pair(t: u8, b: u8) -> bool {
    ||| (t == 1 && b == 0)
    ||| (t == 12 && b == 12)
    ||| (t == 16 && b == 16)
    ||| t == 19
    ||| t == 20
    ||| (t == 21 && b == 0)
    ||| (t == 45 && b == 0)
    ||| (t == 46 && b == 0)
    ||| (t == 47 && b == 0)
}

/// A parsed DNode, classified by its object-type and bonus-type tags.
pub enum DNode {
    ObjectDirectory(ZapDNode),
    DSLDirectory(DNodeDSLDirectory),
    DSLDataset(DNodeDSLDataset),
    MasterNode(ZapDNode),
    DirectoryContents(DNodeDirectoryContents),
    PlainFileContents(DNodePlainFileContents),
    SystemAttributesMasterNode(ZapDNode),
    SystemAttributesLayouts(ZapDNode),
    SystemAttributesRegistrations(ZapDNode),
}

impl DNode {
    /// The type-independent part of any DNode variant.
    pub open spec fn spec_inner(self) -> DNodeBase {
        match self {
            DNode::ObjectDirectory(d) => d.0,
            DNode::DSLDirectory(d) => d.0,
            DNode::DSLDataset(d) => d.0,
            DNode::MasterNode(d) => d.0,
            DNode::DirectoryContents(d) => d.0,
            DNode::PlainFileContents(d) => d.0,
            DNode::SystemAttributesMasterNode(d) => d.0,
            DNode::SystemAttributesLayouts(d) => d.0,
            DNode::SystemAttributesRegistrations(d) => d.0,
        }
    }

    pub fn get_n_slots_from_bytes_le(data: &[u8], off: usize) -> (r: usize)
        requires
            off + 13 <= data@.len(),
        ensures
            r == data@[off + 12] + 1,
    {
        DNodeBase::get_n_slots_from_bytes_le(data, off)
    }

    /// Parse and classify the DNode at `off`; exactly the supported
    /// (object type, bonus type) pairs parse, every other combination is
    /// malformed.
    pub fn from_bytes_le(data: &[u8], off: usize) -> (r: Option<DNode>)
        requires
            off + 64 <= data@.len(),
        ensures
            r is Some <==> dnode_parse_ok(data@, off as int) && dnode_supported_pair(
                data@[off as int],
                data@[off + 4],
            ),
            match r {
                Some(d) => dnode_base_matches(d.spec_inner(), data@, off as int) && match d {
                    DNode::ObjectDirectory(_) => data@[off as int] == 1 && data@[off + 4] == 0,
                    DNode::DSLDirectory(_) => data@[off as int] == 12 && data@[off + 4] == 12,
                    DNode::DSLDataset(_) => data@[off as int] == 16 && data@[off + 4] == 16,
                    DNode::MasterNode(_) => data@[off as int] == 21 && data@[off + 4] == 0,
                    DNode::DirectoryContents(_) => data@[off as int] == 20,
                    DNode::PlainFileContents(_) => data@[off as int] == 19,
                    DNode::SystemAttributesMasterNode(_) => data@[off as int] == 45 && data@[off
                        + 4] == 0,
                    DNode::SystemAttributesLayouts(_) => data@[off as int] == 47 && data@[off
                        + 4] == 0,
                    DNode::SystemAttributesRegistrations(_) => data@[off as int] == 46 && data@[
                        off + 4] == 0,
                },
                None => true,
            },
    {
        let (dnode_base, dnode_type, bonus_data_type) = match DNodeBase::from_bytes_le(
            data,
            off,
        ) {
            Some(t) => t,
            None => {
                return None;
            },
        };
        match (dnode_type, bonus_data_type) {
            (ObjType::ObjectDirectory, BonusType::Unallocated) => Some(
                DNode::ObjectDirectory(ZapDNode(dnode_base)),
            ),
            (ObjType::DSLDirectory, BonusType::DSLDirectory) => Some(
                DNode::DSLDirectory(DNodeDSLDirectory(dnode_base)),
            ),
            (ObjType::DSLDataset, BonusType::DSLDataset) => Some(
                DNode::DSLDataset(DNodeDSLDataset(dnode_base)),
            ),
            (ObjType::PlainFileContents, bonus_type) => Some(
                DNode::PlainFileContents(DNodePlainFileContents(dnode_base, bonus_type)),
            ),
            (ObjType::DirectoryContents, bonus_type) => Some(
                DNode::DirectoryContents(DNodeDirectoryContents(dnode_base, bonus_type)),
            ),
            (ObjType::MasterNode, BonusType::Unallocated) => Some(
                DNode::MasterNode(ZapDNode(dnode_base)),
            ),
            (ObjType::SystemAttributesMasterNode, BonusType::Unallocated) => Some(
                DNode::SystemAttributesMasterNode(ZapDNode(dnode_base)),
            ),
            (ObjType::SystemAttributesLayouts, BonusType::Unallocated) => Some(
                DNode::SystemAttributesLayouts(ZapDNode(dnode_base)),
            ),
            (ObjType::SystemAttributesRegistrations, BonusType::Unallocated) => Some(
                DNode::SystemAttributesRegistrations(ZapDNode(dnode_base)),
            ),
            _ => None,
        }
    }

    pub fn get_inner(&self) -> (r: &DNodeBase)
        ensures
            *r == self.spec_inner(),
    {
        match self {
            DNode::ObjectDirectory(d) => &d.0,
            DNode::DSLDirectory(d) => &d.0,
            DNode::DSLDataset(d) => &d.0,
            DNode::MasterNode(d) => &d.0,
            DNode::DirectoryContents(d) => &d.0,
            DNode::PlainFileContents(d) => &d.0,
            DNode::SystemAttributesMasterNode(d) => &d.0,
            DNode::SystemAttributesLayouts(d) => &d.0,
            DNode::SystemAttributesRegistrations(d) => &d.0,
        }
    }
}

impl ObjSet {
    /// Read DNode `index` of this object set: the slot's 512 bytes are
    /// read through the meta-DNode, extended to the slot count the first
    /// slot declares, and the whole is parsed and classified.
    pub fn get_dnode_at(&self, index: u64, vdevs: &mut VdevRaidz) -> (r: Option<DNode>)
        requires
            old(vdevs).wf(),
        ensures
            final(vdevs).wf(),
            VdevRaidz::same_geometry(*old(vdevs), *final(vdevs)),
            match r {
                Some(d) => exists|whole: Seq<u8>|
                    {
                        &&& #[trigger] dnode_read_result_ok(
                            self.metadnode,
                            index as int * 512,
                            512,
                            whole.take(512),
                        )
                        &&& whole.len() == (whole.take(512)[12] + 1) * 512
                        &&& (whole.len() > 512 ==> dnode_read_result_ok(
                            self.metadnode,
                            (index as int + 1) * 512,
                            whole.len() - 512,
                            whole.skip(512),
                        ))
                        &&& dnode_base_matches(d.spec_inner(), whole, 0)
                        &&& dnode_supported_pair(whole[0], whole[4])
                    },
                None => true,
            },
    {
        if index >= u64::MAX / 512 {
            return None;
        }
        proof {
            crate::arith::lemma_le_div_iff(index as int + 1, 512, u64::MAX as int);
        }
        let first = match self.metadnode.read(index * 512, 512, vdevs) {
            Ok(d) => d,
            Err(_) => {
                return None;
            },
        };
        let dnode_slots: usize = DNodeBase::get_n_slots_from_bytes_le(first.as_slice(), 0);
        let ghost first_view = first@;
        let mut all = first;
        let ghost mut more_view: Seq<u8> = Seq::empty();
        if dnode_slots > 1 {
            let more = match self.metadnode.read(
                (index + 1) * 512,
                (dnode_slots - 1) * 512,
                vdevs,
            ) {
                Ok(d) => d,
                Err(_) => {
                    return None;
                },
            };
            proof {
                more_view = more@;
            }
            let mut more2 = more;
            all.append(&mut more2);
        }
        proof {
            assert(all@.take(512) =~= first_view);
            if dnode_slots > 1 {
                assert(all@.skip(512) =~= more_view);
            } else {
                assert(all@ =~= first_view);
            }
        }
        let r = DNode::from_bytes_le(all.as_slice(), 0);
        proof {
            if r is Some {
                assert(dnode_read_result_ok(
                    self.metadnode,
                    index as int * 512,
                    512,
                    all@.take(512),
                ));
                assert(all@.take(512)[12] == first_view[12]);
                assert(all@.len() == (first_view[12] + 1) * 512) by {
                    if dnode_slots > 1 {
                        assert(all@.len() == 512 + more_view.len());
                    }
                };
                if all@.len() > 512 {
                    assert(dnode_read_result_ok(
                        self.metadnode,
                        (index as int + 1) * 512,
                        all@.len() - 512,
                        all@.skip(512),
                    ));
                }
            }
        }
        r
    }
}

impl ZapDNode {
    /// Read block 0 and decode the ZAP header shape.
    pub fn get_zap_header(&self, vdevs: &mut VdevRaidz) -> (r: Option<crate::zap::ZapHeader>)
        requires
            old(vdevs).wf(),
        ensures
            final(vdevs).wf(),
            VdevRaidz::same_geometry(*old(vdevs), *final(vdevs)),
    {
        let block = match self.0.read_block(0, vdevs) {
            Ok(b) => b,
            Err(_) => {
                return None;
            },
        };
        let bs = self.0.parse_data_block_size();
        if bs < 8 || bs > block.len() {
            return None;
        }
        crate::zap::ZapHeader::from_bytes_le(block.as_slice(), bs)
    }

    /// Decode the whole map; the names of the result are distinct.
    pub fn dump_zap_contents(&self, vdevs: &mut VdevRaidz) -> (r: Option<crate::zap::ZapContents>)
        requires
            old(vdevs).wf(),
        ensures
            final(vdevs).wf(),
            VdevRaidz::same_geometry(*old(vdevs), *final(vdevs)),
            match r {
                Some(m) => crate::zap::zap_names_distinct(m@),
                None => true,
            },
    {
        let header = match self.get_zap_header(vdevs) {
            Some(h) => h,
            None => {
                return None;
            },
        };
        header.dump_contents(&self.0, vdevs)
    }
}

impl DNodeDirectoryContents {
    /// Read block 0 and decode the ZAP header shape.
    pub fn get_zap_header(&self, vdevs: &mut VdevRaidz) -> (r: Option<crate::zap::ZapHeader>)
        requires
            old(vdevs).wf(),
        ensures
            final(vdevs).wf(),
            VdevRaidz::same_geometry(*old(vdevs), *final(vdevs)),
    {
        let block = match self.0.read_block(0, vdevs) {
            Ok(b) => b,
            Err(_) => {
                return None;
            },
        };
        let bs = self.0.parse_data_block_size();
        if bs < 8 || bs > block.len() {
            return None;
        }
        crate::zap::ZapHeader::from_bytes_le(block.as_slice(), bs)
    }

    /// Decode the directory map; the names of the result are distinct.
    pub fn dump_zap_contents(&self, vdevs: &mut VdevRaidz) -> (r: Option<crate::zap::ZapContents>)
        requires
            old(vdevs).wf(),
        ensures
            final(vdevs).wf(),
            VdevRaidz::same_geometry(*old(vdevs), *final(vdevs)),
            match r {
                Some(m) => crate::zap::zap_names_distinct(m@),
                None => true,
            },
    {
        let header = match self.get_zap_header(vdevs) {
            Some(h) => h,
            None => {
                return None;
            },
        };
        header.dump_contents(&self.0, vdevs)
    }
}

/// Whether `v` is the whole byte range of some object: a valid full
/// read of a DNode from byte zero to its addressable size.
pub open spec fn whole_object_read(v: Seq<u8>) -> bool {
    exists|dn: DNodeBase|
        {
            &&& v.len() == (dn.max_indirect_block_id + 1) * (dn.data_blocksize_in_sectors * 512)
            &&& #[trigger] dnode_read_result_ok(dn, 0, v.len() as int, v)
        }
}

/// The first half of the pool walk: the meta object set's object
/// directory (object 1) names the root dataset, the dataset directory's
/// head dataset roots the file system's own object set, which is parsed
/// from the dereferenced dataset block pointer.
fn walk_to_head_objset(mos: &ObjSet, vdevs: &mut VdevRaidz) -> (r: Option<ObjSet>)
    requires
        old(vdevs).wf(),
    ensures
        final(vdevs).wf(),
        VdevRaidz::same_geometry(*old(vdevs), *final(vdevs)),
{
    let objdir = match mos.get_dnode_at(1, vdevs) {
        Some(DNode::ObjectDirectory(zd)) => zd,
        _ => {
            return None;
        },
    };
    let objdir_map = match objdir.dump_zap_contents(vdevs) {
        Some(m) => m,
        None => {
            return None;
        },
    };
    // The bytes of "root_dataset".
    let root_dataset_name: Vec<u8> = vec![114u8, 111, 111, 116, 95, 100, 97, 116, 97, 115, 101, 116];
    let root_dataset_obj: u64 = match crate::zap::zap_contents_get(
        &objdir_map,
        &root_dataset_name,
    ) {
        Some(crate::zap::Value::U64(v)) => *v,
        _ => {
            return None;
        },
    };
    let dsl_dir = match mos.get_dnode_at(root_dataset_obj, vdevs) {
        Some(DNode::DSLDirectory(d)) => d,
        _ => {
            return None;
        },
    };
    let head_obj: u64 = match dsl_dir.parse_bonus_data() {
        Some(d) => d.get_head_dataset_object_number(),
        None => {
            return None;
        },
    };
    let dataset = match mos.get_dnode_at(head_obj, vdevs) {
        Some(DNode::DSLDataset(d)) => d,
        _ => {
            return None;
        },
    };
    let bonus = match dataset.parse_bonus_data() {
        Some(b) => b,
        None => {
            return None;
        },
    };
    let bp = bonus.get_block_pointer();
    if !crate::zio::bp_deref_wf_check(bp) {
        return None;
    }
    let objset_bytes = match bp.dereference(vdevs) {
        Ok(d) => d,
        Err(_) => {
            return None;
        },
    };
    if objset_bytes.len() < 64 {
        return None;
    }
    ObjSet::from_bytes_le(objset_bytes.as_slice(), 0)
}

/// The second half of the pool walk: the object set's master node
/// (object 1) names the root directory, the directory names the file
/// (the low 48 entry bits are its object id), and the file object's
/// whole byte range is read through its indirect tree.
fn read_file_in_objset(objset: &ObjSet, file_name: &Vec<u8>, vdevs: &mut VdevRaidz) -> (r:
    Option<Vec<u8>>)
    requires
        old(vdevs).wf(),
    ensures
        final(vdevs).wf(),
        VdevRaidz::same_geometry(*old(vdevs), *final(vdevs)),
        match r {
            Some(v) => whole_object_read(v@),
            None => true,
        },
{
    let master = match objset.get_dnode_at(1, vdevs) {
        Some(DNode::MasterNode(m)) => m,
        _ => {
            return None;
        },
    };
    let master_map = match master.dump_zap_contents(vdevs) {
        Some(m) => m,
        None => {
            return None;
        },
    };
    // The bytes of "ROOT".
    let root_name: Vec<u8> = vec![82u8, 79, 79, 84];
    let root_obj: u64 = match crate::zap::zap_contents_get(&master_map, &root_name) {
        Some(crate::zap::Value::U64(v)) => *v,
        _ => {
            return None;
        },
    };
    let root_dir = match objset.get_dnode_at(root_obj, vdevs) {
        Some(DNode::DirectoryContents(d)) => d,
        _ => {
            return None;
        },
    };
    let dir_map = match root_dir.dump_zap_contents(vdevs) {
        Some(m) => m,
        None => {
            return None;
        },
    };
    let file_entry: u64 = match crate::zap::zap_contents_get(&dir_map, file_name) {
        Some(crate::zap::Value::U64(v)) => *v,
        _ => {
            return None;
        },
    };
    let file_obj: u64 = file_entry & 0x0000_FFFF_FFFF_FFFF;
    let file = match objset.get_dnode_at(file_obj, vdevs) {
        Some(DNode::PlainFileContents(f)) => f,
        _ => {
            return None;
        },
    };
    read_whole_file(&file, vdevs)
}

/// Read a plain-file object's whole byte range: every block the object
/// addresses, as one buffer.
fn read_whole_file(file: &DNodePlainFileContents, vdevs: &mut VdevRaidz) -> (r: Option<Vec<u8>>)
    requires
        old(vdevs).wf(),
    ensures
        final(vdevs).wf(),
        VdevRaidz::same_geometry(*old(vdevs), *final(vdevs)),
        match r {
            Some(v) => whole_object_read(v@),
            None => true,
        },
{
    let dbs: u64 = (file.0.data_blocksize_in_sectors as u64) * 512;
    if dbs == 0 {
        return None;
    }
    if file.0.max_indirect_block_id >= u64::MAX / dbs {
        return None;
    }
    proof {
        crate::arith::lemma_le_div_iff(
            file.0.max_indirect_block_id as int + 1,
            dbs as int,
            u64::MAX as int,
        );
    }
    let size64: u64 = file.0.get_data_size();
    if size64 > usize::MAX as u64 {
        return None;
    }
    let size: usize = size64 as usize;
    match file.0.read(0, size, vdevs) {
        Ok(v) => {
            proof {
                assert(dnode_read_result_ok(file.0, 0, size as int, v@));
                assert(v@.len() as int == size as int);
                assert(dnode_read_result_ok(file.0, 0, v@.len() as int, v@));
                assert(v@.len() == (file.0.max_indirect_block_id + 1) * (
                file.0.data_blocksize_in_sectors * 512));
                assert(whole_object_read(v@));
            }
            Some(v)
        },
        Err(_) => None,
    }
}

/// Walk from the meta object set to a named file of the root directory
/// and return the file object's whole byte range: some file DNode
/// validly reads to exactly these bytes.
pub fn walk_to_file(mos: &ObjSet, file_name: &Vec<u8>, vdevs: &mut VdevRaidz) -> (r: Option<
    Vec<u8>,
>)
    requires
        old(vdevs).wf(),
    ensures
        final(vdevs).wf(),
        VdevRaidz::same_geometry(*old(vdevs), *final(vdevs)),
        match r {
            Some(v) => whole_object_read(v@),
            None => true,
        },
{
    let objset = match walk_to_head_objset(mos, vdevs) {
        Some(o) => o,
        None => {
            return None;
        },
    };
    read_file_in_objset(&objset, file_name, vdevs)
}

} // verus!
