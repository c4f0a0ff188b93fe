//! Block I/O: data virtual addresses, checksum and compression dispatch,
//! gang headers, and block pointers with their dereference logic.

use vstd::prelude::*;
use crate::byte_reader::{be32, le32, le64, read_bytes, read_u32_le, read_u64_le};
use crate::fletcher::{do_fletcher2, do_fletcher4, fletcher2, fletcher4};
use crate::lz4::{lz4_decode, lz4_decompress_blocks};
use crate::lzjb::{lzjb_decode, lzjb_decompress};
use crate::{
    block_entry_ok,
    checksum_matches,
    raidz_read_bytes,
    raidz_read_ok,
    raidz_sector_in_range,
    some_decompression_of,
    VdevRaidz,
};

verus! {

broadcast use vstd::slice::axiom_spec_len;

pub const GANGBLOCK_MAGIC: u64 = 0x210da7ab10c7a11;

/// The checksum algorithm named by a block pointer or DNode.
#[derive(Debug, PartialEq, Eq, Clone, Copy, Hash, Structural)]
pub enum ChecksumMethod {
    Inherit,
    On,
    Off,
    Label,
    GangHeader,
    Zilog,
    Fletcher2,
    Fletcher4,
    Sha256,
    Zilog2,
    NoParity,
    Sha512,
    Skein,
    Edonr,
    Blake3,
}

/// The on-disk discriminant of a checksum method.
pub open spec fn checksum_method_value(m: ChecksumMethod) -> u8 {
    match m {
        ChecksumMethod::Inherit => 0,
        ChecksumMethod::On => 1,
        ChecksumMethod::Off => 2,
        ChecksumMethod::Label => 3,
        ChecksumMethod::GangHeader => 4,
        ChecksumMethod::Zilog => 5,
        ChecksumMethod::Fletcher2 => 6,
        ChecksumMethod::Fletcher4 => 7,
        ChecksumMethod::Sha256 => 8,
        ChecksumMethod::Zilog2 => 9,
        ChecksumMethod::NoParity => 10,
        ChecksumMethod::Sha512 => 11,
        ChecksumMethod::Skein => 12,
        ChecksumMethod::Edonr => 13,
        ChecksumMethod::Blake3 => 14,
    }
}

impl ChecksumMethod {
    pub fn from_value(value: usize) -> (r: Option<ChecksumMethod>)
        ensures
            match r {
                Some(m) => value == checksum_method_value(m),
                None => value > 14,
            },
    {
        Some(
            match value {
                0 => ChecksumMethod::Inherit,
                1 => ChecksumMethod::On,
                2 => ChecksumMethod::Off,
                3 => ChecksumMethod::Label,
                4 => ChecksumMethod::GangHeader,
                5 => ChecksumMethod::Zilog,
                6 => ChecksumMethod::Fletcher2,
                7 => ChecksumMethod::Fletcher4,
                8 => ChecksumMethod::Sha256,
                9 => ChecksumMethod::Zilog2,
                10 => ChecksumMethod::NoParity,
                11 => ChecksumMethod::Sha512,
                12 => ChecksumMethod::Skein,
                13 => ChecksumMethod::Edonr,
                14 => ChecksumMethod::Blake3,
                _ => {
                    return None;
                },
            },
        )
    }

    /// The on-disk discriminant of this method.
    pub fn value(&self) -> (r: u8)
        ensures
            r == checksum_method_value(*self),
    {
        match self {
            ChecksumMethod::Inherit => 0,
            ChecksumMethod::On => 1,
            ChecksumMethod::Off => 2,
            ChecksumMethod::Label => 3,
            ChecksumMethod::GangHeader => 4,
            ChecksumMethod::Zilog => 5,
            ChecksumMethod::Fletcher2 => 6,
            ChecksumMethod::Fletcher4 => 7,
            ChecksumMethod::Sha256 => 8,
            ChecksumMethod::Zilog2 => 9,
            ChecksumMethod::NoParity => 10,
            ChecksumMethod::Sha512 => 11,
            ChecksumMethod::Skein => 12,
            ChecksumMethod::Edonr => 13,
            ChecksumMethod::Blake3 => 14,
        }
    }
}

/// The compression algorithm named by a block pointer or DNode.
#[derive(Debug, PartialEq, Eq, Clone, Copy, Structural)]
pub enum CompressionMethod {
    Inherit,
    On,
    Off,
    Lzjb,
    Empty,
    Gzip1,
    Gzip2,
    Gzip3,
    Gzip4,
    Gzip5,
    Gzip6,
    Gzip7,
    Gzip8,
    Gzip9,
    Zle,
    Lz4,
    Zstd,
}

/// The on-disk discriminant of a compression method.
pub open spec fn compression_method_value(m: CompressionMethod) -> u8 {
    match m {
        CompressionMethod::Inherit => 0,
        CompressionMethod::On => 1,
        CompressionMethod::Off => 2,
        CompressionMethod::Lzjb => 3,
        CompressionMethod::Empty => 4,
        CompressionMethod::Gzip1 => 5,
        CompressionMethod::Gzip2 => 6,
        CompressionMethod::Gzip3 => 7,
        CompressionMethod::Gzip4 => 8,
        CompressionMethod::Gzip5 => 9,
        CompressionMethod::Gzip6 => 10,
        CompressionMethod::Gzip7 => 11,
        CompressionMethod::Gzip8 => 12,
        CompressionMethod::Gzip9 => 13,
        CompressionMethod::Zle => 14,
        CompressionMethod::Lz4 => 15,
        CompressionMethod::Zstd => 16,
    }
}

impl CompressionMethod {
    pub fn from_value(value: usize) -> (r: Option<CompressionMethod>)
        ensures
            match r {
                Some(m) => value == compression_method_value(m),
                None => value > 16,
            },
    {
        Some(
            match value {
                0 => CompressionMethod::Inherit,
                1 => CompressionMethod::On,
                2 => CompressionMethod::Off,
                3 => CompressionMethod::Lzjb,
                4 => CompressionMethod::Empty,
                5 => CompressionMethod::Gzip1,
                6 => CompressionMethod::Gzip2,
                7 => CompressionMethod::Gzip3,
                8 => CompressionMethod::Gzip4,
                9 => CompressionMethod::Gzip5,
                10 => CompressionMethod::Gzip6,
                11 => CompressionMethod::Gzip7,
                12 => CompressionMethod::Gzip8,
                13 => CompressionMethod::Gzip9,
                14 => CompressionMethod::Zle,
                15 => CompressionMethod::Lz4,
                16 => CompressionMethod::Zstd,
                _ => {
                    return None;
                },
            },
        )
    }
}

/// Whether the library can compute this checksum kind.
pub open spec fn checksum_supported(m: ChecksumMethod) -> bool {
    m == ChecksumMethod::Fletcher4 || m == ChecksumMethod::GangHeader || m == ChecksumMethod::On
        || m == ChecksumMethod::Fletcher2
}

/// The checksum of `data` under `m`, where supported.
pub open spec fn checksum_spec(m: ChecksumMethod, data: Seq<u8>) -> Option<Seq<u64>> {
    if m == ChecksumMethod::Fletcher4 || m == ChecksumMethod::GangHeader || m
        == ChecksumMethod::On {
        Some(fletcher4(data))
    } else if m == ChecksumMethod::Fletcher2 {
        Some(fletcher2(data))
    } else {
        None
    }
}

/// Compute the checksum of a block under `checksum_method`; unsupported
/// kinds yield `None`.
pub fn try_checksum_block(block_data: &[u8], checksum_method: ChecksumMethod) -> (r: Option<
    [u64; 4],
>)
    ensures
        match r {
            Some(c) => checksum_spec(checksum_method, block_data@) == Some(c@),
            None => !checksum_supported(checksum_method),
        },
        r is Some <==> checksum_supported(checksum_method),
{
    match checksum_method {
        ChecksumMethod::Fletcher4 | ChecksumMethod::GangHeader | ChecksumMethod::On => Some(
            do_fletcher4(block_data),
        ),
        ChecksumMethod::Fletcher2 => Some(do_fletcher2(block_data)),
        _ => None,
    }
}

/// The decompression of `data` under `m` toward `output_size` logical
/// bytes; `None` when the kind is unsupported or the stream is invalid.
pub open spec fn decompress_spec(m: CompressionMethod, data: Seq<u8>, output_size: int) -> Option<
    Seq<u8>,
> {
    if m == CompressionMethod::Off {
        Some(data)
    } else if m == CompressionMethod::Lz4 || m == CompressionMethod::On {
        if data.len() < 4 {
            None
        } else {
            let comp_size = be32(data, 0) as int;
            if comp_size + 4 > data.len() {
                None
            } else {
                match lz4_decode(data.subrange(4, 4 + comp_size)) {
                    Ok(v) => Some(v),
                    Err(_) => None,
                }
            }
        }
    } else if m == CompressionMethod::Lzjb {
        lzjb_decode(data, output_size)
    } else {
        None
    }
}

/// A successful decompression witnesses `some_decompression_of`.
pub proof fn lemma_decompress_spec_witness(
    m: CompressionMethod,
    data: Seq<u8>,
    output_size: int,
    logical: Seq<u8>,
)
    requires
        decompress_spec(m, data, output_size) == Some(logical),
        output_size == logical.len(),
    ensures
        some_decompression_of(data, logical),
{
}

/// Decompress a physical block to `output_size` logical bytes (the size is
/// only consulted by the LZJB coder).  The `Err` payload is partial output.
pub fn try_decompress_block(
    block_data: &[u8],
    compression_method: CompressionMethod,
    output_size: usize,
) -> (r: Result<Vec<u8>, Vec<u8>>)
    requires
        block_data@.len() <= 0x1000_0000,
    ensures
        match r {
            Ok(v) => decompress_spec(compression_method, block_data@, output_size as int) == Some(
                v@,
            ),
            Err(_) => decompress_spec(compression_method, block_data@, output_size as int)
                is None,
        },
{
    match compression_method {
        CompressionMethod::Off => Ok(read_bytes(block_data, 0, block_data.len())),
        CompressionMethod::Lz4 | CompressionMethod::On => {
            if block_data.len() < 4 {
                return Err(Vec::new());
            }
            let comp_size = crate::byte_reader::read_u32_be(block_data, 0);
            if comp_size as u64 + 4 > block_data.len() as u64 {
                return Err(Vec::new());
            }
            let payload = read_bytes(block_data, 4, comp_size as usize);
            match lz4_decompress_blocks(payload.as_slice(), Some(output_size)) {
                Ok(v) => Ok(v),
                Err(e) => Err(e),
            }
        },
        CompressionMethod::Lzjb => {
            match lzjb_decompress(block_data, output_size) {
                Ok(v) => Ok(v),
                Err(_) => Err(Vec::new()),
            }
        },
        _ => Err(Vec::new()),
    }
}

/// A data virtual address: a device id, an offset and an allocated size in
/// 512-byte sectors, and the gang bit.
#[derive(Debug, Clone, Copy, PartialEq, Eq, Structural)]
pub struct DataVirtualAddress {
    pub vdev_id: u32,
    pub data_allocated_size_minus_one_in_512b_sectors: u32,
    pub offset_in_512b_sectors: u64,
    pub is_gang: bool,
}

impl DataVirtualAddress {
    pub open spec fn spec_offset(self) -> int {
        self.offset_in_512b_sectors * 512
    }

    pub fn get_ondisk_size() -> (r: usize)
        ensures
            r == 16,
    {
        16
    }

    /// Parse a DVA from 16 bytes; an all-zero DVA marks absence.
    pub fn from_bytes_le(data: &[u8], off: usize) -> (r: Option<DataVirtualAddress>)
        requires
            off + 16 <= data@.len(),
        ensures
            match r {
                Some(d) => {
                    &&& d.vdev_id == (le32(data@, off as int) & 0xFF_FF_FF_00) >> 8
                    &&& d.data_allocated_size_minus_one_in_512b_sectors == (le32(
                        data@,
                        off + 4,
                    ) & 0xFF_FF_FF_00) >> 8
                    &&& d.offset_in_512b_sectors == le64(data@, off + 8) & 0x7FFF_FFFF_FFFF_FFFF
                    &&& d.is_gang == (le64(data@, off + 8) & 0x8000_0000_0000_0000 != 0)
                    &&& !((le32(data@, off as int) & 0xFF_FF_FF_00) >> 8 == 0 && le32(
                        data@,
                        off + 4,
                    ) == 0 && le64(data@, off + 8) == 0)
                },
                None => (le32(data@, off as int) & 0xFF_FF_FF_00) >> 8 == 0 && le32(
                    data@,
                    off + 4,
                ) == 0 && le64(data@, off + 8) == 0,
            },
    {
        let _n: usize = data.len();
        let vdev_id = (read_u32_le(data, off) & 0xFF_FF_FF_00) >> 8;
        let grid_and_asize = read_u32_le(data, off + 4);
        let offset_and_gang_bit = read_u64_le(data, off + 8);
        if vdev_id == 0 && grid_and_asize == 0 && offset_and_gang_bit == 0 {
            return None;
        }
        Some(
            DataVirtualAddress {
                vdev_id,
                data_allocated_size_minus_one_in_512b_sectors: (grid_and_asize & 0xFF_FF_FF_00)
                    >> 8,
                offset_in_512b_sectors: offset_and_gang_bit & 0x7FFF_FFFF_FFFF_FFFF,
                is_gang: offset_and_gang_bit & 0x8000_0000_0000_0000 != 0,
            },
        )
    }

    pub fn from(vdev_id: u32, offset_in_bytes: u64, is_gang: bool) -> (r: DataVirtualAddress)
        ensures
            r.vdev_id == vdev_id,
            r.offset_in_512b_sectors == offset_in_bytes / 512,
            r.is_gang == is_gang,
            r.data_allocated_size_minus_one_in_512b_sectors == 0,
    {
        DataVirtualAddress {
            vdev_id,
            data_allocated_size_minus_one_in_512b_sectors: 0,
            offset_in_512b_sectors: offset_in_bytes / 512,
            is_gang,
        }
    }

    /// The allocated size in bytes.
    pub fn parse_allocated_size(&self) -> (r: u64)
        ensures
            r == (self.data_allocated_size_minus_one_in_512b_sectors + 1) * 512,
    {
        (self.data_allocated_size_minus_one_in_512b_sectors as u64 + 1) * 512
    }

    /// The byte offset from the start of the striped address space; an
    /// offset too large for the address space is rejected.
    pub fn parse_offset(&self) -> (r: Result<u64, ()>)
        ensures
            match r {
                Ok(o) => o == self.spec_offset() && self.spec_offset() <= u64::MAX,
                Err(_) => self.spec_offset() > u64::MAX,
            },
    {
        if self.offset_in_512b_sectors > u64::MAX / 512 {
            proof {
                crate::arith::lemma_le_div_iff(
                    self.offset_in_512b_sectors as int,
                    512,
                    u64::MAX as int,
                );
            }
            return Err(());
        }
        proof {
            crate::arith::lemma_le_div_iff(
                self.offset_in_512b_sectors as int,
                512,
                u64::MAX as int,
            );
        }
        Ok(self.offset_in_512b_sectors * 512)
    }
}

/// One column's sectors, taken every `n` sectors starting at `idx`.
pub open spec fn col_sectors_from(data: Seq<u8>, asize: int, n: int, idx: int) -> Seq<u8>
    decreases data.len() + n - idx when 0 <= idx && 1 <= n && 1 <= asize
        via col_sectors_from_dec
{
    if (idx + 1) * asize > data.len() {
        Seq::empty()
    } else {
        data.subrange(idx * asize, (idx + 1) * asize) + col_sectors_from(data, asize, n, idx + n)
    }
}

#[via_fn]
proof fn col_sectors_from_dec(data: Seq<u8>, asize: int, n: int, idx: int) {
    if 0 <= idx && 1 <= n && 1 <= asize && (idx + 1) * asize <= data.len() {
        assert(idx <= idx * asize && idx * asize < (idx + 1) * asize) by (nonlinear_arith)
            requires
                0 <= idx,
                1 <= asize,
        ;
    }
}

/// The physical column that logical column `col` maps to: on single-parity
/// pools in an odd megabyte, columns 0 and 1 trade places.
pub open spec fn raidz_col_map(rotated: bool, col: int) -> int {
    if rotated && col == 0 {
        1
    } else if rotated && col == 1 {
        0
    } else {
        col
    }
}

/// The data columns `col..n`, each mapped through the rotation, in column
/// major order.
pub open spec fn transpose_from(
    data: Seq<u8>,
    asize: int,
    n: int,
    rotated: bool,
    col: int,
) -> Seq<u8>
    decreases n - col,
{
    if col >= n {
        Seq::empty()
    } else {
        col_sectors_from(data, asize, n, raidz_col_map(rotated, col)) + transpose_from(
            data,
            asize,
            n,
            rotated,
            col + 1,
        )
    }
}

/// What a raw RAIDZ dereference of `size` bytes at `off` returns: the data
/// columns of the sectors holding the block, parity skipped, truncated to
/// `size`.
pub open spec fn dva_raidz_bytes(
    devs: Seq<Seq<u8>>,
    asize: int,
    n: int,
    p: int,
    off: int,
    size: int,
    swp: int,
) -> Seq<u8> {
    let raw = raidz_read_bytes(devs, asize, off, swp);
    let rotated = p == 1 && (off / 0x100000) % 2 == 1;
    transpose_from(raw, asize, n, rotated, p).take(size)
}

/// The information word of a block pointer: byte 48 of its 128 bytes.
pub open spec fn bp_info(s: Seq<u8>, off: int) -> u64 {
    le64(s, off + 48)
}

/// Whether the 128 bytes at `off` carry the embedded bit.
pub open spec fn bp_is_embedded(s: Seq<u8>, off: int) -> bool {
    (bp_info(s, off) >> 39) & 1 == 1
}

/// The result of parsing the 16 bytes at `off` as a DVA; all-zero means
/// absent.
pub open spec fn dva_spec(s: Seq<u8>, off: int) -> Option<DataVirtualAddress> {
    if (le32(s, off) & 0xFF_FF_FF_00) >> 8 == 0 && le32(s, off + 4) == 0 && le64(s, off + 8)
        == 0 {
        None
    } else {
        Some(
            DataVirtualAddress {
                vdev_id: (le32(s, off) & 0xFF_FF_FF_00) >> 8,
                data_allocated_size_minus_one_in_512b_sectors: (le32(s, off + 4) & 0xFF_FF_FF_00)
                    >> 8,
                offset_in_512b_sectors: le64(s, off + 8) & 0x7FFF_FFFF_FFFF_FFFF,
                is_gang: le64(s, off + 8) & 0x8000_0000_0000_0000 != 0,
            },
        )
    }
}

/// A normal (non-embedded) block pointer.
pub struct NormalBlockPointer {
    pub dvas: [Option<DataVirtualAddress>; 3],
    pub level: usize,
    pub fill: u64,
    pub logical_birth_txg: u64,
    pub typ: crate::dmu::ObjType,
    pub checksum_method: ChecksumMethod,
    pub compression_method: CompressionMethod,
    pub physical_size_in_512b_sectors_minus_one: u16,
    pub logical_size_in_512b_sectors_minus_one: u16,
    pub checksum: [u64; 4],
}

/// Whether the 128 bytes at `off` parse as a normal block pointer: not
/// embedded, not encrypted, little-endian, with known type tags.
pub open spec fn normal_bp_parseable(s: Seq<u8>, off: int) -> bool {
    let info = bp_info(s, off);
    &&& (info >> 39) & 1 == 0
    &&& (info >> 61) & 1 == 0
    &&& (info >> 63) & 1 == 1
    &&& (info >> 48) & 0xFF <= 53
    &&& (info >> 40) & 0xFF <= 14
    &&& (info >> 32) & 0x7F <= 16
}

/// The field equations tying a parsed normal block pointer to its bytes.
pub open spec fn normal_bp_matches(bp: NormalBlockPointer, s: Seq<u8>, off: int) -> bool {
    let info = bp_info(s, off);
    &&& bp.dvas@ == seq![dva_spec(s, off), dva_spec(s, off + 16), dva_spec(s, off + 32)]
    &&& bp.level == ((info >> 56) & 0x1F) as usize
    &&& crate::dmu::obj_type_value(bp.typ) == ((info >> 48) & 0xFF) as usize
    &&& checksum_method_value(bp.checksum_method) as u64 == (info >> 40) & 0xFF
    &&& compression_method_value(bp.compression_method) as u64 == (info >> 32) & 0x7F
    &&& bp.physical_size_in_512b_sectors_minus_one == ((info >> 16) & 0xFFFF) as u16
    &&& bp.logical_size_in_512b_sectors_minus_one == (info & 0xFFFF) as u16
    &&& bp.logical_birth_txg == le64(s, off + 80)
    &&& bp.fill == le64(s, off + 88)
    &&& bp.checksum@ == seq![
        le64(s, off + 96),
        le64(s, off + 104),
        le64(s, off + 112),
        le64(s, off + 120),
    ]
}

/// Logical size in bytes of a normal pointer (stored as sectors minus one).
pub open spec fn normal_lsize(bp: NormalBlockPointer) -> int {
    (bp.logical_size_in_512b_sectors_minus_one as int + 1) * 512
}

/// Physical size in bytes of a normal pointer.
pub open spec fn normal_psize(bp: NormalBlockPointer) -> int {
    (bp.physical_size_in_512b_sectors_minus_one as int + 1) * 512
}

/// The block-cache key of a normal pointer.
pub open spec fn bp_cache_key(bp: NormalBlockPointer) -> ([u64; 4], u8) {
    (bp.checksum, checksum_method_value(bp.checksum_method))
}

impl NormalBlockPointer {
    pub fn from_bytes_le(data: &[u8], off: usize) -> (r: Option<NormalBlockPointer>)
        requires
            off + 128 <= data@.len(),
        ensures
            r is Some <==> normal_bp_parseable(data@, off as int),
            match r {
                Some(bp) => normal_bp_matches(bp, data@, off as int),
                None => true,
            },
    {
        let _n: usize = data.len();
        let dva1 = DataVirtualAddress::from_bytes_le(data, off);
        let dva2 = DataVirtualAddress::from_bytes_le(data, off + 16);
        let dva3 = DataVirtualAddress::from_bytes_le(data, off + 32);
        let info = read_u64_le(data, off + 48);
        proof {
            assert((info >> 48) & 0xFF < 256 && (info >> 40) & 0xFF < 256 && (info >> 32) & 0x7F
                < 128 && (info >> 56) & 0x1F < 32 && (info >> 16) & 0xFFFF < 65536 && info & 0xFFFF
                < 65536 && (info >> 24) & 0xFF < 256 && info & 0xFF_FF_FF < 0x100_0000) by (bit_vector);
        }
        if (info >> 39) & 1 != 0 {
            return None;
        }
        if (info >> 61) & 1 != 0 {
            return None;
        }
        if (info >> 63) & 1 != 1 {
            return None;
        }
        let typ = match crate::dmu::ObjType::from_value(((info >> 48) & 0xFF) as usize) {
            Some(t) => t,
            None => {
                return None;
            },
        };
        let checksum_method = match ChecksumMethod::from_value(((info >> 40) & 0xFF) as usize) {
            Some(m) => m,
            None => {
                return None;
            },
        };
        let compression_method = match CompressionMethod::from_value(
            ((info >> 32) & 0x7F) as usize,
        ) {
            Some(m) => m,
            None => {
                return None;
            },
        };
        let logical_birth_txg = read_u64_le(data, off + 80);
        let fill = read_u64_le(data, off + 88);
        let checksum = [
            read_u64_le(data, off + 96),
            read_u64_le(data, off + 104),
            read_u64_le(data, off + 112),
            read_u64_le(data, off + 120),
        ];
        let bp = NormalBlockPointer {
            dvas: [dva1, dva2, dva3],
            level: ((info >> 56) & 0x1F) as usize,
            fill,
            logical_birth_txg,
            typ,
            checksum_method,
            compression_method,
            physical_size_in_512b_sectors_minus_one: ((info >> 16) & 0xFFFF) as u16,
            logical_size_in_512b_sectors_minus_one: (info & 0xFFFF) as u16,
            checksum,
        };
        proof {
            assert(bp.dvas@ =~= seq![
                dva_spec(data@, off as int),
                dva_spec(data@, off + 16),
                dva_spec(data@, off + 32),
            ]);
            assert(bp.checksum@ =~= seq![
                le64(data@, off + 96),
                le64(data@, off + 104),
                le64(data@, off + 112),
                le64(data@, off + 120),
            ]);
        }
        Some(bp)
    }

    /// Logical size of the data this pointer addresses, in bytes.
    pub fn parse_logical_size(&self) -> (r: u64)
        ensures
            r == normal_lsize(*self),
    {
        (self.logical_size_in_512b_sectors_minus_one as u64 + 1) * 512
    }

    /// Physical (allocated) size of the data this pointer addresses, in
    /// bytes.
    pub fn parse_physical_size(&self) -> (r: u64)
        ensures
            r == normal_psize(*self),
    {
        (self.physical_size_in_512b_sectors_minus_one as u64 + 1) * 512
    }
}

/// An embedded block pointer: the payload is inlined in the pointer.
pub struct EmbeddedBlockPointer {
    pub payload: Vec<u8>,
    pub logical_birth_txg: u64,
    pub level: usize,
    pub typ: crate::dmu::ObjType,
    pub embedded_data_type: crate::dmu::ObjType,
    pub compression_method: CompressionMethod,
    pub physical_size_in_bytes: u8,
    pub logical_size_in_bytes: u32,
}

pub open spec fn embedded_bp_parseable(s: Seq<u8>, off: int) -> bool {
    let info = bp_info(s, off);
    &&& (info >> 39) & 1 == 1
    &&& (info >> 61) & 1 == 0
    &&& (info >> 63) & 1 == 1
    &&& (info >> 48) & 0xFF <= 53
    &&& (info >> 40) & 0xFF <= 53
    &&& (info >> 32) & 0x7F <= 16
}

pub open spec fn embedded_bp_matches(e: EmbeddedBlockPointer, s: Seq<u8>, off: int) -> bool {
    let info = bp_info(s, off);
    &&& e.payload@ == s.subrange(off, off + 48) + s.subrange(off + 56, off + 80) + s.subrange(
        off + 88,
        off + 128,
    )
    &&& e.level == ((info >> 56) & 0x1F) as usize
    &&& crate::dmu::obj_type_value(e.typ) == ((info >> 48) & 0xFF) as usize
    &&& crate::dmu::obj_type_value(e.embedded_data_type) == ((info >> 40) & 0xFF) as usize
    &&& compression_method_value(e.compression_method) as u64 == (info >> 32) & 0x7F
    &&& e.physical_size_in_bytes == ((info >> 24) & 0xFF) as u8
    &&& e.logical_size_in_bytes == (info & 0xFF_FF_FF) as u32
    &&& e.logical_birth_txg == le64(s, off + 80)
}

/// Logical size in bytes of an embedded pointer (stored minus one).
pub open spec fn embedded_lsize(e: EmbeddedBlockPointer) -> int {
    e.logical_size_in_bytes as int + 1
}

/// Physical size in bytes of an embedded pointer (stored minus one).
pub open spec fn embedded_psize(e: EmbeddedBlockPointer) -> int {
    e.physical_size_in_bytes as int + 1
}

/// What dereferencing an embedded pointer yields: the payload truncated to
/// the physical size, decompressed to exactly the logical size.
pub open spec fn embedded_deref_spec(e: EmbeddedBlockPointer) -> Option<Seq<u8>> {
    let phys = if e.payload@.len() > embedded_psize(e) {
        e.payload@.take(embedded_psize(e))
    } else {
        e.payload@
    };
    match decompress_spec(e.compression_method, phys, embedded_lsize(e)) {
        Some(l) => if l.len() == embedded_lsize(e) {
            Some(l)
        } else {
            None
        },
        None => None,
    }
}

impl EmbeddedBlockPointer {
    pub fn from_bytes_le(data: &[u8], off: usize) -> (r: Option<EmbeddedBlockPointer>)
        requires
            off + 128 <= data@.len(),
        ensures
            r is Some <==> embedded_bp_parseable(data@, off as int),
            match r {
                Some(e) => embedded_bp_matches(e, data@, off as int),
                None => true,
            },
    {
        let _n: usize = data.len();
        let info = read_u64_le(data, off + 48);
        proof {
            assert((info >> 48) & 0xFF < 256 && (info >> 40) & 0xFF < 256 && (info >> 32) & 0x7F
                < 128 && (info >> 56) & 0x1F < 32 && (info >> 16) & 0xFFFF < 65536 && info & 0xFFFF
                < 65536 && (info >> 24) & 0xFF < 256 && info & 0xFF_FF_FF < 0x100_0000) by (bit_vector);
        }
        if (info >> 39) & 1 != 1 {
            return None;
        }
        if (info >> 61) & 1 != 0 {
            return None;
        }
        if (info >> 63) & 1 != 1 {
            return None;
        }
        let typ = match crate::dmu::ObjType::from_value(((info >> 48) & 0xFF) as usize) {
            Some(t) => t,
            None => {
                return None;
            },
        };
        let embedded_data_type = match crate::dmu::ObjType::from_value(
            ((info >> 40) & 0xFF) as usize,
        ) {
            Some(t) => t,
            None => {
                return None;
            },
        };
        let compression_method = match CompressionMethod::from_value(
            ((info >> 32) & 0x7F) as usize,
        ) {
            Some(m) => m,
            None => {
                return None;
            },
        };
        let mut payload = read_bytes(data, off, 48);
        let mut mid = read_bytes(data, off + 56, 24);
        let mut tail = read_bytes(data, off + 88, 40);
        payload.append(&mut mid);
        payload.append(&mut tail);
        let logical_birth_txg = read_u64_le(data, off + 80);
        let e = EmbeddedBlockPointer {
            payload,
            logical_birth_txg,
            level: ((info >> 56) & 0x1F) as usize,
            typ,
            embedded_data_type,
            compression_method,
            physical_size_in_bytes: ((info >> 24) & 0xFF) as u8,
            logical_size_in_bytes: (info & 0xFF_FF_FF) as u32,
        };
        Some(e)
    }

    pub fn parse_logical_size(&self) -> (r: u64)
        ensures
            r == embedded_lsize(*self),
    {
        self.logical_size_in_bytes as u64 + 1
    }

    pub fn parse_physical_size(&self) -> (r: u64)
        ensures
            r == embedded_psize(*self),
    {
        self.physical_size_in_bytes as u64 + 1
    }

    /// Decode the inlined payload.  There is no checksum step: an embedded
    /// pointer is covered by its parent's checksum.
    pub fn dereference(&self) -> (r: Result<Vec<u8>, ()>)
        requires
            self.payload@.len() <= 0x1000_0000,
            self.logical_size_in_bytes <= 0xFF_FF_FF,
        ensures
            match r {
                Ok(v) => embedded_deref_spec(*self) == Some(v@),
                Err(_) => embedded_deref_spec(*self) is None,
            },
    {
        let psize = self.physical_size_in_bytes as usize + 1;
        let lsize = self.logical_size_in_bytes as usize + 1;
        let mut data = read_bytes(self.payload.as_slice(), 0, self.payload.len());
        if data.len() > psize {
            data.truncate(psize);
        }
        proof {
            assert(data@ == if self.payload@.len() > embedded_psize(*self) {
                self.payload@.take(embedded_psize(*self))
            } else {
                self.payload@
            });
        }
        let out = match try_decompress_block(data.as_slice(), self.compression_method, lsize) {
            Ok(v) => v,
            Err(_) => {
                return Err(());
            },
        };
        if out.len() != lsize {
            return Err(());
        }
        Ok(out)
    }
}

/// A block pointer: either normal or embedded.
pub enum BlockPointer {
    Normal(NormalBlockPointer),
    Embedded(EmbeddedBlockPointer),
}

pub open spec fn bp_matches(bp: BlockPointer, s: Seq<u8>, off: int) -> bool {
    match bp {
        BlockPointer::Normal(b) => !bp_is_embedded(s, off) && normal_bp_matches(b, s, off),
        BlockPointer::Embedded(e) => bp_is_embedded(s, off) && embedded_bp_matches(e, s, off),
    }
}

pub open spec fn bp_parseable(s: Seq<u8>, off: int) -> bool {
    if bp_is_embedded(s, off) {
        embedded_bp_parseable(s, off)
    } else {
        normal_bp_parseable(s, off)
    }
}

/// Logical size in bytes of either pointer form.
pub open spec fn bp_lsize(bp: BlockPointer) -> int {
    match bp {
        BlockPointer::Normal(b) => normal_lsize(b),
        BlockPointer::Embedded(e) => embedded_lsize(e),
    }
}

/// Physical size in bytes of either pointer form.
pub open spec fn bp_psize(bp: BlockPointer) -> int {
    match bp {
        BlockPointer::Normal(b) => normal_psize(b),
        BlockPointer::Embedded(e) => embedded_psize(e),
    }
}

impl BlockPointer {
    pub fn get_ondisk_size() -> (r: usize)
        ensures
            r == 128,
    {
        128
    }

    /// The information word, read without parsing the whole pointer.
    pub fn get_info_form_bytes_le(data: &[u8], off: usize) -> (r: u64)
        requires
            off + 128 <= data@.len(),
        ensures
            r == bp_info(data@, off as int),
    {
        let _n: usize = data.len();
        read_u64_le(data, off + 48)
    }

    pub fn from_bytes_le(data: &[u8], off: usize) -> (r: Option<BlockPointer>)
        requires
            off + 128 <= data@.len(),
        ensures
            r is Some <==> bp_parseable(data@, off as int),
            match r {
                Some(bp) => bp_matches(bp, data@, off as int),
                None => true,
            },
    {
        let info = BlockPointer::get_info_form_bytes_le(data, off);
        if (info >> 39) & 1 == 1 {
            match EmbeddedBlockPointer::from_bytes_le(data, off) {
                Some(e) => Some(BlockPointer::Embedded(e)),
                None => None,
            }
        } else {
            match NormalBlockPointer::from_bytes_le(data, off) {
                Some(b) => Some(BlockPointer::Normal(b)),
                None => None,
            }
        }
    }

    pub fn parse_logical_size(&self) -> (r: u64)
        ensures
            r == bp_lsize(*self),
    {
        match self {
            BlockPointer::Normal(b) => b.parse_logical_size(),
            BlockPointer::Embedded(e) => e.parse_logical_size(),
        }
    }

    pub fn parse_physical_size(&self) -> (r: u64)
        ensures
            r == bp_psize(*self),
    {
        match self {
            BlockPointer::Normal(b) => b.parse_physical_size(),
            BlockPointer::Embedded(e) => e.parse_physical_size(),
        }
    }
}

/// A gang header: up to three child block pointers, a magic word, and a
/// self checksum, in 512 bytes.
pub struct GangBlock {
    pub bps: [Option<BlockPointer>; 3],
    pub magic: u64,
    pub checksum: [u64; 4],
}

impl GangBlock {
    pub fn get_ondisk_size() -> (r: usize)
        ensures
            r == 512,
    {
        512
    }

    pub fn from_bytes_le(data: &[u8], off: usize) -> (r: GangBlock)
        requires
            off + 512 <= data@.len(),
        ensures
            forall|k: int|
                0 <= k < 3 ==> match #[trigger] r.bps@[k] {
                    Some(bp) => bp_matches(bp, data@, off + 128 * k),
                    None => !bp_parseable(data@, off + 128 * k),
                },
            r.magic == le64(data@, off + 472),
            r.checksum@ == seq![
                le64(data@, off + 480),
                le64(data@, off + 488),
                le64(data@, off + 496),
                le64(data@, off + 504),
            ],
    {
        let _n: usize = data.len();
        let bp1 = BlockPointer::from_bytes_le(data, off);
        let bp2 = BlockPointer::from_bytes_le(data, off + 128);
        let bp3 = BlockPointer::from_bytes_le(data, off + 256);
        let magic = read_u64_le(data, off + 472);
        let checksum = [
            read_u64_le(data, off + 480),
            read_u64_le(data, off + 488),
            read_u64_le(data, off + 496),
            read_u64_le(data, off + 504),
        ];
        let r = GangBlock { bps: [bp1, bp2, bp3], magic, checksum };
        proof {
            assert(r.checksum@ =~= seq![
                le64(data@, off + 480),
                le64(data@, off + 488),
                le64(data@, off + 496),
                le64(data@, off + 504),
            ]);
        }
        r
    }
}

/// Ceiling division as the dereference code computes it.
pub open spec fn ceil_div(a: int, b: int) -> int {
    if a % b == 0 {
        a / b
    } else {
        a / b + 1
    }
}

/// How many sectors (data plus interspersed parity) a block of `size`
/// bytes occupies on a RAIDZ with `n` devices and `p` parity columns.
pub open spec fn raidz_total_sectors(size: int, asize: int, n: int, p: int) -> int {
    let nds = ceil_div(size, asize);
    let st = ceil_div(nds, n - p);
    nds + st * p
}

/// The byte span read from the striped address space for such a block.
pub open spec fn dva_swp(size: int, asize: int, n: int, p: int) -> int {
    raidz_total_sectors(size, asize, n, p) * asize
}

/// Whether the single-parity rotation applies at byte offset `off`.
pub open spec fn rotated_at(p: int, off: int) -> bool {
    p == 1 && (off / 0x100000) % 2 == 1
}

/// Whether a raw (non-gang) dereference of `size` bytes at `dva` succeeds.
pub open spec fn dva_raw_read_ok(
    devs: Seq<Seq<u8>>,
    asize: int,
    n: int,
    p: int,
    dva: DataVirtualAddress,
    size: int,
) -> bool {
    let off = dva.spec_offset();
    let swp = dva_swp(size, asize, n, p);
    &&& off <= u64::MAX
    &&& swp <= usize::MAX
    &&& raidz_read_ok(devs, asize, off, swp)
    &&& transpose_from(
        raidz_read_bytes(devs, asize, off, swp),
        asize,
        n,
        rotated_at(p, off),
        p,
    ).len() >= size
}

/// The bytes a raw dereference returns: the rotated data columns of the
/// sectors under the block, truncated to `size`.
pub open spec fn dva_raw_read_bytes(
    devs: Seq<Seq<u8>>,
    asize: int,
    n: int,
    p: int,
    dva: DataVirtualAddress,
    size: int,
) -> Seq<u8> {
    let off = dva.spec_offset();
    let swp = dva_swp(size, asize, n, p);
    transpose_from(raidz_read_bytes(devs, asize, off, swp), asize, n, rotated_at(p, off), p).take(
        size,
    )
}

/// Whether DVA slot `i` of `bp` resolves on its own account: a present,
/// plain (non-gang) address whose raw read succeeds, whose bytes carry
/// the pointer's checksum, and whose decompression fills the logical
/// size.  A resolver that is handed a fresh pointer owes success whenever
/// some slot satisfies this.
pub open spec fn dva_would_resolve(
    devs: Seq<Seq<u8>>,
    asize: int,
    n: int,
    p: int,
    bp: NormalBlockPointer,
    i: int,
) -> bool {
    &&& 0 <= i < 3
    &&& bp.dvas@[i] is Some
    &&& !(bp.dvas@[i]->Some_0).is_gang
    &&& dva_raw_read_ok(devs, asize, n, p, bp.dvas@[i]->Some_0, normal_psize(bp))
    &&& checksum_spec(
        bp.checksum_method,
        dva_raw_read_bytes(devs, asize, n, p, bp.dvas@[i]->Some_0, normal_psize(bp)),
    ) == Some(bp.checksum@)
    &&& ({
        let d = decompress_spec(
            bp.compression_method,
            dva_raw_read_bytes(devs, asize, n, p, bp.dvas@[i]->Some_0, normal_psize(bp)),
            normal_lsize(bp),
        );
        &&& d is Some
        &&& d->Some_0.len() == normal_lsize(bp)
    })
}

/// Whether an embedded pointer's fields allow dereferencing it.
pub open spec fn bp_deref_wf(bp: BlockPointer) -> bool {
    match bp {
        BlockPointer::Normal(_) => true,
        BlockPointer::Embedded(e) => e.payload@.len() <= 0x1000_0000 && e.logical_size_in_bytes
            <= 0xFF_FF_FF,
    }
}

/// A parsed block pointer is always fit for dereferencing.
pub proof fn lemma_bp_matches_deref_wf(bp: BlockPointer, s: Seq<u8>, off: int)
    requires
        bp_matches(bp, s, off),
        0 <= off,
        off + 128 <= s.len(),
    ensures
        bp_deref_wf(bp),
{
    match bp {
        BlockPointer::Normal(_) => {},
        BlockPointer::Embedded(e) => {
            let info = bp_info(s, off);
            assert(info & 0xFF_FF_FF < 0x100_0000) by (bit_vector);
        },
    }
}

impl DataVirtualAddress {
    /// Read the raw bytes under this address: the sectors covering the
    /// block, with parity columns skipped and the single-parity megabyte
    /// rotation applied.  A gang address yields its gang header bytes.
    pub fn dereference_raw(&self, vdevs: &mut VdevRaidz, size: usize) -> (r: Result<Vec<u8>, ()>)
        requires
            old(vdevs).wf(),
            size <= 0x1000_0000,
        ensures
            final(vdevs).wf(),
            VdevRaidz::same_geometry(*old(vdevs), *final(vdevs)),
            final(vdevs).block_view() == old(vdevs).block_view(),
            match r {
                Ok(v) => dva_raw_read_ok(
                    old(vdevs).dev_views(),
                    old(vdevs).spec_asize() as int,
                    old(vdevs).spec_ndevices() as int,
                    old(vdevs).spec_nparity() as int,
                    *self,
                    size as int,
                ) && v@ == dva_raw_read_bytes(
                    old(vdevs).dev_views(),
                    old(vdevs).spec_asize() as int,
                    old(vdevs).spec_ndevices() as int,
                    old(vdevs).spec_nparity() as int,
                    *self,
                    size as int,
                ),
                Err(_) => !dva_raw_read_ok(
                    old(vdevs).dev_views(),
                    old(vdevs).spec_asize() as int,
                    old(vdevs).spec_ndevices() as int,
                    old(vdevs).spec_nparity() as int,
                    *self,
                    size as int,
                ),
            },
    {
        let ghost devs = old(vdevs).dev_views();
        let ndevices: usize = match vdevs.get_raidz_info() {
            Some(info) => info.ndevices,
            None => {
                proof {
                    assert(false);
                }
                return Err(());
            },
        };
        let nparity: usize = match vdevs.get_raidz_info() {
            Some(info) => info.nparity,
            None => {
                proof {
                    assert(false);
                }
                return Err(());
            },
        };
        let asize: usize = vdevs.get_asize();
        let ghost a = asize as int;
        let ghost nd = ndevices as int;
        let asize64: u64 = asize as u64;
        let off = match self.parse_offset() {
            Ok(o) => o,
            Err(_) => {
                return Err(());
            },
        };
        let ndata: u64 = (ndevices - nparity) as u64;
        let nds: u64 = if size as u64 % asize64 == 0 {
            size as u64 / asize64
        } else {
            size as u64 / asize64 + 1
        };
        let st: u64 = if nds % ndata == 0 {
            nds / ndata
        } else {
            nds / ndata + 1
        };
        let nps: u64 = match st.checked_mul(nparity as u64) {
            Some(x) => x,
            None => {
                proof {
                    lemma_swp_at_least(
                        size as int,
                        a,
                        nd,
                        nparity as int,
                        st as int * nparity as int,
                    );
                }
                return Err(());
            },
        };
        let total: u64 = match nds.checked_add(nps) {
            Some(x) => x,
            None => {
                proof {
                    lemma_swp_at_least(size as int, a, nd, nparity as int, nds as int + nps as int);
                }
                return Err(());
            },
        };
        let swp64: u64 = match total.checked_mul(asize64) {
            Some(x) => x,
            None => {
                proof {
                    lemma_swp_exceeds(size as int, a, nd, nparity as int);
                }
                return Err(());
            },
        };
        if swp64 > usize::MAX as u64 {
            return Err(());
        }
        if swp64 > 0x8000_0000_0000_0000 {
            proof {
                vdevs.lemma_big_pos_unreadable(off as int + swp64 - 1);
                assert(!raidz_read_ok(devs, a, off as int, swp64 as int)) by {
                    assert(!raidz_sector_in_range(
                        devs,
                        a,
                        (off as int + (swp64 - 1)) / a,
                    ));
                }
            }
            return Err(());
        }
        let res = match vdevs.read(off, swp64 as usize) {
            Ok(v) => v,
            Err(_) => {
                return Err(());
            },
        };
        let rotated: bool = nparity == 1 && (off / 0x100000) % 2 == 1;
        let ghost rot = rotated_at(nparity as int, off as int);
        let ghost target = transpose_from(res@, a, nd, rot, nparity as int);
        let mut out: Vec<u8> = Vec::new();
        let mut col: usize = nparity;
        proof {
            assert(out@ + target =~= target);
        }
        while col < ndevices
            invariant
                nparity <= col <= ndevices,
                nparity < ndevices <= 0x1_0000,
                1 <= asize <= 0x100_0000,
                a == asize as int,
                nd == ndevices as int,
                asize64 == asize as u64,
                res@.len() == swp64,
                swp64 <= 0x8000_0000_0000_0000,
                rotated == rot,
                target == transpose_from(res@, a, nd, rot, nparity as int),
                out@ + transpose_from(res@, a, nd, rot, col as int) == target,
            decreases ndevices - col,
        {
            let actual: usize = if rotated && col == 0 {
                1
            } else if rotated && col == 1 {
                0
            } else {
                col
            };
            let mut idx: u64 = actual as u64;
            proof {
                assert(actual as int == raidz_col_map(rot, col as int));
                assert(transpose_from(res@, a, nd, rot, col as int) == col_sectors_from(
                    res@,
                    a,
                    nd,
                    actual as int,
                ) + transpose_from(res@, a, nd, rot, col as int + 1));
                assert(out@ + (col_sectors_from(res@, a, nd, actual as int) + transpose_from(
                    res@,
                    a,
                    nd,
                    rot,
                    col as int + 1,
                )) =~= (out@ + col_sectors_from(res@, a, nd, actual as int)) + transpose_from(
                    res@,
                    a,
                    nd,
                    rot,
                    col as int + 1,
                ));
            }
            loop
                invariant
                    0 <= idx,
                    1 <= asize <= 0x100_0000,
                    a == asize as int,
                    nd == ndevices as int,
                    1 <= nd <= 0x1_0000,
                    asize64 == asize as u64,
                    res@.len() == swp64,
                    swp64 <= 0x8000_0000_0000_0000,
                    (out@ + col_sectors_from(res@, a, nd, idx as int)) + transpose_from(
                        res@,
                        a,
                        nd,
                        rot,
                        col as int + 1,
                    ) == target,
                ensures
                    out@ + transpose_from(res@, a, nd, rot, col as int + 1) == target,
                decreases res@.len() + nd - idx,
            {
                let mut fits: bool = false;
                let mut end64: u64 = 0;
                match idx.checked_add(1) {
                    Some(x) => {
                        match x.checked_mul(asize64) {
                            Some(e) => {
                                end64 = e;
                                fits = e <= swp64;
                            },
                            None => {
                                proof {
                                    assert((idx as int + 1) * a > swp64 as int)
                                        by (nonlinear_arith)
                                        requires
                                            (idx as int + 1) * (a as int) > u64::MAX as int,
                                            swp64 <= u64::MAX,
                                    ;
                                }
                            },
                        }
                    },
                    None => {
                        proof {
                            assert((idx as int + 1) * a > swp64 as int) by (nonlinear_arith)
                                requires
                                    idx as int + 1 > u64::MAX as int,
                                    1 <= a,
                                    swp64 <= u64::MAX,
                            ;
                        }
                    },
                }
                if !fits {
                    proof {
                        assert(col_sectors_from(res@, a, nd, idx as int) == Seq::<u8>::empty());
                        assert(out@ + Seq::<u8>::empty() =~= out@);
                    }
                    break ;
                }
                proof {
                    assert((idx as int + 1) * a == idx as int * a + a) by (nonlinear_arith);
                    assert(idx as int * a < (idx as int + 1) * a) by (nonlinear_arith)
                        requires
                            1 <= a,
                            0 <= idx as int,
                    ;
                }
                let start64: u64 = idx * asize64;
                let start: usize = start64 as usize;
                let mut chunk = read_bytes(res.as_slice(), start, asize);
                let ghost out_before = out@;
                out.append(&mut chunk);
                proof {
                    assert(col_sectors_from(res@, a, nd, idx as int) == res@.subrange(
                        idx as int * a,
                        (idx as int + 1) * a,
                    ) + col_sectors_from(res@, a, nd, idx as int + nd));
                    assert(out@ =~= out_before + res@.subrange(idx as int * a, (idx as int + 1) * a));
                    assert((out@ + col_sectors_from(res@, a, nd, idx as int + nd))
                        + transpose_from(res@, a, nd, rot, col as int + 1) =~= (out_before
                        + col_sectors_from(res@, a, nd, idx as int)) + transpose_from(
                        res@,
                        a,
                        nd,
                        rot,
                        col as int + 1,
                    ));
                }
                proof {
                    assert(idx as int + 1 <= (idx as int + 1) * a) by (nonlinear_arith)
                        requires
                            1 <= a,
                            0 <= idx as int,
                    ;
                }
                idx = idx + (ndevices as u64);
            }
            col = col + 1;
        }
        proof {
            assert(transpose_from(res@, a, nd, rot, nd) == Seq::<u8>::empty());
            assert(out@ + Seq::<u8>::empty() =~= out@);
        }
        if out.len() < size {
            return Err(());
        }
        out.truncate(size);
        proof {
            assert(out@ =~= target.take(size as int));
        }
        Ok(out)
    }
}

/// If the intermediate sector counts overflow, the full span exceeds any
/// machine size.
proof fn lemma_swp_at_least(size: int, asize: int, n: int, p: int, partial: int)
    requires
        1 <= asize,
        0 <= size,
        0 <= p < n,
        partial > u64::MAX,
        partial <= raidz_total_sectors(size, asize, n, p),
    ensures
        dva_swp(size, asize, n, p) > usize::MAX,
{
    let total = raidz_total_sectors(size, asize, n, p);
    assert(total * asize >= total) by (nonlinear_arith)
        requires
            1 <= asize,
            0 <= total,
    ;
}

proof fn lemma_swp_exceeds(size: int, asize: int, n: int, p: int)
    requires
        1 <= asize,
        0 <= size,
        0 <= p < n,
        raidz_total_sectors(size, asize, n, p) * asize > u64::MAX,
    ensures
        dva_swp(size, asize, n, p) > usize::MAX,
{
}
/// The depth to which nested gang headers are followed.
pub const GANG_DEPTH_LIMIT: u64 = 8;

/// Dereference a DVA: a plain address is a raw striped read; a gang
/// address reads and verifies the gang header, then concatenates its
/// children.
pub(crate) fn dva_deref_depth(
    dva: &DataVirtualAddress,
    vdevs: &mut VdevRaidz,
    size: usize,
    depth: u64,
) -> (r: Result<Vec<u8>, ()>)
    requires
        old(vdevs).wf(),
        size <= 0x1000_0000,
    ensures
        final(vdevs).wf(),
        VdevRaidz::same_geometry(*old(vdevs), *final(vdevs)),
        (r matches Ok(v) ==> v@.len() == size),
        !dva.is_gang ==> match r {
            Ok(v) => dva_raw_read_ok(
                old(vdevs).dev_views(),
                old(vdevs).spec_asize() as int,
                old(vdevs).spec_ndevices() as int,
                old(vdevs).spec_nparity() as int,
                *dva,
                size as int,
            ) && v@ == dva_raw_read_bytes(
                old(vdevs).dev_views(),
                old(vdevs).spec_asize() as int,
                old(vdevs).spec_ndevices() as int,
                old(vdevs).spec_nparity() as int,
                *dva,
                size as int,
            ),
            Err(_) => !dva_raw_read_ok(
                old(vdevs).dev_views(),
                old(vdevs).spec_asize() as int,
                old(vdevs).spec_ndevices() as int,
                old(vdevs).spec_nparity() as int,
                *dva,
                size as int,
            ),
        },
        !dva.is_gang ==> final(vdevs).block_view() == old(vdevs).block_view(),
        dva.is_gang && r is Ok ==> ({
            let hdr = dva_raw_read_bytes(
                old(vdevs).dev_views(),
                old(vdevs).spec_asize() as int,
                old(vdevs).spec_ndevices() as int,
                old(vdevs).spec_nparity() as int,
                *dva,
                size as int,
            );
            &&& dva_raw_read_ok(
                old(vdevs).dev_views(),
                old(vdevs).spec_asize() as int,
                old(vdevs).spec_ndevices() as int,
                old(vdevs).spec_nparity() as int,
                *dva,
                size as int,
            )
            &&& hdr.len() >= 512
            &&& fletcher4(hdr) == seq![
                le64(hdr, 480),
                le64(hdr, 488),
                le64(hdr, 496),
                le64(hdr, 504),
            ]
        }),
    decreases depth, 0int,
{
    let data = match dva.dereference_raw(vdevs, size) {
        Ok(v) => v,
        Err(_) => {
            return Err(());
        },
    };
    if !dva.is_gang {
        proof {
            let devs0 = old(vdevs).dev_views();
            let a0 = old(vdevs).spec_asize() as int;
            let n0 = old(vdevs).spec_ndevices() as int;
            let p0 = old(vdevs).spec_nparity() as int;
            let tr = transpose_from(
                raidz_read_bytes(devs0, a0, dva.spec_offset(), dva_swp(size as int, a0, n0, p0)),
                a0,
                n0,
                rotated_at(p0, dva.spec_offset()),
                p0,
            );
            assert(tr.len() >= size);
            assert(data@ == tr.take(size as int));
            assert(data@.len() == size);
        }
        return Ok(data);
    }
    if depth == 0 {
        return Err(());
    }
    if data.len() < 512 {
        return Err(());
    }
    let computed_checksum = match try_checksum_block(
        data.as_slice(),
        ChecksumMethod::GangHeader,
    ) {
        Some(c) => c,
        None => {
            return Err(());
        },
    };
    let gang_block = GangBlock::from_bytes_le(data.as_slice(), 0);
    if !crate::fletcher::checksum_eq(&computed_checksum, &gang_block.checksum) {
        return Err(());
    }
    let mut gang_data: Vec<u8> = Vec::new();
    let mut k: usize = 0;
    while k < 3
        invariant
            k <= 3,
            depth >= 1,
            vdevs.wf(),
            VdevRaidz::same_geometry(*old(vdevs), *vdevs),
        decreases 3 - k,
    {
        let stop: bool = match &gang_block.bps[k] {
            Some(bp) => {
                if !bp_deref_wf_check(bp) {
                    true
                } else {
                    match bp_deref_depth(bp, vdevs, depth - 1) {
                        Ok(mut d) => {
                            if d.len() > 0x2000_0000 {
                                true
                            } else {
                                gang_data.append(&mut d);
                                false
                            }
                        },
                        Err(_) => true,
                    }
                }
            },
            None => true,
        };
        if stop {
            break ;
        }
        k = k + 1;
    }
    if gang_data.len() > size {
        gang_data.truncate(size);
    }
    if gang_data.len() != size {
        return Err(());
    }
    Ok(gang_data)
}

/// Whether a block pointer's fields allow dereferencing it (executable
/// form of `bp_deref_wf`).
pub fn bp_deref_wf_check(bp: &BlockPointer) -> (r: bool)
    ensures
        r == bp_deref_wf(*bp),
{
    match bp {
        BlockPointer::Normal(_) => true,
        BlockPointer::Embedded(e) => e.payload.len() <= 0x1000_0000 && e.logical_size_in_bytes
            <= 0xFF_FF_FF,
    }
}

/// Resolve a normal block pointer: try the block cache, then each DVA in
/// order, verifying the checksum and decompressing; remember the outcome.
pub(crate) fn normal_deref_depth(
    bp: &NormalBlockPointer,
    vdevs: &mut VdevRaidz,
    depth: u64,
) -> (r: Result<Vec<u8>, ()>)
    requires
        old(vdevs).wf(),
    ensures
        final(vdevs).wf(),
        VdevRaidz::same_geometry(*old(vdevs), *final(vdevs)),
        match r {
            Ok(v) => block_entry_ok(
                bp.checksum,
                checksum_method_value(bp.checksum_method),
                v@,
            ) && final(vdevs).block_view().contains_pair(bp_cache_key(*bp), Some(v@)) && (!old(
                vdevs,
            ).block_view().contains_key(bp_cache_key(*bp)) ==> v@.len() == normal_lsize(*bp)),
            Err(_) => final(vdevs).block_view().contains_pair(bp_cache_key(*bp), None),
        },
        old(vdevs).block_view().contains_key(bp_cache_key(*bp)) && old(vdevs).block_view()[
            bp_cache_key(*bp)] is Some ==> (r matches Ok(v) && v@ == old(vdevs).block_view()[
            bp_cache_key(*bp)]->Some_0),
        r is Err && !old(vdevs).block_view().contains_key(bp_cache_key(*bp)) ==> forall|i: int|
            !dva_would_resolve(
                old(vdevs).dev_views(),
                old(vdevs).spec_asize() as int,
                old(vdevs).spec_ndevices() as int,
                old(vdevs).spec_nparity() as int,
                *bp,
                i,
            ),
    decreases depth, 1int,
{
    let ghost devs0 = old(vdevs).dev_views();
    let ghost a0 = old(vdevs).spec_asize() as int;
    let ghost n0 = old(vdevs).spec_ndevices() as int;
    let ghost p0 = old(vdevs).spec_nparity() as int;
    let key: ([u64; 4], u8) = (bp.checksum, bp.checksum_method.value());
    match vdevs.get_from_block_cache(key) {
        Some(Some(v)) => {
            return Ok(v);
        },
        Some(None) => {
            return Err(());
        },
        None => {},
    }
    let psize64 = bp.parse_physical_size();
    let lsize64 = bp.parse_logical_size();
    let psize: usize = psize64 as usize;
    let lsize: usize = lsize64 as usize;
    let mut i: usize = 0;
    while i < 3
        invariant
            i <= 3,
            vdevs.wf(),
            VdevRaidz::same_geometry(*old(vdevs), *vdevs),
            key == bp_cache_key(*bp),
            psize == normal_psize(*bp),
            lsize == normal_lsize(*bp),
            psize <= 0x1000_0000,
            !old(vdevs).block_view().contains_key(key),
            devs0 == old(vdevs).dev_views(),
            a0 == old(vdevs).spec_asize() as int,
            n0 == old(vdevs).spec_ndevices() as int,
            p0 == old(vdevs).spec_nparity() as int,
            forall|ii: int| ii < i ==> !dva_would_resolve(devs0, a0, n0, p0, *bp, ii),
        decreases 3 - i,
    {
        let dva_opt: Option<DataVirtualAddress> = bp.dvas[i];
        let dva = match dva_opt {
            Some(d) => d,
            None => {
                proof {
                    assert(!dva_would_resolve(devs0, a0, n0, p0, *bp, i as int));
                }
                i = i + 1;
                continue ;
            },
        };
        let data = match dva_deref_depth(&dva, vdevs, psize, depth) {
            Ok(d) => d,
            Err(_) => {
                proof {
                    assert(!dva_would_resolve(devs0, a0, n0, p0, *bp, i as int));
                }
                i = i + 1;
                continue ;
            },
        };
        proof {
            if !dva.is_gang {
                assert(data@ == dva_raw_read_bytes(devs0, a0, n0, p0, dva, psize as int));
            }
        }
        let computed = match try_checksum_block(data.as_slice(), bp.checksum_method) {
            Some(c) => c,
            None => {
                proof {
                    assert(!dva_would_resolve(devs0, a0, n0, p0, *bp, i as int));
                }
                i = i + 1;
                continue ;
            },
        };
        if !crate::fletcher::checksum_eq(&computed, &bp.checksum) {
            proof {
                assert(computed@ != bp.checksum@);
                assert(!dva_would_resolve(devs0, a0, n0, p0, *bp, i as int));
            }
            i = i + 1;
            continue ;
        }
        let logical = match try_decompress_block(
            data.as_slice(),
            bp.compression_method,
            lsize,
        ) {
            Ok(v) => v,
            Err(_) => {
                proof {
                    assert(!dva_would_resolve(devs0, a0, n0, p0, *bp, i as int));
                }
                i = i + 1;
                continue ;
            },
        };
        if logical.len() != lsize {
            proof {
                assert(!dva_would_resolve(devs0, a0, n0, p0, *bp, i as int));
            }
            i = i + 1;
            continue ;
        }
        proof {
            assert(checksum_matches(
                checksum_method_value(bp.checksum_method),
                data@,
                bp.checksum,
            ));
            lemma_decompress_spec_witness(
                bp.compression_method,
                data@,
                lsize as int,
                logical@,
            );
            assert(block_entry_ok(
                bp.checksum,
                checksum_method_value(bp.checksum_method),
                logical@,
            ));
        }
        let copy = read_bytes(logical.as_slice(), 0, logical.len());
        proof {
            assert(copy@ =~= logical@);
        }
        vdevs.put_in_block_cache(key, Some(copy));
        return Ok(logical);
    }
    vdevs.put_in_block_cache(key, None);
    Err(())
}

impl NormalBlockPointer {
    /// Resolve this pointer through the cache, its DVAs, checksum
    /// verification, and decompression.
    pub fn dereference(&self, vdevs: &mut VdevRaidz) -> (r: Result<Vec<u8>, ()>)
        requires
            old(vdevs).wf(),
        ensures
            final(vdevs).wf(),
            VdevRaidz::same_geometry(*old(vdevs), *final(vdevs)),
            match r {
                Ok(v) => block_entry_ok(
                    self.checksum,
                    checksum_method_value(self.checksum_method),
                    v@,
                ) && final(vdevs).block_view().contains_pair(bp_cache_key(*self), Some(v@)) && (
                !old(vdevs).block_view().contains_key(bp_cache_key(*self)) ==> v@.len()
                    == normal_lsize(*self)),
                Err(_) => final(vdevs).block_view().contains_pair(bp_cache_key(*self), None),
            },
            old(vdevs).block_view().contains_key(bp_cache_key(*self)) && old(vdevs).block_view()[
                bp_cache_key(*self)] is Some ==> (r matches Ok(v) && v@ == old(
                vdevs,
            ).block_view()[bp_cache_key(*self)]->Some_0),
            r is Err && !old(vdevs).block_view().contains_key(bp_cache_key(*self)) ==> forall|
                i: int,
            |
                !dva_would_resolve(
                    old(vdevs).dev_views(),
                    old(vdevs).spec_asize() as int,
                    old(vdevs).spec_ndevices() as int,
                    old(vdevs).spec_nparity() as int,
                    *self,
                    i,
                ),
    {
        normal_deref_depth(self, vdevs, GANG_DEPTH_LIMIT)
    }
}

pub(crate) fn bp_deref_depth(bp: &BlockPointer, vdevs: &mut VdevRaidz, depth: u64) -> (r: Result<
    Vec<u8>,
    (),
>)
    requires
        old(vdevs).wf(),
        bp_deref_wf(*bp),
    ensures
        final(vdevs).wf(),
        VdevRaidz::same_geometry(*old(vdevs), *final(vdevs)),
        bp matches BlockPointer::Normal(b) ==> match r {
            Ok(v) => block_entry_ok(
                b.checksum,
                checksum_method_value(b.checksum_method),
                v@,
            ) && final(vdevs).block_view().contains_pair(bp_cache_key(*b), Some(v@)),
            Err(_) => final(vdevs).block_view().contains_pair(bp_cache_key(*b), None) && (!old(
                vdevs,
            ).block_view().contains_key(bp_cache_key(*b)) ==> forall|i: int|
                !dva_would_resolve(
                    old(vdevs).dev_views(),
                    old(vdevs).spec_asize() as int,
                    old(vdevs).spec_ndevices() as int,
                    old(vdevs).spec_nparity() as int,
                    *b,
                    i,
                )),
        },
        bp matches BlockPointer::Embedded(e) ==> final(vdevs).block_view() == old(
            vdevs,
        ).block_view() && match r {
            Ok(v) => embedded_deref_spec(*e) == Some(v@),
            Err(_) => embedded_deref_spec(*e) is None,
        },
    decreases depth, 2int,
{
    match bp {
        BlockPointer::Normal(b) => normal_deref_depth(b, vdevs, depth),
        BlockPointer::Embedded(e) => e.dereference(),
    }
}

impl BlockPointer {
    /// Resolve either pointer form.
    pub fn dereference(&self, vdevs: &mut VdevRaidz) -> (r: Result<Vec<u8>, ()>)
        requires
            old(vdevs).wf(),
            bp_deref_wf(*self),
        ensures
            final(vdevs).wf(),
            VdevRaidz::same_geometry(*old(vdevs), *final(vdevs)),
            self matches BlockPointer::Normal(b) ==> match r {
                Ok(v) => block_entry_ok(
                    b.checksum,
                    checksum_method_value(b.checksum_method),
                    v@,
                ) && final(vdevs).block_view().contains_pair(bp_cache_key(*b), Some(v@)),
                Err(_) => final(vdevs).block_view().contains_pair(bp_cache_key(*b), None) && (
                !old(vdevs).block_view().contains_key(bp_cache_key(*b)) ==> forall|i: int|
                    !dva_would_resolve(
                        old(vdevs).dev_views(),
                        old(vdevs).spec_asize() as int,
                        old(vdevs).spec_ndevices() as int,
                        old(vdevs).spec_nparity() as int,
                        *b,
                        i,
                    )),
            },
            self matches BlockPointer::Embedded(e) ==> final(vdevs).block_view() == old(
                vdevs,
            ).block_view() && match r {
                Ok(v) => embedded_deref_spec(*e) == Some(v@),
                Err(_) => embedded_deref_spec(*e) is None,
            },
    {
        bp_deref_depth(self, vdevs, GANG_DEPTH_LIMIT)
    }
}

} // verus!
