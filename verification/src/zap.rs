//! The name/value maps of the pool: flat micro ZAPs and chunked fat-ZAP
//! leaves.  Names are byte strings as stored on disk.

use vstd::prelude::*;
use crate::byte_reader::{
    be16,
    be64,
    le16,
    le32,
    le64,
    read_bytes,
    read_u16_le,
    read_u32_le,
    read_u64_le,
    read_u8,
};
use crate::dmu::DNodeBase;
use crate::VdevRaidz;

verus! {

broadcast use vstd::slice::axiom_spec_len;

pub const ZAP_LEAF_MAGIC: u32 = 0x2AB1EAF;

pub const FAT_ZAP_MAGIC: u64 = 0x2F52AB2AB;

/// The on-disk tag of a ZAP block.
#[derive(Debug, PartialEq, Eq, Clone, Copy, Structural)]
pub enum ZapType {
    MicroZap,
    FatZapHeader,
    FatZapLeaf,
}

/// The on-disk value of a ZAP block tag.
pub open spec fn zap_type_value(t: ZapType) -> u64 {
    match t {
        ZapType::MicroZap => 0x8000_0000_0000_0003,
        ZapType::FatZapHeader => 0x8000_0000_0000_0001,
        ZapType::FatZapLeaf => 0x8000_0000_0000_0000,
    }
}

impl ZapType {
    pub fn from_value(value: u64) -> (r: Option<ZapType>)
        ensures
            match r {
                Some(t) => value == zap_type_value(t),
                None => value != 0x8000_0000_0000_0003 && value != 0x8000_0000_0000_0001
                    && value != 0x8000_0000_0000_0000,
            },
    {
        if value == 0x8000_0000_0000_0003 {
            Some(ZapType::MicroZap)
        } else if value == 0x8000_0000_0000_0001 {
            Some(ZapType::FatZapHeader)
        } else if value == 0x8000_0000_0000_0000 {
            Some(ZapType::FatZapLeaf)
        } else {
            None
        }
    }
}

/// The tag of one 24-byte chunk in a fat-ZAP leaf.
#[derive(Debug, PartialEq, Eq, Clone, Copy, Structural)]
pub enum ZapLeafChunkType {
    Entry,
    Array,
    Free,
}

/// The on-disk value of a chunk tag.
pub open spec fn zap_leaf_chunk_type_value(t: ZapLeafChunkType) -> u8 {
    match t {
        ZapLeafChunkType::Entry => 252,
        ZapLeafChunkType::Array => 251,
        ZapLeafChunkType::Free => 253,
    }
}

impl ZapLeafChunkType {
    pub fn from_value(value: u8) -> (r: Option<ZapLeafChunkType>)
        ensures
            match r {
                Some(t) => value == zap_leaf_chunk_type_value(t),
                None => value != 252 && value != 251 && value != 253,
            },
    {
        match value {
            252 => Some(ZapLeafChunkType::Entry),
            251 => Some(ZapLeafChunkType::Array),
            253 => Some(ZapLeafChunkType::Free),
            _ => None,
        }
    }
}

/// A typed ZAP value.
pub enum Value {
    U64(u64),
    U16(u16),
    Byte(u8),
    ByteArray(Vec<u8>),
    U64Array(Vec<u64>),
    U16Array(Vec<u16>),
}

/// A name-to-value map as a list of pairs with distinct names.
pub type ZapContents = Vec<(Vec<u8>, Value)>;

/// Whether two maps hold a pair with the same name.
pub open spec fn zap_names_distinct(m: Seq<(Vec<u8>, Value)>) -> bool {
    forall|i: int, j: int| 0 <= i < j < m.len() ==> (#[trigger] m[i]).0@ != (#[trigger] m[j]).0@
}

/// Compare two byte strings.
pub fn bytes_eq(a: &[u8], b: &[u8]) -> (r: bool)
    ensures
        r == (a@ =~= b@),
{
    if a.len() != b.len() {
        return false;
    }
    let n: usize = a.len();
    let mut i: usize = 0;
    while i < n
        invariant
            n == a@.len() == b@.len(),
            i <= n,
            forall|j: int| 0 <= j < i ==> a@[j] == b@[j],
        decreases n - i,
    {
        if a[i] != b[i] {
            return false;
        }
        i = i + 1;
    }
    true
}

/// Whether `m` already holds a pair named `name`.
pub fn zap_contents_has_name(m: &ZapContents, name: &Vec<u8>) -> (r: bool)
    ensures
        r == exists|j: int| 0 <= j < m@.len() && (#[trigger] m@[j]).0@ =~= name@,
{
    let n: usize = m.len();
    let mut i: usize = 0;
    while i < n
        invariant
            n == m@.len(),
            i <= n,
            forall|j: int| 0 <= j < i ==> !((#[trigger] m@[j]).0@ =~= name@),
        decreases n - i,
    {
        if bytes_eq(m[i].0.as_slice(), name.as_slice()) {
            proof {
                assert(m@[i as int].0@ =~= name@);
            }
            return true;
        }
        i = i + 1;
    }
    false
}

/// Find the value stored under `name`: the first pair with that name, or
/// nothing when no pair carries it.
pub fn zap_contents_get<'a>(m: &'a ZapContents, name: &Vec<u8>) -> (r: Option<&'a Value>)
    ensures
        match r {
            Some(v) => exists|j: int|
                {
                    &&& 0 <= j < m@.len()
                    &&& (#[trigger] m@[j]).0@ == name@
                    &&& *v == m@[j].1
                    &&& forall|j2: int| 0 <= j2 < j ==> (#[trigger] m@[j2]).0@ != name@
                },
            None => forall|j: int| 0 <= j < m@.len() ==> (#[trigger] m@[j]).0@ != name@,
        },
{
    let n: usize = m.len();
    let mut i: usize = 0;
    while i < n
        invariant
            n == m@.len(),
            i <= n,
            forall|j2: int| 0 <= j2 < i ==> (#[trigger] m@[j2]).0@ != name@,
        decreases n - i,
    {
        if bytes_eq(m[i].0.as_slice(), name.as_slice()) {
            proof {
                assert(m@[i as int].0@ =~= name@);
            }
            return Some(&m[i].1);
        }
        proof {
            assert(!(m@[i as int].0@ =~= name@));
        }
        i = i + 1;
    }
    None
}

/// A repeated name in a micro ZAP is a hard error: the whole map is
/// rejected.
pub fn micro_zap_name_repeated() -> (r: Option<()>)
    ensures
        r is None,
{
    None
}

/// A repeated name in a fat ZAP is a hard error: the whole map is
/// rejected.
pub fn fat_zap_name_repeated() -> (r: Option<()>)
    ensures
        r is None,
{
    None
}

/// A 64-byte micro-ZAP entry.
pub struct MicroZapEntry {
    pub value: u64,
    pub collision_differentiator: u32,
    pub name: Vec<u8>,
}

impl MicroZapEntry {
    pub fn get_ondisk_size() -> (r: usize)
        ensures
            r == 64,
    {
        64
    }

    /// A 64-byte entry holds an 8-byte value, a 4-byte collision word and
    /// 2 padding bytes, leaving 50 bytes of name.
    pub fn get_name_length() -> (r: usize)
        ensures
            r == 50,
    {
        50
    }

    pub fn from_bytes_le(data: &[u8], off: usize) -> (r: MicroZapEntry)
        requires
            off + 64 <= data@.len(),
        ensures
            r.value == le64(data@, off as int),
            r.collision_differentiator == le32(data@, off + 8),
            r.name@ == data@.subrange(off + 14, off + 64),
    {
        let _n: usize = data.len();
        MicroZapEntry {
            value: read_u64_le(data, off),
            collision_differentiator: read_u32_le(data, off + 8),
            name: read_bytes(data, off + 14, 50),
        }
    }

    /// The stored name: the bytes before the first NUL, when there is one
    /// and it is not empty.
    pub open spec fn spec_name(self) -> Option<Seq<u8>> {
        if exists|k: int| 0 <= k < self.name@.len() && self.name@[k] == 0 {
            let k = choose|k: int|
                0 <= k < self.name@.len() && self.name@[k] == 0 && (forall|j: int|
                    0 <= j < k ==> self.name@[j] != 0);
            if 0 < k {
                Some(self.name@.take(k))
            } else {
                None
            }
        } else {
            None
        }
    }

    /// Add this entry's pair to the map: the name bytes before the first
    /// NUL mapped to the 64-bit value.  An unnamed entry adds nothing and
    /// a repeated name rejects the map.
    pub fn dump_contents_into(&self, map: &mut ZapContents) -> (r: Option<()>)
        ensures
            match r {
                Some(_) => final(map)@.len() == old(map)@.len() + 1 && final(map)@.take(
                    old(map)@.len() as int,
                ) == old(map)@ && (exists|nul: int|
                    {
                        &&& 0 < nul < self.name@.len()
                        &&& self.name@[nul] == 0
                        &&& (forall|j: int| 0 <= j < nul ==> self.name@[j] != 0)
                        &&& (#[trigger] final(map)@[final(map)@.len() - 1]).0@ == self.name@.take(
                            nul,
                        )
                        &&& final(map)@[final(map)@.len() - 1].1 is U64
                        &&& final(map)@[final(map)@.len() - 1].1->U64_0 == self.value
                    }),
                None => final(map)@ == old(map)@,
            },
            zap_names_distinct(old(map)@) ==> zap_names_distinct(final(map)@),
    {
        let mut nul_index: usize = 0;
        let mut found: bool = false;
        let n: usize = self.name.len();
        while nul_index < n
            invariant_except_break
                !found,
            invariant
                n == self.name@.len(),
                nul_index <= n,
                forall|j: int| 0 <= j < nul_index ==> self.name@[j] != 0,
            ensures
                found ==> nul_index < n && self.name@[nul_index as int] == 0,
                !found ==> nul_index == n,
            decreases n - nul_index,
        {
            if self.name[nul_index] == 0 {
                found = true;
                break ;
            }
            nul_index = nul_index + 1;
        }
        if !found {
            return None;
        }
        if nul_index == 0 {
            return None;
        }
        let name = read_bytes(self.name.as_slice(), 0, nul_index);
        if zap_contents_has_name(map, &name) {
            return micro_zap_name_repeated();
        }
        let ghost before = map@;
        proof {
            assert(name@ =~= self.name@.take(nul_index as int));
        }
        map.push((name, Value::U64(self.value)));
        proof {
            assert(map@[map@.len() - 1].1->U64_0 == self.value);
            assert(map@.take(before.len() as int) =~= before);
            if zap_names_distinct(before) {
                assert forall|i: int, j: int| 0 <= i < j < map@.len() implies (
                #[trigger] map@[i]).0@ != (#[trigger] map@[j]).0@ by {
                    if j == map@.len() - 1 {
                        assert(!(before[i].0@ =~= map@[j].0@));
                    }
                }
            }
        }
        Some(())
    }
}

/// The 48-byte header of a fat-ZAP leaf block.
pub struct ZapLeafHeader {
    pub next_leaf: u64,
    pub prefix: u64,
    pub nfree: u16,
    pub nentries: u16,
    pub prefix_len: u16,
    pub freelist: u16,
}

impl ZapLeafHeader {
    pub fn get_ondisk_size() -> (r: usize)
        ensures
            r == 48,
    {
        48
    }

    pub fn from_bytes_le(data: &[u8], off: usize) -> (r: Option<ZapLeafHeader>)
        requires
            off + 48 <= data@.len(),
        ensures
            r is Some <==> le64(data@, off as int) == 0x8000_0000_0000_0000 && le32(
                data@,
                off + 24,
            ) == ZAP_LEAF_MAGIC,
            match r {
                Some(h) => h.next_leaf == le64(data@, off + 8) && h.prefix == le64(data@, off + 16)
                    && h.nfree == le16(data@, off + 28) && h.nentries == le16(data@, off + 30)
                    && h.prefix_len == le16(data@, off + 32) && h.freelist == le16(
                    data@,
                    off + 34,
                ),
                None => true,
            },
    {
        let _n: usize = data.len();
        let tag = read_u64_le(data, off);
        if tag != 0x8000_0000_0000_0000 {
            return None;
        }
        let next_leaf = read_u64_le(data, off + 8);
        let prefix = read_u64_le(data, off + 16);
        let magic = read_u32_le(data, off + 24);
        if magic != ZAP_LEAF_MAGIC {
            return None;
        }
        Some(
            ZapLeafHeader {
                next_leaf,
                prefix,
                nfree: read_u16_le(data, off + 28),
                nentries: read_u16_le(data, off + 30),
                prefix_len: read_u16_le(data, off + 32),
                freelist: read_u16_le(data, off + 34),
            },
        )
    }
}

/// One 24-byte chunk of a fat-ZAP leaf.
pub enum ZapLeafChunk {
    Entry {
        int_size: u8,
        next_chunk_id: u16,
        name_chunk_id: u16,
        name_length: u16,
        value_chunk_id: u16,
        nvalues: u16,
        collision_differentiator: u16,
        hash: u64,
    },
    Array { array: Vec<u8>, next_chunk_id: u16 },
    Free { next_chunk_id: u16 },
}

/// The field equations of one parsed 24-byte chunk.
pub open spec fn zap_chunk_matches(c: ZapLeafChunk, s: Seq<u8>, off: int) -> bool {
    match c {
        ZapLeafChunk::Entry {
            int_size,
            next_chunk_id,
            name_chunk_id,
            name_length,
            value_chunk_id,
            nvalues,
            collision_differentiator,
            hash,
        } => {
            &&& s[off] == 252
            &&& int_size == s[off + 1]
            &&& next_chunk_id == le16(s, off + 2)
            &&& name_chunk_id == le16(s, off + 4)
            &&& name_length == le16(s, off + 6)
            &&& value_chunk_id == le16(s, off + 8)
            &&& nvalues == le16(s, off + 10)
            &&& collision_differentiator == le16(s, off + 12)
            &&& hash == le64(s, off + 16)
        },
        ZapLeafChunk::Array { array, next_chunk_id } => {
            &&& s[off] == 251
            &&& array@ == s.subrange(off + 1, off + 22)
            &&& next_chunk_id == le16(s, off + 22)
        },
        ZapLeafChunk::Free { next_chunk_id } => {
            &&& s[off] == 253
            &&& next_chunk_id == le16(s, off + 22)
        },
    }
}

impl ZapLeafChunk {
    pub fn get_ondisk_size() -> (r: usize)
        ensures
            r == 24,
    {
        24
    }

    pub fn get_byte_array_size() -> (r: usize)
        ensures
            r == 21,
    {
        21
    }

    pub fn from_bytes_le(data: &[u8], off: usize) -> (r: Option<ZapLeafChunk>)
        requires
            off + 24 <= data@.len(),
        ensures
            r is Some <==> (data@[off as int] == 252 || data@[off as int] == 251 || data@[
                off as int] == 253),
            match r {
                Some(c) => zap_chunk_matches(c, data@, off as int),
                None => true,
            },
    {
        let _n: usize = data.len();
        let t = match ZapLeafChunkType::from_value(read_u8(data, off)) {
            Some(t) => t,
            None => {
                return None;
            },
        };
        match t {
            ZapLeafChunkType::Entry => Some(
                ZapLeafChunk::Entry {
                    int_size: read_u8(data, off + 1),
                    next_chunk_id: read_u16_le(data, off + 2),
                    name_chunk_id: read_u16_le(data, off + 4),
                    name_length: read_u16_le(data, off + 6),
                    value_chunk_id: read_u16_le(data, off + 8),
                    nvalues: read_u16_le(data, off + 10),
                    collision_differentiator: read_u16_le(data, off + 12),
                    hash: read_u64_le(data, off + 16),
                },
            ),
            ZapLeafChunkType::Array => Some(
                ZapLeafChunk::Array {
                    array: read_bytes(data, off + 1, 21),
                    next_chunk_id: read_u16_le(data, off + 22),
                },
            ),
            ZapLeafChunkType::Free => Some(
                ZapLeafChunk::Free { next_chunk_id: read_u16_le(data, off + 22) },
            ),
        }
    }
}

/// The bytes spelled out by following `Array` chunks from `id`, stopping
/// once `size` bytes are in hand.
pub open spec fn zap_chain_read(
    chunks: Seq<ZapLeafChunk>,
    id: int,
    size: int,
    acc: Seq<u8>,
) -> Option<Seq<u8>>
    decreases size - acc.len(),
{
    if acc.len() >= size {
        Some(acc.take(size))
    } else if !(0 <= id < chunks.len()) {
        None
    } else {
        match chunks[id] {
            ZapLeafChunk::Array { array, next_chunk_id } => {
                if array@.len() == 0 {
                    None
                } else {
                    let acc2 = acc + array@;
                    if acc2.len() >= size {
                        Some(acc2.take(size))
                    } else if next_chunk_id == 0xFFFF {
                        None
                    } else {
                        zap_chain_read(chunks, next_chunk_id as int, size, acc2)
                    }
                }
            },
            _ => None,
        }
    }
}

/// A parsed fat-ZAP leaf: header, hash table, and chunk array.
pub struct ZapLeaf {
    pub header: ZapLeafHeader,
    pub hash_table: Vec<u16>,
    pub chunks: Vec<ZapLeafChunk>,
}

impl ZapLeaf {
    pub fn get_hash_table_numentries(block_size: usize) -> (r: usize)
        ensures
            r == block_size as int / 32,
    {
        block_size / 32
    }

    pub fn from_bytes_le(data: &[u8], block_size: usize) -> (r: Option<ZapLeaf>)
        requires
            block_size <= data@.len(),
        ensures
            r is Some <==> block_size >= 48 && le64(data@, 0) == 0x8000_0000_0000_0000 && le32(
                data@,
                24,
            ) == ZAP_LEAF_MAGIC && 48 + (block_size as int / 32) * 2 <= block_size && (forall|
                j: int,
            |
                0 <= j < (block_size - 48 - 2 * (block_size as int / 32)) / 24
                    ==> #[trigger] data@[48 + 2 * (block_size as int / 32) + 24 * j] == 252
                    || data@[48 + 2 * (block_size as int / 32) + 24 * j] == 251 || data@[48 + 2
                    * (block_size as int / 32) + 24 * j] == 253),
            match r {
                Some(l) => {
                    &&& block_size >= 48
                    &&& le64(data@, 0) == 0x8000_0000_0000_0000
                    &&& le32(data@, 24) == ZAP_LEAF_MAGIC
                    &&& l.hash_table@.len() == block_size as int / 32
                    &&& (forall|i: int|
                        0 <= i < l.hash_table@.len() ==> #[trigger] l.hash_table@[i] == le16(
                            data@,
                            48 + 2 * i,
                        ))
                    &&& l.chunks@.len() == (block_size - 48 - 2 * (block_size as int / 32)) / 24
                    &&& (forall|j: int|
                        0 <= j < l.chunks@.len() ==> zap_chunk_matches(
                            #[trigger] l.chunks@[j],
                            data@,
                            48 + 2 * (block_size as int / 32) + 24 * j,
                        ))
                },
                None => true,
            },
    {
        if block_size < 48 {
            return None;
        }
        let header = match ZapLeafHeader::from_bytes_le(data, 0) {
            Some(h) => h,
            None => {
                return None;
            },
        };
        let nhash: usize = block_size / 32;
        if 48 + nhash * 2 > block_size {
            return None;
        }
        let mut hash_table: Vec<u16> = Vec::new();
        let mut i: usize = 0;
        while i < nhash
            invariant
                i <= nhash,
                48 + nhash * 2 <= block_size,
                block_size <= data@.len(),
                hash_table@.len() == i,
                forall|q: int|
                    0 <= q < i ==> #[trigger] hash_table@[q] == le16(data@, 48 + 2 * q),
            decreases nhash - i,
        {
            hash_table.push(read_u16_le(data, 48 + i * 2));
            i = i + 1;
        }
        let remaining: usize = block_size - 48 - nhash * 2;
        let nchunks: usize = remaining / 24;
        let mut chunks: Vec<ZapLeafChunk> = Vec::new();
        let mut k: usize = 0;
        while k < nchunks
            invariant
                k <= nchunks,
                nchunks == remaining as int / 24,
                remaining == block_size - 48 - nhash * 2,
                nhash == block_size as int / 32,
                48 + nhash * 2 + nchunks * 24 <= block_size,
                block_size <= data@.len(),
                chunks@.len() == k,
                forall|j: int|
                    0 <= j < k ==> zap_chunk_matches(
                        #[trigger] chunks@[j],
                        data@,
                        48 + 2 * (block_size as int / 32) + 24 * j,
                    ),
            decreases nchunks - k,
        {
            proof {
                crate::arith::lemma_le_div_iff(nchunks as int, 24, remaining as int);
            }
            let c = match ZapLeafChunk::from_bytes_le(data, 48 + nhash * 2 + k * 24) {
                Some(c) => c,
                None => {
                    proof {
                        assert(data@[48 + 2 * (block_size as int / 32) + 24 * (k as int)] != 252
                            && data@[48 + 2 * (block_size as int / 32) + 24 * (k as int)] != 251
                            && data@[48 + 2 * (block_size as int / 32) + 24 * (k as int)]
                            != 253);
                    }
                    return None;
                },
            };
            chunks.push(c);
            k = k + 1;
        }
        proof {
            assert forall|j: int|
                0 <= j < (block_size - 48 - 2 * (block_size as int / 32)) / 24 implies
                #[trigger] data@[48 + 2 * (block_size as int / 32) + 24 * j] == 252 || data@[48
                + 2 * (block_size as int / 32) + 24 * j] == 251 || data@[48 + 2 * (
            block_size as int / 32) + 24 * j] == 253 by {
                assert(zap_chunk_matches(
                    chunks@[j],
                    data@,
                    48 + 2 * (block_size as int / 32) + 24 * j,
                ));
            }
        }
        Some(ZapLeaf { header, hash_table, chunks })
    }

    pub fn get_chunks(&self) -> (r: &Vec<ZapLeafChunk>)
        ensures
            r@ == self.chunks@,
    {
        &self.chunks
    }

    /// Read `size` bytes by following `Array` chunks starting at
    /// `chunk_id`.
    pub fn read_data_starting_at_chunk(&self, chunk_id: usize, size: usize) -> (r: Option<
        Vec<u8>,
    >)
        ensures
            match r {
                Some(v) => zap_chain_read(self.chunks@, chunk_id as int, size as int, Seq::empty())
                    == Some(v@) && v@.len() == size,
                None => zap_chain_read(self.chunks@, chunk_id as int, size as int, Seq::empty())
                    is None,
            },
    {
        let mut data: Vec<u8> = Vec::new();
        let mut cur: usize = chunk_id;
        proof {
            assert(data@ =~= Seq::<u8>::empty());
        }
        loop
            invariant_except_break
                data@.len() < size || size == 0,
            invariant
                zap_chain_read(self.chunks@, cur as int, size as int, data@) == zap_chain_read(
                    self.chunks@,
                    chunk_id as int,
                    size as int,
                    Seq::empty(),
                ),
            ensures
                data@.len() >= size,
                zap_chain_read(self.chunks@, chunk_id as int, size as int, Seq::empty()) == Some(
                    data@.take(size as int),
                ),
            decreases size - data@.len(),
        {
            if data.len() >= size {
                break ;
            }
            if cur >= self.chunks.len() {
                return None;
            }
            match &self.chunks[cur] {
                ZapLeafChunk::Array { array, next_chunk_id } => {
                    if array.len() == 0 {
                        return None;
                    }
                    let mut chunk_bytes = read_bytes(array.as_slice(), 0, array.len());
                    let ghost data_before = data@;
                    data.append(&mut chunk_bytes);
                    proof {
                        assert(data@ =~= data_before + (self.chunks@[cur as int])->Array_array@);
                    }
                    if data.len() >= size {
                        break ;
                    }
                    let next = *next_chunk_id;
                    if next == 0xFFFF {
                        return None;
                    }
                    cur = next as usize;
                },
                _ => {
                    return None;
                },
            }
        }
        let out = read_bytes(data.as_slice(), 0, size);
        proof {
            assert(out@ =~= data@.take(size as int));
        }
        Some(out)
    }
}

/// Whether `(name, val)` is exactly the pair spelled by the entry chunk
/// at index `e`: name and value bytes reassembled across the array-chunk
/// chains, the value typed by the entry's integer size and count.
pub open spec fn zap_entry_pair_ok(
    chunks: Seq<ZapLeafChunk>,
    e: int,
    name: Seq<u8>,
    val: Value,
) -> bool {
    &&& 0 <= e < chunks.len()
    &&& match chunks[e] {
        ZapLeafChunk::Entry {
            int_size,
            next_chunk_id: _,
            name_chunk_id,
            name_length,
            value_chunk_id,
            nvalues,
            collision_differentiator: _,
            hash: _,
        } => {
            &&& name_length >= 1
            &&& zap_chain_read(chunks, name_chunk_id as int, name_length - 1, Seq::empty())
                == Some(name)
            &&& zap_chain_read(
                chunks,
                value_chunk_id as int,
                nvalues as int * int_size as int,
                Seq::empty(),
            ) is Some
            &&& zap_value_matches(
                val,
                int_size as int,
                nvalues as int,
                zap_chain_read(
                    chunks,
                    value_chunk_id as int,
                    nvalues as int * int_size as int,
                    Seq::empty(),
                )->Some_0,
            )
        },
        _ => false,
    }
}

/// Whether entry chunk `e` is well formed: a nonempty name, readable
/// name and value chains, and a value shape the format defines (1-, 2- or
/// 8-byte integers, at least one of them).
pub open spec fn zap_entry_wf(chunks: Seq<ZapLeafChunk>, e: int) -> bool {
    &&& 0 <= e < chunks.len()
    &&& match chunks[e] {
        ZapLeafChunk::Entry {
            int_size,
            next_chunk_id: _,
            name_chunk_id,
            name_length,
            value_chunk_id,
            nvalues,
            collision_differentiator: _,
            hash: _,
        } => {
            &&& name_length >= 1
            &&& zap_chain_read(chunks, name_chunk_id as int, name_length - 1, Seq::empty())
                is Some
            &&& zap_chain_read(
                chunks,
                value_chunk_id as int,
                nvalues as int * int_size as int,
                Seq::empty(),
            ) is Some
            &&& (int_size == 1 || int_size == 2 || int_size == 8)
            &&& nvalues >= 1
        },
        _ => false,
    }
}

/// The name-chunk id of entry chunk `e`.
pub open spec fn zap_entry_name_chunk(chunks: Seq<ZapLeafChunk>, e: int) -> int {
    chunks[e]->Entry_name_chunk_id as int
}

/// The stored name length (terminator included) of entry chunk `e`.
pub open spec fn zap_entry_name_len(chunks: Seq<ZapLeafChunk>, e: int) -> int {
    chunks[e]->Entry_name_length as int
}

/// Whether the pairs of `m` past index `base` are exactly the leaf's
/// entry chunks: pair `k` is the pair of chunk `sources[k]`, the sources
/// rise strictly (chunk order, no repeats), and every entry chunk is
/// among them.
pub open spec fn zap_dump_matches(
    chunks: Seq<ZapLeafChunk>,
    base: int,
    m: Seq<(Vec<u8>, Value)>,
    sources: Seq<int>,
) -> bool {
    &&& 0 <= base <= m.len()
    &&& sources.len() == m.len() - base
    &&& (forall|k: int|
        0 <= k < sources.len() ==> zap_entry_pair_ok(
            chunks,
            #[trigger] sources[k],
            m[base + k].0@,
            m[base + k].1,
        ))
    &&& (forall|k1: int, k2: int|
        0 <= k1 < k2 < sources.len() ==> (#[trigger] sources[k1]) < (#[trigger] sources[k2]))
    &&& (forall|e: int|
        0 <= e < chunks.len() && (#[trigger] chunks[e]) is Entry ==> sources.contains(e))
}

/// How many chunks before index `k` are entries.
pub open spec fn zap_entry_count(chunks: Seq<ZapLeafChunk>, k: int) -> int
    decreases k,
{
    if k <= 0 {
        0
    } else {
        zap_entry_count(chunks, k - 1) + if chunks[k - 1] is Entry {
            1int
        } else {
            0int
        }
    }
}

/// Entry counts are bounded by the index range.
pub proof fn lemma_zap_entry_count_bounds(chunks: Seq<ZapLeafChunk>, k: int)
    requires
        0 <= k,
    ensures
        0 <= zap_entry_count(chunks, k) <= k,
    decreases k,
{
    if k > 0 {
        lemma_zap_entry_count_bounds(chunks, k - 1);
    }
}

/// Whether `val` is the typed reading of the raw value bytes `vb` under
/// the entry's integer size and count; multi-byte integers are big-endian.
pub open spec fn zap_value_matches(val: Value, int_size: int, nvalues: int, vb: Seq<u8>) -> bool {
    match val {
        Value::U64(v) => int_size == 8 && nvalues == 1 && v == be64(vb, 0),
        Value::U64Array(vs) => int_size == 8 && nvalues > 1 && vs@.len() == nvalues && (forall|
            m: int,
        |
            0 <= m < nvalues ==> vs@[m] == be64(vb, 8 * m)),
        Value::Byte(v) => int_size == 1 && nvalues == 1 && v == vb[0],
        Value::ByteArray(vs) => int_size == 1 && nvalues > 1 && vs@ == vb,
        Value::U16(v) => int_size == 2 && nvalues == 1 && v == be16(vb, 0),
        Value::U16Array(vs) => int_size == 2 && nvalues > 1 && vs@.len() == nvalues && (forall|
            m: int,
        |
            0 <= m < nvalues ==> vs@[m] == be16(vb, 2 * m)),
    }
}

impl ZapLeaf {
    /// Read and type an entry's value: `nvalues` integers of `int_size`
    /// bytes each, big-endian, reassembled from the value chunk chain.
    pub fn read_entry_value(&self, int_size: u8, nvalues: u16, value_chunk_id: u16) -> (r:
        Option<Value>)
        ensures
            match r {
                Some(v) => zap_chain_read(
                    self.chunks@,
                    value_chunk_id as int,
                    nvalues as int * int_size as int,
                    Seq::empty(),
                ) is Some && zap_value_matches(
                    v,
                    int_size as int,
                    nvalues as int,
                    zap_chain_read(
                        self.chunks@,
                        value_chunk_id as int,
                        nvalues as int * int_size as int,
                        Seq::empty(),
                    )->Some_0,
                ),
                None => zap_chain_read(
                    self.chunks@,
                    value_chunk_id as int,
                    nvalues as int * int_size as int,
                    Seq::empty(),
                ) is None || !(int_size == 1 || int_size == 2 || int_size == 8) || nvalues == 0,
            },
    {
        proof {
            assert(nvalues as int * int_size as int <= 0x100_0000) by (nonlinear_arith)
                requires
                    nvalues <= 0xFFFF,
                    int_size <= 0xFF,
            ;
        }
        let vsize: usize = nvalues as usize * int_size as usize;
        let value_bytes = match self.read_data_starting_at_chunk(value_chunk_id as usize, vsize) {
            Some(v) => v,
            None => {
                return None;
            },
        };
        if int_size == 8 && nvalues == 1 {
            Some(Value::U64(crate::byte_reader::read_u64_be(value_bytes.as_slice(), 0)))
        } else if int_size == 8 && nvalues > 1 {
            let mut vs: Vec<u64> = Vec::new();
            let mut m: usize = 0;
            while m < nvalues as usize
                invariant
                    m <= nvalues as usize,
                    nvalues as usize * 8 <= value_bytes@.len(),
                    vs@.len() == m,
                    forall|q: int| 0 <= q < m ==> #[trigger] vs@[q] == be64(value_bytes@, 8 * q),
                decreases nvalues as usize - m,
            {
                vs.push(crate::byte_reader::read_u64_be(value_bytes.as_slice(), 8 * m));
                m = m + 1;
            }
            proof {
                assert(nvalues as int * 8 == value_bytes@.len());
            }
            Some(Value::U64Array(vs))
        } else if int_size == 1 && nvalues == 1 {
            Some(Value::Byte(value_bytes[0]))
        } else if int_size == 1 && nvalues > 1 {
            proof {
                assert(nvalues as int * 1 == nvalues as int) by (nonlinear_arith);
            }
            Some(Value::ByteArray(value_bytes))
        } else if int_size == 2 && nvalues == 1 {
            Some(Value::U16(crate::byte_reader::read_u16_be(value_bytes.as_slice(), 0)))
        } else if int_size == 2 && nvalues > 1 {
            let mut vs: Vec<u16> = Vec::new();
            let mut m: usize = 0;
            while m < nvalues as usize
                invariant
                    m <= nvalues as usize,
                    nvalues as usize * 2 <= value_bytes@.len(),
                    vs@.len() == m,
                    forall|q: int| 0 <= q < m ==> #[trigger] vs@[q] == be16(value_bytes@, 2 * q),
                decreases nvalues as usize - m,
            {
                vs.push(crate::byte_reader::read_u16_be(value_bytes.as_slice(), 2 * m));
                m = m + 1;
            }
            Some(Value::U16Array(vs))
        } else {
            None
        }
    }
}

impl ZapLeaf {
    /// Append the pair spelled by entry chunk `c`; a malformed chain or a
    /// repeated name rejects the map.
    #[verifier::rlimit(50)]
    pub fn dump_one_entry(&self, c: usize, map: &mut ZapContents) -> (r: Option<()>)
        requires
            c < self.chunks@.len(),
            self.chunks@[c as int] is Entry,
        ensures
            match r {
                Some(_) => {
                    &&& final(map)@.len() == old(map)@.len() + 1
                    &&& final(map)@.take(old(map)@.len() as int) == old(map)@
                    &&& zap_entry_pair_ok(
                        self.chunks@,
                        c as int,
                        final(map)@[final(map)@.len() - 1].0@,
                        final(map)@[final(map)@.len() - 1].1,
                    )
                    &&& (zap_names_distinct(old(map)@) ==> zap_names_distinct(final(map)@))
                },
                None => final(map)@ == old(map)@ && (!zap_entry_wf(self.chunks@, c as int)
                    || (exists|j: int|
                    0 <= j < old(map)@.len() && (#[trigger] old(map)@[j]).0@ == zap_chain_read(
                        self.chunks@,
                        zap_entry_name_chunk(self.chunks@, c as int),
                        zap_entry_name_len(self.chunks@, c as int) - 1,
                        Seq::empty(),
                    )->Some_0)),
            },
    {
        let ghost map_c = map@;
        let (int_size, name_chunk_id, name_length, value_chunk_id, nvalues): (
            u8,
            u16,
            u16,
            u16,
            u16,
        ) = match &self.chunks[c] {
            ZapLeafChunk::Entry {
                int_size,
                next_chunk_id: _,
                name_chunk_id,
                name_length,
                value_chunk_id,
                nvalues,
                collision_differentiator: _,
                hash: _,
            } => (*int_size, *name_chunk_id, *name_length, *value_chunk_id, *nvalues),
            _ => {
                proof {
                    assert(false);
                }
                return None;
            },
        };
        if name_length == 0 {
            return None;
        }
        let name = match self.read_data_starting_at_chunk(
            name_chunk_id as usize,
            name_length as usize - 1,
        ) {
            Some(v) => v,
            None => {
                return None;
            },
        };
        let value: Value = match self.read_entry_value(int_size, nvalues, value_chunk_id) {
            Some(v) => v,
            None => {
                return None;
            },
        };
        if zap_contents_has_name(map, &name) {
            return fat_zap_name_repeated();
        }
        proof {
            assert(zap_entry_pair_ok(self.chunks@, c as int, name@, value));
        }
        map.push((name, value));
        proof {
            assert(map@.take(map_c.len() as int) =~= map_c);
            if zap_names_distinct(map_c) {
                assert forall|i: int, j: int| 0 <= i < j < map@.len() implies (
                #[trigger] map@[i]).0@ != (#[trigger] map@[j]).0@ by {
                    if j == map@.len() - 1 {
                        assert(!(map_c[i].0@ =~= map@[j].0@));
                    }
                }
            }
        }
        Some(())
    }

    /// Collect every entry of this leaf into the map: the appended pairs
    /// are exactly the pairs spelled by the leaf's entry chunks, in chunk
    /// order, each entry once; a malformed entry or a repeated name
    /// rejects the map.
    #[verifier::rlimit(100)]
    pub fn dump_contents_into(&self, map: &mut ZapContents) -> (r: Option<()>)
        ensures
            match r {
                Some(_) => {
                    &&& final(map)@.len() == old(map)@.len() + zap_entry_count(
                        self.chunks@,
                        self.chunks@.len() as int,
                    )
                    &&& final(map)@.take(old(map)@.len() as int) == old(map)@
                    &&& exists|sources: Seq<int>|
                        #[trigger] zap_dump_matches(
                            self.chunks@,
                            old(map)@.len() as int,
                            final(map)@,
                            sources,
                        )
                    &&& (zap_names_distinct(old(map)@) ==> zap_names_distinct(final(map)@))
                },
                None => true,
            },
    {
        let ghost old_map = map@;
        let ghost mut sources: Seq<int> = Seq::empty();
        let ncs: usize = self.chunks.len();
        let mut c: usize = 0;
        proof {
            assert(map@.take(old_map.len() as int) =~= old_map);
        }
        while c < ncs
            invariant
                ncs == self.chunks@.len(),
                c <= ncs,
                map@.len() == old_map.len() + zap_entry_count(self.chunks@, c as int),
                map@.take(old_map.len() as int) == old_map,
                sources.len() == map@.len() - old_map.len(),
                forall|k: int|
                    0 <= k < sources.len() ==> 0 <= #[trigger] sources[k] < c,
                forall|k: int|
                    0 <= k < sources.len() ==> zap_entry_pair_ok(
                        self.chunks@,
                        #[trigger] sources[k],
                        map@[old_map.len() + k].0@,
                        map@[old_map.len() + k].1,
                    ),
                forall|k1: int, k2: int|
                    0 <= k1 < k2 < sources.len() ==> (#[trigger] sources[k1])
                        < (#[trigger] sources[k2]),
                forall|e: int|
                    0 <= e < c && (#[trigger] self.chunks@[e]) is Entry ==> sources.contains(e),
                zap_names_distinct(old_map) ==> zap_names_distinct(map@),
            decreases ncs - c,
        {
            let ghost map_c = map@;
            let ghost sources_c = sources;
            proof {
                lemma_zap_entry_count_bounds(self.chunks@, c as int);
            }
            let is_entry: bool = match &self.chunks[c] {
                ZapLeafChunk::Entry { .. } => true,
                _ => false,
            };
            if is_entry {
                match self.dump_one_entry(c, map) {
                    Some(_) => {},
                    None => {
                        return None;
                    },
                }
                proof {
                    sources = sources.push(c as int);
                    assert(zap_entry_count(self.chunks@, c as int + 1) == zap_entry_count(
                        self.chunks@,
                        c as int,
                    ) + 1);
                    assert(map@.take(old_map.len() as int) =~= map_c.take(
                        old_map.len() as int,
                    ));
                    assert(map@.take(old_map.len() as int) == old_map);
                    assert forall|k: int|
                        0 <= k < sources.len() implies zap_entry_pair_ok(
                        self.chunks@,
                        #[trigger] sources[k],
                        map@[old_map.len() + k].0@,
                        map@[old_map.len() + k].1,
                    ) by {
                        if k < sources_c.len() {
                            assert(sources[k] == sources_c[k]);
                            assert(map@[old_map.len() + k] == map_c[old_map.len() + k]);
                        } else {
                            assert(sources[k] == c as int);
                            assert(old_map.len() + k == map@.len() - 1);
                        }
                    }
                    assert forall|e: int|
                        0 <= e < c + 1 && (#[trigger] self.chunks@[e])
                            is Entry implies sources.contains(e) by {
                        if e < c {
                            let k0 = choose|k0: int|
                                0 <= k0 < sources_c.len() && sources_c[k0] == e;
                            assert(sources[k0] == e);
                        } else {
                            assert(sources[sources.len() - 1] == e);
                        }
                    }
                }
            } else {
                proof {
                    assert(zap_entry_count(self.chunks@, c as int + 1) == zap_entry_count(
                        self.chunks@,
                        c as int,
                    ));
                }
            }
            c = c + 1;
        }
        proof {
            assert(zap_dump_matches(self.chunks@, old_map.len() as int, map@, sources));
        }
        Some(())
    }
}

/// The pointer table of a fat-ZAP header.
pub struct ZapPointerTable {
    pub block_id: u64,
    pub num_blocks: u64,
    pub shift: u64,
    pub next_block: u64,
    pub blocks_copied: u64,
}

impl ZapPointerTable {
    pub fn get_ondisk_size() -> (r: usize)
        ensures
            r == 40,
    {
        40
    }

    pub fn from_bytes_le(data: &[u8], off: usize) -> (r: ZapPointerTable)
        requires
            off + 40 <= data@.len(),
        ensures
            r.block_id == le64(data@, off as int),
            r.num_blocks == le64(data@, off + 8),
            r.shift == le64(data@, off + 16),
            r.next_block == le64(data@, off + 24),
            r.blocks_copied == le64(data@, off + 32),
    {
        let _n: usize = data.len();
        ZapPointerTable {
            block_id: read_u64_le(data, off),
            num_blocks: read_u64_le(data, off + 8),
            shift: read_u64_le(data, off + 16),
            next_block: read_u64_le(data, off + 24),
            blocks_copied: read_u64_le(data, off + 32),
        }
    }
}

/// The header block of a fat ZAP, with its embedded leaf-pointer table.
pub struct FatZapHeader {
    pub free_blocks: u64,
    pub num_leafs: u64,
    pub num_entries: u64,
    pub table: ZapPointerTable,
    pub embedded_leafs_pointer_table: Vec<u64>,
}

impl FatZapHeader {
    pub fn from_bytes_le(data: &[u8], block_size: usize) -> (r: Option<FatZapHeader>)
        requires
            block_size <= data@.len(),
        ensures
            r is Some <==> block_size >= 256 && le64(data@, 8) == FAT_ZAP_MAGIC,
            match r {
                Some(h) => {
                    &&& h.free_blocks == le64(data@, 56)
                    &&& h.num_leafs == le64(data@, 64)
                    &&& h.num_entries == le64(data@, 72)
                    &&& h.table.block_id == le64(data@, 16)
                    &&& h.embedded_leafs_pointer_table@.len() == block_size as int / 2 / 8
                    &&& (forall|i: int|
                        0 <= i < h.embedded_leafs_pointer_table@.len()
                            ==> #[trigger] h.embedded_leafs_pointer_table@[i] == le64(
                            data@,
                            block_size as int / 2 + 8 * i,
                        ))
                },
                None => true,
            },
    {
        let _n: usize = data.len();
        if block_size < 256 {
            return None;
        }
        let zap_magic = read_u64_le(data, 8);
        if zap_magic != FAT_ZAP_MAGIC {
            return None;
        }
        let table = ZapPointerTable::from_bytes_le(data, 16);
        let free_blocks = read_u64_le(data, 56);
        let num_leafs = read_u64_le(data, 64);
        let num_entries = read_u64_le(data, 72);
        let half: usize = block_size / 2;
        let count: usize = half / 8;
        let mut embedded_leafs_pointer_table: Vec<u64> = Vec::new();
        let mut i: usize = 0;
        while i < count
            invariant
                i <= count,
                count == half as int / 8,
                half == block_size as int / 2,
                half + count * 8 <= block_size,
                block_size <= data@.len(),
                embedded_leafs_pointer_table@.len() == i,
                forall|j: int|
                    0 <= j < i ==> #[trigger] embedded_leafs_pointer_table@[j] == le64(
                        data@,
                        half + 8 * j,
                    ),
            decreases count - i,
        {
            embedded_leafs_pointer_table.push(read_u64_le(data, half + 8 * i));
            i = i + 1;
        }
        Some(
            FatZapHeader {
                free_blocks,
                num_leafs,
                num_entries,
                table,
                embedded_leafs_pointer_table,
            },
        )
    }

    /// The number of hash-table slots; only embedded tables are supported.
    pub fn get_hash_table_size(&self) -> (r: usize)
        requires
            self.table.block_id == 0,
        ensures
            r == self.embedded_leafs_pointer_table@.len(),
    {
        self.embedded_leafs_pointer_table.len()
    }

    pub fn read_hash_table_at(&self, index: usize) -> (r: u64)
        requires
            self.table.block_id == 0,
            index < self.embedded_leafs_pointer_table@.len(),
        ensures
            r == self.embedded_leafs_pointer_table@[index as int],
    {
        self.embedded_leafs_pointer_table[index]
    }
}

/// The first block of a ZAP object: either a fat-ZAP header or the start
/// of a flat micro ZAP.
pub enum ZapHeader {
    FatZap(FatZapHeader),
    MicroZap,
}

impl ZapHeader {
    pub fn from_bytes_le(data: &[u8], block_size: usize) -> (r: Option<ZapHeader>)
        requires
            block_size <= data@.len(),
            block_size >= 8,
        ensures
            match r {
                Some(ZapHeader::MicroZap) => le64(data@, 0) == 0x8000_0000_0000_0003,
                Some(ZapHeader::FatZap(h)) => le64(data@, 0) == 0x8000_0000_0000_0001
                    && block_size >= 256 && le64(data@, 8) == FAT_ZAP_MAGIC && h.free_blocks
                    == le64(data@, 56) && h.table.block_id == le64(data@, 16)
                    && h.embedded_leafs_pointer_table@.len() == block_size as int / 2 / 8 && (
                forall|i: int|
                    0 <= i < h.embedded_leafs_pointer_table@.len()
                        ==> #[trigger] h.embedded_leafs_pointer_table@[i] == le64(
                        data@,
                        block_size as int / 2 + 8 * i,
                    )),
                None => le64(data@, 0) != 0x8000_0000_0000_0003 && (le64(data@, 0)
                    != 0x8000_0000_0000_0001 || block_size < 256 || le64(data@, 8)
                    != FAT_ZAP_MAGIC),
            },
    {
        let _n: usize = data.len();
        let tag = read_u64_le(data, 0);
        let zap_type = match ZapType::from_value(tag) {
            Some(t) => t,
            None => {
                return None;
            },
        };
        match zap_type {
            ZapType::FatZapHeader => {
                match FatZapHeader::from_bytes_le(data, block_size) {
                    Some(h) => Some(ZapHeader::FatZap(h)),
                    None => None,
                }
            },
            ZapType::MicroZap => Some(ZapHeader::MicroZap),
            ZapType::FatZapLeaf => None,
        }
    }

    /// Walk the whole map: every distinct leaf of a fat ZAP, or the flat
    /// entry array of a micro ZAP.  The names of the result are distinct.
    pub fn dump_contents(&self, parent_dnode: &DNodeBase, vdevs: &mut VdevRaidz) -> (r: Option<
        ZapContents,
    >)
        requires
            old(vdevs).wf(),
        ensures
            final(vdevs).wf(),
            VdevRaidz::same_geometry(*old(vdevs), *final(vdevs)),
            match r {
                Some(m) => zap_names_distinct(m@),
                None => true,
            },
    {
        let mut result: ZapContents = Vec::new();
        match self {
            ZapHeader::FatZap(header) => {
                if header.table.block_id != 0 {
                    return None;
                }
                let mut leafs_read: Vec<u64> = Vec::new();
                let size = header.get_hash_table_size();
                let mut i: usize = 0;
                while i < size
                    invariant
                        old(vdevs).wf(),
                        vdevs.wf(),
                        VdevRaidz::same_geometry(*old(vdevs), *vdevs),
                        header.table.block_id == 0,
                        size == header.embedded_leafs_pointer_table@.len(),
                        zap_names_distinct(result@),
                    decreases size - i,
                {
                    let block_id = header.read_hash_table_at(i);
                    let mut seen: bool = false;
                    let mut j: usize = 0;
                    let nseen: usize = leafs_read.len();
                    while j < nseen
                        invariant
                            j <= nseen,
                            nseen == leafs_read@.len(),
                        decreases nseen - j,
                    {
                        if leafs_read[j] == block_id {
                            seen = true;
                        }
                        j = j + 1;
                    }
                    if !seen {
                        leafs_read.push(block_id);
                        let block = match parent_dnode.read_block(block_id, vdevs) {
                            Ok(b) => b,
                            Err(_) => {
                                return None;
                            },
                        };
                        let bs = parent_dnode.parse_data_block_size();
                        if bs > block.len() {
                            return None;
                        }
                        let leaf = match ZapLeaf::from_bytes_le(block.as_slice(), bs) {
                            Some(l) => l,
                            None => {
                                return None;
                            },
                        };
                        match leaf.dump_contents_into(&mut result) {
                            Some(_) => {},
                            None => {
                                return None;
                            },
                        }
                    }
                    i = i + 1;
                }
            },
            ZapHeader::MicroZap => {
                let block = match parent_dnode.read_block(0, vdevs) {
                    Ok(b) => b,
                    Err(_) => {
                        return None;
                    },
                };
                if block.len() < 64 {
                    return None;
                }
                let nentries: usize = (block.len() - 64) / 64;
                proof {
                    crate::arith::lemma_le_div_iff(
                        nentries as int,
                        64,
                        block@.len() - 64,
                    );
                }
                let mut k: usize = 0;
                while k < nentries
                    invariant
                        64 + nentries * 64 <= block@.len(),
                        block@.len() <= usize::MAX,
                        zap_names_distinct(result@),
                    decreases nentries - k,
                {
                    proof {
                        assert((k as int + 1) * 64 <= nentries as int * 64) by (nonlinear_arith)
                            requires
                                k as int + 1 <= nentries as int,
                        ;
                    }
                    let entry = MicroZapEntry::from_bytes_le(block.as_slice(), 64 + k * 64);
                    let _ = entry.dump_contents_into(&mut result);
                    k = k + 1;
                }
            },
        }
        Some(result)
    }
}

} // verus!
