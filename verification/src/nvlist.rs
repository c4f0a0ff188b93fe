//! The XDR-encoded name/value configuration lists carried in device
//! labels.  Names and string values are byte strings; integers are
//! big-endian on the wire.

use vstd::prelude::*;
use crate::byte_reader::{read_u16_be, read_u32_be, read_u64_be, read_u8, read_bytes};

verus! {

broadcast use vstd::slice::axiom_spec_len;

/// The nesting depth cap of the list parser.
pub const NVLIST_MAX_DEPTH: u64 = 128;

/// The wire tag of a pair's value.
#[derive(Debug, PartialEq, Eq, Clone, Copy, Structural)]
pub enum ValueType {
    Boolean,
    Byte,
    I16,
    U16,
    I32,
    U32,
    I64,
    U64,
    NvString,
    ByteArray,
    I16Array,
    U16Array,
    I32Array,
    U32Array,
    I64Array,
    U64Array,
    StringArray,
    HRTime,
    NVList,
    NVListArray,
    BooleanValue,
    I8,
    U8,
    BooleanArray,
    I8Array,
    U8Array,
}

/// The on-disk discriminant of a value tag.
pub open spec fn value_type_value(t: ValueType) -> u32 {
    match t {
        ValueType::Boolean => 1,
        ValueType::Byte => 2,
        ValueType::I16 => 3,
        ValueType::U16 => 4,
        ValueType::I32 => 5,
        ValueType::U32 => 6,
        ValueType::I64 => 7,
        ValueType::U64 => 8,
        ValueType::NvString => 9,
        ValueType::ByteArray => 10,
        ValueType::I16Array => 11,
        ValueType::U16Array => 12,
        ValueType::I32Array => 13,
        ValueType::U32Array => 14,
        ValueType::I64Array => 15,
        ValueType::U64Array => 16,
        ValueType::StringArray => 17,
        ValueType::HRTime => 18,
        ValueType::NVList => 19,
        ValueType::NVListArray => 20,
        ValueType::BooleanValue => 21,
        ValueType::I8 => 22,
        ValueType::U8 => 23,
        ValueType::BooleanArray => 24,
        ValueType::I8Array => 25,
        ValueType::U8Array => 26,
    }
}

impl ValueType {
    pub fn from_value(val: u32) -> (r: Option<ValueType>)
        ensures
            match r {
                Some(t) => val == value_type_value(t),
                None => val == 0 || val > 26,
            },
    {
        Some(
            match val {
                1 => ValueType::Boolean,
                2 => ValueType::Byte,
                3 => ValueType::I16,
                4 => ValueType::U16,
                5 => ValueType::I32,
                6 => ValueType::U32,
                7 => ValueType::I64,
                8 => ValueType::U64,
                9 => ValueType::NvString,
                10 => ValueType::ByteArray,
                11 => ValueType::I16Array,
                12 => ValueType::U16Array,
                13 => ValueType::I32Array,
                14 => ValueType::U32Array,
                15 => ValueType::I64Array,
                16 => ValueType::U64Array,
                17 => ValueType::StringArray,
                18 => ValueType::HRTime,
                19 => ValueType::NVList,
                20 => ValueType::NVListArray,
                21 => ValueType::BooleanValue,
                22 => ValueType::I8,
                23 => ValueType::U8,
                24 => ValueType::BooleanArray,
                25 => ValueType::I8Array,
                26 => ValueType::U8Array,
                _ => {
                    return None;
                },
            },
        )
    }
}

/// A decoded name/value list.
pub struct NVListData {
    pub pairs: Vec<(Vec<u8>, Value)>,
}

/// Whether no two pairs of the list carry the same name.
pub open spec fn nvlist_names_distinct(m: Seq<(Vec<u8>, Value)>) -> bool {
    forall|i: int, j: int| 0 <= i < j < m.len() ==> (#[trigger] m[i]).0@ != (#[trigger] m[j]).0@
}

/// Whether the list already holds a pair named `name`.
fn nvlist_has_name(pairs: &Vec<(Vec<u8>, Value)>, name: &Vec<u8>) -> (r: bool)
    ensures
        r == exists|j: int| 0 <= j < pairs@.len() && (#[trigger] pairs@[j]).0@ =~= name@,
{
    let n: usize = pairs.len();
    let mut i: usize = 0;
    while i < n
        invariant
            n == pairs@.len(),
            i <= n,
            forall|j: int| 0 <= j < i ==> !((#[trigger] pairs@[j]).0@ =~= name@),
        decreases n - i,
    {
        if crate::zap::bytes_eq(pairs[i].0.as_slice(), name.as_slice()) {
            proof {
                assert(pairs@[i as int].0@ =~= name@);
            }
            return true;
        }
        i = i + 1;
    }
    false
}

/// A decoded pair value.  Kinds the reader does not decode are carried as
/// `Unknown`.
pub enum Value {
    Unknown,
    Boolean(bool),
    Byte(u8),
    I16(i16),
    U16(u16),
    I32(i32),
    U32(u32),
    I64(i64),
    U64(u64),
    NvString(Vec<u8>),
    NVList(NVListData),
}

/// Read `size` raw bytes of a string.
pub fn read_string_raw(data: &[u8], off: usize, size: usize) -> (r: Option<Vec<u8>>)
    ensures
        match r {
            Some(v) => off + size <= data@.len() && v@ == data@.subrange(
                off as int,
                off + size,
            ),
            None => off + size > data@.len(),
        },
{
    let n: usize = data.len();
    if size > n || off > n - size {
        return None;
    }
    Some(read_bytes(data, off, size))
}

/// Read a length-prefixed, 4-byte-aligned string; returns the bytes and
/// how many input bytes the string and its length word consumed.
pub fn read_string_and_size(data: &[u8], off: usize) -> (r: Option<(Vec<u8>, usize)>)
    ensures
        match r {
            Some(p) => p.1 >= 4,
            None => true,
        },
{
    let n: usize = data.len();
    if off > n || n - off < 4 {
        return None;
    }
    let result_size: u32 = read_u32_be(data, off);
    if result_size > 0x1000_0000 {
        return None;
    }
    let aligned: u32 = if result_size % 4 == 0 {
        result_size
    } else {
        (result_size / 4 + 1) * 4
    };
    let s = match read_string_raw(data, off + 4, result_size as usize) {
        Some(s) => s,
        None => {
            return None;
        },
    };
    Some((s, aligned as usize + 4))
}

/// Decode a label's XDR stream: a one-byte encoding tag and a one-byte
/// endianness tag (both must be 1), then the outermost list.
pub fn from_bytes_xdr(data: &[u8]) -> (r: Option<NVListData>)
    ensures
        data@.len() < 4 ==> r is None,
        data@.len() >= 4 && (data@[0] != 1 || data@[1] != 1) ==> r is None,
        match r {
            Some(list) => nvlist_names_distinct(list.pairs@),
            None => true,
        },
{
    if data.len() < 4 {
        return None;
    }
    let xdr_encoding = read_u8(data, 0);
    let xdr_endian = read_u8(data, 1);
    if xdr_endian != 1 || xdr_encoding != 1 {
        return None;
    }
    match nvlist_from_bytes(data, 4, NVLIST_MAX_DEPTH) {
        Some((list, _)) => Some(list),
        None => None,
    }
}

/// Decode one list starting at `off`: a version and flag word, then pairs
/// until a terminating pair of zero sizes.  Nesting beyond the depth cap
/// and value kinds outside the supported set are rejected.
pub fn nvlist_from_bytes(data: &[u8], off: usize, depth: u64) -> (r: Option<(NVListData, usize)>)
    ensures
        match r {
            Some(p) => off <= p.1 <= data@.len() && nvlist_names_distinct(p.0.pairs@),
            None => true,
        },
        depth == 0 ==> r is None,
        off + 8 > data@.len() ==> r is None,
    decreases depth,
{
    if depth == 0 {
        return None;
    }
    let n: usize = data.len();
    if off > n || n - off < 8 {
        return None;
    }
    let mut pos: usize = off + 8;
    let mut pairs: Vec<(Vec<u8>, Value)> = Vec::new();
    loop
        invariant
            n == data@.len(),
            off <= pos <= n,
            depth >= 1,
            nvlist_names_distinct(pairs@),
        ensures
            off <= pos <= n,
            nvlist_names_distinct(pairs@),
        decreases n - pos,
    {
        if n - pos < 8 {
            return None;
        }
        let encode_size = read_u32_be(data, pos);
        let decode_size = read_u32_be(data, pos + 4);
        pos = pos + 8;
        if encode_size == 0 && decode_size == 0 {
            break ;
        }
        let (name, name_consumed) = match read_string_and_size(data, pos) {
            Some(p) => p,
            None => {
                return None;
            },
        };
        if name_consumed > n - pos {
            return None;
        }
        pos = pos + name_consumed;
        if n - pos < 8 {
            return None;
        }
        let type_raw = read_u32_be(data, pos);
        let nvalues = read_u32_be(data, pos + 4);
        let value_type = match ValueType::from_value(type_raw) {
            Some(t) => t,
            None => {
                // An unknown value kind: skip the whole pair, whose decoded
                // size covers the name, the kind word and the value bytes.
                pos = pos + 8;
                if (decode_size as u64) < name_consumed as u64 + 8 {
                    return None;
                }
                let value_size: u32 = decode_size - name_consumed as u32 - 8;
                if value_size as u64 > (n - pos) as u64 {
                    return None;
                }
                pos = pos + value_size as usize;
                continue ;
            },
        };
        pos = pos + 8;
        if nvalues == 0 {
            if nvlist_has_name(&pairs, &name) {
                return None;
            }
            push_distinct(&mut pairs, name, Value::Unknown);
            continue ;
        }
        match value_type {
            ValueType::Boolean => {
                if n - pos < 1 {
                    return None;
                }
                let v = read_u8(data, pos);
                pos = pos + 1;
                if nvlist_has_name(&pairs, &name) {
                    return None;
                }
                push_distinct(&mut pairs, name, Value::Boolean(v != 0));
            },
            ValueType::Byte => {
                if n - pos < 1 {
                    return None;
                }
                let v = read_u8(data, pos);
                pos = pos + 1;
                if nvlist_has_name(&pairs, &name) {
                    return None;
                }
                push_distinct(&mut pairs, name, Value::Byte(v));
            },
            ValueType::I16 => {
                if n - pos < 2 {
                    return None;
                }
                let v = read_u16_be(data, pos);
                pos = pos + 2;
                if nvlist_has_name(&pairs, &name) {
                    return None;
                }
                push_distinct(&mut pairs, name, Value::I16(v as i16));
            },
            ValueType::U16 => {
                if n - pos < 2 {
                    return None;
                }
                let v = read_u16_be(data, pos);
                pos = pos + 2;
                if nvlist_has_name(&pairs, &name) {
                    return None;
                }
                push_distinct(&mut pairs, name, Value::U16(v));
            },
            ValueType::I32 => {
                if n - pos < 4 {
                    return None;
                }
                let v = read_u32_be(data, pos);
                pos = pos + 4;
                if nvlist_has_name(&pairs, &name) {
                    return None;
                }
                push_distinct(&mut pairs, name, Value::I32(v as i32));
            },
            ValueType::U32 => {
                if n - pos < 4 {
                    return None;
                }
                let v = read_u32_be(data, pos);
                pos = pos + 4;
                if nvlist_has_name(&pairs, &name) {
                    return None;
                }
                push_distinct(&mut pairs, name, Value::U32(v));
            },
            ValueType::I64 => {
                if n - pos < 8 {
                    return None;
                }
                let v = read_u64_be(data, pos);
                pos = pos + 8;
                if nvlist_has_name(&pairs, &name) {
                    return None;
                }
                push_distinct(&mut pairs, name, Value::I64(v as i64));
            },
            ValueType::U64 => {
                if n - pos < 8 {
                    return None;
                }
                let v = read_u64_be(data, pos);
                pos = pos + 8;
                if nvlist_has_name(&pairs, &name) {
                    return None;
                }
                push_distinct(&mut pairs, name, Value::U64(v));
            },
            ValueType::NvString => {
                let (v, consumed) = match read_string_and_size(data, pos) {
                    Some(p) => p,
                    None => {
                        return None;
                    },
                };
                if consumed > n - pos {
                    return None;
                }
                pos = pos + consumed;
                if nvlist_has_name(&pairs, &name) {
                    return None;
                }
                push_distinct(&mut pairs, name, Value::NvString(v));
            },
            ValueType::NVList => {
                let (inner, new_pos) = match nvlist_from_bytes(data, pos, depth - 1) {
                    Some(p) => p,
                    None => {
                        return None;
                    },
                };
                if new_pos <= pos {
                    return None;
                }
                pos = new_pos;
                if nvlist_has_name(&pairs, &name) {
                    return None;
                }
                push_distinct(&mut pairs, name, Value::NVList(inner));
            },
            _ => {
                return None;
            },
        }
    }
    Some((NVListData { pairs }, pos))
}

/// Append a pair whose name is not yet present, keeping the names
/// pairwise distinct.
fn push_distinct(pairs: &mut Vec<(Vec<u8>, Value)>, name: Vec<u8>, value: Value)
    requires
        nvlist_names_distinct(old(pairs)@),
        forall|j: int| 0 <= j < old(pairs)@.len() ==> !((#[trigger] old(pairs)@[j]).0@ =~= name@),
    ensures
        nvlist_names_distinct(final(pairs)@),
        final(pairs)@.len() == old(pairs)@.len() + 1,
{
    let ghost before = pairs@;
    pairs.push((name, value));
    proof {
        assert forall|i: int, j: int| 0 <= i < j < pairs@.len() implies (
        #[trigger] pairs@[i]).0@ != (#[trigger] pairs@[j]).0@ by {
            if j == pairs@.len() - 1 {
                assert(!(before[i].0@ =~= pairs@[j].0@));
            } else {
                assert(pairs@[i] == before[i] && pairs@[j] == before[j]);
            }
        }
    }
}

/// Find the value stored under `name`: the first pair with that name.
pub fn nvlist_get<'a>(list: &'a NVListData, name: &Vec<u8>) -> (r: Option<&'a Value>)
    ensures
        match r {
            Some(v) => exists|j: int|
                {
                    &&& 0 <= j < list.pairs@.len()
                    &&& (#[trigger] list.pairs@[j]).0@ == name@
                    &&& *v == list.pairs@[j].1
                    &&& forall|j2: int|
                        0 <= j2 < j ==> (#[trigger] list.pairs@[j2]).0@ != name@
                },
            None => forall|j: int| 0 <= j < list.pairs@.len() ==> (#[trigger] list.pairs@[j]).0@
                != name@,
        },
{
    let n: usize = list.pairs.len();
    let mut i: usize = 0;
    while i < n
        invariant
            n == list.pairs@.len(),
            i <= n,
            forall|j2: int| 0 <= j2 < i ==> (#[trigger] list.pairs@[j2]).0@ != name@,
        decreases n - i,
    {
        if crate::zap::bytes_eq(list.pairs[i].0.as_slice(), name.as_slice()) {
            proof {
                assert(list.pairs@[i as int].0@ =~= name@);
            }
            return Some(&list.pairs[i].1);
        }
        proof {
            assert(!(list.pairs@[i as int].0@ =~= name@));
        }
        i = i + 1;
    }
    None
}

} // verus!
