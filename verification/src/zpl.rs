//! System attributes: packed records in DNode bonus buffers, laid out by
//! a layout table and described by a registry, both stored as ZAPs.

use vstd::prelude::*;
use crate::byte_reader::{le16, le32, read_u16_le, read_u32_le, read_u64_le, read_bytes};
use crate::dmu::{DNode, ObjSet};
use crate::zap::{bytes_eq, zap_contents_get, ZapContents};
use crate::VdevRaidz;

verus! {

broadcast use vstd::slice::axiom_spec_len;

pub const SYSTEM_ATTRIBUTES_MAGIC: u32 = 0x2F505A;

/// One registry record: attribute id, byteswap function, and fixed length
/// (zero meaning variable).
pub struct SystemAttributesRegistration {
    pub attribute_id: u16,
    pub bswap: u8,
    pub len: u16,
}

impl SystemAttributesRegistration {
    pub fn from_value(value: u64) -> (r: SystemAttributesRegistration)
        ensures
            r.attribute_id == value & 0xFFFF,
            r.bswap == (value >> 16) & 0xFF,
            r.len == (value >> 24) & 0xFFFF,
    {
        proof {
            assert(value & 0xFFFF < 0x1_0000 && (value >> 16) & 0xFF < 0x100 && (value >> 24)
                & 0xFFFF < 0x1_0000) by (bit_vector);
        }
        SystemAttributesRegistration {
            attribute_id: (value & 0xFFFF) as u16,
            bswap: ((value >> 16) & 0xFF) as u8,
            len: ((value >> 24) & 0xFFFF) as u16,
        }
    }
}

/// The packed header of an attribute record: a magic, a layout id, and
/// per-record lengths.
pub struct SystemAttributesHeader {
    pub layout_id: u16,
    pub lengths: Vec<u16>,
}

impl SystemAttributesHeader {
    pub fn get_ondisk_size(&self) -> (r: usize)
        requires
            self.lengths@.len() <= 0x1_0000,
        ensures
            r == 6 + self.lengths@.len() * 2,
    {
        6 + self.lengths.len() * 2
    }

    pub fn from_bytes_le(data: &[u8], off: usize) -> (r: Option<SystemAttributesHeader>)
        requires
            off + 6 <= data@.len(),
        ensures
            r is Some <==> le32(data@, off as int) == SYSTEM_ATTRIBUTES_MAGIC && ((le16(
                data@,
                off + 4,
            ) >> 10) & 0x3F) != 0 && off + 6 + (((le16(data@, off + 4) >> 10) & 0x3F) * 8 - 6)
                / 2 * 2 <= data@.len(),
            match r {
                Some(h) => {
                    &&& le32(data@, off as int) == SYSTEM_ATTRIBUTES_MAGIC
                    &&& h.layout_id == le16(data@, off + 4) & 0x3FF
                    &&& h.lengths@.len() == (((le16(data@, off + 4) >> 10) & 0x3F) * 8 - 6) / 2
                    &&& (forall|i: int|
                        0 <= i < h.lengths@.len() ==> #[trigger] h.lengths@[i] == le16(
                            data@,
                            off + 6 + 2 * i,
                        ))
                },
                None => true,
            },
    {
        let _n: usize = data.len();
        let magic = read_u32_le(data, off);
        if magic != SYSTEM_ATTRIBUTES_MAGIC {
            return None;
        }
        let layout_info = read_u16_le(data, off + 4);
        let header_size_words = (layout_info >> 10) & 0x3F;
        let header_size: u32 = header_size_words as u32 * 8;
        if header_size == 0 {
            return None;
        }
        let layout_id: u16 = layout_info & 0x3FF;
        if header_size < 6 {
            return None;
        }
        proof {
            assert((layout_info >> 10) & 0x3F < 0x40) by (bit_vector);
        }
        let nlengths: u32 = (header_size - 6) / 2;
        if 6 + nlengths as u64 * 2 > data.len() as u64 || off as u64 > data.len() as u64 - 6
            - nlengths as u64 * 2 {
            return None;
        }
        let mut lengths: Vec<u16> = Vec::new();
        let mut i: u32 = 0;
        while i < nlengths
            invariant
                i <= nlengths,
                nlengths <= 0x200,
                off + 6 + nlengths * 2 <= data@.len(),
                off + 6 + nlengths * 2 <= usize::MAX,
                lengths@.len() == i,
                forall|q: int|
                    0 <= q < i ==> #[trigger] lengths@[q] == le16(data@, off + 6 + 2 * q),
            decreases nlengths - i,
        {
            lengths.push(read_u16_le(data, off + 6 + i as usize * 2));
            i = i + 1;
        }
        Some(SystemAttributesHeader { layout_id, lengths })
    }
}

/// A typed attribute value: all supported attributes are 64-bit words or
/// arrays of them.
pub enum Value {
    U64(u64),
    U64Array(Vec<u64>),
}

/// One attribute as registered: its name, byteswap function, and fixed
/// length.
pub struct SystemAttribute {
    pub name: Vec<u8>,
    pub byteswap_function: u8,
    pub len: u16,
}

/// The decoded attribute metadata of a dataset: layout id to attribute-id
/// list, and attribute id to its registration.
pub struct SystemAttributes {
    pub layouts: Vec<(u64, Vec<u16>)>,
    pub attributes: Vec<(u16, SystemAttribute)>,
}

/// Parse a decimal byte string.
pub fn parse_decimal(bytes: &[u8]) -> (r: Option<u64>)
    ensures
        r is Some ==> bytes@.len() >= 1,
{
    let n: usize = bytes.len();
    if n == 0 {
        return None;
    }
    let mut value: u64 = 0;
    let mut i: usize = 0;
    while i < n
        invariant
            n == bytes@.len(),
            i <= n,
        decreases n - i,
    {
        let b = bytes[i];
        if b < 48 || b > 57 {
            return None;
        }
        if value > 0x28F5C28F5C28F5B {
            return None;
        }
        value = value * 10 + (b - 48) as u64;
        i = i + 1;
    }
    Some(value)
}

impl SystemAttributes {
    /// Load the layouts and the registry from the dataset's
    /// system-attribute master node.
    pub fn from_attributes_node_number(
        system_attributes_info_number: u64,
        dataset_object_set: &ObjSet,
        vdevs: &mut VdevRaidz,
    ) -> (r: Option<SystemAttributes>)
        requires
            old(vdevs).wf(),
        ensures
            final(vdevs).wf(),
            VdevRaidz::same_geometry(*old(vdevs), *final(vdevs)),
    {
        let sa_info = match dataset_object_set.get_dnode_at(
            system_attributes_info_number,
            vdevs,
        ) {
            Some(DNode::SystemAttributesMasterNode(d)) => d,
            _ => {
                return None;
            },
        };
        let sa_info_zap = match sa_info.dump_zap_contents(vdevs) {
            Some(m) => m,
            None => {
                return None;
            },
        };
        let layouts_name: Vec<u8> = vec![76u8, 65, 89, 79, 85, 84, 83];
        let registry_name: Vec<u8> = vec![82u8, 69, 71, 73, 83, 84, 82, 89];
        let layouts_number: u64 = match zap_contents_get(&sa_info_zap, &layouts_name) {
            Some(crate::zap::Value::U64(v)) => *v,
            _ => {
                return None;
            },
        };
        let registry_number: u64 = match zap_contents_get(&sa_info_zap, &registry_name) {
            Some(crate::zap::Value::U64(v)) => *v,
            _ => {
                return None;
            },
        };
        let layouts_node = match dataset_object_set.get_dnode_at(layouts_number, vdevs) {
            Some(DNode::SystemAttributesLayouts(d)) => d,
            _ => {
                return None;
            },
        };
        let layouts_zap = match layouts_node.dump_zap_contents(vdevs) {
            Some(m) => m,
            None => {
                return None;
            },
        };
        let mut layouts: Vec<(u64, Vec<u16>)> = Vec::new();
        let nl: usize = layouts_zap.len();
        let mut i: usize = 0;
        while i < nl
            invariant
                nl == layouts_zap@.len(),
                i <= nl,
                vdevs.wf(),
                VdevRaidz::same_geometry(*old(vdevs), *vdevs),
            decreases nl - i,
        {
            let id = match parse_decimal(layouts_zap[i].0.as_slice()) {
                Some(v) => v,
                None => {
                    return None;
                },
            };
            let cols: Vec<u16> = match &layouts_zap[i].1 {
                crate::zap::Value::U16Array(vs) => {
                    let mut copy: Vec<u16> = Vec::new();
                    let m: usize = vs.len();
                    let mut j: usize = 0;
                    while j < m
                        invariant
                            m == vs@.len(),
                            j <= m,
                        decreases m - j,
                    {
                        copy.push(vs[j]);
                        j = j + 1;
                    }
                    copy
                },
                _ => {
                    return None;
                },
            };
            layouts.push((id, cols));
            i = i + 1;
        }
        // The implicit legacy layout.
        let legacy: Vec<u16> = vec![
            0u16,
            1,
            2,
            3,
            4,
            5,
            6,
            7,
            8,
            9,
            10,
            11,
            12,
            13,
            14,
            15,
        ];
        layouts.push((0, legacy));
        let registry_node = match dataset_object_set.get_dnode_at(registry_number, vdevs) {
            Some(DNode::SystemAttributesRegistrations(d)) => d,
            _ => {
                return None;
            },
        };
        let registry_zap = match registry_node.dump_zap_contents(vdevs) {
            Some(m) => m,
            None => {
                return None;
            },
        };
        let mut attributes: Vec<(u16, SystemAttribute)> = Vec::new();
        let nr: usize = registry_zap.len();
        let mut k: usize = 0;
        while k < nr
            invariant
                nr == registry_zap@.len(),
                k <= nr,
                vdevs.wf(),
                VdevRaidz::same_geometry(*old(vdevs), *vdevs),
            decreases nr - k,
        {
            let raw: u64 = match &registry_zap[k].1 {
                crate::zap::Value::U64(v) => *v,
                _ => {
                    return None;
                },
            };
            let reg = SystemAttributesRegistration::from_value(raw);
            let name = read_bytes(registry_zap[k].0.as_slice(), 0, registry_zap[k].0.len());
            attributes.push(
                (
                    reg.attribute_id,
                    SystemAttribute {
                        name,
                        byteswap_function: reg.bswap,
                        len: reg.len,
                    },
                ),
            );
            k = k + 1;
        }
        Some(SystemAttributes { layouts, attributes })
    }

    /// Decode one packed attribute record (a bonus buffer) against the
    /// layout its header names: fixed-size attributes with the plain byte
    /// order are read as 64-bit words, others are skipped.
    pub fn parse_system_attributes_bytes_le(&self, data: &[u8]) -> (r: Option<
        Vec<(Vec<u8>, Value)>,
    >) {
        if data.len() < 6 {
            return None;
        }
        let header = match SystemAttributesHeader::from_bytes_le(data, 0) {
            Some(h) => h,
            None => {
                return None;
            },
        };
        if header.lengths.len() > 0x1_0000 {
            return None;
        }
        let mut layout: Option<&Vec<u16>> = None;
        let nl: usize = self.layouts.len();
        let mut i: usize = 0;
        while i < nl
            invariant
                nl == self.layouts@.len(),
                i <= nl,
            decreases nl - i,
        {
            if self.layouts[i].0 == header.layout_id as u64 {
                layout = Some(&self.layouts[i].1);
                break ;
            }
            i = i + 1;
        }
        let layout = match layout {
            Some(l) => l,
            None => {
                return None;
            },
        };
        let mut pos: usize = header.get_ondisk_size();
        let n: usize = data.len();
        if pos > n {
            return None;
        }
        let mut attributes: Vec<(Vec<u8>, Value)> = Vec::new();
        let nattrs: usize = layout.len();
        let mut a: usize = 0;
        while a < nattrs
            invariant
                nattrs == layout@.len(),
                a <= nattrs,
                pos <= n,
                n == data@.len(),
            decreases nattrs - a,
        {
            let attribute_id: u16 = layout[a];
            let mut info: Option<(Vec<u8>, u8, u16)> = None;
            let na: usize = self.attributes.len();
            let mut j: usize = 0;
            while j < na
                invariant
                    na == self.attributes@.len(),
                    j <= na,
                decreases na - j,
            {
                if self.attributes[j].0 == attribute_id {
                    let att = &self.attributes[j].1;
                    info = Some(
                        (
                            read_bytes(att.name.as_slice(), 0, att.name.len()),
                            att.byteswap_function,
                            att.len,
                        ),
                    );
                    break ;
                }
                j = j + 1;
            }
            let (name, bswap, alen) = match info {
                Some(t) => t,
                None => {
                    return None;
                },
            };
            if alen == 0 {
                // A variable-size attribute can only be skipped when it is
                // the last one of the layout.
                if a == nattrs - 1 {
                    break ;
                }
                return None;
            }
            if alen as usize > n - pos {
                return None;
            }
            if bswap != 0 || alen % 8 != 0 {
                pos = pos + alen as usize;
                a = a + 1;
                continue ;
            }
            let nvalues: usize = alen as usize / 8;
            if nvalues == 1 {
                let v = read_u64_le(data, pos);
                attributes.push((name, Value::U64(v)));
            } else {
                let mut vs: Vec<u64> = Vec::new();
                let mut q: usize = 0;
                while q < nvalues
                    invariant
                        q <= nvalues,
                        pos + nvalues * 8 <= n,
                        n == data@.len(),
                    decreases nvalues - q,
                {
                    proof {
                        assert((q as int + 1) * 8 <= nvalues as int * 8) by (nonlinear_arith)
                            requires
                                q as int + 1 <= nvalues as int,
                        ;
                    }
                    vs.push(read_u64_le(data, pos + q * 8));
                    q = q + 1;
                }
                attributes.push((name, Value::U64Array(vs)));
            }
            pos = pos + alen as usize;
            a = a + 1;
        }
        Some(attributes)
    }
}

} // verus!
