// ZAP decoding: a fat-ZAP leaf with one entry, and micro-ZAP entries.

use szfs::zap::{MicroZapEntry, Value, ZapLeaf, ZapLeafChunk};

fn put_u16_le(buf: &mut [u8], off: usize, v: u16) {
    buf[off..off + 2].copy_from_slice(&v.to_le_bytes());
}

fn put_u32_le(buf: &mut [u8], off: usize, v: u32) {
    buf[off..off + 4].copy_from_slice(&v.to_le_bytes());
}

fn put_u64_le(buf: &mut [u8], off: usize, v: u64) {
    buf[off..off + 8].copy_from_slice(&v.to_le_bytes());
}

fn leaf_with_root_entry() -> Vec<u8> {
    let bs = 512usize;
    let mut b = vec![0u8; bs];
    // Leaf header: the leaf tag and the leaf magic.
    put_u64_le(&mut b, 0, 1u64 << 63);
    put_u32_le(&mut b, 24, 0x2AB1EAF);
    // Hash table: 16 entries of two bytes each, all zero.
    let chunk0 = 48 + (bs / 32) * 2;
    // Chunk 0: the entry: 8-byte integers, one value, name chunk 1 with
    // length 5 (four letters and the terminator), value chunk 2.
    b[chunk0] = 252;
    b[chunk0 + 1] = 8; // int size
    put_u16_le(&mut b, chunk0 + 2, 0xFFFF); // next
    put_u16_le(&mut b, chunk0 + 4, 1); // name chunk
    put_u16_le(&mut b, chunk0 + 6, 5); // name length
    put_u16_le(&mut b, chunk0 + 8, 2); // value chunk
    put_u16_le(&mut b, chunk0 + 10, 1); // one value
    // Chunk 1: the name bytes.
    let chunk1 = chunk0 + 24;
    b[chunk1] = 251;
    b[chunk1 + 1..chunk1 + 5].copy_from_slice(b"ROOT");
    put_u16_le(&mut b, chunk1 + 22, 0xFFFF);
    // Chunk 2: the value bytes, big-endian.
    let chunk2 = chunk1 + 24;
    b[chunk2] = 251;
    b[chunk2 + 1..chunk2 + 9].copy_from_slice(&34u64.to_be_bytes());
    put_u16_le(&mut b, chunk2 + 22, 0xFFFF);
    // Remaining chunks: free.
    let nchunks = (bs - chunk2 - 24) / 24;
    for c in 0..nchunks {
        let off = chunk2 + 24 + c * 24;
        b[off] = 253;
    }
    b
}

// A fat-ZAP leaf holding ("ROOT", 34) dumps exactly that pair.
#[test]
fn fat_zap_leaf_single_entry() {
    let block = leaf_with_root_entry();
    let leaf = ZapLeaf::from_bytes_le(&block, block.len()).expect("leaf parse");
    let entries = leaf
        .get_chunks()
        .iter()
        .filter(|c| matches!(c, ZapLeafChunk::Entry { .. }))
        .count();
    assert_eq!(entries, 1);
    let mut map = Vec::new();
    leaf.dump_contents_into(&mut map).expect("dump");
    assert_eq!(map.len(), 1);
    assert_eq!(map[0].0, b"ROOT".to_vec());
    match map[0].1 {
        Value::U64(v) => assert_eq!(v, 34),
        _ => panic!("wrong value shape"),
    }
}

// A name that repeats across dumps rejects the map: no name appears
// twice.
#[test]
fn fat_zap_rejects_repeated_name() {
    let block = leaf_with_root_entry();
    let leaf = ZapLeaf::from_bytes_le(&block, block.len()).expect("leaf parse");
    let mut map = Vec::new();
    leaf.dump_contents_into(&mut map).expect("first dump");
    assert!(leaf.dump_contents_into(&mut map).is_none());
    assert_eq!(map.len(), 1);
}

#[test]
fn micro_zap_entry_roundtrip() {
    let mut b = vec![0u8; 64];
    put_u64_le(&mut b, 0, 77);
    b[14..18].copy_from_slice(b"name");
    let entry = MicroZapEntry::from_bytes_le(&b, 0);
    assert_eq!(entry.value, 77);
    let mut map = Vec::new();
    entry.dump_contents_into(&mut map).expect("insert");
    assert_eq!(map.len(), 1);
    assert_eq!(map[0].0, b"name".to_vec());
    // An all-zero entry carries no name and adds nothing.
    let empty = MicroZapEntry::from_bytes_le(&vec![0u8; 64], 0);
    assert!(empty.dump_contents_into(&mut map).is_none());
    assert_eq!(map.len(), 1);
}
