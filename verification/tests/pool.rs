// End-to-end scenarios over constructed pool images.

use szfs::dmu::{BonusType, DNodeBase, DNodePlainFileContents, ZapDNode};
use szfs::fletcher::do_fletcher4;
use szfs::undelete::{aggregated_read_block, overlaps, parse_checksum_from_str, Fragment, FragmentData};
use szfs::yolo_block_recovery::{find_block_with_fletcher4_checksum, YoloCache};
use szfs::zio::{
    ChecksumMethod,
    CompressionMethod,
    DataVirtualAddress,
    EmbeddedBlockPointer,
    NormalBlockPointer,
};
use szfs::{Uberblock, VdevDisk, VdevLabel, VdevRaidz};

fn blank_labels() -> Vec<Vec<u8>> {
    vec![vec![0u8; 0x40000], vec![0u8; 0x40000], vec![0u8; 0x40000], vec![0u8; 0x40000]]
}

fn put_u16_le(buf: &mut [u8], off: usize, v: u16) {
    buf[off..off + 2].copy_from_slice(&v.to_le_bytes());
}

fn put_u32_le(buf: &mut [u8], off: usize, v: u32) {
    buf[off..off + 4].copy_from_slice(&v.to_le_bytes());
}

fn put_u64_le(buf: &mut [u8], off: usize, v: u64) {
    buf[off..off + 8].copy_from_slice(&v.to_le_bytes());
}

fn put_u32_be(buf: &mut [u8], off: usize, v: u32) {
    buf[off..off + 4].copy_from_slice(&v.to_be_bytes());
}

fn put_u64_be(buf: &mut [u8], off: usize, v: u64) {
    buf[off..off + 8].copy_from_slice(&v.to_be_bytes());
}

/// A normal block pointer: one DVA, no compression dance beyond `comp`.
fn make_bp_bytes(
    offset_sectors: u64,
    psize_sectors: u16,
    lsize_sectors: u16,
    comp: u64,
    cksum_kind: u64,
    cksum: [u64; 4],
) -> Vec<u8> {
    let mut b = vec![0u8; 128];
    // DVA 0: vdev 0, allocated size, offset.
    put_u32_le(&mut b, 0, 0);
    put_u32_le(&mut b, 4, ((psize_sectors as u32 - 1) << 8) as u32);
    put_u64_le(&mut b, 8, offset_sectors);
    // The information word: endian bit, checksum and compression kinds,
    // sizes as sectors minus one.
    let info: u64 = (1u64 << 63) | (cksum_kind << 40) | (comp << 32)
        | (((psize_sectors - 1) as u64) << 16) | ((lsize_sectors - 1) as u64);
    put_u64_le(&mut b, 48, info);
    put_u64_le(&mut b, 96, cksum[0]);
    put_u64_le(&mut b, 104, cksum[1]);
    put_u64_le(&mut b, 112, cksum[2]);
    put_u64_le(&mut b, 120, cksum[3]);
    b
}

#[test]
fn dva_parse_and_absence() {
    let mut b = vec![0u8; 16];
    assert!(DataVirtualAddress::from_bytes_le(&b, 0).is_none());
    put_u64_le(&mut b, 8, 5 | (1 << 63));
    let d = DataVirtualAddress::from_bytes_le(&b, 0).expect("present");
    assert_eq!(d.offset_in_512b_sectors, 5);
    assert!(d.is_gang);
}

#[test]
fn overlaps_and_checksum_strings() {
    assert!(overlaps(0, 10, 9, 20));
    assert!(!overlaps(0, 10, 10, 20));
    let parsed = parse_checksum_from_str(b"[1, 22, 333, 4444]").expect("parse");
    assert_eq!(parsed, [1, 22, 333, 4444]);
    assert!(parse_checksum_from_str(b"[1, 2, 3]").is_err());
}

// An embedded pointer with an 8-byte logical size and no compression
// round-trips to its first payload byte followed by zeroes.
#[test]
fn embedded_pointer_decodes_its_payload() {
    let mut b = vec![0u8; 128];
    b[0] = b'h';
    let info: u64 = (1u64 << 63) | (1u64 << 39) | (2u64 << 32) | (7u64 << 24) | 7u64;
    put_u64_le(&mut b, 48, info);
    let e = EmbeddedBlockPointer::from_bytes_le(&b, 0).expect("parse");
    assert_eq!(e.parse_logical_size(), 8);
    assert_eq!(e.parse_physical_size(), 8);
    let data = e.dereference().expect("decode");
    assert_eq!(data, vec![b'h', 0, 0, 0, 0, 0, 0, 0]);
}

// A label with ashift 12 yields 32 uberblock slots of 4096 bytes; the
// slots with the magic parse, and the highest transaction group wins.
#[test]
fn label_parse_selects_highest_txg() {
    let mut label = vec![0u8; 0x40000];
    // The name/value region: encoding 1, endianness 1, then one list with
    // ("ashift", u64 12).
    let nv = 0x4000;
    label[nv] = 1;
    label[nv + 1] = 1;
    let mut p = nv + 4;
    put_u32_be(&mut label, p, 0); // version
    put_u32_be(&mut label, p + 4, 1); // flags
    p += 8;
    put_u32_be(&mut label, p, 48); // encoded size
    put_u32_be(&mut label, p + 4, 48); // decoded size
    p += 8;
    put_u32_be(&mut label, p, 6); // name length
    p += 4;
    label[p..p + 6].copy_from_slice(b"ashift");
    p += 8; // name padded to 4
    put_u32_be(&mut label, p, 8); // value type: u64
    put_u32_be(&mut label, p + 4, 1); // one value
    p += 8;
    put_u64_be(&mut label, p, 12);
    // Terminator pair is already zero.

    // Uberblocks at slots 0 and 16 of the ring at 128 KiB.
    for (slot, txg) in [(0usize, 7u64), (16usize, 9u64)] {
        let base = 0x20000 + slot * 4096;
        put_u64_le(&mut label, base, 0x00bab10c);
        put_u64_le(&mut label, base + 8, 5000); // version
        put_u64_le(&mut label, base + 16, txg);
        // A parseable root pointer: the endian bit alone is enough shape.
        let bp = make_bp_bytes(1, 1, 1, 2, 7, [0, 0, 0, 0]);
        label[base + 40..base + 168].copy_from_slice(&bp);
    }

    let nvlist = szfs::nvlist::from_bytes_xdr(&label[0x4000..0x20000]).expect("nvlist");
    let ashift = match szfs::nvlist::nvlist_get(&nvlist, &b"ashift".to_vec()) {
        Some(szfs::nvlist::Value::U64(v)) => *v,
        other => panic!("ashift missing: {:?}", other.is_some()),
    };
    assert_eq!(ashift, 12);

    let mut vl = VdevLabel::from_bytes(&label);
    vl.set_raw_uberblock_size(1usize << ashift);
    assert_eq!(vl.get_raw_uberblock_size(), 4096);
    assert_eq!(vl.get_raw_uberblock_count(), 32);

    let mut best: Option<Uberblock> = None;
    for i in 0..vl.get_raw_uberblock_count() {
        let raw = vl.get_raw_uberblock(i);
        if raw.len() >= 168 {
            if let Some(ub) = Uberblock::from_bytes(&raw, 0) {
                if best.as_ref().map(|b| ub.txg > b.txg).unwrap_or(true) {
                    best = Some(ub);
                }
            }
        }
    }
    let best = best.expect("at least one valid uberblock");
    assert_eq!(best.txg, 9);
}

// A single-parity stripe read at one megabyte: the rotation swaps columns
// 0 and 1, so the first data byte comes from device 0, sector 64.
#[test]
fn raidz1_rotation_at_one_megabyte() {
    let asize = 4096usize;
    let mut disks = Vec::new();
    for d in 0..4u8 {
        let mut body = vec![0u8; 128 * asize];
        for s in 0..128usize {
            for i in 0..asize {
                body[s * asize + i] = d.wrapping_mul(37).wrapping_add(s as u8);
            }
        }
        disks.push(VdevDisk::new(body, blank_labels()));
    }
    let device0_sector64 = 0u8.wrapping_mul(37).wrapping_add(64);
    let device1_sector64 = 1u8.wrapping_mul(37).wrapping_add(64);
    let mut raidz = VdevRaidz::from_vdevs(disks, 4, 1, asize);
    let dva = DataVirtualAddress::from(0, 0x10_0000, false);
    let data = raidz_deref(&dva, &mut raidz, asize);
    assert_eq!(data.len(), asize);
    assert_eq!(data[0], device0_sector64);
    assert_ne!(data[0], device1_sector64);
}

fn raidz_deref(dva: &DataVirtualAddress, raidz: &mut VdevRaidz, size: usize) -> Vec<u8> {
    dva.dereference_raw(raidz, size).expect("raw read")
}

// The convolution sweep finds a block stored at offset zero by its
// fletcher4, remembers the answer, and serves the second query from the
// cache even without the table.
#[test]
fn yolo_finds_and_caches_offset_zero() {
    let asize = 512usize;
    let mut disks = Vec::new();
    for d in 0..2u8 {
        let mut body = vec![0u8; 16 * asize];
        for s in 0..16usize {
            for i in 0..asize {
                body[s * asize + i] = d.wrapping_mul(11).wrapping_add(s as u8).wrapping_add(i as u8);
            }
        }
        disks.push(VdevDisk::new(body, blank_labels()));
    }
    let mut raidz = VdevRaidz::from_vdevs(disks, 2, 1, asize);
    let psize = 1024usize;
    let dva = DataVirtualAddress::from(0, 0, false);
    let block = dva.dereference_raw(&mut raidz, psize).expect("block read");
    let checksum = do_fletcher4(&block);

    // The sector table: the low half of the first accumulator per sector.
    let mut table: Vec<u32> = Vec::new();
    for s in 0..16u64 {
        let sector = sector_bytes(&mut raidz, s, asize);
        table.push(do_fletcher4(&sector)[0] as u32);
    }

    let mut cache = YoloCache::new();
    let found = find_block_with_fletcher4_checksum(&mut raidz, &mut cache, &checksum, psize, &table);
    assert_eq!(found, Some(0));

    // Served from the cache: no table needed any more.
    let again = find_block_with_fletcher4_checksum(&mut raidz, &mut cache, &checksum, psize, &[]);
    assert_eq!(again, Some(0));

    // A checksum nobody stored is remembered as absent.
    let missing = [1u64, 2, 3, 4];
    let none = find_block_with_fletcher4_checksum(&mut raidz, &mut cache, &missing, psize, &[]);
    assert_eq!(none, None);
}

fn sector_bytes(raidz: &mut VdevRaidz, s: u64, asize: usize) -> Vec<u8> {
    raidz.read_sector(s).expect("sector")
}

// Two file fragments over the same blocks: the first lost block 7, the
// second still has it; the aggregated reader serves every block.
#[test]
fn aggregated_read_covers_all_blocks() {
    let asize = 512usize;
    let nsect = 16usize;
    let mut body = vec![0u8; nsect * asize];
    // Data blocks at sectors 1 through 8: block b is filled with b + 1.
    for b in 0..8usize {
        for i in 0..asize {
            body[(1 + b) * asize + i] = (b + 1) as u8;
        }
    }
    // Two indirect blocks of eight pointers each at sectors 9..11 and
    // 11..13 (1024 bytes each).
    let mut i1 = vec![0u8; 1024];
    let mut i2 = vec![0u8; 1024];
    for b in 0..8usize {
        let data = &body[(1 + b) * asize..(2 + b) * asize];
        let ck = do_fletcher4(data);
        let bp = make_bp_bytes((1 + b) as u64, 1, 1, 2, 7, ck);
        if b != 7 {
            i1[b * 128..(b + 1) * 128].copy_from_slice(&bp);
        }
        i2[b * 128..(b + 1) * 128].copy_from_slice(&bp);
    }
    body[9 * asize..11 * asize].copy_from_slice(&i1);
    body[11 * asize..13 * asize].copy_from_slice(&i2);

    let file1 = make_file_dnode(&i1, 9);
    let file2 = make_file_dnode(&i2, 11);
    let disks = vec![VdevDisk::new(body, blank_labels())];
    let mut raidz = VdevRaidz::from_vdevs(disks, 1, 0, asize);

    let h1 = [101u64, 0, 0, 0];
    let h2 = [202u64, 0, 0, 0];
    let fragments = vec![
        (h1, Fragment::from_data(FragmentData::FileDNode(file1))),
        (h2, Fragment::from_data(FragmentData::FileDNode(file2))),
    ];

    for b in 0..8u64 {
        let (data, served_by) = aggregated_read_block(b, &fragments, &mut raidz)
            .unwrap_or_else(|_| panic!("block {} must resolve", b));
        assert_eq!(data.len(), asize);
        assert!(data.iter().all(|&x| x == (b + 1) as u8));
        if b == 7 {
            assert_eq!(served_by, h2);
        } else {
            assert_eq!(served_by, h1);
        }
    }
}

// A fat ZAP spread over two blocks of a ZAP object: the header's embedded
// table points every bucket at leaf block 1, and the dump through the
// object's block pointers returns the single ("ROOT", 34) pair.
#[test]
fn fat_zap_dump_through_object() {
    let asize = 512usize;
    let bs = 512usize;
    let mut body = vec![0u8; 16 * asize];

    // The leaf: one entry chunk, its name chain and its value chain.
    let mut leaf = vec![0u8; bs];
    put_u64_le(&mut leaf, 0, 1u64 << 63);
    put_u32_le(&mut leaf, 24, 0x2AB1EAF);
    let chunk0 = 48 + (bs / 32) * 2;
    leaf[chunk0] = 252;
    leaf[chunk0 + 1] = 8;
    put_u16_le(&mut leaf, chunk0 + 2, 0xFFFF);
    put_u16_le(&mut leaf, chunk0 + 4, 1);
    put_u16_le(&mut leaf, chunk0 + 6, 5);
    put_u16_le(&mut leaf, chunk0 + 8, 2);
    put_u16_le(&mut leaf, chunk0 + 10, 1);
    let chunk1 = chunk0 + 24;
    leaf[chunk1] = 251;
    leaf[chunk1 + 1..chunk1 + 5].copy_from_slice(b"ROOT");
    put_u16_le(&mut leaf, chunk1 + 22, 0xFFFF);
    let chunk2 = chunk1 + 24;
    leaf[chunk2] = 251;
    leaf[chunk2 + 1..chunk2 + 9].copy_from_slice(&34u64.to_be_bytes());
    put_u16_le(&mut leaf, chunk2 + 22, 0xFFFF);
    let nfree = (bs - chunk2 - 24) / 24;
    for c in 0..nfree {
        leaf[chunk2 + 24 + c * 24] = 253;
    }

    // The header block: fat tag, magic, table embedded, every bucket 1.
    let mut header = vec![0u8; bs];
    put_u64_le(&mut header, 0, (1u64 << 63) | 1);
    put_u64_le(&mut header, 8, 0x2F52AB2AB);
    for i in 0..(bs / 2 / 8) {
        put_u64_le(&mut header, bs / 2 + 8 * i, 1);
    }

    body[asize..2 * asize].copy_from_slice(&header);
    body[2 * asize..3 * asize].copy_from_slice(&leaf);

    let bp0 = make_bp_bytes(1, 1, 1, 2, 7, do_fletcher4(&header));
    let bp1 = make_bp_bytes(2, 1, 1, 2, 7, do_fletcher4(&leaf));
    let base = DNodeBase {
        indirect_blocksize_log2: 10,
        n_indirect_levels: 1,
        checksum_method: ChecksumMethod::Fletcher4,
        compression_method: CompressionMethod::Off,
        data_blocksize_in_sectors: 1,
        num_slots: 1,
        max_indirect_block_id: 1,
        total_allocated: 0,
        total_allocated_is_in_bytes: true,
        block_pointers: vec![
            szfs::zio::BlockPointer::from_bytes_le(&bp0, 0).expect("bp0"),
            szfs::zio::BlockPointer::from_bytes_le(&bp1, 0).expect("bp1"),
        ],
        bonus_data: Vec::new(),
    };
    let zap = ZapDNode(base);
    let disks = vec![VdevDisk::new(body, blank_labels())];
    let mut raidz = VdevRaidz::from_vdevs(disks, 1, 0, asize);
    let map = zap.dump_zap_contents(&mut raidz).expect("dump");
    assert_eq!(map.len(), 1);
    assert_eq!(map[0].0, b"ROOT".to_vec());
    match map[0].1 {
        szfs::zap::Value::U64(v) => assert_eq!(v, 34),
        _ => panic!("wrong value shape"),
    }
}

// Assembling a candidate concatenates the chosen blocks, drops the
// leading bytes, and pads with zeroes; sources short of the start give
// nothing.
#[test]
fn surgeon_candidate_assembly() {
    let blocks = vec![vec![1u8, 2, 3], vec![4u8, 5]];
    let v = szfs::undelete::surgeon_assemble_candidate(&blocks, 2, 5).expect("assemble");
    assert_eq!(v, vec![3u8, 4, 5, 0, 0]);
    let w = szfs::undelete::surgeon_assemble_candidate(&blocks, 5, 2).expect("edge");
    assert_eq!(w, vec![0u8, 0]);
    assert!(szfs::undelete::surgeon_assemble_candidate(&blocks, 6, 1).is_none());
}

// The XZ stream shape: header magic at the start, footer magic at the
// end.
#[test]
fn xz_stream_shape_checks_both_magics() {
    let mut d = vec![0xFDu8, 0x37, 0x7A, 0x58, 0x5A, 0x00, 0x11, 0x22, 0x59, 0x5A];
    assert!(szfs::undelete::xz_stream_shape_ok(&d));
    d[9] = 0x00;
    assert!(!szfs::undelete::xz_stream_shape_ok(&d));
    assert!(!szfs::undelete::xz_stream_shape_ok(&vec![0xFDu8, 0x37]));
}

// A pool whose meta object set holds no object directory walks to no
// file.
#[test]
fn walk_to_file_rejects_empty_pool() {
    let disks = vec![VdevDisk::new(vec![0u8; 64 * 512], blank_labels())];
    let mut raidz = VdevRaidz::from_vdevs(disks, 1, 0, 512);
    let base = DNodeBase {
        indirect_blocksize_log2: 10,
        n_indirect_levels: 0,
        checksum_method: ChecksumMethod::Fletcher4,
        compression_method: CompressionMethod::Off,
        data_blocksize_in_sectors: 1,
        num_slots: 1,
        max_indirect_block_id: 0,
        total_allocated: 0,
        total_allocated_is_in_bytes: true,
        block_pointers: Vec::new(),
        bonus_data: Vec::new(),
    };
    let mos = szfs::dmu::ObjSet { metadnode: base, zil: None, typ: szfs::dmu::ObjSetType::Meta };
    assert!(szfs::dmu::walk_to_file(&mos, &b"f.txt".to_vec(), &mut raidz).is_none());
}

fn make_file_dnode(indirect: &[u8], at_sector: u64) -> DNodePlainFileContents {
    let ck = do_fletcher4(indirect);
    let bp_bytes = make_bp_bytes(at_sector, 2, 2, 2, 7, ck);
    let bp = szfs::zio::BlockPointer::from_bytes_le(&bp_bytes, 0).expect("bp parse");
    let base = DNodeBase {
        indirect_blocksize_log2: 10,
        n_indirect_levels: 2,
        checksum_method: ChecksumMethod::Fletcher4,
        compression_method: CompressionMethod::Off,
        data_blocksize_in_sectors: 1,
        num_slots: 1,
        max_indirect_block_id: 7,
        total_allocated: 0,
        total_allocated_is_in_bytes: true,
        block_pointers: vec![bp],
        bonus_data: Vec::new(),
    };
    DNodePlainFileContents(base, BonusType::Unallocated)
}

// A write followed by a read returns the written bytes, and bytes beside
// the range keep their old values.
#[test]
fn raidz_write_then_read_back() {
    let asize = 512usize;
    let mut disks = Vec::new();
    for _ in 0..3 {
        disks.push(VdevDisk::new(vec![7u8; 32 * asize], blank_labels()));
    }
    let mut raidz = VdevRaidz::from_vdevs(disks, 3, 1, asize);
    let payload: Vec<u8> = (0..1300u32).map(|i| (i % 251) as u8).collect();
    raidz.write(700, &payload).expect("write");
    let back = raidz.read(700, payload.len()).expect("read back");
    assert_eq!(back, payload);
    let before = raidz.read(0, 700).expect("prefix");
    assert!(before.iter().all(|&b| b == 7));
    let after = raidz.read(2000, 100).expect("suffix");
    assert!(after.iter().all(|&b| b == 7));
}

// Reading zero bytes always succeeds, even at a wild offset.
#[test]
fn raidz_zero_read_always_succeeds() {
    let disks = vec![VdevDisk::new(vec![0u8; 4096], blank_labels())];
    let mut raidz = VdevRaidz::from_vdevs(disks, 1, 0, 512);
    assert_eq!(raidz.read(u64::MAX - 5, 0).expect("empty"), Vec::<u8>::new());
    assert!(raidz.read(4096, 1).is_err());
}

// Reading a byte range equals the concatenation of the block reads it
// spans, truncated to the requested size.
#[test]
fn dnode_read_matches_block_concatenation() {
    let asize = 512usize;
    let nsect = 16usize;
    let mut body = vec![0u8; nsect * asize];
    for b in 0..8usize {
        for i in 0..asize {
            body[(1 + b) * asize + i] = (b * 7 + i % 13) as u8;
        }
    }
    let mut i2 = vec![0u8; 1024];
    for b in 0..8usize {
        let data = &body[(1 + b) * asize..(2 + b) * asize];
        let ck = do_fletcher4(data);
        let bp = make_bp_bytes((1 + b) as u64, 1, 1, 2, 7, ck);
        i2[b * 128..(b + 1) * 128].copy_from_slice(&bp);
    }
    body[11 * asize..13 * asize].copy_from_slice(&i2);
    let file = make_file_dnode(&i2, 11);
    let disks = vec![VdevDisk::new(body, blank_labels())];
    let mut raidz = VdevRaidz::from_vdevs(disks, 1, 0, asize);

    let mut concat = Vec::new();
    for b in 0..8u64 {
        concat.extend(file.0.read_block(b, &mut raidz).expect("block"));
    }
    let total = 8 * asize;
    let whole = file.0.read(0, total, &mut raidz).expect("read all");
    assert_eq!(whole, concat);
    // A misaligned slice agrees with the same slice of the concatenation.
    let slice = file.0.read(700, 1500, &mut raidz).expect("read slice");
    assert_eq!(slice, &concat[700..2200]);
    // Reading zero bytes always succeeds.
    assert_eq!(file.0.read(12345, 0, &mut raidz).expect("empty"), Vec::<u8>::new());
    // Repeated reads are served consistently through the caches.
    let again = file.0.read(700, 1500, &mut raidz).expect("read again");
    assert_eq!(again, slice);
}
