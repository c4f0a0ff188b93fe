// Round trips and checksum vectors for the block coders.

use szfs::fletcher::{do_fletcher2, do_fletcher4};
use szfs::lz4::{lz4_compress, lz4_decompress_blocks};
use szfs::lzjb::{lzjb_compress, lzjb_decompress};

fn sample_bytes(len: usize, seed: u8) -> Vec<u8> {
    let mut v = Vec::with_capacity(len);
    let mut x: u8 = seed;
    for i in 0..len {
        x = x.wrapping_mul(31).wrapping_add(i as u8).wrapping_add(7);
        v.push(x);
    }
    v
}

#[test]
fn lz4_round_trip_small() {
    for &len in &[0usize, 1, 14, 15, 16, 255, 300] {
        let data = sample_bytes(len, 3);
        let enc = lz4_compress(&data);
        let dec = lz4_decompress_blocks(&enc, Some(len)).expect("decode must succeed");
        assert_eq!(dec, data);
    }
}

#[test]
fn lz4_round_trip_large() {
    let data = sample_bytes(70_000, 9);
    let enc = lz4_compress(&data);
    let dec = lz4_decompress_blocks(&enc, None).expect("decode must succeed");
    assert_eq!(dec, data);
}

#[test]
fn lz4_rejects_truncated_stream() {
    let data = sample_bytes(100, 5);
    let mut enc = lz4_compress(&data);
    enc.truncate(enc.len() - 10);
    assert!(lz4_decompress_blocks(&enc, None).is_err());
}

#[test]
fn lzjb_round_trip_prefixes() {
    let data = sample_bytes(100, 11);
    let enc = lzjb_compress(&data);
    for &target in &[0usize, 1, 7, 8, 9, 50, 100] {
        let dec = lzjb_decompress(&enc, target).expect("decode must succeed");
        assert_eq!(dec, &data[..target]);
    }
}

#[test]
fn lzjb_rejects_short_stream() {
    let data = sample_bytes(16, 13);
    let enc = lzjb_compress(&data);
    assert!(lzjb_decompress(&enc, 17).is_err());
}

#[test]
fn fletcher4_known_vector() {
    // Words 1 and 2: the running sums are (3, 4, 5, 6).
    let data = [1u8, 0, 0, 0, 2, 0, 0, 0];
    assert_eq!(do_fletcher4(&data), [3, 4, 5, 6]);
    // Trailing bytes that do not fill a word are ignored.
    let data2 = [1u8, 0, 0, 0, 2, 0, 0, 0, 0xFF, 0xFF];
    assert_eq!(do_fletcher4(&data2), [3, 4, 5, 6]);
}

#[test]
fn fletcher4_is_stable_on_recomputation() {
    let data = sample_bytes(4096, 17);
    let first = do_fletcher4(&data);
    let copy = data.clone();
    assert_eq!(do_fletcher4(&copy), first);
}

#[test]
fn fletcher2_known_vector() {
    // One pair of 64-bit words (5, 9): sums are (5, 9, 5, 9).
    let mut data = [0u8; 16];
    data[0] = 5;
    data[8] = 9;
    assert_eq!(do_fletcher2(&data), [5, 9, 5, 9]);
}
