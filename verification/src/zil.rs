//! The intent-log header embedded in an object set.

use vstd::prelude::*;
use crate::byte_reader::{le64, read_u64_le};
use crate::zio::{bp_matches, bp_parseable, BlockPointer};

verus! {

broadcast use vstd::slice::axiom_spec_len;

/// The intent-log header: the claim transaction group, the highest
/// replayed sequence number, and the log's block pointer.
pub struct ZilHeader {
    pub claim_txg: u64,
    pub highest_replayed_seq_number: u64,
    pub log: BlockPointer,
}

impl ZilHeader {
    pub fn get_ondisk_size() -> (r: usize)
        ensures
            r == 192,
    {
        192
    }

    pub fn from_bytes_le(data: &[u8], off: usize) -> (r: Option<ZilHeader>)
        requires
            off + 192 <= data@.len(),
        ensures
            r is Some <==> bp_parseable(data@, off + 16),
            match r {
                Some(z) => z.claim_txg == le64(data@, off as int)
                    && z.highest_replayed_seq_number == le64(data@, off + 8) && bp_matches(
                    z.log,
                    data@,
                    off + 16,
                ),
                None => true,
            },
    {
        let _n: usize = data.len();
        let claim_txg = read_u64_le(data, off);
        let highest_replayed_seq_number = read_u64_le(data, off + 8);
        let log = match BlockPointer::from_bytes_le(data, off + 16) {
            Some(bp) => bp,
            None => {
                return None;
            },
        };
        Some(ZilHeader { claim_txg, highest_replayed_seq_number, log })
    }
}

} // verus!
