//! Dataset and snapshot layer records carried in DNode bonus buffers.

use vstd::prelude::*;
use crate::byte_reader::{le64, read_u64_le};
use crate::zio::{bp_matches, bp_parseable, BlockPointer};

verus! {

broadcast use vstd::slice::axiom_spec_len;

/// The bonus record of a DSL directory DNode.
pub struct DSLDirectoryData {
    pub creation_time: u64,
    pub head_dataset_object_number: u64,
    pub parent_object_number: u64,
    pub clone_parent_object_number: u64,
    pub children_directory_object_number: u64,
    pub used_bytes: u64,
    pub compressed_bytes: u64,
    pub uncompressed_bytes: u64,
    pub quota: u64,
    pub reserved: u64,
    pub props_object_number: u64,
}

impl DSLDirectoryData {
    pub fn get_ondisk_size() -> (r: usize)
        ensures
            r == 88,
    {
        88
    }

    pub fn from_bytes_le(data: &[u8], off: usize) -> (r: DSLDirectoryData)
        requires
            off + 88 <= data@.len(),
        ensures
            r.creation_time == le64(data@, off as int),
            r.head_dataset_object_number == le64(data@, off + 8),
            r.parent_object_number == le64(data@, off + 16),
            r.clone_parent_object_number == le64(data@, off + 24),
            r.children_directory_object_number == le64(data@, off + 32),
            r.used_bytes == le64(data@, off + 40),
            r.compressed_bytes == le64(data@, off + 48),
            r.uncompressed_bytes == le64(data@, off + 56),
            r.quota == le64(data@, off + 64),
            r.reserved == le64(data@, off + 72),
            r.props_object_number == le64(data@, off + 80),
    {
        let _n: usize = data.len();
        DSLDirectoryData {
            creation_time: read_u64_le(data, off),
            head_dataset_object_number: read_u64_le(data, off + 8),
            parent_object_number: read_u64_le(data, off + 16),
            clone_parent_object_number: read_u64_le(data, off + 24),
            children_directory_object_number: read_u64_le(data, off + 32),
            used_bytes: read_u64_le(data, off + 40),
            compressed_bytes: read_u64_le(data, off + 48),
            uncompressed_bytes: read_u64_le(data, off + 56),
            quota: read_u64_le(data, off + 64),
            reserved: read_u64_le(data, off + 72),
            props_object_number: read_u64_le(data, off + 80),
        }
    }

    pub fn get_head_dataset_object_number(&self) -> (r: u64)
        ensures
            r == self.head_dataset_object_number,
    {
        self.head_dataset_object_number
    }
}

/// The bonus record of a DSL dataset DNode; its block pointer roots the
/// dataset's object set.
pub struct DSLDatasetData {
    pub parent_directory_object_number: u64,
    pub previous_snapshot_object_number: u64,
    pub previous_snapshot_txg: u64,
    pub next_snapshot_object_number: u64,
    pub snapshot_names_object_number: u64,
    pub num_references: u64,
    pub creation_time: u64,
    pub creation_txg: u64,
    pub deadlist_object_number: u64,
    pub used_bytes: u64,
    pub compressed_bytes: u64,
    pub uncompressed_bytes: u64,
    pub unique_bytes: u64,
    pub fsid_guid: u64,
    pub guid: u64,
    pub restoring: u64,
    pub block_pointer: BlockPointer,
}

impl DSLDatasetData {
    pub fn from_bytes_le(data: &[u8], off: usize) -> (r: Option<DSLDatasetData>)
        requires
            off + 256 <= data@.len(),
        ensures
            r is Some <==> bp_parseable(data@, off + 128),
            match r {
                Some(d) => d.parent_directory_object_number == le64(data@, off as int)
                    && d.creation_txg == le64(data@, off + 56) && d.guid == le64(data@, off + 112)
                    && bp_matches(d.block_pointer, data@, off + 128),
                None => true,
            },
    {
        let _n: usize = data.len();
        let block_pointer = match BlockPointer::from_bytes_le(data, off + 128) {
            Some(bp) => bp,
            None => {
                return None;
            },
        };
        Some(
            DSLDatasetData {
                parent_directory_object_number: read_u64_le(data, off),
                previous_snapshot_object_number: read_u64_le(data, off + 8),
                previous_snapshot_txg: read_u64_le(data, off + 16),
                next_snapshot_object_number: read_u64_le(data, off + 24),
                snapshot_names_object_number: read_u64_le(data, off + 32),
                num_references: read_u64_le(data, off + 40),
                creation_time: read_u64_le(data, off + 48),
                creation_txg: read_u64_le(data, off + 56),
                deadlist_object_number: read_u64_le(data, off + 64),
                used_bytes: read_u64_le(data, off + 72),
                compressed_bytes: read_u64_le(data, off + 80),
                uncompressed_bytes: read_u64_le(data, off + 88),
                unique_bytes: read_u64_le(data, off + 96),
                fsid_guid: read_u64_le(data, off + 104),
                guid: read_u64_le(data, off + 112),
                restoring: read_u64_le(data, off + 120),
                block_pointer,
            },
        )
    }

    pub fn get_block_pointer(&self) -> (r: &BlockPointer)
        ensures
            *r == self.block_pointer,
    {
        &self.block_pointer
    }
}

} // verus!
