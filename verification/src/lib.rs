//! A read-only forensic reader for a copy-on-write, pooled, tree-structured
//! storage format.  This crate root holds the device layer: in-memory leaf
//! device images, the RAIDZ virtual device that stripes logical sectors over
//! them with rotating parity, and the device label with its uberblock ring.

use vstd::prelude::*;

pub mod arith;
pub mod backref;
pub mod byte_reader;
pub mod cache;
pub mod fletcher;
pub mod lz4;
pub mod lzjb;
pub mod nvlist;
pub mod dmu;
pub mod dsl;
pub mod undelete;
pub mod yolo_block_recovery;
pub mod zap;
pub mod zil;
pub mod zpl;
pub mod zio;

use crate::arith::{lemma_div_mod_of, lemma_le_div_iff};
use crate::byte_reader::{be32, le64, read_bytes};
use crate::cache::{
    block_cache_get,
    block_cache_new,
    block_cache_put,
    block_cache_view,
    sector_cache_clear,
    sector_cache_get,
    sector_cache_new,
    sector_cache_put,
    sector_cache_view,
    BlockCache,
    SectorCache,
};
use crate::fletcher::{fletcher2, fletcher4};
use crate::lz4::lz4_decode;
use crate::lzjb::lzjb_decode;

verus! {

broadcast use vstd::slice::axiom_spec_len;

/// The largest leaf device body the layer accepts, in bytes.
pub const MAX_DEVICE_BYTES: u64 = 0x8000_0000_0000;

/// The largest leaf device count the layer accepts.
pub const MAX_DEVICES: usize = 0x1_0000;

/// The largest sector size the layer accepts, in bytes.
pub const MAX_SECTOR_BYTES: usize = 0x100_0000;

/// The byte length of one label region.
pub const LABEL_BYTES: usize = 0x40000;

/// `s` with `d` written over the range starting at `off`; writes that do
/// not fit change nothing beyond the end.
pub open spec fn overwrite(s: Seq<u8>, off: int, d: Seq<u8>) -> Seq<u8> {
    Seq::new(
        s.len(),
        |j: int|
            if off <= j < off + d.len() {
                d[j - off]
            } else {
                s[j]
            },
    )
}

/// A leaf device held as an in-memory image: the byte-addressable body
/// (everything between the boot region and the trailing labels) and the
/// four label regions.
pub struct VdevDisk {
    body: Vec<u8>,
    labels: Vec<Vec<u8>>,
}

impl VdevDisk {
    pub closed spec fn wf(self) -> bool {
        &&& self.labels@.len() == 4
        &&& (forall|i: int| 0 <= i < 4 ==> (#[trigger] self.labels@[i])@.len() == LABEL_BYTES)
        &&& self.body@.len() <= MAX_DEVICE_BYTES
    }

    /// The bytes of the device body.
    pub closed spec fn contents(self) -> Seq<u8> {
        self.body@
    }

    /// The bytes of label region `i` (0 to 3).
    pub closed spec fn label_bytes(self, i: int) -> Seq<u8> {
        self.labels@[i]@
    }

    pub fn new(body: Vec<u8>, labels: Vec<Vec<u8>>) -> (r: Self)
        requires
            body@.len() <= MAX_DEVICE_BYTES,
            labels@.len() == 4,
            forall|i: int| 0 <= i < 4 ==> (#[trigger] labels@[i])@.len() == LABEL_BYTES,
        ensures
            r.wf(),
            r.contents() == body@,
            forall|i: int| 0 <= i < 4 ==> r.label_bytes(i) == (#[trigger] labels@[i])@,
    {
        VdevDisk { body, labels }
    }

    pub fn get_size(&self) -> (r: u64)
        requires
            self.wf(),
        ensures
            r == self.contents().len(),
    {
        self.body.len() as u64
    }

    /// Read `amount_in_bytes` bytes of the body starting at
    /// `offset_in_bytes`; a request past the end of the body is rejected.
    pub fn read(&self, offset_in_bytes: u64, amount_in_bytes: usize) -> (r: Result<Vec<u8>, ()>)
        requires
            self.wf(),
        ensures
            match r {
                Ok(v) => offset_in_bytes + amount_in_bytes <= self.contents().len() && v@
                    == self.contents().subrange(
                    offset_in_bytes as int,
                    offset_in_bytes + amount_in_bytes,
                ),
                Err(_) => offset_in_bytes + amount_in_bytes > self.contents().len(),
            },
    {
        let len: u64 = self.body.len() as u64;
        if amount_in_bytes as u64 > len || offset_in_bytes > len - amount_in_bytes as u64 {
            return Err(());
        }
        Ok(read_bytes(self.body.as_slice(), offset_in_bytes as usize, amount_in_bytes))
    }

    /// Write `data` over the body starting at `offset_in_bytes`; a request
    /// past the end of the body is rejected and changes nothing.
    pub fn write(&mut self, offset_in_bytes: u64, data: &[u8]) -> (r: Result<(), ()>)
        requires
            old(self).wf(),
        ensures
            final(self).wf(),
            forall|i: int| final(self).label_bytes(i) == old(self).label_bytes(i),
            final(self).contents().len() == old(self).contents().len(),
            match r {
                Ok(_) => offset_in_bytes + data@.len() <= old(self).contents().len()
                    && final(self).contents() == overwrite(
                    old(self).contents(),
                    offset_in_bytes as int,
                    data@,
                ),
                Err(_) => offset_in_bytes + data@.len() > old(self).contents().len()
                    && final(self).contents() == old(self).contents(),
            },
    {
        let len: u64 = self.body.len() as u64;
        let dlen: usize = data.len();
        if dlen as u64 > len || offset_in_bytes > len - dlen as u64 {
            return Err(());
        }
        let off: usize = offset_in_bytes as usize;
        let ghost orig = self.body@;
        let mut j: usize = 0;
        while j < dlen
            invariant
                j <= dlen,
                off + dlen <= orig.len(),
                off + dlen <= usize::MAX,
                dlen == data@.len(),
                self.body@.len() == orig.len(),
                self.labels == old(self).labels,
                forall|k: int|
                    0 <= k < orig.len() ==> self.body@[k] == if off <= k < off + j {
                        data@[k - off]
                    } else {
                        orig[k]
                    },
            decreases dlen - j,
        {
            self.body[off + j] = data[j];
            j = j + 1;
        }
        proof {
            assert(self.body@ =~= overwrite(orig, offset_in_bytes as int, data@));
        }
        Ok(())
    }

    /// Return the raw bytes of label region `label_index` (0 to 3).
    pub fn read_raw_label(&self, label_index: usize) -> (r: Result<Vec<u8>, ()>)
        requires
            self.wf(),
        ensures
            match r {
                Ok(v) => label_index < 4 && v@ == self.label_bytes(label_index as int),
                Err(_) => label_index >= 4,
            },
    {
        if label_index >= 4 {
            return Err(());
        }
        let lab: &Vec<u8> = &self.labels[label_index];
        Ok(read_bytes(lab.as_slice(), 0, lab.len()))
    }

    pub fn get_nlables(&self) -> (r: usize)
        ensures
            r == 4,
    {
        4
    }
}

/// The striping geometry of a RAIDZ virtual device.
pub struct RaidzInfo {
    pub ndevices: usize,
    pub nparity: usize,
}

/// Whether sector `s` lies within the body of the leaf device it maps to.
pub open spec fn raidz_sector_in_range(devs: Seq<Seq<u8>>, asize: int, s: int) -> bool {
    (s / devs.len() as int) * asize + asize <= devs[s % devs.len() as int].len()
}

/// The bytes of logical sector `s`: device `s mod n`, per-device sector
/// `s / n`.
pub open spec fn raidz_sector_bytes(devs: Seq<Seq<u8>>, asize: int, s: int) -> Seq<u8> {
    devs[s % devs.len() as int].subrange(
        (s / devs.len() as int) * asize,
        (s / devs.len() as int) * asize + asize,
    )
}

/// The logical byte at position `pos` of the striped address space.
pub open spec fn raidz_byte(devs: Seq<Seq<u8>>, asize: int, pos: int) -> u8 {
    raidz_sector_bytes(devs, asize, pos / asize)[pos % asize]
}

/// Whether every sector touched by a read of `amount` bytes at `off` is in
/// range.
pub open spec fn raidz_read_ok(devs: Seq<Seq<u8>>, asize: int, off: int, amount: int) -> bool {
    forall|k: int|
        0 <= k < amount ==> raidz_sector_in_range(devs, asize, #[trigger] ((off + k) / asize))
}

/// The bytes a read of `amount` bytes at `off` returns.
pub open spec fn raidz_read_bytes(devs: Seq<Seq<u8>>, asize: int, off: int, amount: int) -> Seq<
    u8,
> {
    Seq::new(amount as nat, |k: int| raidz_byte(devs, asize, off + k))
}

/// Whether the checksum of kind `kind` (as its on-disk discriminant) of
/// `phys` equals `cksum`.
pub open spec fn checksum_matches(kind: u8, phys: Seq<u8>, cksum: [u64; 4]) -> bool {
    ||| ((kind == 1 || kind == 4 || kind == 7) && fletcher4(phys) == cksum@)
    ||| (kind == 6 && fletcher2(phys) == cksum@)
}

/// Whether `logical` is a decompression of `phys` under one of the
/// supported compression kinds.
pub open spec fn some_decompression_of(phys: Seq<u8>, logical: Seq<u8>) -> bool {
    ||| logical == phys
    ||| (phys.len() >= 4 && 4 + be32(phys, 0) <= phys.len() && lz4_decode(
        phys.subrange(4, 4 + be32(phys, 0)),
    ) == Ok::<Seq<u8>, Seq<u8>>(logical))
    ||| lzjb_decode(phys, logical.len() as int) == Some(logical)
}

/// What a positive block-cache entry certifies: some physical byte string
/// matches the checksum and decompresses to the cached logical bytes.
pub open spec fn block_entry_ok(cksum: [u64; 4], kind: u8, logical: Seq<u8>) -> bool {
    exists|phys: Seq<u8>|
        #[trigger] checksum_matches(kind, phys, cksum) && some_decompression_of(phys, logical)
}

/// The shortest body length among the leaf devices.
pub open spec fn min_len_of(views: Seq<Seq<u8>>) -> int
    decreases views.len(),
{
    if views.len() <= 1 {
        if views.len() == 1 {
            views[0].len() as int
        } else {
            0
        }
    } else {
        let m = min_len_of(views.drop_last());
        if views.last().len() < m {
            views.last().len() as int
        } else {
            m
        }
    }
}

/// A RAIDZ virtual device: logical sectors striped round-robin over the
/// leaf devices, with a bounded sector cache and a bounded cache of decoded
/// logical blocks.
pub struct VdevRaidz {
    devices: Vec<VdevDisk>,
    size: u64,
    ndevices: usize,
    nparity: usize,
    asize: usize,
    sector_cache: SectorCache,
    block_cache: BlockCache,
}

impl VdevRaidz {
    pub closed spec fn wf(self) -> bool {
        &&& self.devices@.len() == self.ndevices as int
        &&& 1 <= self.ndevices <= MAX_DEVICES
        &&& self.nparity < self.ndevices
        &&& 1 <= self.asize <= MAX_SECTOR_BYTES
        &&& (forall|i: int| 0 <= i < self.devices@.len() ==> (#[trigger] self.devices@[i]).wf())
        &&& (forall|s: u64, v: Seq<u8>|
            #[trigger] sector_cache_view(self.sector_cache).contains_pair(s, v)
                ==> raidz_sector_in_range(self.dev_views(), self.asize as int, s as int) && v
                == raidz_sector_bytes(self.dev_views(), self.asize as int, s as int))
        &&& (forall|k: ([u64; 4], u8), ov: Option<Seq<u8>>|
            #[trigger] block_cache_view(self.block_cache).contains_pair(k, ov) ==> match ov {
                Some(l) => block_entry_ok(k.0, k.1, l),
                None => true,
            })
    }

    /// The body bytes of each leaf device.
    pub closed spec fn dev_views(self) -> Seq<Seq<u8>> {
        self.devices@.map_values(|d: VdevDisk| d.contents())
    }

    pub closed spec fn spec_ndevices(self) -> usize {
        self.ndevices
    }

    pub closed spec fn spec_nparity(self) -> usize {
        self.nparity
    }

    pub closed spec fn spec_asize(self) -> usize {
        self.asize
    }

    pub closed spec fn spec_size(self) -> u64 {
        self.size
    }

    /// The bytes of label `i` of the device layout: labels 0 to 3 on the
    /// first device, 4 to 7 on the second, and so on.
    pub closed spec fn label_view(self, i: int) -> Seq<u8> {
        self.devices@[i / 4].label_bytes(i % 4)
    }

    /// The contents of the block cache.
    pub closed spec fn block_view(self) -> Map<([u64; 4], u8), Option<Seq<u8>>> {
        block_cache_view(self.block_cache)
    }

    /// Everything but the two caches is the same in `a` and `b`.
    pub open spec fn same_geometry(a: VdevRaidz, b: VdevRaidz) -> bool {
        &&& a.dev_views() == b.dev_views()
        &&& a.spec_ndevices() == b.spec_ndevices()
        &&& a.spec_nparity() == b.spec_nparity()
        &&& a.spec_asize() == b.spec_asize()
        &&& a.spec_size() == b.spec_size()
        &&& (forall|i: int| a.label_view(i) == b.label_view(i))
    }

    pub fn from_vdevs(devices: Vec<VdevDisk>, ndevices: usize, nparity: usize, asize: usize) -> (r:
        VdevRaidz)
        requires
            devices@.len() == ndevices,
            1 <= ndevices <= MAX_DEVICES,
            nparity < ndevices,
            1 <= asize <= MAX_SECTOR_BYTES,
            forall|i: int| 0 <= i < devices@.len() ==> (#[trigger] devices@[i]).wf(),
        ensures
            r.wf(),
            r.spec_ndevices() == ndevices,
            r.spec_nparity() == nparity,
            r.spec_asize() == asize,
            r.dev_views().len() == ndevices,
            forall|i: int|
                0 <= i < ndevices ==> r.dev_views()[i] == (#[trigger] devices@[i]).contents(),
            r.spec_size() == min_len_of(r.dev_views()) * ndevices,
            forall|i: int|
                0 <= i < 4 * ndevices ==> #[trigger] r.label_view(i) == devices@[i / 4].label_bytes(
                    i % 4,
                ),
            r.block_view() == Map::<([u64; 4], u8), Option<Seq<u8>>>::empty(),
    {
        let ghost views = devices@.map_values(|d: VdevDisk| d.contents());
        let mut device_size: u64 = devices[0].get_size();
        proof {
            assert(views.take(1).drop_last() =~= views.take(0));
            assert(views.take(1).last() == views[0]);
        }
        let mut i: usize = 1;
        while i < ndevices
            invariant
                1 <= i <= ndevices,
                devices@.len() == ndevices,
                forall|j: int| 0 <= j < devices@.len() ==> (#[trigger] devices@[j]).wf(),
                views == devices@.map_values(|d: VdevDisk| d.contents()),
                device_size == min_len_of(views.take(i as int)),
            decreases ndevices - i,
        {
            let ds = devices[i].get_size();
            proof {
                assert(views.take(i + 1).drop_last() =~= views.take(i as int));
                assert(views.take(i + 1).last() == views[i as int]);
            }
            if ds < device_size {
                device_size = ds;
            }
            i = i + 1;
        }
        proof {
            assert(views.take(ndevices as int) =~= views);
            lemma_min_len_le_first(views);
            assert(device_size * ndevices <= MAX_DEVICE_BYTES * MAX_DEVICES) by (nonlinear_arith)
                requires
                    0 <= device_size <= MAX_DEVICE_BYTES,
                    0 < ndevices <= MAX_DEVICES,
            ;
        }
        let size: u64 = device_size * (ndevices as u64);
        let result = VdevRaidz {
            devices,
            size,
            ndevices,
            nparity,
            asize,
            sector_cache: sector_cache_new(64_000),
            block_cache: block_cache_new(32_000),
        };
        proof {
            assert(result.block_view() =~= Map::<([u64; 4], u8), Option<Seq<u8>>>::empty());
        }
        result
    }

    pub fn get_raidz_info(&self) -> (r: Option<RaidzInfo>)
        ensures
            match r {
                Some(info) => info.ndevices == self.spec_ndevices() && info.nparity
                    == self.spec_nparity(),
                None => false,
            },
    {
        Some(RaidzInfo { ndevices: self.ndevices, nparity: self.nparity })
    }

    pub fn get_size(&self) -> (r: u64)
        ensures
            r == self.spec_size(),
    {
        self.size
    }

    pub fn get_asize(&self) -> (r: usize)
        ensures
            r == self.spec_asize(),
    {
        self.asize
    }

    pub fn get_nlables(&self) -> (r: usize)
        requires
            self.wf(),
        ensures
            r == 4 * self.spec_ndevices(),
    {
        self.ndevices * 4
    }

    /// Labels 0 to 3 map to the first device, 4 to 7 to the second, and so
    /// on.
    pub fn read_raw_label(&self, label_index: usize) -> (r: Result<Vec<u8>, ()>)
        requires
            self.wf(),
        ensures
            match r {
                Ok(v) => label_index < 4 * self.spec_ndevices() && v@ == self.label_view(
                    label_index as int,
                ),
                Err(_) => label_index >= 4 * self.spec_ndevices(),
            },
    {
        let device_number = label_index / 4;
        let label_number = label_index % 4;
        if device_number >= self.ndevices {
            return Err(());
        }
        match self.devices[device_number].read_raw_label(label_number) {
            Ok(v) => Ok(v),
            Err(_) => {
                proof {
                    assert(false);
                }
                Err(())
            },
        }
    }

    /// Read one logical sector, consulting the sector cache first.
    pub fn read_sector(&mut self, sector_index: u64) -> (r: Result<Vec<u8>, ()>)
        requires
            old(self).wf(),
        ensures
            final(self).wf(),
            VdevRaidz::same_geometry(*old(self), *final(self)),
            final(self).block_view() == old(self).block_view(),
            match r {
                Ok(v) => raidz_sector_in_range(
                    old(self).dev_views(),
                    old(self).spec_asize() as int,
                    sector_index as int,
                ) && v@ == raidz_sector_bytes(
                    old(self).dev_views(),
                    old(self).spec_asize() as int,
                    sector_index as int,
                ),
                Err(_) => !raidz_sector_in_range(
                    old(self).dev_views(),
                    old(self).spec_asize() as int,
                    sector_index as int,
                ),
            },
    {
        match sector_cache_get(&mut self.sector_cache, sector_index) {
            Some(v) => {
                return Ok(v);
            },
            None => {},
        }
        let ndev64: u64 = self.ndevices as u64;
        let device_number: usize = (sector_index % ndev64) as usize;
        let device_sector_index: u64 = sector_index / ndev64;
        let asize64: u64 = self.asize as u64;
        let device_len: u64 = self.devices[device_number].get_size();
        let ghost ds = device_sector_index as int;
        let ghost a = asize64 as int;
        let ghost dl = device_len as int;
        proof {
            assert(self.dev_views()[device_number as int] == self.devices@[
                device_number as int].contents());
            lemma_le_div_iff(ds + 1, a, dl);
            assert((ds + 1) * a == ds * a + a) by (nonlinear_arith);
        }
        if device_sector_index >= device_len / asize64 {
            return Err(());
        }
        let offset: u64 = device_sector_index * asize64;
        let v = match self.devices[device_number].read(offset, self.asize) {
            Ok(v) => v,
            Err(_) => {
                proof {
                    assert(false);
                }
                return Err(());
            },
        };
        let copy = read_bytes(v.as_slice(), 0, v.len());
        let ghost cv = copy@;
        proof {
            assert(copy@ =~= v@);
            assert(v@ =~= raidz_sector_bytes(
                self.dev_views(),
                self.asize as int,
                sector_index as int,
            ));
        }
        sector_cache_put(&mut self.sector_cache, sector_index, copy);
        proof {
            assert forall|s2: u64, v2: Seq<u8>| #[trigger] sector_cache_view(
                self.sector_cache,
            ).contains_pair(s2, v2) implies raidz_sector_in_range(
                self.dev_views(),
                self.asize as int,
                s2 as int,
            ) && v2 == raidz_sector_bytes(self.dev_views(), self.asize as int, s2 as int) by {
                if s2 == sector_index {
                    assert(sector_cache_view(self.sector_cache).contains_pair(sector_index, cv));
                    assert(v2 == cv);
                }
            }
        }
        Ok(v)
    }

    /// Read `amount_in_bytes` logical bytes starting at byte offset
    /// `offset_in_bytes`.  Reading 0 bytes always succeeds.
    pub fn read(&mut self, offset_in_bytes: u64, amount_in_bytes: usize) -> (r: Result<
        Vec<u8>,
        (),
    >)
        requires
            old(self).wf(),
        ensures
            final(self).wf(),
            VdevRaidz::same_geometry(*old(self), *final(self)),
            final(self).block_view() == old(self).block_view(),
            match r {
                Ok(v) => v@.len() == amount_in_bytes && v@ == raidz_read_bytes(
                    old(self).dev_views(),
                    old(self).spec_asize() as int,
                    offset_in_bytes as int,
                    amount_in_bytes as int,
                ) && raidz_read_ok(
                    old(self).dev_views(),
                    old(self).spec_asize() as int,
                    offset_in_bytes as int,
                    amount_in_bytes as int,
                ),
                Err(_) => !raidz_read_ok(
                    old(self).dev_views(),
                    old(self).spec_asize() as int,
                    offset_in_bytes as int,
                    amount_in_bytes as int,
                ),
            },
    {
        let ghost devs = old(self).dev_views();
        let ghost a = old(self).spec_asize() as int;
        let mut result: Vec<u8> = Vec::new();
        if amount_in_bytes == 0 {
            proof {
                assert(result@ =~= raidz_read_bytes(devs, a, offset_in_bytes as int, 0));
            }
            return Ok(result);
        }
        let asize64: u64 = self.asize as u64;
        let mut pos: u64 = offset_in_bytes;
        while result.len() < amount_in_bytes
            invariant
                old(self).wf(),
                self.wf(),
                VdevRaidz::same_geometry(*old(self), *self),
                self.block_view() == old(self).block_view(),
                devs == old(self).dev_views(),
                a == old(self).spec_asize() as int,
                asize64 == old(self).spec_asize() as u64,
                result@.len() <= amount_in_bytes,
                pos == offset_in_bytes + result@.len(),
                forall|k: int|
                    0 <= k < result@.len() ==> #[trigger] result@[k] == raidz_byte(
                        devs,
                        a,
                        offset_in_bytes + k,
                    ),
                forall|k: int|
                    0 <= k < result@.len() ==> raidz_sector_in_range(
                        devs,
                        a,
                        #[trigger] ((offset_in_bytes + k) / a),
                    ),
            decreases amount_in_bytes - result@.len(),
        {
            let s: u64 = pos / asize64;
            let t_off: u64 = pos % asize64;
            let sector = match self.read_sector(s) {
                Ok(v) => v,
                Err(_) => {
                    proof {
                        assert((offset_in_bytes + result@.len() as int) / a == s as int);
                    }
                    return Err(());
                },
            };
            let t: usize = t_off as usize;
            let in_sector: usize = self.asize - t;
            let want: usize = amount_in_bytes - result.len();
            let take: usize = if in_sector < want {
                in_sector
            } else {
                want
            };
            proof {
                lemma_sector_pos_bound(devs, a, s as int);
                vstd::arithmetic::div_mod::lemma_fundamental_div_mod(pos as int, a);
                assert(pos as int == s as int * a + t_off as int) by (nonlinear_arith)
                    requires
                        pos as int == a * (pos as int / a) + pos as int % a,
                        s as int == pos as int / a,
                        t_off as int == pos as int % a,
                ;
                assert(s as int * a >= 0) by (nonlinear_arith)
                    requires
                        s as int >= 0,
                        a > 0,
                ;
                assert((s as int / devs.len() as int) * a >= 0) by (nonlinear_arith)
                    requires
                        s as int >= 0,
                        a > 0,
                        devs.len() > 0,
                ;
                assert(sector@.len() == a);
                assert(result@ =~= result@ + sector@.subrange(t_off as int, t_off as int));
            }
            let ghost res0 = result@;
            let mut j: usize = 0;
            while j < take
                invariant
                    j <= take,
                    t + take <= a,
                    a == asize64 as int,
                    1 <= a <= MAX_SECTOR_BYTES,
                    pos == s as int * a + t,
                    (s as int + 1) * a <= 0x8000_0000_0000_0000,
                    sector@ == raidz_sector_bytes(devs, a, s as int),
                    sector@.len() == a,
                    result@ == res0 + sector@.subrange(t as int, t + j),
                    result@.len() == res0.len() + j,
                decreases take - j,
            {
                result.push(sector[t + j]);
                proof {
                    assert(result@ =~= res0 + sector@.subrange(t as int, t + j + 1));
                }
                j = j + 1;
            }
            proof {
                assert forall|k: int| res0.len() <= k < result@.len() implies #[trigger] result@[k]
                    == raidz_byte(devs, a, offset_in_bytes + k) by {
                    let jj = k - res0.len();
                    lemma_div_mod_of(s as int, a, t + jj);
                    assert(offset_in_bytes + k == s as int * a + (t + jj));
                    assert(result@[k] == sector@[t + jj]);
                }
                assert forall|k: int|
                    res0.len() <= k < result@.len() implies raidz_sector_in_range(
                    devs,
                    a,
                    #[trigger] ((offset_in_bytes + k) / a),
                ) by {
                    let jj = k - res0.len();
                    lemma_div_mod_of(s as int, a, t + jj);
                    assert(offset_in_bytes + k == s as int * a + (t + jj));
                }
            }
            proof {
                assert((s as int + 1) * a == s as int * a + a) by (nonlinear_arith);
            }
            pos = pos + take as u64;
        }
        proof {
            assert(result@ =~= raidz_read_bytes(
                devs,
                a,
                offset_in_bytes as int,
                amount_in_bytes as int,
            ));
        }
        Ok(result)
    }


    /// Overwrite one logical sector: the mapped leaf device is updated and
    /// the sector cache is flushed.
    pub fn write_sector(&mut self, sector_index: u64, data: &[u8]) -> (r: Result<(), ()>)
        requires
            old(self).wf(),
            data@.len() == old(self).spec_asize(),
        ensures
            final(self).wf(),
            final(self).spec_ndevices() == old(self).spec_ndevices(),
            final(self).spec_nparity() == old(self).spec_nparity(),
            final(self).spec_asize() == old(self).spec_asize(),
            final(self).spec_size() == old(self).spec_size(),
            forall|i: int|
                0 <= i < 4 * old(self).spec_ndevices() ==> final(self).label_view(i) == old(
                    self,
                ).label_view(i),
            final(self).block_view() == old(self).block_view(),
            match r {
                Ok(_) => raidz_sector_in_range(
                    old(self).dev_views(),
                    old(self).spec_asize() as int,
                    sector_index as int,
                ) && final(self).dev_views() =~= old(self).dev_views().update(
                    sector_index as int % old(self).spec_ndevices() as int,
                    overwrite(
                        old(self).dev_views()[sector_index as int % old(
                            self,
                        ).spec_ndevices() as int],
                        (sector_index as int / old(self).spec_ndevices() as int) * old(
                            self,
                        ).spec_asize() as int,
                        data@,
                    ),
                ),
                Err(_) => !raidz_sector_in_range(
                    old(self).dev_views(),
                    old(self).spec_asize() as int,
                    sector_index as int,
                ) && final(self).dev_views() == old(self).dev_views(),
            },
    {
        let ndev64: u64 = self.ndevices as u64;
        let device_number: usize = (sector_index % ndev64) as usize;
        let device_sector_index: u64 = sector_index / ndev64;
        let asize64: u64 = self.asize as u64;
        let device_len: u64 = self.devices[device_number].get_size();
        let ghost ds = device_sector_index as int;
        let ghost a = asize64 as int;
        let ghost dl = device_len as int;
        proof {
            assert(self.dev_views()[device_number as int] == self.devices@[
                device_number as int].contents());
            lemma_le_div_iff(ds + 1, a, dl);
            assert((ds + 1) * a == ds * a + a) by (nonlinear_arith);
        }
        if device_sector_index >= device_len / asize64 {
            return Err(());
        }
        let offset: u64 = device_sector_index * asize64;
        let ghost devs0 = self.dev_views();
        match self.devices[device_number].write(offset, data) {
            Ok(_) => {},
            Err(_) => {
                proof {
                    assert(false);
                }
                return Err(());
            },
        }
        sector_cache_clear(&mut self.sector_cache);
        proof {
            assert(self.dev_views() =~= devs0.update(
                device_number as int,
                overwrite(devs0[device_number as int], ds * a, data@),
            ));
            assert forall|i: int|
                0 <= i < 4 * old(self).spec_ndevices() implies self.label_view(i) == old(
                self,
            ).label_view(i) by {
                assert(self.devices@.len() == old(self).devices@.len());
                if i / 4 != device_number as int {
                    assert(self.devices@[i / 4] == old(self).devices@[i / 4]);
                }
            }
        }
        Ok(())
    }


    /// Write a byte range: each touched sector is read, merged, and
    /// written back.  Writing zero bytes always succeeds.
    pub fn write(&mut self, offset_in_bytes: u64, data: &[u8]) -> (r: Result<(), ()>)
        requires
            old(self).wf(),
            data@.len() <= 0x1000_0000,
        ensures
            final(self).wf(),
            final(self).spec_ndevices() == old(self).spec_ndevices(),
            final(self).spec_nparity() == old(self).spec_nparity(),
            final(self).spec_asize() == old(self).spec_asize(),
            final(self).spec_size() == old(self).spec_size(),
            final(self).block_view() == old(self).block_view(),
            final(self).dev_views().len() == old(self).dev_views().len(),
            r matches Ok(_) ==> forall|k: int|
                0 <= k < data@.len() ==> raidz_byte(
                    final(self).dev_views(),
                    old(self).spec_asize() as int,
                    offset_in_bytes + k,
                ) == data@[k],
            r is Err ==> exists|k: int|
                0 <= k < data@.len() && !raidz_sector_in_range(
                    old(self).dev_views(),
                    old(self).spec_asize() as int,
                    #[trigger] ((offset_in_bytes + k) / (old(self).spec_asize() as int)),
                ),
    {
        let ghost a = old(self).spec_asize() as int;
        if data.len() == 0 {
            return Ok(());
        }
        let asize64: u64 = self.asize as u64;
        let mut written: usize = 0;
        let mut pos: u64 = offset_in_bytes;
        let dlen: usize = data.len();
        while written < dlen
            invariant
                old(self).wf(),
                self.wf(),
                dlen == data@.len(),
                dlen <= 0x1000_0000,
                self.spec_ndevices() == old(self).spec_ndevices(),
                self.spec_nparity() == old(self).spec_nparity(),
                self.spec_asize() == old(self).spec_asize(),
                self.spec_size() == old(self).spec_size(),
                self.block_view() == old(self).block_view(),
                self.dev_views().len() == old(self).dev_views().len(),
                a == old(self).spec_asize() as int,
                asize64 == old(self).spec_asize() as u64,
                written <= dlen,
                pos == offset_in_bytes + written,
                written < dlen ==> (written == 0 || pos as int % a == 0),
                forall|d: int|
                    0 <= d < self.dev_views().len() ==> (#[trigger] self.dev_views()[d]).len()
                        == old(self).dev_views()[d].len(),
                forall|k: int|
                    0 <= k < written ==> raidz_sector_in_range(
                        self.dev_views(),
                        a,
                        #[trigger] ((offset_in_bytes + k) / a),
                    ),
                forall|k: int|
                    0 <= k < written ==> raidz_byte(
                        self.dev_views(),
                        a,
                        offset_in_bytes + k,
                    ) == data@[k],
            decreases dlen - written,
        {
            let s: u64 = pos / asize64;
            let t_off: u64 = pos % asize64;
            let t: usize = t_off as usize;
            let sector = match self.read_sector(s) {
                Ok(v) => v,
                Err(_) => {
                    proof {
                        lemma_raidz_in_range_same_lens(
                            old(self).dev_views(),
                            self.dev_views(),
                            a,
                            (offset_in_bytes + written as int) / a,
                        );
                        assert((offset_in_bytes + written as int) / a == s as int);
                    }
                    return Err(());
                },
            };
            proof {
                lemma_sector_pos_bound(self.dev_views(), a, s as int);
                vstd::arithmetic::div_mod::lemma_fundamental_div_mod(pos as int, a);
            }
            let in_sector: usize = self.asize - t;
            let want: usize = dlen - written;
            let take: usize = if in_sector < want {
                in_sector
            } else {
                want
            };
            // Merge the chunk into the sector image.
            let mut merged: Vec<u8> = read_bytes(sector.as_slice(), 0, sector.len());
            let mut j: usize = 0;
            while j < take
                invariant
                    j <= take,
                    t + take <= merged@.len(),
                    t + take <= 0x100_0000,
                    written + take <= dlen,
                    dlen == data@.len(),
                    merged@.len() == sector@.len(),
                    forall|q: int|
                        0 <= q < merged@.len() ==> #[trigger] merged@[q] == if t <= q < t + j {
                            data@[written + (q - t)]
                        } else {
                            sector@[q]
                        },
                decreases take - j,
            {
                let b = data[written + j];
                merged[t + j] = b;
                j = j + 1;
            }
            let ghost devs_before = self.dev_views();
            match self.write_sector(s, merged.as_slice()) {
                Ok(_) => {},
                Err(_) => {
                    proof {
                        assert(false);
                    }
                    return Err(());
                },
            }
            proof {
                assert(written == 0 || t_off == 0);
                assert forall|k: int|
                    0 <= k < written + take implies raidz_sector_in_range(
                    self.dev_views(),
                    a,
                    #[trigger] ((offset_in_bytes + k) / a),
                ) by {
                    let p2 = offset_in_bytes + k;
                    vstd::arithmetic::div_mod::lemma_fundamental_div_mod(p2, a);
                    if k < written {
                        lemma_raidz_in_range_same_lens(devs_before, self.dev_views(), a, p2 / a);
                    } else {
                        assert(p2 / a == s as int) by (nonlinear_arith)
                            requires
                                p2 == pos + (k - written),
                                pos == a * (s as int) + t_off,
                                0 <= t_off,
                                t_off + take <= a,
                                0 <= k - written < take,
                                0 < a,
                                p2 == a * (p2 / a) + p2 % a,
                                0 <= p2 % a < a,
                        ;
                        lemma_raidz_in_range_same_lens(devs_before, self.dev_views(), a, p2 / a);
                    }
                }
                assert forall|k: int|
                    0 <= k < written + take implies raidz_byte(
                    self.dev_views(),
                    a,
                    offset_in_bytes + k,
                ) == data@[k] by {
                    let p2 = offset_in_bytes + k;
                    vstd::arithmetic::div_mod::lemma_fundamental_div_mod(p2, a);
                    if k < written {
                        assert(p2 / a != s as int) by (nonlinear_arith)
                            requires
                                p2 == a * (p2 / a) + p2 % a,
                                0 <= p2 % a < a,
                                0 <= p2 < pos,
                                pos == a * (s as int),
                                0 < a,
                        ;
                        lemma_raidz_byte_frame(devs_before, a, s as int, merged@, p2);
                    } else {
                        assert(p2 / a == s as int && p2 % a == t_off + (k - written))
                            by (nonlinear_arith)
                            requires
                                p2 == pos + (k - written),
                                pos == a * (s as int) + t_off,
                                0 <= t_off,
                                t_off + take <= a,
                                0 <= k - written < take,
                                0 < a,
                                p2 == a * (p2 / a) + p2 % a,
                                0 <= p2 % a < a,
                        ;
                        lemma_raidz_byte_written(devs_before, a, s as int, merged@, p2);
                    }
                }
                if written + take < dlen {
                    assert((pos + take) as int % a == 0) by (nonlinear_arith)
                        requires
                            pos == a * (s as int) + t_off,
                            take == a - t_off,
                            0 < a,
                            0 <= s as int,
                    ;
                }
            }
            proof {
                assert((s as int + 1) * a == a * (s as int) + a) by (nonlinear_arith);
            }
            written = written + take;
            pos = pos + take as u64;
        }
        Ok(())
    }

    /// Look up a decoded block by (checksum, checksum-kind discriminant).
    pub fn get_from_block_cache(&mut self, key: ([u64; 4], u8)) -> (r: Option<Option<Vec<u8>>>)
        requires
            old(self).wf(),
        ensures
            final(self).wf(),
            VdevRaidz::same_geometry(*old(self), *final(self)),
            final(self).block_view() == old(self).block_view(),
            match r {
                Some(ov) => old(self).block_view().contains_pair(
                    key,
                    crate::cache::opt_bytes_view(ov),
                ) && match ov {
                    Some(v) => block_entry_ok(key.0, key.1, v@),
                    None => true,
                },
                None => !old(self).block_view().contains_key(key),
            },
    {
        block_cache_get(&mut self.block_cache, key)
    }

    /// Remember a decoded block, or remember that a block is unreadable
    /// (`None`).
    pub fn put_in_block_cache(&mut self, key: ([u64; 4], u8), value: Option<Vec<u8>>)
        requires
            old(self).wf(),
            match value {
                Some(v) => block_entry_ok(key.0, key.1, v@),
                None => true,
            },
        ensures
            final(self).wf(),
            VdevRaidz::same_geometry(*old(self), *final(self)),
            final(self).block_view().contains_pair(key, crate::cache::opt_bytes_view(value)),
    {
        block_cache_put(&mut self.block_cache, key, value)
    }
}

/// The minimum of the body lengths is at most the first one.
proof fn lemma_min_len_le_first(views: Seq<Seq<u8>>)
    requires
        views.len() >= 1,
    ensures
        min_len_of(views) <= views[0].len(),
        min_len_of(views) >= 0,
    decreases views.len(),
{
    if views.len() > 1 {
        lemma_min_len_le_first(views.drop_last());
        assert(views.drop_last()[0] == views[0]);
    }
}


/// A device label: the name/value configuration region and the raw
/// uberblock ring.
pub struct VdevLabel {
    name_value_pairs_raw: Vec<u8>,
    uberblocks_raw: Vec<u8>,
    uberblock_size: Option<usize>,
}

impl VdevLabel {
    pub closed spec fn wf(self) -> bool {
        match self.uberblock_size {
            Some(s) => s >= 1,
            None => true,
        }
    }

    /// The raw name/value region (bytes 16 KiB to 128 KiB of the label).
    pub closed spec fn nv_pairs(self) -> Seq<u8> {
        self.name_value_pairs_raw@
    }

    /// The raw uberblock ring (bytes from 128 KiB on).
    pub closed spec fn ub_raw(self) -> Seq<u8> {
        self.uberblocks_raw@
    }

    /// The configured uberblock slot size.
    pub closed spec fn ub_size(self) -> Option<usize> {
        self.uberblock_size
    }

    pub fn from_bytes(data: &[u8]) -> (r: VdevLabel)
        requires
            data@.len() >= 0x20000,
        ensures
            r.wf(),
            r.nv_pairs() == data@.subrange(0x4000, 0x20000),
            r.ub_raw() == data@.subrange(0x20000, data@.len() as int),
            r.ub_size() is None,
    {
        let n: usize = data.len();
        VdevLabel {
            name_value_pairs_raw: read_bytes(data, 0x4000, 0x1C000),
            uberblocks_raw: read_bytes(data, 0x20000, n - 0x20000),
            uberblock_size: None,
        }
    }

    /// Set the slot size once; it is fixed by the pool's sector shift.
    pub fn set_raw_uberblock_size(&mut self, uberblock_size: usize)
        requires
            old(self).wf(),
            old(self).ub_size() is None,
            uberblock_size >= 1,
        ensures
            final(self).wf(),
            final(self).nv_pairs() == old(self).nv_pairs(),
            final(self).ub_raw() == old(self).ub_raw(),
            final(self).ub_size() == Some(uberblock_size),
    {
        self.uberblock_size = Some(uberblock_size);
    }

    pub fn get_raw_uberblock_size(&self) -> (r: usize)
        requires
            self.wf(),
            self.ub_size() is Some,
        ensures
            Some(r) == self.ub_size(),
            r >= 1,
    {
        match self.uberblock_size {
            Some(s) => s,
            None => {
                proof {
                    assert(false);
                }
                0
            },
        }
    }

    pub fn get_raw_uberblock_count(&self) -> (r: usize)
        requires
            self.wf(),
            self.ub_size() is Some,
        ensures
            r == self.ub_raw().len() as int / (self.ub_size()->0 as int),
    {
        self.uberblocks_raw.len() / self.get_raw_uberblock_size()
    }

    /// Copy out the raw bytes of slot `index` of the uberblock ring.
    pub fn get_raw_uberblock(&self, index: usize) -> (r: Vec<u8>)
        requires
            self.wf(),
            self.ub_size() is Some,
            index < self.ub_raw().len() as int / (self.ub_size()->0 as int),
        ensures
            r@ == self.ub_raw().subrange(
                index * self.ub_size()->0,
                index * self.ub_size()->0 + self.ub_size()->0,
            ),
    {
        let size = self.get_raw_uberblock_size();
        let _l: usize = self.uberblocks_raw.len();
        proof {
            crate::arith::lemma_le_div_iff(
                index as int + 1,
                size as int,
                self.ub_raw().len() as int,
            );
            assert((index as int + 1) * size == index as int * size + size) by (nonlinear_arith);
            assert(index as int * size >= 0) by (nonlinear_arith)
                requires
                    index >= 0,
                    size >= 0,
            ;
        }
        read_bytes(self.uberblocks_raw.as_slice(), index * size, size)
    }

    pub fn get_name_value_pairs_raw(&self) -> (r: &Vec<u8>)
        ensures
            r@ == self.nv_pairs(),
    {
        &self.name_value_pairs_raw
    }
}

pub const UBERBLOCK_MAGIC: u64 = 0x00bab10c;

/// An uberblock: one root of the object graph, stamped with its
/// transaction group.
pub struct Uberblock {
    pub version: u64,
    pub txg: u64,
    pub guid_sum: u64,
    pub timestamp: u64,
    pub rootbp: crate::zio::BlockPointer,
}

/// Whether the bytes at `off` carry a little-endian uberblock this library
/// accepts: the magic matches and the root block pointer parses.
pub open spec fn uberblock_parseable(s: Seq<u8>, off: int) -> bool {
    le64(s, off) == UBERBLOCK_MAGIC && crate::zio::bp_parseable(s, off + 40)
}

/// The field equations of a parsed uberblock.
pub open spec fn uberblock_matches(ub: Uberblock, s: Seq<u8>, off: int) -> bool {
    &&& ub.version == le64(s, off + 8)
    &&& ub.txg == le64(s, off + 16)
    &&& ub.guid_sum == le64(s, off + 24)
    &&& ub.timestamp == le64(s, off + 32)
    &&& crate::zio::bp_matches(ub.rootbp, s, off + 40)
}

impl Uberblock {
    pub fn from_bytes_le(data: &[u8], off: usize) -> (r: Option<Uberblock>)
        requires
            off + 168 <= data@.len(),
        ensures
            r is Some <==> uberblock_parseable(data@, off as int),
            match r {
                Some(ub) => uberblock_matches(ub, data@, off as int),
                None => true,
            },
    {
        let _n: usize = data.len();
        let magic = crate::byte_reader::read_u64_le(data, off);
        if magic != UBERBLOCK_MAGIC {
            return None;
        }
        let version = crate::byte_reader::read_u64_le(data, off + 8);
        let txg = crate::byte_reader::read_u64_le(data, off + 16);
        let guid_sum = crate::byte_reader::read_u64_le(data, off + 24);
        let timestamp = crate::byte_reader::read_u64_le(data, off + 32);
        let rootbp = match crate::zio::BlockPointer::from_bytes_le(data, off + 40) {
            Some(bp) => bp,
            None => {
                return None;
            },
        };
        Some(Uberblock { version, txg, guid_sum, timestamp, rootbp })
    }

    /// Endianness-checking entry: a big-endian uberblock is detected and
    /// rejected; only the little-endian layout is accepted.
    pub fn from_bytes(data: &[u8], off: usize) -> (r: Option<Uberblock>)
        requires
            off + 168 <= data@.len(),
        ensures
            r is Some <==> uberblock_parseable(data@, off as int),
            match r {
                Some(ub) => uberblock_matches(ub, data@, off as int),
                None => true,
            },
    {
        let _n: usize = data.len();
        let magic_le = crate::byte_reader::read_u64_le(data, off);
        if magic_le == UBERBLOCK_MAGIC {
            Uberblock::from_bytes_le(data, off)
        } else {
            None
        }
    }
}


/// Select the active uberblock of a label: among the ring slots that
/// parse, the one with the highest transaction group whose root pointer
/// dereferences.  This is the entry step of the pool walk; the caller
/// descends from the returned root pointer.
pub fn select_active_uberblock(label: &VdevLabel, vdevs: &mut VdevRaidz) -> (r: Option<Uberblock>)
    requires
        label.wf(),
        label.ub_size() is Some,
        label.ub_size()->0 >= 168,
        old(vdevs).wf(),
    ensures
        final(vdevs).wf(),
        VdevRaidz::same_geometry(*old(vdevs), *final(vdevs)),
        match r {
            Some(ub) => exists|i: int|
                0 <= i < label.ub_raw().len() as int / (label.ub_size()->0 as int)
                    && #[trigger] uberblock_matches(
                    ub,
                    label.ub_raw().subrange(
                        i * (label.ub_size()->0 as int),
                        i * (label.ub_size()->0 as int) + (label.ub_size()->0 as int),
                    ),
                    0,
                ),
            None => true,
        },
{
    let count = label.get_raw_uberblock_count();
    let mut best: Option<Uberblock> = None;
    let ghost sz = label.ub_size()->0 as int;
    let mut i: usize = 0;
    while i < count
        invariant
            label.wf(),
            label.ub_size() is Some,
            label.ub_size()->0 >= 168,
            sz == label.ub_size()->0 as int,
            count == label.ub_raw().len() as int / sz,
            vdevs.wf(),
            VdevRaidz::same_geometry(*old(vdevs), *vdevs),
            match best {
                Some(ub) => exists|j: int|
                    0 <= j < count && #[trigger] uberblock_matches(
                        ub,
                        label.ub_raw().subrange(j * sz, j * sz + sz),
                        0,
                    ),
                None => true,
            },
        decreases count - i,
    {
        let raw = label.get_raw_uberblock(i);
        proof {
            crate::arith::lemma_le_div_iff(i as int + 1, sz, label.ub_raw().len() as int);
            assert((i as int + 1) * sz == i as int * sz + sz) by (nonlinear_arith);
            assert(i as int * sz >= 0) by (nonlinear_arith)
                requires
                    i as int >= 0,
                    sz >= 0,
            ;
            assert(raw@.len() == sz);
        }
        match Uberblock::from_bytes(raw.as_slice(), 0) {
            Some(ub) => {
                let better: bool = match &best {
                    Some(b) => ub.txg > b.txg,
                    None => true,
                };
                if better && crate::zio::bp_deref_wf_check(&ub.rootbp) {
                    match ub.rootbp.dereference(vdevs) {
                        Ok(_) => {
                            proof {
                                assert(uberblock_matches(
                                    ub,
                                    label.ub_raw().subrange(i as int * sz, i as int * sz + sz),
                                    0,
                                ));
                            }
                            best = Some(ub);
                        },
                        Err(_) => {},
                    }
                }
            },
            None => {},
        }
        i = i + 1;
    }
    best
}

impl VdevRaidz {
    /// Byte positions at or above 2^63 lie outside every leaf device.
    pub proof fn lemma_big_pos_unreadable(self, pos: int)
        requires
            self.wf(),
            pos >= 0x8000_0000_0000_0000,
        ensures
            !raidz_sector_in_range(self.dev_views(), self.spec_asize() as int, pos / self.spec_asize() as int),
    {
        let a = self.spec_asize() as int;
        let s = pos / a;
        if raidz_sector_in_range(self.dev_views(), a, s) {
            lemma_sector_pos_bound(self.dev_views(), a, s);
            vstd::arithmetic::div_mod::lemma_fundamental_div_mod(pos, a);
            assert(0 <= pos % a < a) by (nonlinear_arith)
                requires
                    0 < a,
                    0 <= pos,
            ;
            assert(pos < (s + 1) * a) by (nonlinear_arith)
                requires
                    pos == a * s + pos % a,
                    pos % a < a,
            ;
        }
    }
}


/// In-range is a property of the device lengths alone.
proof fn lemma_raidz_in_range_same_lens(devs1: Seq<Seq<u8>>, devs2: Seq<Seq<u8>>, a: int, s: int)
    requires
        devs1.len() == devs2.len(),
        1 <= devs1.len(),
        forall|d: int| 0 <= d < devs2.len() ==> (#[trigger] devs2[d]).len() == devs1[d].len(),
        0 <= s,
    ensures
        raidz_sector_in_range(devs1, a, s) == raidz_sector_in_range(devs2, a, s),
{
    let n = devs1.len() as int;
    vstd::arithmetic::div_mod::lemma_fundamental_div_mod(s, n);
    assert(0 <= s % n < n) by (nonlinear_arith)
        requires
            0 < n,
            0 <= s,
            s == n * (s / n) + s % n,
    ;
}

/// A sector write leaves every byte of every other sector unchanged.
proof fn lemma_raidz_byte_frame(devs: Seq<Seq<u8>>, a: int, s: int, newdata: Seq<u8>, pos: int)
    requires
        0 < a,
        0 <= s,
        0 <= pos,
        1 <= devs.len(),
        pos / a != s,
        newdata.len() == a,
        raidz_sector_in_range(devs, a, pos / a),
    ensures
        raidz_byte(
            devs.update(s % devs.len() as int, overwrite(devs[s % devs.len() as int], (s / devs.len() as int) * a, newdata)),
            a,
            pos,
        ) == raidz_byte(devs, a, pos),
{
    let n = devs.len() as int;
    let s2 = pos / a;
    let t2 = pos % a;
    vstd::arithmetic::div_mod::lemma_fundamental_div_mod(s, n);
    vstd::arithmetic::div_mod::lemma_fundamental_div_mod(s2, n);
    assert(0 <= s % n < n && 0 <= s2 % n < n && 0 <= s2 && 0 <= t2 < a) by (nonlinear_arith)
        requires
            0 < n,
            0 <= s,
            0 <= pos,
            0 < a,
            s == n * (s / n) + s % n,
            s2 == n * (s2 / n) + s2 % n,
            s2 == pos / a,
            t2 == pos % a,
            pos == a * s2 + t2 || true,
    ;
    vstd::arithmetic::div_mod::lemma_fundamental_div_mod(pos, a);
    if s2 % n != s % n {
    } else {
        assert(s2 / n != s / n) by (nonlinear_arith)
            requires
                s != s2,
                s == n * (s / n) + s % n,
                s2 == n * (s2 / n) + s2 % n,
                s % n == s2 % n,
        ;
        let body = devs[s % n];
        let nb = overwrite(body, (s / n) * a, newdata);
        assert((s2 / n) * a + a <= body.len());
        assert((s2 / n) * a >= 0) by (nonlinear_arith)
            requires
                0 <= s2 / n,
                0 < a,
        ;
        assert forall|q: int|
            (s2 / n) * a <= q < (s2 / n) * a + a implies nb[q]
            == body[q] by {
            assert(!((s / n) * a <= q < (s / n) * a + a)) by (nonlinear_arith)
                requires
                    (s2 / n) * a <= q < (s2 / n) * a + a,
                    s2 / n != s / n,
                    0 < a,
            ;
        }
        assert(raidz_sector_bytes(
            devs.update(s % n, nb),
            a,
            s2,
        ) =~= raidz_sector_bytes(devs, a, s2));
    }
}

/// After a sector write, each byte of that sector reads back from the new
/// data.
proof fn lemma_raidz_byte_written(devs: Seq<Seq<u8>>, a: int, s: int, newdata: Seq<u8>, pos: int)
    requires
        0 < a,
        0 <= s,
        0 <= pos,
        1 <= devs.len(),
        pos / a == s,
        newdata.len() == a,
        raidz_sector_in_range(devs, a, s),
    ensures
        raidz_byte(
            devs.update(s % devs.len() as int, overwrite(devs[s % devs.len() as int], (s / devs.len() as int) * a, newdata)),
            a,
            pos,
        ) == newdata[pos % a],
{
    let n = devs.len() as int;
    let t2 = pos % a;
    vstd::arithmetic::div_mod::lemma_fundamental_div_mod(pos, a);
    vstd::arithmetic::div_mod::lemma_fundamental_div_mod(s, n);
    assert(0 <= s % n < n && 0 <= t2 < a && 0 <= (s / n)) by (nonlinear_arith)
        requires
            0 < n,
            0 < a,
            0 <= s,
            0 <= pos,
            s == n * (s / n) + s % n,
            pos == a * (pos / a) + pos % a,
            t2 == pos % a,
    ;
    let body = devs[s % n];
    let nb = overwrite(body, (s / n) * a, newdata);
    assert((s / n) * a + a <= body.len());
    assert((s / n) * a >= 0) by (nonlinear_arith)
        requires
            0 <= s / n,
            0 < a,
    ;
    assert(nb[(s / n) * a + t2] == newdata[t2]);
    assert(raidz_sector_bytes(devs.update(s % n, nb), a, s)[t2] == nb[(s / n) * a + t2]);
}

/// Any in-range sector ends below 2^63 in the byte address space.
proof fn lemma_sector_pos_bound(devs: Seq<Seq<u8>>, a: int, s: int)
    requires
        0 < a,
        0 <= s,
        1 <= devs.len() <= MAX_DEVICES,
        forall|i: int| 0 <= i < devs.len() ==> (#[trigger] devs[i]).len() <= MAX_DEVICE_BYTES,
        raidz_sector_in_range(devs, a, s),
    ensures
        (s + 1) * a <= 0x8000_0000_0000_0000,
{
    let n = devs.len() as int;
    let ds = s / n;
    let dlen = devs[s % n].len() as int;
    vstd::arithmetic::div_mod::lemma_fundamental_div_mod(s, n);
    assert(0 <= s % n < n) by (nonlinear_arith)
        requires
            0 < n,
            0 <= s,
            s == n * (s / n) + s % n,
            (s / n) * a + a <= dlen || true,
    ;
    assert((s + 1) * a <= 0x8000_0000_0000_0000) by (nonlinear_arith)
        requires
            0 < a,
            0 <= s,
            0 < n <= MAX_DEVICES as int,
            s == n * ds + s % n,
            0 <= s % n < n,
            ds * a + a <= dlen,
            dlen <= MAX_DEVICE_BYTES as int,
            0 <= ds,
    ;
}

} // verus!
