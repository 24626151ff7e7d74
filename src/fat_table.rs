//! The file allocation table: for each cluster, the next cluster of its
//! file, or a marker.
use vstd::prelude::*;
use crate::boot_sector::{total_sectors_of, Fat16BootSector};
use crate::bytes::{le16, read_u16, u16_bytes};
use crate::ata::words_bytes;
use crate::disk::{joined, read_sectors, run_from, write_sectors, DiskDriver, LoggedDisk, SECTOR_BYTES};
use crate::fs_error::FsError;

verus! {

/// A free cluster.
pub const FAT16_EMPTY_CLUSTER: u16 = 0x0000;
/// Entries at or above this value end a chain.
pub const FAT16_END_FLAG: u16 = 0xFFF8;
/// A cluster marked bad.
pub const FAT16_BAD_CLUSTER: u16 = 0xFFF7;
/// The marker written at the end of a chain.
pub const FAT16_END_OF_FILE: u16 = 0xFFFF;

/// All copies of a FAT16 allocation table, held in memory.
///
/// The copies lie one after the other on disk, from `start_sector_index`,
/// `sectors_per_fat` sectors each; `data` holds them in that order, so the
/// entry of cluster `c` in the first copy is `data[c]`.
pub struct FAT16Fats {
    pub data: Vec<u16>,
    pub start_sector_index: u64,
    pub fat_count: usize,
    pub sectors_per_fat: usize,
    pub bytes_per_sector: usize,
    pub total_clusters: usize,
}

/// `c` names a data cluster of the table: not one of the two reserved
/// entries, within the volume, and within the table.
pub open spec fn valid_cluster(data: Seq<u16>, total: nat, c: int) -> bool {
    2 <= c <= total + 1 && c < data.len()
}

/// `o` with `p` in front of the chain it holds.
pub open spec fn prepend(p: Seq<u16>, o: Option<Seq<u16>>) -> Option<Seq<u16>> {
    match o {
        Some(s) => Some(p + s),
        None => None,
    }
}

/// The chain that starts at cluster `c`, following at most `fuel` links: the
/// clusters in order, then the end marker that closes it. `None` when it
/// reaches a cluster outside the volume or one marked bad, or needs more
/// links.
pub open spec fn chain_from(data: Seq<u16>, total: nat, c: int, fuel: nat) -> Option<Seq<u16>>
    decreases fuel,
{
    if !valid_cluster(data, total, c) {
        None
    } else if data[c] == FAT16_BAD_CLUSTER {
        None
    } else if data[c] >= FAT16_END_FLAG {
        Some(seq![c as u16, data[c]])
    } else if fuel == 0 {
        None
    } else {
        prepend(seq![c as u16], chain_from(data, total, data[c] as int, (fuel - 1) as nat))
    }
}

/// The chain of cluster `start` in table `data`: at most `total` links are
/// followed, more than a chain of distinct clusters of the volume can have.
pub open spec fn cluster_chain(data: Seq<u16>, total: nat, start: int) -> Option<Seq<u16>> {
    chain_from(data, total, start, total)
}

/// The table entries stored little-endian in `b`.
pub open spec fn entries_of(b: Seq<u8>) -> Seq<u16> {
    Seq::new(b.len() / 2, |i: int| le16(b, 2 * i) as u16)
}

/// The number of clusters of a volume.
pub open spec fn total_clusters_of(bs: Fat16BootSector) -> int {
    total_sectors_of(bs) / (bs.sectors_per_cluster as int)
}

/// The table entries are 16 bits wide: the bits of one table divided by the
/// number of clusters.
pub open spec fn fat_is_16_bit(bs: Fat16BootSector) -> bool {
    total_clusters_of(bs) > 0 && (bs.sectors_per_fat * bs.bytes_per_sector * 8) / total_clusters_of(bs) == 16
}

/// Converts table bytes to entries.
pub fn entries_from_bytes(b: &Vec<u8>) -> (r: Vec<u16>)
    ensures
        r@ == entries_of(b@),
{
    let len: usize = b.len();
    let n: usize = len / 2;
    let mut r: Vec<u16> = Vec::new();
    let mut i: usize = 0;
    while i < n
        invariant
            len == b@.len(),
            n == b@.len() / 2,
            i <= n,
            r@.len() == i,
            forall|j: int| 0 <= j < i ==> r@[j] == le16(b@, 2 * j) as u16,
        decreases n - i,
    {
        let v: u16 = read_u16(b, 2 * i);
        r.push(v);
        i = i + 1;
    }
    assert(r@ =~= entries_of(b@));
    r
}

/// Converts entries to table bytes.
pub fn bytes_from_entries(data: &Vec<u16>) -> (r: Vec<u8>)
    requires
        2 * data@.len() <= usize::MAX,
    ensures
        r@.len() == 2 * data@.len(),
        entries_of(r@) == data@,
        r@ == words_bytes(data@),
{
    let mut r: Vec<u8> = Vec::new();
    let mut i: usize = 0;
    while i < data.len()
        invariant
            i <= data@.len(),
            r@.len() == 2 * i,
            forall|j: int| 0 <= j < i ==> r@[2 * j] == data@[j] % 256 && r@[2 * j + 1] == data@[j] / 256,
            forall|j: int| 0 <= j < i ==> le16(r@, 2 * j) == data@[j],
        decreases data@.len() - i,
    {
        let (lo, hi) = u16_bytes(data[i]);
        r.push(lo);
        r.push(hi);
        i = i + 1;
    }
    assert(entries_of(r@) =~= data@);
    assert forall|k: int| 0 <= k < r@.len() implies r@[k] == words_bytes(data@)[k] by {
        let j = k / 2;
        if k % 2 == 0 {
            assert(k == 2 * j);
        } else {
            assert(k == 2 * j + 1);
        }
    }
    assert(r@ =~= words_bytes(data@));
    r
}

impl FAT16Fats {
    /// Describes the allocation tables of a volume, not yet read. Fails with
    /// `InvalidGeometry` when the volume has no cluster and with
    /// `UnsupportedFatWidth` when its entries are not 16 bits wide.
    pub fn new(boot_sector: &Fat16BootSector) -> (r: Result<FAT16Fats, FsError>)
        requires
            boot_sector.sectors_per_cluster > 0,
        ensures
            total_clusters_of(*boot_sector) == 0 ==> r == Err::<FAT16Fats, FsError>(FsError::InvalidGeometry),
            total_clusters_of(*boot_sector) > 0 && !fat_is_16_bit(*boot_sector) ==> r == Err::<
                FAT16Fats,
                FsError,
            >(FsError::UnsupportedFatWidth),
            fat_is_16_bit(*boot_sector) ==> r is Ok && ({
                let f = r->Ok_0;
                &&& f.data@.len() == 0
                &&& f.start_sector_index == boot_sector.reserved_sectors
                &&& f.fat_count == boot_sector.fats
                &&& f.sectors_per_fat == boot_sector.sectors_per_fat
                &&& f.bytes_per_sector == boot_sector.bytes_per_sector
                &&& f.total_clusters == total_clusters_of(*boot_sector)
            }),
    {
        let total: usize = boot_sector.get_totel_sectors();
        let clusters: usize = total / boot_sector.sectors_per_cluster as usize;
        if clusters == 0 {
            return Err(FsError::InvalidGeometry);
        }
        let spf: u64 = boot_sector.sectors_per_fat as u64;
        let bps: u64 = boot_sector.bytes_per_sector as u64;
        assert(spf * bps <= 65535 * 65535) by (nonlinear_arith)
            requires spf <= 65535, bps <= 65535;
        let fat_bits: u64 = spf * bps * 8 / clusters as u64;
        if fat_bits != 16 {
            return Err(FsError::UnsupportedFatWidth);
        }
        Ok(FAT16Fats {
            data: Vec::new(),
            start_sector_index: boot_sector.reserved_sectors as u64,
            fat_count: boot_sector.fats as usize,
            sectors_per_fat: boot_sector.sectors_per_fat as usize,
            bytes_per_sector: boot_sector.bytes_per_sector as usize,
            total_clusters: clusters,
        })
    }

    /// The number of sectors that all copies take together.
    pub open spec fn fats_sectors(&self) -> int {
        self.fat_count * self.sectors_per_fat
    }

    /// Reads all copies of the table from disk. A drive error leaves the
    /// table as it was.
    pub fn init<D: DiskDriver>(&mut self, driver: &mut LoggedDisk<D>) -> (r: Result<(), FsError>)
        requires
            old(self).fats_sectors() * SECTOR_BYTES <= usize::MAX,
            old(self).bytes_per_sector == SECTOR_BYTES,
            old(self).start_sector_index + old(self).fats_sectors() <= u64::MAX,
        ensures
            final(self).start_sector_index == old(self).start_sector_index,
            final(self).fat_count == old(self).fat_count,
            final(self).sectors_per_fat == old(self).sectors_per_fat,
            final(self).bytes_per_sector == old(self).bytes_per_sector,
            final(self).total_clusters == old(self).total_clusters,
            r is Ok ==> final(self).data@.len() == old(self).fats_sectors() * SECTOR_BYTES / 2,
            r is Err ==> final(self).data@ == old(self).data@ && (r->Err_0 is Io),
            old(self).fats_sectors() == 0 ==> r is Ok,
            final(driver).writes@ == old(driver).writes@,
            r is Ok ==> ({
                let reqs = final(driver).reads@.skip(old(driver).reads@.len() as int);
                &&& run_from(reqs, old(self).start_sector_index as int)
                &&& joined(reqs).len() == old(self).fats_sectors() * SECTOR_BYTES
                &&& final(self).data@ == entries_of(joined(reqs))
            }),
    {
        assert(self.fat_count * self.sectors_per_fat <= self.fats_sectors() * SECTOR_BYTES)
            by (nonlinear_arith)
            requires self.fats_sectors() == self.fat_count * self.sectors_per_fat;
        let sectors: usize = self.fat_count * self.sectors_per_fat;
        match read_sectors(driver, self.start_sector_index, sectors) {
            Ok(bytes) => {
                self.data = entries_from_bytes(&bytes);
                Ok(())
            },
            Err(e) => Err(FsError::Io(e)),
        }
    }

    /// Writes the in-memory table back over the disk region it was read from.
    pub fn flush<D: DiskDriver>(&self, driver: &mut LoggedDisk<D>) -> (r: Result<(), FsError>)
        requires
            self.data@.len() == self.fats_sectors() * SECTOR_BYTES / 2,
            self.fats_sectors() * SECTOR_BYTES <= usize::MAX,
            self.start_sector_index + self.fats_sectors() <= u64::MAX,
        ensures
            r is Err ==> (r->Err_0 is Io),
            final(driver).reads@ == old(driver).reads@,
            r is Ok ==> ({
                let reqs = final(driver).writes@.skip(old(driver).writes@.len() as int);
                run_from(reqs, self.start_sector_index as int) && joined(reqs) == words_bytes(self.data@)
            }),
            self.data@.len() == 0 ==> r is Ok,
    {
        assert(self.fats_sectors() >= 0) by (nonlinear_arith);
        let bytes: Vec<u8> = bytes_from_entries(&self.data);
        assert(bytes@.len() == self.fats_sectors() * SECTOR_BYTES);
        assert(bytes@.len() % (SECTOR_BYTES as nat) == 0 && bytes@.len() / (SECTOR_BYTES as nat)
            == self.fats_sectors()) by (nonlinear_arith)
            requires bytes@.len() == self.fats_sectors() * 512, self.fats_sectors() >= 0;
        match write_sectors(driver, self.start_sector_index, &bytes) {
            Ok(()) => Ok(()),
            Err(e) => Err(FsError::Io(e)),
        }
    }

    /// The chain of clusters that starts at `index`: the clusters in order,
    /// then the end marker that closes the chain. At most `total_clusters`
    /// links are followed; a chain that leaves the volume, reaches a cluster
    /// marked bad or runs in a cycle fails with `ChainCorrupted`.
    pub fn get_all_clusters(&self, index: u16) -> (r: Result<Vec<u16>, FsError>)
        ensures
            match cluster_chain(self.data@, self.total_clusters as nat, index as int) {
                Some(chain) => r is Ok && r->Ok_0@ == chain,
                None => r == Err::<Vec<u16>, FsError>(FsError::ChainCorrupted),
            },
    {
        let ghost data = self.data@;
        let ghost total = self.total_clusters as nat;
        let mut ret: Vec<u16> = Vec::new();
        let mut cur: u16 = index;
        let mut fuel: usize = self.total_clusters;
        loop
            invariant
                data == self.data@,
                total == self.total_clusters,
                fuel <= total,
                cluster_chain(data, total, index as int) == prepend(
                    ret@,
                    chain_from(data, total, cur as int, fuel as nat),
                ),
            decreases fuel,
        {
            let c: usize = cur as usize;
            if c < 2 || c - 1 > self.total_clusters || c >= self.data.len() {
                return Err(FsError::ChainCorrupted);
            }
            let next: u16 = self.data[c];
            if next == FAT16_BAD_CLUSTER {
                return Err(FsError::ChainCorrupted);
            }
            let ghost before = ret@;
            ret.push(cur);
            if next >= FAT16_END_FLAG {
                ret.push(next);
                assert(ret@ =~= before + seq![cur, next]);
                return Ok(ret);
            }
            if fuel == 0 {
                return Err(FsError::ChainCorrupted);
            }
            assert(ret@ =~= before + seq![cur]);
            proof {
                let rest = chain_from(data, total, next as int, (fuel - 1) as nat);
                match rest {
                    Some(s) => {
                        assert(before + (seq![cur] + s) =~= (before + seq![cur]) + s);
                    },
                    None => {},
                }
            }
            fuel = fuel - 1;
            cur = next;
        }
    }
}

/// Entry `i` is one of `clusters`.
pub open spec fn in_chain(clusters: Seq<u16>, i: int) -> bool {
    exists|j: int| 0 <= j < clusters.len() && clusters[j] as int == i
}

/// The clusters of a chain, without the end marker that closes it.
pub open spec fn chain_clusters(chain: Seq<u16>) -> Seq<u16> {
    chain.drop_last()
}

impl FAT16Fats {
    /// Frees the chain that starts at `index`: every cluster of it gets the
    /// entry `FAT16_EMPTY_CLUSTER`; other entries keep their values. A
    /// corrupted chain changes nothing and fails with `ChainCorrupted`.
    pub fn free_entries(&mut self, index: u16) -> (r: Result<(), FsError>)
        ensures
            final(self).total_clusters == old(self).total_clusters,
            final(self).start_sector_index == old(self).start_sector_index,
            final(self).fat_count == old(self).fat_count,
            final(self).sectors_per_fat == old(self).sectors_per_fat,
            final(self).bytes_per_sector == old(self).bytes_per_sector,
            final(self).data@.len() == old(self).data@.len(),
            forall|i: int| 0 <= i < 2 && i < old(self).data@.len() ==> final(self).data@[i] == old(self).data@[i],
            match cluster_chain(old(self).data@, old(self).total_clusters as nat, index as int) {
                Some(chain) => r is Ok && forall|i: int|
                    0 <= i < old(self).data@.len() ==> #[trigger] final(self).data@[i] == if in_chain(
                        chain_clusters(chain),
                        i,
                    ) {
                        FAT16_EMPTY_CLUSTER
                    } else {
                        old(self).data@[i]
                    },
                None => r == Err::<(), FsError>(FsError::ChainCorrupted) && final(self).data@ == old(
                    self,
                ).data@,
            },
    {
        let chain = match self.get_all_clusters(index) {
            Ok(chain) => chain,
            Err(e) => return Err(e),
        };
        proof {
            lemma_chain_clusters_valid(self.data@, self.total_clusters as nat, index as int, self.total_clusters as nat);
        }
        let ghost old_data = self.data@;
        let ghost clusters = chain_clusters(chain@);
        let n: usize = chain.len() - 1;
        let ghost start = self.start_sector_index;
        let ghost fat_count = self.fat_count;
        let ghost spf = self.sectors_per_fat;
        let ghost bps = self.bytes_per_sector;
        let ghost total = self.total_clusters;
        let mut k: usize = 0;
        while k < n
            invariant
                start == old(self).start_sector_index,
                self.start_sector_index == start,
                self.fat_count == fat_count,
                fat_count == old(self).fat_count,
                self.sectors_per_fat == spf,
                spf == old(self).sectors_per_fat,
                self.bytes_per_sector == bps,
                bps == old(self).bytes_per_sector,
                self.total_clusters == total,
                total == old(self).total_clusters,
                old_data == old(self).data@,
                chain@.len() == n + 1,
                n == clusters.len(),
                clusters == chain@.drop_last(),
                k <= n,
                self.data@.len() == old_data.len(),
                forall|j: int| 0 <= j < clusters.len() ==> (#[trigger] clusters[j]) < old_data.len(),
                forall|i: int|
                    0 <= i < old_data.len() ==> #[trigger] self.data@[i] == if in_chain(
                        clusters.take(k as int),
                        i,
                    ) {
                        FAT16_EMPTY_CLUSTER
                    } else {
                        old_data[i]
                    },
            decreases n - k,
        {
            let c: u16 = chain[k];
            assert(clusters[k as int] == c);
            self.data.set(c as usize, FAT16_EMPTY_CLUSTER);
            assert forall|i: int| 0 <= i < old_data.len() implies #[trigger] self.data@[i] == if in_chain(
                clusters.take(k + 1),
                i,
            ) {
                FAT16_EMPTY_CLUSTER
            } else {
                old_data[i]
            } by {
                let t0 = clusters.take(k as int);
                let t1 = clusters.take(k + 1);
                assert(t1 =~= t0.push(c));
                if i == c as int {
                    assert(t1[k as int] == c);
                } else {
                    if in_chain(t1, i) {
                        let j = choose|j: int| 0 <= j < t1.len() && t1[j] as int == i;
                        assert(t0[j] == t1[j]);
                    }
                    if in_chain(t0, i) {
                        let j = choose|j: int| 0 <= j < t0.len() && t0[j] as int == i;
                        assert(t1[j] == t0[j]);
                    }
                }
            }
            k = k + 1;
        }
        assert(clusters.take(n as int) =~= clusters);
        assert forall|i: int| 0 <= i < 2 && i < old_data.len() implies !in_chain(clusters, i) by {
            if in_chain(clusters, i) {
                let j = choose|j: int| 0 <= j < clusters.len() && clusters[j] as int == i;
                assert(chain@[j] == clusters[j]);
            }
        }
        Ok(())
    }
}

/// The clusters that a chain ending at `tail` is extended with: free
/// clusters of the volume after `tail`, in increasing order, with no free
/// cluster between `tail` and the last of them left out.
pub open spec fn fresh_clusters(data: Seq<u16>, total: nat, tail: int, added: Seq<u16>) -> bool {
    &&& forall|k: int| 0 <= k < added.len() ==> tail < #[trigger] added[k] <= total + 1 && added[k] < data.len()
        && data[added[k] as int] == FAT16_EMPTY_CLUSTER
    &&& forall|k: int, l: int| 0 <= k < l < added.len() ==> #[trigger] added[k] < #[trigger] added[l]
    &&& forall|j: int|
        tail < j < data.len() && j <= total + 1 && data[j] == FAT16_EMPTY_CLUSTER && (added.len() == 0
            || j < added.last()) ==> in_chain(added, j)
}

/// Cluster `j` is a free cluster of the volume whose number fits in 16 bits.
pub open spec fn free_cluster(data: Seq<u16>, total: nat, j: int) -> bool {
    2 <= j <= total + 1 && j < data.len() && j < 0x10000 && data[j] == FAT16_EMPTY_CLUSTER
}

/// How many free clusters have numbers in `lo .. hi`.
pub open spec fn free_count(data: Seq<u16>, total: nat, lo: int, hi: int) -> nat
    decreases hi - lo,
{
    if hi <= lo {
        0
    } else {
        free_count(data, total, lo, hi - 1) + if free_cluster(data, total, hi - 1) { 1nat } else { 0nat }
    }
}

proof fn lemma_free_count_mono(data: Seq<u16>, total: nat, lo: int, c: int, hi: int)
    requires
        lo <= c <= hi,
    ensures
        free_count(data, total, lo, c) <= free_count(data, total, lo, hi),
    decreases hi - c,
{
    if hi > c {
        lemma_free_count_mono(data, total, lo, c, hi - 1);
    }
}

proof fn lemma_free_count_stops(data: Seq<u16>, total: nat, lo: int, c: int, hi: int)
    requires
        lo <= c <= hi,
        forall|j: int| c <= j < hi ==> !free_cluster(data, total, j),
    ensures
        free_count(data, total, lo, hi) == free_count(data, total, lo, c),
    decreases hi - c,
{
    if hi > c {
        lemma_free_count_stops(data, total, lo, c, hi - 1);
    }
}

/// The table after linking `added` behind `tail`: `tail` points to the
/// first, each to the next, the last holds the end marker.
pub open spec fn linked(old_data: Seq<u16>, new_data: Seq<u16>, tail: int, added: Seq<u16>) -> bool {
    &&& new_data.len() == old_data.len()
    &&& new_data[tail] == added[0]
    &&& forall|k: int| 0 <= k < added.len() - 1 ==> new_data[#[trigger] added[k] as int] == added[k + 1]
    &&& new_data[added.last() as int] == FAT16_END_OF_FILE
    &&& forall|j: int|
        0 <= j < old_data.len() && j != tail && !in_chain(added, j) ==> #[trigger] new_data[j] == old_data[j]
}

impl FAT16Fats {
    /// Links `added` behind `tail`: `tail` points to the first, each to the
    /// next, the last gets the end marker; nothing else changes.
    fn link_clusters(&mut self, tail: u16, added: &Vec<u16>)
        requires
            added@.len() >= 1,
            (tail as int) < old(self).data@.len(),
            forall|i: int| 0 <= i < added@.len() ==> tail < #[trigger] added@[i] && added@[i] < old(self).data@.len(),
            forall|i: int, l: int| 0 <= i < l < added@.len() ==> #[trigger] added@[i] < #[trigger] added@[l],
        ensures
            final(self).total_clusters == old(self).total_clusters,
            final(self).start_sector_index == old(self).start_sector_index,
            final(self).fat_count == old(self).fat_count,
            final(self).sectors_per_fat == old(self).sectors_per_fat,
            final(self).bytes_per_sector == old(self).bytes_per_sector,
            linked(old(self).data@, final(self).data@, tail as int, added@),
    {
        let ghost old_data = self.data@;
        let m: usize = added.len();
        self.data.set(tail as usize, added[0]);
        let ghost mut written: Set<int> = set![tail as int];
        let mut k: usize = 0;
        while k + 1 < m
            invariant
                self.start_sector_index == old(self).start_sector_index,
                self.fat_count == old(self).fat_count,
                self.sectors_per_fat == old(self).sectors_per_fat,
                self.bytes_per_sector == old(self).bytes_per_sector,
                self.total_clusters == old(self).total_clusters,
                old_data == old(self).data@,
                m == added@.len(),
                0 <= k < m,
                self.data@.len() == old_data.len(),
                forall|i: int| 0 <= i < m ==> tail < #[trigger] added@[i] && added@[i] < old_data.len(),
                forall|i: int, l: int| 0 <= i < l < m ==> #[trigger] added@[i] < #[trigger] added@[l],
                self.data@[tail as int] == added@[0],
                forall|i: int| 0 <= i < k ==> self.data@[#[trigger] added@[i] as int] == added@[i + 1],
                forall|j: int| written.contains(j) ==> j == tail || in_chain(added@, j),
                forall|j: int| 0 <= j < old_data.len() && !written.contains(j) ==> #[trigger] self.data@[j] == old_data[j],
            decreases m - k,
        {
            let here: u16 = added[k];
            let next: u16 = added[k + 1];
            self.data.set(here as usize, next);
            proof {
                written = written.insert(here as int);
                assert(in_chain(added@, here as int));
            }
            k = k + 1;
        }
        let last: u16 = added[m - 1];
        self.data.set(last as usize, FAT16_END_OF_FILE);
        proof {
            written = written.insert(last as int);
            assert(in_chain(added@, last as int));
            assert forall|i: int| 0 <= i < m - 1 implies self.data@[#[trigger] added@[i] as int] == added@[i + 1] by {
                assert(added@[i] < added@[m - 1]);
            }
        }
    }

    /// Extends the chain that starts at `index` by `count` clusters: the
    /// first free clusters after its last one, found by a linear scan. The
    /// result is the new chain, closed by `FAT16_END_OF_FILE`. A corrupted
    /// chain fails with `ChainCorrupted` and too few free clusters with
    /// `NoFreeCluster`; both leave the table unchanged.
    pub fn alloc_clusters(&mut self, index: u16, count: u16) -> (r: Result<Vec<u16>, FsError>)
        ensures
            final(self).total_clusters == old(self).total_clusters,
            final(self).start_sector_index == old(self).start_sector_index,
            final(self).fat_count == old(self).fat_count,
            final(self).sectors_per_fat == old(self).sectors_per_fat,
            final(self).bytes_per_sector == old(self).bytes_per_sector,
            r is Err ==> final(self).data@ == old(self).data@,
            r is Err ==> (r->Err_0 is ChainCorrupted || r->Err_0 is NoFreeCluster),
            final(self).data@.len() == old(self).data@.len(),
            forall|i: int| 0 <= i < 2 && i < old(self).data@.len() ==> final(self).data@[i] == old(self).data@[i],
            cluster_chain(old(self).data@, old(self).total_clusters as nat, index as int) is None ==> r
                == Err::<Vec<u16>, FsError>(FsError::ChainCorrupted),
            match cluster_chain(old(self).data@, old(self).total_clusters as nat, index as int) {
                Some(chain) => (r is Ok <==> (count == 0 || free_count(
                    old(self).data@,
                    old(self).total_clusters as nat,
                    chain[chain.len() - 2] + 1,
                    0x10000,
                ) >= count)),
                None => true,
            },
            match cluster_chain(old(self).data@, old(self).total_clusters as nat, index as int) {
                Some(chain) => r is Ok ==> {
                    let tail = chain[chain.len() - 2] as int;
                    let added = r->Ok_0@.subrange(chain.len() - 1, r->Ok_0@.len() - 1);
                    if count == 0 {
                        r->Ok_0@ == chain && final(self).data@ == old(self).data@
                    } else {
                        &&& r->Ok_0@.len() == chain.len() + count
                        &&& r->Ok_0@.take(chain.len() - 1) == chain_clusters(chain)
                        &&& r->Ok_0@.last() == FAT16_END_OF_FILE
                        &&& fresh_clusters(old(self).data@, old(self).total_clusters as nat, tail, added)
                        &&& linked(old(self).data@, final(self).data@, tail, added)
                    }
                },
                None => true,
            },
    {
        let chain = match self.get_all_clusters(index) {
            Ok(chain) => chain,
            Err(e) => return Err(e),
        };
        proof {
            lemma_chain_clusters_valid(self.data@, self.total_clusters as nat, index as int, self.total_clusters as nat);
        }
        if count == 0 {
            return Ok(chain);
        }
        let ghost old_data = self.data@;
        let ghost total = self.total_clusters as nat;
        let n: usize = chain.len();
        let tail: u16 = chain[n - 2];
        assert(tail >= 2);
        // Scan for free clusters after the tail.
        let mut added: Vec<u16> = Vec::new();
        let mut c: usize = tail as usize + 1;
        while added.len() < count as usize && c - 1 <= self.total_clusters && c < self.data.len() && c <= 0xFFFF
            invariant
                self.data@ == old_data,
                self.total_clusters == total,
                tail < c,
                tail >= 2,
                added@.len() == free_count(old_data, total, tail + 1, c as int),
                c <= 0x10000,
                added@.len() <= count,
                forall|k: int| 0 <= k < added@.len() ==> tail < #[trigger] added@[k] < c && added@[k] <= total
                    + 1 && added@[k] < old_data.len() && old_data[added@[k] as int] == FAT16_EMPTY_CLUSTER,
                forall|k: int, l: int| 0 <= k < l < added@.len() ==> #[trigger] added@[k] < #[trigger] added@[l],
                forall|j: int| tail < j < c && j < old_data.len() && old_data[j] == FAT16_EMPTY_CLUSTER
                    ==> in_chain(added@, j),
            decreases 0x10000 - c,
        {
            if self.data[c] == FAT16_EMPTY_CLUSTER {
                let ghost before = added@;
                added.push(c as u16);
                assert forall|j: int| tail < j < c + 1 && j < old_data.len() && old_data[j] == FAT16_EMPTY_CLUSTER
                    implies in_chain(added@, j) by {
                    if j == c {
                        assert(added@[added@.len() - 1] as int == j);
                    } else {
                        let k = choose|k: int| 0 <= k < before.len() && before[k] as int == j;
                        assert(added@[k] == before[k]);
                    }
                }
            }
            proof {
                assert(tail >= 2);
                assert(free_cluster(old_data, total, c as int) == (old_data[c as int] == FAT16_EMPTY_CLUSTER));
                assert(free_count(old_data, total, tail + 1, c + 1) == free_count(old_data, total, tail + 1, c as int)
                    + if free_cluster(old_data, total, c as int) { 1nat } else { 0nat });
            }
            c = c + 1;
        }
        proof {
            if added@.len() < count {
                assert forall|j: int| c <= j < 0x10000 implies !free_cluster(old_data, total, j) by {}
                lemma_free_count_stops(old_data, total, tail + 1, c as int, 0x10000);
            } else {
                lemma_free_count_mono(old_data, total, tail + 1, c as int, 0x10000);
            }
        }
        if added.len() < count as usize {
            return Err(FsError::NoFreeCluster);
        }
        assert(forall|j: int| tail < j < old_data.len() && j <= total + 1 && old_data[j] == FAT16_EMPTY_CLUSTER
            && j < added@.last() ==> in_chain(added@, j));
        self.link_clusters(tail, &added);
        assert forall|i: int| 0 <= i < 2 && i < old_data.len() implies self.data@[i] == old_data[i] by {
            assert(chain@[n - 2] == tail);
            if in_chain(added@, i) {
                let j = choose|j: int| 0 <= j < added@.len() && added@[j] as int == i;
                assert(tail < added@[j]);
            }
        }
        let m: usize = added.len();
        // The new chain: the old clusters, the added ones, the end marker.
        let mut ret: Vec<u16> = Vec::new();
        let mut i: usize = 0;
        while i + 1 < n
            invariant
                n == chain@.len(),
                n >= 2,
                i < n,
                ret@ == chain@.take(i as int),
            decreases n - i,
        {
            ret.push(chain[i]);
            assert(chain@.take(i + 1) =~= chain@.take(i as int).push(chain@[i as int]));
            i = i + 1;
        }
        let mut j: usize = 0;
        while j < m
            invariant
                m == added@.len(),
                j <= m,
                ret@ == chain@.take(n - 1) + added@.take(j as int),
            decreases m - j,
        {
            ret.push(added[j]);
            assert(added@.take(j + 1) =~= added@.take(j as int).push(added@[j as int]));
            assert(ret@ =~= chain@.take(n - 1) + added@.take(j + 1));
            j = j + 1;
        }
        ret.push(FAT16_END_OF_FILE);
        assert(added@.take(m as int) =~= added@);
        assert(ret@.subrange(n - 1, ret@.len() - 1) =~= added@);
        assert(ret@.take(n - 1) =~= chain@.drop_last());
        Ok(ret)
    }
}

/// Every chain that `chain_from` yields has at least its end marker after
/// its clusters, and each of its clusters is an index of the table.
pub proof fn lemma_chain_clusters_valid(data: Seq<u16>, total: nat, c: int, fuel: nat)
    requires
        0 <= c < 65536,
    ensures
        chain_from(data, total, c, fuel) is Some ==> ({
            let chain = chain_from(data, total, c, fuel)->Some_0;
            &&& chain.len() >= 2
            &&& forall|j: int| 0 <= j < chain.len() - 1 ==> (#[trigger] chain[j]) < data.len()
            &&& forall|j: int| 0 <= j < chain.len() - 1 ==> 2 <= #[trigger] chain[j]
        }),
    decreases fuel,
{
    if valid_cluster(data, total, c) && data[c] != FAT16_BAD_CLUSTER && data[c] < FAT16_END_FLAG && fuel > 0 {
        lemma_chain_clusters_valid(data, total, data[c] as int, (fuel - 1) as nat);
        let rest = chain_from(data, total, data[c] as int, (fuel - 1) as nat);
        if rest is Some {
            let chain = seq![c as u16] + rest->Some_0;
            assert forall|j: int| 0 <= j < chain.len() - 1 implies (#[trigger] chain[j]) < data.len()
                && 2 <= chain[j] by {
                if j > 0 {
                    assert(chain[j] == rest->Some_0[j - 1]);
                }
            }
        }
    }
}

proof fn lemma_sequential_from(data: Seq<u16>, total: nat, n: int, c: int, fuel: nat)
    requires
        2 <= c <= n <= total + 1,
        n < data.len(),
        n < FAT16_BAD_CLUSTER,
        forall|k: int| 2 <= k < n ==> #[trigger] data[k] == k + 1,
        data[n] == FAT16_END_OF_FILE,
        fuel >= n - c,
    ensures
        chain_from(data, total, c, fuel) == Some(
            Seq::new((n - c + 1) as nat, |i: int| (c + i) as u16).push(FAT16_END_OF_FILE),
        ),
    decreases n - c,
{
    if c == n {
        assert(seq![c as u16, data[c]] =~= Seq::new(1, |i: int| (c + i) as u16).push(FAT16_END_OF_FILE));
    } else {
        assert(data[c] == c + 1);
        lemma_sequential_from(data, total, n, c + 1, (fuel - 1) as nat);
        let rest = Seq::new((n - c) as nat, |i: int| (c + 1 + i) as u16).push(FAT16_END_OF_FILE);
        assert(seq![c as u16] + rest =~= Seq::new((n - c + 1) as nat, |i: int| (c + i) as u16).push(
            FAT16_END_OF_FILE,
        ));
    }
}

/// A table in which cluster `k` links to `k + 1` for `k` from 2 to `n - 1`
/// and cluster `n` holds the end marker gives the chain `2, 3, ..., n`
/// followed by the end marker.
pub proof fn lemma_sequential_chain(data: Seq<u16>, total: nat, n: int)
    requires
        2 <= n <= total + 1,
        n < data.len(),
        n < FAT16_BAD_CLUSTER,
        forall|k: int| 2 <= k < n ==> #[trigger] data[k] == k + 1,
        data[n] == FAT16_END_OF_FILE,
    ensures
        cluster_chain(data, total, 2) == Some(
            Seq::new((n - 1) as nat, |i: int| (2 + i) as u16).push(FAT16_END_OF_FILE),
        ),
{
    lemma_sequential_from(data, total, n, 2, total);
}

proof fn lemma_two_cycle(data: Seq<u16>, total: nat, c: int, fuel: nat)
    requires
        c == 2 || c == 3,
        data.len() > 3,
        data[2] == 3,
        data[3] == 2,
    ensures
        chain_from(data, total, c, fuel) is None,
    decreases fuel,
{
    if fuel > 0 {
        lemma_two_cycle(data, total, data[c] as int, (fuel - 1) as nat);
    }
}

/// A table in which cluster 2 links to 3 and 3 back to 2 has no chain from
/// cluster 2: the walk gives up after a bounded number of links.
pub proof fn lemma_cycle_is_corrupt(data: Seq<u16>, total: nat)
    requires
        data.len() > 3,
        data[2] == 3,
        data[3] == 2,
    ensures
        cluster_chain(data, total, 2) is None,
{
    lemma_two_cycle(data, total, 2, total);
}

} // verus!
