//! The block-device capability that the file system reads through, the
//! drive errors, and the records found on a disk's first sectors.
use vstd::prelude::*;
use crate::bytes::{le16, le32, le64, read_array, read_u16, read_u32, read_u64};

verus! {

/// Bytes in one sector.
pub const SECTOR_BYTES: usize = 512;

/// 16-bit words in one sector.
pub const SECTOR_WORDS: usize = 256;

/// The most sectors that one request may move.
pub const MAX_SECTORS_PER_REQUEST: usize = 255;

/// A failure reported by a drive.
#[derive(Clone, Copy, Debug, PartialEq, Eq, Structural)]
pub enum DriveError {
    /// No drive answers at this slot.
    NoDevice,
    /// The drive set its error or write-fault status bit.
    DeviceFault,
    /// The drive stayed busy for the whole bounded wait.
    Timeout,
    /// The request reaches past what the drive can address.
    AddressOutOfRange,
}

/// A drive seen as numbered 512-byte sectors.
pub trait DiskDriver {
    /// Identifies the drive.
    fn init(&mut self) -> Result<DiskIdentifyInfo, DriveError>;

    /// Reads `count` sectors starting at `sector` into `data`.
    fn read(&mut self, sector: u64, count: usize, data: &mut Vec<u8>) -> (r: Result<(), DriveError>)
        requires
            1 <= count <= MAX_SECTORS_PER_REQUEST,
            old(data)@.len() == count * SECTOR_BYTES,
        ensures
            final(data)@.len() == old(data)@.len(),
    ;

    /// Writes `count` sectors from `data` starting at `sector`.
    fn write(&mut self, sector: u64, count: usize, data: &Vec<u8>) -> (r: Result<(), DriveError>)
        requires
            1 <= count <= MAX_SECTORS_PER_REQUEST,
            data@.len() == count * SECTOR_BYTES,
    ;
}

/// A drive together with the record of every sector request made through
/// it: where each read or write started and the bytes it moved.
pub struct LoggedDisk<D: DiskDriver> {
    pub disk: D,
    pub reads: Ghost<Seq<(u64, Seq<u8>)>>,
    pub writes: Ghost<Seq<(u64, Seq<u8>)>>,
}

impl<D: DiskDriver> LoggedDisk<D> {
    /// A drive with nothing recorded yet.
    pub fn new(disk: D) -> (r: LoggedDisk<D>)
        ensures
            r.reads@ == Seq::<(u64, Seq<u8>)>::empty(),
            r.writes@ == Seq::<(u64, Seq<u8>)>::empty(),
    {
        LoggedDisk { disk, reads: Ghost(Seq::empty()), writes: Ghost(Seq::empty()) }
    }

    /// Identifies the drive.
    pub fn init(&mut self) -> (r: Result<DiskIdentifyInfo, DriveError>)
        ensures
            final(self).reads@ == old(self).reads@,
            final(self).writes@ == old(self).writes@,
    {
        self.disk.init()
    }

    /// Reads `count` sectors starting at `sector` into `data`, recording the
    /// request and the bytes it brought.
    pub fn read(&mut self, sector: u64, count: usize, data: &mut Vec<u8>) -> (r: Result<(), DriveError>)
        requires
            1 <= count <= MAX_SECTORS_PER_REQUEST,
            old(data)@.len() == count * SECTOR_BYTES,
        ensures
            final(data)@.len() == old(data)@.len(),
            final(self).reads@ == old(self).reads@.push((sector, final(data)@)),
            final(self).writes@ == old(self).writes@,
    {
        let r = self.disk.read(sector, count, data);
        self.reads = Ghost(self.reads@.push((sector, data@)));
        r
    }

    /// Writes `count` sectors from `data` starting at `sector`, recording
    /// the request.
    pub fn write(&mut self, sector: u64, count: usize, data: &Vec<u8>) -> (r: Result<(), DriveError>)
        requires
            1 <= count <= MAX_SECTORS_PER_REQUEST,
            data@.len() == count * SECTOR_BYTES,
        ensures
            final(self).writes@ == old(self).writes@.push((sector, data@)),
            final(self).reads@ == old(self).reads@,
    {
        let r = self.disk.write(sector, count, data);
        self.writes = Ghost(self.writes@.push((sector, data@)));
        r
    }
}

/// The bytes of a run of requests, joined in order.
pub open spec fn joined(reqs: Seq<(u64, Seq<u8>)>) -> Seq<u8>
    decreases reqs.len(),
{
    if reqs.len() == 0 {
        Seq::empty()
    } else {
        joined(reqs.drop_last()) + reqs.last().1
    }
}

/// The requests cover consecutive whole sectors from `start` on: each
/// starts where the ones before it end.
pub open spec fn run_from(reqs: Seq<(u64, Seq<u8>)>, start: int) -> bool
    decreases reqs.len(),
{
    if reqs.len() == 0 {
        true
    } else {
        &&& run_from(reqs.drop_last(), start)
        &&& reqs.last().0 == start + joined(reqs.drop_last()).len() / (SECTOR_BYTES as nat)
        &&& reqs.last().1.len() >= SECTOR_BYTES
        &&& reqs.last().1.len() % (SECTOR_BYTES as nat) == 0
    }
}

/// The record `now` continues `before`; what was added is `now.skip(before.len())`.
pub open spec fn continues<A>(now: Seq<A>, before: Seq<A>) -> bool {
    before.len() <= now.len() && now.take(before.len() as int) == before
}

pub proof fn lemma_continues_append<A>(a: Seq<A>, b: Seq<A>)
    ensures
        continues(a + b, a),
        (a + b).skip(a.len() as int) == b,
{
    assert((a + b).take(a.len() as int) =~= a);
    assert((a + b).skip(a.len() as int) =~= b);
}

/// Sectors moved by each request of `read_sectors` and `write_sectors`.
pub const SECTORS_PER_CHUNK: usize = 128;

/// Reads `count` sectors starting at `start`, in requests of at most
/// `SECTORS_PER_CHUNK` sectors. The first drive error ends the read. The
/// result is the bytes the requests brought, joined; the requests cover the
/// sectors `start .. start + count` in order.
pub fn read_sectors<D: DiskDriver>(driver: &mut LoggedDisk<D>, start: u64, count: usize) -> (r: Result<Vec<u8>, DriveError>)
    requires
        count * SECTOR_BYTES <= usize::MAX,
        start + count <= u64::MAX,
    ensures
        continues(final(driver).reads@, old(driver).reads@),
        final(driver).writes@ == old(driver).writes@,
        r is Ok ==> r->Ok_0@.len() == count * SECTOR_BYTES,
        r is Ok ==> ({
            let reqs = final(driver).reads@.skip(old(driver).reads@.len() as int);
            run_from(reqs, start as int) && r->Ok_0@ == joined(reqs)
        }),
        count == 0 ==> r is Ok && final(driver).reads@ == old(driver).reads@,
{
    let ghost before = driver.reads@;
    let ghost mut reqs: Seq<(u64, Seq<u8>)> = Seq::empty();
    let mut out: Vec<u8> = Vec::new();
    let mut done: usize = 0;
    proof {
        lemma_continues_append(before, reqs);
        assert(before + reqs =~= before);
    }
    while done < count
        invariant
            done <= count,
            count * SECTOR_BYTES <= usize::MAX,
            start + count <= u64::MAX,
            out@.len() == done * SECTOR_BYTES,
            before == old(driver).reads@,
            driver.reads@ == before + reqs,
            driver.writes@ == old(driver).writes@,
            run_from(reqs, start as int),
            out@ == joined(reqs),
        decreases count - done,
    {
        let n: usize = if count - done < SECTORS_PER_CHUNK { count - done } else { SECTORS_PER_CHUNK };
        assert(n * SECTOR_BYTES <= count * SECTOR_BYTES) by (nonlinear_arith)
            requires n <= count;
        let mut chunk: Vec<u8> = vec![0u8; n * SECTOR_BYTES];
        let at: u64 = start + done as u64;
        let rr = driver.read(at, n, &mut chunk);
        proof {
            let e = (at, chunk@);
            assert(n * SECTOR_BYTES >= SECTOR_BYTES && (n * SECTOR_BYTES) % (SECTOR_BYTES as int) == 0) by (nonlinear_arith)
                requires n >= 1;
            assert((before + reqs).push(e) =~= before + reqs.push(e));
            assert(reqs.push(e).drop_last() =~= reqs);
            assert(joined(reqs).len() / (SECTOR_BYTES as nat) == done) by (nonlinear_arith)
                requires joined(reqs).len() == done * SECTOR_BYTES;
            reqs = reqs.push(e);
        }
        match rr {
            Ok(()) => {},
            Err(e) => {
                proof {
                    lemma_continues_append(before, reqs);
                }
                return Err(e);
            },
        }
        let ghost out0 = out@;
        let mut i: usize = 0;
        while i < chunk.len()
            invariant
                i <= chunk@.len(),
                chunk@.len() == n * SECTOR_BYTES,
                out@ == out0 + chunk@.take(i as int),
                out0.len() == done * SECTOR_BYTES,
                (done + n) * SECTOR_BYTES <= count * SECTOR_BYTES,
            decreases chunk@.len() - i,
        {
            out.push(chunk[i]);
            assert(chunk@.take(i + 1) =~= chunk@.take(i as int).push(chunk@[i as int]));
            i = i + 1;
        }
        assert(chunk@.take(chunk@.len() as int) =~= chunk@);
        done = done + n;
    }
    proof {
        lemma_continues_append(before, reqs);
    }
    Ok(out)
}

/// Writes `data` as consecutive sectors starting at `start`, in requests of
/// at most `SECTORS_PER_CHUNK` sectors. The first drive error ends the
/// write. On success the requests cover the sectors from `start` on and
/// carry `data`, in order.
pub fn write_sectors<D: DiskDriver>(driver: &mut LoggedDisk<D>, start: u64, data: &Vec<u8>) -> (r: Result<(), DriveError>)
    requires
        data@.len() % (SECTOR_BYTES as nat) == 0,
        start + data@.len() / (SECTOR_BYTES as nat) <= u64::MAX,
    ensures
        continues(final(driver).writes@, old(driver).writes@),
        final(driver).reads@ == old(driver).reads@,
        r is Ok ==> ({
            let reqs = final(driver).writes@.skip(old(driver).writes@.len() as int);
            run_from(reqs, start as int) && joined(reqs) == data@
        }),
        data@.len() == 0 ==> r is Ok && final(driver).writes@ == old(driver).writes@,
{
    let ghost before = driver.writes@;
    let ghost mut reqs: Seq<(u64, Seq<u8>)> = Seq::empty();
    proof {
        assert(before + reqs =~= before);
    }
    let len: usize = data.len();
    let count: usize = len / SECTOR_BYTES;
    let mut done: usize = 0;
    while done < count
        invariant
            len == data@.len(),
            done <= count,
            count == data@.len() / (SECTOR_BYTES as nat),
            data@.len() == count * SECTOR_BYTES,
            start + count <= u64::MAX,
            before == old(driver).writes@,
            driver.writes@ == before + reqs,
            driver.reads@ == old(driver).reads@,
            run_from(reqs, start as int),
            joined(reqs) == data@.take(done * SECTOR_BYTES),
        decreases count - done,
    {
        let n: usize = if count - done < SECTORS_PER_CHUNK { count - done } else { SECTORS_PER_CHUNK };
        assert((done + n) * SECTOR_BYTES <= count * SECTOR_BYTES) by (nonlinear_arith)
            requires done + n <= count;
        let mut chunk: Vec<u8> = Vec::new();
        let first: usize = done * SECTOR_BYTES;
        let last: usize = (done + n) * SECTOR_BYTES;
        assert(last - first == n * SECTOR_BYTES) by (nonlinear_arith)
            requires first == done * SECTOR_BYTES, last == (done + n) * SECTOR_BYTES;
        let mut k: usize = first;
        while k < last
            invariant
                first <= k <= last,
                last <= data@.len(),
                chunk@ == data@.subrange(first as int, k as int),
            decreases last - k,
        {
            chunk.push(data[k]);
            assert(data@.subrange(first as int, k + 1) =~= data@.subrange(first as int, k as int).push(data@[k as int]));
            k = k + 1;
        }
        let at: u64 = start + done as u64;
        let rw = driver.write(at, n, &chunk);
        proof {
            let e = (at, chunk@);
            assert(n * SECTOR_BYTES >= SECTOR_BYTES && (n * SECTOR_BYTES) % (SECTOR_BYTES as int) == 0) by (nonlinear_arith)
                requires n >= 1;
            assert((before + reqs).push(e) =~= before + reqs.push(e));
            assert(reqs.push(e).drop_last() =~= reqs);
            assert(joined(reqs).len() / (SECTOR_BYTES as nat) == done) by (nonlinear_arith)
                requires joined(reqs).len() == done * SECTOR_BYTES;
            assert(joined(reqs.push(e)) =~= data@.take(last as int));
            reqs = reqs.push(e);
        }
        match rw {
            Ok(()) => {},
            Err(e) => {
                proof {
                    lemma_continues_append(before, reqs);
                }
                return Err(e);
            },
        }
        done = done + n;
    }
    proof {
        lemma_continues_append(before, reqs);
        assert(data@.take(done * SECTOR_BYTES) =~= data@);
    }
    Ok(())
}

/// The kind of a disk.
#[derive(Clone, Copy, Debug, PartialEq, Eq, Structural)]
pub enum DiskKind {
    Unknown,
    FloppyDisk,
    HardDisk,
    CompactDisk,
}

/// The file system that a partition-table type byte announces.
#[derive(Clone, Copy, Debug, PartialEq, Eq, Structural)]
pub enum FileSystemKind {
    Empty,
    Fat12,
    Fat16_V1,
    Fat16_V2,
    Fat32_V1,
    Fat32,
    Fat16,
}

/// The partition type byte of each kind.
pub open spec fn file_system_code(k: FileSystemKind) -> u8 {
    match k {
        FileSystemKind::Empty => 0x00,
        FileSystemKind::Fat12 => 0x01,
        FileSystemKind::Fat16_V1 => 0x04,
        FileSystemKind::Fat16_V2 => 0x06,
        FileSystemKind::Fat32_V1 => 0x0B,
        FileSystemKind::Fat32 => 0x0C,
        FileSystemKind::Fat16 => 0x0A,
    }
}

impl FileSystemKind {
    /// The partition type byte.
    pub fn code(&self) -> (r: u8)
        ensures
            r == file_system_code(*self),
    {
        match self {
            FileSystemKind::Empty => 0x00,
            FileSystemKind::Fat12 => 0x01,
            FileSystemKind::Fat16_V1 => 0x04,
            FileSystemKind::Fat16_V2 => 0x06,
            FileSystemKind::Fat32_V1 => 0x0B,
            FileSystemKind::Fat32 => 0x0C,
            FileSystemKind::Fat16 => 0x0A,
        }
    }

    /// The kind that a partition type byte announces, if it is one of them.
    pub fn from_code(code: u8) -> (r: Option<FileSystemKind>)
        ensures
            r is Some ==> file_system_code(r->Some_0) == code,
            r is None ==> forall|k: FileSystemKind| file_system_code(k) != code,
    {
        match code {
            0x00 => Some(FileSystemKind::Empty),
            0x01 => Some(FileSystemKind::Fat12),
            0x04 => Some(FileSystemKind::Fat16_V1),
            0x06 => Some(FileSystemKind::Fat16_V2),
            0x0B => Some(FileSystemKind::Fat32_V1),
            0x0C => Some(FileSystemKind::Fat32),
            0x0A => Some(FileSystemKind::Fat16),
            _ => None,
        }
    }
}

/// The kind of a partition.
#[derive(Clone, Copy, Debug, PartialEq, Eq, Structural)]
pub enum DiskPartitionKind {
    Unknown,
    /// At most four primary partitions, or three and one extended.
    Primary,
    Extend,
    /// A partition inside an extended one.
    Logical,
}

/// One 16-byte entry of a partition table.
#[derive(Clone, Copy, Debug, PartialEq, Eq, Structural)]
pub struct DiskPartitionTableEntry {
    pub flags: u8,
    pub start_head: u8,
    /// Bits 0..5 the sector, bits 6..15 the cylinder.
    pub start_sector_cylinder: u16,
    pub kind: u8,
    pub end_head: u8,
    /// Bits 0..5 the sector, bits 6..15 the cylinder.
    pub end_sector_cylinder: u16,
    pub start_lba: u32,
    pub sectors_limit: u32,
}

/// The partition-table entry stored at `off`.
pub open spec fn partition_entry_at(b: Seq<u8>, off: int) -> DiskPartitionTableEntry {
    DiskPartitionTableEntry {
        flags: b[off],
        start_head: b[off + 1],
        start_sector_cylinder: le16(b, off + 2) as u16,
        kind: b[off + 4],
        end_head: b[off + 5],
        end_sector_cylinder: le16(b, off + 6) as u16,
        start_lba: le32(b, off + 8) as u32,
        sectors_limit: le32(b, off + 12) as u32,
    }
}

impl DiskPartitionTableEntry {
    /// Reads the entry stored at `off`.
    pub fn from_bytes(b: &Vec<u8>, off: usize) -> (r: DiskPartitionTableEntry)
        requires
            off + 16 <= b@.len(),
        ensures
            r == partition_entry_at(b@, off as int),
    {
        let _len: usize = b.len();
        DiskPartitionTableEntry {
            flags: b[off],
            start_head: b[off + 1],
            start_sector_cylinder: read_u16(b, off + 2),
            kind: b[off + 4],
            end_head: b[off + 5],
            end_sector_cylinder: read_u16(b, off + 6),
            start_lba: read_u32(b, off + 8),
            sectors_limit: read_u32(b, off + 12),
        }
    }
}

/// The partition table held in a disk's first sector.
#[derive(Clone, Copy, Debug)]
pub struct DiskPartitionTable {
    pub reserved: [u8; 446],
    pub parts: [DiskPartitionTableEntry; 4],
    pub trail_sign: u16,
}

impl DiskPartitionTable {
    /// Reads the partition table from a disk's first sector.
    pub fn from_bytes(b: &Vec<u8>) -> (r: DiskPartitionTable)
        requires
            b@.len() == SECTOR_BYTES,
        ensures
            r.reserved@ == b@.subrange(0, 446),
            forall|i: int| 0 <= i < 4 ==> r.parts@[i] == partition_entry_at(b@, 446 + 16 * i),
            r.trail_sign == le16(b@, 510),
    {
        let reserved: [u8; 446] = read_array(b, 0);
        let first = DiskPartitionTableEntry::from_bytes(b, 446);
        let second = DiskPartitionTableEntry::from_bytes(b, 462);
        let third = DiskPartitionTableEntry::from_bytes(b, 478);
        let fourth = DiskPartitionTableEntry::from_bytes(b, 494);
        let parts: [DiskPartitionTableEntry; 4] = [first, second, third, fourth];
        assert(parts@[0] == first && parts@[1] == second && parts@[2] == third && parts@[3] == fourth);
        DiskPartitionTable { reserved, parts, trail_sign: read_u16(b, 510) }
    }
}

/// What a drive reports about itself in answer to IDENTIFY: 256 words.
#[derive(Clone, Copy, Debug)]
pub struct DiskIdentifyInfo {
    /// Word 0: general configuration bits.
    pub general_config: u16,
    /// Words 10..19: serial number, 20 ASCII characters.
    pub serial_number: [u8; 20],
    /// Words 23..26: firmware revision, 8 ASCII characters.
    pub firmware_version: [u8; 8],
    /// Words 27..46: model number, 40 ASCII characters.
    pub model_number: [u8; 40],
    /// Words 60..61: sectors addressable by 28-bit commands.
    pub addressable_logical_sectors_for_28: u32,
    /// Words 100..103: sectors addressable by 48-bit commands.
    pub total_user_lba_for_48_address_feature_set: u64,
    /// Word 255: integrity word.
    pub integrity_word: u16,
}

/// `r` holds the identify fields stored in `b`.
pub open spec fn identify_fields(r: DiskIdentifyInfo, b: Seq<u8>) -> bool {
    &&& r.general_config == le16(b, 0)
    &&& r.serial_number@ == b.subrange(20, 40)
    &&& r.firmware_version@ == b.subrange(46, 54)
    &&& r.model_number@ == b.subrange(54, 94)
    &&& r.addressable_logical_sectors_for_28 == le32(b, 120)
    &&& r.total_user_lba_for_48_address_feature_set == le64(b, 200)
    &&& r.integrity_word == le16(b, 510)
}

impl DiskIdentifyInfo {
    /// Reads the identify block from the 512 bytes that a drive sent.
    pub fn from_bytes(b: &Vec<u8>) -> (r: DiskIdentifyInfo)
        requires
            b@.len() == SECTOR_BYTES,
        ensures
            identify_fields(r, b@),
    {
        DiskIdentifyInfo {
            general_config: read_u16(b, 0),
            serial_number: read_array(b, 20),
            firmware_version: read_array(b, 46),
            model_number: read_array(b, 54),
            addressable_logical_sectors_for_28: read_u32(b, 120),
            total_user_lba_for_48_address_feature_set: read_u64(b, 200),
            integrity_word: read_u16(b, 510),
        }
    }
}

/// A probed disk: its kind, its driver, what it reported, and its partition
/// table.
pub struct Disk<D: DiskDriver> {
    pub kind: DiskKind,
    pub driver: LoggedDisk<D>,
    pub info: DiskIdentifyInfo,
    pub partition: DiskPartitionTable,
}

/// `t` holds the partition table stored in the sector `b`.
pub open spec fn partition_table_fields(t: DiskPartitionTable, b: Seq<u8>) -> bool {
    &&& t.reserved@ == b.subrange(0, 446)
    &&& forall|i: int| 0 <= i < 4 ==> t.parts@[i] == partition_entry_at(b, 446 + 16 * i)
    &&& t.trail_sign == le16(b, 510)
}

impl<D: DiskDriver> Disk<D> {
    /// Bundles a disk from its parts.
    pub fn new(kind: DiskKind, driver: LoggedDisk<D>, info: DiskIdentifyInfo, partition: DiskPartitionTable) -> (r: Disk<D>)
        ensures
            r.kind == kind,
            r.driver == driver,
            r.info == info,
            r.partition == partition,
    {
        Disk { kind, driver, info, partition }
    }

    /// Probes a hard disk: identifies it, then reads sector 0, alone, and
    /// takes its partition table from the bytes that came back. A drive
    /// error stops the probe.
    pub fn probe(driver: D) -> (r: Result<Disk<D>, DriveError>)
        ensures
            r is Ok ==> ({
                let d = r->Ok_0;
                &&& d.kind == DiskKind::HardDisk
                &&& d.driver.writes@.len() == 0
                &&& d.driver.reads@.len() == 1
                &&& d.driver.reads@[0].0 == 0
                &&& d.driver.reads@[0].1.len() == SECTOR_BYTES
                &&& partition_table_fields(d.partition, d.driver.reads@[0].1)
            }),
    {
        let mut disk = LoggedDisk::new(driver);
        let info = match disk.init() {
            Ok(info) => info,
            Err(e) => return Err(e),
        };
        let mut data: Vec<u8> = vec![0u8; SECTOR_BYTES];
        match disk.read(0, 1, &mut data) {
            Ok(()) => {},
            Err(e) => return Err(e),
        }
        let partition = DiskPartitionTable::from_bytes(&data);
        Ok(Disk::new(DiskKind::HardDisk, disk, info, partition))
    }
}

} // verus!
