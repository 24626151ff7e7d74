//! The volume boot sector: the geometry of a FAT volume, stored in its first
//! 512 bytes.
use vstd::prelude::*;
use crate::bytes::{le16, le32, read_array, read_u16, read_u32};
use crate::disk::SECTOR_BYTES;
use crate::fs_error::FsError;

verus! {

/// The signature that ends a boot sector (`0x55 0xAA` on disk).
pub const BOOT_SIGNATURE: u16 = 0xAA55;

/// Bytes in one directory entry.
pub const DIRECTORY_ITEM_BYTES: usize = 32;

/// The boot sector of a FAT12 or FAT16 volume.
#[derive(Clone, Copy, Debug)]
pub struct Fat16BootSector {
    pub jmp_boot: [u8; 3],
    pub oem_name: [u8; 8],
    pub bytes_per_sector: u16,
    pub sectors_per_cluster: u8,
    pub reserved_sectors: u16,
    pub fats: u8,
    pub root_entries: u16,
    /// Total sectors, or 0 when `totel_sectors` holds the count.
    pub totel_sectors_u16: u16,
    pub media: u8,
    pub sectors_per_fat: u16,
    pub sectors_per_track: u16,
    pub heads: u16,
    pub hidden_sectors: u32,
    pub totel_sectors: u32,
    pub drviver_number: u8,
    pub reserved1: u8,
    pub boot_sign: u8,
    pub volume_id: u32,
    pub volume_label: [u8; 11],
    pub file_system_type: [u8; 8],
    pub boot_code: [u8; 448],
    pub magic: u16,
}

/// The boot sector of a FAT32 volume.
#[derive(Clone, Copy, Debug)]
pub struct Fat32BootSector {
    pub jmp_boot: [u8; 3],
    pub oem_name: [u8; 8],
    pub bytes_per_sector: u16,
    pub sectors_per_cluster: u8,
    pub reserved_sectors: u16,
    pub fats: u8,
    pub root_entries: u16,
    pub total_sectors_u16: u16,
    pub media: u8,
    pub sectors_per_fat_u16: u16,
    pub sectors_per_track: u16,
    pub heads: u16,
    pub hidden_sectors: u32,
    pub totel_sectors: u32,
    pub sectors_per_fat: u32,
    pub extended_flags: u16,
    pub file_system_version: u16,
    pub root_cluster: u32,
    pub fs_info_sector: u16,
    pub boot_sector_backup: u16,
    pub reserved: [u8; 12],
    pub drviver_number: u8,
    pub reserved1: u8,
    pub boot_sign: u8,
    pub volume_id: u32,
    pub volume_label: [u8; 11],
    pub file_system_type: [u8; 8],
    pub boot_code: [u8; 420],
    pub magic: u16,
}

/// The boot sector holds the signature in its last two bytes.
pub open spec fn has_boot_signature(b: Seq<u8>) -> bool {
    le16(b, 510) == BOOT_SIGNATURE
}

/// The geometry can be divided by: sectors and clusters are not empty.
pub open spec fn sane_geometry(b: Seq<u8>) -> bool {
    le16(b, 11) != 0 && b[13] != 0
}

/// `r` holds the FAT16 fields stored in `b`, at their fixed offsets.
pub open spec fn fat16_fields(r: Fat16BootSector, b: Seq<u8>) -> bool {
    &&& r.jmp_boot@ == b.subrange(0, 3)
    &&& r.oem_name@ == b.subrange(3, 11)
    &&& r.bytes_per_sector == le16(b, 11)
    &&& r.sectors_per_cluster == b[13]
    &&& r.reserved_sectors == le16(b, 14)
    &&& r.fats == b[16]
    &&& r.root_entries == le16(b, 17)
    &&& r.totel_sectors_u16 == le16(b, 19)
    &&& r.media == b[21]
    &&& r.sectors_per_fat == le16(b, 22)
    &&& r.sectors_per_track == le16(b, 24)
    &&& r.heads == le16(b, 26)
    &&& r.hidden_sectors == le32(b, 28)
    &&& r.totel_sectors == le32(b, 32)
    &&& r.drviver_number == b[36]
    &&& r.reserved1 == b[37]
    &&& r.boot_sign == b[38]
    &&& r.volume_id == le32(b, 39)
    &&& r.volume_label@ == b.subrange(43, 54)
    &&& r.file_system_type@ == b.subrange(54, 62)
    &&& r.boot_code@ == b.subrange(62, 510)
    &&& r.magic == le16(b, 510)
}

/// `r` holds the FAT32 fields stored in `b`, at their fixed offsets.
pub open spec fn fat32_fields(r: Fat32BootSector, b: Seq<u8>) -> bool {
    &&& r.jmp_boot@ == b.subrange(0, 3)
    &&& r.oem_name@ == b.subrange(3, 11)
    &&& r.bytes_per_sector == le16(b, 11)
    &&& r.sectors_per_cluster == b[13]
    &&& r.reserved_sectors == le16(b, 14)
    &&& r.fats == b[16]
    &&& r.root_entries == le16(b, 17)
    &&& r.total_sectors_u16 == le16(b, 19)
    &&& r.media == b[21]
    &&& r.sectors_per_fat_u16 == le16(b, 22)
    &&& r.sectors_per_track == le16(b, 24)
    &&& r.heads == le16(b, 26)
    &&& r.hidden_sectors == le32(b, 28)
    &&& r.totel_sectors == le32(b, 32)
    &&& r.sectors_per_fat == le32(b, 36)
    &&& r.extended_flags == le16(b, 40)
    &&& r.file_system_version == le16(b, 42)
    &&& r.root_cluster == le32(b, 44)
    &&& r.fs_info_sector == le16(b, 48)
    &&& r.boot_sector_backup == le16(b, 50)
    &&& r.reserved@ == b.subrange(52, 64)
    &&& r.drviver_number == b[64]
    &&& r.reserved1 == b[65]
    &&& r.boot_sign == b[66]
    &&& r.volume_id == le32(b, 67)
    &&& r.volume_label@ == b.subrange(71, 82)
    &&& r.file_system_type@ == b.subrange(82, 90)
    &&& r.boot_code@ == b.subrange(90, 510)
    &&& r.magic == le16(b, 510)
}

/// The total sector count: the 32-bit field when the 16-bit one is zero.
pub open spec fn total_sectors_of(bs: Fat16BootSector) -> int {
    if bs.totel_sectors_u16 == 0 {
        bs.totel_sectors as int
    } else {
        bs.totel_sectors_u16 as int
    }
}

/// Sectors taken by the root directory.
pub open spec fn root_dir_sectors(bs: Fat16BootSector) -> int {
    (bs.root_entries * 32) / (bs.bytes_per_sector as int)
}

/// The first sector of the root directory.
pub open spec fn root_dir_start(bs: Fat16BootSector) -> int {
    bs.reserved_sectors + bs.fats * bs.sectors_per_fat
}

/// The first sector of a data cluster.
pub open spec fn sector_index_of(bs: Fat16BootSector, cluster: int) -> int {
    bs.hidden_sectors + bs.reserved_sectors + bs.fats * bs.sectors_per_fat + root_dir_sectors(bs)
        + (cluster - 2) * bs.sectors_per_cluster
}

impl Fat16BootSector {
    /// Reads the boot sector of a FAT16 volume from its first sector.
    /// Fails with `InvalidBootSector` when the signature is missing, before
    /// any geometry is looked at, and with `InvalidGeometry` when the sector
    /// or cluster size is zero.
    pub fn from_bytes(b: &Vec<u8>) -> (r: Result<Fat16BootSector, FsError>)
        requires
            b@.len() == SECTOR_BYTES,
        ensures
            !has_boot_signature(b@) ==> r == Err::<Fat16BootSector, FsError>(FsError::InvalidBootSector),
            has_boot_signature(b@) && !sane_geometry(b@) ==> r == Err::<Fat16BootSector, FsError>(
                FsError::InvalidGeometry,
            ),
            has_boot_signature(b@) && sane_geometry(b@) ==> r is Ok && fat16_fields(r->Ok_0, b@),
    {
        let magic: u16 = read_u16(b, 510);
        if magic != BOOT_SIGNATURE {
            return Err(FsError::InvalidBootSector);
        }
        let bytes_per_sector: u16 = read_u16(b, 11);
        if bytes_per_sector == 0 || b[13] == 0 {
            return Err(FsError::InvalidGeometry);
        }
        Ok(Fat16BootSector {
            jmp_boot: read_array(b, 0),
            oem_name: read_array(b, 3),
            bytes_per_sector,
            sectors_per_cluster: b[13],
            reserved_sectors: read_u16(b, 14),
            fats: b[16],
            root_entries: read_u16(b, 17),
            totel_sectors_u16: read_u16(b, 19),
            media: b[21],
            sectors_per_fat: read_u16(b, 22),
            sectors_per_track: read_u16(b, 24),
            heads: read_u16(b, 26),
            hidden_sectors: read_u32(b, 28),
            totel_sectors: read_u32(b, 32),
            drviver_number: b[36],
            reserved1: b[37],
            boot_sign: b[38],
            volume_id: read_u32(b, 39),
            volume_label: read_array(b, 43),
            file_system_type: read_array(b, 54),
            boot_code: read_array(b, 62),
            magic,
        })
    }

    /// The total number of sectors of the volume.
    pub fn get_totel_sectors(&self) -> (r: usize)
        ensures
            r == total_sectors_of(*self),
    {
        if self.totel_sectors_u16 == 0 {
            self.totel_sectors as usize
        } else {
            self.totel_sectors_u16 as usize
        }
    }

    /// The first sector of data cluster `cluster_index`.
    pub fn get_sector_index(&self, cluster_index: usize) -> (r: usize)
        requires
            cluster_index >= 2,
            self.bytes_per_sector > 0,
            sector_index_of(*self, cluster_index as int) <= usize::MAX,
        ensures
            r == sector_index_of(*self, cluster_index as int),
    {
        let fat_sectors: usize = self.fats as usize * self.sectors_per_fat as usize;
        let root_sectors: usize = self.root_entries as usize * DIRECTORY_ITEM_BYTES
            / self.bytes_per_sector as usize;
        let cluster_offset: usize = (cluster_index - 2) * self.sectors_per_cluster as usize;
        assert(root_sectors == root_dir_sectors(*self));
        self.hidden_sectors as usize + self.reserved_sectors as usize + fat_sectors + root_sectors
            + cluster_offset
    }
}

impl Fat16BootSector {
    /// The first sector of data cluster `cluster`, as a disk address.
    pub fn cluster_sector(&self, cluster: u16) -> (r: u64)
        requires
            cluster >= 2,
            self.bytes_per_sector > 0,
        ensures
            r == sector_index_of(*self, cluster as int),
            r < 0x2_0000_0000,
    {
        assert(self.fats * self.sectors_per_fat <= 255 * 65535) by (nonlinear_arith)
            requires self.fats <= 255, self.sectors_per_fat <= 65535;
        assert((cluster - 2) * self.sectors_per_cluster <= 65535 * 255) by (nonlinear_arith)
            requires cluster <= 65535, cluster >= 2, self.sectors_per_cluster <= 255;
        let fat_sectors: u64 = self.fats as u64 * self.sectors_per_fat as u64;
        let root_sectors: u64 = self.root_entries as u64 * 32 / self.bytes_per_sector as u64;
        let cluster_offset: u64 = (cluster as u64 - 2) * self.sectors_per_cluster as u64;
        assert(root_sectors <= 65535 * 32) by (nonlinear_arith)
            requires root_sectors == self.root_entries * 32 / (self.bytes_per_sector as int),
                self.bytes_per_sector >= 1, self.root_entries <= 65535;
        assert(root_sectors == root_dir_sectors(*self));
        self.hidden_sectors as u64 + self.reserved_sectors as u64 + fat_sectors + root_sectors + cluster_offset
    }
}

impl Fat32BootSector {
    /// Reads the boot sector of a FAT32 volume from its first sector, with
    /// the same checks as the FAT16 form.
    pub fn from_bytes(b: &Vec<u8>) -> (r: Result<Fat32BootSector, FsError>)
        requires
            b@.len() == SECTOR_BYTES,
        ensures
            !has_boot_signature(b@) ==> r == Err::<Fat32BootSector, FsError>(FsError::InvalidBootSector),
            has_boot_signature(b@) && !sane_geometry(b@) ==> r == Err::<Fat32BootSector, FsError>(
                FsError::InvalidGeometry,
            ),
            has_boot_signature(b@) && sane_geometry(b@) ==> r is Ok && fat32_fields(r->Ok_0, b@),
    {
        let magic: u16 = read_u16(b, 510);
        if magic != BOOT_SIGNATURE {
            return Err(FsError::InvalidBootSector);
        }
        let bytes_per_sector: u16 = read_u16(b, 11);
        if bytes_per_sector == 0 || b[13] == 0 {
            return Err(FsError::InvalidGeometry);
        }
        Ok(Fat32BootSector {
            jmp_boot: read_array(b, 0),
            oem_name: read_array(b, 3),
            bytes_per_sector,
            sectors_per_cluster: b[13],
            reserved_sectors: read_u16(b, 14),
            fats: b[16],
            root_entries: read_u16(b, 17),
            total_sectors_u16: read_u16(b, 19),
            media: b[21],
            sectors_per_fat_u16: read_u16(b, 22),
            sectors_per_track: read_u16(b, 24),
            heads: read_u16(b, 26),
            hidden_sectors: read_u32(b, 28),
            totel_sectors: read_u32(b, 32),
            sectors_per_fat: read_u32(b, 36),
            extended_flags: read_u16(b, 40),
            file_system_version: read_u16(b, 42),
            root_cluster: read_u32(b, 44),
            fs_info_sector: read_u16(b, 48),
            boot_sector_backup: read_u16(b, 50),
            reserved: read_array(b, 52),
            drviver_number: b[64],
            reserved1: b[65],
            boot_sign: b[66],
            volume_id: read_u32(b, 67),
            volume_label: read_array(b, 71),
            file_system_type: read_array(b, 82),
            boot_code: read_array(b, 90),
            magic,
        })
    }
}

/// Data clusters come in disk order: a higher cluster number starts at a
/// higher sector.
pub proof fn lemma_sector_index_monotonic(bs: Fat16BootSector, c1: int, c2: int)
    requires
        bs.sectors_per_cluster > 0,
        2 <= c1 < c2,
    ensures
        sector_index_of(bs, c1) < sector_index_of(bs, c2),
{
    let spc = bs.sectors_per_cluster as int;
    assert((c1 - 2) * spc < (c2 - 2) * spc) by (nonlinear_arith)
        requires
            spc > 0,
            2 <= c1 < c2,
    ;
}

} // verus!
