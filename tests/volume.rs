use os64::boot_sector::Fat16BootSector;
use os64::directory::{FAT16SuperBlock, DIRECTORY_NONE};
use os64::disk::{DiskDriver, DiskIdentifyInfo, DriveError, FileSystemKind, LoggedDisk};
use os64::fat_table::FAT16Fats;
use os64::fs_error::FsError;

/// A disk held in memory.
struct MemDisk {
    bytes: Vec<u8>,
    reads: usize,
}

impl DiskDriver for MemDisk {
    fn init(&mut self) -> Result<DiskIdentifyInfo, DriveError> {
        Ok(DiskIdentifyInfo::from_bytes(&vec![0u8; 512]))
    }

    fn read(&mut self, sector: u64, count: usize, data: &mut Vec<u8>) -> Result<(), DriveError> {
        self.reads += 1;
        let start = sector as usize * 512;
        let end = start + count * 512;
        if end > self.bytes.len() {
            return Err(DriveError::AddressOutOfRange);
        }
        data.copy_from_slice(&self.bytes[start..end]);
        Ok(())
    }

    fn write(&mut self, sector: u64, count: usize, data: &Vec<u8>) -> Result<(), DriveError> {
        let start = sector as usize * 512;
        let end = start + count * 512;
        if end > self.bytes.len() {
            return Err(DriveError::AddressOutOfRange);
        }
        self.bytes[start..end].copy_from_slice(data);
        Ok(())
    }
}

/// A disk whose every read fails.
struct BrokenDisk;

impl DiskDriver for BrokenDisk {
    fn init(&mut self) -> Result<DiskIdentifyInfo, DriveError> {
        Err(DriveError::NoDevice)
    }

    fn read(&mut self, _sector: u64, _count: usize, _data: &mut Vec<u8>) -> Result<(), DriveError> {
        Err(DriveError::DeviceFault)
    }

    fn write(&mut self, _sector: u64, _count: usize, _data: &Vec<u8>) -> Result<(), DriveError> {
        Err(DriveError::DeviceFault)
    }
}

fn put16(b: &mut [u8], off: usize, v: u16) {
    b[off] = v as u8;
    b[off + 1] = (v >> 8) as u8;
}

fn put32(b: &mut [u8], off: usize, v: u32) {
    put16(b, off, v as u16);
    put16(b, off + 2, (v >> 16) as u16);
}

fn boot_sector_bytes() -> Vec<u8> {
    let mut b = vec![0u8; 512];
    b[0] = 0xEB;
    b[1] = 0x3C;
    b[2] = 0x90;
    b[3..11].copy_from_slice(b"OS64    ");
    put16(&mut b, 11, 512);
    b[13] = 1;
    put16(&mut b, 14, 1);
    b[16] = 2;
    put16(&mut b, 17, 224);
    put16(&mut b, 19, 2304);
    b[21] = 0xF8;
    put16(&mut b, 22, 9);
    put16(&mut b, 24, 18);
    put16(&mut b, 26, 2);
    b[38] = 0x29;
    put32(&mut b, 39, 0x1234_5678);
    b[43..54].copy_from_slice(b"OS64       ");
    b[54..62].copy_from_slice(b"FAT16   ");
    b[510] = 0x55;
    b[511] = 0xAA;
    b
}

/// A FAT16 volume: 512-byte sectors, one sector per cluster, one reserved
/// sector, two tables of nine sectors, 224 root entries; the root holds
/// `FIRSTAPP` at cluster 2 with 11 bytes, `HELLO WORLD`.
fn hello_image() -> Vec<u8> {
    let mut img = vec![0u8; 2304 * 512];
    img[0..512].copy_from_slice(&boot_sector_bytes());
    for copy in 0..2 {
        let fat = (1 + copy * 9) * 512;
        put16(&mut img, fat, 0xFFF8);
        put16(&mut img, fat + 2, 0xFFFF);
        put16(&mut img, fat + 4, 0xFFFF);
    }
    let root = 19 * 512;
    // a long-name entry first, then the short-name entry
    img[root..root + 11].copy_from_slice(b"Afirstapp  ");
    img[root + 11] = 0x0F;
    let e = root + 32;
    img[e..e + 11].copy_from_slice(b"FIRSTAPP   ");
    img[e + 11] = 0x20;
    put16(&mut img, e + 26, 2);
    put32(&mut img, e + 28, 11);
    let data = 33 * 512;
    img[data..data + 11].copy_from_slice(b"HELLO WORLD");
    img
}

#[test]
fn end_to_end_reads_hello_world() {
    let mut disk = LoggedDisk::new(MemDisk { bytes: hello_image(), reads: 0 });
    let sb = FAT16SuperBlock::super_block(&mut disk).expect("mount");
    assert_eq!(sb.clusters_count, 2304);
    assert_eq!(sb.cluster2_sector_index, 33);
    let root = sb.get_root();
    assert_eq!(root.bytes, 14 * 512);
    let nodes = root.find_children(b"FIRSTAPP   ", DIRECTORY_NONE);
    assert_eq!(nodes.len(), 1);
    assert_eq!(nodes[0].index, 1);
    assert_eq!(nodes[0].longname_indexes, vec![0usize]);
    let node = nodes[0].clone();
    let file = root.open_file(&sb, node).expect("open");
    assert_eq!(file.indexes, vec![2u16, 0xFFFF]);
    assert_eq!(file.item.file_size, 11);
    let bytes = file.read_all_bytes(&sb, &mut disk).expect("read");
    assert_eq!(bytes, b"HELLO WORLD".to_vec());
}

#[test]
fn find_children_misses_unknown_name_and_attribute() {
    let mut disk = LoggedDisk::new(MemDisk { bytes: hello_image(), reads: 0 });
    let sb = FAT16SuperBlock::super_block(&mut disk).expect("mount");
    assert!(sb.root.find_children(b"MISSING    ", DIRECTORY_NONE).is_empty());
    assert!(sb.root.find_children(b"FIRSTAPP   ", 0x10).is_empty());
    assert_eq!(sb.root.find_children(b"FIRSTAPP   ", 0x20).len(), 1);
}

#[test]
fn multi_cluster_file_reads_whole_chain() {
    let mut img = hello_image();
    // FIRSTAPP now spans clusters 2 -> 5 -> 3, 1100 bytes
    for copy in 0..2 {
        let fat = (1 + copy * 9) * 512;
        put16(&mut img, fat + 4, 5);
        put16(&mut img, fat + 10, 3);
        put16(&mut img, fat + 6, 0xFFFF);
    }
    put32(&mut img, 19 * 512 + 32 + 28, 1100);
    for i in 0..512 {
        img[(33 + 0) * 512 + i] = 1;
        img[(33 + 3) * 512 + i] = 2;
        img[(33 + 1) * 512 + i] = 3;
    }
    let mut disk = LoggedDisk::new(MemDisk { bytes: img, reads: 0 });
    let sb = FAT16SuperBlock::super_block(&mut disk).expect("mount");
    let nodes = sb.root.find_children(b"FIRSTAPP   ", DIRECTORY_NONE);
    let file = sb.root.open_file(&sb, nodes[0].clone()).expect("open");
    assert_eq!(file.indexes, vec![2u16, 5, 3, 0xFFFF]);
    let bytes = file.read_all_bytes(&sb, &mut disk).expect("read");
    assert_eq!(bytes.len(), 1100);
    assert!(bytes[..512].iter().all(|&b| b == 1));
    assert!(bytes[512..1024].iter().all(|&b| b == 2));
    assert!(bytes[1024..].iter().all(|&b| b == 3));
}

#[test]
fn short_chain_is_reported_before_reading() {
    let mut img = hello_image();
    put32(&mut img, 19 * 512 + 32 + 28, 600);
    let mut disk = LoggedDisk::new(MemDisk { bytes: img, reads: 0 });
    let sb = FAT16SuperBlock::super_block(&mut disk).expect("mount");
    let nodes = sb.root.find_children(b"FIRSTAPP   ", DIRECTORY_NONE);
    let file = sb.root.open_file(&sb, nodes[0].clone()).expect("open");
    let before = disk.disk.reads;
    assert_eq!(file.read_all_bytes(&sb, &mut disk), Err(FsError::ChainTooShort));
    assert_eq!(disk.disk.reads, before);
}

#[test]
fn boot_sector_without_signature_is_rejected() {
    let mut b = boot_sector_bytes();
    b[510] = 0x00;
    b[511] = 0x00;
    assert_eq!(Fat16BootSector::from_bytes(&b).err(), Some(FsError::InvalidBootSector));
    let mut img = hello_image();
    img[511] = 0x55;
    img[510] = 0xAA;
    let mut disk = LoggedDisk::new(MemDisk { bytes: img, reads: 0 });
    assert_eq!(FAT16SuperBlock::super_block(&mut disk).err(), Some(FsError::InvalidBootSector));
    assert_eq!(disk.disk.reads, 1);
}

#[test]
fn boot_sector_fields_are_read_at_their_offsets() {
    let bs = Fat16BootSector::from_bytes(&boot_sector_bytes()).expect("parse");
    assert_eq!(bs.bytes_per_sector, 512);
    assert_eq!(bs.sectors_per_cluster, 1);
    assert_eq!(bs.reserved_sectors, 1);
    assert_eq!(bs.fats, 2);
    assert_eq!(bs.root_entries, 224);
    assert_eq!(bs.sectors_per_fat, 9);
    assert_eq!(bs.media, 0xF8);
    assert_eq!(bs.volume_id, 0x1234_5678);
    assert_eq!(&bs.file_system_type, b"FAT16   ");
    assert_eq!(bs.get_totel_sectors(), 2304);
    assert_eq!(bs.get_sector_index(2), 33);
    assert_eq!(bs.get_sector_index(10), 41);
}

#[test]
fn total_sectors_falls_back_to_32_bit_field() {
    let mut b = boot_sector_bytes();
    put16(&mut b, 19, 0);
    put32(&mut b, 32, 70000);
    let bs = Fat16BootSector::from_bytes(&b).expect("parse");
    assert_eq!(bs.get_totel_sectors(), 70000);
}

#[test]
fn zero_sector_size_is_invalid_geometry() {
    let mut b = boot_sector_bytes();
    put16(&mut b, 11, 0);
    assert_eq!(Fat16BootSector::from_bytes(&b).err(), Some(FsError::InvalidGeometry));
}

#[test]
fn sector_index_grows_with_cluster() {
    let bs = Fat16BootSector::from_bytes(&boot_sector_bytes()).expect("parse");
    let mut prev = bs.get_sector_index(2);
    for c in 3..2306 {
        let s = bs.get_sector_index(c);
        assert!(s > prev);
        prev = s;
    }
}

#[test]
fn fat12_geometry_is_unsupported() {
    let mut b = boot_sector_bytes();
    put16(&mut b, 19, 2880);
    let bs = Fat16BootSector::from_bytes(&b).expect("parse");
    assert_eq!(FAT16Fats::new(&bs).err(), Some(FsError::UnsupportedFatWidth));
}

#[test]
fn drive_error_fails_mount_with_io() {
    let mut disk = LoggedDisk::new(BrokenDisk);
    assert_eq!(
        FAT16SuperBlock::super_block(&mut disk).err(),
        Some(FsError::Io(DriveError::DeviceFault))
    );
}

#[test]
fn flush_writes_tables_back() {
    let mut disk = LoggedDisk::new(MemDisk { bytes: hello_image(), reads: 0 });
    let mut sb = FAT16SuperBlock::super_block(&mut disk).expect("mount");
    sb.fats.data[7] = 0x1234;
    sb.write(&mut disk).expect("flush");
    assert_eq!(disk.disk.bytes[512 + 14], 0x34);
    assert_eq!(disk.disk.bytes[512 + 15], 0x12);
}

fn table(entries: &[(usize, u16)], len: usize, total: usize) -> FAT16Fats {
    let mut data = vec![0u16; len];
    data[0] = 0xFFF8;
    data[1] = 0xFFFF;
    for &(i, v) in entries {
        data[i] = v;
    }
    FAT16Fats {
        data,
        start_sector_index: 1,
        fat_count: 2,
        sectors_per_fat: 9,
        bytes_per_sector: 512,
        total_clusters: total,
    }
}

#[test]
fn sequential_chain_is_followed_to_its_end() {
    let n = 40usize;
    let mut entries = Vec::new();
    for k in 2..n {
        entries.push((k, (k + 1) as u16));
    }
    entries.push((n, 0xFFFF));
    let fats = table(&entries, 256, 200);
    let mut expected: Vec<u16> = (2..=n as u16).collect();
    expected.push(0xFFFF);
    assert_eq!(fats.get_all_clusters(2), Ok(expected));
}

#[test]
fn cyclic_chain_is_corrupt() {
    let fats = table(&[(2, 3), (3, 2)], 256, 200);
    assert_eq!(fats.get_all_clusters(2), Err(FsError::ChainCorrupted));
}

#[test]
fn chain_through_reserved_or_outside_cluster_is_corrupt() {
    let fats = table(&[(2, 1)], 256, 200);
    assert_eq!(fats.get_all_clusters(2), Err(FsError::ChainCorrupted));
    let fats = table(&[(2, 250)], 256, 200);
    assert_eq!(fats.get_all_clusters(2), Err(FsError::ChainCorrupted));
    let fats = table(&[], 256, 200);
    assert_eq!(fats.get_all_clusters(0), Err(FsError::ChainCorrupted));
    let fats = table(&[(2, 0xFFF7)], 256, 200);
    assert_eq!(fats.get_all_clusters(2), Err(FsError::ChainCorrupted));
}

#[test]
fn free_entries_clears_the_chain_only() {
    let mut fats = table(&[(2, 4), (4, 6), (6, 0xFFFF), (3, 0xFFFF)], 16, 10);
    assert_eq!(fats.free_entries(2), Ok(()));
    assert_eq!(fats.data[2], 0);
    assert_eq!(fats.data[4], 0);
    assert_eq!(fats.data[6], 0);
    assert_eq!(fats.data[3], 0xFFFF);
    assert_eq!(fats.data[0], 0xFFF8);
    assert_eq!(fats.data[1], 0xFFFF);
    let mut bad = table(&[(2, 3), (3, 2)], 16, 10);
    assert_eq!(bad.free_entries(2), Err(FsError::ChainCorrupted));
    assert_eq!(bad.data[2], 3);
}

#[test]
fn alloc_clusters_extends_chain_with_first_free() {
    let mut fats = table(&[(2, 4), (4, 0xFFFF), (5, 0xFFFF), (6, 0xFFF7)], 16, 12);
    let chain = fats.alloc_clusters(2, 2).expect("alloc");
    assert_eq!(chain, vec![2u16, 4, 7, 8, 0xFFFF]);
    assert_eq!(fats.data[4], 7);
    assert_eq!(fats.data[7], 8);
    assert_eq!(fats.data[8], 0xFFFF);
    assert_eq!(fats.data[3], 0);
    assert_eq!(fats.data[0], 0xFFF8);
    assert_eq!(fats.data[1], 0xFFFF);
    assert_eq!(fats.get_all_clusters(2), Ok(chain));
}

#[test]
fn alloc_clusters_without_room_changes_nothing() {
    let mut fats = table(&[(2, 3), (3, 0xFFFF), (4, 0xFFFF)], 8, 4);
    let before = fats.data.clone();
    assert_eq!(fats.alloc_clusters(2, 3), Err(FsError::NoFreeCluster));
    assert_eq!(fats.data, before);
    assert_eq!(fats.alloc_clusters(2, 0), Ok(vec![2u16, 3, 0xFFFF]));
    let mut bad = table(&[(2, 3), (3, 2)], 8, 4);
    assert_eq!(bad.alloc_clusters(2, 1), Err(FsError::ChainCorrupted));
}

#[test]
fn index_node_reports_its_entry() {
    let mut img = hello_image();
    let e = 19 * 512 + 32;
    img[e + 8..e + 11].copy_from_slice(b"BIN");
    put16(&mut img, e + 22, (13 << 11) | (45 << 5) | 15);
    put16(&mut img, e + 24, (43 << 9) | (6 << 5) | 1);
    let mut disk = LoggedDisk::new(MemDisk { bytes: img, reads: 0 });
    let sb = FAT16SuperBlock::super_block(&mut disk).expect("mount");
    let mut node = sb.root.find_children(b"FIRSTAPPBIN", DIRECTORY_NONE).remove(0);
    assert_eq!(node.get_name(), "FIRSTAPP.BIN");
    assert_eq!(node.get_size(), 11);
    assert_eq!(node.get_attribute(), 0x20);
    assert_eq!(node.get_parent(), 0);
    let dt = node.get_write_datetime();
    assert_eq!((dt.0 .0, dt.0 .1, dt.0 .2), (2023, 6, 1));
    assert_eq!((dt.1 .0, dt.1 .1, dt.1 .2), (13, 45, 30));
    node.set_attribute(0x121);
    assert_eq!(node.get_attribute(), 0x21);
}

#[test]
fn file_reads_in_pieces_from_its_position() {
    let mut disk = LoggedDisk::new(MemDisk { bytes: hello_image(), reads: 0 });
    let sb = FAT16SuperBlock::super_block(&mut disk).expect("mount");
    let node = sb.root.find_children(b"FIRSTAPP   ", DIRECTORY_NONE).remove(0);
    let mut file = sb.root.open_file(&sb, node).expect("open");
    assert_eq!(file.read(&sb, &mut disk, 5), Ok(b"HELLO".to_vec()));
    assert_eq!(file.get_position(), 5);
    assert_eq!(file.read(&sb, &mut disk, 100), Ok(b" WORLD".to_vec()));
    assert_eq!(file.read(&sb, &mut disk, 100), Ok(Vec::new()));
    file.set_position(6);
    assert_eq!(file.read(&sb, &mut disk, 3), Ok(b"WOR".to_vec()));
    file.set_position(50);
    assert_eq!(file.get_position(), 11);
    assert_eq!(file.get_index_node().index, 1);
}

#[test]
fn partition_type_codes() {
    assert_eq!(FileSystemKind::from_code(0x06), Some(FileSystemKind::Fat16_V2));
    assert_eq!(FileSystemKind::from_code(0x0C), Some(FileSystemKind::Fat32));
    assert_eq!(FileSystemKind::from_code(0x83), None);
    assert_eq!(FileSystemKind::Fat16.code(), 0x0A);
}

#[test]
fn alloc_clusters_can_use_last_cluster() {
    // three clusters, 2 ..= 4: cluster 3 is in use, cluster 4 is free
    let mut fats = table(&[(2, 0xFFFF), (3, 0xFFFF)], 16, 3);
    assert_eq!(fats.alloc_clusters(2, 1), Ok(vec![2u16, 4, 0xFFFF]));
    assert_eq!(fats.alloc_clusters(2, 1), Err(FsError::NoFreeCluster));
}
