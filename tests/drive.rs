use os64::ata::{IdeDisk, IdeDiskDriver, PortIo, ATA_MAX_POLLS};
use os64::disk::{read_sectors, Disk, DiskDriver, DiskKind, DriveError, LoggedDisk};
use os64::mouse::{read_data, write_data, MouseError};

/// A drive simulated at the port level: `status` is what the status
/// register reads, `words` what the data port hands out in turn.
struct SimPorts {
    status: u8,
    script: Vec<u8>,
    status_reads: u64,
    words: Vec<u16>,
    next: usize,
    written: Vec<(u16, u8)>,
}

impl SimPorts {
    fn new(status: u8) -> SimPorts {
        SimPorts { status, script: Vec::new(), status_reads: 0, words: Vec::new(), next: 0, written: Vec::new() }
    }
}

impl PortIo for SimPorts {
    fn in_u8(&mut self, port: u16) -> u8 {
        if port & 0x7 == 7 {
            self.status_reads += 1;
            if !self.script.is_empty() {
                return self.script.remove(0);
            }
        }
        self.status
    }

    fn out_u8(&mut self, port: u16, value: u8) {
        self.written.push((port, value));
    }

    fn in_u16(&mut self, _port: u16) -> u16 {
        let w = if self.next < self.words.len() { self.words[self.next] } else { 0 };
        self.next += 1;
        w
    }

    fn out_u16(&mut self, _port: u16, _value: u16) {}
}

#[test]
fn busy_drive_times_out_on_read() {
    let mut disk = IdeDisk::new(1, SimPorts::new(0x80));
    let mut data = vec![0u8; 512];
    assert_eq!(disk.read(0, 1, &mut data), Err(DriveError::Timeout));
    assert_eq!(disk.ports.io.status_reads, ATA_MAX_POLLS as u64);
    assert_eq!(disk.ports.io.next, 0);
    assert!(disk.ports.io.written.is_empty());
}

#[test]
fn busy_drive_times_out_on_identify() {
    let mut disk = IdeDisk::new(0, SimPorts::new(0xD0));
    assert_eq!(disk.init().err(), Some(DriveError::Timeout));
    assert_eq!(disk.ports.io.next, 0);
}

#[test]
fn absent_drive_is_no_device() {
    let mut disk = IdeDisk::new(2, SimPorts::new(0x00));
    assert_eq!(disk.init().err(), Some(DriveError::NoDevice));
}

#[test]
fn error_status_is_device_fault() {
    let mut disk = IdeDisk::new(0, SimPorts::new(0x51));
    let mut data = vec![0u8; 1024];
    assert_eq!(disk.read(7, 2, &mut data), Err(DriveError::DeviceFault));
    let mut disk = IdeDisk::new(0, SimPorts::new(0x60));
    assert_eq!(disk.write(7, 1, &vec![0u8; 512]), Err(DriveError::DeviceFault));
}

#[test]
fn ready_drive_transfers_words_little_endian() {
    let mut ports = SimPorts::new(0x58);
    ports.words = (0..512u16).map(|i| 0x0100 * (i % 256) + i % 256).collect();
    ports.words[0] = 0xAA55;
    let mut disk = IdeDisk::new(3, ports);
    let mut data = vec![0u8; 1024];
    assert_eq!(disk.read(0x0123_4567, 2, &mut data), Ok(()));
    assert_eq!(data[0], 0x55);
    assert_eq!(data[1], 0xAA);
    assert_eq!(data[2], 1);
    assert_eq!(data[3], 1);
    assert_eq!(data[1022], 255);
    let w = &disk.ports.io.written;
    assert!(w.contains(&(0x170 + 2, 2)));
    assert!(w.contains(&(0x170 + 3, 0x67)));
    assert!(w.contains(&(0x170 + 4, 0x45)));
    assert!(w.contains(&(0x170 + 5, 0x23)));
    assert!(w.contains(&(0x170 + 6, 0xE0 | 0x10 | 0x01)));
    assert!(w.contains(&(0x170 + 7, 0x20)));
}

#[test]
fn identify_reads_model_and_sizes() {
    let mut ports = SimPorts::new(0x58);
    let mut words = vec![0u16; 256];
    words[27] = u16::from_le_bytes(*b"QE");
    words[28] = u16::from_le_bytes(*b"MU");
    words[60] = 0x5678;
    words[61] = 0x0001;
    words[100] = 0x0002;
    ports.words = words;
    let mut disk = IdeDisk::new(0, ports);
    let info = disk.init().expect("identify");
    assert_eq!(&info.model_number[0..4], b"QEMU");
    assert_eq!(info.addressable_logical_sectors_for_28, 0x0001_5678);
    assert_eq!(info.total_user_lba_for_48_address_feature_set, 2);
}

#[test]
fn address_beyond_28_bits_is_refused() {
    let mut disk = IdeDisk::new(0, SimPorts::new(0x58));
    let mut data = vec![0u8; 512];
    assert_eq!(disk.read(0x1000_0000, 1, &mut data), Err(DriveError::AddressOutOfRange));
}

#[test]
fn device_register_selects_slave_and_high_lba() {
    assert_eq!(IdeDiskDriver::new(1).device_register(0x0F00_0000), 0xFF);
    assert_eq!(IdeDiskDriver::new(2).device_register(0), 0xE0);
    assert_eq!(IdeDiskDriver::new(2).port_base, 0x170);
    assert_eq!(IdeDiskDriver::new(0).port_control, 0x3F6);
}

#[test]
fn probe_reads_partition_table() {
    let mut ports = SimPorts::new(0x58);
    let mut words = vec![0u16; 512];
    // partition table entry 0 at byte 446: flags 0x80, kind 0x06, start 2048, 4096 sectors
    words[256 + 223] = 0x0080;
    words[256 + 225] = 0x0006;
    words[256 + 227] = 2048;
    words[256 + 229] = 4096;
    words[256 + 255] = 0xAA55;
    ports.words = words;
    let disk = Disk::probe(IdeDisk::new(0, ports)).expect("probe");
    assert_eq!(disk.kind, DiskKind::HardDisk);
    assert_eq!(disk.partition.parts[0].flags, 0x80);
    assert_eq!(disk.partition.parts[0].kind, 0x06);
    assert_eq!(disk.partition.parts[0].start_lba, 2048);
    assert_eq!(disk.partition.parts[0].sectors_limit, 4096);
    assert_eq!(disk.partition.trail_sign, 0xAA55);
}

#[test]
fn large_reads_are_split_into_chunks() {
    let mut ports = SimPorts::new(0x58);
    ports.words = (0..300 * 256).map(|i| (i / 256) as u16).collect();
    let mut disk = LoggedDisk::new(IdeDisk::new(0, ports));
    let data = read_sectors(&mut disk, 0, 300).expect("read");
    assert_eq!(data.len(), 300 * 512);
    assert_eq!(data[299 * 512], (299 % 256) as u8);
    assert_eq!(data[299 * 512 + 1], (299 / 256) as u8);
}

#[test]
fn mouse_controller_handshake() {
    // status 0x01: output full, input empty; every read answers 0x01
    let mut ports = SimPorts::new(0x01);
    let mouse = os64::mouse::init(&mut ports).expect("init");
    assert_eq!(mouse.current_packet, 0);
    assert!(ports.written.contains(&(0x64, 0x20)));
    assert!(ports.written.contains(&(0x64, 0x60)));
    assert!(ports.written.contains(&(0x60, 0x01 | 0x02)));
    assert!(ports.written.contains(&(0x60, 0xF6)));
    assert!(ports.written.contains(&(0x60, 0xF4)));
}

#[test]
fn mouse_controller_timeouts() {
    let mut empty = SimPorts::new(0x00);
    assert_eq!(read_data(&mut empty), Err(MouseError::ReadTimeout));
    let mut full = SimPorts::new(0x02);
    assert_eq!(write_data(&mut full, 1), Err(MouseError::WriteTimeout));
}

#[test]
fn error_on_second_sector_keeps_first() {
    let mut ports = SimPorts::new(0x58);
    // select waits once, the first sector's wait sees a clean status, the
    // second sector's wait sees an error
    ports.script = vec![0x50, 0x58, 0x51];
    ports.words = vec![0x1234; 512];
    let mut disk = IdeDisk::new(0, ports);
    let mut data = vec![0u8; 1024];
    assert_eq!(disk.read(5, 2, &mut data), Err(DriveError::DeviceFault));
    assert!(data[..512].chunks(2).all(|w| w == [0x34, 0x12]));
    assert!(data[512..].iter().all(|&b| b == 0));
    assert_eq!(disk.ports.io.next, 256);
}
