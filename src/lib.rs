//! Storage layer of a small kernel: a polled ATA/IDE drive driver beneath a
//! FAT16 volume reader, together with the kernel's small pure helpers
//! (screen geometry and colours, line octants, a ring buffer, PS/2 mouse
//! packet decoding and page-table keys).

pub mod bytes;
pub mod datetime;
pub mod short_name;
pub mod disk;
pub mod ata;
pub mod fs_error;
pub mod boot_sector;
pub mod fat_table;
pub mod directory;
pub mod graphics;
pub mod octant;
pub mod ring_buffer;
pub mod mouse;
pub mod page_key;
