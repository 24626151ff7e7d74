//! Failures of the FAT volume layer.
use vstd::prelude::*;
use crate::disk::DriveError;

verus! {

/// Why a volume operation failed.
#[derive(Clone, Copy, Debug, PartialEq, Eq, Structural)]
pub enum FsError {
    /// The boot sector does not end in the `0x55 0xAA` signature.
    InvalidBootSector,
    /// The boot sector's geometry cannot describe a volume.
    InvalidGeometry,
    /// The allocation table does not hold 16-bit entries.
    UnsupportedFatWidth,
    /// The drive failed.
    Io(DriveError),
    /// A cluster chain leaves the volume or runs in a cycle.
    ChainCorrupted,
    /// A cluster chain is too short for the size its entry records.
    ChainTooShort,
    /// The volume has too few free clusters.
    NoFreeCluster,
}

} // verus!
