//! Mass-storage device classification read out of PCI configuration space.

use vstd::prelude::*;

verus! {

/// Subclass codes of the mass-storage device class.
#[derive(Clone, Copy, Debug, PartialEq, Eq, Structural)]
pub enum StorageSubclass {
    SCSI,
    IDE,
    Floppy,
    IPIBus,
    RAID,
    ATA,
    SATA,
    SerialAttachedSCSI,
    NonVolatileMemory,
    Other,
}

/// The subclass that a raw subclass byte denotes.
pub open spec fn storage_subclass_from_spec(value: u8) -> StorageSubclass {
    match value {
        0x0 => StorageSubclass::SCSI,
        0x1 => StorageSubclass::IDE,
        0x2 => StorageSubclass::Floppy,
        0x3 => StorageSubclass::IPIBus,
        0x4 => StorageSubclass::RAID,
        0x5 => StorageSubclass::ATA,
        0x6 => StorageSubclass::SATA,
        0x7 => StorageSubclass::SerialAttachedSCSI,
        0x8 => StorageSubclass::NonVolatileMemory,
        _ => StorageSubclass::Other,
    }
}

impl vstd::std_specs::convert::FromSpecImpl<u8> for StorageSubclass {
    open spec fn obeys_from_spec() -> bool {
        true
    }

    open spec fn from_spec(value: u8) -> Self {
        storage_subclass_from_spec(value)
    }
}

impl From<u8> for StorageSubclass {
    fn from(value: u8) -> (r: Self) {
        match value {
            0x0 => StorageSubclass::SCSI,
            0x1 => StorageSubclass::IDE,
            0x2 => StorageSubclass::Floppy,
            0x3 => StorageSubclass::IPIBus,
            0x4 => StorageSubclass::RAID,
            0x5 => StorageSubclass::ATA,
            0x6 => StorageSubclass::SATA,
            0x7 => StorageSubclass::SerialAttachedSCSI,
            0x8 => StorageSubclass::NonVolatileMemory,
            _ => StorageSubclass::Other,
        }
    }
}

/// The display name of each subclass.
pub open spec fn storage_subclass_name_spec(s: StorageSubclass) -> Seq<char> {
    match s {
        StorageSubclass::SCSI => "SCSI"@,
        StorageSubclass::IDE => "IDE"@,
        StorageSubclass::Floppy => "Floppy"@,
        StorageSubclass::IPIBus => "IPIBus"@,
        StorageSubclass::RAID => "Raid"@,
        StorageSubclass::ATA => "ATA"@,
        StorageSubclass::SATA => "SATA"@,
        StorageSubclass::SerialAttachedSCSI => "Serial Attached SCSI"@,
        StorageSubclass::NonVolatileMemory => "Non Volatile Memory"@,
        StorageSubclass::Other => "Other"@,
    }
}

impl StorageSubclass {
    /// The display name of this subclass.
    pub fn name(&self) -> (r: &'static str)
        ensures
            r@ == storage_subclass_name_spec(*self),
    {
        match self {
            StorageSubclass::SCSI => "SCSI",
            StorageSubclass::IDE => "IDE",
            StorageSubclass::Floppy => "Floppy",
            StorageSubclass::IPIBus => "IPIBus",
            StorageSubclass::RAID => "Raid",
            StorageSubclass::ATA => "ATA",
            StorageSubclass::SATA => "SATA",
            StorageSubclass::SerialAttachedSCSI => "Serial Attached SCSI",
            StorageSubclass::NonVolatileMemory => "Non Volatile Memory",
            StorageSubclass::Other => "Other",
        }
    }
}

} // verus!
