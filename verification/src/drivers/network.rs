//! Network-device classification and the pure decision logic of the network
//! driver: classifying devices, decoding the base address register, driving
//! the EEPROM handshake and assembling the hardware address. Register access
//! itself is memory-mapped I/O done by the embedding program.

use crate::drivers::pci::Bar;
use crate::ReadError;
use vstd::prelude::*;

verus! {

/// Number of transmit descriptors in the transmit ring.
pub const TX_DESC_NUM: u32 = 32;

/// Size in bytes of the transmit descriptor ring (16 bytes per descriptor).
pub const TX_DESC_SIZE: u32 = TX_DESC_NUM * 16;

/// Offset of the EEPROM register in the device's register window.
pub const EEPROM_REGISTER: u32 = 0x14;

/// Errors of network-driver initialization.
#[derive(Clone, Copy, Debug, PartialEq, Eq, Structural)]
pub enum Error {
    OutOfMemory,
}

impl vstd::std_specs::convert::FromSpecImpl<ReadError> for Error {
    open spec fn obeys_from_spec() -> bool {
        true
    }

    open spec fn from_spec(value: ReadError) -> Self {
        Error::OutOfMemory
    }
}

impl From<ReadError> for Error {
    fn from(_value: ReadError) -> (r: Self) {
        Error::OutOfMemory
    }
}

/// Subclass codes of the network device class.
#[derive(Clone, Copy, Debug, PartialEq, Eq, Structural)]
pub enum NetworkSubClass {
    Ethernet,
    TokenRing,
    FDDI,
    ATM,
    ISDN,
    WordFip,
    PICMGMultiComputing,
    Infiniband,
    Fabric,
    Other,
}

/// The subclass that a raw subclass byte denotes.
pub open spec fn network_subclass_from_spec(value: u8) -> NetworkSubClass {
    match value {
        0x0 => NetworkSubClass::Ethernet,
        0x1 => NetworkSubClass::TokenRing,
        0x2 => NetworkSubClass::FDDI,
        0x3 => NetworkSubClass::ATM,
        0x4 => NetworkSubClass::ISDN,
        0x5 => NetworkSubClass::WordFip,
        0x6 => NetworkSubClass::PICMGMultiComputing,
        0x7 => NetworkSubClass::Infiniband,
        0x8 => NetworkSubClass::Fabric,
        _ => NetworkSubClass::Other,
    }
}

impl vstd::std_specs::convert::FromSpecImpl<u8> for NetworkSubClass {
    open spec fn obeys_from_spec() -> bool {
        true
    }

    open spec fn from_spec(value: u8) -> Self {
        network_subclass_from_spec(value)
    }
}

impl From<u8> for NetworkSubClass {
    fn from(value: u8) -> (r: Self) {
        match value {
            0x0 => NetworkSubClass::Ethernet,
            0x1 => NetworkSubClass::TokenRing,
            0x2 => NetworkSubClass::FDDI,
            0x3 => NetworkSubClass::ATM,
            0x4 => NetworkSubClass::ISDN,
            0x5 => NetworkSubClass::WordFip,
            0x6 => NetworkSubClass::PICMGMultiComputing,
            0x7 => NetworkSubClass::Infiniband,
            0x8 => NetworkSubClass::Fabric,
            _ => NetworkSubClass::Other,
        }
    }
}

/// The display name of each subclass.
pub open spec fn network_subclass_name_spec(s: NetworkSubClass) -> Seq<char> {
    match s {
        NetworkSubClass::Ethernet => "Ethernet"@,
        NetworkSubClass::TokenRing => "Token Ring"@,
        NetworkSubClass::FDDI => "FDDI"@,
        NetworkSubClass::ATM => "ATM"@,
        NetworkSubClass::ISDN => "ISDN"@,
        NetworkSubClass::WordFip => "Word FIP"@,
        NetworkSubClass::PICMGMultiComputing => "PIC MG Multi Computing"@,
        NetworkSubClass::Infiniband => "Infiniband"@,
        NetworkSubClass::Fabric => "Fabric"@,
        NetworkSubClass::Other => "Other"@,
    }
}

impl NetworkSubClass {
    /// The display name of this subclass.
    pub fn name(&self) -> (r: &'static str)
        ensures
            r@ == network_subclass_name_spec(*self),
    {
        match self {
            NetworkSubClass::Ethernet => "Ethernet",
            NetworkSubClass::TokenRing => "Token Ring",
            NetworkSubClass::FDDI => "FDDI",
            NetworkSubClass::ATM => "ATM",
            NetworkSubClass::ISDN => "ISDN",
            NetworkSubClass::WordFip => "Word FIP",
            NetworkSubClass::PICMGMultiComputing => "PIC MG Multi Computing",
            NetworkSubClass::Infiniband => "Infiniband",
            NetworkSubClass::Fabric => "Fabric",
            NetworkSubClass::Other => "Other",
        }
    }
}

/// The physical address of the device's register window, taken from its first
/// base address register; `None` for an I/O or absent register, which this
/// driver does not support.
pub fn bar_phys_address(bar: &Option<Bar>) -> (r: Option<u64>)
    ensures
        match *bar {
            Some(Bar::Memory32 { address, .. }) => r == Some(address as u64),
            Some(Bar::Memory64 { address, .. }) => r == Some(address),
            _ => r is None,
        },
{
    match bar {
        Some(Bar::Memory32 { address, .. }) => Some(*address as u64),
        Some(Bar::Memory64 { address, .. }) => Some(*address),
        _ => None,
    }
}

/// The EEPROM has finished an operation when bit 4 of its register is set.
pub fn eeprom_ready(value: u32) -> (r: bool)
    ensures
        r == (value & 0x10 != 0),
{
    value & 0x10 != 0
}

/// The command word that starts a read of the EEPROM word at `addr`.
pub fn eeprom_read_command(addr: u8) -> (r: u32)
    ensures
        r == (1u32 | ((addr as u32) << 8)),
{
    1u32 | ((addr as u32) << 8)
}

/// The data word of a finished EEPROM read: the upper half of the register.
pub fn eeprom_data(value: u32) -> (r: u32)
    ensures
        r == (value >> 16) & 0xffff,
{
    (value >> 16) & 0xffff
}

/// Assembles the six-byte hardware address from the first three EEPROM words,
/// low byte first within each word.
pub fn mac_from_words(w0: u32, w1: u32, w2: u32) -> (r: [u8; 6])
    ensures
        r@[0] == (w0 & 0xff) as u8,
        r@[1] == ((w0 >> 8) & 0xff) as u8,
        r@[2] == (w1 & 0xff) as u8,
        r@[3] == ((w1 >> 8) & 0xff) as u8,
        r@[4] == (w2 & 0xff) as u8,
        r@[5] == ((w2 >> 8) & 0xff) as u8,
{
    [
        (w0 & 0xff) as u8,
        ((w0 >> 8) & 0xff) as u8,
        (w1 & 0xff) as u8,
        ((w1 >> 8) & 0xff) as u8,
        (w2 & 0xff) as u8,
        ((w2 >> 8) & 0xff) as u8,
    ]
}

} // verus!
