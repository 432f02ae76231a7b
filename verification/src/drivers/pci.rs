//! PCI configuration-space logic: register addressing, sub-word access on
//! 32-bit configuration registers, header parsing, base-address-register
//! decoding and the bus-scan decisions. The two configuration ports are
//! hardware; the embedding program reads and writes them and hands the raw
//! 32-bit values to this module.

use crate::drivers::network::{network_subclass_from_spec, NetworkSubClass};
use crate::drivers::storage::{storage_subclass_from_spec, StorageSubclass};
use vstd::prelude::*;

verus! {

/// Offsets of the registers of a configuration-space header.
#[derive(Clone, Copy, Debug, PartialEq, Eq, Structural)]
#[allow(dead_code)]
pub enum PCIConfigRegisters {
    PCIDeviceID,
    PCIVendorID,
    PCIStatus,
    PCICommand,
    PCIClassCode,
    PCISubclass,
    PCIProgIF,
    PCIRevisionID,
    PCIBIST,
    PCIHeaderType,
    PCILatencyTimer,
    PCICacheLineSize,
    PCIBAR0,
    PCIBAR1,
    PCIBAR2,
    PCIBAR3,
    PCIBAR4,
    PCIBAR5,
    PCICardbusCISPointer,
    PCISubsystemID,
    PCISubsystemVendorID,
    PCIExpansionROMBaseAddress,
    PCICapabilitiesPointer,
    PCIMaxLatency,
    PCIMinGrant,
    PCIInterruptPIN,
    PCIInterruptLine,
}

/// The byte offset of each configuration register.
pub open spec fn register_offset_spec(r: PCIConfigRegisters) -> u8 {
    match r {
        PCIConfigRegisters::PCIDeviceID => 0x2,
        PCIConfigRegisters::PCIVendorID => 0x0,
        PCIConfigRegisters::PCIStatus => 0x6,
        PCIConfigRegisters::PCICommand => 0x4,
        PCIConfigRegisters::PCIClassCode => 0xB,
        PCIConfigRegisters::PCISubclass => 0xA,
        PCIConfigRegisters::PCIProgIF => 0x9,
        PCIConfigRegisters::PCIRevisionID => 0x8,
        PCIConfigRegisters::PCIBIST => 0xF,
        PCIConfigRegisters::PCIHeaderType => 0xE,
        PCIConfigRegisters::PCILatencyTimer => 0xD,
        PCIConfigRegisters::PCICacheLineSize => 0xC,
        PCIConfigRegisters::PCIBAR0 => 0x10,
        PCIConfigRegisters::PCIBAR1 => 0x14,
        PCIConfigRegisters::PCIBAR2 => 0x18,
        PCIConfigRegisters::PCIBAR3 => 0x1C,
        PCIConfigRegisters::PCIBAR4 => 0x20,
        PCIConfigRegisters::PCIBAR5 => 0x24,
        PCIConfigRegisters::PCICardbusCISPointer => 0x28,
        PCIConfigRegisters::PCISubsystemID => 0x2E,
        PCIConfigRegisters::PCISubsystemVendorID => 0x2C,
        PCIConfigRegisters::PCIExpansionROMBaseAddress => 0x30,
        PCIConfigRegisters::PCICapabilitiesPointer => 0x34,
        PCIConfigRegisters::PCIMaxLatency => 0x3F,
        PCIConfigRegisters::PCIMinGrant => 0x3E,
        PCIConfigRegisters::PCIInterruptPIN => 0x3D,
        PCIConfigRegisters::PCIInterruptLine => 0x3C,
    }
}

impl PCIConfigRegisters {
    /// The byte offset of this register within the configuration header.
    pub fn offset(self) -> (r: u8)
        ensures
            r == register_offset_spec(self),
    {
        match self {
            PCIConfigRegisters::PCIDeviceID => 0x2,
            PCIConfigRegisters::PCIVendorID => 0x0,
            PCIConfigRegisters::PCIStatus => 0x6,
            PCIConfigRegisters::PCICommand => 0x4,
            PCIConfigRegisters::PCIClassCode => 0xB,
            PCIConfigRegisters::PCISubclass => 0xA,
            PCIConfigRegisters::PCIProgIF => 0x9,
            PCIConfigRegisters::PCIRevisionID => 0x8,
            PCIConfigRegisters::PCIBIST => 0xF,
            PCIConfigRegisters::PCIHeaderType => 0xE,
            PCIConfigRegisters::PCILatencyTimer => 0xD,
            PCIConfigRegisters::PCICacheLineSize => 0xC,
            PCIConfigRegisters::PCIBAR0 => 0x10,
            PCIConfigRegisters::PCIBAR1 => 0x14,
            PCIConfigRegisters::PCIBAR2 => 0x18,
            PCIConfigRegisters::PCIBAR3 => 0x1C,
            PCIConfigRegisters::PCIBAR4 => 0x20,
            PCIConfigRegisters::PCIBAR5 => 0x24,
            PCIConfigRegisters::PCICardbusCISPointer => 0x28,
            PCIConfigRegisters::PCISubsystemID => 0x2E,
            PCIConfigRegisters::PCISubsystemVendorID => 0x2C,
            PCIConfigRegisters::PCIExpansionROMBaseAddress => 0x30,
            PCIConfigRegisters::PCICapabilitiesPointer => 0x34,
            PCIConfigRegisters::PCIMaxLatency => 0x3F,
            PCIConfigRegisters::PCIMinGrant => 0x3E,
            PCIConfigRegisters::PCIInterruptPIN => 0x3D,
            PCIConfigRegisters::PCIInterruptLine => 0x3C,
        }
    }
}

/// The word written to the configuration-address port to select the register
/// at `offset` of function `func` of device `slot` on bus `bus`: the enable
/// bit, then bus, device, function, and the dword-aligned register offset.
pub open spec fn config_address_spec(bus: u8, slot: u8, func: u8, offset: u8) -> u32 {
    ((bus as u32) << 16) | ((slot as u32) << 11) | ((func as u32) << 8) | ((offset as u32) & 0xfc)
        | 0x8000_0000
}

/// Computes the configuration-address word; the embedding program writes it
/// to the configuration-address port.
pub fn config_address(bus: u8, slot: u8, func: u8, offset: u8) -> (r: u32)
    ensures
        r == config_address_spec(bus, slot, func, offset),
        r & 0x8000_0000 != 0,
        slot < 32 && func < 8 ==> {
            &&& (r >> 16) & 0xff == bus
            &&& (r >> 11) & 0x1f == slot
            &&& (r >> 8) & 0x7 == func
            &&& r & 0xfc == offset & 0xfc
        },
{
    let r: u32 = ((bus as u32) << 16) | ((slot as u32) << 11) | ((func as u32) << 8) | ((offset
        as u32) & 0xfc) | 0x8000_0000;
    proof {
        let b = bus as u32;
        let s = slot as u32;
        let f = func as u32;
        let o = offset as u32;
        assert(((b << 16) | (s << 11) | (f << 8) | (o & 0xfc) | 0x8000_0000) & 0x8000_0000 != 0)
            by (bit_vector);
        assert(b < 0x100 && s < 32 && f < 8 ==> ((((b << 16) | (s << 11) | (f << 8) | (o & 0xfc)
            | 0x8000_0000) >> 16) & 0xff == b && (((b << 16) | (s << 11) | (f << 8) | (o & 0xfc)
            | 0x8000_0000) >> 11) & 0x1f == s && (((b << 16) | (s << 11) | (f << 8) | (o & 0xfc)
            | 0x8000_0000) >> 8) & 0x7 == f && ((b << 16) | (s << 11) | (f << 8) | (o & 0xfc)
            | 0x8000_0000) & 0xfc == (o & 0xfc))) by (bit_vector);
    }
    r
}

/// The 16-bit word that offset `off` selects inside the 32-bit register that
/// contains it.
pub open spec fn extract_u16_spec(dword: u32, off: u8) -> u16 {
    ((dword >> ((((off & 2) as u32) * 8) as u32)) & 0xffff) as u16
}

/// The byte that offset `off` selects inside the 32-bit register that
/// contains it.
pub open spec fn extract_u8_spec(dword: u32, off: u8) -> u8 {
    ((dword >> ((((off & 3) as u32) * 8) as u32)) & 0xff) as u8
}

/// The 32-bit register value after replacing the 16-bit word that offset
/// `off` selects with `data`.
pub open spec fn merge_u16_spec(dword: u32, off: u8, data: u16) -> u32 {
    (dword & !(0xffffu32 << ((((off & 2) as u32) * 8) as u32))) | ((data as u32) << ((((off & 2)
        as u32) * 8) as u32))
}

/// The 32-bit register value after replacing the byte that offset `off`
/// selects with `data`.
pub open spec fn merge_u8_spec(dword: u32, off: u8, data: u8) -> u32 {
    (dword & !(0xffu32 << ((((off & 3) as u32) * 8) as u32))) | ((data as u32) << ((((off & 3)
        as u32) * 8) as u32))
}

/// Extracts the 16-bit word that offset `off` selects from its register.
pub fn extract_u16(dword: u32, off: u8) -> (r: u16)
    ensures
        r == extract_u16_spec(dword, off),
{
    proof {
        assert((off & 2) <= 2) by (bit_vector);
    }
    let shift: u32 = ((off & 2) as u32) * 8;
    ((dword >> shift) & 0xffff) as u16
}

/// Extracts the byte that offset `off` selects from its register.
pub fn extract_u8(dword: u32, off: u8) -> (r: u8)
    ensures
        r == extract_u8_spec(dword, off),
{
    proof {
        assert((off & 3) <= 3) by (bit_vector);
    }
    let shift: u32 = ((off & 3) as u32) * 8;
    ((dword >> shift) & 0xff) as u8
}

/// Replaces the 16-bit word that offset `off` selects inside its register.
pub fn merge_u16(dword: u32, off: u8, data: u16) -> (r: u32)
    ensures
        r == merge_u16_spec(dword, off, data),
{
    proof {
        assert((off & 2) <= 2) by (bit_vector);
    }
    let shift: u32 = ((off & 2) as u32) * 8;
    (dword & !(0xffffu32 << shift)) | ((data as u32) << shift)
}

/// Replaces the byte that offset `off` selects inside its register.
pub fn merge_u8(dword: u32, off: u8, data: u8) -> (r: u32)
    ensures
        r == merge_u8_spec(dword, off, data),
{
    proof {
        assert((off & 3) <= 3) by (bit_vector);
    }
    let shift: u32 = ((off & 3) as u32) * 8;
    (dword & !(0xffu32 << shift)) | ((data as u32) << shift)
}

/// The device class read out of the class-code register, subclass in the low
/// byte, class in the high byte.
#[derive(Clone, Copy, Debug, PartialEq, Eq, Structural)]
#[allow(dead_code)]
pub enum ClassCode {
    Unclassified,
    MassStorage(StorageSubclass),
    Network(NetworkSubClass),
    Display,
    Multimedia,
    Memory,
    Bridge,
    Communication,
    BaseSystemPeripheral,
    InputDevice,
    DockingStation,
    Processor,
    SerialBus,
    Wireless,
    Intelligent,
    SatelliteCommunication,
    Encryption,
    SignalProcessing,
    ProcessingAccellerator,
    NonEssential,
}

/// The class that a class/subclass word denotes.
pub open spec fn class_code_from_spec(value: u16) -> ClassCode {
    let subclass = value as u8;
    let class = (value >> 8) as u8;
    match class {
        0x1 => ClassCode::MassStorage(storage_subclass_from_spec(subclass)),
        0x2 => ClassCode::Network(network_subclass_from_spec(subclass)),
        0x3 => ClassCode::Display,
        0x4 => ClassCode::Multimedia,
        0x5 => ClassCode::Memory,
        0x6 => ClassCode::Bridge,
        0x7 => ClassCode::Communication,
        0x8 => ClassCode::BaseSystemPeripheral,
        0x9 => ClassCode::InputDevice,
        0xA => ClassCode::DockingStation,
        0xB => ClassCode::Processor,
        0xC => ClassCode::SerialBus,
        0xD => ClassCode::Wireless,
        0xE => ClassCode::Intelligent,
        0xF => ClassCode::SatelliteCommunication,
        0x10 => ClassCode::Encryption,
        0x11 => ClassCode::SignalProcessing,
        0x12 => ClassCode::ProcessingAccellerator,
        0x13 => ClassCode::NonEssential,
        _ => ClassCode::Unclassified,
    }
}

impl vstd::std_specs::convert::FromSpecImpl<u16> for ClassCode {
    open spec fn obeys_from_spec() -> bool {
        true
    }

    open spec fn from_spec(value: u16) -> Self {
        class_code_from_spec(value)
    }
}

impl From<u16> for ClassCode {
    fn from(value: u16) -> (r: Self) {
        let subclass: u8 = value as u8;
        let class: u8 = (value >> 8) as u8;
        match class {
            0x1 => ClassCode::MassStorage(StorageSubclass::from(subclass)),
            0x2 => ClassCode::Network(NetworkSubClass::from(subclass)),
            0x3 => ClassCode::Display,
            0x4 => ClassCode::Multimedia,
            0x5 => ClassCode::Memory,
            0x6 => ClassCode::Bridge,
            0x7 => ClassCode::Communication,
            0x8 => ClassCode::BaseSystemPeripheral,
            0x9 => ClassCode::InputDevice,
            0xA => ClassCode::DockingStation,
            0xB => ClassCode::Processor,
            0xC => ClassCode::SerialBus,
            0xD => ClassCode::Wireless,
            0xE => ClassCode::Intelligent,
            0xF => ClassCode::SatelliteCommunication,
            0x10 => ClassCode::Encryption,
            0x11 => ClassCode::SignalProcessing,
            0x12 => ClassCode::ProcessingAccellerator,
            0x13 => ClassCode::NonEssential,
            _ => ClassCode::Unclassified,
        }
    }
}

/// The display name of each class; subclass names stand on the subclass.
pub open spec fn class_code_name_spec(c: ClassCode) -> Seq<char> {
    match c {
        ClassCode::Unclassified => "Unclassified"@,
        ClassCode::MassStorage(_) => "Mass Storage"@,
        ClassCode::Network(_) => "Network"@,
        ClassCode::Display => "Display"@,
        ClassCode::Multimedia => "Multimedia"@,
        ClassCode::Memory => "Memory"@,
        ClassCode::Bridge => "Bridge"@,
        ClassCode::Communication => "Communication"@,
        ClassCode::BaseSystemPeripheral => "Base System Peripheral"@,
        ClassCode::InputDevice => "Input Device"@,
        ClassCode::DockingStation => "Docking Device"@,
        ClassCode::Processor => "Processor"@,
        ClassCode::SerialBus => "Serial Bus"@,
        ClassCode::Wireless => "Wireless"@,
        ClassCode::Intelligent => "Intelligent"@,
        ClassCode::SatelliteCommunication => "Satellite Communication"@,
        ClassCode::Encryption => "Encryption"@,
        ClassCode::SignalProcessing => "Signal Processing"@,
        ClassCode::ProcessingAccellerator => "Processing Accellerator"@,
        ClassCode::NonEssential => "Non Essential"@,
    }
}

impl ClassCode {
    /// The display name of this class; subclass names stand on the subclass.
    pub fn name(&self) -> (r: &'static str)
        ensures
            r@ == class_code_name_spec(*self),
    {
        match self {
            ClassCode::Unclassified => "Unclassified",
            ClassCode::MassStorage(_) => "Mass Storage",
            ClassCode::Network(_) => "Network",
            ClassCode::Display => "Display",
            ClassCode::Multimedia => "Multimedia",
            ClassCode::Memory => "Memory",
            ClassCode::Bridge => "Bridge",
            ClassCode::Communication => "Communication",
            ClassCode::BaseSystemPeripheral => "Base System Peripheral",
            ClassCode::InputDevice => "Input Device",
            ClassCode::DockingStation => "Docking Device",
            ClassCode::Processor => "Processor",
            ClassCode::SerialBus => "Serial Bus",
            ClassCode::Wireless => "Wireless",
            ClassCode::Intelligent => "Intelligent",
            ClassCode::SatelliteCommunication => "Satellite Communication",
            ClassCode::Encryption => "Encryption",
            ClassCode::SignalProcessing => "Signal Processing",
            ClassCode::ProcessingAccellerator => "Processing Accellerator",
            ClassCode::NonEssential => "Non Essential",
        }
    }
}

/// The layout of a configuration-space header.
#[derive(Clone, Copy, Debug, PartialEq, Eq, Structural)]
pub enum HeaderType {
    Type1,
    Type2,
    Unknown,
}

/// The header type that a raw header-type byte denotes.
pub open spec fn header_type_from_spec(value: u8) -> HeaderType {
    match value {
        0x0 => HeaderType::Type1,
        0x2 => HeaderType::Type2,
        _ => HeaderType::Unknown,
    }
}

impl vstd::std_specs::convert::FromSpecImpl<u8> for HeaderType {
    open spec fn obeys_from_spec() -> bool {
        true
    }

    open spec fn from_spec(value: u8) -> Self {
        header_type_from_spec(value)
    }
}

impl From<u8> for HeaderType {
    fn from(value: u8) -> (r: Self) {
        match value {
            0x0 => HeaderType::Type1,
            0x2 => HeaderType::Type2,
            _ => HeaderType::Unknown,
        }
    }
}

/// The display name of each header type.
pub open spec fn header_type_name_spec(t: HeaderType) -> Seq<char> {
    match t {
        HeaderType::Type1 => "Type 1"@,
        HeaderType::Type2 => "Type 2"@,
        HeaderType::Unknown => "Unknown"@,
    }
}

impl HeaderType {
    /// The display name of this header type.
    pub fn name(&self) -> (r: &'static str)
        ensures
            r@ == header_type_name_spec(*self),
    {
        match self {
            HeaderType::Type1 => "Type 1",
            HeaderType::Type2 => "Type 2",
            HeaderType::Unknown => "Unknown",
        }
    }
}

/// Interrupt routing of a non-bridge device; either field is absent when the
/// device reports no usable value.
#[derive(Clone, Copy, Debug, PartialEq, Eq, Structural)]
pub struct NonBridgeHeader {
    pub interrupt_line: Option<u8>,
    pub interrupt_pin: Option<u8>,
}

/// The decoded start of a device's configuration-space header.
#[derive(Clone, Copy, Debug, PartialEq, Eq, Structural)]
pub struct Header {
    pub header_type: HeaderType,
    pub class_code: ClassCode,
    pub non_bridge_header: Option<NonBridgeHeader>,
}

impl Header {
    /// Decodes a header from the raw register values the embedding program
    /// read: `class_reg` is the register at offset 8 (class and subclass in
    /// the upper half), `header_type_value` the header-type byte, and
    /// `interrupt_reg` the register at offset 0x3C (interrupt line in the
    /// low byte, interrupt pin above it), read only for a Type 1 header.
    pub fn new(class_reg: u32, header_type_value: u8, interrupt_reg: u32) -> (r: Self)
        ensures
            r.class_code == class_code_from_spec((class_reg >> 16) as u16),
            r.header_type == header_type_from_spec(header_type_value),
            header_type_from_spec(header_type_value) is Type1 ==> {
                let line = interrupt_reg as u8;
                let pin = (interrupt_reg >> 8) as u8;
                r.non_bridge_header == Some(
                    NonBridgeHeader {
                        interrupt_line: if line != 0xff {
                            Some(line)
                        } else {
                            None
                        },
                        interrupt_pin: if pin != 0x0 {
                            Some(pin)
                        } else {
                            None
                        },
                    },
                )
            },
            !(header_type_from_spec(header_type_value) is Type1) ==> r.non_bridge_header is None,
    {
        let class_code = ClassCode::from((class_reg >> 16) as u16);
        let header_type = HeaderType::from(header_type_value);

        let non_bridge_header = match header_type {
            HeaderType::Type1 => {
                let mut non_bridge_header = NonBridgeHeader {
                    interrupt_pin: None,
                    interrupt_line: None,
                };
                let interrupt_line: u8 = interrupt_reg as u8;
                let interrupt_pin: u8 = (interrupt_reg >> 8) as u8;
                if interrupt_line != 0xff {
                    non_bridge_header.interrupt_line = Some(interrupt_line);
                }
                if interrupt_pin != 0x0 {
                    non_bridge_header.interrupt_pin = Some(interrupt_pin);
                }
                Some(non_bridge_header)
            },
            _ => None,
        };
        Header { class_code, header_type, non_bridge_header }
    }
}

/// One decoded base address register.
#[derive(Clone, Copy, Debug, PartialEq, Eq, Structural)]
pub enum Bar {
    Memory32 { size: u32, address: u32, prefetchable: bool },
    Memory64 { size: u64, address: u64, prefetchable: bool },
    Io(u32),
}

/// The lowest set bit of `x`: 1 shifted left by the number of trailing
/// zeros.
pub open spec fn low_bit_spec(x: u32) -> int
    decreases x,
{
    if x == 0 {
        0
    } else if x % 2 == 1 {
        1
    } else {
        2 * low_bit_spec((x / 2) as u32)
    }
}

/// Isolates the lowest set bit of a nonzero word.
fn lowest_set_bit(x: u32) -> (r: u32)
    requires
        x != 0,
    ensures
        r == low_bit_spec(x),
{
    let mut m: u32 = x;
    let mut size: u32 = 1;
    while m % 2 == 0
        invariant
            m != 0,
            x == size * m,
            size >= 1,
            low_bit_spec(x) == size * low_bit_spec(m),
        decreases m,
    {
        proof {
            assert(size * m == (size * 2) * (m / 2)) by (nonlinear_arith)
                requires
                    m % 2 == 0,
                    m > 0,
                    size >= 1,
            ;
            assert(size * 2 <= size * m) by (nonlinear_arith)
                requires
                    m >= 2,
                    size >= 1,
            ;
            assert(size * low_bit_spec(m) == (size * 2) * low_bit_spec((m / 2) as u32))
                by (nonlinear_arith)
                requires
                    low_bit_spec(m) == 2 * low_bit_spec((m / 2) as u32),
            ;
        }
        size = size * 2;
        m = m / 2;
    }
    proof {
        assert(low_bit_spec(m) == 1);
    }
    size
}

/// A device on the PCI bus, addressed by bus, device slot and function.
#[derive(Clone, Copy, Debug, PartialEq, Eq, Structural)]
pub struct Pci {
    pub bus: u8,
    pub slot: u8,
    pub func: u8,
    pub header: Header,
}

/// The 256-byte configuration space of one device, as the 64 32-bit
/// registers the configuration ports expose.
pub struct ConfigSpace {
    pub regs: Vec<u32>,
}

impl ConfigSpace {
    /// The space holds exactly 64 registers.
    pub open spec fn wf(&self) -> bool {
        self.regs@.len() == 64
    }

    /// The 32-bit register containing byte offset `off`.
    pub open spec fn dword(&self, off: u8) -> u32 {
        self.regs@[(off as int) / 4]
    }

    /// A configuration space with every register zero.
    pub fn new() -> (r: Self)
        ensures
            r.wf(),
            forall|off: u8| #[trigger] r.dword(off) == 0,
    {
        let mut regs: Vec<u32> = Vec::new();
        let mut i: usize = 0;
        while i < 64
            invariant
                i <= 64,
                regs@.len() == i,
                forall|j: int| 0 <= j < i ==> regs@[j] == 0,
            decreases 64 - i,
        {
            regs.push(0);
            i = i + 1;
        }
        ConfigSpace { regs }
    }

    /// Builds a configuration space from 64 raw register values.
    pub fn from_regs(regs: Vec<u32>) -> (r: Self)
        requires
            regs@.len() == 64,
        ensures
            r.wf(),
            r.regs@ == regs@,
    {
        ConfigSpace { regs }
    }
}

impl Pci {
    /// A device handle for the given bus address with its decoded header.
    pub fn new(bus: u8, slot: u8, func: u8, header: Header) -> (r: Self)
        ensures
            r == (Pci { bus, slot, func, header }),
    {
        Pci { bus, slot, func, header }
    }

    /// Reads the byte at offset `off` of the device's configuration space.
    pub fn config_read_u8(&self, space: &ConfigSpace, off: u8) -> (r: u8)
        requires
            space.wf(),
        ensures
            r == extract_u8_spec(space.dword(off), off),
    {
        extract_u8(self.config_read_u32(space, off), off)
    }

    /// Reads the 16-bit word at offset `off` of the device's configuration
    /// space.
    pub fn config_read_u16(&self, space: &ConfigSpace, off: u8) -> (r: u16)
        requires
            space.wf(),
        ensures
            r == extract_u16_spec(space.dword(off), off),
    {
        extract_u16(self.config_read_u32(space, off), off)
    }

    /// Reads the 32-bit register containing offset `off` of the device's
    /// configuration space.
    pub fn config_read_u32(&self, space: &ConfigSpace, off: u8) -> (r: u32)
        requires
            space.wf(),
        ensures
            r == space.dword(off),
    {
        let idx: usize = (off as usize) / 4;
        space.regs[idx]
    }

    /// Writes the byte at offset `off`, preserving the rest of its register
    /// and every other register.
    pub fn config_write_u8(&self, space: &mut ConfigSpace, off: u8, data: u8)
        requires
            old(space).wf(),
        ensures
            final(space).wf(),
            final(space).regs@ == old(space).regs@.update(
                (off as int) / 4,
                merge_u8_spec(old(space).dword(off), off, data),
            ),
    {
        let val: u32 = merge_u8(self.config_read_u32(space, off), off, data);
        let idx: usize = (off as usize) / 4;
        space.regs.set(idx, val);
    }

    /// Writes the 16-bit word at offset `off`, preserving the rest of its
    /// register and every other register.
    pub fn config_write_u16(&self, space: &mut ConfigSpace, off: u8, data: u16)
        requires
            old(space).wf(),
        ensures
            final(space).wf(),
            final(space).regs@ == old(space).regs@.update(
                (off as int) / 4,
                merge_u16_spec(old(space).dword(off), off, data),
            ),
    {
        let val: u32 = merge_u16(self.config_read_u32(space, off), off, data);
        let idx: usize = (off as usize) / 4;
        space.regs.set(idx, val);
    }

    /// Writes the whole 32-bit register containing offset `off`.
    pub fn config_write_u32(&self, space: &mut ConfigSpace, off: u8, data: u32)
        requires
            old(space).wf(),
        ensures
            final(space).wf(),
            final(space).regs@ == old(space).regs@.update((off as int) / 4, data),
    {
        let idx: usize = (off as usize) / 4;
        space.regs.set(idx, data);
    }

    /// Decodes one base address register from the probe the embedding
    /// program ran: `bar_value` is the register's resting value, `readback`
    /// what the register read back after writing all-ones (hardware reports
    /// the size mask there), `upper` the following register, used by 64-bit
    /// memory registers for the upper address half.
    pub fn get_bar(&self, bar_value: u32, readback: u32, upper: u32) -> (r: Option<Bar>)
        requires
            bar_value & 1 == 0 ==> readback == 0 || readback & 0xffff_fff0 != 0,
        ensures
            bar_value & 1 == 1 ==> r == Some(Bar::Io(bar_value >> 2)),
            bar_value & 1 == 0 && readback == 0 ==> r is None,
            bar_value & 1 == 0 && readback != 0 ==> {
                let address = bar_value & 0xffff_fff0;
                let prefetchable = (bar_value & 0x8) != 0;
                let size = low_bit_spec(readback & 0xffff_fff0);
                if (bar_value >> 1) & 3 == 0 {
                    r == Some(Bar::Memory32 { size: size as u32, address, prefetchable })
                } else if (bar_value >> 1) & 3 == 2 {
                    r == Some(
                        Bar::Memory64 {
                            size: size as u64,
                            address: ((upper as u64) << 32) | (address as u64),
                            prefetchable,
                        },
                    )
                } else {
                    r is None
                }
            },
    {
        if bar_value & 1 == 0 {
            let address: u32 = (bar_value >> 4) << 4;
            let prefetchable: bool = (bar_value >> 3) & 1 == 1;
            proof {
                assert((bar_value >> 4) << 4 == bar_value & 0xffff_fff0) by (bit_vector);
                assert(((bar_value >> 3) & 1 == 1) == ((bar_value & 0x8) != 0)) by (bit_vector);
            }

            if readback == 0 {
                return None;
            }
            let masked: u32 = readback & 0xffff_fff0;
            let size: u32 = lowest_set_bit(masked);

            let kind: u32 = (bar_value >> 1) & 3;
            if kind == 0 {
                Some(Bar::Memory32 { address, prefetchable, size })
            } else if kind == 2 {
                proof {
                    let a = address as u64;
                    let u = upper as u64;
                    assert(a < 0x1_0000_0000 ==> ((a | (u << 32)) == ((u << 32) | a)))
                        by (bit_vector);
                }
                let address64: u64 = ((upper as u64) << 32) | (address as u64);
                Some(Bar::Memory64 { address: address64, size: size as u64, prefetchable })
            } else {
                None
            }
        } else {
            Some(Bar::Io(bar_value >> 2))
        }
    }

    /// Sets the bus-mastering bit in the device's command register.
    pub fn enable_bus_mastering(&self, space: &mut ConfigSpace)
        requires
            old(space).wf(),
        ensures
            final(space).wf(),
            final(space).regs@ == old(space).regs@.update(
                1,
                merge_u16_spec(
                    old(space).dword(4),
                    4,
                    (extract_u16_spec(old(space).dword(4), 4) | 0x4) as u16,
                ),
            ),
    {
        let command: u16 = self.config_read_u16(space, 0x4);
        self.config_write_u16(space, 0x4, command | 0x4);
    }

    /// Sets the memory-space bit in the device's command register.
    pub fn enable_mmio(&self, space: &mut ConfigSpace)
        requires
            old(space).wf(),
        ensures
            final(space).wf(),
            final(space).regs@ == old(space).regs@.update(
                1,
                merge_u16_spec(
                    old(space).dword(4),
                    4,
                    (extract_u16_spec(old(space).dword(4), 4) | 0x2) as u16,
                ),
            ),
    {
        let command: u16 = self.config_read_u16(space, 0x4);
        self.config_write_u16(space, 0x4, command | 0x2);
    }
}

/// A function is present when its vendor register is not all-ones.
pub fn device_present(vendor: u16) -> (r: bool)
    ensures
        r == (vendor != 0xffff),
{
    vendor != 0xffff
}

/// After probing function 0 of a slot, the scan leaves the slot when the
/// device is single-function: bit 7 of the header-type byte is clear.
pub fn function_scan_stops(func: u8, header_type: u8) -> (r: bool)
    ensures
        r == (func == 0 && header_type & 0x80 == 0),
{
    func == 0 && header_type & 0x80 == 0
}

} // verus!
