use titan_os::drivers::network::{
    bar_phys_address, eeprom_data, eeprom_read_command, eeprom_ready, mac_from_words, Error,
    NetworkSubClass,
};
use titan_os::drivers::pci::{
    config_address, device_present, function_scan_stops, Bar, ClassCode, ConfigSpace, Header,
    HeaderType, NonBridgeHeader, PCIConfigRegisters, Pci,
};
use titan_os::drivers::storage::StorageSubclass;
use titan_os::interrupts::InterruptIndex;
use titan_os::ReadError;

fn space_with(reg_index: usize, value: u32) -> ConfigSpace {
    let mut regs = vec![0u32; 64];
    regs[reg_index] = value;
    ConfigSpace::from_regs(regs)
}

fn dev() -> Pci {
    let header = Header::new(0, 0xFF, 0);
    Pci::new(0, 0, 0, header)
}

#[test]
fn config_address_encoding() {
    assert_eq!(config_address(0, 0, 0, 0), 0x8000_0000);
    assert_eq!(config_address(1, 2, 3, 0x8), 0x8001_1308);
    // The two low offset bits are dropped: the address selects a register.
    assert_eq!(config_address(1, 2, 3, 0xB), 0x8001_1308);
    assert_eq!(config_address(0xFF, 31, 7, 0xFC), 0x80FF_FFFC);
}

#[test]
fn config_reads_select_sub_words() {
    let s = space_with(1, 0x1234_5678);
    let d = dev();
    assert_eq!(d.config_read_u32(&s, 4), 0x1234_5678);
    assert_eq!(d.config_read_u32(&s, 7), 0x1234_5678);
    assert_eq!(d.config_read_u16(&s, 4), 0x5678);
    assert_eq!(d.config_read_u16(&s, 6), 0x1234);
    assert_eq!(d.config_read_u8(&s, 4), 0x78);
    assert_eq!(d.config_read_u8(&s, 5), 0x56);
    assert_eq!(d.config_read_u8(&s, 6), 0x34);
    assert_eq!(d.config_read_u8(&s, 7), 0x12);
}

#[test]
fn config_writes_merge_sub_words() {
    let mut s = space_with(1, 0x1234_5678);
    let d = dev();
    d.config_write_u8(&mut s, 5, 0xAA);
    assert_eq!(d.config_read_u32(&s, 4), 0x1234_AA78);
    d.config_write_u16(&mut s, 6, 0xBEEF);
    assert_eq!(d.config_read_u32(&s, 4), 0xBEEF_AA78);
    d.config_write_u32(&mut s, 4, 0xDEAD_C0DE);
    assert_eq!(d.config_read_u32(&s, 4), 0xDEAD_C0DE);
    // Other registers are untouched.
    assert_eq!(d.config_read_u32(&s, 0), 0);
    assert_eq!(d.config_read_u32(&s, 8), 0);
}

#[test]
fn command_register_enables() {
    let d = dev();
    let mut s = space_with(1, 0x0000_0011);
    d.enable_bus_mastering(&mut s);
    assert_eq!(d.config_read_u16(&s, 4), 0x0015);
    d.enable_mmio(&mut s);
    assert_eq!(d.config_read_u16(&s, 4), 0x0017);
    // The upper half of the register is preserved.
    assert_eq!(d.config_read_u16(&s, 6), 0);
}

#[test]
fn bar_decoding() {
    let d = dev();
    // Bit 0 set: an I/O register; the address is the rest of the word.
    assert_eq!(d.get_bar(0x0000_F001, 0, 0), Some(Bar::Io(0x0000_F001 >> 2)));
    // A register that reads back zero after the all-ones probe is absent.
    assert_eq!(d.get_bar(0xFEBC_0008, 0, 0), None);
    // 32-bit memory register, prefetchable; the size is the lowest set bit
    // of the masked readback.
    assert_eq!(
        d.get_bar(0xFEBC_0008, 0xFFFF_0000, 0),
        Some(Bar::Memory32 { size: 0x1_0000, address: 0xFEBC_0000, prefetchable: true })
    );
    // 64-bit memory register: the following register holds the upper half.
    assert_eq!(
        d.get_bar(0xE000_000C, 0xFFFF_FFF0, 0x12),
        Some(Bar::Memory64 { size: 0x10, address: 0x12_E000_0000, prefetchable: true })
    );
    // Reserved memory types decode to nothing.
    assert_eq!(d.get_bar(0xE000_0002, 0xFFFF_FFF0, 0), None);
}

#[test]
fn header_decoding_type1_with_interrupts() {
    let h = Header::new(0x0200_0000, 0, 0x0000_020B);
    assert_eq!(h.class_code, ClassCode::Network(NetworkSubClass::Ethernet));
    assert_eq!(h.header_type, HeaderType::Type1);
    assert_eq!(
        h.non_bridge_header,
        Some(NonBridgeHeader { interrupt_line: Some(0x0B), interrupt_pin: Some(2) })
    );
}

#[test]
fn header_decoding_absent_interrupt_values() {
    let h = Header::new(0x0106_0000, 0, 0x0000_00FF);
    assert_eq!(h.class_code, ClassCode::MassStorage(StorageSubclass::SATA));
    assert_eq!(
        h.non_bridge_header,
        Some(NonBridgeHeader { interrupt_line: None, interrupt_pin: None })
    );
}

#[test]
fn header_decoding_other_types_have_no_interrupt_block() {
    let h = Header::new(0x0300_0000, 2, 0xFFFF_FFFF);
    assert_eq!(h.class_code, ClassCode::Display);
    assert_eq!(h.header_type, HeaderType::Type2);
    assert_eq!(h.non_bridge_header, None);
    let h = Header::new(0, 7, 0);
    assert_eq!(h.header_type, HeaderType::Unknown);
    assert_eq!(h.non_bridge_header, None);
}

#[test]
fn class_code_from_word() {
    assert_eq!(ClassCode::from(0x0106), ClassCode::MassStorage(StorageSubclass::SATA));
    assert_eq!(ClassCode::from(0x0200), ClassCode::Network(NetworkSubClass::Ethernet));
    assert_eq!(ClassCode::from(0x0C03), ClassCode::SerialBus);
    assert_eq!(ClassCode::from(0x1300), ClassCode::NonEssential);
    assert_eq!(ClassCode::from(0x4200), ClassCode::Unclassified);
    assert_eq!(ClassCode::from(0x0000), ClassCode::Unclassified);
}

#[test]
fn subclass_parsing_and_names() {
    assert_eq!(StorageSubclass::from(0x6), StorageSubclass::SATA);
    assert_eq!(StorageSubclass::from(0x99), StorageSubclass::Other);
    assert_eq!(StorageSubclass::from(0x7).name(), "Serial Attached SCSI");
    assert_eq!(NetworkSubClass::from(0x0), NetworkSubClass::Ethernet);
    assert_eq!(NetworkSubClass::from(0x42), NetworkSubClass::Other);
    assert_eq!(NetworkSubClass::from(0x6).name(), "PIC MG Multi Computing");
    assert_eq!(HeaderType::from(0).name(), "Type 1");
    assert_eq!(ClassCode::from(0x0B00).name(), "Processor");
}

#[test]
fn register_offsets() {
    assert_eq!(PCIConfigRegisters::PCIVendorID.offset(), 0x0);
    assert_eq!(PCIConfigRegisters::PCIHeaderType.offset(), 0xE);
    assert_eq!(PCIConfigRegisters::PCIBAR0.offset(), 0x10);
    assert_eq!(PCIConfigRegisters::PCIInterruptLine.offset(), 0x3C);
}

#[test]
fn bus_scan_decisions() {
    assert!(device_present(0x8086));
    assert!(!device_present(0xFFFF));
    // A single-function device ends the slot scan after function 0.
    assert!(function_scan_stops(0, 0x00));
    assert!(!function_scan_stops(0, 0x80));
    assert!(!function_scan_stops(1, 0x00));
}

#[test]
fn interrupt_vector_numbers() {
    assert_eq!(InterruptIndex::Timer.as_u8(), 32);
    assert_eq!(InterruptIndex::Keyboard.as_u8(), 33);
    assert_eq!(InterruptIndex::SysCall.as_u8(), 0x80);
    assert_eq!(InterruptIndex::Timer.as_usize(), 32);
    assert_eq!(InterruptIndex::SysCall.as_usize(), 128);
}

#[test]
fn eeprom_handshake_helpers() {
    assert!(eeprom_ready(0x0000_0010));
    assert!(!eeprom_ready(0x0000_000F));
    assert_eq!(eeprom_read_command(0), 1);
    assert_eq!(eeprom_read_command(2), 0x201);
    assert_eq!(eeprom_data(0x1234_0010), 0x1234);
}

#[test]
fn mac_assembly() {
    let mac = mac_from_words(0xAABB, 0xCCDD, 0xEEFF);
    assert_eq!(mac, [0xBB, 0xAA, 0xDD, 0xCC, 0xFF, 0xEE]);
}

#[test]
fn bar_physical_address_selection() {
    let m32 = Some(Bar::Memory32 { size: 16, address: 0xFEBC_0000, prefetchable: false });
    assert_eq!(bar_phys_address(&m32), Some(0xFEBC_0000));
    let m64 = Some(Bar::Memory64 { size: 16, address: 0x12_0000_0000, prefetchable: false });
    assert_eq!(bar_phys_address(&m64), Some(0x12_0000_0000));
    assert_eq!(bar_phys_address(&Some(Bar::Io(0x3000))), None);
    assert_eq!(bar_phys_address(&None), None);
}

#[test]
fn network_error_from_read_error() {
    assert_eq!(Error::from(ReadError::Null), Error::OutOfMemory);
    assert_eq!(Error::from(ReadError::NotAligned), Error::OutOfMemory);
}
