//! Heap-memory subsystem of a bare-metal kernel, together with the pure
//! decision logic of its device-discovery and interrupt glue.
//!
//! The core turns a fixed virtual address range into a dynamic-allocation
//! facility: a physical-frame source walks the firmware memory map, a mapper
//! plans the page-to-frame mapping of the heap range, and three interchangeable
//! allocation strategies (bump, first-fit free list with coalescing, and
//! size-classed blocks with free-list fallback) serve `allocate`/`deallocate`
//! behind one contract. Hardware access (port I/O, page-table writes) is left
//! to the embedding program; everything here works on plain values.

use vstd::prelude::*;

pub mod allocator;
pub mod drivers;
pub mod interrupts;
pub mod memory;

verus! {

/// Why a virtual address may not be dereferenced.
#[derive(Clone, Copy, Debug, PartialEq, Eq, Structural)]
pub enum ReadError {
    Null,
    NotAligned,
}

/// Checks that a virtual address may be read as a value of the given
/// alignment: it is neither null nor misaligned.
pub fn validate_read(addr: u64, align: u64) -> (r: Result<(), ReadError>)
    requires
        align > 0,
    ensures
        r == Err::<(), ReadError>(ReadError::Null) <==> addr == 0,
        r == Err::<(), ReadError>(ReadError::NotAligned) <==> (addr != 0 && addr % align != 0),
        r is Ok <==> (addr != 0 && addr % align == 0),
{
    if addr == 0 {
        return Err(ReadError::Null);
    }
    if addr % align != 0 {
        return Err(ReadError::NotAligned);
    }
    Ok(())
}

/// Translates a physical address through the fixed physical-memory offset
/// mapping supplied by the boot environment.
pub fn phys_to_virt_addr(physical_memory_offset: u64, phys_addr: u64) -> (r: u64)
    requires
        physical_memory_offset + phys_addr <= u64::MAX,
    ensures
        r == physical_memory_offset + phys_addr,
{
    physical_memory_offset + phys_addr
}

/// Exit status reported to the emulator by the test harness.
#[derive(Clone, Copy, Debug, PartialEq, Eq, Structural)]
pub enum QemuExitStatus {
    Failure,
    Success,
}

impl QemuExitStatus {
    /// The code written to the emulator's exit port for this status.
    pub fn code(self) -> (r: u32)
        ensures
            self is Failure ==> r == 0x11,
            self is Success ==> r == 0x10,
    {
        match self {
            QemuExitStatus::Failure => 0x11,
            QemuExitStatus::Success => 0x10,
        }
    }
}

/// A runnable test case; the embedding program's test runner drives it.
pub trait Testable {
    fn run(&self);
}

} // verus!
