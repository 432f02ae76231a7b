//! Interrupt-vector numbering. Installing the descriptor table and driving
//! the interrupt controllers is hardware work left to the embedding program;
//! the vector arithmetic lives here.

use vstd::prelude::*;

verus! {

/// Vector offset of the primary interrupt controller.
pub const PIC_1_OFFSET: u8 = 32;

/// Vector offset of the secondary interrupt controller.
pub const PIC_2_OFFSET: u8 = PIC_1_OFFSET + 8;

/// Vector used for system calls.
pub const SYSCALL_OFFSET: u8 = 0x80;

/// The interrupt vectors this kernel handles.
#[derive(Clone, Copy, Debug, PartialEq, Eq, Structural)]
pub enum InterruptIndex {
    Timer,
    Keyboard,
    SysCall,
}

impl InterruptIndex {
    /// The vector number of this interrupt.
    pub fn as_u8(self) -> (r: u8)
        ensures
            self is Timer ==> r == PIC_1_OFFSET,
            self is Keyboard ==> r == PIC_1_OFFSET + 1,
            self is SysCall ==> r == SYSCALL_OFFSET,
    {
        match self {
            InterruptIndex::Timer => PIC_1_OFFSET,
            InterruptIndex::Keyboard => PIC_1_OFFSET + 1,
            InterruptIndex::SysCall => SYSCALL_OFFSET,
        }
    }

    /// The vector number of this interrupt, widened for table indexing.
    pub fn as_usize(self) -> (r: usize)
        ensures
            self is Timer ==> r == PIC_1_OFFSET,
            self is Keyboard ==> r == PIC_1_OFFSET + 1,
            self is SysCall ==> r == SYSCALL_OFFSET,
    {
        self.as_u8() as usize
    }
}

} // verus!
