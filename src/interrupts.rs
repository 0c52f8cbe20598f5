//! Interrupt vector numbers of the remapped legacy PICs.
use vstd::prelude::*;

verus! {

/// First vector of the master PIC (IRQs 0-7).
pub const PIC_1_OFFSET: u8 = 32;
/// First vector of the slave PIC (IRQs 8-15).
pub const PIC_2_OFFSET: u8 = 40;

/// Vector of the breakpoint exception.
pub const BREAKPOINT_VECTOR: u8 = 3;
/// Vector of the double-fault exception.
pub const DOUBLE_FAULT_VECTOR: u8 = 8;
/// Vector of the page-fault exception.
pub const PAGE_FAULT_VECTOR: u8 = 14;
/// I/O port the keyboard controller delivers scancodes on.
pub const KEYBOARD_DATA_PORT: u16 = 0x60;

/// Hardware interrupts the kernel handles.
#[derive(Debug, Clone, Copy, PartialEq, Eq, Structural)]
pub enum InterruptIndex {
    Timer,
    Keyboard,
}

pub open spec fn vector_of(i: InterruptIndex) -> u8 {
    match i {
        InterruptIndex::Timer => 32,
        InterruptIndex::Keyboard => 33,
    }
}

impl InterruptIndex {
    /// The interrupt's vector: the timer is IRQ 0 and the keyboard IRQ 1 of
    /// the master PIC.
    pub fn as_u8(self) -> (r: u8)
        ensures
            r == vector_of(self),
    {
        match self {
            InterruptIndex::Timer => PIC_1_OFFSET,
            InterruptIndex::Keyboard => PIC_1_OFFSET + 1,
        }
    }

    pub fn as_usize(self) -> (r: usize)
        ensures
            r == vector_of(self),
    {
        self.as_u8() as usize
    }
}

/// Whether `vector` is one of the PICs' remapped vectors (32 to 47), which
/// need an end-of-interrupt signal.
pub fn is_pic_vector(vector: u8) -> (r: bool)
    ensures
        r == (PIC_1_OFFSET <= vector < PIC_2_OFFSET + 8),
{
    vector >= PIC_1_OFFSET && vector < PIC_2_OFFSET + 8
}

/// Exit codes written to the emulator's debug-exit port.
#[derive(Debug, Clone, Copy, PartialEq, Eq, Structural)]
pub enum QemuExitCode {
    Success,
    Failed,
}

impl QemuExitCode {
    /// The code written: 0x10 for success, 0x11 for failure.
    pub fn as_u32(self) -> (r: u32)
        ensures
            self == QemuExitCode::Success ==> r == 0x10,
            self == QemuExitCode::Failed ==> r == 0x11,
    {
        match self {
            QemuExitCode::Success => 0x10,
            QemuExitCode::Failed => 0x11,
        }
    }
}

/// I/O port of the emulator's debug-exit device.
pub const QEMU_EXIT_PORT: u16 = 0xF4;

} // verus!
