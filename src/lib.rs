//! Core of a small x86_64 kernel: frame and heap allocation, a priority-aware
//! cooperative scheduler with priority-inheritance locks, the keyboard
//! scancode channel, and a simple block-based filesystem.
use vstd::prelude::*;

pub mod fs;
pub mod task;
pub mod allocator;
pub mod memory;
pub mod interrupts;
pub mod storage;
pub mod virtio;
pub mod vga_buffer;

verus! {

} // verus!
