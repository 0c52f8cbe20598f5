//! Finding the VirtIO block device on the PCI bus.
use vstd::prelude::*;

pub mod pci;

verus! {

} // verus!
