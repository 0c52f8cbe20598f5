//! PCI configuration space addressing through the legacy I/O ports.
use vstd::prelude::*;

verus! {

/// I/O port that takes a configuration address.
pub const CONFIG_ADDRESS: u16 = 0xCF8;
/// I/O port that then reads or writes the addressed register.
pub const CONFIG_DATA: u16 = 0xCFC;
/// PCI vendor id of VirtIO devices.
pub const VIRTIO_VENDOR_ID: u16 = 0x1AF4;

/// The configuration address of register `offset` of `bus`/`device`/
/// `function`: the enable bit, the bus from bit 16, the device from bit 11,
/// the function from bit 8, and the register offset rounded down to 4 bytes.
pub open spec fn config_address_of(bus: u8, device: u8, function: u8, offset: u8) -> u32 {
    (0x8000_0000u32 | ((bus as u32) << 16u32) | ((device as u32) << 11u32) | ((function as u32) << 8u32) | (offset as u32 & 0xFC)) as u32
}

/// The value written to the address port to reach register `offset` of a
/// device function.
pub fn config_address(bus: u8, device: u8, function: u8, offset: u8) -> (r: u32)
    ensures
        r == config_address_of(bus, device, function, offset),
        r & 0x8000_0000 != 0,
        r & 3 == 0,
{
    let r = 0x8000_0000u32 | ((bus as u32) << 16u32) | ((device as u32) << 11u32) | ((function as u32) << 8u32) | (offset as u32 & 0xFC);
    assert(r & 0x8000_0000 != 0 && r & 3 == 0) by (bit_vector)
        requires
            r == 0x8000_0000u32 | ((bus as u32) << 16u32) | ((device as u32) << 11u32) | ((function as u32) << 8u32) | (offset as u32 & 0xFC),
    ;
    r
}

/// Whether a device with this vendor id is a VirtIO device.
pub fn is_virtio_vendor(vendor_id: u16) -> (r: bool)
    ensures
        r == (vendor_id == VIRTIO_VENDOR_ID),
{
    vendor_id == VIRTIO_VENDOR_ID
}

} // verus!
