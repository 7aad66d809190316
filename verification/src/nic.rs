//! The e1000 as the network device of the kernel.

use vstd::prelude::*;

use crate::pci::PciDeviceInfo;

verus! {

/// PCI vendor ID of Intel.
pub const E1000_VENDOR: u16 = 0x8086;

/// PCI device ID of the e1000.
pub const E1000_DEVICE: u16 = 0x100E;

/// Fixed MMIO base assigned to the e1000 BAR0 when firmware hasn't done it.
pub const E1000_MMIO_BASE: u32 = 0x4000_0000;

/// Where the PCI MMIO window starts.
pub const MMIO_WINDOW_START: u32 = 0x4000_0000;

/// Where the PCI MMIO window ends.
pub const MMIO_WINDOW_END: u32 = 0x4020_0000;

/// The address that a memory BAR holds: its low 4 bits are flags.
pub open spec fn bar_address(raw: u32) -> int {
    raw - raw % 16
}

/// Whether firmware left BAR0 without an address: it is to be assigned
/// [`E1000_MMIO_BASE`] before any MMIO access, and read again.
pub fn bar0_unassigned(info: &PciDeviceInfo) -> (r: bool)
    ensures
        r == (bar_address(info.bar0) == 0),
{
    info.bar0 < 16
}

/// Tests whether BAR0 holds an address.
pub fn bar0_assigned(raw: u32) -> (r: bool)
    ensures
        r == (bar_address(raw) != 0),
{
    raw >= 16
}

/// The MMIO base address that BAR0 holds. It must not be zero.
pub fn bar0_base(raw: u32) -> (r: usize)
    requires
        bar_address(raw) != 0,
    ensures
        r == bar_address(raw),
        r != 0,
        r % 16 == 0,
{
    (raw - raw % 16) as usize
}

/// The address that is assigned is one that BAR0 can hold, and lies inside the
/// MMIO window.
pub proof fn law_assigned_base_is_usable()
    ensures
        bar_address(E1000_MMIO_BASE) == E1000_MMIO_BASE,
        bar_address(E1000_MMIO_BASE) != 0,
        MMIO_WINDOW_START <= bar_address(E1000_MMIO_BASE) < MMIO_WINDOW_END,
{
}

/// The address in a base address register is the register without its four flag
/// bits.
pub proof fn law_bar_address_drops_flags(raw: u32)
    ensures
        bar_address(raw) % 16 == 0,
        bar_address(raw) <= raw < bar_address(raw) + 16,
{
}

/// The device that is looked for is the 82540EM of vendor 0x8086, and the
/// address that it is given is the start of a window of 2 MiB at 0x4000_0000.
pub proof fn law_device_and_window(raw: u32)
    ensures
        E1000_VENDOR == 0x8086 && E1000_DEVICE == 0x100E,
        E1000_MMIO_BASE == 0x4000_0000,
        MMIO_WINDOW_START <= raw < MMIO_WINDOW_END <==> 0x4000_0000 <= raw < 0x4000_0000
            + 0x20_0000,
{
}

} // verus!
