//! PCI bus enumeration via ECAM (Enhanced Configuration Access Mechanism).
//!
//! The QEMU RISC-V `virt` machine exposes PCI ECAM at 0x3000_0000.

use vstd::prelude::*;

verus! {

/// ECAM base address for PCI configuration space (QEMU virt).
pub const PCI_ECAM_BASE: usize = 0x3000_0000;

/// Devices on a bus.
pub const NUM_DEVICES: u8 = 32;

/// Configuration register: vendor and device ID.
pub const REG_ID: u16 = 0x00;

/// Configuration register: command.
pub const REG_COMMAND: u16 = 0x04;

/// Configuration register: status.
pub const REG_STATUS: u16 = 0x06;

/// Configuration register: BAR0.
pub const REG_BAR0: u16 = 0x10;

/// What a read gives where there is no device.
pub const NO_DEVICE: u32 = 0xFFFF_FFFF;

/// Command bits: Memory Space (bit 1) and Bus Master (bit 2).
pub const COMMAND_ENABLE: u16 = 0x06;

/// Whether a device and function number exist on a bus.
pub open spec fn valid_function(dev: u8, func: u8) -> bool {
    dev < 32 && func < 8
}

/// The fields of an ECAM address laid over each other.
pub open spec fn ecam_fields(bus: u8, dev: u8, func: u8, offset: u16) -> usize {
    PCI_ECAM_BASE | ((bus as usize) << 20) | ((dev as usize) << 15) | ((func as usize) << 12) | ((
    offset as usize) & 0xFFF)
}

/// The ECAM address of a given BDF + register offset: a bus has 1 MiB of
/// configuration space, a device 32 KiB, a function 4 KiB. The numbers of a
/// device or function that cannot exist run over into each other.
pub open spec fn ecam(bus: u8, dev: u8, func: u8, offset: u16) -> usize {
    if valid_function(dev, func) {
        (PCI_ECAM_BASE + bus * 0x10_0000 + dev * 0x8000 + func * 0x1000 + offset % 0x1000) as usize
    } else {
        ecam_fields(bus, dev, func, offset)
    }
}

/// Compute the ECAM address for a given BDF + register offset.
pub fn ecam_addr(bus: u8, dev: u8, func: u8, offset: u16) -> (r: usize)
    ensures
        r == ecam(bus, dev, func, offset),
{
    proof {
        if valid_function(dev, func) {
            law_ecam_layout(bus, dev, func, offset);
        }
    }
    PCI_ECAM_BASE | ((bus as usize) << 20) | ((dev as usize) << 15) | ((func as usize) << 12) | ((
    offset as usize) & 0xFFF)
}

/// The fields of the address of a valid device do not run over into each other:
/// they add up, within 256 MiB of configuration space.
pub proof fn law_ecam_layout(bus: u8, dev: u8, func: u8, offset: u16)
    requires
        valid_function(dev, func),
    ensures
        ecam_fields(bus, dev, func, offset) == ecam(bus, dev, func, offset),
        PCI_ECAM_BASE <= ecam(bus, dev, func, offset) < PCI_ECAM_BASE + 0x1000_0000,
{
    assert((0x3000_0000usize | ((bus as usize) << 20) | ((dev as usize) << 15) | ((func as usize)
        << 12) | ((offset as usize) & 0xFFF)) == 0x3000_0000 + bus * 0x10_0000 + dev * 0x8000
        + func * 0x1000 + offset % 0x1000) by (bit_vector)
        requires
            dev < 32,
            func < 8,
    ;
}

/// Different registers have different addresses.
pub proof fn law_ecam_is_injective(
    bus: u8,
    dev: u8,
    func: u8,
    offset: u16,
    bus2: u8,
    dev2: u8,
    func2: u8,
    offset2: u16,
)
    requires
        valid_function(dev, func),
        valid_function(dev2, func2),
        ecam(bus, dev, func, offset) == ecam(bus2, dev2, func2, offset2),
    ensures
        bus == bus2,
        dev == dev2,
        func == func2,
        offset % 0x1000 == offset2 % 0x1000,
{
}

/// PCI device header (Type 0) fields we care about.
#[derive(Debug, Clone, Copy, PartialEq, Eq, Structural)]
pub struct PciDeviceInfo {
    pub bus: u8,
    pub dev: u8,
    pub func: u8,
    pub vendor_id: u16,
    pub device_id: u16,
    pub bar0: u32,
}

/// Whether the ID register `id` is that of the given device.
pub open spec fn identifies(id: u32, vendor: u16, device: u16) -> bool {
    id != NO_DEVICE && id % 0x1_0000 == vendor && id / 0x1_0000 == device
}

/// A scan of bus 0 in progress.
#[derive(Debug, Clone, Copy, PartialEq, Eq, Structural)]
pub struct PciScan {
    pub vendor: u16,
    pub device: u16,
    /// The device number being looked at.
    pub dev: u8,
    /// Whether it was identified, and its BAR0 is being read.
    pub found: bool,
}

/// What a scan does next.
#[derive(Debug, Clone, Copy, PartialEq, Eq, Structural)]
pub enum ScanStep {
    /// Read this register of function 0 of this device on bus 0.
    Read { dev: u8, offset: u16 },
    /// The device was found.
    Found(PciDeviceInfo),
    /// There is no such device.
    Missing,
}

impl PciScan {
    /// A scan that has to read the ID register of device 0.
    pub fn new(vendor: u16, device: u16) -> (r: PciScan)
        ensures
            r == (PciScan { vendor, device, dev: 0, found: false }),
    {
        PciScan { vendor, device, dev: 0, found: false }
    }

    /// What the device at hand is, if its BAR0 holds `bar0`.
    pub open spec fn info(self, bar0: u32) -> PciDeviceInfo {
        PciDeviceInfo {
            bus: 0,
            dev: self.dev,
            func: 0,
            vendor_id: self.vendor,
            device_id: self.device,
            bar0,
        }
    }

    /// The state and the step after a read gave `value`.
    pub open spec fn next(self, value: u32) -> (PciScan, ScanStep) {
        if self.found {
            (self, ScanStep::Found(self.info(value)))
        } else if identifies(value, self.vendor, self.device) {
            (
                PciScan { found: true, ..self },
                ScanStep::Read { dev: self.dev, offset: REG_BAR0 },
            )
        } else if self.dev >= NUM_DEVICES - 1 {
            (self, ScanStep::Missing)
        } else {
            (
                PciScan { dev: (self.dev + 1) as u8, ..self },
                ScanStep::Read { dev: (self.dev + 1) as u8, offset: REG_ID },
            )
        }
    }
}

/// Scan PCI bus 0 for a device: takes what the read that the scan asked for
/// gave, and says how the scan goes on.
pub fn pci_find_device(scan: &mut PciScan, value: u32) -> (r: ScanStep)
    ensures
        (*final(scan), r) == old(scan).next(value),
{
    if scan.found {
        return ScanStep::Found(
            PciDeviceInfo {
                bus: 0,
                dev: scan.dev,
                func: 0,
                vendor_id: scan.vendor,
                device_id: scan.device,
                bar0: value,
            },
        );
    }
    if value != NO_DEVICE {
        let vid: u16 = (value % 0x1_0000) as u16;
        let did: u16 = (value / 0x1_0000) as u16;
        if vid == scan.vendor && did == scan.device {
            scan.found = true;
            return ScanStep::Read { dev: scan.dev, offset: REG_BAR0 };
        }
    }
    if scan.dev >= NUM_DEVICES - 1 {
        return ScanStep::Missing;
    }
    scan.dev = scan.dev + 1;
    ScanStep::Read { dev: scan.dev, offset: REG_ID }
}

/// How a scan ends on a bus whose devices have the ID registers `ids` and the
/// BAR0 registers `bars`.
pub open spec fn outcome(scan: PciScan, ids: Seq<u32>, bars: Seq<u32>) -> Option<PciDeviceInfo>
    decreases 2 * (NUM_DEVICES - scan.dev) - (if scan.found {
            1int
        } else {
            0
        }),
{
    if scan.dev >= NUM_DEVICES {
        None
    } else {
        let value = if scan.found {
            bars[scan.dev as int]
        } else {
            ids[scan.dev as int]
        };
        let (after, step) = scan.next(value);
        match step {
            ScanStep::Found(info) => Some(info),
            ScanStep::Missing => None,
            ScanStep::Read { .. } => outcome(after, ids, bars),
        }
    }
}

/// The first device from `dev` on with the given ID, or the number of devices.
pub open spec fn first_match(ids: Seq<u32>, vendor: u16, device: u16, dev: int) -> int
    decreases NUM_DEVICES - dev,
{
    if dev >= NUM_DEVICES {
        NUM_DEVICES as int
    } else if identifies(ids[dev], vendor, device) {
        dev
    } else {
        first_match(ids, vendor, device, dev + 1)
    }
}

/// A scan finds the first device with the ID it looks for, with its BAR0, and
/// finds nothing just where there is none.
pub proof fn law_scan_finds_first_match(
    ids: Seq<u32>,
    bars: Seq<u32>,
    vendor: u16,
    device: u16,
)
    requires
        ids.len() == NUM_DEVICES,
        bars.len() == NUM_DEVICES,
    ensures
        ({
            let at = first_match(ids, vendor, device, 0);
            let scan = PciScan { vendor, device, dev: 0, found: false };
            &&& 0 <= at <= NUM_DEVICES
            &&& at < NUM_DEVICES ==> identifies(ids[at], vendor, device)
            &&& forall|i: int| 0 <= i < at ==> !identifies(#[trigger] ids[i], vendor, device)
            &&& outcome(scan, ids, bars) == if at < NUM_DEVICES {
                Some(
                    PciDeviceInfo {
                        bus: 0,
                        dev: at as u8,
                        func: 0,
                        vendor_id: vendor,
                        device_id: device,
                        bar0: bars[at],
                    },
                )
            } else {
                None
            }
        }),
{
    lemma_scan_from(ids, bars, vendor, device, 0);
}

proof fn lemma_scan_from(ids: Seq<u32>, bars: Seq<u32>, vendor: u16, device: u16, dev: u8)
    requires
        ids.len() == NUM_DEVICES,
        bars.len() == NUM_DEVICES,
        dev < NUM_DEVICES,
    ensures
        ({
            let at = first_match(ids, vendor, device, dev as int);
            let scan = PciScan { vendor, device, dev, found: false };
            &&& dev <= at <= NUM_DEVICES
            &&& at < NUM_DEVICES ==> identifies(ids[at], vendor, device)
            &&& forall|i: int| dev <= i < at ==> !identifies(#[trigger] ids[i], vendor, device)
            &&& outcome(scan, ids, bars) == if at < NUM_DEVICES {
                Some(PciScan { vendor, device, dev: at as u8, found: true }.info(bars[at]))
            } else {
                None
            }
        }),
    decreases NUM_DEVICES - dev,
{
    let scan = PciScan { vendor, device, dev, found: false };
    if identifies(ids[dev as int], vendor, device) {
        let hit = PciScan { vendor, device, dev, found: true };
        assert(outcome(scan, ids, bars) == outcome(hit, ids, bars));
        assert(outcome(hit, ids, bars) == Some(hit.info(bars[dev as int])));
    } else if dev < NUM_DEVICES - 1 {
        lemma_scan_from(ids, bars, vendor, device, (dev + 1) as u8);
    } else {
        assert(first_match(ids, vendor, device, dev as int + 1) == NUM_DEVICES);
    }
}

/// The command and status registers of an enabled device, as one 32-bit value.
pub open spec fn enabled_value(cmd: u16, upper: u16) -> u32 {
    ((cmd | COMMAND_ENABLE) + upper * 0x1_0000) as u32
}

/// A 32-bit write to PCI config space.
#[derive(Debug, Clone, Copy, PartialEq, Eq, Structural)]
pub struct ConfigWrite {
    pub bus: u8,
    pub dev: u8,
    pub func: u8,
    pub offset: u16,
    pub val: u32,
}

/// Enable memory space access and bus mastering for the given device, whose
/// command register holds `cmd` and whose status register holds `upper`.
/// Returns the write to perform.
pub fn pci_enable_device(bus: u8, dev: u8, func: u8, cmd: u16, upper: u16) -> (r: ConfigWrite)
    ensures
        r == (ConfigWrite {
            bus,
            dev,
            func,
            offset: REG_COMMAND,
            val: enabled_value(cmd, upper),
        }),
{
    let new_cmd = cmd | COMMAND_ENABLE;
    let val: u32 = new_cmd as u32 + upper as u32 * 0x1_0000;
    ConfigWrite { bus, dev, func, offset: REG_COMMAND, val }
}

/// Enabling a device sets the two enable bits and keeps every other bit of the
/// command register and the whole status register.
pub proof fn law_enabling_keeps_other_bits(cmd: u16, upper: u16)
    ensures
        enabled_value(cmd, upper) & 0x06 == 0x06,
        enabled_value(cmd, upper) & 0xFFFF_FFF9 == ((cmd as u32) | ((upper as u32) << 16))
            & 0xFFFF_FFF9,
        enabled_value(cmd, upper) / 0x1_0000 == upper,
{
    let c = cmd | COMMAND_ENABLE;
    let v = enabled_value(cmd, upper);
    assert(v == c + upper * 0x1_0000);
    assert(v & 0x06 == 0x06) by (bit_vector)
        requires
            v == c + upper * 0x1_0000,
            c == cmd | 0x06,
    ;
    assert(v & 0xFFFF_FFF9 == ((cmd as u32) | ((upper as u32) << 16)) & 0xFFFF_FFF9)
        by (bit_vector)
        requires
            v == c + upper * 0x1_0000,
            c == cmd | 0x06,
    ;
}

/// The configuration space of a function starts at 0x3000_0000 and holds 1 MiB
/// for each bus, 32 KiB for each device and 4 KiB for each function, and the bits
/// of an offset above those do not matter.
pub proof fn law_ecam_addresses(bus: u8, dev: u8, func: u8, offset: u16)
    ensures
        valid_function(dev, func) <==> dev <= 31 && func <= 7,
        dev <= 31 && func <= 7 ==> ecam(bus, dev, func, offset) == 0x3000_0000 + ((bus * 32 + dev)
            * 8 + func) * 4096 + offset % 4096,
        ecam(bus, dev, func, offset) == 0x3000_0000usize | ((bus as usize) << 20) | ((dev as usize)
            << 15) | ((func as usize) << 12) | ((offset as usize) & 0xFFF),
{
    if valid_function(dev, func) {
        law_ecam_layout(bus, dev, func, offset);
    }
}

/// An identification register names a device by its vendor in the lower half
/// and its device number in the upper half; all ones means that there is none.
pub proof fn law_identification(id: u32, vendor: u16, device: u16)
    ensures
        identifies(id, vendor, device) <==> id == device * 0x1_0000 + vendor && id
            != 0xFFFF_FFFFu32,
{
}

/// A scan reads the identification of one device after another on the first bus;
/// at the first one that is looked for it reads the first base address register,
/// and behind the last one it gives up.
pub proof fn law_scan_order(scan: PciScan, value: u32)
    requires
        scan.dev <= 31,
        scan.vendor != 0xFFFF || scan.device != 0xFFFF,
    ensures
        scan.found ==> scan.next(value).1 == ScanStep::Found(
            (PciDeviceInfo {
                bus: 0,
                dev: scan.dev,
                func: 0,
                vendor_id: scan.vendor,
                device_id: scan.device,
                bar0: value,
            }),
        ),
        !scan.found && value == scan.device * 0x1_0000 + scan.vendor ==> scan.next(value).1 == (
        ScanStep::Read { dev: scan.dev, offset: 0x10 }) && scan.next(value).0 == (PciScan {
            found: true,
            ..scan
        }),
        !scan.found && value != scan.device * 0x1_0000 + scan.vendor && scan.dev < 31
            ==> scan.next(value).1 == (ScanStep::Read { dev: (scan.dev + 1) as u8, offset: 0 })
            && scan.next(value).0 == (PciScan { dev: (scan.dev + 1) as u8, ..scan }),
        !scan.found && value != scan.device * 0x1_0000 + scan.vendor && scan.dev == 31
            ==> scan.next(value).1 == ScanStep::Missing,
{
    law_identification(value, scan.vendor, scan.device);
}

} // verus!
