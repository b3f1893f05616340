//! Virtio over MMIO: register layout and the decisions of the device
//! initialisation protocol (virtio 1.1 §4.2.2, §3.1.1).
//!
//! Register accesses themselves are volatile loads and stores that the
//! platform layer performs. A [`Transport`] turns what was read into the
//! register writes that come next, as a list of [`RegWrite`]s to perform
//! in order.

use vstd::prelude::*;
use vstd::arithmetic::div_mod::{lemma_fundamental_div_mod, lemma_fundamental_div_mod_converse};

verus! {

pub const REG_MAGIC_VALUE: usize = 0x000;
pub const REG_VERSION: usize = 0x004;
pub const REG_DEVICE_ID: usize = 0x008;
pub const REG_VENDOR_ID: usize = 0x00c;
pub const REG_DEVICE_FEATURES: usize = 0x010;
pub const REG_DEVICE_FEATURES_SEL: usize = 0x014;
pub const REG_DRIVER_FEATURES: usize = 0x020;
pub const REG_DRIVER_FEATURES_SEL: usize = 0x024;
pub const REG_QUEUE_SEL: usize = 0x030;
pub const REG_QUEUE_NUM_MAX: usize = 0x034;
pub const REG_QUEUE_NUM: usize = 0x038;
pub const REG_QUEUE_READY: usize = 0x044;
pub const REG_QUEUE_NOTIFY: usize = 0x050;
pub const REG_INTERRUPT_STATUS: usize = 0x060;
pub const REG_INTERRUPT_ACK: usize = 0x064;
pub const REG_STATUS: usize = 0x070;
pub const REG_QUEUE_DESC_LOW: usize = 0x080;
pub const REG_QUEUE_DESC_HIGH: usize = 0x084;
pub const REG_QUEUE_DRIVER_LOW: usize = 0x090;
pub const REG_QUEUE_DRIVER_HIGH: usize = 0x094;
pub const REG_QUEUE_DEVICE_LOW: usize = 0x0a0;
pub const REG_QUEUE_DEVICE_HIGH: usize = 0x0a4;
pub const REG_CONFIG: usize = 0x100;

/// "virt" in little-endian.
pub const VIRTIO_MAGIC: u32 = 0x7472_6976;

/// Device-status bits.
pub const STATUS_ACK: u32 = 1;
pub const STATUS_DRIVER: u32 = 2;
pub const STATUS_DRIVER_OK: u32 = 4;
pub const STATUS_FEATURES_OK: u32 = 8;
pub const STATUS_FAILED: u32 = 128;

/// Feature bit: the device speaks virtio 1.0 or later.
pub const VIRTIO_F_VERSION_1: u64 = 0x1_0000_0000;

/// Device ids (virtio 1.1 §5).
pub const VIRTIO_ID_NET: u32 = 1;
pub const VIRTIO_ID_BLOCK: u32 = 2;
pub const VIRTIO_ID_CONSOLE: u32 = 3;
pub const VIRTIO_ID_GPU: u32 = 16;

/// Identification read from a virtio-mmio slot.
#[derive(Debug, Clone, Copy, PartialEq, Eq, Structural)]
pub struct ProbeHeader {
    pub device_id: u32,
    pub vendor_id: u32,
    pub version: u32,
}

/// Why device initialisation stopped.
#[derive(Debug, Clone, Copy, PartialEq, Eq, Structural)]
pub enum InitError {
    BadMagic,
    UnsupportedVersion,
    NoDevice,
    QueueTooSmall,
}

impl InitError {
    /// The message the kernel logs for this error.
    pub fn message(&self) -> (s: &'static str)
        ensures
            s@ == (match self {
                InitError::BadMagic => "virtio: bad magic"@,
                InitError::UnsupportedVersion => "virtio: unsupported version"@,
                InitError::NoDevice => "virtio: no device in slot"@,
                InitError::QueueTooSmall => "virtio: queue too small"@,
            }),
    {
        match self {
            InitError::BadMagic => "virtio: bad magic",
            InitError::UnsupportedVersion => "virtio: unsupported version",
            InitError::NoDevice => "virtio: no device in slot",
            InitError::QueueTooSmall => "virtio: queue too small",
        }
    }
}

/// One 32-bit register store at byte `offset` from the slot's base.
#[derive(Debug, Clone, Copy, PartialEq, Eq, Structural)]
pub struct RegWrite {
    pub offset: usize,
    pub value: u32,
}

/// Low 32 bits of `v`.
pub open spec fn lo32(v: u64) -> u32 {
    (v % 0x1_0000_0000) as u32
}

/// High 32 bits of `v`.
pub open spec fn hi32(v: u64) -> u32 {
    (v / 0x1_0000_0000) as u32
}

/// The two halves of `v`.
fn split64(v: u64) -> (r: (u32, u32))
    ensures
        r.0 == lo32(v),
        r.1 == hi32(v),
{
    ((v % 0x1_0000_0000) as u32, (v / 0x1_0000_0000) as u32)
}

/// The 64-bit value with halves `lo` and `hi`.
fn join64(lo: u32, hi: u32) -> (r: u64)
    ensures
        r == hi as u64 * 0x1_0000_0000 + lo as u64,
{
    hi as u64 * 0x1_0000_0000 + lo as u64
}

/// The status-register writes that start device initialisation: reset,
/// then ACKNOWLEDGE, then ACKNOWLEDGE | DRIVER.
pub open spec fn begin_writes() -> Seq<RegWrite> {
    seq![
        RegWrite { offset: REG_STATUS, value: 0 },
        RegWrite { offset: REG_STATUS, value: STATUS_ACK },
        RegWrite { offset: REG_STATUS, value: STATUS_ACK | STATUS_DRIVER },
    ]
}

/// Whether identification registers `magic`, `version`, `device_id`
/// name a device this driver can initialise.
pub open spec fn ident_ok(magic: u32, version: u32, device_id: u32) -> bool {
    magic == VIRTIO_MAGIC && (version == 1 || version == 2) && device_id != 0
}

/// The writes that offer `features` (both halves through the selector)
/// and add FEATURES_OK to `status`.
pub open spec fn features_writes(features: u64, status: u32) -> Seq<RegWrite> {
    seq![
        RegWrite { offset: REG_DRIVER_FEATURES_SEL, value: 0 },
        RegWrite { offset: REG_DRIVER_FEATURES, value: lo32(features) },
        RegWrite { offset: REG_DRIVER_FEATURES_SEL, value: 1 },
        RegWrite { offset: REG_DRIVER_FEATURES, value: hi32(features) },
        RegWrite { offset: REG_STATUS, value: status | STATUS_FEATURES_OK },
    ]
}

/// The features a driver accepts from the device-feature halves `lo`,
/// `hi`: VERSION_1 only, when offered.
pub open spec fn accepted_features(lo: u32, hi: u32) -> u64 {
    ((hi as int * 0x1_0000_0000 + lo as int) as u64) & VIRTIO_F_VERSION_1
}

/// Device class a driver exists for.
#[derive(Debug, Clone, Copy, PartialEq, Eq, Structural)]
pub enum DriverKind {
    Block,
    Net,
    Gpu,
}

/// The driver for device id `device_id`; none for the classes without
/// one (console, entropy, balloon, ...).
pub fn driver_for(device_id: u32) -> (r: Option<DriverKind>)
    ensures
        r == (if device_id == VIRTIO_ID_BLOCK {
            Some(DriverKind::Block)
        } else if device_id == VIRTIO_ID_NET {
            Some(DriverKind::Net)
        } else if device_id == VIRTIO_ID_GPU {
            Some(DriverKind::Gpu)
        } else {
            None
        }),
{
    if device_id == VIRTIO_ID_BLOCK {
        Some(DriverKind::Block)
    } else if device_id == VIRTIO_ID_NET {
        Some(DriverKind::Net)
    } else if device_id == VIRTIO_ID_GPU {
        Some(DriverKind::Gpu)
    } else {
        None
    }
}

/// First virtio-mmio slot of the QEMU `virt` machine.
pub const VIRTIO_MMIO_BASE: usize = 0x0a00_0000;

/// Bytes between virtio-mmio slots.
pub const VIRTIO_MMIO_STRIDE: usize = 0x200;

/// Number of virtio-mmio slots.
pub const VIRTIO_MMIO_COUNT: usize = 32;

/// Base address of virtio-mmio slot `slot`.
pub fn slot_base(slot: usize) -> (b: usize)
    requires
        slot < VIRTIO_MMIO_COUNT,
    ensures
        b == VIRTIO_MMIO_BASE + slot * VIRTIO_MMIO_STRIDE,
{
    VIRTIO_MMIO_BASE + slot * VIRTIO_MMIO_STRIDE
}

/// A virtio-mmio slot, by base address.
#[derive(Debug, Clone, Copy, PartialEq, Eq, Structural)]
pub struct Transport {
    pub base: usize,
}

impl Transport {
    /// Whether a slot holds a device, from its magic, device-id, version
    /// and vendor-id registers: only with the virtio magic and a non-zero
    /// device id.
    pub fn probe(magic: u32, device_id: u32, version: u32, vendor_id: u32) -> (r: Option<ProbeHeader>)
        ensures
            r == (if magic == VIRTIO_MAGIC && device_id != 0 {
                Some(ProbeHeader { device_id, vendor_id, version })
            } else {
                None
            }),
    {
        if magic != VIRTIO_MAGIC {
            return None;
        }
        if device_id == 0 {
            return None;
        }
        Some(ProbeHeader { device_id, vendor_id, version })
    }

    /// The transport for the slot at `base`.
    pub fn new(base: usize) -> (t: Self)
        ensures
            t.base == base,
    {
        Transport { base }
    }

    pub fn base(&self) -> (b: usize)
        ensures
            b == self.base,
    {
        self.base
    }

    /// First part of device initialisation, from the magic, version and
    /// device-id registers: checked in that order; then the status
    /// register is reset and ACK, then ACK | DRIVER, is set.
    pub fn init_begin(&self, magic: u32, version: u32, device_id: u32) -> (r: Result<Vec<RegWrite>, InitError>)
        ensures
            magic != VIRTIO_MAGIC ==> r == Err::<Vec<RegWrite>, InitError>(InitError::BadMagic),
            magic == VIRTIO_MAGIC && version != 1 && version != 2 ==> r == Err::<Vec<RegWrite>, InitError>(
                InitError::UnsupportedVersion),
            magic == VIRTIO_MAGIC && (version == 1 || version == 2) && device_id == 0 ==> r == Err::<
                Vec<RegWrite>,
                InitError,
            >(InitError::NoDevice),
            magic == VIRTIO_MAGIC && (version == 1 || version == 2) && device_id != 0 ==> r is Ok
                && r->Ok_0@ == begin_writes(),
    {
        if magic != VIRTIO_MAGIC {
            return Err(InitError::BadMagic);
        }
        if version != 1 && version != 2 {
            return Err(InitError::UnsupportedVersion);
        }
        if device_id == 0 {
            return Err(InitError::NoDevice);
        }
        let mut w: Vec<RegWrite> = Vec::new();
        w.push(RegWrite { offset: REG_STATUS, value: 0 });
        w.push(RegWrite { offset: REG_STATUS, value: STATUS_ACK });
        w.push(RegWrite { offset: REG_STATUS, value: STATUS_ACK | STATUS_DRIVER });
        assert(w@ =~= begin_writes());
        Ok(w)
    }

    /// The identification check of device initialisation, as the drivers
    /// report it: the status writes that start it, or `init_begin failed`.
    pub fn begin(&self, magic: u32, version: u32, device_id: u32) -> (r: Result<Vec<RegWrite>, &'static str>)
        ensures
            ident_ok(magic, version, device_id) ==> r is Ok && r->Ok_0@ == begin_writes(),
            !ident_ok(magic, version, device_id) ==> r == Err::<Vec<RegWrite>, &'static str>("init_begin failed"),
    {
        match self.init_begin(magic, version, device_id) {
            Ok(w) => Ok(w),
            Err(_) => Err("init_begin failed"),
        }
    }

    /// The feature handshake for device-feature halves `lo`, `hi` and
    /// current status `status`: accept VERSION_1 only.
    pub fn negotiate(&self, lo: u32, hi: u32, status: u32) -> (w: Vec<RegWrite>)
        ensures
            w@ == features_writes(accepted_features(lo, hi), status),
    {
        let device = self.read_features(lo, hi);
        self.write_features(device & VIRTIO_F_VERSION_1, status)
    }

    /// The 64-bit device-feature set from the two 32-bit halves read with
    /// the selector at 0 (`lo`) and at 1 (`hi`).
    pub fn read_features(&self, lo: u32, hi: u32) -> (f: u64)
        ensures
            f == hi as u64 * 0x1_0000_0000 + lo as u64,
    {
        join64(lo, hi)
    }

    /// Offer `features` to the device: both halves through the selector,
    /// then FEATURES_OK added to the current `status`.
    pub fn write_features(&self, features: u64, status: u32) -> (w: Vec<RegWrite>)
        ensures
            w@ == features_writes(features, status),
    {
        let (lo, hi) = split64(features);
        let mut w: Vec<RegWrite> = Vec::new();
        w.push(RegWrite { offset: REG_DRIVER_FEATURES_SEL, value: 0 });
        w.push(RegWrite { offset: REG_DRIVER_FEATURES, value: lo });
        w.push(RegWrite { offset: REG_DRIVER_FEATURES_SEL, value: 1 });
        w.push(RegWrite { offset: REG_DRIVER_FEATURES, value: hi });
        w.push(RegWrite { offset: REG_STATUS, value: status | STATUS_FEATURES_OK });
        assert(w@ =~= features_writes(features, status));
        w
    }

    /// Select queue `queue_idx`; its maximum size is then read from
    /// `REG_QUEUE_NUM_MAX`.
    pub fn queue_max(&self, queue_idx: u32) -> (w: RegWrite)
        ensures
            w == (RegWrite { offset: REG_QUEUE_SEL, value: queue_idx }),
    {
        RegWrite { offset: REG_QUEUE_SEL, value: queue_idx }
    }

    /// Configure queue `queue_idx` with `size` entries and the physical
    /// addresses of its descriptor table, driver ring and device ring,
    /// then mark it ready.
    pub fn queue_configure(&self, queue_idx: u32, size: u32, desc: u64, driver: u64, device: u64) -> (w: Vec<RegWrite>)
        ensures
            w@ == seq![
                RegWrite { offset: REG_QUEUE_SEL, value: queue_idx },
                RegWrite { offset: REG_QUEUE_NUM, value: size },
                RegWrite { offset: REG_QUEUE_DESC_LOW, value: lo32(desc) },
                RegWrite { offset: REG_QUEUE_DESC_HIGH, value: hi32(desc) },
                RegWrite { offset: REG_QUEUE_DRIVER_LOW, value: lo32(driver) },
                RegWrite { offset: REG_QUEUE_DRIVER_HIGH, value: hi32(driver) },
                RegWrite { offset: REG_QUEUE_DEVICE_LOW, value: lo32(device) },
                RegWrite { offset: REG_QUEUE_DEVICE_HIGH, value: hi32(device) },
                RegWrite { offset: REG_QUEUE_READY, value: 1 },
            ],
    {
        let (dl, dh) = split64(desc);
        let (rl, rh) = split64(driver);
        let (vl, vh) = split64(device);
        let mut w: Vec<RegWrite> = Vec::new();
        w.push(RegWrite { offset: REG_QUEUE_SEL, value: queue_idx });
        w.push(RegWrite { offset: REG_QUEUE_NUM, value: size });
        w.push(RegWrite { offset: REG_QUEUE_DESC_LOW, value: dl });
        w.push(RegWrite { offset: REG_QUEUE_DESC_HIGH, value: dh });
        w.push(RegWrite { offset: REG_QUEUE_DRIVER_LOW, value: rl });
        w.push(RegWrite { offset: REG_QUEUE_DRIVER_HIGH, value: rh });
        w.push(RegWrite { offset: REG_QUEUE_DEVICE_LOW, value: vl });
        w.push(RegWrite { offset: REG_QUEUE_DEVICE_HIGH, value: vh });
        w.push(RegWrite { offset: REG_QUEUE_READY, value: 1 });
        assert(w@ =~= seq![
            RegWrite { offset: REG_QUEUE_SEL, value: queue_idx },
            RegWrite { offset: REG_QUEUE_NUM, value: size },
            RegWrite { offset: REG_QUEUE_DESC_LOW, value: lo32(desc) },
            RegWrite { offset: REG_QUEUE_DESC_HIGH, value: hi32(desc) },
            RegWrite { offset: REG_QUEUE_DRIVER_LOW, value: lo32(driver) },
            RegWrite { offset: REG_QUEUE_DRIVER_HIGH, value: hi32(driver) },
            RegWrite { offset: REG_QUEUE_DEVICE_LOW, value: lo32(device) },
            RegWrite { offset: REG_QUEUE_DEVICE_HIGH, value: hi32(device) },
            RegWrite { offset: REG_QUEUE_READY, value: 1 },
        ]);
        w
    }

    /// Tell the device that queue `queue_idx` has new buffers.
    pub fn queue_notify(&self, queue_idx: u32) -> (w: RegWrite)
        ensures
            w == (RegWrite { offset: REG_QUEUE_NOTIFY, value: queue_idx }),
    {
        RegWrite { offset: REG_QUEUE_NOTIFY, value: queue_idx }
    }

    /// Add DRIVER_OK to the current `status`: the device is live.
    pub fn driver_ok(&self, status: u32) -> (w: RegWrite)
        ensures
            w == (RegWrite { offset: REG_STATUS, value: status | STATUS_DRIVER_OK }),
    {
        RegWrite { offset: REG_STATUS, value: status | STATUS_DRIVER_OK }
    }

    /// A 64-bit config-space value from its two 32-bit halves, read at
    /// `offset` (`lo`) and `offset + 4` (`hi`).
    pub fn config_read_u64(&self, lo: u32, hi: u32) -> (v: u64)
        ensures
            v == hi as u64 * 0x1_0000_0000 + lo as u64,
    {
        join64(lo, hi)
    }

    /// Acknowledge the interrupt bits in `mask`.
    pub fn interrupt_ack(&self, mask: u32) -> (w: RegWrite)
        ensures
            w == (RegWrite { offset: REG_INTERRUPT_ACK, value: mask }),
    {
        RegWrite { offset: REG_INTERRUPT_ACK, value: mask }
    }
}

/// Splitting a 64-bit value into halves and joining them back gives
/// the value; joining two halves and splitting gives the halves.
pub proof fn law_split_join(v: u64, lo: u32, hi: u32)
    ensures
        hi32(v) as int * 0x1_0000_0000 + lo32(v) as int == v,
        lo32((hi as int * 0x1_0000_0000 + lo as int) as u64) == lo,
        hi32((hi as int * 0x1_0000_0000 + lo as int) as u64) == hi,
{
    let x = hi as int * 0x1_0000_0000 + lo as int;
    lemma_fundamental_div_mod(v as int, 0x1_0000_0000);
    lemma_fundamental_div_mod_converse(x, 0x1_0000_0000, hi as int, lo as int);
}

} // verus!
