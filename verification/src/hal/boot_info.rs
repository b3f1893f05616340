//! Machine description handed from the boot stub to the kernel core.
//!
//! All addresses are physical. Whatever boot protocol woke the kernel up
//! (device tree, UEFI handoff block, Multiboot2) is lowered into one
//! [`BootInfo`] value, which the rest of the kernel treats as the source
//! of truth.

use vstd::prelude::*;

verus! {

/// Hardware-defined identifier for a console UART.
#[derive(Debug, Clone, Copy, PartialEq, Eq, Structural)]
pub enum ConsoleKind {
    /// ARM PL011 PrimeCell.
    Pl011,
    /// 8250 / 16550-compatible UART.
    Ns16550,
    /// Broadcom 2835 mini-UART.
    BcmMiniUart,
}

/// Hardware-defined identifier for the boot interrupt controller.
#[derive(Debug, Clone, Copy, PartialEq, Eq, Structural)]
pub enum IntcKind {
    /// ARM GICv2.
    GicV2,
    /// ARM GICv3.
    GicV3,
    /// Local APIC + I/O APIC.
    Apic,
    /// Legacy 8259 PIC pair.
    Pic8259,
}

/// A single MMIO range, in physical address space.
#[derive(Debug, Clone, Copy, PartialEq, Eq, Structural)]
pub struct RegSpec {
    pub base: u64,
    pub size: u64,
}

impl RegSpec {
    pub fn new(base: u64, size: u64) -> (r: Self)
        ensures
            r == (RegSpec { base, size }),
    {
        RegSpec { base, size }
    }
}

/// A contiguous RAM bank discovered from the boot protocol.
#[derive(Debug, Clone, Copy, PartialEq, Eq, Structural)]
pub struct MemoryRegion {
    pub base: u64,
    pub size: u64,
}

impl MemoryRegion {
    pub fn new(base: u64, size: u64) -> (r: Self)
        ensures
            r == (MemoryRegion { base, size }),
    {
        MemoryRegion { base, size }
    }
}

/// Pixel layout of a firmware framebuffer.
#[derive(Debug, Clone, Copy, PartialEq, Eq, Structural)]
pub enum PixelFormat {
    /// Byte 0 = B, 1 = G, 2 = R, 3 = X/A.
    Bgra8888,
    /// Byte 0 = R, 1 = G, 2 = B, 3 = X/A.
    Rgba8888,
}

/// A framebuffer the firmware already set up.
#[derive(Debug, Clone, Copy, PartialEq, Eq, Structural)]
pub struct FramebufferInfo {
    pub base: u64,
    pub width: u32,
    pub height: u32,
    pub stride_bytes: u32,
    /// Bits per pixel.
    pub bpp: u32,
    pub format: PixelFormat,
}

pub const MAX_MEMORY_REGIONS: usize = 8;

pub const UEFI_HANDOFF_MAGIC: u64 = 0x4859_5055_4546_4948;

pub const UEFI_HANDOFF_VERSION: u32 = 1;

/// Console UART: kind, register window and input clock (0 = driver default).
#[derive(Debug, Clone, Copy, PartialEq, Eq, Structural)]
pub struct ConsoleSpec {
    pub kind: ConsoleKind,
    pub regs: RegSpec,
    pub clock_hz: u32,
}

/// Interrupt controller: kind plus its two register windows.
#[derive(Debug, Clone, Copy, PartialEq, Eq, Structural)]
pub struct IntcSpec {
    pub kind: IntcKind,
    /// GIC distributor on aarch64; LAPIC base on x86_64.
    pub primary: RegSpec,
    /// GICv2 CPU interface / GICv3 redistributor; I/O APIC on x86_64.
    pub secondary: RegSpec,
}

impl IntcSpec {
    /// The GIC distributor window (alias of `primary`).
    pub fn dist(&self) -> (r: RegSpec)
        ensures
            r == self.primary,
    {
        self.primary
    }

    /// The GIC CPU interface / redistributor window (alias of `secondary`).
    pub fn cpu_or_redist(&self) -> (r: RegSpec)
        ensures
            r == self.secondary,
    {
        self.secondary
    }
}

/// The list of RAM banks after appending `region`: banks of size 0 and
/// banks past the cap of [`MAX_MEMORY_REGIONS`] are dropped.
pub open spec fn push_region(banks: Seq<MemoryRegion>, region: MemoryRegion) -> Seq<MemoryRegion> {
    if banks.len() < MAX_MEMORY_REGIONS && region.size > 0 {
        banks.push(region)
    } else {
        banks
    }
}

/// Sum of the bank sizes, as a mathematical integer.
pub open spec fn total_size(banks: Seq<MemoryRegion>) -> nat
    decreases banks.len(),
{
    if banks.len() == 0 {
        0
    } else {
        total_size(banks.drop_last()) + banks.last().size as nat
    }
}

/// Index of the bank that `largest` picks: the last one whose size is
/// not exceeded by any other bank.
pub open spec fn is_last_largest(banks: Seq<MemoryRegion>, i: int) -> bool {
    &&& 0 <= i < banks.len()
    &&& forall|j: int| 0 <= j < banks.len() ==> #[trigger] banks[j].size <= banks[i].size
    &&& forall|j: int| i < j < banks.len() ==> #[trigger] banks[j].size < banks[i].size
}

/// Up to [`MAX_MEMORY_REGIONS`] RAM banks, none of them empty.
#[derive(Debug, Clone, Copy)]
pub struct MemoryMap {
    regions: [MemoryRegion; 8],
    len: usize,
}

impl View for MemoryMap {
    type V = Seq<MemoryRegion>;

    closed spec fn view(&self) -> Seq<MemoryRegion> {
        self.regions@.subrange(0, self.len as int)
    }
}

impl MemoryMap {
    #[verifier::type_invariant]
    closed spec fn inv(&self) -> bool {
        &&& self.len <= MAX_MEMORY_REGIONS
        &&& forall|i: int| 0 <= i < self.len ==> #[trigger] self.regions@[i].size > 0
    }

    /// Whether a list of banks could be the contents of a memory map.
    pub open spec fn valid_banks(banks: Seq<MemoryRegion>) -> bool {
        &&& banks.len() <= MAX_MEMORY_REGIONS
        &&& forall|i: int| 0 <= i < banks.len() ==> #[trigger] banks[i].size > 0
    }

    /// The contents of every memory map are valid banks.
    pub fn valid(&self) -> (r: bool)
        ensures
            r,
            Self::valid_banks(self@),
    {
        proof {
            use_type_invariant(self);
        }
        true
    }

    pub fn empty() -> (m: Self)
        ensures
            m@ == Seq::<MemoryRegion>::empty(),
    {
        MemoryMap { regions: [MemoryRegion { base: 0, size: 0 }; 8], len: 0 }
    }

    /// Append a region. Regions of size 0 and regions past the cap are
    /// silently ignored.
    pub fn push(&mut self, region: MemoryRegion)
        ensures
            final(self)@ == push_region(old(self)@, region),
    {
        proof {
            use_type_invariant(&*self);
        }
        if self.len < MAX_MEMORY_REGIONS && region.size > 0 {
            let l = self.len;
            self.regions[l] = region;
            self.len = l + 1;
            assert(self@ =~= old(self)@.push(region));
        }
    }

    pub fn as_slice(&self) -> (s: &[MemoryRegion])
        ensures
            s@ == self@,
    {
        proof {
            use_type_invariant(self);
        }
        vstd::slice::slice_subrange(self.regions.as_slice(), 0, self.len)
    }

    /// The largest bank (the last one on ties), or `None` when the map is empty.
    pub fn largest(&self) -> (r: Option<MemoryRegion>)
        ensures
            r is None <==> self@.len() == 0,
            r matches Some(m) ==> exists|i: int| is_last_largest(self@, i) && self@[i] == m,
    {
        proof {
            use_type_invariant(self);
        }
        if self.len == 0 {
            return None;
        }
        let mut best: usize = 0;
        let mut i: usize = 1;
        assert(forall|j: int| 0 <= j < self.len ==> self@[j] == #[trigger] self.regions@[j]);
        while i < self.len
            invariant
                self.len <= MAX_MEMORY_REGIONS,
                self@.len() == self.len,
                forall|j: int| 0 <= j < self.len ==> self@[j] == #[trigger] self.regions@[j],
                0 <= best < i <= self.len,
                forall|j: int| 0 <= j < i ==> #[trigger] self@[j].size <= self@[best as int].size,
                forall|j: int| best < j < i ==> #[trigger] self@[j].size < self@[best as int].size,
            decreases self.len - i,
        {
            if self.regions[i].size >= self.regions[best].size {
                best = i;
            }
            i = i + 1;
        }
        assert(is_last_largest(self@, best as int));
        Some(self.regions[best])
    }

    /// Total bytes across all banks.
    pub fn total_bytes(&self) -> (r: u64)
        requires
            total_size(self@) <= u64::MAX,
        ensures
            r == total_size(self@),
    {
        proof {
            use_type_invariant(self);
        }
        let mut sum: u64 = 0;
        let mut i: usize = 0;
        while i < self.len
            invariant
                self.len <= MAX_MEMORY_REGIONS,
                i <= self.len,
                total_size(self@) <= u64::MAX,
                sum == total_size(self@.subrange(0, i as int)),
            decreases self.len - i,
        {
            proof {
                assert(self@.subrange(0, i + 1).drop_last() =~= self@.subrange(0, i as int));
                lemma_total_size_prefix_le(self@, i + 1);
            }
            sum = sum + self.regions[i].size;
            i = i + 1;
        }
        assert(self@.subrange(0, self.len as int) =~= self@);
        sum
    }
}

/// The total of a prefix never exceeds the total of the whole list.
pub proof fn lemma_total_size_prefix_le(banks: Seq<MemoryRegion>, n: int)
    requires
        0 <= n <= banks.len(),
    ensures
        total_size(banks.subrange(0, n)) <= total_size(banks),
    decreases banks.len() - n,
{
    if n < banks.len() {
        lemma_total_size_prefix_le(banks, n + 1);
        assert(banks.subrange(0, n + 1).drop_last() =~= banks.subrange(0, n));
    } else {
        assert(banks.subrange(0, n) =~= banks);
    }
}

/// Aggregated machine description passed to the kernel entry point.
#[derive(Debug, Clone, Copy)]
pub struct BootInfo {
    /// Console UART base + kind.
    pub console: ConsoleSpec,
    /// RAM banks usable by the kernel.
    pub memory: MemoryMap,
    /// Boot interrupt controller.
    pub intc: IntcSpec,
    /// Boot timer frequency in Hz; 0 means "calibrate or use the arch default".
    pub timer_freq_hz: u32,
    /// Pre-existing framebuffer from firmware, if any.
    pub framebuffer: Option<FramebufferInfo>,
    /// Physical address of the firmware configuration table (DTB,
    /// Multiboot2 info, ...), or 0.
    pub fw_table_addr: u64,
}

/// The mathematical content of a [`BootInfo`]: the memory map taken as
/// its list of banks.
pub struct BootInfoModel {
    pub console: ConsoleSpec,
    pub memory: Seq<MemoryRegion>,
    pub intc: IntcSpec,
    pub timer_freq_hz: u32,
    pub framebuffer: Option<FramebufferInfo>,
    pub fw_table_addr: u64,
}

impl View for BootInfo {
    type V = BootInfoModel;

    open spec fn view(&self) -> BootInfoModel {
        BootInfoModel {
            console: self.console,
            memory: self.memory@,
            intc: self.intc,
            timer_freq_hz: self.timer_freq_hz,
            framebuffer: self.framebuffer,
            fw_table_addr: self.fw_table_addr,
        }
    }
}

impl BootInfo {
    /// Device-tree address: alias of `fw_table_addr`.
    pub fn dtb_addr(&self) -> (r: u64)
        ensures
            r == self.fw_table_addr,
    {
        self.fw_table_addr
    }

    /// The QEMU `virt` console: PL011 at 0x0900_0000, 24 MHz clock.
    pub open spec fn virt_console() -> ConsoleSpec {
        ConsoleSpec {
            kind: ConsoleKind::Pl011,
            regs: RegSpec { base: 0x0900_0000, size: 0x1000 },
            clock_hz: 24_000_000,
        }
    }

    /// The QEMU `virt` RAM: 256 MiB at 0x4000_0000.
    pub open spec fn virt_ram() -> MemoryRegion {
        MemoryRegion { base: 0x4000_0000, size: 0x1000_0000 }
    }

    /// Description of the QEMU `virt` machine, used when the boot stub
    /// could not parse a device tree.
    pub fn qemu_virt_fallback() -> (r: Self)
        ensures
            r.console == Self::virt_console(),
            r.memory@ == seq![Self::virt_ram()],
            r.intc == (IntcSpec {
                kind: IntcKind::GicV2,
                primary: RegSpec { base: 0x0800_0000, size: 0x10000 },
                secondary: RegSpec { base: 0x0801_0000, size: 0x10000 },
            }),
            r.timer_freq_hz == 0,
            r.framebuffer is None,
            r.fw_table_addr == 0,
    {
        let mut m = MemoryMap::empty();
        m.push(MemoryRegion::new(0x4000_0000, 256 * 1024 * 1024));
        BootInfo {
            console: ConsoleSpec {
                kind: ConsoleKind::Pl011,
                regs: RegSpec::new(0x0900_0000, 0x1000),
                clock_hz: 24_000_000,
            },
            memory: m,
            intc: IntcSpec {
                kind: IntcKind::GicV2,
                primary: RegSpec::new(0x0800_0000, 0x10000),
                secondary: RegSpec::new(0x0801_0000, 0x10000),
            },
            timer_freq_hz: 0,
            framebuffer: None,
            fw_table_addr: 0,
        }
    }

    /// The COM1 console of a PC: NS16550 at port 0x3F8.
    pub open spec fn com1_console() -> ConsoleSpec {
        ConsoleSpec {
            kind: ConsoleKind::Ns16550,
            regs: RegSpec { base: 0x3F8, size: 8 },
            clock_hz: 1_843_200,
        }
    }

    /// The local APIC + I/O APIC at their reset bases.
    pub open spec fn pc_apic() -> IntcSpec {
        IntcSpec {
            kind: IntcKind::Apic,
            primary: RegSpec { base: 0xFEE0_0000, size: 0x1000 },
            secondary: RegSpec { base: 0xFEC0_0000, size: 0x1000 },
        }
    }

    /// Description of QEMU's `q35` x86_64 machine, used when boot
    /// discovery could not describe the board.
    pub fn qemu_q35_fallback() -> (r: Self)
        ensures
            r.console == Self::com1_console(),
            r.memory@ == seq![MemoryRegion { base: 0x10_0000, size: 0x800_0000 }],
            r.intc == Self::pc_apic(),
            r.timer_freq_hz == 0,
            r.framebuffer is None,
            r.fw_table_addr == 0,
    {
        let mut m = MemoryMap::empty();
        m.push(MemoryRegion::new(0x10_0000, 128 * 1024 * 1024));
        BootInfo {
            console: ConsoleSpec {
                kind: ConsoleKind::Ns16550,
                regs: RegSpec::new(0x3F8, 8),
                clock_hz: 1_843_200,
            },
            memory: m,
            intc: IntcSpec {
                kind: IntcKind::Apic,
                primary: RegSpec::new(0xFEE0_0000, 0x1000),
                secondary: RegSpec::new(0xFEC0_0000, 0x1000),
            },
            timer_freq_hz: 0,
            framebuffer: None,
            fw_table_addr: 0,
        }
    }
}

/// One RAM bank as laid out in the UEFI handoff block.
#[derive(Debug, Clone, Copy, PartialEq, Eq, Structural)]
pub struct HandoffMemoryRegion {
    pub base: u64,
    pub size: u64,
}

/// The handoff block the UEFI boot stub passes to the kernel.
#[derive(Debug, Clone, Copy)]
pub struct UefiHandoff {
    pub magic: u64,
    pub version: u32,
    pub _reserved0: u32,
    pub console_kind: u32,
    pub console_base: u64,
    pub console_size: u64,
    pub console_clock_hz: u32,
    pub intc_kind: u32,
    pub intc_primary_base: u64,
    pub intc_primary_size: u64,
    pub intc_secondary_base: u64,
    pub intc_secondary_size: u64,
    pub timer_freq_hz: u32,
    pub memory_len: u32,
    pub memory: [HandoffMemoryRegion; 8],
    pub framebuffer_present: u32,
    pub framebuffer_base: u64,
    pub framebuffer_size: u64,
    pub framebuffer_width: u32,
    pub framebuffer_height: u32,
    pub framebuffer_stride_bytes: u32,
    pub framebuffer_bpp: u32,
    pub framebuffer_format: u32,
    pub fw_table_addr: u64,
}

/// Console kind encoded in a handoff block.
pub open spec fn console_kind_code(code: u32) -> Option<ConsoleKind> {
    if code == 0 {
        Some(ConsoleKind::Pl011)
    } else if code == 1 {
        Some(ConsoleKind::Ns16550)
    } else if code == 2 {
        Some(ConsoleKind::BcmMiniUart)
    } else {
        None
    }
}

/// Interrupt-controller kind encoded in a handoff block.
pub open spec fn intc_kind_code(code: u32) -> Option<IntcKind> {
    if code == 0 {
        Some(IntcKind::GicV2)
    } else if code == 1 {
        Some(IntcKind::GicV3)
    } else if code == 2 {
        Some(IntcKind::Apic)
    } else if code == 3 {
        Some(IntcKind::Pic8259)
    } else {
        None
    }
}

/// Pixel format encoded in a handoff block.
pub open spec fn pixel_format_code(code: u32) -> Option<PixelFormat> {
    if code == 0 {
        Some(PixelFormat::Bgra8888)
    } else if code == 1 {
        Some(PixelFormat::Rgba8888)
    } else {
        None
    }
}

/// The banks that pushing each of `regions` in turn into an empty map leaves.
pub open spec fn push_all(regions: Seq<HandoffMemoryRegion>) -> Seq<MemoryRegion>
    decreases regions.len(),
{
    if regions.len() == 0 {
        Seq::empty()
    } else {
        let r = regions.last();
        push_region(push_all(regions.drop_last()), MemoryRegion { base: r.base, size: r.size })
    }
}

impl UefiHandoff {
    /// Whether this block describes a machine the kernel understands.
    pub open spec fn accepted(self) -> bool {
        &&& self.magic == UEFI_HANDOFF_MAGIC
        &&& self.version == UEFI_HANDOFF_VERSION
        &&& console_kind_code(self.console_kind) is Some
        &&& intc_kind_code(self.intc_kind) is Some
        &&& self.framebuffer_present != 0 ==> pixel_format_code(self.framebuffer_format) is Some
    }

    /// The RAM banks the block announces: the first `min(memory_len, 8)`
    /// entries, empty ones dropped.
    pub open spec fn banks(self) -> Seq<MemoryRegion> {
        let n = if self.memory_len as int <= MAX_MEMORY_REGIONS as int {
            self.memory_len as int
        } else {
            MAX_MEMORY_REGIONS as int
        };
        push_all(self.memory@.subrange(0, n))
    }

    /// The framebuffer the block announces, if any.
    pub open spec fn framebuffer_spec(self) -> Option<FramebufferInfo> {
        if self.framebuffer_present != 0 {
            Some(FramebufferInfo {
                base: self.framebuffer_base,
                width: self.framebuffer_width,
                height: self.framebuffer_height,
                stride_bytes: self.framebuffer_stride_bytes,
                bpp: self.framebuffer_bpp,
                format: pixel_format_code(self.framebuffer_format).unwrap(),
            })
        } else {
            None
        }
    }

    /// Lower the handoff block into a [`BootInfo`]; `None` when the magic,
    /// the version, or one of the kind codes is not recognised.
    pub fn to_boot_info(self) -> (r: Option<BootInfo>)
        ensures
            r is Some <==> self.accepted(),
            r matches Some(bi) ==> {
                &&& bi.console == (ConsoleSpec {
                    kind: console_kind_code(self.console_kind).unwrap(),
                    regs: RegSpec { base: self.console_base, size: self.console_size },
                    clock_hz: self.console_clock_hz,
                })
                &&& bi.memory@ == self.banks()
                &&& bi.intc == (IntcSpec {
                    kind: intc_kind_code(self.intc_kind).unwrap(),
                    primary: RegSpec { base: self.intc_primary_base, size: self.intc_primary_size },
                    secondary: RegSpec {
                        base: self.intc_secondary_base,
                        size: self.intc_secondary_size,
                    },
                })
                &&& bi.timer_freq_hz == self.timer_freq_hz
                &&& bi.framebuffer == self.framebuffer_spec()
                &&& bi.fw_table_addr == self.fw_table_addr
            },
    {
        if self.magic != UEFI_HANDOFF_MAGIC || self.version != UEFI_HANDOFF_VERSION {
            return None;
        }
        let console_kind = if self.console_kind == 0 {
            ConsoleKind::Pl011
        } else if self.console_kind == 1 {
            ConsoleKind::Ns16550
        } else if self.console_kind == 2 {
            ConsoleKind::BcmMiniUart
        } else {
            return None;
        };
        let intc_kind = if self.intc_kind == 0 {
            IntcKind::GicV2
        } else if self.intc_kind == 1 {
            IntcKind::GicV3
        } else if self.intc_kind == 2 {
            IntcKind::Apic
        } else if self.intc_kind == 3 {
            IntcKind::Pic8259
        } else {
            return None;
        };
        let mut memory = MemoryMap::empty();
        let len: usize = if self.memory_len <= 8 {
            self.memory_len as usize
        } else {
            MAX_MEMORY_REGIONS
        };
        let mut i: usize = 0;
        while i < len
            invariant
                len <= 8,
                len as int == (if self.memory_len as int <= 8 { self.memory_len as int } else { 8 }),
                i <= len,
                memory@ == push_all(self.memory@.subrange(0, i as int)),
            decreases len - i,
        {
            let region = self.memory[i];
            memory.push(MemoryRegion::new(region.base, region.size));
            proof {
                assert(self.memory@.subrange(0, i + 1).drop_last() =~= self.memory@.subrange(
                    0,
                    i as int,
                ));
            }
            i = i + 1;
        }
        let framebuffer = if self.framebuffer_present != 0 {
            let format = if self.framebuffer_format == 0 {
                PixelFormat::Bgra8888
            } else if self.framebuffer_format == 1 {
                PixelFormat::Rgba8888
            } else {
                return None;
            };
            Some(
                FramebufferInfo {
                    base: self.framebuffer_base,
                    width: self.framebuffer_width,
                    height: self.framebuffer_height,
                    stride_bytes: self.framebuffer_stride_bytes,
                    bpp: self.framebuffer_bpp,
                    format,
                },
            )
        } else {
            None
        };
        Some(
            BootInfo {
                console: ConsoleSpec {
                    kind: console_kind,
                    regs: RegSpec::new(self.console_base, self.console_size),
                    clock_hz: self.console_clock_hz,
                },
                memory,
                intc: IntcSpec {
                    kind: intc_kind,
                    primary: RegSpec::new(self.intc_primary_base, self.intc_primary_size),
                    secondary: RegSpec::new(self.intc_secondary_base, self.intc_secondary_size),
                },
                timer_freq_hz: self.timer_freq_hz,
                framebuffer,
                fw_table_addr: self.fw_table_addr,
            },
        )
    }
}

} // verus!
