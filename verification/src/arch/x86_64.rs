//! x86_64 decisions: descriptor-table entries, the scheduler tick, the
//! TSC frequency and its calibration against the PIT, and the I/O APIC
//! redirection entries. Port I/O, MMIO, `rdtsc` and the descriptor-table
//! loads are the platform layer's.

use vstd::prelude::*;

verus! {

/// The kernel GDT: null, ring-0 code and data, ring-3 code and data, and
/// the two halves of the TSS descriptor.
pub const GDT_ENTRIES: usize = 7;

/// Low half of a 64-bit available-TSS descriptor for a TSS at `base`
/// with byte limit `limit`.
pub open spec fn tss_low_spec(base: u64, limit: u64) -> u64 {
    (limit & 0xFFFF) | ((base & 0xFFFF) << 16) | (((base >> 16) & 0xFF) << 32) | (0x89u64 << 40) | (((limit
        >> 16) & 0xF) << 48) | (((base >> 24) & 0xFF) << 56)
}

/// Low half of the TSS descriptor: limit bits 0-15, base bits 0-23,
/// access byte 0x89 (present, 64-bit TSS available), limit bits 16-19,
/// flags 0 (byte granularity), base bits 24-31.
pub fn tss_descriptor_low(base: u64, limit: u64) -> (d: u64)
    ensures
        d == tss_low_spec(base, limit),
        d & 0xFFFF == limit % 0x10000,
        (d >> 16) & 0xFF_FFFF == base % 0x100_0000,
        (d >> 40) & 0xFF == 0x89,
        (d >> 48) & 0xF == (limit / 0x10000) % 16,
        (d >> 52) & 0xF == 0,
        d >> 56 == (base / 0x100_0000) % 256,
{
    let d = (limit & 0xFFFF) | ((base & 0xFFFF) << 16) | (((base >> 16) & 0xFF) << 32) | (0x89u64 << 40) | (((limit
        >> 16) & 0xF) << 48) | (((base >> 24) & 0xFF) << 56);
    assert(d & 0xFFFF == limit % 0x10000 && (d >> 16) & 0xFF_FFFF == base % 0x100_0000 && (d >> 40)
        & 0xFF == 0x89 && (d >> 48) & 0xF == (limit / 0x10000) % 16 && (d >> 52) & 0xF == 0 && d >> 56
        == (base / 0x100_0000) % 256) by (bit_vector)
        requires
            d == (limit & 0xFFFF) | ((base & 0xFFFF) << 16) | (((base >> 16) & 0xFF) << 32) | (0x89u64
                << 40) | (((limit >> 16) & 0xF) << 48) | (((base >> 24) & 0xFF) << 56),
    ;
    d
}

/// High half of the TSS descriptor: base bits 32-63.
pub fn tss_descriptor_high(base: u64) -> (d: u64)
    ensures
        d == base / 0x1_0000_0000,
{
    base / 0x1_0000_0000
}

/// The kernel GDT for a TSS at `tss_base` with byte limit `tss_limit`:
/// selectors 0x08/0x10 ring-0 code/data, 0x18/0x20 ring-3 code/data,
/// 0x28 the TSS.
pub fn gdt_entries(tss_base: u64, tss_limit: u64) -> (g: [u64; 7])
    ensures
        g@ == seq![
            0u64,
            0x00AF_9A00_0000_FFFFu64,
            0x00CF_9200_0000_FFFFu64,
            0x00AF_FA00_0000_FFFFu64,
            0x00CF_F200_0000_FFFFu64,
            tss_low_spec(tss_base, tss_limit),
            tss_base / 0x1_0000_0000,
        ],
{
    let low = tss_descriptor_low(tss_base, tss_limit);
    let high = tss_descriptor_high(tss_base);
    let g = [0u64, 0x00AF_9A00_0000_FFFF, 0x00CF_9200_0000_FFFF, 0x00AF_FA00_0000_FFFF, 0x00CF_F200_0000_FFFF, low, high];
    assert(g@ =~= seq![
        0u64,
        0x00AF_9A00_0000_FFFFu64,
        0x00CF_9200_0000_FFFFu64,
        0x00AF_FA00_0000_FFFFu64,
        0x00CF_F200_0000_FFFFu64,
        tss_low_spec(tss_base, tss_limit),
        tss_base / 0x1_0000_0000,
    ]);
    g
}

/// One interrupt-gate descriptor of the IDT.
#[derive(Debug, Clone, Copy, PartialEq, Eq, Structural)]
pub struct IdtEntry {
    pub offset_low: u16,
    pub selector: u16,
    pub ist: u8,
    pub type_attr: u8,
    pub offset_mid: u16,
    pub offset_high: u32,
    pub zero: u32,
}

/// The IDT entry for `handler` in the kernel code segment (selector
/// 0x08) with attributes `type_attr`, no IST stack.
pub open spec fn idt_entry_for(handler: u64, type_attr: u8) -> IdtEntry {
    IdtEntry {
        offset_low: (handler % 0x1_0000) as u16,
        selector: 0x08,
        ist: 0,
        type_attr,
        offset_mid: ((handler / 0x1_0000) % 0x1_0000) as u16,
        offset_high: (handler / 0x1_0000_0000) as u32,
        zero: 0,
    }
}

/// Attributes of IDT vector `v`: present, ring 0, interrupt type, except
/// the system-call vector 0x80, which ring 3 may raise.
pub open spec fn idt_attr(v: int) -> u8 {
    if v == 0x80 {
        0xEE
    } else {
        0x8E
    }
}

/// The 256-entry IDT: vector `v` enters at `handlers[v]`.
pub fn build_idt(handlers: &[u64; 256]) -> (t: Vec<IdtEntry>)
    ensures
        t@.len() == 256,
        forall|v: int| 0 <= v < 256 ==> #[trigger] t@[v] == idt_entry_for(handlers@[v], idt_attr(v)),
{
    let mut t: Vec<IdtEntry> = Vec::new();
    let mut i: usize = 0;
    while i < 256
        invariant
            i <= 256,
            t@.len() == i,
            forall|v: int| 0 <= v < i ==> #[trigger] t@[v] == idt_entry_for(handlers@[v], idt_attr(v)),
        decreases 256 - i,
    {
        let mut e = IdtEntry::empty();
        let attr: u8 = if i == 0x80 {
            0xEE
        } else {
            0x8E
        };
        e.set(handlers[i], attr);
        t.push(e);
        i = i + 1;
    }
    t
}

impl IdtEntry {
    /// A not-present gate.
    pub fn empty() -> (e: Self)
        ensures
            e == (IdtEntry { offset_low: 0, selector: 0, ist: 0, type_attr: 0, offset_mid: 0, offset_high: 0, zero: 0 }),
    {
        IdtEntry { offset_low: 0, selector: 0, ist: 0, type_attr: 0, offset_mid: 0, offset_high: 0, zero: 0 }
    }

    /// Point this descriptor at address `handler`, with attributes `type_attr`.
    pub fn set(&mut self, handler: u64, type_attr: u8)
        ensures
            *final(self) == idt_entry_for(handler, type_attr),
    {
        let lo = (handler % 0x1_0000) as u16;
        let mid = ((handler / 0x1_0000) % 0x1_0000) as u16;
        let hi = (handler / 0x1_0000_0000) as u32;
        self.offset_low = lo;
        self.selector = 0x08;
        self.ist = 0;
        self.type_attr = type_attr;
        self.offset_mid = mid;
        self.offset_high = hi;
        self.zero = 0;
    }
}

/// Registers saved on trap entry: the general-purpose registers in the
/// order the entry stubs push them (rax, rbx, rcx, rdx, rsi, rdi, rbp,
/// r8 to r15), the vector and error code, and the CPU's interrupt frame.
#[derive(Debug, Clone, Copy)]
pub struct TrapFrame {
    pub regs: [u64; 15],
    pub vector: u64,
    pub error_code: u64,
    pub rip: u64,
    pub cs: u64,
    pub rflags: u64,
    pub rsp: u64,
    pub ss: u64,
}

/// Indices into [`TrapFrame::regs`].
pub const RAX: usize = 0;
pub const RBX: usize = 1;
pub const RCX: usize = 2;
pub const RDX: usize = 3;
pub const RSI: usize = 4;
pub const RDI: usize = 5;
pub const RBP: usize = 6;
pub const R8: usize = 7;
pub const R9: usize = 8;
pub const R10: usize = 9;
pub const R11: usize = 10;
pub const R12: usize = 11;
pub const R13: usize = 12;
pub const R14: usize = 13;
pub const R15: usize = 14;

/// What an exception-vector trap asks of the kernel.
#[derive(Debug, Clone, Copy)]
pub enum TrapAction {
    /// `int 0x80`: system call `nr` with the Linux x86_64 argument
    /// registers rdi, rsi, rdx, r10, r8, r9.
    Syscall { nr: u64, args: [u64; 6] },
    /// CPU exception `vector` (below 32), fatal.
    Fault { vector: u64 },
    /// Any other vector, fatal.
    Unknown { vector: u64 },
}

/// How to handle a trap with saved state `tf`, by its vector.
pub fn trap_action(tf: &TrapFrame) -> (a: TrapAction)
    ensures
        tf.vector == 0x80 ==> a == (TrapAction::Syscall {
            nr: tf.regs[RAX as int],
            args: [
                tf.regs[RDI as int],
                tf.regs[RSI as int],
                tf.regs[RDX as int],
                tf.regs[R10 as int],
                tf.regs[R8 as int],
                tf.regs[R9 as int],
            ],
        }),
        tf.vector < 32 ==> a == (TrapAction::Fault { vector: tf.vector }),
        tf.vector != 0x80 && tf.vector >= 32 ==> a == (TrapAction::Unknown { vector: tf.vector }),
{
    if tf.vector == 0x80 {
        TrapAction::Syscall {
            nr: tf.regs[RAX],
            args: [tf.regs[RDI], tf.regs[RSI], tf.regs[RDX], tf.regs[R10], tf.regs[R8], tf.regs[R9]],
        }
    } else if tf.vector < 32 {
        TrapAction::Fault { vector: tf.vector }
    } else {
        TrapAction::Unknown { vector: tf.vector }
    }
}

/// Hand a system call's result back in rax.
pub fn syscall_return(tf: &mut TrapFrame, ret: u64)
    ensures
        final(tf).regs@ == old(tf).regs@.update(RAX as int, ret),
        final(tf).vector == old(tf).vector,
        final(tf).error_code == old(tf).error_code,
        final(tf).rip == old(tf).rip,
        final(tf).cs == old(tf).cs,
        final(tf).rflags == old(tf).rflags,
        final(tf).rsp == old(tf).rsp,
        final(tf).ss == old(tf).ss,
{
    tf.regs[RAX] = ret;
}

/// Whether IRQ vector `v` (the low byte of the trap vector) is the
/// LAPIC timer tick; every other IRQ vector is unrouted.
pub fn is_tick_vector(v: u8) -> (r: bool)
    ensures
        r == (v == TICK_VECTOR),
{
    v == TICK_VECTOR
}

/// Scheduler tick rate.
pub const SCHEDULER_HZ: u64 = 100;

/// Interrupt vector of the LAPIC timer tick.
pub const TICK_VECTOR: u8 = 0x20;

/// The monotonic count of scheduler ticks.
pub struct TickCounter {
    pub ticks: u64,
}

impl TickCounter {
    /// Count one tick (wrapping, as an atomic add does).
    pub fn on_tick(&mut self)
        ensures
            final(self).ticks == (if old(self).ticks == u64::MAX {
                0
            } else {
                (old(self).ticks + 1) as u64
            }),
    {
        self.ticks = self.ticks.wrapping_add(1);
    }
}

/// LAPIC timer initial count for a tick of [`SCHEDULER_HZ`] on a bus of
/// `bus_hz` (at least 1); none when the bus calibration failed (0 Hz),
/// which leaves the tick disabled.
pub fn lapic_interval(bus_hz: u64) -> (r: Option<u32>)
    ensures
        bus_hz == 0 ==> r is None,
        bus_hz != 0 ==> r == Some(if ((bus_hz / 100) as u32) < 1 { 1u32 } else { (bus_hz / 100) as u32 }),
{
    if bus_hz == 0 {
        return None;
    }
    let interval = (bus_hz / SCHEDULER_HZ) as u32;
    Some(if interval < 1 { 1 } else { interval })
}

/// First redirection-table register of the I/O APIC.
pub const IOREDTBL_BASE: u32 = 0x10;

/// Mask bit of a redirection entry.
pub const REDTBL_MASKED: u64 = 0x1_0000;

/// Number of redirection entries an I/O APIC with version register
/// `ver` has: bits 16..24 hold the highest entry's index.
pub fn ioapic_lines(ver: u32) -> (n: u32)
    ensures
        n == (ver / 0x1_0000) % 0x100 + 1,
{
    (ver / 0x1_0000) % 0x100 + 1
}

/// The two register writes (register index, value) that store the
/// 64-bit redirection entry `value` for line `gsi`: low half first.
pub fn redirect_writes(gsi: u32, value: u64) -> (w: [(u32, u32); 2])
    requires
        IOREDTBL_BASE + 2 * gsi + 1 <= u32::MAX,
    ensures
        w[0].0 == IOREDTBL_BASE + 2 * gsi,
        w[0].1 == (value % 0x1_0000_0000) as u32,
        w[1].0 == IOREDTBL_BASE + 2 * gsi + 1,
        w[1].1 == (value / 0x1_0000_0000) as u32,
{
    let lo = (value % 0x1_0000_0000) as u32;
    let hi = (value / 0x1_0000_0000) as u32;
    [(IOREDTBL_BASE + gsi * 2, lo), (IOREDTBL_BASE + gsi * 2 + 1, hi)]
}

/// Register writes that mask every redirection entry of an I/O APIC
/// with version register `ver`, line by line.
pub fn ioapic_mask_all(ver: u32) -> (w: Vec<(u32, u32)>)
    ensures
        w@.len() == 2 * ioapic_lines_spec(ver),
        forall|i: int|
            0 <= i < ioapic_lines_spec(ver) ==> #[trigger] w@[2 * i].0 == IOREDTBL_BASE + 2 * i && w@[2 * i].1
                == REDTBL_MASKED && w@[2 * i + 1].0 == IOREDTBL_BASE + 2 * i + 1 && w@[2 * i + 1].1 == 0,
{
    let n = ioapic_lines(ver);
    let mut w: Vec<(u32, u32)> = Vec::new();
    let mut i: u32 = 0;
    while i < n
        invariant
            n == ioapic_lines_spec(ver),
            n <= 256,
            i <= n,
            w@.len() == 2 * i,
            forall|k: int|
                0 <= k < i ==> #[trigger] w@[2 * k].0 == IOREDTBL_BASE + 2 * k && w@[2 * k].1 == REDTBL_MASKED
                    && w@[2 * k + 1].0 == IOREDTBL_BASE + 2 * k + 1 && w@[2 * k + 1].1 == 0,
        decreases n - i,
    {
        let pair = redirect_writes(i, REDTBL_MASKED);
        assert(pair[0].1 == REDTBL_MASKED && pair[1].1 == 0);
        let ghost w0 = w@;
        w.push(pair[0]);
        w.push(pair[1]);
        assert(w@ == w0.push(pair[0]).push(pair[1]));
        assert forall|k: int| 0 <= k < i + 1 implies #[trigger] w@[2 * k].0 == IOREDTBL_BASE + 2 * k && w@[2 * k].1
            == REDTBL_MASKED && w@[2 * k + 1].0 == IOREDTBL_BASE + 2 * k + 1 && w@[2 * k + 1].1 == 0 by {
            if k < i {
                assert(w@[2 * k] == w0[2 * k] && w@[2 * k + 1] == w0[2 * k + 1]);
            }
        }
        i = i + 1;
    }
    w
}

/// The redirection-entry count of version register `ver`.
pub open spec fn ioapic_lines_spec(ver: u32) -> int {
    (ver / 0x1_0000) % 0x100 + 1
}

/// Redirection entry routing a line to `vector` on the local APIC with
/// id `lapic_id`: edge-triggered, fixed delivery, physical destination,
/// unmasked. Only the low 8 bits of the id fit the destination field.
pub fn redirect_entry(vector: u8, lapic_id: u32) -> (e: u64)
    ensures
        e == vector as int + (lapic_id % 0x100) as int * 0x100_0000_0000_0000,
{
    vector as u64 + (lapic_id % 0x100) as u64 * 0x100_0000_0000_0000
}

/// The calibrated TSC frequency (0 until calibration ran).
pub struct TscClock {
    pub freq_hz: u64,
}

impl TscClock {
    /// Record the calibrated frequency.
    pub fn set_freq(&mut self, hz: u64)
        ensures
            final(self).freq_hz == hz,
    {
        self.freq_hz = hz;
    }

    /// The TSC frequency in Hz; 1 GHz before calibration, so that no
    /// caller ever divides by zero.
    pub fn read_freq(&self) -> (hz: u64)
        ensures
            hz == (if self.freq_hz == 0 { 1_000_000_000 } else { self.freq_hz }),
    {
        if self.freq_hz == 0 {
            1_000_000_000
        } else {
            self.freq_hz
        }
    }

    /// The timer frequency the architecture reports: the TSC's.
    pub fn timer_freq(&self) -> (hz: u64)
        ensures
            hz == (if self.freq_hz == 0 { 1_000_000_000 } else { self.freq_hz }),
    {
        self.read_freq()
    }
}

/// The 64-bit TSC value from the `edx` (`hi`) and `eax` (`lo`) halves
/// `rdtsc` returns.
pub fn tsc_value(hi: u32, lo: u32) -> (v: u64)
    ensures
        v == hi * 0x1_0000_0000 + lo,
{
    hi as u64 * 0x1_0000_0000 + lo as u64
}

/// The canonical PIT input clock, in Hz.
pub const PIT_FREQ_HZ: u32 = 1_193_182;

/// Length of a calibration window, in microseconds.
pub const CALIBRATION_MICROS: u64 = 50_000;

/// PIT channel-2 count for a window of `micros` microseconds, capped at
/// the 16-bit counter's maximum.
pub fn pit_count(micros: u32) -> (c: u16)
    ensures
        c == (if PIT_FREQ_HZ * micros / 1_000_000 > 0xFFFF { 0xFFFFint } else { PIT_FREQ_HZ * micros / 1_000_000 }),
{
    assert(PIT_FREQ_HZ as u64 * micros as u64 <= 1_193_182 * 0xFFFF_FFFF) by (nonlinear_arith)
        requires
            micros <= 0xFFFF_FFFF,
            PIT_FREQ_HZ == 1_193_182,
    ;
    let count = (PIT_FREQ_HZ as u64 * micros as u64) / 1_000_000;
    if count > 0xFFFF {
        0xFFFF
    } else {
        count as u16
    }
}

/// Port 0x61 value that opens the channel-2 gate (bit 0) with the
/// speaker output (bit 1) off, other bits kept.
pub fn gate_port61(p61: u8) -> (v: u8)
    ensures
        v == (p61 & !0x02u8) | 0x01,
        v & 0x01 == 0x01,
        v & 0x02 == 0,
{
    let v = (p61 & !0x02) | 0x01;
    assert(v & 0x01 == 0x01 && v & 0x02 == 0) by (bit_vector)
        requires
            v == (p61 & !0x02u8) | 0x01u8,
    ;
    v
}

/// The two data-port bytes that load channel 2 with `count`: low byte
/// first.
pub fn pit_count_bytes(count: u16) -> (b: (u8, u8))
    ensures
        b.0 == count % 256,
        b.1 == count / 256,
{
    ((count % 256) as u8, (count / 256) as u8)
}

/// Whether port 0x61 value `p61` shows the channel-2 output (bit 5)
/// high: the calibration window has run out.
pub fn pit_expired(p61: u8) -> (r: bool)
    ensures
        r == (p61 & 0x20 != 0),
{
    p61 & 0x20 != 0
}

/// Ticks a counter advanced from `start` to `end`, across a wrap.
pub fn window_delta(start: u64, end: u64) -> (d: u64)
    ensures
        d == (if end >= start {
            end - start
        } else {
            end + 0x1_0000_0000_0000_0000 - start
        }),
{
    end.wrapping_sub(start)
}

/// Ticks the LAPIC timer has counted down from its maximum initial
/// count when its current-count register reads `cur`.
pub fn lapic_elapsed(cur: u32) -> (t: u64)
    ensures
        t == u32::MAX - cur,
{
    u32::MAX as u64 - cur as u64
}

/// Ticks per second of a counter that advanced `delta` ticks during a
/// calibration window of [`CALIBRATION_MICROS`] (the TSC, or the LAPIC
/// bus clock).
pub fn calibrate_tsc(delta: u64) -> (hz: u64)
    requires
        delta * 1_000_000 <= u64::MAX,
    ensures
        hz == delta * 1_000_000 / 50_000,
{
    delta * 1_000_000 / CALIBRATION_MICROS
}

/// Whether the boot page tables have been taken over.
pub struct PagingState {
    pub ready: bool,
}

impl PagingState {
    /// Mark the boot page tables as taken over.
    pub fn init(&mut self)
        ensures
            final(self).ready,
    {
        self.ready = true;
    }

    pub fn ready(&self) -> (r: bool)
        ensures
            r == self.ready,
    {
        self.ready
    }
}

} // verus!
