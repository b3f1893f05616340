//! aarch64 decisions: thread contexts, the timer interrupt, GIC dispatch,
//! secondary-CPU bring-up and the boot identity map. Register and
//! firmware accesses (system registers, HVC) are the platform layer's;
//! these functions decide what they read and write.

use vstd::prelude::*;
use crate::hal::boot_info::IntcKind;
use vstd::arithmetic::power2::pow2;
use vstd::bits::{lemma_u32_pow2_no_overflow, lemma_u32_shl_is_mul};

verus! {

/// Callee-saved registers of a suspended thread.
#[derive(Debug, Clone, Copy, PartialEq, Eq, Structural)]
pub struct Context {
    pub x19: u64,
    pub x20: u64,
    pub x21: u64,
    pub x22: u64,
    pub x23: u64,
    pub x24: u64,
    pub x25: u64,
    pub x26: u64,
    pub x27: u64,
    pub x28: u64,
    /// x29.
    pub fp: u64,
    /// x30.
    pub lr: u64,
    pub sp: u64,
}

/// Set up `ctx` so that switching to it runs the thread trampoline at
/// `trampoline`, which calls the function at `entry` with `arg` on the
/// stack ending at `stack_top` (rounded down to 16 bytes).
pub fn init_context(ctx: &mut Context, entry: u64, arg: u64, stack_top: u64, trampoline: u64)
    ensures
        *final(ctx) == (Context {
            x19: entry,
            x20: arg,
            lr: trampoline,
            sp: (stack_top - stack_top % 16) as u64,
            fp: 0,
            ..*old(ctx)
        }),
{
    ctx.x19 = entry;
    ctx.x20 = arg;
    ctx.lr = trampoline;
    ctx.sp = stack_top - stack_top % 16;
    ctx.fp = 0;
}

/// Registers saved on exception entry.
#[derive(Debug, Clone, Copy)]
pub struct TrapFrame {
    /// `x0` to `x30`.
    pub regs: [u64; 31],
    pub sp: u64,
    pub elr: u64,
    pub spsr: u64,
    pub esr: u64,
    pub far: u64,
}

/// What a synchronous exception asks of the kernel.
#[derive(Debug, Clone, Copy)]
pub enum SyncAction {
    /// `SVC` from AArch64: system call `nr` with arguments `x0` to `x5`.
    Syscall { nr: u64, args: [u64; 6] },
    /// `BRK`: a debug breakpoint, fatal.
    Breakpoint,
    /// Any other exception class, fatal.
    Unhandled { ec: u64 },
}

/// Exception class of a syndrome value: bits 26 to 31.
pub open spec fn exception_class(esr: u64) -> u64 {
    (esr / 0x400_0000) % 0x40
}

/// How to handle a synchronous exception with saved state `tf`: by its
/// exception class, an `SVC` (0x15) is a system call numbered by `x8`,
/// a `BRK` (0x3c) a breakpoint.
pub fn sync_action(tf: &TrapFrame) -> (a: SyncAction)
    ensures
        exception_class(tf.esr) == 0x15 ==> a == (SyncAction::Syscall {
            nr: tf.regs[8],
            args: [tf.regs[0], tf.regs[1], tf.regs[2], tf.regs[3], tf.regs[4], tf.regs[5]],
        }),
        exception_class(tf.esr) == 0x3c ==> a == SyncAction::Breakpoint,
        exception_class(tf.esr) != 0x15 && exception_class(tf.esr) != 0x3c ==> a == (SyncAction::Unhandled {
            ec: exception_class(tf.esr),
        }),
{
    let ec = (tf.esr / 0x400_0000) % 0x40;
    if ec == 0x15 {
        SyncAction::Syscall {
            nr: tf.regs[8],
            args: [tf.regs[0], tf.regs[1], tf.regs[2], tf.regs[3], tf.regs[4], tf.regs[5]],
        }
    } else if ec == 0x3c {
        SyncAction::Breakpoint
    } else {
        SyncAction::Unhandled { ec }
    }
}

/// Hand a system call's result back in `x0`.
pub fn syscall_return(tf: &mut TrapFrame, ret: u64)
    ensures
        final(tf).regs@ == old(tf).regs@.update(0, ret),
        final(tf).sp == old(tf).sp,
        final(tf).elr == old(tf).elr,
        final(tf).spsr == old(tf).spsr,
        final(tf).esr == old(tf).esr,
        final(tf).far == old(tf).far,
{
    tf.regs[0] = ret;
}

/// Which unexpected vector-table entry was taken.
#[derive(Debug, Clone, Copy, PartialEq, Eq, Structural)]
pub enum UnhandledKind {
    /// A synchronous exception taken with `SP_EL0`.
    SyncSpEl0,
    /// An SError from the kernel.
    SErrorKernel,
    /// An SError from user space.
    SErrorUser,
    /// A code the vector stubs do not pass.
    Unknown,
}

/// The unexpected entry the vector stubs report with code `kind`.
pub fn unhandled_kind(kind: u64) -> (k: UnhandledKind)
    ensures
        k == (if kind == 0 {
            UnhandledKind::SyncSpEl0
        } else if kind == 1 {
            UnhandledKind::SErrorKernel
        } else if kind == 2 {
            UnhandledKind::SErrorUser
        } else {
            UnhandledKind::Unknown
        }),
{
    if kind == 0 {
        UnhandledKind::SyncSpEl0
    } else if kind == 1 {
        UnhandledKind::SErrorKernel
    } else if kind == 2 {
        UnhandledKind::SErrorUser
    } else {
        UnhandledKind::Unknown
    }
}

/// GIC interrupt id of the EL1 physical timer (a PPI).
pub const TIMER_PPI: u32 = 30;

/// Interrupt id the GIC reports when no interrupt is pending.
pub const SPURIOUS_INTID: u32 = 1023;

/// Whether interrupt `intid` is the EL1 physical timer.
pub fn is_timer_irq(intid: u32) -> (r: bool)
    ensures
        r == (intid == TIMER_PPI),
{
    intid == TIMER_PPI
}

/// Timer reload value for a 100 Hz tick at counter frequency `freq`.
pub fn tick_interval(freq: u64) -> (r: u64)
    ensures
        r == freq / 100,
{
    freq / 100
}

/// What the IRQ handler does with an acknowledged interrupt.
#[derive(Debug, Clone, Copy, PartialEq, Eq, Structural)]
pub enum IrqAction {
    /// Nothing, not even an end-of-interrupt: no GIC, or a spurious id.
    Ignore,
    /// Re-arm the timer, run the scheduler tick, then end the interrupt.
    TimerTick,
    /// Log it as unrouted, then end the interrupt.
    Unrouted,
}

/// The handling of interrupt `intid`, acknowledged on an interrupt
/// controller of kind `kind`.
pub fn handle_irq(kind: IntcKind, intid: u32) -> (a: IrqAction)
    ensures
        a == (if !(kind == IntcKind::GicV2 || kind == IntcKind::GicV3) || intid == SPURIOUS_INTID {
            IrqAction::Ignore
        } else if intid == TIMER_PPI {
            IrqAction::TimerTick
        } else {
            IrqAction::Unrouted
        }),
{
    match kind {
        IntcKind::GicV2 => {},
        IntcKind::GicV3 => {},
        IntcKind::Apic => {
            return IrqAction::Ignore;
        },
        IntcKind::Pic8259 => {
            return IrqAction::Ignore;
        },
    }
    if intid == SPURIOUS_INTID {
        return IrqAction::Ignore;
    }
    if is_timer_irq(intid) {
        IrqAction::TimerTick
    } else {
        IrqAction::Unrouted
    }
}

/// Which GIC register frame a write goes to.
#[derive(Debug, Clone, Copy, PartialEq, Eq, Structural)]
pub enum GicFrame {
    /// The distributor (GICv2 `GICD_*`).
    Distributor,
    /// This CPU's redistributor (GICv3 `GICR_*`).
    Redistributor,
    /// This CPU's interface (GICv2 `GICC_*`).
    CpuInterface,
}

/// One 32-bit register write at `offset` bytes into `frame`.
#[derive(Debug, Clone, Copy, PartialEq, Eq, Structural)]
pub struct GicWrite {
    pub frame: GicFrame,
    pub offset: usize,
    pub value: u32,
}

/// `GICD_ISENABLER` (GICv2 distributor).
pub const GICD_ISENABLER: usize = 0x100;

/// Offset of the SGI/PPI frame within a GICv3 redistributor.
pub const GICR_SGI_OFF: usize = 0x1_0000;

/// `GICR_ISENABLER0` within the SGI/PPI frame.
pub const GICR_ISENABLER0: usize = 0x100;

/// The write that enables PPI `intid` (16 to 31) on an interrupt
/// controller of kind `kind`: the enable bit in the distributor's
/// enable register for GICv2, in the redistributor's for GICv3; none
/// without a GIC.
pub fn enable_ppi(kind: IntcKind, intid: u32) -> (w: Option<GicWrite>)
    requires
        16 <= intid < 32,
    ensures
        kind == IntcKind::GicV2 ==> w == Some(
            GicWrite { frame: GicFrame::Distributor, offset: GICD_ISENABLER, value: pow2((intid % 32) as nat) as u32 },
        ),
        kind == IntcKind::GicV3 ==> w == Some(
            GicWrite {
                frame: GicFrame::Redistributor,
                offset: (GICR_SGI_OFF + GICR_ISENABLER0) as usize,
                value: pow2((intid % 32) as nat) as u32,
            },
        ),
        !(kind == IntcKind::GicV2 || kind == IntcKind::GicV3) ==> w is None,
{
    let bit = intid % 32;
    proof {
        lemma_u32_pow2_no_overflow(bit as nat);
        lemma_u32_shl_is_mul(1, bit);
    }
    let value = 1u32 << bit;
    match kind {
        IntcKind::GicV2 => {
            let reg = (intid / 32) as usize;
            Some(GicWrite { frame: GicFrame::Distributor, offset: GICD_ISENABLER + reg * 4, value })
        },
        IntcKind::GicV3 => Some(GicWrite { frame: GicFrame::Redistributor, offset: GICR_SGI_OFF + GICR_ISENABLER0, value }),
        IntcKind::Apic => None,
        IntcKind::Pic8259 => None,
    }
}

/// The interrupt id in an acknowledge value `raw` read from a GIC of
/// kind `kind`: the low 10 bits of `GICC_IAR` on GICv2, the low 24 bits
/// of `ICC_IAR1_EL1` on GICv3; none without a GIC.
pub fn ack_intid(kind: IntcKind, raw: u64) -> (r: Option<u32>)
    ensures
        kind == IntcKind::GicV2 ==> r == Some((raw % 0x400) as u32),
        kind == IntcKind::GicV3 ==> r == Some((raw % 0x100_0000) as u32),
        !(kind == IntcKind::GicV2 || kind == IntcKind::GicV3) ==> r is None,
{
    match kind {
        IntcKind::GicV2 => {
            Some((raw % 0x400) as u32)
        },
        IntcKind::GicV3 => {
            Some((raw % 0x100_0000) as u32)
        },
        IntcKind::Apic => None,
        IntcKind::Pic8259 => None,
    }
}

/// `GICR_WAKER.ProcessorSleep`.
pub const GICR_WAKER_PROC_SLEEP: u32 = 2;

/// `GICR_WAKER.ChildrenAsleep`.
pub const GICR_WAKER_CHILDREN_ASLEEP: u32 = 4;

/// The `GICR_WAKER` value that wakes the redistributor: `waker` with
/// `ProcessorSleep` cleared.
pub fn waker_awake(waker: u32) -> (w: u32)
    ensures
        w == waker & !GICR_WAKER_PROC_SLEEP,
        w & GICR_WAKER_PROC_SLEEP == 0,
{
    let w = waker & !GICR_WAKER_PROC_SLEEP;
    assert(w & GICR_WAKER_PROC_SLEEP == 0) by (bit_vector)
        requires
            w == waker & !2u32,
            GICR_WAKER_PROC_SLEEP == 2,
    ;
    w
}

/// Whether a `GICR_WAKER` value still reports sleeping children.
pub fn children_asleep(waker: u32) -> (r: bool)
    ensures
        r == (waker & GICR_WAKER_CHILDREN_ASLEEP != 0),
{
    waker & GICR_WAKER_CHILDREN_ASLEEP != 0
}

/// `GICD_CTLR` (distributor control).
pub const GICD_CTLR: usize = 0x000;

/// `GICC_CTLR` (GICv2 CPU-interface control).
pub const GICC_CTLR: usize = 0x000;

/// `GICC_PMR` (GICv2 priority mask).
pub const GICC_PMR: usize = 0x004;

/// `GICR_WAKER` within a GICv3 redistributor.
pub const GICR_WAKER: usize = 0x014;

/// Reads of `GICR_WAKER` the redistributor wake-up waits at most.
pub const WAKER_SPINS: u32 = 1_000_000;

/// A GICv3 CPU-interface system register.
#[derive(Debug, Clone, Copy, PartialEq, Eq, Structural)]
pub enum GicSysReg {
    /// `ICC_SRE_EL1`.
    Sre,
    /// `ICC_PMR_EL1`.
    Pmr,
    /// `ICC_IGRPEN1_EL1`.
    Igrpen1,
}

/// One step of bringing an interrupt controller up.
#[derive(Debug, Clone, Copy, PartialEq, Eq, Structural)]
pub enum GicInitStep {
    /// A register store.
    Write(GicWrite),
    /// Clear `ProcessorSleep` in `GICR_WAKER` (see [`waker_awake`]), then
    /// read it until `ChildrenAsleep` clears (see [`children_asleep`]),
    /// at most `spins` times.
    WakeRedistributor { spins: u32 },
    /// A system-register write.
    SysReg(GicSysReg, u64),
}

/// The bring-up of an interrupt controller of kind `kind`: for GICv2,
/// distributor on, then the CPU interface's priority mask opened and the
/// interface on; for GICv3, the redistributor woken, the system-register
/// interface on (`ICC_SRE_EL1 = 1`), the priority mask opened, group 1
/// on, then the distributor on with affinity routing and group 1; no
/// steps without a GIC.
pub open spec fn gic_init_spec(kind: IntcKind) -> Seq<GicInitStep> {
    match kind {
        IntcKind::GicV2 => seq![
            GicInitStep::Write(GicWrite { frame: GicFrame::Distributor, offset: GICD_CTLR, value: 1 }),
            GicInitStep::Write(GicWrite { frame: GicFrame::CpuInterface, offset: GICC_PMR, value: 0xff }),
            GicInitStep::Write(GicWrite { frame: GicFrame::CpuInterface, offset: GICC_CTLR, value: 1 }),
        ],
        IntcKind::GicV3 => seq![
            GicInitStep::WakeRedistributor { spins: WAKER_SPINS },
            GicInitStep::SysReg(GicSysReg::Sre, 1),
            GicInitStep::SysReg(GicSysReg::Pmr, 0xff),
            GicInitStep::SysReg(GicSysReg::Igrpen1, 1),
            GicInitStep::Write(GicWrite { frame: GicFrame::Distributor, offset: GICD_CTLR, value: 0x12 }),
        ],
        IntcKind::Apic => Seq::empty(),
        IntcKind::Pic8259 => Seq::empty(),
    }
}

/// The steps that bring up an interrupt controller of kind `kind`, in
/// order.
pub fn gic_init_plan(kind: IntcKind) -> (r: Vec<GicInitStep>)
    ensures
        r@ == gic_init_spec(kind),
{
    let mut v: Vec<GicInitStep> = Vec::new();
    match kind {
        IntcKind::GicV2 => {
            v.push(GicInitStep::Write(GicWrite { frame: GicFrame::Distributor, offset: GICD_CTLR, value: 1 }));
            v.push(GicInitStep::Write(GicWrite { frame: GicFrame::CpuInterface, offset: GICC_PMR, value: 0xff }));
            v.push(GicInitStep::Write(GicWrite { frame: GicFrame::CpuInterface, offset: GICC_CTLR, value: 1 }));
        },
        IntcKind::GicV3 => {
            v.push(GicInitStep::WakeRedistributor { spins: WAKER_SPINS });
            v.push(GicInitStep::SysReg(GicSysReg::Sre, 1));
            v.push(GicInitStep::SysReg(GicSysReg::Pmr, 0xff));
            v.push(GicInitStep::SysReg(GicSysReg::Igrpen1, 1));
            v.push(GicInitStep::Write(GicWrite { frame: GicFrame::Distributor, offset: GICD_CTLR, value: 0x12 }));
        },
        IntcKind::Apic => {},
        IntcKind::Pic8259 => {},
    }
    assert(v@ =~= gic_init_spec(kind));
    v
}

/// PSCI function ids (SMC32/SMC64 calling convention).
pub const PSCI_FN_VERSION: u32 = 0x8400_0000;
pub const PSCI_FN_CPU_ON: u32 = 0xc400_0003;
pub const PSCI_FN_SYSTEM_OFF: u32 = 0x8400_0008;
pub const PSCI_FN_SYSTEM_RESET: u32 = 0x8400_0009;

/// PSCI return codes.
pub const PSCI_SUCCESS: i32 = 0;
pub const PSCI_NOT_SUPPORTED: i32 = -1;
pub const PSCI_INVALID_PARAMETERS: i32 = -2;
pub const PSCI_DENIED: i32 = -3;
pub const PSCI_ALREADY_ON: i32 = -4;

/// Secondary-CPU bring-up: which CPU to wake next and how many answered.
#[derive(Debug, Clone, Copy, PartialEq, Eq, Structural)]
pub struct SmpBoot {
    /// Logical id (and MPIDR affinity) of the next CPU to wake.
    pub next: u32,
    /// CPUs that accepted `CPU_ON`.
    pub woken: u32,
    /// No further CPU is to be tried.
    pub done: bool,
    /// Number of CPUs the kernel supports.
    pub max_cpus: u32,
    /// Bring-up has been started once already.
    pub started: bool,
}

/// What [`SmpBoot::begin`] does: marks the bring-up started, puts the
/// probing back at CPU 1 with no CPU counted yet, and reports whether
/// it was not started before.
pub open spec fn begin_spec(s: SmpBoot) -> (SmpBoot, bool) {
    (SmpBoot { started: true, next: 1, woken: 0, done: s.max_cpus <= 1, ..s }, !s.started)
}

/// Starting again lands in the same place: a second `begin` finds the
/// bring-up claimed (so the boot CPU is not registered again) and sets
/// up the same probing as the first.
pub proof fn law_begin_idempotent(s: SmpBoot)
    ensures
        begin_spec(begin_spec(s).0) == (begin_spec(s).0, false),
{
}

/// What recording the `CPU_ON` answer `ret` for CPU `s.next` does (see
/// [`SmpBoot::start_secondaries`]).
pub open spec fn record_spec(s: SmpBoot, ret: i32) -> SmpBoot {
    if ret == PSCI_INVALID_PARAMETERS || ret == PSCI_DENIED {
        SmpBoot { done: true, ..s }
    } else {
        SmpBoot {
            woken: if ret == PSCI_SUCCESS {
                (s.woken + 1) as u32
            } else {
                s.woken
            },
            next: (s.next + 1) as u32,
            done: s.next + 1 >= s.max_cpus,
            ..s
        }
    }
}

/// The probing from `s`, the CPUs answering `rets` in turn, until it is
/// done or the answers run out.
pub open spec fn probe_spec(s: SmpBoot, rets: Seq<i32>) -> SmpBoot
    decreases rets.len(),
{
    if rets.len() == 0 || s.done || s.next >= s.max_cpus {
        s
    } else {
        probe_spec(record_spec(s, rets[0]), rets.drop_first())
    }
}

/// Waking CPUs that are already on changes nothing that counts: when
/// every CPU answers `CPU_ON` with "already on", the number of CPUs
/// woken and the bring-up's claim stay as they were, and no CPU limit
/// changes.
pub proof fn law_already_on_ignored(s: SmpBoot, rets: Seq<i32>)
    requires
        forall|k: int| 0 <= k < rets.len() ==> #[trigger] rets[k] == PSCI_ALREADY_ON,
    ensures
        probe_spec(s, rets).woken == s.woken,
        probe_spec(s, rets).started == s.started,
        probe_spec(s, rets).max_cpus == s.max_cpus,
    decreases rets.len(),
{
    if !(rets.len() == 0 || s.done || s.next >= s.max_cpus) {
        assert(rets[0] == PSCI_ALREADY_ON);
        let t = rets.drop_first();
        assert forall|k: int| 0 <= k < t.len() implies #[trigger] t[k] == PSCI_ALREADY_ON by {
            assert(t[k] == rets[k + 1]);
        }
        law_already_on_ignored(record_spec(s, rets[0]), t);
    }
}

/// Starting the secondaries twice wakes nothing new: after a bring-up
/// has been claimed, the second call probes every CPU again, and when
/// each answers `CPU_ON` with "already on" no CPU is counted as woken
/// and the claim stays.
pub proof fn law_second_start_wakes_nothing(s: SmpBoot, rets: Seq<i32>)
    requires
        s.started,
        forall|k: int| 0 <= k < rets.len() ==> #[trigger] rets[k] == PSCI_ALREADY_ON,
    ensures
        !begin_spec(s).1,
        probe_spec(begin_spec(s).0, rets).woken == 0,
        probe_spec(begin_spec(s).0, rets).started,
{
    law_already_on_ignored(begin_spec(s).0, rets);
}

impl SmpBoot {
    /// Bring-up for `max_cpus` CPUs, the boot CPU being 0: CPU 1 first.
    pub fn new(max_cpus: u32) -> (s: Self)
        ensures
            s == (SmpBoot { next: 1, woken: 0, done: max_cpus <= 1, max_cpus, started: false }),
    {
        SmpBoot { next: 1, woken: 0, done: max_cpus <= 1, max_cpus, started: false }
    }

    /// Start (or restart) probing from CPU 1: `true` the first time,
    /// `false` on every later call, whose `CPU_ON` requests find the
    /// CPUs already on.
    pub fn begin(&mut self) -> (first: bool)
        ensures
            (*final(self), first) == begin_spec(*old(self)),
    {
        let first = !self.started;
        self.started = true;
        self.next = 1;
        self.woken = 0;
        self.done = self.max_cpus <= 1;
        first
    }

    /// Record the PSCI result `ret` of `CPU_ON` for CPU `self.next`: a
    /// success counts the CPU, "invalid parameters" or "denied" mean
    /// there is no such CPU and end the probing, anything else (already
    /// on, other errors) moves on; probing also ends after the last
    /// supported CPU.
    pub fn start_secondaries(&mut self, ret: i32)
        requires
            !old(self).done,
            old(self).next < old(self).max_cpus,
            old(self).woken < old(self).next,
        ensures
            *final(self) == record_spec(*old(self), ret),
            final(self).max_cpus == old(self).max_cpus,
            final(self).started == old(self).started,
            final(self).woken < final(self).next,
            final(self).woken == old(self).woken + (if ret == PSCI_SUCCESS { 1int } else { 0int }),
            ret == PSCI_INVALID_PARAMETERS || ret == PSCI_DENIED ==> final(self).done && final(self).next == old(self).next,
            !(ret == PSCI_INVALID_PARAMETERS || ret == PSCI_DENIED) ==> final(self).next == old(self).next + 1
                && final(self).done == (old(self).next + 1 >= old(self).max_cpus),
    {
        if ret == PSCI_INVALID_PARAMETERS || ret == PSCI_DENIED {
            self.done = true;
            return;
        }
        if ret == PSCI_SUCCESS {
            self.woken = self.woken + 1;
        }
        self.next = self.next + 1;
        self.done = self.next >= self.max_cpus;
    }
}

/// Entries of one translation table.
pub const ENTRIES: usize = 512;

pub const DESC_VALID: u64 = 1;
pub const DESC_TABLE: u64 = 2;
pub const DESC_AF: u64 = 0x400;
pub const DESC_SH_INNER: u64 = 0x300;
pub const DESC_AP_RW_EL1: u64 = 0;
pub const ATTR_NORMAL_IDX: u64 = 0;
pub const ATTR_DEVICE_IDX: u64 = 1;

/// Level-2 block descriptor `i` of the boot identity map: the 2 MiB
/// block at `i << 21`, device memory below 1 GiB and normal memory above,
/// accessed, inner shareable, read-write at EL1.
pub open spec fn l2_entry(i: int) -> u64 {
    let pa = (i * 0x20_0000) as u64;
    let attr: u64 = if pa < 0x4000_0000 { ATTR_DEVICE_IDX } else { ATTR_NORMAL_IDX };
    (pa + attr * 4 + DESC_AF + DESC_SH_INNER + DESC_AP_RW_EL1 + DESC_VALID) as u64
}

/// The boot identity map over the first 1 GiB: a level-1 table whose
/// entry 0 points at the level-2 table at `l2_pa` (the rest empty), and
/// the level-2 table of 2 MiB blocks.
pub fn build_identity_map(l2_pa: u64) -> (r: (Vec<u64>, Vec<u64>))
    requires
        l2_pa % 4096 == 0,
    ensures
        r.0@.len() == ENTRIES,
        r.0@[0] == l2_pa + DESC_VALID + DESC_TABLE,
        forall|i: int| 1 <= i < ENTRIES ==> #[trigger] r.0@[i] == 0,
        r.1@.len() == ENTRIES,
        forall|i: int| 0 <= i < ENTRIES ==> #[trigger] r.1@[i] == l2_entry(i),
{
    let mut l1: Vec<u64> = Vec::new();
    let mut l2: Vec<u64> = Vec::new();
    l1.push(l2_pa + DESC_VALID + DESC_TABLE);
    let mut i: usize = 0;
    while i < ENTRIES
        invariant
            i <= ENTRIES,
            l1@.len() == (if i == 0 { 1 } else { i as int }),
            l1@[0] == l2_pa + DESC_VALID + DESC_TABLE,
            forall|k: int| 1 <= k < l1@.len() ==> #[trigger] l1@[k] == 0,
            l2@.len() == i,
            forall|k: int| 0 <= k < i ==> #[trigger] l2@[k] == l2_entry(k),
        decreases ENTRIES - i,
    {
        if i > 0 {
            l1.push(0);
        }
        let pa: u64 = i as u64 * 0x20_0000;
        let attr_idx: u64 = if pa < 0x4000_0000 {
            ATTR_DEVICE_IDX
        } else {
            ATTR_NORMAL_IDX
        };
        let e = pa + attr_idx * 4 + DESC_AF + DESC_SH_INNER + DESC_AP_RW_EL1 + DESC_VALID;
        l2.push(e);
        i = i + 1;
    }
    (l1, l2)
}

/// `MAIR_EL1`: attribute 0 normal write-back memory (0xff), attribute 1
/// device nGnRE memory (0x04).
pub const MAIR_EL1_VALUE: u64 = 0x04ff;

/// `TCR_EL1`: 39-bit address spaces (T0SZ = T1SZ = 25), 4 KiB granules,
/// write-back inner and outer caching, inner shareable, 36-bit physical
/// addresses.
pub const TCR_EL1_VALUE: u64 = 0x1_B519_3519;

/// `SCTLR_EL1` value `sctlr` with the MMU (bit 0), the data cache (bit
/// 2) and the instruction cache (bit 12) switched on.
pub fn sctlr_with_mmu(sctlr: u64) -> (r: u64)
    ensures
        r == sctlr | 0x1005,
{
    sctlr | 0x1005
}

/// Whether the MMU has been turned on.
pub struct MmuState {
    pub enabled: bool,
}

impl MmuState {
    /// Mark the MMU on; `false` when it already was (nothing to do).
    pub fn enable(&mut self) -> (first: bool)
        ensures
            first == !old(self).enabled,
            final(self).enabled,
    {
        let first = !self.enabled;
        self.enabled = true;
        first
    }

    /// Whether the MMU has been turned on.
    pub fn enabled(&self) -> (r: bool)
        ensures
            r == self.enabled,
    {
        self.enabled
    }
}

} // verus!
