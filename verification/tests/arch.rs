use hyperion_kernel::arch::aarch64::{sctlr_with_mmu, MAIR_EL1_VALUE, TCR_EL1_VALUE};
use hyperion_kernel::arch::aarch64::{
    ack_intid, build_identity_map, children_asleep, enable_ppi, gic_init_plan, handle_irq, init_context, is_timer_irq, sync_action,
    syscall_return as a64_syscall_return, tick_interval, unhandled_kind, waker_awake, Context, GicFrame, GicWrite,
    GicInitStep, GicSysReg, IrqAction, MmuState, SmpBoot, SyncAction, TrapFrame as A64Frame, UnhandledKind, GICD_ISENABLER,
    PSCI_ALREADY_ON, PSCI_DENIED, PSCI_SUCCESS, SPURIOUS_INTID, TIMER_PPI,
};
use hyperion_kernel::arch::x86_64::{
    build_idt, calibrate_tsc, gate_port61, gdt_entries, ioapic_lines, ioapic_mask_all, is_tick_vector,
    lapic_elapsed, lapic_interval, pit_count, pit_count_bytes, pit_expired, redirect_entry, redirect_writes,
    syscall_return, trap_action, tsc_value, tss_descriptor_high, tss_descriptor_low, window_delta, IdtEntry,
    PagingState, TickCounter, TrapAction, TrapFrame, TscClock, RAX, RDI, REDTBL_MASKED,
};
use hyperion_kernel::hal::boot_info::IntcKind;

#[test]
fn gdt_and_tss() {
    let g = gdt_entries(0x1234_5678_9abc_def0, 0x67);
    assert_eq!(g[0], 0);
    assert_eq!(g[1], 0x00AF_9A00_0000_FFFF);
    assert_eq!(g[5], tss_descriptor_low(0x1234_5678_9abc_def0, 0x67));
    assert_eq!(g[6], 0x1234_5678);
    assert_eq!(tss_descriptor_high(0xaaaa_bbbb_0000_0000), 0xaaaa_bbbb);
    let d = tss_descriptor_low(0x00ab_cdef, 0x1_0067);
    assert_eq!(d & 0xffff, 0x0067);
    assert_eq!((d >> 16) & 0xff_ffff, 0xab_cdef);
    assert_eq!((d >> 40) & 0xff, 0x89);
    assert_eq!((d >> 48) & 0xf, 1);
    assert_eq!(d >> 56, 0);
}

#[test]
fn idt_entries() {
    let mut e = IdtEntry::empty();
    e.set(0x1122_3344_5566_7788, 0x8E);
    assert_eq!((e.offset_low, e.offset_mid, e.offset_high), (0x7788, 0x5566, 0x1122_3344));
    assert_eq!((e.selector, e.ist, e.type_attr, e.zero), (0x08, 0, 0x8E, 0));
    let mut handlers = [0u64; 256];
    for (i, h) in handlers.iter_mut().enumerate() {
        *h = 0xffff_8000_0000_0000 + 16 * i as u64;
    }
    let t = build_idt(&handlers);
    assert_eq!(t.len(), 256);
    assert_eq!(t[0x80].type_attr, 0xEE);
    assert_eq!(t[0x81].type_attr, 0x8E);
    assert_eq!(t[3].offset_low, 0x30);
    assert_eq!(t[3].offset_high, 0xffff_8000);
}

#[test]
fn x86_traps() {
    let mut tf = TrapFrame { regs: [0; 15], vector: 0x80, error_code: 0, rip: 0x1000, cs: 8, rflags: 0, rsp: 0, ss: 0 };
    tf.regs[RAX] = 60;
    tf.regs[RDI] = 1;
    match trap_action(&tf) {
        TrapAction::Syscall { nr, args } => {
            assert_eq!(nr, 60);
            assert_eq!(args[0], 1);
        }
        _ => panic!("expected a system call"),
    }
    syscall_return(&mut tf, 7);
    assert_eq!(tf.regs[RAX], 7);
    assert_eq!(tf.rip, 0x1000);
    tf.vector = 14;
    assert!(matches!(trap_action(&tf), TrapAction::Fault { vector: 14 }));
    tf.vector = 0x40;
    assert!(matches!(trap_action(&tf), TrapAction::Unknown { vector: 0x40 }));
    assert!(is_tick_vector(0x20));
    assert!(!is_tick_vector(0x21));
}

#[test]
fn x86_timers() {
    let mut t = TickCounter { ticks: u64::MAX - 1 };
    t.on_tick();
    assert_eq!(t.ticks, u64::MAX);
    t.on_tick();
    assert_eq!(t.ticks, 0);
    assert_eq!(lapic_interval(0), None);
    assert_eq!(lapic_interval(1_000_000_000), Some(10_000_000));
    assert_eq!(lapic_interval(50), Some(1));
    let mut c = TscClock { freq_hz: 0 };
    assert_eq!(c.read_freq(), 1_000_000_000);
    c.set_freq(2_400_000_000);
    assert_eq!(c.read_freq(), 2_400_000_000);
    assert_eq!(c.timer_freq(), 2_400_000_000);
    assert_eq!(tsc_value(1, 2), 0x1_0000_0002);
    assert_eq!(pit_count(50_000), 59_659);
    assert_eq!(pit_count(1_000_000), 0xFFFF);
    assert_eq!(pit_count_bytes(0x1234), (0x34, 0x12));
    assert_eq!(gate_port61(0xff), 0xfd);
    assert_eq!(gate_port61(0x00), 0x01);
    assert!(pit_expired(0x20));
    assert!(!pit_expired(0xdf));
    assert_eq!(window_delta(10, 25), 15);
    assert_eq!(window_delta(u64::MAX, 4), 5);
    assert_eq!(lapic_elapsed(u32::MAX - 100), 100);
    assert_eq!(calibrate_tsc(120_000_000), 2_400_000_000);
    let mut p = PagingState { ready: false };
    p.init();
    assert!(p.ready());
}

#[test]
fn ioapic_programming() {
    assert_eq!(ioapic_lines(0x0017_0020), 24);
    let w = ioapic_mask_all(0x0001_0011);
    assert_eq!(w.len(), 4);
    assert_eq!(w[0], (0x10, REDTBL_MASKED as u32));
    assert_eq!(w[1], (0x11, 0));
    assert_eq!(w[2], (0x12, REDTBL_MASKED as u32));
    assert_eq!(redirect_entry(0x24, 3), 0x0300_0000_0000_0024);
    assert_eq!(redirect_entry(0x24, 0x1_0002), 0x0200_0000_0000_0024);
    assert_eq!(redirect_writes(4, 0xaabb_ccdd_1122_3344), [(0x18, 0x1122_3344), (0x19, 0xaabb_ccdd)]);
}

#[test]
fn aarch64_context_and_irqs() {
    let mut ctx = Context { x19: 9, x20: 9, x21: 5, x22: 0, x23: 0, x24: 0, x25: 0, x26: 0, x27: 0, x28: 0, fp: 3, lr: 0, sp: 0 };
    init_context(&mut ctx, 0x1000, 42, 0x8000_001f, 0x2000);
    assert_eq!((ctx.x19, ctx.x20, ctx.lr, ctx.sp, ctx.fp, ctx.x21), (0x1000, 42, 0x2000, 0x8000_0010, 0, 5));
    assert!(is_timer_irq(TIMER_PPI));
    assert!(!is_timer_irq(27));
    assert_eq!(tick_interval(62_500_000), 625_000);
    assert_eq!(handle_irq(IntcKind::GicV2, TIMER_PPI), IrqAction::TimerTick);
    assert_eq!(handle_irq(IntcKind::GicV3, 33), IrqAction::Unrouted);
    assert_eq!(handle_irq(IntcKind::GicV3, SPURIOUS_INTID), IrqAction::Ignore);
    assert_eq!(handle_irq(IntcKind::Apic, TIMER_PPI), IrqAction::Ignore);
    assert_eq!(
        enable_ppi(IntcKind::GicV2, 30),
        Some(GicWrite { frame: GicFrame::Distributor, offset: GICD_ISENABLER, value: 1 << 30 })
    );
    assert_eq!(
        enable_ppi(IntcKind::GicV3, 27),
        Some(GicWrite { frame: GicFrame::Redistributor, offset: 0x1_0100, value: 1 << 27 })
    );
    assert_eq!(enable_ppi(IntcKind::Pic8259, 30), None);
    assert_eq!(ack_intid(IntcKind::GicV2, 0x1c1e), Some(0x01e));
    assert_eq!(ack_intid(IntcKind::GicV3, 0xff12_3456_789a), Some(0x56_789a));
    assert_eq!(ack_intid(IntcKind::Apic, 5), None);
    assert_eq!(waker_awake(0x6), 0x4);
    assert!(children_asleep(0x4));
    assert!(!children_asleep(0x2));
}

#[test]
fn aarch64_sync_exceptions() {
    let mut tf = A64Frame { regs: [0; 31], sp: 0, elr: 0x4000, spsr: 0, esr: 0x15 << 26, far: 0 };
    tf.regs[8] = 64;
    tf.regs[0] = 1;
    tf.regs[5] = 6;
    match sync_action(&tf) {
        SyncAction::Syscall { nr, args } => {
            assert_eq!(nr, 64);
            assert_eq!(args, [1, 0, 0, 0, 0, 6]);
        }
        _ => panic!("expected a system call"),
    }
    a64_syscall_return(&mut tf, 99);
    assert_eq!(tf.regs[0], 99);
    tf.esr = (0x3c << 26) | 0x1234;
    assert!(matches!(sync_action(&tf), SyncAction::Breakpoint));
    tf.esr = 0x24 << 26;
    assert!(matches!(sync_action(&tf), SyncAction::Unhandled { ec: 0x24 }));
    assert_eq!(unhandled_kind(1), UnhandledKind::SErrorKernel);
    assert_eq!(unhandled_kind(9), UnhandledKind::Unknown);
}

#[test]
fn smp_bring_up_is_idempotent() {
    let mut s = SmpBoot::new(4);
    assert!(s.begin());
    assert!(!s.begin());
    s.start_secondaries(PSCI_SUCCESS);
    assert_eq!((s.next, s.woken, s.done), (2, 1, false));
    s.start_secondaries(PSCI_ALREADY_ON);
    assert_eq!((s.next, s.woken, s.done), (3, 1, false));
    s.start_secondaries(PSCI_SUCCESS);
    assert_eq!((s.next, s.woken, s.done), (4, 2, true));
    let mut t = SmpBoot::new(8);
    t.start_secondaries(PSCI_DENIED);
    assert!(t.done);
    assert_eq!(t.next, 1);
    assert!(SmpBoot::new(1).done);
    let mut u = SmpBoot::new(4);
    assert!(u.begin());
    u.start_secondaries(PSCI_SUCCESS);
    u.start_secondaries(PSCI_SUCCESS);
    u.start_secondaries(PSCI_SUCCESS);
    assert_eq!(u.woken, 3);
    assert!(!u.begin());
    assert_eq!((u.next, u.woken, u.done, u.started), (1, 0, false, true));
    for _ in 0..3 {
        u.start_secondaries(PSCI_ALREADY_ON);
    }
    assert_eq!(u.woken, 0);
    assert!(u.done);
}

#[test]
fn gic_bring_up_steps() {
    assert_eq!(
        gic_init_plan(IntcKind::GicV2),
        vec![
            GicInitStep::Write(GicWrite { frame: GicFrame::Distributor, offset: 0, value: 1 }),
            GicInitStep::Write(GicWrite { frame: GicFrame::CpuInterface, offset: 4, value: 0xff }),
            GicInitStep::Write(GicWrite { frame: GicFrame::CpuInterface, offset: 0, value: 1 }),
        ]
    );
    assert_eq!(
        gic_init_plan(IntcKind::GicV3),
        vec![
            GicInitStep::WakeRedistributor { spins: 1_000_000 },
            GicInitStep::SysReg(GicSysReg::Sre, 1),
            GicInitStep::SysReg(GicSysReg::Pmr, 0xff),
            GicInitStep::SysReg(GicSysReg::Igrpen1, 1),
            GicInitStep::Write(GicWrite { frame: GicFrame::Distributor, offset: 0, value: 0x12 }),
        ]
    );
    assert!(gic_init_plan(IntcKind::Apic).is_empty());
}

#[test]
fn identity_map_and_mmu() {
    let (l1, l2) = build_identity_map(0x4001_0000);
    assert_eq!(l1.len(), 512);
    assert_eq!(l1[0], 0x4001_0003);
    assert!(l1[1..].iter().all(|e| *e == 0));
    assert_eq!(l2.len(), 512);
    assert_eq!(l2[0], 0x705);
    assert_eq!(l2[1], 0x20_0705);
    let mut m = MmuState { enabled: false };
    assert!(m.enable());
    assert!(!m.enable());
    assert!(m.enabled());
}

#[test]
fn mmu_register_values() {
    assert_eq!(MAIR_EL1_VALUE, 0xff | (0x04 << 8));
    let tcr = 25u64 | (25 << 16) | (1 << 8) | (1 << 10) | (3 << 12) | (1 << 24) | (1 << 26) | (3 << 28) | (2 << 30) | (1 << 32);
    assert_eq!(TCR_EL1_VALUE, tcr);
    assert_eq!(sctlr_with_mmu(0x30d0_0800), 0x30d0_1805);
}
