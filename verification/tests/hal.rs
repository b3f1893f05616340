use hyperion_kernel::hal::boot_info::{
    BootInfo, ConsoleKind, ConsoleSpec, IntcKind, MemoryMap, MemoryRegion, PixelFormat, RegSpec,
};
use hyperion_kernel::hal::console::{install, ns16550_stride, BootConsole};
use hyperion_kernel::hal::text::{bytes_eq, contains_bytes, find_byte, has_prefix, is_utf8, rfind_byte};
use hyperion_kernel::hal::{console_ready, dtb, info, multiboot, Hal};
use hyperion_kernel::drivers::uart::{Ns16550, Pl011};

struct Fdt {
    st: Vec<u8>,
    strings: Vec<u8>,
}

impl Fdt {
    fn new() -> Self {
        Fdt { st: Vec::new(), strings: Vec::new() }
    }
    fn word(&mut self, w: u32) {
        self.st.extend_from_slice(&w.to_be_bytes());
    }
    fn pad(&mut self) {
        while self.st.len() % 4 != 0 {
            self.st.push(0);
        }
    }
    fn begin(&mut self, name: &str) {
        self.word(1);
        self.st.extend_from_slice(name.as_bytes());
        self.st.push(0);
        self.pad();
    }
    fn end(&mut self) {
        self.word(2);
    }
    fn prop(&mut self, name: &str, val: &[u8]) {
        let off = self.strings.len() as u32;
        self.strings.extend_from_slice(name.as_bytes());
        self.strings.push(0);
        self.word(3);
        self.word(val.len() as u32);
        self.word(off);
        self.st.extend_from_slice(val);
        self.pad();
    }
    fn prop_cells(&mut self, name: &str, cells: &[u32]) {
        let mut v = Vec::new();
        for c in cells {
            v.extend_from_slice(&c.to_be_bytes());
        }
        self.prop(name, &v);
    }
    fn blob(mut self) -> Vec<u8> {
        self.word(9);
        let off_struct = 40 + 16;
        let off_strings = off_struct + self.st.len();
        let total = off_strings + self.strings.len();
        let mut b = Vec::new();
        for w in [
            0xd00d_feedu32,
            total as u32,
            off_struct as u32,
            off_strings as u32,
            40,
            17,
            16,
            0,
            self.strings.len() as u32,
            self.st.len() as u32,
        ] {
            b.extend_from_slice(&w.to_be_bytes());
        }
        b.extend_from_slice(&[0u8; 16]);
        b.extend_from_slice(&self.st);
        b.extend_from_slice(&self.strings);
        b
    }
}

fn sample_dtb() -> Vec<u8> {
    let mut f = Fdt::new();
    f.begin("");
    f.prop_cells("#address-cells", &[2]);
    f.prop_cells("#size-cells", &[2]);
    f.begin("chosen");
    f.prop("stdout-path", b"/pl011@9000000\0");
    f.end();
    f.begin("memory@40000000");
    f.prop_cells("reg", &[0, 0x4000_0000, 0, 0x2000_0000]);
    f.end();
    f.begin("intc@8000000");
    f.prop("compatible", b"arm,gic-v3\0");
    f.prop_cells("reg", &[0, 0x0800_0000, 0, 0x1_0000]);
    f.end();
    f.begin("timer");
    f.prop("compatible", b"arm,armv8-timer\0");
    f.prop_cells("clock-frequency", &[62_500_000]);
    f.end();
    f.begin("serial@1000");
    f.prop("compatible", b"ns16550a\0");
    f.prop_cells("reg", &[0, 0x1000, 0, 0x100]);
    f.end();
    f.begin("pl011@9000000");
    f.prop("compatible", b"arm,pl011\0arm,primecell\0");
    f.prop_cells("reg", &[0, 0x0900_0000, 0, 0x1000]);
    f.prop_cells("clock-frequency", &[48_000_000]);
    f.end();
    f.end();
    f.blob()
}

#[test]
fn dtb_describes_the_board() {
    let blob = sample_dtb();
    let bi = dtb::parse_or_fallback(0x4800_0000, &blob);
    assert_eq!(bi.fw_table_addr, 0x4800_0000);
    assert_eq!(bi.memory.as_slice(), &[MemoryRegion::new(0x4000_0000, 0x2000_0000)]);
    assert_eq!(bi.intc.kind, IntcKind::GicV3);
    assert_eq!(bi.intc.primary, RegSpec::new(0x0800_0000, 0x1_0000));
    assert_eq!(bi.intc.secondary, RegSpec::new(0x0801_0000, 0x1_0000));
    assert_eq!(bi.timer_freq_hz, 62_500_000);
    assert_eq!(
        bi.console,
        ConsoleSpec { kind: ConsoleKind::Pl011, regs: RegSpec::new(0x0900_0000, 0x1000), clock_hz: 48_000_000 }
    );
    assert!(bi.framebuffer.is_none());
}

#[test]
fn dtb_missing_or_bad_gives_the_fallback() {
    let fb = BootInfo::qemu_virt_fallback();
    let a = dtb::parse_or_fallback(0, &sample_dtb());
    assert_eq!(a.console, fb.console);
    assert_eq!(a.memory.as_slice(), fb.memory.as_slice());
    let mut bad = sample_dtb();
    bad[0] = 0;
    let b = dtb::parse_or_fallback(0x1000, &bad);
    assert_eq!(b.fw_table_addr, 0x1000);
    assert_eq!(b.intc, fb.intc);
    assert_eq!(b.timer_freq_hz, 0);
    let short = &sample_dtb()[..30];
    assert_eq!(dtb::parse_or_fallback(0x1000, short).console, fb.console);
}

#[test]
fn dtb_describing_nothing_keeps_the_fallback() {
    let fb = BootInfo::qemu_virt_fallback();
    let bi = dtb::parse_or_fallback(0x2000, &Fdt::new().blob());
    assert_eq!(bi.console, fb.console);
    assert_eq!(bi.intc, fb.intc);
    assert_eq!(bi.memory.as_slice(), fb.memory.as_slice());
    assert_eq!(bi.timer_freq_hz, fb.timer_freq_hz);
    assert!(bi.framebuffer.is_none());
    assert_eq!(bi.fw_table_addr, 0x2000);
    let mut w = Vec::new();
    w.extend_from_slice(&9u32.to_be_bytes());
    let mut info = BootInfo::qemu_virt_fallback();
    dtb::walk(&w, &[], &mut info);
    assert_eq!(info.console, fb.console);
    assert_eq!(info.memory.as_slice(), fb.memory.as_slice());
    let mut info2 = BootInfo::qemu_virt_fallback();
    dtb::walk(&[], &[], &mut info2);
    assert_eq!(info2.intc, fb.intc);
}

#[test]
fn dtb_deep_nodes_and_unknown_tokens() {
    let fb = BootInfo::qemu_virt_fallback();
    let mut f = Fdt::new();
    f.begin("");
    f.prop_cells("#address-cells", &[1]);
    f.prop_cells("#size-cells", &[1]);
    for _ in 0..8 {
        f.begin("bus");
    }
    f.begin("serial@3f215040");
    f.prop("compatible", b"brcm,bcm2835-aux-uart\0");
    f.prop_cells("reg", &[0x3f21_5040, 0x40]);
    f.end();
    for _ in 0..8 {
        f.end();
    }
    f.end();
    let deep = dtb::parse_or_fallback(0x100, &f.blob());
    assert_eq!(deep.console, fb.console);
    let mut g = Fdt::new();
    g.begin("");
    g.prop_cells("#address-cells", &[1]);
    g.prop_cells("#size-cells", &[1]);
    g.word(7);
    g.begin("serial@3f215040");
    g.prop("compatible", b"brcm,bcm2835-aux-uart\0");
    g.prop_cells("reg", &[0x3f21_5040, 0x40]);
    g.end();
    g.end();
    let cut = dtb::parse_or_fallback(0x100, &g.blob());
    assert_eq!(cut.console, fb.console);
}

#[test]
fn dtb_first_uart_without_stdout_path() {
    let mut f = Fdt::new();
    f.begin("");
    f.prop_cells("#address-cells", &[1]);
    f.prop_cells("#size-cells", &[1]);
    f.begin("serial@3f215040");
    f.prop("compatible", b"brcm,bcm2835-aux-uart\0");
    f.prop_cells("reg", &[0x3f21_5040, 0x40]);
    f.end();
    f.end();
    let bi = dtb::parse_or_fallback(0x100, &f.blob());
    assert_eq!(bi.console.kind, ConsoleKind::BcmMiniUart);
    assert_eq!(bi.console.regs, RegSpec::new(0x3f21_5040, 0x40));
    assert_eq!(bi.memory.as_slice(), BootInfo::qemu_virt_fallback().memory.as_slice());
}

#[test]
fn dtb_framebuffer_and_helpers() {
    let mut f = Fdt::new();
    f.begin("");
    f.prop_cells("#address-cells", &[1]);
    f.prop_cells("#size-cells", &[1]);
    f.begin("framebuffer@3c000000");
    f.prop("compatible", b"simple-framebuffer\0");
    f.prop_cells("reg", &[0x3c00_0000, 0x30_0000]);
    f.prop_cells("width", &[640]);
    f.prop_cells("height", &[480]);
    f.prop("format", b"a8b8g8r8\0");
    f.end();
    f.end();
    let bi = dtb::parse_or_fallback(0x100, &f.blob());
    let fb = bi.framebuffer.unwrap();
    assert_eq!((fb.base, fb.width, fb.height), (0x3c00_0000, 640, 480));
    assert_eq!(fb.stride_bytes, 2560);
    assert_eq!(fb.bpp, 32);
    assert_eq!(fb.format, PixelFormat::Rgba8888);
    assert_eq!(dtb::uart_kind_for(b"arm,pl011"), Some(ConsoleKind::Pl011));
    assert_eq!(dtb::uart_kind_for(b"snps,dw-apb-uart"), Some(ConsoleKind::Ns16550));
    assert_eq!(dtb::uart_kind_for(b"arm,pl0111"), None);
    assert!(dtb::path_matches_node(b"serial0:115200n8", b"pl011@9000000") == false);
    assert!(dtb::path_matches_node(b"/pl011@9000000", b"pl011@9000000"));
    assert!(dtb::path_matches_node(b"serial0:115200n8", b"serial@1000"));
    assert!(!dtb::path_matches_node(b"", b"x"));
}

fn mb2_blob() -> Vec<u8> {
    let mut b = vec![0u8; 8];
    let tag = |b: &mut Vec<u8>, body: Vec<u8>, ty: u32| {
        let size = 8 + body.len() as u32;
        b.extend_from_slice(&ty.to_le_bytes());
        b.extend_from_slice(&size.to_le_bytes());
        b.extend_from_slice(&body);
        while b.len() % 8 != 0 {
            b.push(0);
        }
    };
    let mut mmap = Vec::new();
    mmap.extend_from_slice(&24u32.to_le_bytes());
    mmap.extend_from_slice(&0u32.to_le_bytes());
    for (base, len, ty) in [(0u64, 0x9_fc00u64, 1u32), (0xf_0000, 0x1_0000, 2), (0x10_0000, 0x7ee_0000, 1)] {
        mmap.extend_from_slice(&base.to_le_bytes());
        mmap.extend_from_slice(&len.to_le_bytes());
        mmap.extend_from_slice(&ty.to_le_bytes());
        mmap.extend_from_slice(&0u32.to_le_bytes());
    }
    tag(&mut b, mmap, 6);
    let mut fbt = Vec::new();
    fbt.extend_from_slice(&0xfd00_0000u64.to_le_bytes());
    fbt.extend_from_slice(&4096u32.to_le_bytes());
    fbt.extend_from_slice(&1024u32.to_le_bytes());
    fbt.extend_from_slice(&768u32.to_le_bytes());
    fbt.extend_from_slice(&[32, 1, 0, 0]);
    fbt.extend_from_slice(&[16, 8, 8, 8, 0, 8]);
    tag(&mut b, fbt, 8);
    let rsdp_at = b.len();
    tag(&mut b, vec![0x52; 20], 14);
    tag(&mut b, vec![], 0);
    let total = b.len() as u32;
    b[0..4].copy_from_slice(&total.to_le_bytes());
    b.extend_from_slice(&(rsdp_at as u32).to_le_bytes());
    b
}

#[test]
fn multiboot_describes_the_pc() {
    let mut blob = mb2_blob();
    let rsdp_at = u32::from_le_bytes([blob[blob.len() - 4], blob[blob.len() - 3], blob[blob.len() - 2], blob[blob.len() - 1]]);
    blob.truncate(blob.len() - 4);
    let base = 0x9000u64;
    let bi = multiboot::parse_or_fallback(base, multiboot::MB2_MAGIC, &blob);
    assert_eq!(
        bi.memory.as_slice(),
        &[MemoryRegion::new(0, 0x9_fc00), MemoryRegion::new(0x10_0000, 0x7ee_0000)]
    );
    let fb = bi.framebuffer.unwrap();
    assert_eq!((fb.base, fb.stride_bytes, fb.width, fb.height, fb.bpp), (0xfd00_0000, 4096, 1024, 768, 32));
    assert_eq!(fb.format, PixelFormat::Bgra8888);
    assert_eq!(bi.fw_table_addr, base + rsdp_at as u64 + 8);
    assert_eq!(bi.intc.kind, IntcKind::Apic);
    assert_eq!(bi.console.kind, ConsoleKind::Ns16550);
    assert_eq!(bi.console.regs, RegSpec::new(0x3F8, 8));
}

#[test]
fn multiboot_block_at_the_top_of_memory_stops_at_the_last_address() {
    let mut blob = mb2_blob();
    blob.truncate(blob.len() - 4);
    let base = u64::MAX - 100;
    let bi = multiboot::parse_or_fallback(base, multiboot::MB2_MAGIC, &blob);
    assert_eq!(
        bi.memory.as_slice(),
        &[MemoryRegion::new(0, 0x9_fc00), MemoryRegion::new(0x10_0000, 0x7ee_0000)]
    );
    assert!(bi.framebuffer.is_none());
    assert_eq!(bi.fw_table_addr, base);
}

#[test]
fn multiboot_bad_magic_gives_the_fallback() {
    let mut blob = mb2_blob();
    blob.truncate(blob.len() - 4);
    let bi = multiboot::parse_or_fallback(0x9000, 0x1234, &blob);
    let q = BootInfo::qemu_q35_fallback();
    assert_eq!(bi.memory.as_slice(), q.memory.as_slice());
    assert_eq!(bi.fw_table_addr, 0x9000);
    assert!(bi.framebuffer.is_none());
    let none = multiboot::parse_or_fallback(0, multiboot::MB2_MAGIC, &blob);
    assert_eq!(none.fw_table_addr, 0);
}

#[test]
fn memory_map_rules() {
    let mut m = MemoryMap::empty();
    assert!(m.largest().is_none());
    m.push(MemoryRegion::new(0, 0));
    assert_eq!(m.as_slice().len(), 0);
    m.push(MemoryRegion::new(0x1000, 0x2000));
    m.push(MemoryRegion::new(0x10000, 0x8000));
    m.push(MemoryRegion::new(0x40000, 0x8000));
    assert_eq!(m.largest(), Some(MemoryRegion::new(0x40000, 0x8000)));
    assert_eq!(m.total_bytes(), 0x12000);
    for i in 0..10 {
        m.push(MemoryRegion::new(0x100000 * (i + 1), 1));
    }
    assert_eq!(m.as_slice().len(), 8);
    assert!(m.valid());
}

#[test]
fn hal_publishes_once() {
    let mut h = Hal::new();
    assert!(!console_ready(&h));
    h.init(BootInfo::qemu_virt_fallback());
    assert!(console_ready(&h));
    h.init(BootInfo::qemu_q35_fallback());
    assert_eq!(info(&h).intc.kind, IntcKind::GicV2);
}

#[test]
fn console_choice() {
    assert_eq!(ns16550_stride(8), 1);
    assert_eq!(ns16550_stride(0x100), 4);
    let c = install(BootInfo::qemu_q35_fallback().console);
    assert_eq!(c, BootConsole::Ns16550(Ns16550 { base: 0x3F8, stride: 1 }));
    let p = install(BootInfo::qemu_virt_fallback().console);
    assert_eq!(p, BootConsole::Pl011(Pl011 { base: 0x0900_0000 }));
}

#[test]
fn text_helpers() {
    assert!(bytes_eq(b"abc", b"abc"));
    assert!(!bytes_eq(b"abc", b"abd"));
    assert!(has_prefix(b"memory@0", b"memory"));
    assert!(!has_prefix(b"mem", b"memory"));
    assert!(contains_bytes(b"uart-pl011", b"pl011"));
    assert!(!contains_bytes(b"uart", b"pl011"));
    assert_eq!(find_byte(b"a:b:c", b':', 0), 1);
    assert_eq!(find_byte(b"a:b:c", b':', 2), 3);
    assert_eq!(find_byte(b"abc", b':', 0), 3);
    assert_eq!(rfind_byte(b"/a/b", b'/'), Some(2));
    assert_eq!(rfind_byte(b"ab", b'/'), None);
    assert!(is_utf8("héllo".as_bytes()));
    assert!(!is_utf8(&[0xff, 0x00]));
}
