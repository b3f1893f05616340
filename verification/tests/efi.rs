use hyperion_kernel::efi::{
    align_down, align_up, ascii_to_ucs2, build_handoff, kernel_copies, kernel_layout, paint_pattern, print_u32,
    print_u64_hex, push_memory_region, GopMode, EFI_PAGE_SIZE,
};
use hyperion_kernel::hal::boot_info::{IntcKind, UEFI_HANDOFF_MAGIC};

#[test]
fn ucs2_conversion() {
    let mut buf = [0xffffu16; 256];
    assert_eq!(ascii_to_ucs2("Hi!", &mut buf), 3);
    assert_eq!(&buf[..4], &[b'H' as u16, b'i' as u16, b'!' as u16, 0]);
    assert_eq!(buf[4], 0xffff);
    let long = "x".repeat(300);
    assert_eq!(ascii_to_ucs2(&long, &mut buf), 255);
    assert_eq!(buf[254], b'x' as u16);
    assert_eq!(buf[255], 0);
}

#[test]
fn number_printing() {
    assert_eq!(print_u32(0), b"0");
    assert_eq!(print_u32(4_294_967_295), b"4294967295");
    assert_eq!(print_u64_hex(0xdead_beef), b"0x00000000deadbeef");
    assert_eq!(print_u64_hex(u64::MAX), b"0xffffffffffffffff");
}

#[test]
fn alignment() {
    assert_eq!(align_down(0x1234, EFI_PAGE_SIZE), 0x1000);
    assert_eq!(align_down(0x2000, EFI_PAGE_SIZE), 0x2000);
    assert_eq!(align_up(0x1001, EFI_PAGE_SIZE), Some(0x2000));
    assert_eq!(align_up(0x1000, EFI_PAGE_SIZE), Some(0x1000));
    assert_eq!(align_up(u64::MAX - 10, EFI_PAGE_SIZE), None);
    assert_eq!(align_up(0, 16), Some(0));
}

fn desc(ty: u32, start: u64, pages: u64) -> Vec<u8> {
    let mut d = vec![0u8; 40];
    d[0..4].copy_from_slice(&ty.to_le_bytes());
    d[8..16].copy_from_slice(&start.to_le_bytes());
    d[24..32].copy_from_slice(&pages.to_le_bytes());
    d
}

fn mode() -> GopMode {
    GopMode {
        framebuffer_base: 0x8000_0000,
        framebuffer_size: 0x30_0000,
        horizontal_resolution: 1024,
        vertical_resolution: 768,
        pixels_per_scan_line: 1024,
        pixel_format: 1,
    }
}

#[test]
fn handoff_from_memory_map() {
    let mut map = Vec::new();
    map.extend(desc(7, 0x4000_0000, 8));
    map.extend(desc(7, 0x4000_8000, 8));
    map.extend(desc(4, 0x5000_0000, 100));
    map.extend(desc(7, 0x6000_0000, 1));
    let h = build_handoff(&map, 40, mode());
    assert_eq!(h.magic, UEFI_HANDOFF_MAGIC);
    assert_eq!(h.memory_len, 2);
    assert_eq!((h.memory[0].base, h.memory[0].size), (0x4000_0000, 0x1_0000));
    assert_eq!((h.memory[1].base, h.memory[1].size), (0x6000_0000, 0x1000));
    assert_eq!(h.framebuffer_present, 1);
    assert_eq!(h.framebuffer_stride_bytes, 4096);
    assert_eq!((h.framebuffer_width, h.framebuffer_height), (1024, 768));
    assert_eq!(h.framebuffer_format, 0);
    let bi = h.to_boot_info().unwrap();
    assert_eq!(bi.intc.kind, IntcKind::GicV2);
    assert_eq!(bi.memory.as_slice().len(), 2);
    assert_eq!(bi.framebuffer.unwrap().base, 0x8000_0000);
}

#[test]
fn handoff_without_conventional_memory_falls_back() {
    let map = desc(4, 0x1000, 1);
    let h = build_handoff(&map, 40, GopMode { pixel_format: 0, ..mode() });
    assert_eq!(h.memory_len, 1);
    assert_eq!((h.memory[0].base, h.memory[0].size), (0x4000_0000, 0x1000_0000));
    assert_eq!(h.framebuffer_format, 1);
    let mut h2 = h;
    push_memory_region(&mut h2, 0x7000_0000, 0x1000);
    push_memory_region(&mut h2, 0x7000_1000, 0x1000);
    push_memory_region(&mut h2, 0x9000_0000, 0);
    assert_eq!(h2.memory_len, 2);
    assert_eq!((h2.memory[1].base, h2.memory[1].size), (0x7000_0000, 0x2000));
    push_memory_region(&mut h2, 0x5000_0000, 0x1000);
    assert_eq!(h2.memory_len, 3);
}

#[test]
fn bad_handoff_is_refused() {
    let mut h = build_handoff(&[], 40, mode());
    h.magic = 0;
    assert!(h.to_boot_info().is_none());
}

fn elf() -> Vec<u8> {
    let mut e = vec![0u8; 0x300];
    e[0..4].copy_from_slice(&[0x7f, b'E', b'L', b'F']);
    e[4] = 2;
    e[5] = 1;
    e[18..20].copy_from_slice(&0xb7u16.to_le_bytes());
    e[24..32].copy_from_slice(&0x4008_0000u64.to_le_bytes());
    e[32..40].copy_from_slice(&64u64.to_le_bytes());
    e[54..56].copy_from_slice(&56u16.to_le_bytes());
    e[56..58].copy_from_slice(&3u16.to_le_bytes());
    let ph = |e: &mut Vec<u8>, i: usize, ty: u32, off: u64, paddr: u64, filesz: u64, memsz: u64| {
        let b = 64 + 56 * i;
        e[b..b + 4].copy_from_slice(&ty.to_le_bytes());
        e[b + 8..b + 16].copy_from_slice(&off.to_le_bytes());
        e[b + 24..b + 32].copy_from_slice(&paddr.to_le_bytes());
        e[b + 32..b + 40].copy_from_slice(&filesz.to_le_bytes());
        e[b + 40..b + 48].copy_from_slice(&memsz.to_le_bytes());
    };
    ph(&mut e, 0, 1, 0x200, 0x4008_0000, 0x100, 0x1234);
    ph(&mut e, 1, 2, 0, 0x1000, 0x10, 0x10);
    ph(&mut e, 2, 1, 0, 0x4010_0010, 0, 0x10);
    e
}

#[test]
fn kernel_image_layout_and_copies() {
    let e = elf();
    assert_eq!(kernel_layout(&e), Some((0x4008_0000, 0x4008_0000, 0x4010_1000)));
    assert_eq!(kernel_copies(&e), Some(vec![(0x200, 0x4008_0000, 0x100)]));
    let mut wrong = elf();
    wrong[18] = 0x3e;
    assert_eq!(kernel_layout(&wrong), None);
    assert_eq!(kernel_copies(&wrong), None);
    let mut past_end = elf();
    past_end[64 + 32..64 + 40].copy_from_slice(&0x1000u64.to_le_bytes());
    assert_eq!(kernel_copies(&past_end), None);
    assert!(kernel_layout(&e[..50]).is_none());
}

#[test]
fn boot_test_pattern() {
    let (w, h, stride) = (20u32, 12u32, 24usize);
    let mut fb = vec![7u32; stride * h as usize];
    paint_pattern(&mut fb, w, h, stride, true);
    let at = |x: usize, y: usize| fb[y * stride + x];
    assert_eq!(at(0, 0), 0xff10_1824);
    assert_eq!(at(6, 2), 0xffff_ffff);
    assert_eq!(at(13, 9), 0xffff_ffff);
    assert_eq!(at(14, 9), 0xffa6_4dc4);
    assert_eq!(at(0, 5), 0xff14_6aa6);
    assert_eq!(at(0, 11), 0xffa6_4dc4);
    assert_eq!(at(20, 0), 7);
    assert_eq!(at(23, 11), 7);
    let mut rgb = vec![0u32; 64];
    paint_pattern(&mut rgb, 8, 8, 8, false);
    assert_eq!(rgb[0], 0xffff_ffff);
    let mut none: Vec<u32> = vec![];
    paint_pattern(&mut none, 0, 0, 0, true);
}
