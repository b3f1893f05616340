//! The UEFI boot stub's own logic: text for the firmware console, address
//! alignment, the memory-map walk that fills the handoff block, and the
//! layout checks of the embedded kernel ELF. Firmware calls, raw memory
//! and the jump to the kernel are the stub's platform layer.

use vstd::prelude::*;
use vstd::string::StringSliceAdditionalSpecFns;
use crate::hal::boot_info::{UefiHandoff, HandoffMemoryRegion, UEFI_HANDOFF_MAGIC, UEFI_HANDOFF_VERSION};
use crate::drivers::block::{dec_digits, push_decimal};
use crate::drivers::virtio::queue::le32;
use vstd::arithmetic::div_mod::{lemma_fundamental_div_mod, lemma_fundamental_div_mod_converse};

verus! {

/// Size of a UEFI page.
pub const EFI_PAGE_SIZE: u64 = 4096;

/// Memory type of free RAM in the UEFI memory map.
pub const EFI_CONVENTIONAL_MEMORY: u32 = 7;

/// Bytes of a UEFI memory descriptor as the stub reads it.
pub const EFI_DESCRIPTOR_BYTES: usize = 40;

/// Regions a handoff block holds.
pub const MAX_MEMORY_REGIONS: usize = 8;

/// Copy the ASCII text `s` into the UCS-2 buffer `out`, one unit per
/// byte, keeping room for the terminating NUL (at most 255 units), and
/// terminate it. Returns the number of units copied.
pub fn ascii_to_ucs2(s: &str, out: &mut [u16; 256]) -> (n: usize)
    ensures
        n == (if s.spec_bytes().len() < 255 { s.spec_bytes().len() as int } else { 255 }),
        forall|k: int| 0 <= k < n ==> #[trigger] final(out)@[k] == s.spec_bytes()[k] as u16,
        final(out)@[n as int] == 0,
        forall|k: int| n < k < 256 ==> #[trigger] final(out)@[k] == old(out)@[k],
{
    let b = s.as_bytes();
    let mut i: usize = 0;
    while i < b.len() && i + 1 < 256
        invariant
            i <= b@.len(),
            i < 256,
            b@ == s.spec_bytes(),
            out@.len() == 256,
            forall|k: int| 0 <= k < i ==> #[trigger] out@[k] == b@[k] as u16,
            forall|k: int| i <= k < 256 ==> #[trigger] out@[k] == old(out)@[k],
        decreases b.len() - i,
    {
        out[i] = b[i] as u16;
        i = i + 1;
    }
    out[i] = 0;
    i
}

/// The decimal text of `n`, as `print_u32` shows it.
pub fn print_u32(n: u32) -> (r: Vec<u8>)
    ensures
        r@ == dec_digits(n as nat),
{
    let mut v: Vec<u8> = Vec::new();
    push_decimal(&mut v, n as u64);
    assert(v@ =~= dec_digits(n as nat));
    v
}

/// Lower-case hex digit of `d` (below 16).
pub open spec fn hex_digit(d: int) -> u8 {
    if d < 10 {
        (48 + d) as u8
    } else {
        (87 + d) as u8
    }
}

/// `0x` and the 16 lower-case hex digits of `n`, most significant first.
pub open spec fn hex64_text(n: u64) -> Seq<u8> {
    seq![48u8, 120u8] + Seq::new(16, |i: int| hex_digit(((n as int) / pow16(15 - i)) % 16))
}

/// `16` to the power `k`.
pub open spec fn pow16(k: int) -> int
    decreases k,
{
    if k <= 0 {
        1
    } else {
        16 * pow16(k - 1)
    }
}

/// The text `print_u64_hex` shows for `n`: `0x` and 16 hex digits.
pub fn print_u64_hex(n: u64) -> (r: Vec<u8>)
    ensures
        r@ == hex64_text(n),
{
    let mut v: Vec<u8> = Vec::new();
    v.push(48);
    v.push(120);
    let mut i: usize = 0;
    while i < 16
        invariant
            i <= 16,
            v@.len() == 2 + i,
            v@[0] == 48u8 && v@[1] == 120u8,
            forall|k: int| 0 <= k < i ==> #[trigger] v@[2 + k] == hex_digit(((n as int) / pow16(15 - k)) % 16),
        decreases 16 - i,
    {
        let shift = ((15 - i) * 4) as u64;
        let nyb = ((n >> shift) & 0xf) as u8;
        proof {
            lemma_nibble(n, (15 - i) as nat);
        }
        let c = if nyb < 10 {
            48 + nyb
        } else {
            87 + nyb
        };
        v.push(c);
        i = i + 1;
    }
    assert forall|j: int| 2 <= j < 18 implies v@[j] == hex64_text(n)[j] by {
        assert(v@[2 + (j - 2)] == hex_digit(((n as int) / pow16(15 - (j - 2))) % 16));
    }
    assert(v@ =~= hex64_text(n));
    v
}

/// `(n >> 4k) & 0xf` is hex digit `k` of `n`.
proof fn lemma_nibble(n: u64, k: nat)
    requires
        k < 16,
    ensures
        ((n >> ((k * 4) as u64)) & 0xf) as int == ((n as int) / pow16(k as int)) % 16,
    decreases k,
{
    if k == 0 {
        assert((n >> 0u64) & 0xf == n % 16) by (bit_vector);
    } else {
        lemma_nibble(n, (k - 1) as nat);
        let s = ((k - 1) * 4) as u64;
        let t = (k * 4) as u64;
        assert(n >> t == (n >> s) / 16) by (bit_vector)
            requires
                t == s + 4,
                s < 64,
        ;
        assert(((n >> s) & 0xf) as int == ((n as int) / pow16(k - 1)) % 16);
        lemma_shift_is_div(n, k);
        assert((n >> t) & 0xf == (n >> t) % 16) by (bit_vector);
    }
}

/// `n >> 4k` is `n / 16^k`.
proof fn lemma_shift_is_div(n: u64, k: nat)
    requires
        k < 16,
    ensures
        (n >> ((k * 4) as u64)) as int == (n as int) / pow16(k as int),
    decreases k,
{
    if k == 0 {
        assert(n >> 0u64 == n) by (bit_vector);
    } else {
        lemma_shift_is_div(n, (k - 1) as nat);
        let s = ((k - 1) * 4) as u64;
        let t = (k * 4) as u64;
        assert(n >> t == (n >> s) / 16) by (bit_vector)
            requires
                t == s + 4,
                s < 64,
        ;
        assert(pow16(k as int) == 16 * pow16(k - 1));
        assert(pow16(k - 1) > 0) by {
            lemma_pow16_pos(k - 1);
        }
        vstd::arithmetic::div_mod::lemma_div_denominator(n as int, pow16(k - 1), 16);
    }
}

proof fn lemma_pow16_pos(k: int)
    ensures
        pow16(k) > 0,
    decreases k,
{
    if k > 0 {
        lemma_pow16_pos(k - 1);
    }
}

/// `value` with the bits below the power of two `align` cleared, that
/// is rounded down to a multiple of `align` (stated for the page size).
pub fn align_down(value: u64, align: u64) -> (r: u64)
    requires
        align > 0,
    ensures
        r == value & !((align - 1) as u64),
        align == EFI_PAGE_SIZE ==> r == value - value % 4096,
{
    let r = value & !(align - 1);
    if align == EFI_PAGE_SIZE {
        assert(r == value - value % 4096) by (bit_vector)
            requires
                r == value & !((4096 - 1) as u64),
        ;
    }
    r
}

/// `value` rounded up to a multiple of the power of two `align`; none
/// when that does not fit in 64 bits (`value + align - 1` overflows).
pub fn align_up(value: u64, align: u64) -> (r: Option<u64>)
    requires
        align > 0,
    ensures
        value + align - 1 > u64::MAX ==> r is None,
        value + align - 1 <= u64::MAX ==> r == Some(((value + align - 1) as u64) & !((align - 1) as u64)),
{
    match value.checked_add(align - 1) {
        Some(v) => Some(align_down(v, align)),
        None => None,
    }
}

/// The memory regions `regions` after adding `size` bytes at `base`: an
/// empty range changes nothing; a range starting where the last region
/// ends (the sum saturated at `u64::MAX`) extends it (saturating); any
/// other range is appended while there is room for [`MAX_MEMORY_REGIONS`].
pub open spec fn push_region_spec(regions: Seq<HandoffMemoryRegion>, base: u64, size: u64) -> Seq<HandoffMemoryRegion> {
    if size == 0 {
        regions
    } else if regions.len() > 0 && sat_add(regions.last().base, regions.last().size) == base {
        regions.update(
            regions.len() - 1,
            HandoffMemoryRegion { base: regions.last().base, size: sat_add(regions.last().size, size) },
        )
    } else if regions.len() < MAX_MEMORY_REGIONS {
        regions.push(HandoffMemoryRegion { base, size })
    } else {
        regions
    }
}

/// `a + b`, saturated at `u64::MAX`.
pub open spec fn sat_add(a: u64, b: u64) -> u64 {
    if a + b > u64::MAX {
        u64::MAX
    } else {
        (a + b) as u64
    }
}

/// The regions recorded in a handoff block.
pub open spec fn regions_of(h: UefiHandoff) -> Seq<HandoffMemoryRegion> {
    h.memory@.take(h.memory_len as int)
}

/// Record `size` bytes at `base` in the handoff block's memory map
/// (see [`push_region_spec`]).
pub fn push_memory_region(handoff: &mut UefiHandoff, base: u64, size: u64)
    requires
        old(handoff).memory_len <= MAX_MEMORY_REGIONS,
    ensures
        final(handoff).memory_len <= MAX_MEMORY_REGIONS,
        regions_of(*final(handoff)) == push_region_spec(regions_of(*old(handoff)), base, size),
        final(handoff).magic == old(handoff).magic,
        final(handoff).framebuffer_base == old(handoff).framebuffer_base,
        final(handoff).fw_table_addr == old(handoff).fw_table_addr,
        ({ let h = *final(handoff); let o = *old(handoff);
            h == UefiHandoff { memory_len: h.memory_len, memory: h.memory, ..o } }),
{
    if size == 0 {
        return;
    }
    let len = handoff.memory_len as usize;
    let ghost r0 = regions_of(*handoff);
    if len > 0 {
        let prev = handoff.memory[len - 1];
        if prev.base.saturating_add(prev.size) == base {
            let merged = HandoffMemoryRegion { base: prev.base, size: prev.size.saturating_add(size) };
            handoff.memory[len - 1] = merged;
            assert(regions_of(*handoff) =~= push_region_spec(r0, base, size));
            return;
        }
    }
    if len < MAX_MEMORY_REGIONS {
        handoff.memory[len] = HandoffMemoryRegion { base, size };
        handoff.memory_len = handoff.memory_len + 1;
        assert(regions_of(*handoff) =~= push_region_spec(r0, base, size));
    }
}

/// The little-endian 64-bit value at byte `off` of `b`.
pub open spec fn le64(b: Seq<u8>, off: int) -> u64 {
    (le32(b, off + 4) as int * 0x1_0000_0000 + le32(b, off) as int) as u64
}

/// The little-endian 32-bit value at `off`.
pub(crate) fn read_u32(b: &[u8], off: usize) -> (r: u32)
    requires
        off + 4 <= b@.len(),
    ensures
        r == le32(b@, off as int),
{
    let b0 = b[off];
    let b1 = b[off + 1];
    let b2 = b[off + 2];
    let b3 = b[off + 3];
    b0 as u32 + 0x100 * b1 as u32 + 0x1_0000 * b2 as u32 + 0x100_0000 * b3 as u32
}

/// The little-endian 64-bit value at `off`.
pub(crate) fn read_u64(b: &[u8], off: usize) -> (r: u64)
    requires
        off + 8 <= b@.len(),
    ensures
        r == le64(b@, off as int),
{
    assert(b@.len() == b.len());
    let lo = read_u32(b, off);
    let hi = read_u32(b, off + 4);
    hi as u64 * 0x1_0000_0000 + lo as u64
}

/// `a * b`, saturated at `u64::MAX`.
pub open spec fn sat_mul(a: u64, b: u64) -> u64 {
    if a * b > u64::MAX {
        u64::MAX
    } else {
        (a * b) as u64
    }
}

/// The memory regions after walking the UEFI memory map `map` (records
/// `ds` bytes apart, the first at `off`) on top of `regions`: every
/// conventional-memory record adds its pages (see [`push_region_spec`]).
pub open spec fn walk_map(map: Seq<u8>, ds: int, off: int, regions: Seq<HandoffMemoryRegion>) -> Seq<HandoffMemoryRegion>
    decreases (if off <= map.len() { map.len() - off } else { 0 }),
{
    if ds < 40 || off < 0 || off + 40 > map.len() {
        regions
    } else {
        let next = if le32(map, off) == EFI_CONVENTIONAL_MEMORY {
            push_region_spec(regions, le64(map, off + 8), sat_mul(le64(map, off + 24), 4096))
        } else {
            regions
        };
        walk_map(map, ds, off + ds, next)
    }
}

/// The graphics mode the firmware reports.
#[derive(Debug, Clone, Copy, PartialEq, Eq, Structural)]
pub struct GopMode {
    pub framebuffer_base: u64,
    pub framebuffer_size: u64,
    pub horizontal_resolution: u32,
    pub vertical_resolution: u32,
    pub pixels_per_scan_line: u32,
    pub pixel_format: u32,
}

/// The memory map of a handoff block built from `map`: the conventional
/// memory found, or 256 MiB at 1 GiB when there is none.
pub open spec fn handoff_regions(map: Seq<u8>, ds: int) -> Seq<HandoffMemoryRegion> {
    let found = walk_map(map, ds, 0, Seq::empty());
    if found.len() == 0 {
        push_region_spec(found, 0x4000_0000, 0x1000_0000)
    } else {
        found
    }
}

/// The handoff block for the QEMU `virt` machine (PL011 console at
/// 0x0900_0000, GICv2 at 0x0800_0000 / 0x0801_0000) with the memory map
/// read from the UEFI memory map `map` (records `desc_size` bytes apart)
/// and the firmware framebuffer of `mode`.
pub fn build_handoff(map: &[u8], desc_size: usize, mode: GopMode) -> (h: UefiHandoff)
    requires
        desc_size >= EFI_DESCRIPTOR_BYTES,
    ensures
        regions_of(h) == handoff_regions(map@, desc_size as int),
        h.memory_len <= MAX_MEMORY_REGIONS,
        h == (UefiHandoff { memory_len: h.memory_len, ..base_handoff(mode, h.memory) }),
{
    let zero = HandoffMemoryRegion { base: 0, size: 0 };
    let stride = match mode.pixels_per_scan_line.checked_mul(4) {
        Some(v) => v,
        None => u32::MAX,
    };
    let format: u32 = if mode.pixel_format == 0 {
        1
    } else {
        0
    };
    let mut handoff = UefiHandoff {
        magic: UEFI_HANDOFF_MAGIC,
        version: UEFI_HANDOFF_VERSION,
        _reserved0: 0,
        console_kind: 0,
        console_base: 0x0900_0000,
        console_size: 0x1000,
        console_clock_hz: 24_000_000,
        intc_kind: 0,
        intc_primary_base: 0x0800_0000,
        intc_primary_size: 0x10000,
        intc_secondary_base: 0x0801_0000,
        intc_secondary_size: 0x10000,
        timer_freq_hz: 0,
        memory_len: 0,
        memory: [zero, zero, zero, zero, zero, zero, zero, zero],
        framebuffer_present: 1,
        framebuffer_base: mode.framebuffer_base,
        framebuffer_size: mode.framebuffer_size,
        framebuffer_width: mode.horizontal_resolution,
        framebuffer_height: mode.vertical_resolution,
        framebuffer_stride_bytes: stride,
        framebuffer_bpp: 32,
        framebuffer_format: format,
        fw_table_addr: 0,
    };
    let ghost base = handoff;
    assert(handoff == base_handoff(mode, handoff.memory));
    assert(regions_of(handoff) =~= Seq::<HandoffMemoryRegion>::empty());
    let ghost whole = walk_map(map@, desc_size as int, 0, Seq::empty());
    let mut off: usize = 0;
    while off <= map.len() && map.len() - off >= EFI_DESCRIPTOR_BYTES
        invariant
            desc_size >= EFI_DESCRIPTOR_BYTES,
            handoff.memory_len <= MAX_MEMORY_REGIONS,
            handoff == (UefiHandoff { memory_len: handoff.memory_len, ..base_handoff(mode, handoff.memory) }),
            walk_map(map@, desc_size as int, off as int, regions_of(handoff)) == whole,
        decreases map.len() - off,
    {
        let ghost r0 = regions_of(handoff);
        let typ = read_u32(map, off);
        if typ == EFI_CONVENTIONAL_MEMORY {
            let phys = read_u64(map, off + 8);
            let pages = read_u64(map, off + 24);
            let bytes = match pages.checked_mul(EFI_PAGE_SIZE) {
                Some(v) => v,
                None => u64::MAX,
            };
            push_memory_region(&mut handoff, phys, bytes);
        }
        assert(walk_map(map@, desc_size as int, off as int, r0) == walk_map(map@, desc_size as int, off + desc_size, regions_of(handoff)));
        if map.len() - off < desc_size {
            assert(walk_map(map@, desc_size as int, off + desc_size, regions_of(handoff)) == regions_of(handoff));
            assert(walk_map(map@, desc_size as int, map@.len() as int, regions_of(handoff)) == regions_of(handoff));
            off = map.len();
        } else {
            off = off + desc_size;
        }
    }
    assert(regions_of(handoff) == whole);
    if handoff.memory_len == 0 {
        push_memory_region(&mut handoff, 0x4000_0000, 256 * 1024 * 1024);
    }
    handoff
}

/// The fixed part of the handoff block for `mode`, with `memory` as its
/// region array and no region recorded.
pub open spec fn base_handoff(mode: GopMode, memory: [HandoffMemoryRegion; 8]) -> UefiHandoff {
    UefiHandoff {
        magic: UEFI_HANDOFF_MAGIC,
        version: UEFI_HANDOFF_VERSION,
        _reserved0: 0,
        console_kind: 0,
        console_base: 0x0900_0000,
        console_size: 0x1000,
        console_clock_hz: 24_000_000,
        intc_kind: 0,
        intc_primary_base: 0x0800_0000,
        intc_primary_size: 0x10000,
        intc_secondary_base: 0x0801_0000,
        intc_secondary_size: 0x10000,
        timer_freq_hz: 0,
        memory_len: 0,
        memory,
        framebuffer_present: 1,
        framebuffer_base: mode.framebuffer_base,
        framebuffer_size: mode.framebuffer_size,
        framebuffer_width: mode.horizontal_resolution,
        framebuffer_height: mode.vertical_resolution,
        framebuffer_stride_bytes: (if mode.pixels_per_scan_line * 4 > u32::MAX { u32::MAX as int } else { mode.pixels_per_scan_line * 4 }) as u32,
        framebuffer_bpp: 32,
        framebuffer_format: if mode.pixel_format == 0 { 1 } else { 0 },
        fw_table_addr: 0,
    }
}

/// The little-endian 16-bit value at byte `off` of `b`.
pub open spec fn le16_at(b: Seq<u8>, off: int) -> u16 {
    (b[off] + 256 * b[off + 1]) as u16
}

pub(crate) fn read_u16(b: &[u8], off: usize) -> (r: u16)
    requires
        off + 2 <= b@.len(),
    ensures
        r == le16_at(b@, off as int),
{
    (b[off] as u16) + 256 * (b[off + 1] as u16)
}

/// Bytes of an ELF64 file header and of a program header.
pub const EHDR_BYTES: usize = 64;
pub const PHDR_BYTES: usize = 56;

/// Program header type of a loadable segment.
pub const PT_LOAD: u32 = 1;

/// Whether `elf` starts with the header of a little-endian ELF64 file for
/// aarch64 whose program headers have the expected size.
pub open spec fn elf_header_ok(elf: Seq<u8>) -> bool {
    &&& elf.len() >= EHDR_BYTES
    &&& elf[0] == 0x7f && elf[1] == 0x45 && elf[2] == 0x4c && elf[3] == 0x46
    &&& elf[4] == 2
    &&& elf[5] == 1
    &&& le16_at(elf, 18) == 0xb7
    &&& le16_at(elf, 54) == PHDR_BYTES
}

/// The page-aligned physical range `(lowest start, highest end)` of the
/// loadable, non-empty segments among program headers `i..phnum` at
/// `phoff`, folded into `(lo, hi)`; none when a header lies outside the
/// file or a segment's end overflows.
pub open spec fn load_range_from(elf: Seq<u8>, phoff: int, phnum: int, i: int, lo: u64, hi: u64) -> Option<(u64, u64)>
    decreases phnum - i,
{
    if i >= phnum || i < 0 {
        Some((lo, hi))
    } else {
        let off = phoff + i * PHDR_BYTES;
        if off + PHDR_BYTES > elf.len() || off > usize::MAX {
            None
        } else if le32(elf, off) != PT_LOAD || le64(elf, off + 40) == 0 {
            load_range_from(elf, phoff, phnum, i + 1, lo, hi)
        } else {
            let paddr = le64(elf, off + 24);
            let memsz = le64(elf, off + 40);
            if paddr + memsz > u64::MAX || paddr + memsz + 4095 > u64::MAX {
                None
            } else {
                let start = paddr - paddr % 4096;
                let e = paddr + memsz + 4095;
                let end = e - e % 4096;
                load_range_from(
                    elf,
                    phoff,
                    phnum,
                    i + 1,
                    if start < lo { start as u64 } else { lo },
                    if end > hi { end as u64 } else { hi },
                )
            }
        }
    }
}

/// The embedded kernel's entry point and page-aligned load range
/// `(entry, lowest, highest)`: none unless the header checks out, every
/// program header lies inside the file, and some loadable segment is not
/// empty.
pub open spec fn kernel_layout_spec(elf: Seq<u8>) -> Option<(u64, u64, u64)> {
    if !elf_header_ok(elf) {
        None
    } else {
        match load_range_from(elf, le64(elf, 32) as usize as int, le16_at(elf, 56) as int, 0, u64::MAX, 0) {
            None => None,
            Some(r) => if r.0 == u64::MAX || r.1 <= r.0 {
                None
            } else {
                Some((le64(elf, 24), r.0, r.1))
            },
        }
    }
}

/// Entry point and load range of the kernel image `elf` (the checks the
/// stub makes before allocating memory for it).
pub fn kernel_layout(elf: &[u8]) -> (r: Option<(u64, u64, u64)>)
    ensures
        r == kernel_layout_spec(elf@),
{
    if elf.len() < EHDR_BYTES {
        return None;
    }
    if !(elf[0] == 0x7f && elf[1] == 0x45 && elf[2] == 0x4c && elf[3] == 0x46) || elf[4] != 2 || elf[5] != 1
        || read_u16(elf, 18) != 0xb7 || read_u16(elf, 54) as usize != PHDR_BYTES {
        return None;
    }
    let entry = read_u64(elf, 24);
    let phoff = read_u64(elf, 32) as usize;
    let phnum = read_u16(elf, 56) as usize;
    assert(elf@.len() == elf.len());
    let mut lo: u64 = u64::MAX;
    let mut hi: u64 = 0;
    let mut i: usize = 0;
    while i < phnum
        invariant
            i <= phnum,
            phnum == le16_at(elf@, 56),
            phoff == le64(elf@, 32) as usize,
            elf_header_ok(elf@),
            elf@.len() == elf.len(),
            load_range_from(elf@, phoff as int, phnum as int, i as int, lo, hi) == load_range_from(elf@, phoff as int, phnum as int, 0, u64::MAX, 0),
        decreases phnum - i,
    {
        let step = match i.checked_mul(PHDR_BYTES) {
            Some(v) => v,
            None => {
                return None;
            },
        };
        let off = match phoff.checked_add(step) {
            Some(v) => v,
            None => {
                return None;
            },
        };
        if off > elf.len() || elf.len() - off < PHDR_BYTES {
            return None;
        }
        let p_type = read_u32(elf, off);
        let paddr = read_u64(elf, off + 24);
        let memsz = read_u64(elf, off + 40);
        if p_type == PT_LOAD && memsz != 0 {
            let start = align_down(paddr, EFI_PAGE_SIZE);
            let top = match paddr.checked_add(memsz) {
                Some(v) => v,
                None => {
                    return None;
                },
            };
            let end = match align_up(top, EFI_PAGE_SIZE) {
                Some(v) => v,
                None => {
                    return None;
                },
            };
            assert(end == (top + 4095) - (top + 4095) % 4096) by {
                let e = (top + 4095) as u64;
                assert(e & !((4096 - 1) as u64) == e - e % 4096) by (bit_vector);
            }
            lo = if start < lo { start } else { lo };
            hi = if end > hi { end } else { hi };
        }
        i = i + 1;
    }
    if lo == u64::MAX || hi <= lo {
        return None;
    }
    Some((entry, lo, hi))
}

/// `rest` with `done` in front, if there is a `rest`.
pub open spec fn after(done: Seq<(u64, u64, u64)>, rest: Option<Seq<(u64, u64, u64)>>) -> Option<Seq<(u64, u64, u64)>> {
    match rest {
        None => None,
        Some(r) => Some(done + r),
    }
}

/// The copies `(file offset, physical address, length)` that load the
/// file contents of the loadable segments among program headers
/// `i..phnum` at `phoff`, in header order (segments with no file bytes
/// need none); none when a header lies outside the file or a segment's
/// bytes run past its end.
pub open spec fn copies_from(elf: Seq<u8>, phoff: int, phnum: int, i: int) -> Option<Seq<(u64, u64, u64)>>
    decreases phnum - i,
{
    if i >= phnum || i < 0 {
        Some(Seq::empty())
    } else {
        let off = phoff + i * PHDR_BYTES;
        if off + PHDR_BYTES > elf.len() || off > usize::MAX {
            None
        } else if le32(elf, off) != PT_LOAD || le64(elf, off + 32) == 0 {
            copies_from(elf, phoff, phnum, i + 1)
        } else {
            let offset = le64(elf, off + 8);
            let filesz = le64(elf, off + 32);
            if offset + filesz > u64::MAX || offset + filesz > elf.len() {
                None
            } else {
                after(seq![(offset, le64(elf, off + 24), filesz)], copies_from(elf, phoff, phnum, i + 1))
            }
        }
    }
}

/// The segment copies that load kernel image `elf`, or none when its
/// header is not that of the expected image.
pub open spec fn kernel_copies_spec(elf: Seq<u8>) -> Option<Seq<(u64, u64, u64)>> {
    if !elf_header_ok(elf) {
        None
    } else {
        copies_from(elf, le64(elf, 32) as usize as int, le16_at(elf, 56) as int, 0)
    }
}

/// Whether program header `k` of the table at `phoff` loads file bytes:
/// a `PT_LOAD` segment with a non-zero file size.
pub open spec fn loads_bytes(elf: Seq<u8>, phoff: int, k: int) -> bool {
    le32(elf, phoff + k * PHDR_BYTES) == PT_LOAD && le64(elf, phoff + k * PHDR_BYTES + 32) != 0
}

/// The copy program header `k` of the table at `phoff` asks for: its
/// file offset, physical address and file size.
pub open spec fn header_copy(elf: Seq<u8>, phoff: int, k: int) -> (u64, u64, u64) {
    let off = phoff + k * PHDR_BYTES;
    (le64(elf, off + 8), le64(elf, off + 24), le64(elf, off + 32))
}

/// How many of program headers `i..k` load file bytes.
pub open spec fn loading_count(elf: Seq<u8>, phoff: int, i: int, k: int) -> nat
    decreases k - i,
{
    if i >= k {
        0
    } else {
        (if loads_bytes(elf, phoff, i) {
            1nat
        } else {
            0nat
        }) + loading_count(elf, phoff, i + 1, k)
    }
}

/// Counting headers `i..n` is counting `i..k`, then `k..n`.
proof fn lemma_loading_count_split(elf: Seq<u8>, phoff: int, i: int, k: int, n: int)
    requires
        i <= k <= n,
    ensures
        loading_count(elf, phoff, i, n) == loading_count(elf, phoff, i, k) + loading_count(elf, phoff, k, n),
    decreases k - i,
{
    if i < k {
        lemma_loading_count_split(elf, phoff, i + 1, k, n);
    }
}

/// Every program header from `i` on that loads file bytes gets its copy,
/// in header order, and nothing else is copied: a plan has exactly as
/// many entries as there are such headers, and the header with `c` such
/// headers before it has its `(offset, paddr, filesz)` at position `c`.
pub proof fn law_copies_cover_loadable(elf: Seq<u8>, phoff: int, phnum: int, i: int)
    requires
        0 <= i,
    ensures
        match copies_from(elf, phoff, phnum, i) {
            Some(p) => {
                &&& p.len() == loading_count(elf, phoff, i, phnum)
                &&& forall|k: int|
                    i <= k < phnum && #[trigger] loads_bytes(elf, phoff, k) ==> p[loading_count(elf, phoff, i, k) as int]
                        == header_copy(elf, phoff, k)
            },
            None => true,
        },
    decreases phnum - i,
{
    if i < phnum {
        law_copies_cover_loadable(elf, phoff, phnum, i + 1);
        match copies_from(elf, phoff, phnum, i) {
            Some(p) => {
                let off = phoff + i * PHDR_BYTES;
                let rest = copies_from(elf, phoff, phnum, i + 1).unwrap();
                if loads_bytes(elf, phoff, i) {
                    assert(p == seq![header_copy(elf, phoff, i)] + rest);
                } else {
                    assert(p == rest);
                }
                assert forall|k: int|
                    i <= k < phnum && #[trigger] loads_bytes(elf, phoff, k) implies p[loading_count(elf, phoff, i, k) as int]
                    == header_copy(elf, phoff, k) by {
                    lemma_loading_count_split(elf, phoff, i, k, phnum);
                    assert(loading_count(elf, phoff, k, phnum) >= 1);
                    if k > i {
                        lemma_loading_count_split(elf, phoff, i + 1, k, phnum);
                        assert(loading_count(elf, phoff, i, k) == (if loads_bytes(elf, phoff, i) {
                            1nat
                        } else {
                            0nat
                        }) + loading_count(elf, phoff, i + 1, k));
                    }
                }
            },
            None => {},
        }
    }
}

/// The copy plan of a kernel image has one entry per program header that
/// loads file bytes, in header order: its length is the number of such
/// headers, and each such header's `(offset, paddr, filesz)` stands at
/// the position given by the number of such headers before it.
pub proof fn law_kernel_copies_cover_loadable(elf: Seq<u8>)
    ensures
        match kernel_copies_spec(elf) {
            Some(p) => {
                let phoff = le64(elf, 32) as usize as int;
                let phnum = le16_at(elf, 56) as int;
                &&& p.len() == loading_count(elf, phoff, 0, phnum)
                &&& forall|k: int|
                    0 <= k < phnum && #[trigger] loads_bytes(elf, phoff, k) ==> p[loading_count(elf, phoff, 0, k) as int]
                        == header_copy(elf, phoff, k)
            },
            None => true,
        },
{
    law_copies_cover_loadable(elf, le64(elf, 32) as usize as int, le16_at(elf, 56) as int, 0);
}

/// The copies `(file offset, physical address, length)` of the segment
/// bytes of kernel image `elf` into the memory reserved for it (the rest
/// of that memory is zeroed first).
pub fn kernel_copies(elf: &[u8]) -> (r: Option<Vec<(u64, u64, u64)>>)
    ensures
        match r {
            Some(v) => kernel_copies_spec(elf@) == Some(v@),
            None => kernel_copies_spec(elf@) is None,
        },
{
    if elf.len() < EHDR_BYTES {
        return None;
    }
    if !(elf[0] == 0x7f && elf[1] == 0x45 && elf[2] == 0x4c && elf[3] == 0x46) || elf[4] != 2 || elf[5] != 1
        || read_u16(elf, 18) != 0xb7 || read_u16(elf, 54) as usize != PHDR_BYTES {
        return None;
    }
    let phoff = read_u64(elf, 32) as usize;
    let phnum = read_u16(elf, 56) as usize;
    assert(elf@.len() == elf.len());
    let mut out: Vec<(u64, u64, u64)> = Vec::new();
    let mut i: usize = 0;
    while i < phnum
        invariant
            i <= phnum,
            phnum == le16_at(elf@, 56),
            phoff == le64(elf@, 32) as usize,
            elf_header_ok(elf@),
            elf@.len() == elf.len(),
            after(out@, copies_from(elf@, phoff as int, phnum as int, i as int)) == kernel_copies_spec(elf@),
        decreases phnum - i,
    {
        let step = match i.checked_mul(PHDR_BYTES) {
            Some(v) => v,
            None => {
                return None;
            },
        };
        let off = match phoff.checked_add(step) {
            Some(v) => v,
            None => {
                return None;
            },
        };
        if off > elf.len() || elf.len() - off < PHDR_BYTES {
            return None;
        }
        let p_type = read_u32(elf, off);
        let offset = read_u64(elf, off + 8);
        let paddr = read_u64(elf, off + 24);
        let filesz = read_u64(elf, off + 32);
        if p_type == PT_LOAD && filesz != 0 {
            let file_end = match offset.checked_add(filesz) {
                Some(v) => v,
                None => {
                    return None;
                },
            };
            if file_end > elf.len() as u64 {
                return None;
            }
            let ghost before = out@;
            out.push((offset, paddr, filesz));
            proof {
                assert(out@ == before + seq![(offset, paddr, filesz)]);
                match copies_from(elf@, phoff as int, phnum as int, i + 1) {
                    Some(rest) => {
                        assert(before + (seq![(offset, paddr, filesz)] + rest) =~= out@ + rest);
                    },
                    None => {},
                }
            }
        }
        i = i + 1;
    }
    assert(out@ + Seq::<(u64, u64, u64)>::empty() =~= out@);
    Some(out)
}

/// A 32-bit pixel of colour `(r, g, b)`, opaque, in the display's byte
/// order: blue in the low byte when `bgrx`, red there otherwise.
pub open spec fn gop_encode(bgrx: bool, r: u8, g: u8, b: u8) -> u32 {
    if bgrx {
        (b as int + g as int * 0x100 + r as int * 0x1_0000 + 0xff00_0000) as u32
    } else {
        (r as int + g as int * 0x100 + b as int * 0x1_0000 + 0xff00_0000) as u32
    }
}

fn encode_gop(bgrx: bool, r: u8, g: u8, b: u8) -> (p: u32)
    ensures
        p == gop_encode(bgrx, r, g, b),
{
    let (lo, hi) = if bgrx {
        (b, r)
    } else {
        (r, b)
    };
    let p = (lo as u32) | ((g as u32) << 8u32) | ((hi as u32) << 16u32) | (0xffu32 << 24u32);
    assert(p == (lo as int + g as int * 0x100 + hi as int * 0x1_0000 + 0xff00_0000) as u32) by (bit_vector)
        requires
            p == (lo as u32) | ((g as u32) << 8u32) | ((hi as u32) << 16u32) | (0xffu32 << 24u32),
    ;
    p
}

/// Height of each of the three colour bands of the test pattern.
pub open spec fn stripe_height(h: int) -> int {
    if h / 3 < 1 {
        1
    } else {
        h / 3
    }
}

/// Side of the test pattern's centred white square: a tenth of the
/// smaller dimension, at least 8.
pub open spec fn square_side(w: int, h: int) -> int {
    let m = if w < h {
        w
    } else {
        h
    };
    if m / 10 < 8 {
        8
    } else {
        m / 10
    }
}

/// The test pattern's pixel at column `x`, row `y` of a `w` x `h`
/// display: three horizontal bands (dark navy, cyan, magenta) under a
/// centred white square.
pub open spec fn pattern_word(w: int, h: int, bgrx: bool, x: int, y: int) -> u32 {
    let side = square_side(w, h);
    let cx = w / 2 - side / 2;
    let cy = h / 2 - side / 2;
    if cx <= x < cx + side && cy <= y < cy + side {
        gop_encode(bgrx, 0xff, 0xff, 0xff)
    } else if y < stripe_height(h) {
        gop_encode(bgrx, 0x10, 0x18, 0x24)
    } else if y < 2 * stripe_height(h) {
        gop_encode(bgrx, 0x14, 0x6a, 0xa6)
    } else {
        gop_encode(bgrx, 0xa6, 0x4d, 0xc4)
    }
}

/// The test-pattern pixel at `(x, y)`.
fn pattern_pixel(w: u32, h: u32, bgrx: bool, x: u32, y: u32) -> (p: u32)
    requires
        w >= 8,
        h >= 8,
    ensures
        p == pattern_word(w as int, h as int, bgrx, x as int, y as int),
{
    let m = if w < h {
        w
    } else {
        h
    };
    let side = if m / 10 < 8 {
        8
    } else {
        m / 10
    };
    let cx = w / 2 - side / 2;
    let cy = h / 2 - side / 2;
    let sh = if h / 3 < 1 {
        1
    } else {
        h / 3
    };
    if cx <= x && (x as u64) < cx as u64 + side as u64 && cy <= y && (y as u64) < cy as u64 + side as u64 {
        encode_gop(bgrx, 0xff, 0xff, 0xff)
    } else if y < sh {
        encode_gop(bgrx, 0x10, 0x18, 0x24)
    } else if (y as u64) < 2 * (sh as u64) {
        encode_gop(bgrx, 0x14, 0x6a, 0xa6)
    } else {
        encode_gop(bgrx, 0xa6, 0x4d, 0xc4)
    }
}

/// Paint the boot test pattern into `fb`, a `w` x `h` display of 32-bit
/// pixels whose rows are `stride` pixels apart: every visible pixel gets
/// its pattern colour, the padding past column `w` is left alone.
pub fn paint_pattern(fb: &mut Vec<u32>, w: u32, h: u32, stride: usize, bgrx: bool)
    requires
        old(fb)@.len() == stride * h,
        w <= stride,
        w == 0 || h == 0 || (w >= 8 && h >= 8),
    ensures
        final(fb)@.len() == old(fb)@.len(),
        forall|i: int|
            0 <= i < old(fb)@.len() ==> #[trigger] final(fb)@[i] == (if i % (stride as int) < w {
                pattern_word(w as int, h as int, bgrx, i % (stride as int), i / (stride as int))
            } else {
                old(fb)@[i]
            }),
{
    if w == 0 || h == 0 {
        proof {
            if h == 0 || stride == 0 {
                assert(stride * h == 0) by (nonlinear_arith)
                    requires
                        h == 0 || stride == 0,
                ;
            } else {
                assert forall|i: int| 0 <= i < fb@.len() implies #[trigger] fb@[i] == fb@[i] && !(i % (stride as int)
                    < w) by {
                    assert(i % (stride as int) >= 0) by (nonlinear_arith)
                        requires
                            stride > 0,
                    ;
                }
            }
        }
        return;
    }
    let ghost f0 = fb@;
    let ghost st = stride as int;
    assert(fb@.len() == fb.len());
    let mut y: u32 = 0;
    while y < h
        invariant
            w >= 8,
            h >= 8,
            w <= stride,
            f0.len() == stride * h,
            f0.len() <= usize::MAX,
            st == stride,
            fb@.len() == f0.len(),
            y <= h,
            forall|i: int|
                0 <= i < f0.len() ==> #[trigger] fb@[i] == (if i % st < w && i / st < y {
                    pattern_word(w as int, h as int, bgrx, i % st, i / st)
                } else {
                    f0[i]
                }),
        decreases h - y,
    {
        let mut x: u32 = 0;
        while x < w
            invariant
                w >= 8,
                h >= 8,
                w <= stride,
                f0.len() == stride * h,
                f0.len() <= usize::MAX,
                st == stride,
                fb@.len() == f0.len(),
                y < h,
                x <= w,
                forall|i: int|
                    0 <= i < f0.len() ==> #[trigger] fb@[i] == (if i % st < w && (i / st < y || (i / st == y && i
                        % st < x)) {
                        pattern_word(w as int, h as int, bgrx, i % st, i / st)
                    } else {
                        f0[i]
                    }),
            decreases w - x,
        {
            assert((y as int) * st + (x as int) < st * (h as int) && 0 <= (y as int) * st) by (nonlinear_arith)
                requires
                    y < h,
                    x < w,
                    w <= st,
            ;
            let j = y as usize * stride + x as usize;
            let p = pattern_pixel(w, h, bgrx, x, y);
            let ghost before = fb@;
            fb.set(j, p);
            proof {
                lemma_fundamental_div_mod_converse(j as int, st, y as int, x as int);
                assert forall|i: int| 0 <= i < f0.len() implies #[trigger] fb@[i] == (if i % st < w && (i / st < y
                    || (i / st == y && i % st < x + 1)) {
                    pattern_word(w as int, h as int, bgrx, i % st, i / st)
                } else {
                    f0[i]
                }) by {
                    if i != j {
                        assert(fb@[i] == before[i]);
                        if i / st == y && i % st == x {
                            lemma_fundamental_div_mod(i, st);
                            assert(i == st * (y as int) + (x as int));
                            assert(st * (y as int) == (y as int) * st) by (nonlinear_arith);
                            assert(false);
                        }
                    } else {
                        assert(fb@[i] == p);
                        assert(i / st == y && i % st == x);
                    }
                }
            }
            x = x + 1;
        }
        proof {
            assert forall|i: int| 0 <= i < f0.len() implies #[trigger] fb@[i] == (if i % st < w && i / st < y + 1 {
                pattern_word(w as int, h as int, bgrx, i % st, i / st)
            } else {
                f0[i]
            }) by {
                assert(fb@[i] == (if i % st < w && (i / st < y || (i / st == y && i % st < w)) {
                    pattern_word(w as int, h as int, bgrx, i % st, i / st)
                } else {
                    f0[i]
                }));
            }
        }
        y = y + 1;
    }
    proof {
        assert forall|i: int| 0 <= i < f0.len() implies #[trigger] fb@[i] == (if i % st < w {
            pattern_word(w as int, h as int, bgrx, i % st, i / st)
        } else {
            f0[i]
        }) by {
            lemma_div_bound(i, st, h as int);
        }
    }
}

proof fn lemma_div_bound(i: int, st: int, h: int)
    requires
        0 <= i < st * h,
        st > 0,
        h >= 0,
    ensures
        i / st < h,
{
    lemma_fundamental_div_mod(i, st);
    assert(st * (i / st) <= i) by {
        vstd::arithmetic::div_mod::lemma_mod_pos_bound(i, st);
    }
    if i / st >= h {
        assert(st * (i / st) >= st * h) by (nonlinear_arith)
            requires
                i / st >= h,
                st > 0,
        ;
    }
}

} // verus!
