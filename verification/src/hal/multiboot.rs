//! Multiboot2 information parser.
//!
//! Sister to [`super::dtb`]: the x86_64 boot path receives a Multiboot2
//! information block (from GRUB) and lowers the tags the kernel uses into
//! a [`BootInfo`]:
//!
//! * basic memory info (legacy `mem_lower` / `mem_upper`),
//! * memory map,
//! * framebuffer (direct RGB, 32 bits per pixel),
//! * RSDP descriptor (ACPI 1.0 / 2.0+),
//! * EFI 64-bit system table.
//!
//! The block is given as its bytes (the caller copies `total_size` bytes
//! from the physical address). A block with the wrong magic or a bogus
//! size leaves the QEMU `q35` description. The walk stops at the end tag,
//! at a tag shorter than its header, and at a tag whose fields would lie
//! past the end of the block.

use vstd::prelude::*;
use crate::hal::boot_info::{
    BootInfo, ConsoleKind, ConsoleSpec, FramebufferInfo, IntcKind, IntcSpec, MemoryMap, MemoryRegion,
    PixelFormat, RegSpec, push_region, total_size,
};
use crate::drivers::virtio::queue::le32;
use crate::efi::{le64, read_u32, read_u64};

verus! {

/// Multiboot2 magic the boot loader leaves in `eax`.
pub const MB2_MAGIC: u64 = 0x36d76289;

pub const TAG_END: u32 = 0;
pub const TAG_CMDLINE: u32 = 1;
pub const TAG_BOOTLOADER_NAME: u32 = 2;
pub const TAG_BASIC_MEM_INFO: u32 = 4;
pub const TAG_MEMORY_MAP: u32 = 6;
pub const TAG_FRAMEBUFFER_INFO: u32 = 8;
pub const TAG_EFI64_SYSTAB: u32 = 12;
pub const TAG_RSDP_OLD: u32 = 14;
pub const TAG_RSDP_NEW: u32 = 15;
pub const TAG_EFI64_IMAGE: u32 = 20;

/// Memory-map entry type of usable RAM.
pub const MEM_TYPE_AVAILABLE: u32 = 1;

/// Largest information block accepted.
pub const MAX_TOTAL_SIZE: u32 = 0x100_0000;

/// Bytes of the fixed part of a framebuffer tag.
pub const FB_TAG_BYTES: u32 = 32;

/// What the walk has gathered so far.
pub struct MbState {
    pub memory: Seq<MemoryRegion>,
    pub have_real_memory: bool,
    pub framebuffer: Option<FramebufferInfo>,
    pub fw_table_addr: u64,
}

/// The regions of the memory-map entries `es` bytes apart from `p` up to
/// `end`, added to `acc`: available RAM of non-zero length only. The
/// entries stop at one that would run past `end` (or whose fields lie
/// past `len`, the block's end).
pub open spec fn mmap_regions(b: Seq<u8>, p: int, end: int, es: int, len: int, acc: Seq<MemoryRegion>) -> Seq<MemoryRegion>
    decreases end - p,
{
    if es <= 0 || p < 0 || p + es > end || p + 24 > len {
        acc
    } else {
        let base = le64(b, p);
        let length = le64(b, p + 8);
        let acc2 = if le32(b, p + 16) == MEM_TYPE_AVAILABLE && length != 0 {
            push_region(acc, MemoryRegion { base, size: length })
        } else {
            acc
        };
        mmap_regions(b, p + es, end, es, len, acc2)
    }
}

/// Whether the fields the tag at `o` (type `typ`, size `size`) is read
/// by lie inside the `len` bytes of the block.
pub open spec fn tag_readable(o: int, typ: u32, size: int, len: int) -> bool {
    &&& o + size <= len
    &&& (typ == TAG_MEMORY_MAP ==> o + 16 <= len)
    &&& (typ == TAG_BASIC_MEM_INFO ==> o + 16 <= len)
    &&& (typ == TAG_EFI64_SYSTAB ==> o + 16 <= len)
    &&& (typ == TAG_FRAMEBUFFER_INFO && size >= FB_TAG_BYTES ==> o + 33 <= len)
}

/// The state after the tag at byte `o` of the block `b` (type `typ`,
/// size `size`), for a block at physical address `mbi`.
pub open spec fn apply_tag(b: Seq<u8>, mbi: u64, o: int, typ: u32, size: int, st: MbState) -> MbState {
    if typ == TAG_MEMORY_MAP {
        let m = mmap_regions(b, o + 16, o + size, le32(b, o + 8) as int, b.len() as int, Seq::empty());
        if total_size(m) != 0 {
            MbState { memory: m, have_real_memory: true, ..st }
        } else {
            st
        }
    } else if typ == TAG_BASIC_MEM_INFO {
        if st.have_real_memory {
            st
        } else {
            let lower = le32(b, o + 8);
            let upper = le32(b, o + 12);
            let m1 = push_region(Seq::empty(), MemoryRegion { base: 0, size: (lower * 1024) as u64 });
            let m = push_region(m1, MemoryRegion { base: 0x10_0000, size: (upper * 1024) as u64 });
            if total_size(m) != 0 {
                MbState { memory: m, ..st }
            } else {
                st
            }
        }
    } else if typ == TAG_FRAMEBUFFER_INFO {
        if size >= FB_TAG_BYTES && b[o + 29] == 1 && b[o + 28] == 32 {
            MbState {
                framebuffer: Some(
                    FramebufferInfo {
                        base: le64(b, o + 8),
                        width: le32(b, o + 20),
                        height: le32(b, o + 24),
                        stride_bytes: le32(b, o + 16),
                        bpp: 32,
                        format: if b[o + 32] >= 16 { PixelFormat::Bgra8888 } else { PixelFormat::Rgba8888 },
                    },
                ),
                ..st
            }
        } else {
            st
        }
    } else if typ == TAG_RSDP_OLD || typ == TAG_RSDP_NEW {
        MbState { fw_table_addr: (mbi + o + 8) as u64, ..st }
    } else if typ == TAG_EFI64_SYSTAB {
        if st.fw_table_addr == mbi {
            MbState { fw_table_addr: le64(b, o + 8), ..st }
        } else {
            st
        }
    } else {
        st
    }
}

/// `n` rounded up to a multiple of 8.
pub open spec fn align8(n: int) -> int {
    (n + 7) / 8 * 8
}

/// The state after walking the tags from byte `o` on.
pub open spec fn walk_tags(b: Seq<u8>, mbi: u64, o: int, st: MbState) -> MbState
    decreases (if o <= b.len() { b.len() - o } else { 0 }),
{
    if o < 0 || o + 8 > b.len() {
        st
    } else {
        let typ = le32(b, o);
        let size = le32(b, o + 4) as int;
        if typ == TAG_END || size < 8 || !tag_readable(o, typ, size, b.len() as int) {
            st
        } else {
            walk_tags(b, mbi, o + align8(size), apply_tag(b, mbi, o, typ, size, st))
        }
    }
}

/// The description before any tag: the `q35` machine with its APIC, the
/// block's address as firmware table.
pub open spec fn base_state(mbi: u64) -> MbState {
    MbState {
        memory: seq![MemoryRegion { base: 0x10_0000, size: 0x800_0000 }],
        have_real_memory: false,
        framebuffer: None,
        fw_table_addr: mbi,
    }
}

/// The description Multiboot2 boot yields for the block `blob` at `mbi`
/// handed over with `magic`. Tags are read up to the block's total size,
/// and never past the last address (the block's end saturates there).
pub open spec fn parse_spec(mbi: u64, magic: u64, blob: Seq<u8>) -> MbState {
    if magic != MB2_MAGIC || mbi == 0 || blob.len() < 4 {
        base_state(mbi)
    } else {
        let total = le32(blob, 0);
        if total < 16 || total > MAX_TOTAL_SIZE {
            base_state(mbi)
        } else {
            let b0 = if blob.len() < total { blob } else { blob.take(total as int) };
            let b = if b0.len() > u64::MAX - mbi { b0.take(u64::MAX - mbi) } else { b0 };
            walk_tags(b, mbi, 8, base_state(mbi))
        }
    }
}

/// The memory-map entries of a tag, exec side of [`mmap_regions`].
fn read_mmap(b: &[u8], start: usize, end: usize, es: usize) -> (m: MemoryMap)
    requires
        end <= b@.len(),
    ensures
        m@ == mmap_regions(b@, start as int, end as int, es as int, b@.len() as int, Seq::empty()),
        all_nonempty(m@),
{
    let mut m = MemoryMap::empty();
    let mut p = start;
    assert(b@.len() == b.len());
    while es != 0 && p <= end && end - p >= es && p <= b.len() && b.len() - p >= 24
        invariant
            end <= b@.len(),
            b@.len() == b.len(),
            start <= p,
            all_nonempty(m@),
            mmap_regions(b@, p as int, end as int, es as int, b@.len() as int, m@) == mmap_regions(
                b@,
                start as int,
                end as int,
                es as int,
                b@.len() as int,
                Seq::empty(),
            ),
        decreases b.len() - p,
    {
        let base = read_u64(b, p);
        let length = read_u64(b, p + 8);
        let typ = read_u32(b, p + 16);
        if typ == MEM_TYPE_AVAILABLE && length != 0 {
            m.push(MemoryRegion::new(base, length));
        }
        p = p + es;
    }
    m
}

/// Whether every region of `m` is non-empty.
pub open spec fn all_nonempty(m: Seq<MemoryRegion>) -> bool {
    forall|i: int| 0 <= i < m.len() ==> #[trigger] m[i].size > 0
}

/// `push_region` keeps regions non-empty.
proof fn lemma_push_nonempty(m: Seq<MemoryRegion>, r: MemoryRegion)
    requires
        all_nonempty(m),
    ensures
        all_nonempty(push_region(m, r)),
{
}

/// The entries gathered from a memory-map tag are non-empty.
proof fn lemma_mmap_nonempty(b: Seq<u8>, p: int, end: int, es: int, len: int, acc: Seq<MemoryRegion>)
    requires
        all_nonempty(acc),
    ensures
        all_nonempty(mmap_regions(b, p, end, es, len, acc)),
    decreases end - p,
{
    if !(es <= 0 || p < 0 || p + es > end || p + 24 > len) {
        let length = le64(b, p + 8);
        let acc2 = if le32(b, p + 16) == MEM_TYPE_AVAILABLE && length != 0 {
            push_region(acc, MemoryRegion { base: le64(b, p), size: length })
        } else {
            acc
        };
        lemma_push_nonempty(acc, MemoryRegion { base: le64(b, p), size: length });
        lemma_mmap_nonempty(b, p + es, end, es, len, acc2);
    }
}

/// Whether a memory map of non-empty regions has a region.
fn has_memory(m: &MemoryMap) -> (r: bool)
    requires
        all_nonempty(m@),
    ensures
        r == (total_size(m@) != 0),
{
    let s = m.as_slice();
    proof {
        lemma_total_size_nonzero(m@);
    }
    s.len() > 0
}

/// A memory map built by `push_region` has non-zero total exactly when
/// it has a region.
proof fn lemma_total_size_nonzero(m: Seq<MemoryRegion>)
    ensures
        (forall|i: int| 0 <= i < m.len() ==> #[trigger] m[i].size > 0) ==> ((total_size(m) != 0) == (m.len() > 0)),
    decreases m.len(),
{
    if m.len() > 0 {
        lemma_total_size_nonzero(m.drop_last());
        if forall|i: int| 0 <= i < m.len() ==> #[trigger] m[i].size > 0 {
            assert(m.last().size > 0);
        }
    }
}

/// The walk state a description under construction stands for.
pub open spec fn mb_state(bi: BootInfo, have_real: bool) -> MbState {
    MbState { memory: bi.memory@, have_real_memory: have_real, framebuffer: bi.framebuffer, fw_table_addr: bi.fw_table_addr }
}

/// The description Multiboot2 boot yields: the `q35` machine with its
/// APIC and the COM1 console, refined by the tags of the information
/// block `blob` found at `mbi_ptr` when `magic` is the Multiboot2 magic.
pub fn parse_or_fallback(mbi_ptr: u64, magic: u64, blob: &[u8]) -> (bi: BootInfo)
    ensures
        ({
            let st = parse_spec(mbi_ptr, magic, blob@);
            &&& bi.console == BootInfo::com1_console()
            &&& bi.intc == BootInfo::pc_apic()
            &&& bi.timer_freq_hz == 0
            &&& bi.memory@ == st.memory
            &&& bi.framebuffer == st.framebuffer
            &&& bi.fw_table_addr == st.fw_table_addr
        }),
{
    let mut bi = BootInfo::qemu_q35_fallback();
    bi.fw_table_addr = mbi_ptr;
    bi.intc = IntcSpec {
        kind: IntcKind::Apic,
        primary: RegSpec::new(0xFEE0_0000, 0x1000),
        secondary: RegSpec::new(0xFEC0_0000, 0x1000),
    };
    if magic != MB2_MAGIC || mbi_ptr == 0 || blob.len() < 4 {
        return bi;
    }
    let total = read_u32(blob, 0);
    if total < 16 || total > MAX_TOTAL_SIZE {
        return bi;
    }
    let n0 = if blob.len() < total as usize {
        blob.len()
    } else {
        total as usize
    };
    let room: u64 = u64::MAX - mbi_ptr;
    let n = if n0 as u64 > room {
        room as usize
    } else {
        n0
    };
    let b = &blob[0..n];
    assert(blob@.subrange(0, n0 as int) == (if blob@.len() < total { blob@ } else { blob@.take(total as int) }));
    assert(b@ == (if n0 > u64::MAX - mbi_ptr { blob@.subrange(0, n0 as int).take(u64::MAX - mbi_ptr) } else { blob@.subrange(0, n0 as int) }));
    assert(b@.len() == b.len());
    let ghost whole = walk_tags(b@, mbi_ptr, 8, base_state(mbi_ptr));
    let mut have_real = false;
    let mut done = false;
    let mut o: usize = 8;
    while !done && o <= n && n - o >= 8
        invariant
            n == b@.len(),
            n <= MAX_TOTAL_SIZE,
            b@.len() == b.len(),
            mbi_ptr + n <= u64::MAX,
            bi.console == BootInfo::com1_console(),
            bi.intc == BootInfo::pc_apic(),
            bi.timer_freq_hz == 0,
            all_nonempty(bi.memory@),
            done ==> walk_tags(b@, mbi_ptr, o as int, mb_state(bi, have_real)) == mb_state(bi, have_real),
            walk_tags(b@, mbi_ptr, o as int, mb_state(bi, have_real)) == whole,
        decreases (if o <= n { n - o } else { 0 }), (if done { 0int } else { 1int }),
    {
        let typ = read_u32(b, o);
        let size = read_u32(b, o + 4) as usize;
        let extra: usize = if typ == TAG_MEMORY_MAP || typ == TAG_BASIC_MEM_INFO || typ == TAG_EFI64_SYSTAB {
            16
        } else if typ == TAG_FRAMEBUFFER_INFO && size >= FB_TAG_BYTES as usize {
            33
        } else {
            0
        };
        if typ == TAG_END || size < 8 || n - o < size || n - o < extra {
            done = true;
        } else {
            let ghost st0 = mb_state(bi, have_real);
            if typ == TAG_MEMORY_MAP {
                let es = read_u32(b, o + 8) as usize;
                let m = read_mmap(b, o + 16, o + size, es);
                if has_memory(&m) {
                    bi.memory = m;
                    have_real = true;
                }
            } else if typ == TAG_BASIC_MEM_INFO {
                if !have_real {
                    let lower = read_u32(b, o + 8) as u64;
                    let upper = read_u32(b, o + 12) as u64;
                    let mut m = MemoryMap::empty();
                    m.push(MemoryRegion::new(0, lower * 1024));
                    m.push(MemoryRegion::new(0x10_0000, upper * 1024));
                    proof {
                        lemma_push_nonempty(Seq::empty(), MemoryRegion { base: 0, size: (lower * 1024) as u64 });
                        lemma_push_nonempty(
                            push_region(Seq::empty(), MemoryRegion { base: 0, size: (lower * 1024) as u64 }),
                            MemoryRegion { base: 0x10_0000, size: (upper * 1024) as u64 },
                        );
                    }
                    if has_memory(&m) {
                        bi.memory = m;
                    }
                }
            } else if typ == TAG_FRAMEBUFFER_INFO {
                if size >= FB_TAG_BYTES as usize && b[o + 29] == 1 && b[o + 28] == 32 {
                    let format = if b[o + 32] >= 16 {
                        PixelFormat::Bgra8888
                    } else {
                        PixelFormat::Rgba8888
                    };
                    bi.framebuffer = Some(FramebufferInfo {
                        base: read_u64(b, o + 8),
                        width: read_u32(b, o + 20),
                        height: read_u32(b, o + 24),
                        stride_bytes: read_u32(b, o + 16),
                        bpp: 32,
                        format,
                    });
                }
            } else if typ == TAG_RSDP_OLD || typ == TAG_RSDP_NEW {
                bi.fw_table_addr = mbi_ptr + o as u64 + 8;
            } else if typ == TAG_EFI64_SYSTAB {
                if bi.fw_table_addr == mbi_ptr {
                    bi.fw_table_addr = read_u64(b, o + 8);
                }
            }
            proof {
                assert(mb_state(bi, have_real) == apply_tag(b@, mbi_ptr, o as int, typ, size as int, st0));
            }
            let step = (size + 7) / 8 * 8;
            o = o + step;
        }
    }
    bi
}

/// Without the Multiboot2 magic, or without an information block, the
/// description is the `q35` fallback with only the block address
/// recorded: 128 MiB of RAM at 1 MiB and no framebuffer.
pub proof fn law_multiboot_fallback(mbi: u64, magic: u64, blob: Seq<u8>)
    requires
        magic != MB2_MAGIC || mbi == 0,
    ensures
        parse_spec(mbi, magic, blob) == base_state(mbi),
        parse_spec(mbi, magic, blob).memory == seq![MemoryRegion { base: 0x10_0000, size: 0x800_0000 }],
        parse_spec(mbi, magic, blob).framebuffer is None,
        parse_spec(mbi, magic, blob).fw_table_addr == mbi,
{
}

/// A direct-RGB (type 1), 32-bit framebuffer tag at `o` describes the
/// framebuffer: base, pitch, width and height read from the tag, 32 bits
/// per pixel, and BGRA order exactly when the red field sits at bit 16
/// or above (tag byte 32), RGBA order otherwise. Memory and the firmware
/// table are left as they were.
pub proof fn law_framebuffer_tag(b: Seq<u8>, mbi: u64, o: int, size: int, st: MbState)
    requires
        0 <= o,
        o + 33 <= b.len(),
        size >= FB_TAG_BYTES,
        b[o + 29] == 1,
        b[o + 28] == 32,
    ensures
        match apply_tag(b, mbi, o, TAG_FRAMEBUFFER_INFO, size, st).framebuffer {
            Some(fb) => {
                &&& (fb.format == PixelFormat::Bgra8888) <==> b[o + 32] >= 16
                &&& (fb.format == PixelFormat::Rgba8888) <==> b[o + 32] < 16
                &&& fb.bpp == 32
                &&& fb.base == le64(b, o + 8)
                &&& fb.stride_bytes == le32(b, o + 16)
                &&& fb.width == le32(b, o + 20)
                &&& fb.height == le32(b, o + 24)
            },
            None => false,
        },
        apply_tag(b, mbi, o, TAG_FRAMEBUFFER_INFO, size, st).memory == st.memory,
        apply_tag(b, mbi, o, TAG_FRAMEBUFFER_INFO, size, st).fw_table_addr == st.fw_table_addr,
{
}

/// A Multiboot2 block whose only tag is a direct-RGB, 32-bit framebuffer
/// tag yields that framebuffer, in BGRA order exactly when the tag's red
/// field position (block byte 40) is 16 or more and in RGBA order
/// otherwise.
pub proof fn law_framebuffer_block_format(mbi: u64, blob: Seq<u8>)
    requires
        mbi != 0,
        mbi + blob.len() <= u64::MAX,
        41 <= blob.len() <= le32(blob, 0),
        16 <= le32(blob, 0) <= MAX_TOTAL_SIZE,
        le32(blob, 8) == TAG_FRAMEBUFFER_INFO,
        FB_TAG_BYTES <= le32(blob, 12),
        8 + le32(blob, 12) <= blob.len(),
        blob[37] == 1,
        blob[36] == 32,
        8 + align8(le32(blob, 12) as int) + 8 > blob.len() || le32(blob, 8 + align8(le32(blob, 12) as int))
            == TAG_END,
    ensures
        match parse_spec(mbi, MB2_MAGIC, blob).framebuffer {
            Some(fb) => {
                &&& (fb.format == PixelFormat::Bgra8888) <==> blob[40] >= 16
                &&& (fb.format == PixelFormat::Rgba8888) <==> blob[40] < 16
                &&& fb.bpp == 32
                &&& fb.width == le32(blob, 28)
                &&& fb.height == le32(blob, 32)
            },
            None => false,
        },
{
    let size = le32(blob, 12) as int;
    let st0 = base_state(mbi);
    let st1 = apply_tag(blob, mbi, 8, TAG_FRAMEBUFFER_INFO, size, st0);
    if blob.len() == le32(blob, 0) {
        assert(blob.take(le32(blob, 0) as int) =~= blob);
    }
    assert(align8(size) >= size) by {
        assert((size + 7) / 8 * 8 >= size) by (nonlinear_arith)
            requires
                size >= 0,
        ;
    }
    assert(walk_tags(blob, mbi, 8 + align8(size), st1) == st1);
    assert(walk_tags(blob, mbi, 8, st0) == walk_tags(blob, mbi, 8 + align8(size), st1));
    law_framebuffer_tag(blob, mbi, 8, size, st0);
}

} // verus!
