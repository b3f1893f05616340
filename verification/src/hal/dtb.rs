//! Minimal Flattened Device Tree (FDT v17) parser.
//!
//! Just enough to discover what the kernel needs at boot: the RAM banks
//! (`/memory@*`), the interrupt controller (GICv2 vs. GICv3 by
//! `compatible`), the generic timer frequency, the console UART (the one
//! `/chosen/stdout-path` selects, or the first compatible one), and an
//! optional firmware framebuffer.
//!
//! The parser is allocation-free and permissive: unknown nodes are
//! ignored, and a missing or malformed blob leaves the QEMU `virt`
//! fallback description in place.
//!
//! The structure block is walked as a small state machine; its
//! semantics are written down token by token in [`step`], and [`walk`]
//! is proved to compute exactly what running that machine computes.

use crate::hal::boot_info::{
    push_region, BootInfo, BootInfoModel, ConsoleKind, ConsoleSpec, FramebufferInfo, IntcKind,
    IntcSpec, MemoryMap, MemoryRegion, PixelFormat, RegSpec, MAX_MEMORY_REGIONS,
};
use crate::hal::text::{
    bytes_eq, contains_bytes, contains_seq, contains_serial, find_byte, find_first, find_last, is_a8b8g8r8, is_address_cells, is_arm_gic, is_armv7_timer, is_armv8_timer, is_bcm2835_aux, is_bcm2837_aux, is_chosen, is_clock_frequency, is_compatible, is_cortex_a15_gic, is_cortex_a9_gic, is_dw_apb_uart, is_format, is_fsl_16550, is_gic_400, is_gic_v3, is_height, is_ns16550, is_ns16550a, is_pl011, is_prefix, is_primecell, is_r8g8b8a8, is_r8g8b8x8, is_reg, is_serial0, is_serial1, is_serial2, is_simple_framebuffer, is_size_cells, is_stdout_path, is_stride, is_tegra20_uart, is_utf8, is_width, is_x8b8g8r8, lit_a8b8g8r8, lit_address_cells, lit_arm_gic, lit_armv7_timer, lit_armv8_timer, lit_bcm2835_aux, lit_bcm2837_aux, lit_chosen, lit_clock_frequency, lit_compatible, lit_cortex_a15_gic, lit_cortex_a9_gic, lit_dw_apb_uart, lit_format, lit_framebuffer, lit_fsl_16550, lit_gic_400, lit_gic_v3, lit_height, lit_memory, lit_ns16550, lit_ns16550a, lit_pl011, lit_primecell, lit_r8g8b8a8, lit_r8g8b8x8, lit_reg, lit_serial, lit_serial0, lit_serial1, lit_serial2, lit_simple_framebuffer, lit_size_cells, lit_stdout_path, lit_stride, lit_tegra20_uart, lit_width, lit_x8b8g8r8, rfind_byte, starts_with_framebuffer, starts_with_memory, until_nul,
};
use vstd::prelude::*;
use vstd::utf8::valid_utf8;

verus! {

pub const FDT_MAGIC: u32 = 0xd00d_feed;

pub const FDT_BEGIN_NODE: u32 = 0x0000_0001;

pub const FDT_END_NODE: u32 = 0x0000_0002;

pub const FDT_PROP: u32 = 0x0000_0003;

pub const FDT_NOP: u32 = 0x0000_0004;

pub const FDT_END: u32 = 0x0000_0009;

/// Size of the FDT header in bytes.
pub const FDT_HEADER_SIZE: u32 = 40;

/// Deepest node nesting the walker keeps per-node state for; deeper
/// subtrees are skipped.
pub const MAX_DEPTH: usize = 8;

// ---------------------------------------------------------------------
// Big-endian fields and C strings
// ---------------------------------------------------------------------

/// The big-endian 32-bit value at `off`, if four bytes are there.
pub open spec fn be32_spec(b: Seq<u8>, off: int) -> Option<u32> {
    if 0 <= off && off + 4 <= b.len() {
        Some((0x100_0000 * b[off] + 0x1_0000 * b[off + 1] + 0x100 * b[off + 2] + b[off + 3]) as u32)
    } else {
        None
    }
}

/// The big-endian 64-bit value at `off`, if eight bytes are there.
pub open spec fn be64_spec(b: Seq<u8>, off: int) -> Option<u64> {
    if 0 <= off && off + 8 <= b.len() {
        Some(
            (0x100_0000_0000_0000 * b[off] + 0x1_0000_0000_0000 * b[off + 1] + 0x100_0000_0000 * b[off + 2]
                + 0x1_0000_0000 * b[off + 3] + 0x100_0000 * b[off + 4] + 0x1_0000 * b[off + 5] + 0x100 * b[off
                + 6] + b[off + 7]) as u64,
        )
    } else {
        None
    }
}

/// The NUL-terminated string at `off`: empty when `off` is past the end
/// or when the bytes before the NUL are not valid UTF-8.
pub open spec fn cstr_spec(b: Seq<u8>, off: int) -> Seq<u8> {
    if off >= b.len() {
        Seq::empty()
    } else {
        let s = until_nul(b, off);
        if valid_utf8(s) {
            s
        } else {
            Seq::empty()
        }
    }
}

/// Read a 32-bit big-endian value from `bytes` at `offset`; `None` when
/// the four bytes are not all inside `bytes`.
pub fn be32(bytes: &[u8], offset: usize) -> (r: Option<u32>)
    ensures
        r == be32_spec(bytes@, offset as int),
{
    let n = bytes.len();
    let end = match offset.checked_add(4) {
        Some(e) => e,
        None => return None,
    };
    if end > bytes.len() {
        return None;
    }
    Some(
        0x100_0000 * bytes[offset] as u32 + 0x1_0000 * bytes[offset + 1] as u32 + 0x100 * bytes[offset + 2] as u32
            + bytes[offset + 3] as u32,
    )
}

/// Read a 64-bit big-endian value from `bytes` at `offset`; `None` when
/// the eight bytes are not all inside `bytes`.
pub fn be64(bytes: &[u8], offset: usize) -> (r: Option<u64>)
    ensures
        r == be64_spec(bytes@, offset as int),
{
    let n = bytes.len();
    let end = match offset.checked_add(8) {
        Some(e) => e,
        None => return None,
    };
    if end > bytes.len() {
        return None;
    }
    Some(
        0x100_0000_0000_0000 * bytes[offset] as u64 + 0x1_0000_0000_0000 * bytes[offset + 1] as u64
            + 0x100_0000_0000 * bytes[offset + 2] as u64 + 0x1_0000_0000 * bytes[offset + 3] as u64
            + 0x100_0000 * bytes[offset + 4] as u64 + 0x1_0000 * bytes[offset + 5] as u64 + 0x100
            * bytes[offset + 6] as u64 + bytes[offset + 7] as u64,
    )
}

/// Read the NUL-terminated string at `offset` (empty when `offset` is
/// out of range or the bytes are not UTF-8).
pub fn cstr(bytes: &[u8], offset: usize) -> (r: &[u8])
    ensures
        r@ == cstr_spec(bytes@, offset as int),
        r@.len() <= bytes@.len(),
        r@.len() > 0 ==> offset + r@.len() <= bytes@.len(),
{
    if offset >= bytes.len() {
        return vstd::slice::slice_subrange(bytes, 0, 0);
    }
    let end = find_byte(bytes, 0, offset);
    let s = vstd::slice::slice_subrange(bytes, offset, end);
    if is_utf8(s) {
        s
    } else {
        vstd::slice::slice_subrange(bytes, 0, 0)
    }
}

/// `x` rounded up to a multiple of four.
pub open spec fn align4(x: int) -> int {
    (x + 3) / 4 * 4
}

proof fn lemma_align4(x: u64)
    requires
        x <= u64::MAX - 3,
    ensures
        (((x + 3) as u64) & !3u64) as int == align4(x as int),
        align4(x as int) >= x,
        align4(x as int) <= x + 3,
{
    assert((((x + 3) as u64) & !3u64) == ((x + 3) / 4) * 4) by (bit_vector)
        requires
            x <= u64::MAX - 3,
    ;
    assert((x + 3) / 4 * 4 >= x && (x + 3) / 4 * 4 <= x + 3) by (nonlinear_arith);
}

fn align_up4(x: u64) -> (r: u64)
    requires
        x <= u64::MAX - 3,
    ensures
        r == align4(x as int),
{
    proof {
        lemma_align4(x);
    }
    (x + 3) & !3u64
}

// ---------------------------------------------------------------------
// Recognised device names
// ---------------------------------------------------------------------

/// Compatible strings of a GICv2-class distributor.
pub open spec fn gic_v2_compatible(c: Seq<u8>) -> bool {
    c == lit_gic_400() || c == lit_cortex_a15_gic() || c == lit_cortex_a9_gic() || c
        == lit_arm_gic()
}

/// Compatible strings of the ARM generic timer.
pub open spec fn timer_compatible(c: Seq<u8>) -> bool {
    c == lit_armv8_timer() || c == lit_armv7_timer()
}

/// The console UART class a compatible string names, if any.
pub open spec fn uart_kind_spec(c: Seq<u8>) -> Option<ConsoleKind> {
    if c == lit_pl011() || c == lit_primecell() {
        Some(ConsoleKind::Pl011)
    } else if c == lit_ns16550() || c == lit_ns16550a() || c == lit_dw_apb_uart() || c
        == lit_fsl_16550() || c == lit_tegra20_uart() {
        Some(ConsoleKind::Ns16550)
    } else if c == lit_bcm2835_aux() || c == lit_bcm2837_aux() {
        Some(ConsoleKind::BcmMiniUart)
    } else {
        None
    }
}

/// Framebuffer `format` names that mean R,G,B byte order.
pub open spec fn rgba_format_name(s: Seq<u8>) -> bool {
    s == lit_a8b8g8r8() || s == lit_x8b8g8r8() || s == lit_r8g8b8a8() || s == lit_r8g8b8x8()
}

fn is_gic_v2_compatible(c: &[u8]) -> (r: bool)
    ensures
        r == gic_v2_compatible(c@),
{
    is_gic_400(c) || is_cortex_a15_gic(c) || is_cortex_a9_gic(c) || is_arm_gic(c)
}

fn is_timer_compatible(c: &[u8]) -> (r: bool)
    ensures
        r == timer_compatible(c@),
{
    is_armv8_timer(c) || is_armv7_timer(c)
}

/// The console UART class for a compatible string.
pub fn uart_kind_for(compatible: &[u8]) -> (r: Option<ConsoleKind>)
    ensures
        r == uart_kind_spec(compatible@),
{
    if is_pl011(compatible) || is_primecell(compatible) {
        return Some(ConsoleKind::Pl011);
    }
    if is_ns16550(compatible) || is_ns16550a(compatible) || is_dw_apb_uart(compatible)
        || is_fsl_16550(compatible) || is_tegra20_uart(compatible) {
        return Some(ConsoleKind::Ns16550);
    }
    if is_bcm2835_aux(compatible) || is_bcm2837_aux(compatible) {
        return Some(ConsoleKind::BcmMiniUart);
    }
    None
}

/// Last path component of a `stdout-path`, with `:options` stripped.
pub open spec fn path_last(p: Seq<u8>) -> Seq<u8> {
    let path = p.subrange(0, find_first(p, 58, 0));
    path.subrange(find_last(path, 47, path.len() as int) + 1, path.len() as int)
}

/// Whether `stdout-path` selects the node called `n` (heuristic: exact
/// last component, a `serialN` alias on a serial node, or either name
/// containing the other's base).
pub open spec fn path_matches_spec(p: Seq<u8>, n: Seq<u8>) -> bool {
    if p.len() == 0 || n.len() == 0 {
        false
    } else {
        let last = path_last(p);
        ||| last == n
        ||| (last == lit_serial0() || last == lit_serial1() || last == lit_serial2())
            && contains_seq(n, lit_serial())
        ||| contains_seq(n, last)
        ||| contains_seq(last, n.subrange(0, find_first(n, 64, 0)))
    }
}

/// Crude `stdout-path` matcher: does the path name this node?
pub fn path_matches_node(stdout_path: &[u8], node_name: &[u8]) -> (r: bool)
    ensures
        r == path_matches_spec(stdout_path@, node_name@),
{
    if stdout_path.len() == 0 || node_name.len() == 0 {
        return false;
    }
    let colon = find_byte(stdout_path, 58, 0);
    let path = vstd::slice::slice_subrange(stdout_path, 0, colon);
    let last = match rfind_byte(path, 47) {
        Some(i) => vstd::slice::slice_subrange(path, i + 1, path.len()),
        None => path,
    };
    proof {
        assert(path@ == stdout_path@.subrange(0, find_first(stdout_path@, 58, 0)));
        assert(last@ == path_last(stdout_path@));
    }
    if bytes_eq(last, node_name) {
        return true;
    }
    let at = find_byte(node_name, 64, 0);
    let base = vstd::slice::slice_subrange(node_name, 0, at);
    ((is_serial0(last) || is_serial1(last) || is_serial2(last)) && contains_serial(node_name))
        || contains_bytes(node_name, last) || contains_bytes(last, base)
}

// ---------------------------------------------------------------------
// Per-node actions
// ---------------------------------------------------------------------

/// A framebuffer entry that properties have not filled in yet.
pub open spec fn default_fb() -> FramebufferInfo {
    FramebufferInfo {
        base: 0,
        width: 0,
        height: 0,
        stride_bytes: 0,
        bpp: 32,
        format: PixelFormat::Bgra8888,
    }
}

/// The framebuffer being assembled for a node (a fresh one if none yet).
pub open spec fn fb_entry(fb: Option<FramebufferInfo>) -> FramebufferInfo {
    match fb {
        Some(f) => f,
        None => default_fb(),
    }
}

/// `a * b`, saturating at `u32::MAX`.
pub open spec fn sat_mul_u32(a: u32, b: u32) -> u32 {
    if a * b > u32::MAX {
        u32::MAX
    } else {
        (a * b) as u32
    }
}

/// The framebuffer a node describes once its `reg` base is known; the
/// stride is derived from width and depth when the node gave none.
pub open spec fn placed_fb(f: FramebufferInfo, base: u64) -> FramebufferInfo {
    let stride = if f.stride_bytes == 0 && f.bpp != 0 && f.width != 0 {
        sat_mul_u32(f.width, f.bpp / 8)
    } else {
        f.stride_bytes
    };
    FramebufferInfo { base, stride_bytes: stride, ..f }
}

/// Whether a memory map is still the QEMU `virt` fallback's single bank.
pub open spec fn is_fallback_ram(banks: Seq<MemoryRegion>) -> bool {
    banks.len() == 1 && banks[0].base == 0x4000_0000 && banks[0].size == 0x1000_0000
}

/// What closing a node does to the machine description.
pub open spec fn act_spec(
    info: BootInfoModel,
    name: Seq<u8>,
    compatible: Seq<u8>,
    reg: Option<(u64, u64)>,
    clock_hz: u32,
    fb: Option<FramebufferInfo>,
    stdout_path: Seq<u8>,
    in_chosen: bool,
) -> BootInfoModel {
    if is_prefix(lit_memory(), name) {
        match reg {
            Some((base, size)) => {
                let banks = if info.fw_table_addr != 0 && is_fallback_ram(info.memory) {
                    Seq::empty()
                } else {
                    info.memory
                };
                BootInfoModel {
                    memory: push_region(banks, MemoryRegion { base, size }),
                    ..info
                }
            },
            None => info,
        }
    } else if compatible == lit_gic_v3() {
        match reg {
            Some((base, size)) => BootInfoModel {
                intc: IntcSpec {
                    kind: IntcKind::GicV3,
                    primary: RegSpec { base, size },
                    secondary: info.intc.secondary,
                },
                ..info
            },
            None => info,
        }
    } else if gic_v2_compatible(compatible) {
        match reg {
            Some((base, size)) => BootInfoModel {
                intc: IntcSpec {
                    kind: IntcKind::GicV2,
                    primary: RegSpec { base, size },
                    secondary: info.intc.secondary,
                },
                ..info
            },
            None => info,
        }
    } else if timer_compatible(compatible) && clock_hz != 0 {
        BootInfoModel { timer_freq_hz: clock_hz, ..info }
    } else if uart_kind_spec(compatible) is Some {
        match reg {
            Some((base, size)) => {
                let console = ConsoleSpec {
                    kind: uart_kind_spec(compatible).unwrap(),
                    regs: RegSpec { base, size },
                    clock_hz,
                };
                if stdout_path.len() != 0 {
                    if path_matches_spec(stdout_path, name) {
                        BootInfoModel { console, ..info }
                    } else {
                        info
                    }
                } else if info.fw_table_addr != 0 && info.console.regs.base == 0x0900_0000
                    && info.console.kind == ConsoleKind::Pl011 {
                    BootInfoModel { console, ..info }
                } else {
                    info
                }
            },
            None => info,
        }
    } else if (compatible == lit_simple_framebuffer() || (in_chosen && is_prefix(
        lit_framebuffer(),
        name,
    ))) && fb is Some && reg is Some {
        BootInfoModel { framebuffer: Some(placed_fb(fb.unwrap(), reg.unwrap().0)), ..info }
    } else {
        info
    }
}

/// Apply what a finished node says to the machine description.
pub fn act_on_node(
    info: &mut BootInfo,
    name: &[u8],
    compatible: &[u8],
    reg: Option<(u64, u64)>,
    clock_hz: u32,
    fb: Option<FramebufferInfo>,
    ctx: &WalkCtx,
)
    ensures
        final(info)@ == act_spec(
            old(info)@,
            name@,
            compatible@,
            reg,
            clock_hz,
            fb,
            ctx.stdout_path@,
            ctx.in_chosen,
        ),
{
    if starts_with_memory(name) {
        if let Some((base, size)) = reg {
            let banks = info.memory.as_slice();
            if info.fw_table_addr != 0 && banks.len() == 1 && banks[0].base == 0x4000_0000
                && banks[0].size == 0x1000_0000 {
                info.memory = MemoryMap::empty();
            }
            info.memory.push(MemoryRegion::new(base, size));
        }
        return;
    }
    if is_gic_v3(compatible) {
        if let Some((base, size)) = reg {
            info.intc = IntcSpec {
                kind: IntcKind::GicV3,
                primary: RegSpec::new(base, size),
                secondary: info.intc.secondary,
            };
        }
        return;
    }
    if is_gic_v2_compatible(compatible) {
        if let Some((base, size)) = reg {
            info.intc = IntcSpec {
                kind: IntcKind::GicV2,
                primary: RegSpec::new(base, size),
                secondary: info.intc.secondary,
            };
        }
        return;
    }
    if is_timer_compatible(compatible) && clock_hz != 0 {
        info.timer_freq_hz = clock_hz;
        return;
    }
    if let Some(kind) = uart_kind_for(compatible) {
        if let Some((base, size)) = reg {
            if ctx.stdout_path.len() != 0 {
                if path_matches_node(ctx.stdout_path, name) {
                    info.console = ConsoleSpec { kind, regs: RegSpec::new(base, size), clock_hz };
                }
            } else if info.fw_table_addr != 0 && info.console.regs.base == 0x0900_0000
                && info.console.kind == ConsoleKind::Pl011 {
                info.console = ConsoleSpec { kind, regs: RegSpec::new(base, size), clock_hz };
            }
        }
        return;
    }
    if (is_simple_framebuffer(compatible) || (ctx.in_chosen && starts_with_framebuffer(name)))
        && fb.is_some() {
        if let (Some(f), Some((base, _))) = (fb, reg) {
            let mut f = f;
            f.base = base;
            if f.stride_bytes == 0 && f.bpp != 0 && f.width != 0 {
                f.stride_bytes =
                    match f.width.checked_mul(f.bpp / 8) {
                        Some(v) => v,
                        None => u32::MAX,
                    };
            }
            info.framebuffer = Some(f);
        }
    }
}

// ---------------------------------------------------------------------
// Walker state
// ---------------------------------------------------------------------

/// Context kept while walking: nesting depth, the `#address-cells` /
/// `#size-cells` in force at each level, `/chosen/stdout-path`, and
/// whether the walk is inside `/chosen`.
pub struct WalkCtx<'a> {
    pub depth: usize,
    pub address_cells: [u32; 8],
    pub size_cells: [u32; 8],
    pub stdout_path: &'a [u8],
    pub in_chosen: bool,
}

/// Per-level node properties, gathered while a node is open and acted on
/// when it closes.
pub struct NodeFrames<'a> {
    pub name: [&'a [u8]; 8],
    pub compatible: [&'a [u8]; 8],
    pub reg: [Option<(u64, u64)>; 8],
    pub clock: [u32; 8],
    pub fb: [Option<FramebufferInfo>; 8],
}

/// The walker's state as mathematical values.
pub struct WalkModel {
    /// Byte offset of the next token.
    pub cursor: int,
    /// Open nodes still to skip inside a too-deep subtree (0: not skipping).
    pub skip: int,
    /// The walk has stopped (end token, or malformed input).
    pub done: bool,
    pub depth: int,
    pub address_cells: Seq<u32>,
    pub size_cells: Seq<u32>,
    pub stdout_path: Seq<u8>,
    pub in_chosen: bool,
    pub names: Seq<Seq<u8>>,
    pub compats: Seq<Seq<u8>>,
    pub regs: Seq<Option<(u64, u64)>>,
    pub clocks: Seq<u32>,
    pub fbs: Seq<Option<FramebufferInfo>>,
    pub info: BootInfoModel,
}

/// The value of `cells` big-endian cells at `off` (only 1 and 2 are read;
/// anything else, or missing bytes, reads as 0).
pub open spec fn read_cells_spec(b: Seq<u8>, off: int, cells: int) -> u64 {
    if cells == 1 {
        match be32_spec(b, off) {
            Some(v) => v as u64,
            None => 0,
        }
    } else if cells == 2 {
        match be64_spec(b, off) {
            Some(v) => v,
            None => 0,
        }
    } else {
        0
    }
}

/// A big-endian 32-bit property value, or 0 when the value is too short.
pub open spec fn be32_or_zero(b: Seq<u8>) -> u32 {
    match be32_spec(b, 0) {
        Some(v) => v,
        None => 0,
    }
}

/// `max(cells, 1)`.
pub open spec fn at_least_one(cells: u32) -> int {
    if cells == 0 {
        1
    } else {
        cells as int
    }
}

/// What one property of the current node does to the walker state.
pub open spec fn prop_spec(m: WalkModel, pname: Seq<u8>, value: Seq<u8>) -> WalkModel {
    let d = m.depth;
    if pname == lit_address_cells() {
        match be32_spec(value, 0) {
            Some(v) => WalkModel { address_cells: m.address_cells.update(d, v), ..m },
            None => m,
        }
    } else if pname == lit_size_cells() {
        match be32_spec(value, 0) {
            Some(v) => WalkModel { size_cells: m.size_cells.update(d, v), ..m },
            None => m,
        }
    } else if pname == lit_compatible() {
        WalkModel { compats: m.compats.update(d, cstr_spec(value, 0)), ..m }
    } else if pname == lit_reg() {
        let parent = if d >= 1 {
            d - 1
        } else {
            0
        };
        let ac = at_least_one(m.address_cells[parent]);
        let sc = at_least_one(m.size_cells[parent]);
        if value.len() < (ac + sc) * 4 {
            m
        } else {
            WalkModel {
                regs: m.regs.update(
                    d,
                    Some((read_cells_spec(value, 0, ac), read_cells_spec(value, ac * 4, sc))),
                ),
                ..m
            }
        }
    } else if pname == lit_clock_frequency() {
        match be32_spec(value, 0) {
            Some(v) => WalkModel { clocks: m.clocks.update(d, v), ..m },
            None => m,
        }
    } else if pname == lit_stdout_path() {
        let s = until_nul(value, 0);
        if d >= 1 && m.in_chosen && valid_utf8(s) {
            WalkModel { stdout_path: s, ..m }
        } else {
            m
        }
    } else if pname == lit_width() {
        WalkModel {
            fbs: m.fbs.update(
                d,
                Some(FramebufferInfo { width: be32_or_zero(value), ..fb_entry(m.fbs[d]) }),
            ),
            ..m
        }
    } else if pname == lit_height() {
        WalkModel {
            fbs: m.fbs.update(
                d,
                Some(FramebufferInfo { height: be32_or_zero(value), ..fb_entry(m.fbs[d]) }),
            ),
            ..m
        }
    } else if pname == lit_stride() {
        WalkModel {
            fbs: m.fbs.update(
                d,
                Some(FramebufferInfo { stride_bytes: be32_or_zero(value), ..fb_entry(m.fbs[d]) }),
            ),
            ..m
        }
    } else if pname == lit_format() {
        let s = until_nul(value, 0);
        let f = fb_entry(m.fbs[d]);
        let f2 = if valid_utf8(s) {
            FramebufferInfo {
                format: if rgba_format_name(s) {
                    PixelFormat::Rgba8888
                } else {
                    PixelFormat::Bgra8888
                },
                bpp: 32,
                ..f
            }
        } else {
            f
        };
        WalkModel { fbs: m.fbs.update(d, Some(f2)), ..m }
    } else {
        m
    }
}

/// Opening a node called `name` one level below the current one.
pub open spec fn open_node(m: WalkModel, name: Seq<u8>) -> WalkModel {
    let d = m.depth + 1;
    WalkModel {
        depth: d,
        address_cells: m.address_cells.update(d, m.address_cells[d - 1]),
        size_cells: m.size_cells.update(d, m.size_cells[d - 1]),
        names: m.names.update(d, name),
        compats: m.compats.update(d, Seq::empty()),
        regs: m.regs.update(d, None),
        clocks: m.clocks.update(d, 0),
        fbs: m.fbs.update(d, None),
        in_chosen: m.in_chosen || name == lit_chosen(),
        ..m
    }
}

/// Closing the current node: act on it, then pop one level.
pub open spec fn close_node(m: WalkModel) -> WalkModel {
    let d = m.depth;
    WalkModel {
        info: act_spec(
            m.info,
            m.names[d],
            m.compats[d],
            m.regs[d],
            m.clocks[d],
            m.fbs[d],
            m.stdout_path,
            m.in_chosen,
        ),
        in_chosen: if m.names[d] == lit_chosen() {
            false
        } else {
            m.in_chosen
        },
        depth: d - 1,
        ..m
    }
}

/// The walker stops where it stands.
pub open spec fn stop(m: WalkModel) -> WalkModel {
    WalkModel { done: true, ..m }
}

/// One token read while skipping a too-deep subtree.
pub open spec fn skip_step(sb: Seq<u8>, m: WalkModel, token: u32) -> WalkModel {
    let c = m.cursor;
    if token == FDT_BEGIN_NODE {
        let n = cstr_spec(sb, c + 4);
        WalkModel { cursor: align4(c + 4 + n.len() + 1), skip: m.skip + 1, ..m }
    } else if token == FDT_END_NODE {
        WalkModel { cursor: c + 4, skip: m.skip - 1, ..m }
    } else if token == FDT_PROP {
        match be32_spec(sb, c + 4) {
            Some(plen) => WalkModel { cursor: align4(c + 12 + plen), ..m },
            None => stop(m),
        }
    } else if token == FDT_NOP {
        WalkModel { cursor: c + 4, ..m }
    } else {
        stop(m)
    }
}

/// One token read at the current nesting level.
pub open spec fn node_step(sb: Seq<u8>, strs: Seq<u8>, m: WalkModel, token: u32) -> WalkModel {
    let c = m.cursor;
    if token == FDT_BEGIN_NODE {
        let name = cstr_spec(sb, c + 4);
        let next = align4(c + 4 + name.len() + 1);
        if m.depth + 1 >= MAX_DEPTH {
            WalkModel { cursor: next, skip: 1, ..m }
        } else {
            WalkModel { cursor: next, ..open_node(m, name) }
        }
    } else if token == FDT_END_NODE {
        if m.depth == 0 {
            stop(m)
        } else {
            WalkModel { cursor: c + 4, ..close_node(m) }
        }
    } else if token == FDT_PROP {
        match (be32_spec(sb, c + 4), be32_spec(sb, c + 8)) {
            (Some(plen), Some(nameoff)) => {
                let value_end = c + 12 + plen;
                if value_end > sb.len() {
                    stop(m)
                } else {
                    let m2 = prop_spec(m, cstr_spec(strs, nameoff as int), sb.subrange(c + 12, value_end));
                    WalkModel { cursor: align4(value_end), ..m2 }
                }
            },
            _ => stop(m),
        }
    } else if token == FDT_NOP {
        WalkModel { cursor: c + 4, ..m }
    } else {
        stop(m)
    }
}

/// One token of the structure block.
pub open spec fn step(sb: Seq<u8>, strs: Seq<u8>, m: WalkModel) -> WalkModel {
    let token = be32_spec(sb, m.cursor).unwrap();
    if m.skip > 0 {
        skip_step(sb, m, token)
    } else {
        node_step(sb, strs, m, token)
    }
}

/// Whether the walker reads another token from state `m`.
pub open spec fn running(sb: Seq<u8>, m: WalkModel) -> bool {
    !m.done && 0 <= m.cursor && m.cursor + 4 <= sb.len()
}

/// Termination measure of the walk.
pub open spec fn walk_measure(sb: Seq<u8>, m: WalkModel) -> int {
    (if 0 <= m.cursor <= sb.len() {
        sb.len() - m.cursor
    } else {
        0
    }) * 2 + (if m.done {
        0int
    } else {
        1int
    })
}

proof fn lemma_align4_ge(x: int)
    requires
        x >= 0,
    ensures
        x <= align4(x) <= x + 3,
{
    assert((x + 3) / 4 * 4 >= x && (x + 3) / 4 * 4 <= x + 3) by (nonlinear_arith)
        requires
            x >= 0,
    ;
}

/// Every token either stops the walk or moves the cursor forward.
pub proof fn lemma_step_progress(sb: Seq<u8>, strs: Seq<u8>, m: WalkModel)
    requires
        running(sb, m),
    ensures
        step(sb, strs, m).done || step(sb, strs, m).cursor >= m.cursor + 4,
        walk_measure(sb, step(sb, strs, m)) < walk_measure(sb, m),
        0 <= walk_measure(sb, step(sb, strs, m)),
{
    let c = m.cursor;
    lemma_align4_ge(c + 4 + cstr_spec(sb, c + 4).len() + 1);
    match be32_spec(sb, c + 4) {
        Some(plen) => {
            lemma_align4_ge(c + 12 + plen);
        },
        None => {},
    }
}

/// Run the walker from state `m` until it stops or runs out of tokens.
#[verifier::opaque]
pub open spec fn run(sb: Seq<u8>, strs: Seq<u8>, m: WalkModel) -> WalkModel
    decreases walk_measure(sb, m),
    when walk_measure(sb, m) >= 0
{
    if running(sb, m) {
        proof {
            lemma_step_progress(sb, strs, m);
        }
        run(sb, strs, step(sb, strs, m))
    } else {
        m
    }
}

/// A running walker's result is the result after its next token.
pub proof fn lemma_run_unfold(sb: Seq<u8>, strs: Seq<u8>, m: WalkModel)
    requires
        running(sb, m),
    ensures
        run(sb, strs, m) == run(sb, strs, step(sb, strs, m)),
{
    lemma_step_progress(sb, strs, m);
    reveal_with_fuel(run, 2);
}

/// A stopped walker's result is its current state.
pub proof fn lemma_run_stopped(sb: Seq<u8>, strs: Seq<u8>, m: WalkModel)
    requires
        !running(sb, m),
        walk_measure(sb, m) >= 0,
    ensures
        run(sb, strs, m) == m,
{
    reveal_with_fuel(run, 1);
}

/// The walker's state before the first token: at the root, with the
/// spec's default of 2 address cells and 1 size cell.
pub open spec fn initial_model(info: BootInfoModel) -> WalkModel {
    WalkModel {
        cursor: 0,
        skip: 0,
        done: false,
        depth: 0,
        address_cells: Seq::new(8, |i: int| 0u32).update(0, 2),
        size_cells: Seq::new(8, |i: int| 0u32).update(0, 1),
        stdout_path: Seq::empty(),
        in_chosen: false,
        names: Seq::new(8, |i: int| Seq::<u8>::empty()),
        compats: Seq::new(8, |i: int| Seq::<u8>::empty()),
        regs: Seq::new(8, |i: int| None),
        clocks: Seq::new(8, |i: int| 0u32),
        fbs: Seq::new(8, |i: int| None),
        info,
    }
}

/// The machine description after walking a whole structure block.
pub open spec fn walk_spec(sb: Seq<u8>, strs: Seq<u8>, info: BootInfoModel) -> BootInfoModel {
    run(sb, strs, initial_model(info)).info
}


/// The walker state of the executable walker, as a [`WalkModel`].
pub open spec fn model_of(
    cursor: int,
    skip: int,
    done: bool,
    ctx: WalkCtx,
    nodes: NodeFrames,
    info: BootInfoModel,
) -> WalkModel {
    WalkModel {
        cursor,
        skip,
        done,
        depth: ctx.depth as int,
        address_cells: ctx.address_cells@,
        size_cells: ctx.size_cells@,
        stdout_path: ctx.stdout_path@,
        in_chosen: ctx.in_chosen,
        names: nodes.name@.map_values(|s: &[u8]| s@),
        compats: nodes.compatible@.map_values(|s: &[u8]| s@),
        regs: nodes.reg@,
        clocks: nodes.clock@,
        fbs: nodes.fb@,
        info,
    }
}

/// A single framebuffer property.
pub enum FbField {
    Width(u32),
    Height(u32),
    Stride(u32),
    /// The pixel format named by a valid `format` string; `None` when the
    /// string was not UTF-8 (the entry is still created).
    Format(Option<PixelFormat>),
}

/// The framebuffer entry after one property is applied to it.
pub open spec fn apply_fb_field(f: FramebufferInfo, field: FbField) -> FramebufferInfo {
    match field {
        FbField::Width(v) => FramebufferInfo { width: v, ..f },
        FbField::Height(v) => FramebufferInfo { height: v, ..f },
        FbField::Stride(v) => FramebufferInfo { stride_bytes: v, ..f },
        FbField::Format(Some(p)) => FramebufferInfo { format: p, bpp: 32, ..f },
        FbField::Format(None) => f,
    }
}

/// Create the framebuffer entry at `depth` if needed, then set one field.
pub fn fb_set(fb_props: &mut [Option<FramebufferInfo>; 8], depth: usize, field: FbField)
    requires
        depth < MAX_DEPTH,
    ensures
        final(fb_props)@ == old(fb_props)@.update(
            depth as int,
            Some(apply_fb_field(fb_entry(old(fb_props)@[depth as int]), field)),
        ),
{
    let mut entry = match fb_props[depth] {
        Some(f) => f,
        None => FramebufferInfo {
            base: 0,
            width: 0,
            height: 0,
            stride_bytes: 0,
            bpp: 32,
            format: PixelFormat::Bgra8888,
        },
    };
    match field {
        FbField::Width(v) => {
            entry.width = v;
        },
        FbField::Height(v) => {
            entry.height = v;
        },
        FbField::Stride(v) => {
            entry.stride_bytes = v;
        },
        FbField::Format(Some(p)) => {
            entry.format = p;
            entry.bpp = 32;
        },
        FbField::Format(None) => {},
    }
    fb_props[depth] = Some(entry);
}

/// Read an address or size made of `cells` 32-bit cells at `offset`.
pub fn read_cells(bytes: &[u8], offset: usize, cells: usize) -> (r: u64)
    ensures
        r == read_cells_spec(bytes@, offset as int, cells as int),
{
    if cells == 1 {
        match be32(bytes, offset) {
            Some(v) => v as u64,
            None => 0,
        }
    } else if cells == 2 {
        match be64(bytes, offset) {
            Some(v) => v,
            None => 0,
        }
    } else {
        0
    }
}

fn be32_or_0(value: &[u8]) -> (r: u32)
    ensures
        r == be32_or_zero(value@),
{
    match be32(value, 0) {
        Some(v) => v,
        None => 0,
    }
}

/// Record one property of the node open at `depth`.
pub fn handle_prop<'a>(
    pname: &'a [u8],
    value: &'a [u8],
    depth: usize,
    ctx: &mut WalkCtx<'a>,
    nodes: &mut NodeFrames<'a>,
)
    requires
        depth == old(ctx).depth,
        depth < MAX_DEPTH,
    ensures
        final(ctx).depth == old(ctx).depth,
        forall|c: int, s: int, d: bool, i: BootInfoModel|
            #[trigger] model_of(c, s, d, *final(ctx), *final(nodes), i) == prop_spec(
                model_of(c, s, d, *old(ctx), *old(nodes), i),
                pname@,
                value@,
            ),
{
    let ghost m0 = model_of(0, 0, false, *ctx, *nodes, arbitrary());
    if is_address_cells(pname) {
        if let Some(v) = be32(value, 0) {
            ctx.address_cells[depth] = v;
        }
    } else if is_size_cells(pname) {
        if let Some(v) = be32(value, 0) {
            ctx.size_cells[depth] = v;
        }
    } else if is_compatible(pname) {
        let s = cstr(value, 0);
        nodes.compatible[depth] = s;
        proof {
            assert(nodes.compatible@.map_values(|s: &[u8]| s@) =~= m0.compats.update(
                depth as int,
                cstr_spec(value@, 0),
            ));
        }
    } else if is_reg(pname) {
        let parent = if depth >= 1 {
            depth - 1
        } else {
            0
        };
        let ac0 = ctx.address_cells[parent];
        let sc0 = ctx.size_cells[parent];
        let ac: usize = if ac0 == 0 {
            1
        } else {
            ac0 as usize
        };
        let sc: usize = if sc0 == 0 {
            1
        } else {
            sc0 as usize
        };
        let need: u64 = (ac as u64 + sc as u64) * 4;
        if (value.len() as u64) < need {
            return;
        }
        let addr = read_cells(value, 0, ac);
        let size = read_cells(value, ac * 4, sc);
        nodes.reg[depth] = Some((addr, size));
    } else if is_clock_frequency(pname) {
        if let Some(v) = be32(value, 0) {
            nodes.clock[depth] = v;
        }
    } else if is_stdout_path(pname) {
        if depth >= 1 && ctx.in_chosen {
            let end = find_byte(value, 0, 0);
            let s = vstd::slice::slice_subrange(value, 0, end);
            if is_utf8(s) {
                ctx.stdout_path = s;
            }
        }
    } else if is_width(pname) {
        fb_set(&mut nodes.fb, depth, FbField::Width(be32_or_0(value)));
    } else if is_height(pname) {
        fb_set(&mut nodes.fb, depth, FbField::Height(be32_or_0(value)));
    } else if is_stride(pname) {
        fb_set(&mut nodes.fb, depth, FbField::Stride(be32_or_0(value)));
    } else if is_format(pname) {
        let end = find_byte(value, 0, 0);
        let s = vstd::slice::slice_subrange(value, 0, end);
        let fmt = if is_utf8(s) {
            if is_a8b8g8r8(s) || is_x8b8g8r8(s) || is_r8g8b8a8(s) || is_r8g8b8x8(s) {
                Some(PixelFormat::Rgba8888)
            } else {
                Some(PixelFormat::Bgra8888)
            }
        } else {
            None
        };
        fb_set(&mut nodes.fb, depth, FbField::Format(fmt));
    }
}

/// Open a child node called `name` one level below the current one.
fn open_frame<'a>(ctx: &mut WalkCtx<'a>, nodes: &mut NodeFrames<'a>, name: &'a [u8])
    requires
        old(ctx).depth + 1 < MAX_DEPTH,
    ensures
        final(ctx).depth == old(ctx).depth + 1,
        forall|c: int, s: int, d: bool, i: BootInfoModel|
            #[trigger] model_of(c, s, d, *final(ctx), *final(nodes), i) == open_node(
                model_of(c, s, d, *old(ctx), *old(nodes), i),
                name@,
            ),
{
    let ghost m0 = model_of(0, 0, false, *ctx, *nodes, arbitrary());
    ctx.depth = ctx.depth + 1;
    let d = ctx.depth;
    ctx.address_cells[d] = ctx.address_cells[d - 1];
    ctx.size_cells[d] = ctx.size_cells[d - 1];
    let e = vstd::slice::slice_subrange(name, 0, 0);
    assert(e@ =~= Seq::<u8>::empty());
    nodes.compatible[d] = e;
    nodes.reg[d] = None;
    nodes.clock[d] = 0;
    nodes.name[d] = name;
    nodes.fb[d] = None;
    let is_ch = is_chosen(name);
    ctx.in_chosen = ctx.in_chosen || is_ch;
    proof {
        assert(nodes.name@.map_values(|s: &[u8]| s@) =~= m0.names.update(d as int, name@));
        assert(nodes.compatible@.map_values(|s: &[u8]| s@) =~= m0.compats.update(
            d as int,
            Seq::empty(),
        ));
    }
}

/// Close the current node: act on what it said, then pop one level.
fn close_frame(info: &mut BootInfo, ctx: &mut WalkCtx, nodes: &NodeFrames)
    requires
        0 < old(ctx).depth < MAX_DEPTH,
    ensures
        final(ctx).depth == old(ctx).depth - 1,
        forall|c: int, s: int, d: bool|
            #[trigger] model_of(c, s, d, *final(ctx), *nodes, final(info)@) == close_node(
                model_of(c, s, d, *old(ctx), *nodes, old(info)@),
            ),
{
    let d = ctx.depth;
    act_on_node(
        info,
        nodes.name[d],
        nodes.compatible[d],
        nodes.reg[d],
        nodes.clock[d],
        nodes.fb[d],
        ctx,
    );
    if is_chosen(nodes.name[d]) {
        ctx.in_chosen = false;
    }
    ctx.depth = d - 1;
}

/// One token read while skipping a too-deep subtree. Returns `false`
/// when the walk stops.
fn skip_token(sb: &[u8], cursor: &mut u64, skip: &mut u64) -> (go: bool)
    requires
        sb@.len() <= 0x7FFF_FFFF_FFFF_FFFF,
        *old(cursor) + 4 <= sb@.len(),
        0 < *old(skip) <= *old(cursor),
    ensures
        *final(cursor) <= sb@.len() + 0x1_0000_0010,
        *final(skip) <= *final(cursor),
        forall|ctx: WalkCtx, nodes: NodeFrames, i: BootInfoModel|
            model_of(*final(cursor) as int, *final(skip) as int, !go, ctx, nodes, i)
                == #[trigger] skip_step(
                sb@,
                model_of(*old(cursor) as int, *old(skip) as int, false, ctx, nodes, i),
                be32_spec(sb@, *old(cursor) as int).unwrap(),
            ),
{
    assert(sb@.len() == sb.len());
    let c = *cursor as usize;
    let token = be32(sb, c).unwrap();
    if token == FDT_BEGIN_NODE {
        let n = cstr(sb, c + 4);
        *cursor = align_up4(*cursor + 4 + n.len() as u64 + 1);
        *skip = *skip + 1;
        true
    } else if token == FDT_END_NODE {
        *cursor = *cursor + 4;
        *skip = *skip - 1;
        true
    } else if token == FDT_PROP {
        match be32(sb, c + 4) {
            Some(plen) => {
                *cursor = align_up4(*cursor + 12 + plen as u64);
                true
            },
            None => false,
        }
    } else if token == FDT_NOP {
        *cursor = *cursor + 4;
        true
    } else {
        false
    }
}

/// One token read at the current nesting level. Returns `false` when the
/// walk stops.
fn node_token<'a>(
    sb: &'a [u8],
    strs: &'a [u8],
    cursor: &mut u64,
    skip: &mut u64,
    ctx: &mut WalkCtx<'a>,
    nodes: &mut NodeFrames<'a>,
    info: &mut BootInfo,
) -> (go: bool)
    requires
        sb@.len() <= 0x7FFF_FFFF_FFFF_FFFF,
        *old(cursor) + 4 <= sb@.len(),
        *old(skip) == 0,
        old(ctx).depth < MAX_DEPTH,
    ensures
        *final(cursor) <= sb@.len() + 0x1_0000_0010,
        *final(skip) <= *final(cursor),
        final(ctx).depth < MAX_DEPTH,
        model_of(*final(cursor) as int, *final(skip) as int, !go, *final(ctx), *final(nodes), final(info)@)
            == node_step(
            sb@,
            strs@,
            model_of(*old(cursor) as int, 0, false, *old(ctx), *old(nodes), old(info)@),
            be32_spec(sb@, *old(cursor) as int).unwrap(),
        ),
{
    let ghost m = model_of(*cursor as int, 0, false, *ctx, *nodes, info@);
    assert(sb@.len() == sb.len());
    let c = *cursor as usize;
    let token = be32(sb, c).unwrap();
    if token == FDT_BEGIN_NODE {
        let name = cstr(sb, c + 4);
        let next = align_up4(*cursor + 4 + name.len() as u64 + 1);
        if ctx.depth + 1 >= MAX_DEPTH {
            *skip = 1;
        } else {
            open_frame(ctx, nodes, name);
        }
        *cursor = next;
        true
    } else if token == FDT_END_NODE {
        if ctx.depth == 0 {
            return false;
        }
        close_frame(info, ctx, nodes);
        *cursor = *cursor + 4;
        true
    } else if token == FDT_PROP {
        let plen = match be32(sb, c + 4) {
            Some(v) => v,
            None => {
                return false;
            },
        };
        let nameoff = match be32(sb, c + 8) {
            Some(v) => v,
            None => {
                return false;
            },
        };
        let value_end: u64 = *cursor + 12 + plen as u64;
        if value_end > sb.len() as u64 {
            return false;
        }
        let value = vstd::slice::slice_subrange(sb, c + 12, value_end as usize);
        let pname = cstr(strs, nameoff as usize);
        let depth = ctx.depth;
        handle_prop(pname, value, depth, ctx, nodes);
        *cursor = align_up4(value_end);
        true
    } else if token == FDT_NOP {
        *cursor = *cursor + 4;
        true
    } else {
        false
    }
}

/// Walk the FDT structure block, acting on each node as it closes. Any
/// block is accepted (the bound is the largest a slice can be): a
/// truncated or malformed one ends the walk where it stops making sense,
/// and nodes nested deeper than [`MAX_DEPTH`] are skipped.
pub fn walk(struct_block: &[u8], strings_block: &[u8], info: &mut BootInfo)
    requires
        struct_block@.len() <= 0x7FFF_FFFF_FFFF_FFFF,
    ensures
        final(info)@ == walk_spec(struct_block@, strings_block@, old(info)@),
{
    let sb = struct_block;
    let strs = strings_block;
    let empty = vstd::slice::slice_subrange(sb, 0, 0);
    let mut address_cells = [0u32; 8];
    let mut size_cells = [0u32; 8];
    address_cells[0] = 2;
    size_cells[0] = 1;
    let mut ctx = WalkCtx { depth: 0, address_cells, size_cells, stdout_path: empty, in_chosen: false };
    let mut nodes = NodeFrames {
        name: [empty; 8],
        compatible: [empty; 8],
        reg: [None; 8],
        clock: [0u32; 8],
        fb: [None; 8],
    };
    let mut cursor: u64 = 0;
    let mut skip: u64 = 0;
    let mut stopped = false;
    let ghost target = run(sb@, strs@, initial_model(info@));
    proof {
        let m = model_of(0, 0, false, ctx, nodes, info@);
        let im = initial_model(info@);
        assert(empty@ =~= Seq::<u8>::empty());
        assert(m.address_cells =~= im.address_cells);
        assert(m.size_cells =~= im.size_cells);
        assert(m.names =~= im.names);
        assert(m.compats =~= im.compats);
        assert(m.regs =~= im.regs);
        assert(m.clocks =~= im.clocks);
        assert(m.fbs =~= im.fbs);
        assert(m == im);
    }
    while !stopped && cursor + 4 <= sb.len() as u64
        invariant
            sb@.len() <= 0x7FFF_FFFF_FFFF_FFFF,
            ctx.depth < MAX_DEPTH,
            cursor <= sb@.len() + 0x1_0000_0010,
            skip <= cursor,
            target == run(sb@, strs@, initial_model(old(info)@)),
            walk_measure(sb@, model_of(cursor as int, skip as int, stopped, ctx, nodes, info@)) >= 0,
            run(sb@, strs@, model_of(cursor as int, skip as int, stopped, ctx, nodes, info@))
                == target,
        decreases walk_measure(sb@, model_of(cursor as int, skip as int, stopped, ctx, nodes, info@)),
    {
        let ghost m = model_of(cursor as int, skip as int, false, ctx, nodes, info@);
        let ghost tok = be32_spec(sb@, cursor as int).unwrap();
        proof {
            lemma_run_unfold(sb@, strs@, m);
            lemma_step_progress(sb@, strs@, m);
        }
        let go;
        if skip > 0 {
            go = skip_token(sb, &mut cursor, &mut skip);
            proof {
                assert(model_of(cursor as int, skip as int, !go, ctx, nodes, info@) == skip_step(
                    sb@,
                    m,
                    tok,
                ));
            }
        } else {
            go = node_token(sb, strs, &mut cursor, &mut skip, &mut ctx, &mut nodes, info);
        }
        stopped = !go;
        proof {
            assert(model_of(cursor as int, skip as int, stopped, ctx, nodes, info@) == step(sb@, strs@, m));
        }
    }
    proof {
        lemma_run_stopped(sb@, strs@, model_of(cursor as int, skip as int, stopped, ctx, nodes, info@));
    }
}

/// The QEMU `virt` fallback description with `fw_table_addr` set.
pub open spec fn virt_fallback_at(addr: u64) -> BootInfoModel {
    BootInfoModel {
        console: BootInfo::virt_console(),
        memory: seq![BootInfo::virt_ram()],
        intc: IntcSpec {
            kind: IntcKind::GicV2,
            primary: RegSpec { base: 0x0800_0000, size: 0x10000 },
            secondary: RegSpec { base: 0x0801_0000, size: 0x10000 },
        },
        timer_freq_hz: 0,
        framebuffer: None,
        fw_table_addr: addr,
    }
}

/// The total size a valid FDT header announces (`None` when the magic is
/// wrong or the size is smaller than the header itself).
pub open spec fn header_total_size(blob: Seq<u8>) -> Option<u32> {
    match (be32_spec(blob, 0), be32_spec(blob, 4)) {
        (Some(magic), Some(total)) => if magic == FDT_MAGIC && total >= FDT_HEADER_SIZE {
            Some(total)
        } else {
            None
        },
        _ => None,
    }
}

/// What parsing the device tree at `dtb_addr`, whose bytes start with
/// `blob`, yields.
pub open spec fn parse_spec(dtb_addr: u64, blob: Seq<u8>) -> BootInfoModel {
    let fallback = virt_fallback_at(dtb_addr);
    if dtb_addr == 0 {
        fallback
    } else {
        match header_total_size(blob) {
            Some(total) => if total > blob.len() {
                fallback
            } else {
                let image = blob.subrange(0, total as int);
                let off_struct = be32_spec(image, 8).unwrap() as int;
                let off_strings = be32_spec(image, 12).unwrap() as int;
                let strings_size = be32_spec(image, 32).unwrap() as int;
                let size_struct = be32_spec(image, 36).unwrap() as int;
                if off_struct + size_struct > total || off_strings + strings_size > total {
                    fallback
                } else {
                    walk_spec(
                        image.subrange(off_struct, off_struct + size_struct),
                        image.subrange(off_strings, off_strings + strings_size),
                        fallback,
                    )
                }
            },
            None => fallback,
        }
    }
}

/// Validate an FDT header and return the image size it announces, so the
/// caller knows how many bytes to map before calling [`parse_or_fallback`].
pub fn fdt_total_size(header: &[u8]) -> (r: Option<u32>)
    ensures
        r == header_total_size(header@),
{
    let magic = match be32(header, 0) {
        Some(v) => v,
        None => return None,
    };
    if magic != FDT_MAGIC {
        return None;
    }
    match be32(header, 4) {
        Some(v) => if v >= FDT_HEADER_SIZE {
            Some(v)
        } else {
            None
        },
        None => None,
    }
}

/// Parse the flattened device tree at `dtb_addr`, whose bytes (the whole
/// image that the header announces) are `blob`. Fields the tree does not
/// describe keep the QEMU `virt` fallback values; an address of 0, a bad
/// header, or inconsistent block offsets yield the fallback unchanged.
pub fn parse_or_fallback(dtb_addr: u64, blob: &[u8]) -> (r: BootInfo)
    ensures
        r@ == parse_spec(dtb_addr, blob@),
{
    let mut info = BootInfo::qemu_virt_fallback();
    info.fw_table_addr = dtb_addr;
    proof {
        assert(info@.memory =~= seq![BootInfo::virt_ram()]);
        assert(info@ == virt_fallback_at(dtb_addr));
    }
    if dtb_addr == 0 {
        return info;
    }
    let total = match fdt_total_size(blob) {
        Some(t) => t as usize,
        None => return info,
    };
    if total > blob.len() {
        return info;
    }
    let image = vstd::slice::slice_subrange(blob, 0, total);
    let off_struct = be32(image, 8).unwrap() as usize;
    let off_strings = be32(image, 12).unwrap() as usize;
    let strings_size = be32(image, 32).unwrap() as usize;
    let size_struct = be32(image, 36).unwrap() as usize;
    if off_struct as u64 + size_struct as u64 > total as u64 || off_strings as u64
        + strings_size as u64 > total as u64 {
        return info;
    }
    let struct_block = vstd::slice::slice_subrange(image, off_struct, off_struct + size_struct);
    let strings_block = vstd::slice::slice_subrange(
        image,
        off_strings,
        off_strings + strings_size,
    );
    walk(struct_block, strings_block, &mut info);
    info
}

/// Without a usable device tree (no address, or a header that is not a
/// valid FDT header) the boot description is the QEMU `virt` fallback,
/// with only the address recorded.
pub proof fn law_dtb_fallback(dtb_addr: u64, blob: Seq<u8>)
    requires
        dtb_addr == 0 || header_total_size(blob) is None,
    ensures
        parse_spec(dtb_addr, blob) == virt_fallback_at(dtb_addr),
{
}

/// A structure block that describes nothing (it is empty, or its first
/// token ends it) leaves every field of the description as it was.
pub proof fn law_walk_nothing_described(sb: Seq<u8>, strs: Seq<u8>, info: BootInfoModel)
    requires
        sb.len() < 4 || be32_spec(sb, 0) == Some(FDT_END),
    ensures
        walk_spec(sb, strs, info) == info,
{
    let m0 = initial_model(info);
    if sb.len() < 4 {
        lemma_run_stopped(sb, strs, m0);
    } else {
        lemma_run_unfold(sb, strs, m0);
        let m1 = step(sb, strs, m0);
        assert(m1 == stop(m0));
        lemma_run_stopped(sb, strs, m1);
    }
}

/// An unknown token ends the walk: from there on nothing changes, so the
/// description is what the walk had built up to that token.
pub proof fn law_unknown_token_ends_walk(sb: Seq<u8>, strs: Seq<u8>, m: WalkModel)
    requires
        running(sb, m),
        ({
            let t = be32_spec(sb, m.cursor).unwrap();
            t != FDT_BEGIN_NODE && t != FDT_END_NODE && t != FDT_PROP && t != FDT_NOP
        }),
    ensures
        step(sb, strs, m) == stop(m),
        run(sb, strs, m) == stop(m),
        run(sb, strs, m).info == m.info,
{
    lemma_run_unfold(sb, strs, m);
    lemma_step_progress(sb, strs, m);
    lemma_run_stopped(sb, strs, stop(m));
}

/// A node nested deeper than [`MAX_DEPTH`] is skipped: its opening
/// token starts skipping without touching the open-node frames or the
/// description, and every token read while skipping leaves the depth,
/// the frames, the `/chosen` state and the description unchanged.
pub proof fn law_deep_nodes_skipped(sb: Seq<u8>, strs: Seq<u8>, m: WalkModel)
    requires
        running(sb, m),
    ensures
        m.skip == 0 && m.depth + 1 >= MAX_DEPTH && be32_spec(sb, m.cursor).unwrap() == FDT_BEGIN_NODE ==> {
            let n = step(sb, strs, m);
            &&& n.skip == 1
            &&& n.depth == m.depth
            &&& n.names == m.names && n.compats == m.compats && n.regs == m.regs
            &&& n.clocks == m.clocks && n.fbs == m.fbs
            &&& n.address_cells == m.address_cells && n.size_cells == m.size_cells
            &&& n.info == m.info
        },
        m.skip > 0 ==> {
            let n = step(sb, strs, m);
            &&& n.depth == m.depth
            &&& n.names == m.names && n.compats == m.compats && n.regs == m.regs
            &&& n.clocks == m.clocks && n.fbs == m.fbs
            &&& n.address_cells == m.address_cells && n.size_cells == m.size_cells
            &&& n.stdout_path == m.stdout_path && n.in_chosen == m.in_chosen
            &&& n.info == m.info
        },
{
}

/// A `memory` node with a `reg` of non-zero size adds its bank behind
/// the banks already found, which are kept in order; the one exception
/// is the single QEMU `virt` fallback bank (1 GiB base, 256 MiB) of a
/// description built from a device tree, which the first real bank
/// replaces. Nothing but the memory map changes. (Banks past the cap of
/// [`MAX_MEMORY_REGIONS`] are dropped, so the map is taken below the
/// cap.)
pub proof fn law_memory_node_appends(
    info: BootInfoModel,
    name: Seq<u8>,
    compatible: Seq<u8>,
    base: u64,
    size: u64,
    clock_hz: u32,
    fb: Option<FramebufferInfo>,
    stdout_path: Seq<u8>,
    in_chosen: bool,
)
    requires
        is_prefix(lit_memory(), name),
        size > 0,
        info.memory.len() < MAX_MEMORY_REGIONS,
    ensures
        ({
            let r = act_spec(info, name, compatible, Some((base, size)), clock_hz, fb, stdout_path, in_chosen);
            let bank = MemoryRegion { base, size };
            let fallback = info.fw_table_addr != 0 && info.memory == seq![
                MemoryRegion { base: 0x4000_0000, size: 0x1000_0000 },
            ];
            &&& !fallback ==> r == BootInfoModel { memory: info.memory.push(bank), ..info }
            &&& fallback ==> r == BootInfoModel { memory: seq![bank], ..info }
            &&& r.memory.len() >= 1 && r.memory.last() == bank
            &&& !fallback ==> r.memory.take(info.memory.len() as int) == info.memory
        }),
{
    let bank = MemoryRegion { base, size };
    let fallback_bank = MemoryRegion { base: 0x4000_0000, size: 0x1000_0000 };
    if info.fw_table_addr != 0 && info.memory == seq![fallback_bank] {
        assert(is_fallback_ram(info.memory));
        assert(Seq::<MemoryRegion>::empty().push(bank) =~= seq![bank]);
    } else {
        if is_fallback_ram(info.memory) {
            assert(info.memory =~= seq![fallback_bank]);
        }
        assert(info.memory.push(bank).take(info.memory.len() as int) =~= info.memory);
    }
}

} // verus!
