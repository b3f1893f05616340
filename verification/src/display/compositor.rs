//! Tiny stacking compositor.
//!
//! The compositor takes a list of [`Layer`]s (each a [`Framebuffer`] plus
//! an `(x, y, z)` placement) and copies them onto its monitor in z order,
//! lowest first; layers with equal `z` keep the order in which they were
//! pushed. Alpha is binary: a source pixel whose alpha byte is 0 is
//! transparent, any other value is opaque.

use vstd::prelude::*;
use vstd::arithmetic::div_mod::lemma_fundamental_div_mod;
use vstd::arithmetic::div_mod::lemma_fundamental_div_mod_converse;
use crate::display::framebuffer::{Framebuffer, write4};
use crate::display::monitor::Monitor;

verus! {

/// Destination row of byte `i` of `dst`.
pub open spec fn dst_row(dst: Framebuffer, i: int) -> int {
    i / (dst.stride as int)
}

/// Destination pixel column of byte `i` of `dst`.
pub open spec fn dst_col(dst: Framebuffer, i: int) -> int {
    (i % (dst.stride as int)) / 4
}

/// Whether byte `i` of `dst` lies inside a visible pixel of `dst` that a
/// copy of `src` placed at `(x, y)` covers.
pub open spec fn blit_hits(dst: Framebuffer, src: Framebuffer, x: int, y: int, i: int) -> bool {
    &&& dst.stride > 0
    &&& dst_row(dst, i) < dst.height
    &&& dst_col(dst, i) < dst.width
    &&& 0 <= dst_col(dst, i) - x < src.width
    &&& 0 <= dst_row(dst, i) - y < src.height
}

/// Byte `k` of the source pixel at column `sx`, row `sy`.
pub open spec fn src_byte(src: Framebuffer, sx: int, sy: int, k: int) -> u8 {
    src.pixels@[sy * src.stride + 4 * sx + k]
}

/// `s` (the bytes of a buffer shaped like `dst`) after copying the opaque
/// pixels of `src` placed at `(x, y)`, for the source pixels on rows
/// before `rows`, and on row `rows` before column `cols`.
pub open spec fn blit_upto(
    s: Seq<u8>,
    dst: Framebuffer,
    src: Framebuffer,
    x: int,
    y: int,
    rows: int,
    cols: int,
) -> Seq<u8> {
    Seq::new(
        s.len(),
        |i: int|
            {
                let sx = dst_col(dst, i) - x;
                let sy = dst_row(dst, i) - y;
                if blit_hits(dst, src, x, y, i) && (sy < rows || (sy == rows && sx < cols))
                    && src_byte(src, sx, sy, 3) != 0 {
                    src_byte(src, sx, sy, (i % (dst.stride as int)) % 4)
                } else {
                    s[i]
                }
            },
    )
}

/// `s` after copying every opaque pixel of `src`, placed with its corner
/// at `(x, y)`, onto a buffer shaped like `dst`; the parts of `src` that
/// fall outside `dst` are dropped.
pub open spec fn blit_spec(s: Seq<u8>, dst: Framebuffer, src: Framebuffer, x: int, y: int) -> Seq<u8> {
    blit_upto(s, dst, src, x, y, src.height as int, 0)
}

/// The placement coordinates of a copy of `src` at `(x, y)` stay within
/// `i32` for every source row, and for every source column whenever some
/// source row lands on `dst`.
pub open spec fn blit_in_range(dst: Framebuffer, src: Framebuffer, x: i32, y: i32) -> bool {
    &&& src.height <= 0x8000_0000
    &&& src.height == 0 || y + (src.height - 1) <= i32::MAX
    &&& src.height == 0 || y >= dst.height || y + src.height <= 0 || src.width == 0 || x + (
    src.width - 1) <= i32::MAX
}

/// Copy the opaque pixels of `src` onto `dst` with the source corner at
/// `(x, y)`, clipping to `dst`.
fn blit(dst: &mut Framebuffer, src: &Framebuffer, x: i32, y: i32)
    requires
        old(dst).wf(),
        src.wf(),
        blit_in_range(*old(dst), *src, x, y),
    ensures
        final(dst).wf(),
        final(dst).width == old(dst).width,
        final(dst).height == old(dst).height,
        final(dst).stride == old(dst).stride,
        final(dst).format == old(dst).format,
        final(dst).pixels@ == blit_spec(old(dst).pixels@, *old(dst), *src, x as int, y as int),
{
    let ghost d0 = *dst;
    let ghost orig = dst.pixels@;
    let ghost ds = dst.stride as int;
    let mut sy: u32 = 0;
    while sy < src.height
        invariant
            sy <= src.height,
            src.wf(),
            dst.wf(),
            blit_in_range(d0, *src, x, y),
            dst.width == d0.width,
            dst.height == d0.height,
            dst.stride == d0.stride,
            dst.format == d0.format,
            ds == d0.stride,
            orig == d0.pixels@,
            dst.pixels@ == blit_upto(orig, d0, *src, x as int, y as int, sy as int, 0),
        decreases src.height - sy,
    {
        let dy = y + sy as i32;
        if dy < 0 || dy as u32 >= dst.height {
            proof {
                assert forall|i: int| 0 <= i < orig.len() implies #[trigger] dst.pixels@[i]
                    == blit_upto(orig, d0, *src, x as int, y as int, sy + 1, 0)[i] by {
                    if ds > 0 {
                        lemma_fundamental_div_mod(i, ds);
                    }
                }
                assert(dst.pixels@ =~= blit_upto(orig, d0, *src, x as int, y as int, sy + 1, 0));
            }
        } else {
            let mut sx: u32 = 0;
            while sx < src.width
                invariant
                    sy < src.height,
                    sx <= src.width,
                    0 <= dy < dst.height,
                    dy == y + sy,
                    src.wf(),
                    dst.wf(),
                    blit_in_range(d0, *src, x, y),
                    dst.width == d0.width,
                    dst.height == d0.height,
                    dst.stride == d0.stride,
                    dst.format == d0.format,
                    ds == d0.stride,
                    orig == d0.pixels@,
                    dst.pixels@ == blit_upto(orig, d0, *src, x as int, y as int, sy as int, sx as int),
                decreases src.width - sx,
            {
                let dx = x + sx as i32;
                let ghost before = dst.pixels@;
                if dx < 0 || dx as u32 >= dst.width {
                    proof {
                        assert forall|i: int| 0 <= i < orig.len() implies #[trigger] dst.pixels@[i]
                            == blit_upto(orig, d0, *src, x as int, y as int, sy as int, sx + 1)[i] by {
                            if ds > 0 {
                                lemma_fundamental_div_mod(i, ds);
                            }
                        }
                        assert(dst.pixels@ =~= blit_upto(
                            orig,
                            d0,
                            *src,
                            x as int,
                            y as int,
                            sy as int,
                            sx + 1,
                        ));
                    }
                } else {
                    proof {
                        lemma_pixel_offset(sy as int, src.height as int, src.stride as int, sx as int, src.width as int);
                        lemma_pixel_offset(dy as int, dst.height as int, ds, dx as int, dst.width as int);
                    }
                    let so = (sy * src.stride + sx * 4) as usize;
                    let do_ = (dy as u32 * dst.stride + dx as u32 * 4) as usize;
                    if src.pixels[so + 3] == 0 {
                        proof {
                            assert forall|i: int| 0 <= i < orig.len() implies #[trigger] dst.pixels@[i]
                                == blit_upto(orig, d0, *src, x as int, y as int, sy as int, sx + 1)[i] by {
                                if ds > 0 {
                                    lemma_fundamental_div_mod(i, ds);
                                }
                            }
                            assert(dst.pixels@ =~= blit_upto(
                                orig,
                                d0,
                                *src,
                                x as int,
                                y as int,
                                sy as int,
                                sx + 1,
                            ));
                        }
                    } else {
                        let p = [src.pixels[so], src.pixels[so + 1], src.pixels[so + 2], src.pixels[so + 3]];
                        write4(&mut dst.pixels, do_, p);
                        proof {
                            assert forall|i: int| 0 <= i < orig.len() implies #[trigger] dst.pixels@[i]
                                == blit_upto(orig, d0, *src, x as int, y as int, sy as int, sx + 1)[i] by {
                                lemma_fundamental_div_mod(i, ds);
                                lemma_fundamental_div_mod(i % ds, 4);
                                if do_ <= i < do_ + 4 {
                                    lemma_fundamental_div_mod_converse(i, ds, dy as int, 4 * dx + (i - do_));
                                    lemma_fundamental_div_mod_converse(4 * dx + (i - do_), 4, dx as int, i - do_);
                                } else if dst_row(d0, i) == dy && dst_col(d0, i) == dx {
                                    assert(ds * dst_row(d0, i) == dy * ds) by (nonlinear_arith)
                                        requires
                                            dst_row(d0, i) == dy,
                                    ;
                                    assert(false);
                                }
                            }
                            assert(dst.pixels@ =~= blit_upto(
                                orig,
                                d0,
                                *src,
                                x as int,
                                y as int,
                                sy as int,
                                sx + 1,
                            ));
                        }
                    }
                }
                sx = sx + 1;
            }
            proof {
                assert(dst.pixels@ =~= blit_upto(orig, d0, *src, x as int, y as int, sy + 1, 0));
            }
        }
        sy = sy + 1;
    }
}

/// A framebuffer placed with its corner at `(x, y)` on the monitor, at
/// stacking height `z` (higher is drawn later, so on top).
pub struct Layer {
    pub fb: Framebuffer,
    pub x: i32,
    pub y: i32,
    pub z: i32,
}

/// Whether layer `a` is drawn before layer `b`: lower `z` first, and for
/// equal `z` the one pushed first.
pub open spec fn z_before(layers: Seq<Layer>, a: int, b: int) -> bool {
    layers[a].z < layers[b].z || (layers[a].z == layers[b].z && a < b)
}

/// Whether `o` lists every layer index once, in drawing order (a stable
/// sort of the layers by `z`).
pub open spec fn is_z_order(layers: Seq<Layer>, o: Seq<usize>) -> bool {
    &&& o.len() == layers.len()
    &&& forall|k: int| 0 <= k < o.len() ==> #[trigger] o[k] < layers.len()
    &&& forall|a: int, b: int| 0 <= a < b < o.len() ==> z_before(layers, #[trigger] o[a] as int, #[trigger] o[b] as int)
}

/// `s` (the bytes of a buffer shaped like `dst`) after copying the layers
/// listed in `o` onto it, in that order.
pub open spec fn composite(s: Seq<u8>, dst: Framebuffer, layers: Seq<Layer>, o: Seq<usize>) -> Seq<u8>
    decreases o.len(),
{
    if o.len() == 0 {
        s
    } else {
        let l = layers[o.last() as int];
        blit_spec(composite(s, dst, layers, o.drop_last()), dst, l.fb, l.x as int, l.y as int)
    }
}

/// Whether the layer `l` puts an opaque pixel on byte `i` of `dst`.
pub open spec fn covers(dst: Framebuffer, l: Layer, i: int) -> bool {
    &&& blit_hits(dst, l.fb, l.x as int, l.y as int, i)
    &&& src_byte(l.fb, dst_col(dst, i) - l.x, dst_row(dst, i) - l.y, 3) != 0
}

/// The layer drawn last wins: where it has an opaque pixel, the
/// composited byte is that pixel's byte.
pub proof fn law_top_layer_wins(s: Seq<u8>, dst: Framebuffer, layers: Seq<Layer>, o: Seq<usize>, i: int)
    requires
        o.len() > 0,
        0 <= i < s.len(),
        covers(dst, layers[o.last() as int], i),
    ensures
        ({
            let l = layers[o.last() as int];
            composite(s, dst, layers, o)[i] == src_byte(
                l.fb,
                dst_col(dst, i) - l.x,
                dst_row(dst, i) - l.y,
                (i % (dst.stride as int)) % 4,
            )
        }),
{
    lemma_composite_len(s, dst, layers, o.drop_last());
}

/// Where no layer puts an opaque pixel, the background shows through.
pub proof fn law_background_shows_through(s: Seq<u8>, dst: Framebuffer, layers: Seq<Layer>, o: Seq<usize>, i: int)
    requires
        0 <= i < s.len(),
        forall|k: int| 0 <= k < o.len() ==> !covers(dst, #[trigger] layers[o[k] as int], i),
    ensures
        composite(s, dst, layers, o)[i] == s[i],
    decreases o.len(),
{
    if o.len() > 0 {
        let p = o.drop_last();
        assert forall|k: int| 0 <= k < p.len() implies !covers(dst, #[trigger] layers[p[k] as int], i) by {
            assert(p[k] == o[k]);
        }
        law_background_shows_through(s, dst, layers, p, i);
        lemma_composite_len(s, dst, layers, p);
        assert(!covers(dst, layers[o[o.len() - 1] as int], i));
    }
}

/// Compositing keeps the length of the buffer.
proof fn lemma_composite_len(s: Seq<u8>, dst: Framebuffer, layers: Seq<Layer>, o: Seq<usize>)
    ensures
        composite(s, dst, layers, o).len() == s.len(),
    decreases o.len(),
{
    if o.len() > 0 {
        lemma_composite_len(s, dst, layers, o.drop_last());
    }
}

/// Compositing depends on the destination only through its shape.
proof fn lemma_composite_shape(s: Seq<u8>, d1: Framebuffer, d2: Framebuffer, layers: Seq<Layer>, o: Seq<usize>)
    requires
        d1.stride == d2.stride,
        d1.width == d2.width,
        d1.height == d2.height,
    ensures
        composite(s, d1, layers, o) == composite(s, d2, layers, o),
    decreases o.len(),
{
    if o.len() > 0 {
        lemma_composite_shape(s, d1, d2, layers, o.drop_last());
        let l = layers[o.last() as int];
        let prev = composite(s, d1, layers, o.drop_last());
        assert(blit_spec(prev, d1, l.fb, l.x as int, l.y as int) =~= blit_spec(prev, d2, l.fb, l.x as int, l.y as int));
    }
}

/// Whether every layer of `layers` can be copied onto `dst`.
pub open spec fn layers_fit(dst: Framebuffer, layers: Seq<Layer>) -> bool {
    forall|k: int| 0 <= k < layers.len() ==> #[trigger] layers[k].fb.wf() && blit_in_range(dst, layers[k].fb, layers[k].x, layers[k].y)
}

/// Abstract state of a compositor.
pub struct CompositorModel {
    pub monitor: Monitor,
    pub layers: Seq<Layer>,
    pub background: Seq<u8>,
}

/// Stacking compositor for a single monitor.
pub struct Compositor {
    pub monitor: Monitor,
    layers: Vec<Layer>,
    background: [u8; 4],
}

impl View for Compositor {
    type V = CompositorModel;

    closed spec fn view(&self) -> CompositorModel {
        CompositorModel { monitor: self.monitor, layers: self.layers@, background: self.background@ }
    }
}

impl Compositor {
    /// A compositor for `monitor` with no layers and a dark blue-grey
    /// background.
    pub fn new(monitor: Monitor) -> (c: Self)
        ensures
            c@.monitor == monitor,
            c@.layers == Seq::<Layer>::empty(),
            c@.background == seq![0x10u8, 0x18u8, 0x24u8, 0xffu8],
    {
        let c = Compositor { monitor, layers: Vec::new(), background: [0x10, 0x18, 0x24, 0xff] };
        assert(c@.background =~= seq![0x10u8, 0x18u8, 0x24u8, 0xffu8]);
        c
    }

    pub fn set_background(&mut self, rgba: [u8; 4])
        ensures
            final(self)@.background == rgba@,
            final(self)@.monitor == old(self)@.monitor,
            final(self)@.layers == old(self)@.layers,
    {
        self.background = rgba;
    }

    /// Add `layer` on top of the ones pushed so far.
    pub fn push_layer(&mut self, layer: Layer)
        ensures
            final(self)@.layers == old(self)@.layers.push(layer),
            final(self)@.monitor == old(self)@.monitor,
            final(self)@.background == old(self)@.background,
    {
        self.layers.push(layer);
    }

    /// Drop every layer.
    pub fn clear_layers(&mut self)
        ensures
            final(self)@.layers == Seq::<Layer>::empty(),
            final(self)@.monitor == old(self)@.monitor,
            final(self)@.background == old(self)@.background,
    {
        self.layers.clear();
    }

    /// Redraw the monitor: fill it with the background colour, then copy
    /// every layer onto it in drawing order.
    pub fn render(&mut self)
        requires
            old(self)@.monitor.fb.wf(),
            layers_fit(old(self)@.monitor.fb, old(self)@.layers),
        ensures
            final(self)@.layers == old(self)@.layers,
            final(self)@.background == old(self)@.background,
            final(self)@.monitor.name == old(self)@.monitor.name,
            final(self)@.monitor.kind == old(self)@.monitor.kind,
            final(self)@.monitor.width == old(self)@.monitor.width,
            final(self)@.monitor.height == old(self)@.monitor.height,
            final(self)@.monitor.id == old(self)@.monitor.id,
            final(self)@.monitor.fb.wf(),
            final(self)@.monitor.fb.width == old(self)@.monitor.fb.width,
            final(self)@.monitor.fb.height == old(self)@.monitor.fb.height,
            final(self)@.monitor.fb.stride == old(self)@.monitor.fb.stride,
            final(self)@.monitor.fb.format == old(self)@.monitor.fb.format,
            exists|o: Seq<usize>|
                is_z_order(old(self)@.layers, o) && final(self)@.monitor.fb.pixels@ == composite(
                    old(self)@.monitor.fb.clear_spec(old(self)@.background),
                    old(self)@.monitor.fb,
                    old(self)@.layers,
                    o,
                ),
    {
        let ord = z_order(&self.layers);
        let bg = self.background;
        let t = self.monitor.with_framebuffer();
        t.clear(bg);
        let ghost cleared = *t;
        composite_layers(t, &self.layers, &ord);
        proof {
            lemma_composite_shape(cleared.pixels@, cleared, old(self)@.monitor.fb, self.layers@, ord@);
        }
    }
}

/// The layer indices in drawing order: a stable insertion sort by `z`.
fn z_order(layers: &Vec<Layer>) -> (o: Vec<usize>)
    ensures
        is_z_order(layers@, o@),
{
    let mut ord: Vec<usize> = Vec::new();
    let mut i: usize = 0;
    while i < layers.len()
        invariant
            i <= layers@.len(),
            is_z_order(layers@.take(i as int), ord@),
        decreases layers.len() - i,
    {
        let zi = layers[i].z;
        let mut p: usize = 0;
        while p < ord.len() && layers[ord[p]].z <= zi
            invariant
                i < layers@.len(),
                zi == layers@[i as int].z,
                p <= ord@.len(),
                is_z_order(layers@.take(i as int), ord@),
                forall|q: int| 0 <= q < p ==> layers@[#[trigger] ord@[q] as int].z <= zi,
            decreases ord.len() - p,
        {
            p = p + 1;
        }
        let ghost before = ord@;
        proof {
            assert forall|q: int| p <= q < before.len() implies layers@[#[trigger] before[q] as int].z > zi by {
                if q > p {
                    assert(z_before(layers@.take(i as int), before[p as int] as int, before[q] as int));
                }
            }
        }
        ord.insert(p, i);
        proof {
            let lt = layers@.take(i + 1);
            assert forall|k: int| 0 <= k < ord@.len() implies #[trigger] ord@[k] < lt.len() by {
                if k < p {
                } else if k > p {
                    assert(ord@[k] == before[k - 1]);
                }
            }
            assert forall|a: int, b: int| 0 <= a < b < ord@.len() implies z_before(lt, #[trigger] ord@[a] as int, #[trigger] ord@[b] as int) by {
                if b < p {
                    assert(z_before(layers@.take(i as int), before[a] as int, before[b] as int));
                } else if b == p {
                    assert(layers@[before[a] as int].z <= zi);
                } else if a < p {
                    assert(z_before(layers@.take(i as int), before[a] as int, before[b - 1] as int));
                } else if a == p {
                    assert(layers@[before[b - 1] as int].z > zi);
                } else {
                    assert(z_before(layers@.take(i as int), before[a - 1] as int, before[b - 1] as int));
                }
            }
        }
        i = i + 1;
    }
    assert(layers@.take(layers@.len() as int) =~= layers@);
    ord
}

/// Copy the layers listed in `ord` onto `target`, in that order.
fn composite_layers(target: &mut Framebuffer, layers: &Vec<Layer>, ord: &Vec<usize>)
    requires
        old(target).wf(),
        layers_fit(*old(target), layers@),
        forall|k: int| 0 <= k < ord@.len() ==> #[trigger] ord@[k] < layers@.len(),
    ensures
        final(target).wf(),
        final(target).width == old(target).width,
        final(target).height == old(target).height,
        final(target).stride == old(target).stride,
        final(target).format == old(target).format,
        final(target).pixels@ == composite(old(target).pixels@, *old(target), layers@, ord@),
{
    let ghost t0 = *target;
    let mut k: usize = 0;
    while k < ord.len()
        invariant
            k <= ord@.len(),
            target.wf(),
            target.width == t0.width,
            target.height == t0.height,
            target.stride == t0.stride,
            target.format == t0.format,
            layers_fit(t0, layers@),
            forall|j: int| 0 <= j < ord@.len() ==> #[trigger] ord@[j] < layers@.len(),
            target.pixels@ == composite(t0.pixels@, t0, layers@, ord@.take(k as int)),
        decreases ord.len() - k,
    {
        let l = &layers[ord[k]];
        assert(layers@[ord@[k as int] as int].fb.wf());
        blit(target, &l.fb, l.x, l.y);
        assert(ord@.take(k + 1).drop_last() =~= ord@.take(k as int));
        k = k + 1;
    }
    assert(ord@.take(ord@.len() as int) =~= ord@);
}

/// Byte offset of pixel `(c, r)` in a buffer of `h` rows of `stride`
/// bytes holding `w` pixels per row.
proof fn lemma_pixel_offset(r: int, h: int, stride: int, c: int, w: int)
    requires
        0 <= r < h,
        0 <= c < w,
        4 * w <= stride,
    ensures
        0 <= r * stride,
        r * stride + 4 * c + 4 <= h * stride,
{
    assert(0 <= r * stride) by (nonlinear_arith)
        requires
            0 <= r,
            0 <= stride,
    ;
    assert(r * stride + 4 * c + 4 <= h * stride) by (nonlinear_arith)
        requires
            0 <= r < h,
            0 <= c < w,
            4 * w <= stride,
    ;
}

} // verus!
