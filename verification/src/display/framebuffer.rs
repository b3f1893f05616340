//! Linear, row-major pixel buffers.
//!
//! A [`Framebuffer`] is a heap-allocated pixel buffer with a known width,
//! height, stride (bytes per row) and pixel format. Every pixel takes four
//! bytes; the default layout is 32-bit BGRA in little-endian order, the one
//! virtio-gpu and QEMU's `bochs-display` expect.
//!
//! Contracts speak of the buffer as a byte sequence. Byte `i` lies on row
//! `i / stride` at byte column `i % stride`; pixel column `c` of a row
//! covers byte columns `4 * c .. 4 * c + 4`.

use vstd::prelude::*;
use vstd::arithmetic::div_mod::lemma_fundamental_div_mod;
use vstd::arithmetic::div_mod::lemma_fundamental_div_mod_converse;
use vstd::arithmetic::mul::lemma_mul_inequality;

verus! {

/// Byte order of one pixel.
#[derive(Debug, Clone, Copy, PartialEq, Eq, Structural)]
pub enum PixelFormat {
    /// Bytes B, G, R, A.
    Bgra8,
    /// Bytes R, G, B, A.
    Rgba8,
}

impl PixelFormat {
    /// Bytes one pixel occupies: four for both layouts.
    pub fn bytes_per_pixel(self) -> (n: usize)
        ensures
            n == 4,
    {
        match self {
            PixelFormat::Bgra8 => 4,
            PixelFormat::Rgba8 => 4,
        }
    }
}

/// The four bytes that store colour `(rgba[0], rgba[1], rgba[2], rgba[3])`
/// (red, green, blue, alpha) in layout `format`.
pub open spec fn encode_spec(format: PixelFormat, rgba: Seq<u8>) -> Seq<u8> {
    match format {
        PixelFormat::Bgra8 => seq![rgba[2], rgba[1], rgba[0], rgba[3]],
        PixelFormat::Rgba8 => seq![rgba[0], rgba[1], rgba[2], rgba[3]],
    }
}

/// `s` with the four bytes at `off` replaced by `p`.
pub open spec fn put4(s: Seq<u8>, off: int, p: Seq<u8>) -> Seq<u8> {
    Seq::new(s.len(), |i: int| if off <= i < off + 4 { p[i - off] } else { s[i] })
}

/// The smaller of two integers.
pub open spec fn min_int(a: int, b: int) -> int {
    if a <= b {
        a
    } else {
        b
    }
}

/// Whether byte `i` of a buffer with row pitch `stride` lies in the pixel
/// rectangle of rows `y .. y_end` and pixel columns `x .. x_end`.
pub open spec fn in_rect(stride: int, x: int, y: int, x_end: int, y_end: int, i: int) -> bool {
    &&& stride > 0
    &&& y <= i / stride < y_end
    &&& 4 * x <= i % stride < 4 * x_end
}

/// `s` with every byte of the pixel rectangle (`x .. x_end`, `y .. y_end`)
/// set to the matching byte of the encoded pixel `pix`.
pub open spec fn paint_rect(
    s: Seq<u8>,
    stride: int,
    x: int,
    y: int,
    x_end: int,
    y_end: int,
    pix: Seq<u8>,
) -> Seq<u8> {
    Seq::new(
        s.len(),
        |i: int|
            if in_rect(stride, x, y, x_end, y_end, i) {
                pix[(i % stride - 4 * x) % 4]
            } else {
                s[i]
            },
    )
}

/// A linear, row-major pixel buffer.
pub struct Framebuffer {
    pub width: u32,
    pub height: u32,
    /// Bytes per row.
    pub stride: u32,
    pub format: PixelFormat,
    pub pixels: Vec<u8>,
}

impl Framebuffer {
    /// The buffer holds `height` rows of `stride` bytes, each row has room
    /// for `width` pixels, and every byte offset fits in a `u32`.
    pub open spec fn wf(&self) -> bool {
        &&& self.stride * self.height <= u32::MAX
        &&& self.pixels@.len() == self.stride * self.height
        &&& 4 * self.width <= self.stride
    }

    /// The pixel bytes after filling the buffer with colour `rgba`: every
    /// complete group of four bytes holds the encoded pixel, a trailing
    /// partial group keeps its bytes.
    pub open spec fn clear_spec(&self, rgba: Seq<u8>) -> Seq<u8> {
        Seq::new(
            self.pixels@.len(),
            |i: int|
                if i < 4 * (self.pixels@.len() / 4) {
                    encode_spec(self.format, rgba)[i % 4]
                } else {
                    self.pixels@[i]
                },
        )
    }

    /// `s` after filling the rectangle at `(x, y)` of size `w` x `h`,
    /// clipped to this buffer's dimensions, with the encoded pixel `pix`.
    pub open spec fn paint_clipped(&self, s: Seq<u8>, x: int, y: int, w: int, h: int, pix: Seq<u8>) -> Seq<u8> {
        paint_rect(
            s,
            self.stride as int,
            x,
            y,
            min_int(x + w, self.width as int),
            min_int(y + h, self.height as int),
            pix,
        )
    }

    /// The pixel bytes after filling the rectangle at `(x, y)` of size
    /// `w` x `h`, clipped to the buffer, with colour `rgba`.
    pub open spec fn fill_spec(&self, x: u32, y: u32, w: u32, h: u32, rgba: Seq<u8>) -> Seq<u8> {
        self.paint_clipped(self.pixels@, x as int, y as int, w as int, h as int, encode_spec(self.format, rgba))
    }

    /// The pixel bytes after drawing the one-pixel outline of the
    /// rectangle at `(x, y)` of size `w` x `h` (both at least one): the top
    /// row, then the bottom row, then the left and the right column, each
    /// clipped to the buffer.
    pub open spec fn stroke_spec(&self, x: u32, y: u32, w: u32, h: u32, rgba: Seq<u8>) -> Seq<u8> {
        let pix = encode_spec(self.format, rgba);
        let top = self.paint_clipped(self.pixels@, x as int, y as int, w as int, 1, pix);
        let bottom = self.paint_clipped(top, x as int, y + h - 1, w as int, 1, pix);
        let left = self.paint_clipped(bottom, x as int, y as int, 1, h as int, pix);
        self.paint_clipped(left, x + w - 1, y as int, 1, h as int, pix)
    }

    /// A zeroed `width` x `height` buffer with four bytes per pixel and no
    /// padding between rows.
    pub fn new(width: u32, height: u32, format: PixelFormat) -> (fb: Self)
        requires
            4 * width <= u32::MAX,
            4 * width * height <= u32::MAX,
        ensures
            fb.wf(),
            fb.width == width,
            fb.height == height,
            fb.stride == 4 * width,
            fb.format == format,
            fb.pixels@ == Seq::new((4 * width * height) as nat, |i: int| 0u8),
    {
        let bpp = format.bytes_per_pixel() as u32;
        assert(width * bpp == 4 * width) by (nonlinear_arith)
            requires
                bpp == 4,
        ;
        let stride = width * bpp;
        assert(stride * height == 4 * width * height);
        let len = stride * height;
        let mut pixels: Vec<u8> = Vec::new();
        let mut i: u32 = 0;
        while i < len
            invariant
                i <= len,
                pixels@.len() == i,
                forall|j: int| 0 <= j < i ==> pixels@[j] == 0u8,
            decreases len - i,
        {
            pixels.push(0u8);
            i = i + 1;
        }
        assert(pixels@ =~= Seq::new((4 * width * height) as nat, |i: int| 0u8));
        Framebuffer { width, height, stride, format, pixels }
    }

    /// Encode `(r, g, b, a)` for the buffer's pixel format.
    pub fn encode_rgba(&self, r: u8, g: u8, b: u8, a: u8) -> (pix: [u8; 4])
        ensures
            pix@ == encode_spec(self.format, seq![r, g, b, a]),
    {
        match self.format {
            PixelFormat::Bgra8 => [b, g, r, a],
            PixelFormat::Rgba8 => [r, g, b, a],
        }
    }

    /// Set the pixel at column `x`, row `y` to colour `rgba`. Writes
    /// outside the buffer are ignored.
    pub fn put_pixel(&mut self, x: u32, y: u32, rgba: [u8; 4])
        requires
            old(self).wf(),
        ensures
            final(self).wf(),
            final(self).width == old(self).width,
            final(self).height == old(self).height,
            final(self).stride == old(self).stride,
            final(self).format == old(self).format,
            final(self).pixels@ == if x < old(self).width && y < old(self).height {
                put4(
                    old(self).pixels@,
                    y * old(self).stride + 4 * x,
                    encode_spec(old(self).format, rgba@),
                )
            } else {
                old(self).pixels@
            },
    {
        if x >= self.width || y >= self.height {
            return;
        }
        proof {
            lemma_row_offset(y as int, self.height as int, self.stride as int, 4 * x + 4);
        }
        let off = (y * self.stride + x * 4) as usize;
        let pix = self.encode_rgba(rgba[0], rgba[1], rgba[2], rgba[3]);
        assert(seq![rgba[0], rgba[1], rgba[2], rgba[3]] =~= rgba@);
        write4(&mut self.pixels, off, pix);
    }

    /// Fill the whole buffer with colour `rgba`: every complete group of
    /// four bytes gets the encoded pixel; a trailing partial group (only
    /// possible with a stride that is not a multiple of four) is left as
    /// it was.
    pub fn clear(&mut self, rgba: [u8; 4])
        requires
            old(self).wf(),
        ensures
            final(self).wf(),
            final(self).width == old(self).width,
            final(self).height == old(self).height,
            final(self).stride == old(self).stride,
            final(self).format == old(self).format,
            final(self).pixels@ == old(self).clear_spec(rgba@),
    {
        let pix = self.encode_rgba(rgba[0], rgba[1], rgba[2], rgba[3]);
        assert(seq![rgba[0], rgba[1], rgba[2], rgba[3]] =~= rgba@);
        let ghost enc = pix@;
        let ghost orig = self.pixels@;
        let n = self.pixels.len() / 4;
        let mut k: usize = 0;
        while k < n
            invariant
                n == orig.len() / 4,
                k <= n,
                self.pixels@.len() == orig.len(),
                self.pixels@ == Seq::new(
                    orig.len(),
                    |i: int|
                        if i < 4 * k {
                            enc[i % 4]
                        } else {
                            orig[i]
                        },
                ),
                self.width == old(self).width,
                self.height == old(self).height,
                self.stride == old(self).stride,
                self.format == old(self).format,
                self.wf(),
                pix@ == enc,
            decreases n - k,
        {
            let ghost before = self.pixels@;
            write4(&mut self.pixels, 4 * k, pix);
            assert forall|i: int| 0 <= i < orig.len() implies #[trigger] self.pixels@[i] == (
            if i < 4 * (k + 1) {
                enc[i % 4]
            } else {
                orig[i]
            }) by {
                if 4 * k <= i < 4 * k + 4 {
                    lemma_fundamental_div_mod_converse(i, 4, k as int, i - 4 * k);
                }
            }
            assert(self.pixels@ =~= Seq::new(
                orig.len(),
                |i: int|
                    if i < 4 * (k + 1) {
                        enc[i % 4]
                    } else {
                        orig[i]
                    },
            ));
            k = k + 1;
        }
    }

    /// Fill the pixel rectangle with corner `(x, y)` and size `w` x `h`,
    /// clipped to the buffer, with colour `rgba`.
    pub fn fill_rect(&mut self, x: u32, y: u32, w: u32, h: u32, rgba: [u8; 4])
        requires
            old(self).wf(),
            x + w <= u32::MAX,
            y + h <= u32::MAX,
            x <= old(self).width || h == 0 || y >= old(self).height,
        ensures
            final(self).wf(),
            final(self).width == old(self).width,
            final(self).height == old(self).height,
            final(self).stride == old(self).stride,
            final(self).format == old(self).format,
            final(self).pixels@ == old(self).fill_spec(x, y, w, h, rgba@),
    {
        let pix = self.encode_rgba(rgba[0], rgba[1], rgba[2], rgba[3]);
        assert(seq![rgba[0], rgba[1], rgba[2], rgba[3]] =~= rgba@);
        let ghost enc = pix@;
        let ghost orig = self.pixels@;
        let ghost stride = self.stride as int;
        let x_end = if x + w < self.width {
            x + w
        } else {
            self.width
        };
        let y_end = if y + h < self.height {
            y + h
        } else {
            self.height
        };
        let mut yy = y;
        while yy < y_end
            invariant
                y <= yy,
                yy <= y_end || yy == y,
                y_end <= self.height,
                x_end <= self.width,
                x_end == min_int(x + w, self.width as int),
                y_end == min_int(y + h, self.height as int),
                x <= self.width || h == 0 || y >= self.height,
                stride == self.stride,
                self.wf(),
                self.width == old(self).width,
                self.height == old(self).height,
                self.stride == old(self).stride,
                self.format == old(self).format,
                orig == old(self).pixels@,
                enc == encode_spec(self.format, rgba@),
                pix@ == enc,
                self.pixels@ == paint_rect(orig, stride, x as int, y as int, x_end as int, yy as int, enc),
            decreases y_end - yy,
        {
            proof {
                lemma_row_offset(yy as int, self.height as int, stride, 4 * x as int);
            }
            let row_start = (yy * self.stride + x * 4) as usize;
            let n = x_end - x;
            let mut xx: u32 = 0;
            while xx < n
                invariant
                    y <= yy < y_end,
                    y_end <= self.height,
                    x <= x_end <= self.width,
                    n == x_end - x,
                    xx <= n,
                    row_start == yy * stride + 4 * x,
                    stride == self.stride,
                    self.wf(),
                    self.width == old(self).width,
                    self.height == old(self).height,
                    self.stride == old(self).stride,
                    self.format == old(self).format,
                    pix@ == enc,
                    self.pixels@ == Seq::new(
                        orig.len(),
                        |i: int|
                            if in_rect(stride, x as int, y as int, x_end as int, yy as int, i)
                                || in_rect(stride, x as int, yy as int, x + xx, yy + 1, i) {
                                enc[(i % stride - 4 * x) % 4]
                            } else {
                                orig[i]
                            },
                    ),
                decreases n - xx,
            {
                proof {
                    lemma_row_offset(yy as int, self.height as int, stride, 4 * x + 4 * xx + 4);
                }
                let off = row_start + (xx as usize) * 4;
                let ghost prev = self.pixels@;
                write4(&mut self.pixels, off, pix);
                proof {
                    assert forall|i: int| 0 <= i < orig.len() implies #[trigger] self.pixels@[i] == (
                    if in_rect(stride, x as int, y as int, x_end as int, yy as int, i)
                        || in_rect(stride, x as int, yy as int, x + xx + 1, yy + 1, i) {
                        enc[(i % stride - 4 * x) % 4]
                    } else {
                        orig[i]
                    }) by {
                        lemma_fundamental_div_mod(i, stride);
                        if off <= i < off + 4 {
                            lemma_fundamental_div_mod_converse(
                                i,
                                stride,
                                yy as int,
                                4 * x + 4 * xx + (i - off),
                            );
                            lemma_fundamental_div_mod_converse(
                                4 * xx + (i - off),
                                4,
                                xx as int,
                                i - off,
                            );
                        } else if i / stride == yy {
                            assert(stride * (i / stride) == yy * stride) by (nonlinear_arith)
                                requires
                                    i / stride == yy,
                            ;
                            assert(!(4 * x + 4 * xx <= i % stride < 4 * x + 4 * xx + 4));
                        }
                    }
                    assert(self.pixels@ =~= Seq::new(
                        orig.len(),
                        |i: int|
                            if in_rect(stride, x as int, y as int, x_end as int, yy as int, i)
                                || in_rect(stride, x as int, yy as int, x + xx + 1, yy + 1, i) {
                                enc[(i % stride - 4 * x) % 4]
                            } else {
                                orig[i]
                            },
                    ));
                }
                xx = xx + 1;
            }
            assert(self.pixels@ =~= paint_rect(
                orig,
                stride,
                x as int,
                y as int,
                x_end as int,
                yy + 1,
                enc,
            ));
            yy = yy + 1;
        }
        assert(self.pixels@ =~= old(self).fill_spec(x, y, w, h, rgba@));
    }

    /// Draw a one-pixel-wide outline of the rectangle at `(x, y)` of size
    /// `w` x `h`, clipped to the buffer. An empty rectangle draws nothing.
    pub fn stroke_rect(&mut self, x: u32, y: u32, w: u32, h: u32, rgba: [u8; 4])
        requires
            old(self).wf(),
            x + w <= u32::MAX,
            y + h <= u32::MAX,
            w == 0 || h == 0 || y >= old(self).height || x + w - 1 <= old(self).width,
        ensures
            final(self).wf(),
            final(self).width == old(self).width,
            final(self).height == old(self).height,
            final(self).stride == old(self).stride,
            final(self).format == old(self).format,
            final(self).pixels@ == if w == 0 || h == 0 {
                old(self).pixels@
            } else {
                old(self).stroke_spec(x, y, w, h, rgba@)
            },
    {
        if w == 0 || h == 0 {
            return;
        }
        self.fill_rect(x, y, w, 1, rgba);
        self.fill_rect(x, y + (h - 1), w, 1, rgba);
        self.fill_rect(x, y, 1, h, rgba);
        self.fill_rect(x + (w - 1), y, 1, h, rgba);
    }

    /// Bytes occupied by the pixel buffer.
    pub fn byte_len(&self) -> (n: usize)
        ensures
            n == self.pixels@.len(),
    {
        self.pixels.len()
    }
}

/// Row `y` of a buffer with `h` rows of `stride` bytes ends within it.
proof fn lemma_row_offset(y: int, h: int, stride: int, c: int)
    requires
        0 <= y < h,
        0 <= c <= stride,
    ensures
        0 <= y * stride + c <= h * stride,
        0 <= y * stride,
{
    assert(0 <= y * stride + c <= h * stride) by (nonlinear_arith)
        requires
            0 <= y < h,
            0 <= c <= stride,
    ;
    assert(0 <= y * stride) by (nonlinear_arith)
        requires
            0 <= y,
            0 <= stride,
    ;
}

/// Store the four bytes `p` at `off`.
pub(crate) fn write4(v: &mut Vec<u8>, off: usize, p: [u8; 4])
    requires
        off + 4 <= old(v).len(),
    ensures
        final(v)@ == put4(old(v)@, off as int, p@),
{
    v.set(off, p[0]);
    v.set(off + 1, p[1]);
    v.set(off + 2, p[2]);
    v.set(off + 3, p[3]);
    assert(v@ =~= put4(old(v)@, off as int, p@));
}

} // verus!
