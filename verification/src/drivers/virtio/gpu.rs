//! Virtio-gpu 2D scanout (virtio 1.1 §5.7): the control commands, their
//! responses, and the command chain on the control queue.
//!
//! Bring-up asks for the display size, creates a B8G8R8X8 resource backed
//! by a framebuffer in RAM, binds it to scanout 0 and paints a test
//! pattern; every flush then transfers the framebuffer to the host and
//! flushes the resource.

use vstd::prelude::*;
use crate::drivers::virtio::mmio::{Transport, RegWrite, REG_QUEUE_SEL, REG_STATUS, STATUS_DRIVER_OK, begin_writes, features_writes, accepted_features, ident_ok};
use crate::drivers::virtio::queue::{
    Virtqueue, VRING_DESC_F_NEXT, VRING_DESC_F_WRITE, is_chain, in_table, disjoint, slice_addr, same_rings,
    lemma_free_list_len, le32, lemma_desc_flag_bits, published_once,
};
use crate::drivers::virtio::blk::{le32_bytes, le64_bytes};
use vstd::arithmetic::div_mod::{lemma_fundamental_div_mod, lemma_fundamental_div_mod_converse};

verus! {

pub const QUEUE_SIZE: u16 = 16;
pub const RESOURCE_ID: u32 = 1;
pub const SCANOUT_ID: u32 = 0;

pub const VIRTIO_GPU_CMD_GET_DISPLAY_INFO: u32 = 0x0100;
pub const VIRTIO_GPU_CMD_RESOURCE_CREATE_2D: u32 = 0x0101;
pub const VIRTIO_GPU_CMD_SET_SCANOUT: u32 = 0x0103;
pub const VIRTIO_GPU_CMD_RESOURCE_FLUSH: u32 = 0x0104;
pub const VIRTIO_GPU_CMD_TRANSFER_TO_HOST_2D: u32 = 0x0105;
pub const VIRTIO_GPU_CMD_RESOURCE_ATTACH_BACKING: u32 = 0x0106;

pub const VIRTIO_GPU_RESP_OK_NODATA: u32 = 0x1100;
pub const VIRTIO_GPU_RESP_OK_DISPLAY_INFO: u32 = 0x1101;

pub const FORMAT_B8G8R8X8_UNORM: u32 = 2;

/// Bytes of a control header.
pub const CTRL_HDR_BYTES: usize = 24;

/// Bytes of a `GET_DISPLAY_INFO` response: the header and 16 display
/// records of 24 bytes.
pub const DISPLAY_INFO_BYTES: usize = 408;

/// A control header of command type `ty`, everything else zero.
pub open spec fn ctrl_hdr(ty: u32) -> Seq<u8> {
    le32_bytes(ty) + le32_bytes(0) + le64_bytes(0) + le32_bytes(0) + le32_bytes(0)
}

/// The rectangle at the origin of size `w` x `h`.
pub open spec fn rect(w: u32, h: u32) -> Seq<u8> {
    le32_bytes(0) + le32_bytes(0) + le32_bytes(w) + le32_bytes(h)
}

/// `GET_DISPLAY_INFO`.
pub open spec fn get_display_info_req() -> Seq<u8> {
    ctrl_hdr(VIRTIO_GPU_CMD_GET_DISPLAY_INFO)
}

/// `RESOURCE_CREATE_2D` of a `w` x `h` B8G8R8X8 resource.
pub open spec fn resource_create_2d_req(w: u32, h: u32) -> Seq<u8> {
    ctrl_hdr(VIRTIO_GPU_CMD_RESOURCE_CREATE_2D) + le32_bytes(RESOURCE_ID) + le32_bytes(
        FORMAT_B8G8R8X8_UNORM,
    ) + le32_bytes(w) + le32_bytes(h)
}

/// `RESOURCE_ATTACH_BACKING` with one memory entry of `len` bytes at
/// `addr`.
pub open spec fn attach_backing_req(addr: u64, len: u32) -> Seq<u8> {
    ctrl_hdr(VIRTIO_GPU_CMD_RESOURCE_ATTACH_BACKING) + le32_bytes(RESOURCE_ID) + le32_bytes(1)
        + le64_bytes(addr) + le32_bytes(len) + le32_bytes(0)
}

/// `SET_SCANOUT` of the resource on scanout 0 over `w` x `h`.
pub open spec fn set_scanout_req(w: u32, h: u32) -> Seq<u8> {
    ctrl_hdr(VIRTIO_GPU_CMD_SET_SCANOUT) + rect(w, h) + le32_bytes(SCANOUT_ID) + le32_bytes(RESOURCE_ID)
}

/// `TRANSFER_TO_HOST_2D` of the whole `w` x `h` resource.
pub open spec fn transfer_req(w: u32, h: u32) -> Seq<u8> {
    ctrl_hdr(VIRTIO_GPU_CMD_TRANSFER_TO_HOST_2D) + rect(w, h) + le64_bytes(0) + le32_bytes(RESOURCE_ID)
        + le32_bytes(0)
}

/// `RESOURCE_FLUSH` of the whole `w` x `h` resource.
pub open spec fn flush_req(w: u32, h: u32) -> Seq<u8> {
    ctrl_hdr(VIRTIO_GPU_CMD_RESOURCE_FLUSH) + rect(w, h) + le32_bytes(RESOURCE_ID) + le32_bytes(0)
}

/// Append the little-endian bytes of `v`.
fn push_le32(out: &mut Vec<u8>, v: u32)
    ensures
        final(out)@ == old(out)@ + le32_bytes(v),
{
    let b0 = (v % 256) as u8;
    let b1 = ((v / 256) % 256) as u8;
    let b2 = ((v / 65536) % 256) as u8;
    let b3 = (v / 16777216) as u8;
    out.push(b0);
    out.push(b1);
    out.push(b2);
    out.push(b3);
    assert(final(out)@ =~= old(out)@ + le32_bytes(v));
}

/// Append the little-endian bytes of `v`.
fn push_le64(out: &mut Vec<u8>, v: u64)
    ensures
        final(out)@ == old(out)@ + le64_bytes(v),
{
    let lo = (v % 0x1_0000_0000) as u32;
    let hi = (v / 0x1_0000_0000) as u32;
    push_le32(out, lo);
    push_le32(out, hi);
    assert(final(out)@ =~= old(out)@ + le64_bytes(v));
}

fn push_hdr(out: &mut Vec<u8>, ty: u32)
    ensures
        final(out)@ == old(out)@ + ctrl_hdr(ty),
{
    push_le32(out, ty);
    push_le32(out, 0);
    push_le64(out, 0);
    push_le32(out, 0);
    push_le32(out, 0);
    assert(final(out)@ =~= old(out)@ + ctrl_hdr(ty));
}

fn push_rect(out: &mut Vec<u8>, w: u32, h: u32)
    ensures
        final(out)@ == old(out)@ + rect(w, h),
{
    push_le32(out, 0);
    push_le32(out, 0);
    push_le32(out, w);
    push_le32(out, h);
    assert(final(out)@ =~= old(out)@ + rect(w, h));
}

/// The `GET_DISPLAY_INFO` command.
pub fn get_display_info() -> (r: Vec<u8>)
    ensures
        r@ == get_display_info_req(),
{
    let mut v: Vec<u8> = Vec::new();
    push_hdr(&mut v, VIRTIO_GPU_CMD_GET_DISPLAY_INFO);
    assert(v@ =~= get_display_info_req());
    v
}

/// The `RESOURCE_CREATE_2D` command for a `w` x `h` resource.
pub fn resource_create_2d(w: u32, h: u32) -> (r: Vec<u8>)
    ensures
        r@ == resource_create_2d_req(w, h),
{
    let mut v: Vec<u8> = Vec::new();
    push_hdr(&mut v, VIRTIO_GPU_CMD_RESOURCE_CREATE_2D);
    push_le32(&mut v, RESOURCE_ID);
    push_le32(&mut v, FORMAT_B8G8R8X8_UNORM);
    push_le32(&mut v, w);
    push_le32(&mut v, h);
    assert(v@ =~= resource_create_2d_req(w, h));
    v
}

/// The `RESOURCE_ATTACH_BACKING` command for the `len` bytes at `addr`.
pub fn attach_backing(addr: u64, len: u32) -> (r: Vec<u8>)
    ensures
        r@ == attach_backing_req(addr, len),
{
    let mut v: Vec<u8> = Vec::new();
    push_hdr(&mut v, VIRTIO_GPU_CMD_RESOURCE_ATTACH_BACKING);
    push_le32(&mut v, RESOURCE_ID);
    push_le32(&mut v, 1);
    push_le64(&mut v, addr);
    push_le32(&mut v, len);
    push_le32(&mut v, 0);
    assert(v@ =~= attach_backing_req(addr, len));
    v
}

/// The `SET_SCANOUT` command showing the `w` x `h` resource on scanout 0.
pub fn set_scanout(w: u32, h: u32) -> (r: Vec<u8>)
    ensures
        r@ == set_scanout_req(w, h),
{
    let mut v: Vec<u8> = Vec::new();
    push_hdr(&mut v, VIRTIO_GPU_CMD_SET_SCANOUT);
    push_rect(&mut v, w, h);
    push_le32(&mut v, SCANOUT_ID);
    push_le32(&mut v, RESOURCE_ID);
    assert(v@ =~= set_scanout_req(w, h));
    v
}

/// Whether `resp` is a complete header of type `RESP_OK_NODATA`.
pub fn resp_ok_nodata(resp: &[u8]) -> (r: bool)
    ensures
        r == (resp@.len() >= CTRL_HDR_BYTES && le32(resp@, 0) == VIRTIO_GPU_RESP_OK_NODATA),
{
    if resp.len() < CTRL_HDR_BYTES {
        return false;
    }
    read_le32(resp, 0) == VIRTIO_GPU_RESP_OK_NODATA
}

/// Reading back the four little-endian bytes of `v` gives `v`.
pub proof fn law_le32_round_trip(v: u32)
    ensures
        le32(le32_bytes(v), 0) == v,
{
    assert(((v % 256) as u8 as u32) + 256 * (((v / 256) % 256) as u8 as u32) + 65536 * (((v / 65536) % 256) as u8 as u32)
        + 16777216 * ((v / 16777216) as u8 as u32) == v) by (bit_vector);
}

/// The little-endian 32-bit value at `off`.
fn read_le32(b: &[u8], off: usize) -> (r: u32)
    requires
        off + 4 <= b@.len(),
    ensures
        r == le32(b@, off as int),
{
    b[off] as u32 + 0x100 * b[off + 1] as u32 + 0x1_0000 * b[off + 2] as u32 + 0x100_0000 * b[off + 3] as u32
}

/// The size of display 0 from a `GET_DISPLAY_INFO` response: its width
/// and height, 1024 and 768 standing in for zeros. Refused for a short
/// response or one of another type.
pub fn display_size(resp: &[u8]) -> (r: Result<(u32, u32), &'static str>)
    ensures
        r == display_size_spec(resp@),
{
    if resp.len() < DISPLAY_INFO_BYTES {
        return Err("virtio-gpu: short response");
    }
    if read_le32(resp, 0) != VIRTIO_GPU_RESP_OK_DISPLAY_INFO {
        return Err("virtio-gpu: GET_DISPLAY_INFO failed");
    }
    let w = read_le32(resp, 32);
    let h = read_le32(resp, 36);
    Ok((if w == 0 { 1024 } else { w }, if h == 0 { 768 } else { h }))
}

/// Size of scanout 0 in a `GET_DISPLAY_INFO` response `resp` (1024 x
/// 768 where the device reports 0); the error for a short response or
/// one of another type.
pub open spec fn display_size_spec(resp: Seq<u8>) -> Result<(u32, u32), &'static str> {
    if resp.len() < DISPLAY_INFO_BYTES {
        Err("virtio-gpu: short response")
    } else if le32(resp, 0) != VIRTIO_GPU_RESP_OK_DISPLAY_INFO {
        Err("virtio-gpu: GET_DISPLAY_INFO failed")
    } else {
        Ok((
            if le32(resp, 32) == 0 { 1024u32 } else { le32(resp, 32) },
            if le32(resp, 36) == 0 { 768u32 } else { le32(resp, 36) },
        ))
    }
}

/// The test pattern's byte `i` on a `w`-pixel-wide, `h`-row display: red
/// grows left to right, green top to bottom, blue is `x ^ y` (its low
/// byte), in B, G, R, X order.
pub open spec fn pattern_byte(w: int, h: int, i: int) -> u8 {
    let p = i / 4;
    let x = p % w;
    let y = p / w;
    let k = i % 4;
    if k == 0 {
        ((x as usize ^ y as usize) & 0xff) as u8
    } else if k == 1 {
        (y * 255 / h) as u8
    } else if k == 2 {
        (x * 255 / w) as u8
    } else {
        0u8
    }
}

/// Fill the `w` x `h` B8G8R8X8 framebuffer `pixels` with the test pattern.
pub fn test_pattern(pixels: &mut Vec<u8>, w: u32, h: u32)
    requires
        old(pixels)@.len() == w * h * 4,
        w > 0,
        h > 0,
    ensures
        final(pixels)@ == Seq::new(old(pixels)@.len(), |i: int| pattern_byte(w as int, h as int, i)),
{
    let total = pixels.len() / 4;
    let wu = w as usize;
    let hu = h as usize;
    let ghost len = pixels@.len();
    assert(pixels@.len() == pixels.len());
    let mut p: usize = 0;
    while p < total
        invariant
            total == len / 4,
            len == w * h * 4,
            len <= usize::MAX,
            pixels@.len() == len,
            wu == w,
            hu == h,
            w > 0,
            h > 0,
            p <= total,
            forall|i: int| 0 <= i < 4 * p ==> pixels@[i] == pattern_byte(w as int, h as int, i),
        decreases total - p,
    {
        let x = p % wu;
        let y = p / wu;
        proof {
            assert(y < hu) by (nonlinear_arith)
                requires
                    y == p / wu,
                    p < total,
                    total == len / 4,
                    len == wu * hu * 4,
                    wu > 0,
            ;
            assert((x as int) * 255 / (wu as int) <= 255) by (nonlinear_arith)
                requires
                    x < wu,
                    wu > 0,
            ;
            assert((y as int) * 255 / (hu as int) <= 255) by (nonlinear_arith)
                requires
                    y < hu,
                    hu > 0,
            ;
        }
        let r = ((x as u64) * 255 / (wu as u64)) as u8;
        let g = ((y as u64) * 255 / (hu as u64)) as u8;
        let b = ((x ^ y) & 0xff) as u8;
        let i = p * 4;
        pixels.set(i, b);
        pixels.set(i + 1, g);
        pixels.set(i + 2, r);
        pixels.set(i + 3, 0);
        proof {
            assert forall|j: int| 0 <= j < 4 * (p + 1) implies pixels@[j] == pattern_byte(w as int, h as int, j) by {
                if j >= 4 * p {
                    lemma_fundamental_div_mod_converse(j, 4, p as int, j - 4 * p);
                }
            }
        }
        p = p + 1;
    }
    proof {
        lemma_fundamental_div_mod(len as int, 4);
        vstd::arithmetic::div_mod::lemma_mod_multiples_basic(w * h, 4);
        assert(4 * total == len);
    }
    assert(pixels@ =~= Seq::new(len, |i: int| pattern_byte(w as int, h as int, i)));
}

/// A control command in flight: its two-descriptor chain and the
/// buffers the device reads (`req`) and writes by DMA (`resp`).
pub struct GpuCmd {
    pub head: u16,
    pub chain: Ghost<Seq<u16>>,
    pub req: Vec<u8>,
    pub resp: Vec<u8>,
}

/// A virtio-gpu device: its control queue, the display size and the
/// framebuffer backing scanout 0.
pub struct VirtioGpu {
    pub transport: Transport,
    pub queue: Virtqueue,
    pub width: u32,
    pub height: u32,
    pub fb: Vec<u8>,
}

impl VirtioGpu {
    /// Whether `cmd` is in flight on the control queue.
    pub open spec fn in_flight(&self, cmd: &GpuCmd) -> bool {
        &&& is_chain(self.queue.desc@, cmd.head, cmd.chain@)
        &&& cmd.chain@.no_duplicates()
        &&& in_table(cmd.chain@, self.queue.size)
        &&& disjoint(cmd.chain@, self.queue.free())
        &&& cmd.chain@.len() == 2
    }

    pub fn dimensions(&self) -> (r: (u32, u32))
        ensures
            r == (self.width, self.height),
    {
        (self.width, self.height)
    }

    /// The framebuffer, with the display's width and height, for drawing
    /// in B8G8R8X8 order; [`VirtioGpu::flush`] publishes it.
    pub fn with_pixels(&mut self) -> (r: (&mut Vec<u8>, u32, u32))
        ensures
            *r.0 == old(self).fb,
            r.1 == old(self).width,
            r.2 == old(self).height,
            final(self).fb == *final(r.0),
            final(self).width == old(self).width,
            final(self).height == old(self).height,
            final(self).queue == old(self).queue,
            final(self).transport == old(self).transport,
    {
        (&mut self.fb, self.width, self.height)
    }

    /// Publish the command `req` with a response buffer of `resp_size`
    /// bytes: two descriptors from the free list, the request readable
    /// and the response writable by the device. The queue must have two
    /// free descriptors.
    pub fn cmd(&mut self, req: Vec<u8>, resp_size: usize) -> (c: GpuCmd)
        requires
            old(self).queue.wf(),
            old(self).queue.num_free >= 2,
        ensures
            final(self).queue.wf(),
            final(self).width == old(self).width,
            final(self).height == old(self).height,
            final(self).fb == old(self).fb,
            final(self).transport == old(self).transport,
            ({
                let l = old(self).queue.free().take(2);
                let d = final(self).queue.desc@;
                &&& c.chain@ == l
                &&& c.head == l[0]
                &&& c.req == req
                &&& c.resp@.len() == resp_size
                &&& final(self).in_flight(&c)
                &&& final(self).queue.free() == old(self).queue.free().skip(2)
                &&& d[l[0] as int].len == req@.len() as u32 && d[l[0] as int].flags == VRING_DESC_F_NEXT
                &&& d[l[1] as int].len == resp_size as u32 && d[l[1] as int].flags == VRING_DESC_F_WRITE
                &&& d[l[0] as int].addr != 0 && d[l[0] as int].addr + c.req@.len() <= 0x1_0000_0000_0000_0000
                &&& d[l[1] as int].addr != 0 && d[l[1] as int].addr + c.resp@.len() <= 0x1_0000_0000_0000_0000
                &&& final(self).queue.avail_entry((old(self).queue.avail_idx() % old(self).queue.size) as int)
                    == l[0]
                &&& published_once(old(self).queue.avail_bytes(), final(self).queue.avail_bytes(), old(self).queue.size, l[0])
                &&& final(self).queue.table_synced()
            }),
            same_rings(old(self).queue, final(self).queue),
    {
        let mut resp: Vec<u8> = Vec::new();
        let mut i: usize = 0;
        while i < resp_size
            invariant
                i <= resp_size,
                resp@.len() == i,
            decreases resp_size - i,
        {
            resp.push(0);
            i = i + 1;
        }
        let req_addr = slice_addr(req.as_slice());
        let req_len = req.len() as u32;
        let resp_addr = slice_addr(resp.as_slice());
        let ghost q0 = self.queue;
        let ghost l = q0.free().take(2);
        proof {
            lemma_free_list_len(q0.desc@, q0.free_head, q0.num_free as nat);
        }
        let head = match self.queue.alloc_chain(2) {
            Some(h) => h,
            None => {
                return GpuCmd { head: 0, chain: Ghost(Seq::empty()), req, resp };
            },
        };
        proof {
            assert(in_table(q0.free(), q0.size));
            assert(l[0] == q0.free()[0] && l[1] == q0.free()[1]);
            assert(self.queue.desc@[l[0] as int].next == l[1]);
        }
        let i1 = self.queue.desc[head as usize].next;
        self.queue.set_desc(head, req_addr, req_len, VRING_DESC_F_NEXT);
        self.queue.set_desc(i1, resp_addr, resp_size as u32, VRING_DESC_F_WRITE);
        proof {
            assert(q0.free().no_duplicates());
            assert(l[0] != l[1]);
            lemma_desc_flag_bits();
            assert(is_chain(self.queue.desc@, head, l));
            assert forall|a: int, b: int| 0 <= a < l.len() && 0 <= b < self.queue.free().len() implies l[a] != self.queue.free()[b] by {
                assert(self.queue.free()[b] == q0.free()[b + 2]);
            }
        }
        self.queue.push_avail(head);
        GpuCmd { head, chain: Ghost(l), req, resp }
    }

    /// Finish a command the device has used: collect the used entry, free
    /// the chain and hand back the response buffer.
    pub fn cmd_complete(&mut self, c: GpuCmd) -> (resp: Vec<u8>)
        requires
            old(self).queue.wf(),
            old(self).in_flight(&c),
            old(self).queue.used_idx() != old(self).queue.last_used_idx,
        ensures
            final(self).queue.wf(),
            final(self).queue.free() == c.chain@.reverse() + old(self).queue.free(),
            final(self).fb == old(self).fb,
            resp@.len() == c.resp@.len(),
            same_rings(old(self).queue, final(self).queue),
    {
        let _ = self.queue.wait_used();
        self.queue.free_chain(c.head);
        c.resp
    }

    /// The `SET_SCANOUT` command binding the resource to scanout 0.
    pub fn cmd_set_scanout(&self) -> (r: Vec<u8>)
        ensures
            r@ == set_scanout_req(self.width, self.height),
    {
        set_scanout(self.width, self.height)
    }

    /// The `TRANSFER_TO_HOST_2D` command for the whole framebuffer.
    pub fn cmd_transfer_to_host_2d(&self) -> (r: Vec<u8>)
        ensures
            r@ == transfer_req(self.width, self.height),
    {
        let mut v: Vec<u8> = Vec::new();
        push_hdr(&mut v, VIRTIO_GPU_CMD_TRANSFER_TO_HOST_2D);
        push_rect(&mut v, self.width, self.height);
        push_le64(&mut v, 0);
        push_le32(&mut v, RESOURCE_ID);
        push_le32(&mut v, 0);
        assert(v@ =~= transfer_req(self.width, self.height));
        v
    }

    /// The `RESOURCE_FLUSH` command for the whole framebuffer.
    pub fn cmd_resource_flush(&self) -> (r: Vec<u8>)
        ensures
            r@ == flush_req(self.width, self.height),
    {
        let mut v: Vec<u8> = Vec::new();
        push_hdr(&mut v, VIRTIO_GPU_CMD_RESOURCE_FLUSH);
        push_rect(&mut v, self.width, self.height);
        push_le32(&mut v, RESOURCE_ID);
        push_le32(&mut v, 0);
        assert(v@ =~= flush_req(self.width, self.height));
        v
    }

    /// The two commands that publish the framebuffer, in order: transfer
    /// to the host, then flush.
    pub fn flush(&self) -> (r: (Vec<u8>, Vec<u8>))
        ensures
            r.0@ == transfer_req(self.width, self.height),
            r.1@ == flush_req(self.width, self.height),
    {
        (self.cmd_transfer_to_host_2d(), self.cmd_resource_flush())
    }
}

/// Where the bring-up of a virtio-gpu device stands.
#[derive(Debug, Clone, Copy)]
pub enum GpuInit {
    /// Waiting for the identification registers.
    Start,
    /// Waiting for the device features.
    Features,
    /// Waiting for the control queue's maximum size.
    QueueMax,
    /// Waiting for the `GET_DISPLAY_INFO` response.
    DisplayInfo,
    /// Waiting for the framebuffer of the display's size.
    Allocate { width: u32, height: u32 },
    /// Waiting for the `RESOURCE_CREATE_2D` response.
    Create { width: u32, height: u32, addr: u64 },
    /// Waiting for the `RESOURCE_ATTACH_BACKING` response.
    Attach { width: u32, height: u32 },
    /// Waiting for the `SET_SCANOUT` response.
    Scanout { width: u32, height: u32 },
    /// Scanout 0 shows the `width` x `height` resource.
    Ready { width: u32, height: u32 },
    /// Bring-up stopped.
    Failed { reason: &'static str },
}

/// What the platform reports back to the bring-up.
pub enum GpuEvent {
    /// The magic, version and device-id registers.
    Ident { magic: u32, version: u32, device_id: u32 },
    /// The two device-feature halves and the status register.
    Features { lo: u32, hi: u32, status: u32 },
    /// The selected queue's maximum size and the status register.
    QueueMax { max: u32, status: u32 },
    /// Where the zeroed framebuffer was placed.
    Allocated { addr: u64 },
    /// The device's response to the last command.
    Response { resp: Vec<u8> },
}

/// What the bring-up asks of the platform next.
pub enum GpuAction {
    /// Store `writes`, then read the device-feature halves and the
    /// status register.
    ReadFeatures { writes: Vec<RegWrite> },
    /// Store `writes` (the last one selects the queue), then read the
    /// queue's maximum size and the status register.
    ReadQueueMax { writes: Vec<RegWrite> },
    /// Make a `size`-entry control queue, configure it as queue 0, store
    /// `driver_ok`, then send `cmd` with a `resp_size`-byte response
    /// buffer and report the response.
    SetUpAndSend { size: u16, driver_ok: RegWrite, cmd: Vec<u8>, resp_size: usize },
    /// Allocate a zeroed `width` x `height` B8G8R8X8 framebuffer and
    /// report its address.
    Allocate { width: u32, height: u32 },
    /// Send `cmd` with a `resp_size`-byte response buffer and report
    /// the response.
    Send { cmd: Vec<u8>, resp_size: usize },
    /// Done: paint the test pattern, flush, and show the display as a
    /// monitor.
    Finish { width: u32, height: u32 },
    /// Give up, reporting `reason`.
    Stop { reason: &'static str },
}

/// Whether `e` is what bring-up state `s` waits for.
pub open spec fn gpu_awaits(s: GpuInit, e: GpuEvent) -> bool {
    match s {
        GpuInit::Start => e is Ident,
        GpuInit::Features => e is Features,
        GpuInit::QueueMax => e is QueueMax,
        GpuInit::DisplayInfo => e is Response,
        GpuInit::Allocate { .. } => e is Allocated,
        GpuInit::Create { .. } => e is Response,
        GpuInit::Attach { .. } => e is Response,
        GpuInit::Scanout { .. } => e is Response,
        GpuInit::Ready { .. } => false,
        GpuInit::Failed { .. } => false,
    }
}

/// Size of a control queue for a device offering at most `max` entries
/// (taken as 16 bits): [`QUEUE_SIZE`] or fewer.
pub open spec fn ctrl_queue_size(max: u32) -> u16 {
    if ((max as u16) < QUEUE_SIZE) { max as u16 } else { QUEUE_SIZE }
}

/// Bytes of a `w` x `h` B8G8R8X8 framebuffer, as the 32-bit length of
/// its backing entry.
pub open spec fn backing_len(w: u32, h: u32) -> u32 {
    ((w as int * h as int * 4) % 0x1_0000_0000) as u32
}

/// Whether a step of the bring-up failed with `reason`: it stops there.
pub open spec fn gpu_stops(n: GpuInit, a: GpuAction, reason: &'static str) -> bool {
    n == (GpuInit::Failed { reason }) && (a matches GpuAction::Stop { reason: r } && r == reason)
}

/// One step of bringing up the virtio-gpu device at transport `t`:
/// from state `s` and the report `e` it waited for, the next state and
/// what to do. The sequence is the virtio one (identify, negotiate
/// VERSION_1, set up the control queue) followed by the display
/// commands: query the display size, create the resource, attach the
/// framebuffer, bind it to scanout 0. Each response is checked, and the
/// first failure stops the bring-up with its reason.
pub fn gpu_init_step(t: &Transport, s: GpuInit, e: GpuEvent) -> (r: (GpuInit, GpuAction))
    requires
        gpu_awaits(s, e),
    ensures
        s is Start ==> (e matches GpuEvent::Ident { magic, version, device_id } && if ident_ok(magic, version, device_id) {
            r.0 == GpuInit::Features && (r.1 matches GpuAction::ReadFeatures { writes } && writes@ == begin_writes())
        } else {
            gpu_stops(r.0, r.1, "init_begin failed")
        }),
        s is Features ==> (e matches GpuEvent::Features { lo, hi, status } && r.0 == GpuInit::QueueMax
            && (r.1 matches GpuAction::ReadQueueMax { writes } && writes@ == features_writes(accepted_features(lo, hi), status).push(
            RegWrite { offset: REG_QUEUE_SEL, value: 0 },
        ))),
        s is QueueMax ==> (e matches GpuEvent::QueueMax { max, status } && if max == 0 {
            gpu_stops(r.0, r.1, "virtio-gpu: no controlq")
        } else {
            r.0 == GpuInit::DisplayInfo && (r.1 matches GpuAction::SetUpAndSend { size, driver_ok, cmd, resp_size }
                && size == ctrl_queue_size(max) && driver_ok == (RegWrite {
                offset: REG_STATUS,
                value: status | STATUS_DRIVER_OK,
            }) && cmd@ == get_display_info_req() && resp_size == DISPLAY_INFO_BYTES)
        }),
        s is DisplayInfo ==> (e matches GpuEvent::Response { resp } && match display_size_spec(resp@) {
            Err(reason) => gpu_stops(r.0, r.1, reason),
            Ok((w, h)) => r.0 == (GpuInit::Allocate { width: w, height: h }) && (r.1 matches GpuAction::Allocate {
                width,
                height,
            } && width == w && height == h),
        }),
        s matches GpuInit::Allocate { width, height } ==> (e matches GpuEvent::Allocated { addr } && r.0 == (
        GpuInit::Create { width, height, addr }) && (r.1 matches GpuAction::Send { cmd, resp_size } && cmd@
            == resource_create_2d_req(width, height) && resp_size == CTRL_HDR_BYTES)),
        s matches GpuInit::Create { width, height, addr } ==> (e matches GpuEvent::Response { resp } && if resp@.len()
            >= CTRL_HDR_BYTES && le32(resp@, 0) == VIRTIO_GPU_RESP_OK_NODATA {
            r.0 == (GpuInit::Attach { width, height }) && (r.1 matches GpuAction::Send { cmd, resp_size } && cmd@
                == attach_backing_req(addr, backing_len(width, height)) && resp_size == CTRL_HDR_BYTES)
        } else {
            gpu_stops(r.0, r.1, "virtio-gpu: RESOURCE_CREATE_2D failed")
        }),
        s matches GpuInit::Attach { width, height } ==> (e matches GpuEvent::Response { resp } && if resp@.len()
            >= CTRL_HDR_BYTES && le32(resp@, 0) == VIRTIO_GPU_RESP_OK_NODATA {
            r.0 == (GpuInit::Scanout { width, height }) && (r.1 matches GpuAction::Send { cmd, resp_size } && cmd@
                == set_scanout_req(width, height) && resp_size == CTRL_HDR_BYTES)
        } else {
            gpu_stops(r.0, r.1, "virtio-gpu: RESOURCE_ATTACH_BACKING failed")
        }),
        s matches GpuInit::Scanout { width, height } ==> (e matches GpuEvent::Response { resp } && if resp@.len()
            >= CTRL_HDR_BYTES && le32(resp@, 0) == VIRTIO_GPU_RESP_OK_NODATA {
            r.0 == (GpuInit::Ready { width, height }) && (r.1 matches GpuAction::Finish { width: w, height: h } && w
                == width && h == height)
        } else {
            gpu_stops(r.0, r.1, "virtio-gpu: SET_SCANOUT failed")
        }),
{
    match s {
        GpuInit::Start => match e {
            GpuEvent::Ident { magic, version, device_id } => match t.begin(magic, version, device_id) {
                Ok(writes) => (GpuInit::Features, GpuAction::ReadFeatures { writes }),
                Err(reason) => (GpuInit::Failed { reason }, GpuAction::Stop { reason }),
            },
            _ => (s, GpuAction::Stop { reason: "virtio-gpu: unexpected event" }),
        },
        GpuInit::Features => match e {
            GpuEvent::Features { lo, hi, status } => {
                let mut writes = t.negotiate(lo, hi, status);
                writes.push(t.queue_max(0));
                (GpuInit::QueueMax, GpuAction::ReadQueueMax { writes })
            },
            _ => (s, GpuAction::Stop { reason: "virtio-gpu: unexpected event" }),
        },
        GpuInit::QueueMax => match e {
            GpuEvent::QueueMax { max, status } => {
                if max == 0 {
                    let reason = "virtio-gpu: no controlq";
                    (GpuInit::Failed { reason }, GpuAction::Stop { reason })
                } else {
                    let m = max as u16;
                    let size = if m < QUEUE_SIZE {
                        m
                    } else {
                        QUEUE_SIZE
                    };
                    (
                        GpuInit::DisplayInfo,
                        GpuAction::SetUpAndSend {
                            size,
                            driver_ok: t.driver_ok(status),
                            cmd: get_display_info(),
                            resp_size: DISPLAY_INFO_BYTES,
                        },
                    )
                }
            },
            _ => (s, GpuAction::Stop { reason: "virtio-gpu: unexpected event" }),
        },
        GpuInit::DisplayInfo => match e {
            GpuEvent::Response { resp } => match display_size(resp.as_slice()) {
                Ok((width, height)) => (GpuInit::Allocate { width, height }, GpuAction::Allocate { width, height }),
                Err(reason) => (GpuInit::Failed { reason }, GpuAction::Stop { reason }),
            },
            _ => (s, GpuAction::Stop { reason: "virtio-gpu: unexpected event" }),
        },
        GpuInit::Allocate { width, height } => match e {
            GpuEvent::Allocated { addr } => (
                GpuInit::Create { width, height, addr },
                GpuAction::Send { cmd: resource_create_2d(width, height), resp_size: CTRL_HDR_BYTES },
            ),
            _ => (s, GpuAction::Stop { reason: "virtio-gpu: unexpected event" }),
        },
        GpuInit::Create { width, height, addr } => match e {
            GpuEvent::Response { resp } => {
                if resp_ok_nodata(resp.as_slice()) {
                    let len = width.wrapping_mul(height).wrapping_mul(4);
                    proof {
                        lemma_backing_len(width, height);
                    }
                    (
                        GpuInit::Attach { width, height },
                        GpuAction::Send { cmd: attach_backing(addr, len), resp_size: CTRL_HDR_BYTES },
                    )
                } else {
                    let reason = "virtio-gpu: RESOURCE_CREATE_2D failed";
                    (GpuInit::Failed { reason }, GpuAction::Stop { reason })
                }
            },
            _ => (s, GpuAction::Stop { reason: "virtio-gpu: unexpected event" }),
        },
        GpuInit::Attach { width, height } => match e {
            GpuEvent::Response { resp } => {
                if resp_ok_nodata(resp.as_slice()) {
                    (
                        GpuInit::Scanout { width, height },
                        GpuAction::Send { cmd: set_scanout(width, height), resp_size: CTRL_HDR_BYTES },
                    )
                } else {
                    let reason = "virtio-gpu: RESOURCE_ATTACH_BACKING failed";
                    (GpuInit::Failed { reason }, GpuAction::Stop { reason })
                }
            },
            _ => (s, GpuAction::Stop { reason: "virtio-gpu: unexpected event" }),
        },
        GpuInit::Scanout { width, height } => match e {
            GpuEvent::Response { resp } => {
                if resp_ok_nodata(resp.as_slice()) {
                    (GpuInit::Ready { width, height }, GpuAction::Finish { width, height })
                } else {
                    let reason = "virtio-gpu: SET_SCANOUT failed";
                    (GpuInit::Failed { reason }, GpuAction::Stop { reason })
                }
            },
            _ => (s, GpuAction::Stop { reason: "virtio-gpu: unexpected event" }),
        },
        GpuInit::Ready { .. } => (s, GpuAction::Stop { reason: "virtio-gpu: unexpected event" }),
        GpuInit::Failed { .. } => (s, GpuAction::Stop { reason: "virtio-gpu: unexpected event" }),
    }
}

/// `w * h * 4` wrapped to 32 bits is the backing length.
proof fn lemma_backing_len(w: u32, h: u32)
    ensures
        ((w as int * h as int) % 0x1_0000_0000) as u32 as int * 4 % 0x1_0000_0000 == backing_len(w, h),
{
    assert(((w as int * h as int) % 0x1_0000_0000) * 4 % 0x1_0000_0000 == (w as int * h as int * 4) % 0x1_0000_0000)
        by (nonlinear_arith);
}

} // verus!
