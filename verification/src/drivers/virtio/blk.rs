//! Virtio-blk requests (virtio 1.1 §5.2).
//!
//! A request is a chain of three descriptors: a 16-byte header the device
//! reads (type, reserved, sector), the data buffer (written by the device
//! for a read), and a one-byte status the device writes. Submitting a
//! request fills the chain and publishes it; once the device has used it
//! (after the queue notification), completing it returns the chain to
//! the free list and turns the status byte into the result.

use vstd::prelude::*;
use crate::drivers::virtio::mmio::{Transport, RegWrite, REG_QUEUE_SEL, REG_STATUS, STATUS_DRIVER_OK, begin_writes, features_writes, accepted_features, ident_ok};
use crate::drivers::virtio::queue::{
    Virtqueue, Desc, VRING_DESC_F_NEXT, VRING_DESC_F_WRITE, is_chain, in_table, disjoint, linked,
    slice_addr, same_rings, lemma_free_list_len, lemma_desc_flag_bits, published_once,
};

verus! {

/// Request types.
pub const VIRTIO_BLK_T_IN: u32 = 0;
pub const VIRTIO_BLK_T_OUT: u32 = 1;

/// Status byte of a request that succeeded.
pub const VIRTIO_BLK_S_OK: u8 = 0;

/// Entries of the request queue.
pub const QUEUE_SIZE: u16 = 16;

/// Bytes per sector.
pub const SECTOR_SIZE: usize = 512;

/// Little-endian bytes of `v`.
pub open spec fn le32_bytes(v: u32) -> Seq<u8> {
    seq![(v % 256) as u8, ((v / 256) % 256) as u8, ((v / 65536) % 256) as u8, (v / 16777216) as u8]
}

/// Little-endian bytes of `v`.
pub open spec fn le64_bytes(v: u64) -> Seq<u8> {
    le32_bytes((v % 0x1_0000_0000) as u32) + le32_bytes((v / 0x1_0000_0000) as u32)
}

/// Append the little-endian bytes of `v`.
fn push_le32(out: &mut Vec<u8>, v: u32)
    ensures
        final(out)@ == old(out)@ + le32_bytes(v),
{
    let b0 = (v % 256) as u8;
    let b1 = ((v / 256) % 256) as u8;
    let b2 = ((v / 65536) % 256) as u8;
    let b3 = (v / 16777216) as u8;
    out.push(b0);
    out.push(b1);
    out.push(b2);
    out.push(b3);
    assert(final(out)@ =~= old(out)@ + le32_bytes(v));
}

/// The 16-byte request header: type, a reserved zero word, and the
/// starting sector, all little-endian.
pub open spec fn header_bytes(ty: u32, sector: u64) -> Seq<u8> {
    le32_bytes(ty) + le32_bytes(0) + le64_bytes(sector)
}

fn header(ty: u32, sector: u64) -> (r: Vec<u8>)
    ensures
        r@ == header_bytes(ty, sector),
{
    let mut v: Vec<u8> = Vec::new();
    push_le32(&mut v, ty);
    push_le32(&mut v, 0);
    let lo = (sector % 0x1_0000_0000) as u32;
    let hi = (sector / 0x1_0000_0000) as u32;
    push_le32(&mut v, lo);
    push_le32(&mut v, hi);
    assert(v@ =~= header_bytes(ty, sector));
    v
}

/// The descriptor chain of a request in flight, and the buffers the
/// device reads and writes, kept alive until the request completes.
pub struct BlkRequest {
    pub head: u16,
    pub chain: Ghost<Seq<u16>>,
    pub header: Vec<u8>,
    pub status: Vec<u8>,
    /// The bytes to write, for a write request.
    pub data: Vec<u8>,
}

/// A virtio-blk device with its single request queue.
pub struct VirtioBlk {
    pub transport: Transport,
    pub queue: Virtqueue,
    pub capacity_sectors: u64,
}

impl VirtioBlk {
    /// Whether `req` is in flight on this device's queue: its chain is
    /// intact and none of its descriptors is free.
    pub open spec fn in_flight(&self, req: &BlkRequest) -> bool {
        &&& is_chain(self.queue.desc@, req.head, req.chain@)
        &&& req.chain@.no_duplicates()
        &&& in_table(req.chain@, self.queue.size)
        &&& disjoint(req.chain@, self.queue.free())
        &&& req.chain@.len() == 3
    }

    /// Number of 512-byte sectors the device exposes.
    pub fn capacity_sectors(&self) -> (n: u64)
        ensures
            n == self.capacity_sectors,
    {
        self.capacity_sectors
    }

    /// Build and publish a request of type `ty` for `n` sectors from
    /// `sector`, with the data buffer at `data_addr`: three descriptors
    /// from the free list (header read by the device, data, status
    /// written by the device); refused when fewer than three are free.
    fn submit(&mut self, ty: u32, sector: u64, n: usize, data_addr: u64, data: Vec<u8>) -> (r: Result<BlkRequest, &'static str>)
        requires
            old(self).queue.wf(),
            n * SECTOR_SIZE <= usize::MAX,
        ensures
            final(self).queue.wf(),
            final(self).transport == old(self).transport,
            final(self).capacity_sectors == old(self).capacity_sectors,
            final(self).queue.size == old(self).queue.size,
            final(self).queue.last_used_idx == old(self).queue.last_used_idx,
            old(self).queue.num_free < 3 ==> r == Err::<BlkRequest, &'static str>("virtio-blk: virtqueue full")
                && final(self).queue == old(self).queue,
            old(self).queue.num_free >= 3 ==> (r matches Ok(req) && {
                let l = old(self).queue.free().take(3);
                let d = final(self).queue.desc@;
                &&& req.chain@ == l
                &&& req.head == l[0]
                &&& req.header@ == header_bytes(ty, sector)
                &&& req.status@.len() == 1
                &&& req.data == data
                &&& final(self).in_flight(&req)
                &&& final(self).queue.free() == old(self).queue.free().skip(3)
                &&& d[l[0] as int].len == 16 && d[l[0] as int].flags == VRING_DESC_F_NEXT
                &&& d[l[1] as int].len == (n * SECTOR_SIZE) as u32
                &&& d[l[1] as int].flags == (if ty == VIRTIO_BLK_T_IN {
                    VRING_DESC_F_NEXT | VRING_DESC_F_WRITE
                } else {
                    VRING_DESC_F_NEXT
                })
                &&& d[l[1] as int].addr == data_addr
                &&& d[l[2] as int].len == 1 && d[l[2] as int].flags == VRING_DESC_F_WRITE
                &&& d[l[0] as int].addr != 0 && d[l[0] as int].addr + req.header@.len() <= 0x1_0000_0000_0000_0000
                &&& d[l[2] as int].addr != 0 && d[l[2] as int].addr + req.status@.len() <= 0x1_0000_0000_0000_0000
                &&& final(self).queue.avail_entry(
                    (old(self).queue.avail_idx() % old(self).queue.size) as int,
                ) == l[0]
                &&& published_once(old(self).queue.avail_bytes(), final(self).queue.avail_bytes(), old(self).queue.size, l[0])
                &&& final(self).queue.table_synced()
            }),
            same_rings(old(self).queue, final(self).queue),
    {
        if self.queue.num_free < 3 {
            return Err("virtio-blk: virtqueue full");
        }
        let hdr = header(ty, sector);
        let mut status: Vec<u8> = Vec::new();
        status.push(0xff);
        let ghost q0 = self.queue;
        let ghost l = q0.free().take(3);
        let head = match self.queue.alloc_chain(3) {
            Some(h) => h,
            None => {
                return Err("virtio-blk: virtqueue full");
            },
        };
        proof {
            lemma_free_list_len(q0.desc@, q0.free_head, q0.num_free as nat);
            assert(l.len() == 3);
            assert(in_table(q0.free(), q0.size));
            assert(l[0] < q0.size && l[1] < q0.size && l[2] < q0.size);
            assert(self.queue.desc@[l[0] as int].next == l[1]);
            assert(self.queue.desc@[l[1] as int].next == l[2]);
        }
        let i1 = self.queue.desc[head as usize].next;
        let i2 = self.queue.desc[i1 as usize].next;
        let data_flags = if ty == VIRTIO_BLK_T_IN {
            VRING_DESC_F_NEXT | VRING_DESC_F_WRITE
        } else {
            VRING_DESC_F_NEXT
        };
        let hdr_addr = slice_addr(hdr.as_slice());
        let status_addr = slice_addr(status.as_slice());
        self.queue.set_desc(head, hdr_addr, 16, VRING_DESC_F_NEXT);
        self.queue.set_desc(i1, data_addr, (n * SECTOR_SIZE) as u32, data_flags);
        self.queue.set_desc(i2, status_addr, 1, VRING_DESC_F_WRITE);
        let ghost d = self.queue.desc@;
        proof {
            assert(l[0] != l[1] && l[1] != l[2] && l[0] != l[2]) by {
                assert(q0.free().no_duplicates());
                assert(l[0] == q0.free()[0] && l[1] == q0.free()[1] && l[2] == q0.free()[2]);
            }
            lemma_desc_flag_bits();
            assert(is_chain(d, head, l));
            assert(l.no_duplicates());
            assert(in_table(l, self.queue.size));
            assert forall|a: int, b: int| 0 <= a < l.len() && 0 <= b < self.queue.free().len() implies l[a] != self.queue.free()[b] by {
                assert(l[a] == q0.free()[a]);
                assert(self.queue.free()[b] == q0.free()[b + 3]);
            }
        }
        self.queue.push_avail(head);
        let req = BlkRequest { head, chain: Ghost(l), header: hdr, status, data };
        Ok(req)
    }

    /// Start reading `n` sectors from `sector` into `buf`, which must hold
    /// at least `n * 512` bytes.
    pub fn read_sectors(&mut self, sector: u64, n: usize, buf: &mut [u8]) -> (r: Result<BlkRequest, &'static str>)
        requires
            old(self).queue.wf(),
            n * SECTOR_SIZE <= usize::MAX,
        ensures
            final(self).queue.wf(),
            final(buf)@ == old(buf)@,
            old(buf)@.len() < n * SECTOR_SIZE ==> r == Err::<BlkRequest, &'static str>("buffer too small") && final(self).queue == old(self).queue,
            old(buf)@.len() >= n * SECTOR_SIZE && old(self).queue.num_free < 3 ==> r == Err::<BlkRequest, &'static str>(
                "virtio-blk: virtqueue full",
            ) && final(self).queue == old(self).queue,
            old(buf)@.len() >= n * SECTOR_SIZE && old(self).queue.num_free >= 3 ==> (r matches Ok(req) && {
                let l = old(self).queue.free().take(3);
                let d = final(self).queue.desc@;
                &&& req.chain@ == l
                &&& req.head == l[0]
                &&& req.header@ == header_bytes(VIRTIO_BLK_T_IN, sector)
                &&& req.status@.len() == 1
                &&& req.data@.len() == 0
                &&& d[l[1] as int].addr != 0 && d[l[1] as int].addr + old(buf)@.len() <= 0x1_0000_0000_0000_0000
                &&& d[l[0] as int].addr != 0 && d[l[0] as int].addr + req.header@.len() <= 0x1_0000_0000_0000_0000
                &&& d[l[2] as int].addr != 0 && d[l[2] as int].addr + req.status@.len() <= 0x1_0000_0000_0000_0000
                &&& final(self).in_flight(&req)
                &&& final(self).queue.free() == old(self).queue.free().skip(3)
                &&& d[l[0] as int].len == 16 && d[l[0] as int].flags == VRING_DESC_F_NEXT
                &&& d[l[1] as int].len == (n * SECTOR_SIZE) as u32
                &&& d[l[1] as int].flags == VRING_DESC_F_NEXT | VRING_DESC_F_WRITE
                &&& d[l[2] as int].len == 1 && d[l[2] as int].flags == VRING_DESC_F_WRITE
                &&& final(self).queue.avail_entry((old(self).queue.avail_idx() % old(self).queue.size) as int) == l[0]
                &&& published_once(old(self).queue.avail_bytes(), final(self).queue.avail_bytes(), old(self).queue.size, l[0])
                &&& final(self).queue.table_synced()
            }),
            same_rings(old(self).queue, final(self).queue),
    {
        if buf.len() < n * SECTOR_SIZE {
            return Err("buffer too small");
        }
        let addr = slice_addr(&*buf);
        self.submit(VIRTIO_BLK_T_IN, sector, n, addr, Vec::new())
    }

    /// Start writing `n` sectors from `buf` (at least `n * 512` bytes) to
    /// the disk at `sector`. The bytes are copied into the request.
    pub fn write_sectors(&mut self, sector: u64, n: usize, buf: &[u8]) -> (r: Result<BlkRequest, &'static str>)
        requires
            old(self).queue.wf(),
            n * SECTOR_SIZE <= usize::MAX,
        ensures
            final(self).queue.wf(),
            buf@.len() < n * SECTOR_SIZE ==> r == Err::<BlkRequest, &'static str>("buffer too small") && final(self).queue == old(self).queue,
            buf@.len() >= n * SECTOR_SIZE && old(self).queue.num_free < 3 ==> r == Err::<BlkRequest, &'static str>(
                "virtio-blk: virtqueue full",
            ) && final(self).queue == old(self).queue,
            buf@.len() >= n * SECTOR_SIZE && old(self).queue.num_free >= 3 ==> (r matches Ok(req) && {
                let l = old(self).queue.free().take(3);
                let d = final(self).queue.desc@;
                &&& req.chain@ == l
                &&& req.head == l[0]
                &&& req.header@ == header_bytes(VIRTIO_BLK_T_OUT, sector)
                &&& req.status@.len() == 1
                &&& req.data@ == buf@.take(n * SECTOR_SIZE)
                &&& d[l[1] as int].addr != 0 && d[l[1] as int].addr + req.data@.len() <= 0x1_0000_0000_0000_0000
                &&& d[l[0] as int].addr != 0 && d[l[0] as int].addr + req.header@.len() <= 0x1_0000_0000_0000_0000
                &&& d[l[2] as int].addr != 0 && d[l[2] as int].addr + req.status@.len() <= 0x1_0000_0000_0000_0000
                &&& final(self).in_flight(&req)
                &&& final(self).queue.free() == old(self).queue.free().skip(3)
                &&& d[l[0] as int].len == 16 && d[l[0] as int].flags == VRING_DESC_F_NEXT
                &&& d[l[1] as int].len == (n * SECTOR_SIZE) as u32
                &&& d[l[1] as int].flags == VRING_DESC_F_NEXT
                &&& d[l[2] as int].len == 1 && d[l[2] as int].flags == VRING_DESC_F_WRITE
                &&& final(self).queue.avail_entry((old(self).queue.avail_idx() % old(self).queue.size) as int) == l[0]
                &&& published_once(old(self).queue.avail_bytes(), final(self).queue.avail_bytes(), old(self).queue.size, l[0])
                &&& final(self).queue.table_synced()
            }),
            same_rings(old(self).queue, final(self).queue),
    {
        if buf.len() < n * SECTOR_SIZE {
            return Err("buffer too small");
        }
        let len = n * SECTOR_SIZE;
        let mut tmp: Vec<u8> = Vec::new();
        let mut i: usize = 0;
        while i < len
            invariant
                i <= len,
                len <= buf@.len(),
                tmp@ == buf@.take(i as int),
            decreases len - i,
        {
            tmp.push(buf[i]);
            assert(buf@.take(i + 1) =~= buf@.take(i as int).push(buf@[i as int]));
            i = i + 1;
        }
        let addr = slice_addr(tmp.as_slice());
        self.submit(VIRTIO_BLK_T_OUT, sector, n, addr, tmp)
    }

    /// Finish `req` once the device has used it: collect the used entry,
    /// free the chain, and report the `status` byte the device wrote into
    /// `req.status` (read by the caller, as the device writes it by DMA).
    pub fn complete(&mut self, req: BlkRequest, status: u8) -> (r: Result<(), &'static str>)
        requires
            old(self).queue.wf(),
            old(self).in_flight(&req),
            old(self).queue.used_idx() != old(self).queue.last_used_idx,
        ensures
            final(self).queue.wf(),
            final(self).queue.free() == req.chain@.reverse() + old(self).queue.free(),
            final(self).queue.last_used_idx == (if old(self).queue.last_used_idx == u16::MAX {
                0
            } else {
                (old(self).queue.last_used_idx + 1) as u16
            }),
            r == (if status == VIRTIO_BLK_S_OK {
                Ok::<(), &'static str>(())
            } else {
                Err::<(), &'static str>("virtio-blk: device error")
            }),
            same_rings(old(self).queue, final(self).queue),
    {
        let _ = self.queue.wait_used();
        self.queue.free_chain(req.head);
        if status == VIRTIO_BLK_S_OK {
            Ok(())
        } else {
            Err("virtio-blk: device error")
        }
    }
}

/// Size of the request queue for a device whose queue 0 holds at most
/// `max` entries: none when the device has no request queue.
pub fn queue_size(max: u32) -> (r: Option<u16>)
    ensures
        max == 0 ==> r is None,
        max != 0 ==> r == Some(if (max as u16) < QUEUE_SIZE { max as u16 } else { QUEUE_SIZE }),
{
    if max == 0 {
        return None;
    }
    let m = max as u16;
    Some(if m < QUEUE_SIZE { m } else { QUEUE_SIZE })
}

/// Where the bring-up of a virtio-blk device stands.
#[derive(Debug, Clone, Copy, PartialEq, Eq, Structural)]
pub enum BlkInit {
    /// Waiting for the identification registers.
    Start,
    /// Waiting for the device features.
    Features,
    /// Waiting for the request queue's maximum size.
    QueueMax,
    /// Waiting for the capacity, with a `size`-entry request queue set up.
    Capacity { size: u16 },
    /// Up, with `capacity` sectors.
    Ready { capacity: u64 },
    /// Bring-up stopped: the device has no request queue, or it could
    /// not be identified.
    Failed { missing_queue: bool },
}

/// What the platform reports back to the bring-up.
#[derive(Debug, Clone, Copy, PartialEq, Eq, Structural)]
pub enum BlkEvent {
    /// The magic, version and device-id registers.
    Ident { magic: u32, version: u32, device_id: u32 },
    /// The two device-feature halves and the status register.
    Features { lo: u32, hi: u32, status: u32 },
    /// The selected queue's maximum size.
    QueueMax { max: u32 },
    /// The two halves of the capacity (configuration bytes 0 to 7) and
    /// the status register.
    Capacity { lo: u32, hi: u32, status: u32 },
}

/// What the bring-up asks of the platform next.
pub enum BlkAction {
    /// Store `writes`, then read the device-feature halves and the
    /// status register.
    ReadFeatures { writes: Vec<RegWrite> },
    /// Store `writes` (the last one selects queue 0), then read the
    /// queue's maximum size.
    ReadQueueMax { writes: Vec<RegWrite> },
    /// Make a `size`-entry request queue, configure it as queue 0, then
    /// read the capacity halves and the status register.
    ConfigureAndReadCapacity { size: u16 },
    /// Store `driver_ok`: the device is up with `capacity` sectors.
    Finish { capacity: u64, driver_ok: RegWrite },
    /// Give up, reporting `reason`.
    Stop { reason: &'static str },
}

/// Whether `e` is what bring-up state `s` waits for.
pub open spec fn blk_awaits(s: BlkInit, e: BlkEvent) -> bool {
    match s {
        BlkInit::Start => e is Ident,
        BlkInit::Features => e is Features,
        BlkInit::QueueMax => e is QueueMax,
        BlkInit::Capacity { .. } => e is Capacity,
        BlkInit::Ready { .. } => false,
        BlkInit::Failed { .. } => false,
    }
}

/// One step of bringing up the virtio-blk device at transport `t`: from
/// state `s` and the report `e` it waited for, the next state and what
/// to do. Identify the device, accept VERSION_1 only, set up the request
/// queue (a device without one is refused), read the capacity, and set
/// DRIVER_OK.
pub fn blk_init_step(t: &Transport, s: BlkInit, e: BlkEvent) -> (r: (BlkInit, BlkAction))
    requires
        blk_awaits(s, e),
    ensures
        s is Start ==> (e matches BlkEvent::Ident { magic, version, device_id } && if ident_ok(magic, version, device_id) {
            r.0 == BlkInit::Features && (r.1 matches BlkAction::ReadFeatures { writes } && writes@ == begin_writes())
        } else {
            r.0 == (BlkInit::Failed { missing_queue: false }) && (r.1 matches BlkAction::Stop { reason } && reason
                == "init_begin failed")
        }),
        s is Features ==> (e matches BlkEvent::Features { lo, hi, status } && r.0 == BlkInit::QueueMax && (
        r.1 matches BlkAction::ReadQueueMax { writes } && writes@ == features_writes(accepted_features(lo, hi), status).push(
            RegWrite { offset: REG_QUEUE_SEL, value: 0 },
        ))),
        s is QueueMax ==> (e matches BlkEvent::QueueMax { max } && if max == 0 {
            r.0 == (BlkInit::Failed { missing_queue: true }) && (r.1 matches BlkAction::Stop { reason } && reason
                == "virtio-blk: no requestq")
        } else {
            let size = if (max as u16) < QUEUE_SIZE { max as u16 } else { QUEUE_SIZE };
            r.0 == (BlkInit::Capacity { size }) && (r.1 matches BlkAction::ConfigureAndReadCapacity { size: z } && z
                == size)
        }),
        s is Capacity ==> (e matches BlkEvent::Capacity { lo, hi, status } && r.0 == (BlkInit::Ready {
            capacity: (hi as int * 0x1_0000_0000 + lo as int) as u64,
        }) && (r.1 matches BlkAction::Finish { capacity, driver_ok } && capacity == (hi as int * 0x1_0000_0000
            + lo as int) as u64 && driver_ok == (RegWrite { offset: REG_STATUS, value: status | STATUS_DRIVER_OK }))),
{
    match (s, e) {
        (BlkInit::Start, BlkEvent::Ident { magic, version, device_id }) => match t.begin(magic, version, device_id) {
            Ok(writes) => (BlkInit::Features, BlkAction::ReadFeatures { writes }),
            Err(reason) => (BlkInit::Failed { missing_queue: false }, BlkAction::Stop { reason }),
        },
        (BlkInit::Features, BlkEvent::Features { lo, hi, status }) => {
            let mut writes = t.negotiate(lo, hi, status);
            writes.push(t.queue_max(0));
            (BlkInit::QueueMax, BlkAction::ReadQueueMax { writes })
        },
        (BlkInit::QueueMax, BlkEvent::QueueMax { max }) => match queue_size(max) {
            Some(size) => (BlkInit::Capacity { size }, BlkAction::ConfigureAndReadCapacity { size }),
            None => (BlkInit::Failed { missing_queue: true }, BlkAction::Stop { reason: "virtio-blk: no requestq" }),
        },
        (BlkInit::Capacity { .. }, BlkEvent::Capacity { lo, hi, status }) => {
            let capacity = t.config_read_u64(lo, hi);
            (BlkInit::Ready { capacity }, BlkAction::Finish { capacity, driver_ok: t.driver_ok(status) })
        },
        _ => (s, BlkAction::Stop { reason: "virtio-blk: unexpected event" }),
    }
}

} // verus!
