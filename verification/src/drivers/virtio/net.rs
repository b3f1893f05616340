//! Virtio-net frames (virtio 1.1 §5.1): a receive queue pre-filled with
//! buffers and a transmit queue used one frame at a time. Every frame on
//! either queue is preceded by a 12-byte `virtio_net_hdr_v1`, left zero.

use vstd::prelude::*;
use crate::drivers::virtio::mmio::{Transport, RegWrite, REG_QUEUE_SEL, REG_STATUS, STATUS_DRIVER_OK, begin_writes, features_writes, accepted_features, ident_ok};
use crate::drivers::virtio::queue::{
    Virtqueue, Desc, VRING_DESC_F_WRITE, is_chain, in_table, disjoint, is_pow2, slice_addr, same_rings,
    lemma_free_list_len, published_once,
};

verus! {

pub const QUEUE_RX: u32 = 0;
pub const QUEUE_TX: u32 = 1;

/// Largest frame: 1500 bytes of payload and the 14-byte Ethernet header.
pub const MTU: usize = 1514;

/// Bytes of the `virtio_net_hdr_v1` in front of every frame.
pub const HDR_BYTES: usize = 12;

/// Size of each receive buffer.
pub const RX_BUF_SIZE: usize = 1526;

/// Entries of each queue at most.
pub const QUEUE_SIZE: u16 = 16;

/// A frame handed to the transmit queue, with the buffer the device reads.
pub struct NetTx {
    pub head: u16,
    pub chain: Ghost<Seq<u16>>,
    pub buf: Vec<u8>,
    /// Length of the frame, without the header.
    pub len: usize,
}

/// A virtio-net device: its queues and MAC address. The receive buffers
/// (one per receive descriptor) are device memory that the device fills
/// by DMA; their owner passes them to [`VirtioNet::recv`].
pub struct VirtioNet {
    pub transport: Transport,
    pub rx: Virtqueue,
    pub tx: Virtqueue,
    pub mac: [u8; 6],
}

/// The `n`-byte frame copied out of a receive buffer whose used entry
/// reports `len` bytes, into a buffer of `cap` bytes.
pub open spec fn rx_copy_len(len: u32, cap: int) -> int {
    let avail = if len >= HDR_BYTES { len - HDR_BYTES } else { 0 };
    if avail <= cap {
        avail
    } else {
        cap
    }
}

/// Whether the next used entry of the receive queue `rx`, if any, names
/// a descriptor of the queue with a buffer in `rx_bufs` long enough for
/// the header and the bytes copied into a buffer of `cap` bytes.
pub open spec fn rx_entry_fits(rx: Virtqueue, rx_bufs: Seq<Vec<u8>>, cap: int) -> bool {
    rx.used_idx() != rx.last_used_idx ==> {
        let e = rx.used_entry((rx.last_used_idx % rx.size) as int);
        let h = e.0 as u16;
        &&& h < rx.size
        &&& h < rx_bufs.len()
        &&& HDR_BYTES + rx_copy_len(e.1, cap) <= rx_bufs[h as int]@.len()
    }
}

impl VirtioNet {
    /// Whether [`VirtioNet::recv`] may be called with `rx_bufs` and an
    /// output buffer of `cap` bytes: the entry the device reported next
    /// fits (see [`rx_entry_fits`]).
    pub fn rx_entry_ok(&self, rx_bufs: &Vec<Vec<u8>>, cap: usize) -> (r: bool)
        requires
            self.rx.wf(),
        ensures
            r == rx_entry_fits(self.rx, rx_bufs@, cap as int),
    {
        match self.rx.peek_used() {
            None => true,
            Some((id, len)) => {
                let h = id as u16;
                if h >= self.rx.size || h as usize >= rx_bufs.len() {
                    return false;
                }
                let avail: usize = if len as usize >= HDR_BYTES {
                    len as usize - HDR_BYTES
                } else {
                    0
                };
                let n = if avail <= cap {
                    avail
                } else {
                    cap
                };
                n <= rx_bufs[h as usize].len() && HDR_BYTES <= rx_bufs[h as usize].len() - n
            },
        }
    }

    /// Whether `tx` is in flight on the transmit queue.
    pub open spec fn tx_in_flight(&self, tx: &NetTx) -> bool {
        &&& is_chain(self.tx.desc@, tx.head, tx.chain@)
        &&& tx.chain@.no_duplicates()
        &&& in_table(tx.chain@, self.tx.size)
        &&& disjoint(tx.chain@, self.tx.free())
        &&& tx.chain@.len() == 1
    }

    pub fn mac_address(&self) -> (m: [u8; 6])
        ensures
            m == self.mac,
    {
        self.mac
    }

    /// Queue `frame` for transmission: a zero header then the frame in one
    /// device-readable descriptor. Refused when the frame is longer than
    /// [`MTU`] or no descriptor is free.
    pub fn send(&mut self, frame: &[u8]) -> (r: Result<NetTx, &'static str>)
        requires
            old(self).tx.wf(),
        ensures
            final(self).tx.wf(),
            final(self).rx == old(self).rx,
            frame@.len() > MTU ==> r == Err::<NetTx, &'static str>("frame too large") && final(self).tx == old(self).tx,
            frame@.len() <= MTU && old(self).tx.num_free == 0 ==> r == Err::<NetTx, &'static str>("virtqueue full") && final(self).tx == old(self).tx,
            frame@.len() <= MTU && old(self).tx.num_free > 0 ==> (r matches Ok(t) && {
                let h = old(self).tx.free()[0];
                &&& t.head == h
                &&& t.len == frame@.len()
                &&& t.buf@ == Seq::new(HDR_BYTES as nat, |i: int| 0u8) + frame@
                &&& final(self).tx_in_flight(&t)
                &&& final(self).tx.desc@[h as int].len == (HDR_BYTES + frame@.len()) as u32
                &&& final(self).tx.desc@[h as int].flags == 0
                &&& final(self).tx.desc@[h as int].addr != 0
                &&& final(self).tx.desc@[h as int].addr + t.buf@.len() <= 0x1_0000_0000_0000_0000
                &&& final(self).tx.free() == old(self).tx.free().skip(1)
                &&& final(self).tx.avail_entry(
                    (old(self).tx.avail_idx() % old(self).tx.size) as int,
                ) == h
                &&& published_once(old(self).tx.avail_bytes(), final(self).tx.avail_bytes(), old(self).tx.size, h)
                &&& final(self).tx.table_synced()
            }),
            same_rings(old(self).tx, final(self).tx),
    {
        if frame.len() > MTU {
            return Err("frame too large");
        }
        if self.tx.num_free == 0 {
            return Err("virtqueue full");
        }
        let mut buf: Vec<u8> = Vec::new();
        let mut i: usize = 0;
        while i < HDR_BYTES
            invariant
                i <= HDR_BYTES,
                buf@ == Seq::new(i as nat, |k: int| 0u8),
            decreases HDR_BYTES - i,
        {
            buf.push(0);
            assert(buf@ =~= Seq::new((i + 1) as nat, |k: int| 0u8));
            i = i + 1;
        }
        let mut j: usize = 0;
        while j < frame.len()
            invariant
                j <= frame@.len(),
                buf@ == Seq::new(HDR_BYTES as nat, |k: int| 0u8) + frame@.take(j as int),
            decreases frame.len() - j,
        {
            buf.push(frame[j]);
            assert(frame@.take(j + 1) =~= frame@.take(j as int).push(frame@[j as int]));
            j = j + 1;
        }
        assert(frame@.take(frame@.len() as int) =~= frame@);
        let len = buf.len() as u32;
        let addr = slice_addr(buf.as_slice());
        let ghost q0 = self.tx;
        let ghost l = q0.free().take(1);
        proof {
            lemma_free_list_len(q0.desc@, q0.free_head, q0.num_free as nat);
        }
        let head = match self.tx.alloc_chain(1) {
            Some(h) => h,
            None => {
                return Err("virtqueue full");
            },
        };
        proof {
            assert(in_table(q0.free(), q0.size));
            assert(l[0] == q0.free()[0]);
        }
        self.tx.set_desc(head, addr, len, 0);
        proof {
            crate::drivers::virtio::queue::lemma_desc_flag_bits();
            assert(is_chain(self.tx.desc@, head, l));
            assert forall|a: int, b: int| 0 <= a < l.len() && 0 <= b < self.tx.free().len() implies l[a] != self.tx.free()[b] by {
                assert(self.tx.free()[b] == q0.free()[b + 1]);
                assert(q0.free().no_duplicates());
            }
        }
        self.tx.push_avail(head);
        Ok(NetTx { head, chain: Ghost(l), buf, len: frame.len() })
    }

    /// Finish a transmission the device has used: collect the used entry
    /// and free the descriptor. Returns the frame's length.
    pub fn send_complete(&mut self, tx: NetTx) -> (n: usize)
        requires
            old(self).tx.wf(),
            old(self).tx_in_flight(&tx),
            old(self).tx.used_idx() != old(self).tx.last_used_idx,
        ensures
            final(self).tx.wf(),
            final(self).rx == old(self).rx,
            final(self).tx.free() == tx.chain@.reverse() + old(self).tx.free(),
            n == tx.len,
            same_rings(old(self).tx, final(self).tx),
    {
        let _ = self.tx.wait_used();
        self.tx.free_chain(tx.head);
        tx.len
    }

    /// Take the next received frame, if the device has delivered one:
    /// copy it from its receive buffer in `rx_bufs` (without its header,
    /// cut to `out`'s length) into `out`, then give the buffer back to the
    /// device. Returns the bytes copied.
    pub fn recv(&mut self, rx_bufs: &Vec<Vec<u8>>, out: &mut [u8]) -> (r: Option<usize>)
        requires
            old(self).rx.wf(),
            rx_entry_fits(old(self).rx, rx_bufs@, old(out)@.len() as int),
        ensures
            final(self).rx.wf(),
            final(self).tx == old(self).tx,
            old(self).rx.used_idx() == old(self).rx.last_used_idx ==> r is None && final(out)@ == old(out)@
                && final(self).rx == old(self).rx,
            old(self).rx.used_idx() != old(self).rx.last_used_idx ==> {
                let e = old(self).rx.used_entry((old(self).rx.last_used_idx % old(self).rx.size) as int);
                let h = e.0 as u16;
                let n = rx_copy_len(e.1, old(out)@.len() as int);
                let b = rx_bufs@[h as int]@;
                &&& r == Some(n as usize)
                &&& final(out)@ == Seq::new(old(out)@.len(), |i: int| if i < n { b[HDR_BYTES + i] } else { old(out)@[i] })
                &&& final(self).rx.desc@[h as int].len == RX_BUF_SIZE as u32
                &&& final(self).rx.desc@[h as int].flags == VRING_DESC_F_WRITE
                &&& final(self).rx.desc@[h as int].next == old(self).rx.desc@[h as int].next
                &&& final(self).rx.avail_entry((old(self).rx.avail_idx() % old(self).rx.size) as int) == h
                &&& published_once(old(self).rx.avail_bytes(), final(self).rx.avail_bytes(), old(self).rx.size, h)
                &&& final(self).rx.table_synced()
            },
            same_rings(old(self).rx, final(self).rx),
    {
        let (id, len) = match self.rx.pop_used() {
            Some(e) => e,
            None => {
                return None;
            },
        };
        let head = id as u16;
        let avail = if len as usize >= HDR_BYTES {
            len as usize - HDR_BYTES
        } else {
            0
        };
        let n = if avail <= out.len() {
            avail
        } else {
            out.len()
        };
        let ghost o0 = out@;
        assert(rx_bufs@[head as int].len() == rx_bufs@[head as int]@.len());
        let mut k: usize = 0;
        while k < n
            invariant
                k <= n,
                n <= out@.len(),
                out@.len() == o0.len(),
                head < rx_bufs@.len(),
                HDR_BYTES + n <= rx_bufs@[head as int]@.len(),
                HDR_BYTES + n <= rx_bufs@[head as int].len(),
                forall|i: int| 0 <= i < k ==> out@[i] == rx_bufs@[head as int]@[HDR_BYTES + i],
                forall|i: int| k <= i < out@.len() ==> out@[i] == o0[i],
            decreases n - k,
        {
            out[k] = rx_bufs[head as usize][HDR_BYTES + k];
            k = k + 1;
        }
        let b = &rx_bufs[head as usize];
        let addr = slice_addr(b.as_slice());
        self.rx.set_desc(head, addr, RX_BUF_SIZE as u32, VRING_DESC_F_WRITE);
        self.rx.push_avail(head);
        assert(out@ =~= Seq::new(o0.len(), |i: int| if i < n { rx_bufs@[head as int]@[HDR_BYTES + i] } else { o0[i] }));
        Some(n)
    }
}

/// The receive queue of `size` entries with every descriptor pointing at
/// its own zeroed buffer of [`RX_BUF_SIZE`] bytes, device-writable, and
/// every descriptor already offered to the device, in index order.
pub fn setup_rx(size: u16) -> (r: (Virtqueue, Vec<Vec<u8>>))
    requires
        is_pow2(size),
    ensures
        r.0.wf(),
        r.0.size == size,
        r.0.num_free == 0,
        r.0.last_used_idx == 0,
        r.0.avail_idx() == size,
        forall|i: int| 0 <= i < size ==> #[trigger] r.0.avail_entry(i) == i,
        r.1@.len() == size,
        forall|i: int| 0 <= i < size ==> {
            &&& #[trigger] r.0.desc@[i].len == RX_BUF_SIZE as u32
            &&& r.0.desc@[i].flags == VRING_DESC_F_WRITE
            &&& r.0.desc@[i].next == 0
            &&& r.1@[i]@ == Seq::new(RX_BUF_SIZE as nat, |k: int| 0u8)
        },
{
    let mut q = Virtqueue::new(size);
    let mut bufs: Vec<Vec<u8>> = Vec::new();
    q.num_free = 0;
    q.free_head = 0;
    let mut i: u16 = 0;
    while i < size
        invariant
            i <= size,
            q.wf(),
            q.size == size,
            q.num_free == 0,
            q.last_used_idx == 0,
            q.avail_idx() == 0,
            bufs@.len() == i,
            forall|k: int| 0 <= k < i ==> {
                &&& #[trigger] q.desc@[k].len == RX_BUF_SIZE as u32
                &&& q.desc@[k].flags == VRING_DESC_F_WRITE
                &&& q.desc@[k].next == 0
                &&& bufs@[k]@ == Seq::new(RX_BUF_SIZE as nat, |j: int| 0u8)
            },
        decreases size - i,
    {
        let mut b: Vec<u8> = Vec::new();
        let mut j: usize = 0;
        while j < RX_BUF_SIZE
            invariant
                j <= RX_BUF_SIZE,
                b@ == Seq::new(j as nat, |k: int| 0u8),
            decreases RX_BUF_SIZE - j,
        {
            b.push(0);
            assert(b@ =~= Seq::new((j + 1) as nat, |k: int| 0u8));
            j = j + 1;
        }
        let addr = slice_addr(b.as_slice());
        q.desc.set(i as usize, Desc { addr, len: RX_BUF_SIZE as u32, flags: VRING_DESC_F_WRITE, next: 0 });
        bufs.push(b);
        i = i + 1;
    }
    let mut k: u16 = 0;
    while k < size
        invariant
            k <= size,
            q.wf(),
            q.size == size,
            q.num_free == 0,
            q.last_used_idx == 0,
            q.avail_idx() == k,
            forall|m: int| 0 <= m < k ==> #[trigger] q.avail_entry(m) == m,
            bufs@.len() == size,
            forall|m: int| 0 <= m < size ==> {
                &&& #[trigger] q.desc@[m].len == RX_BUF_SIZE as u32
                &&& q.desc@[m].flags == VRING_DESC_F_WRITE
                &&& q.desc@[m].next == 0
                &&& bufs@[m]@ == Seq::new(RX_BUF_SIZE as nat, |j: int| 0u8)
            },
        decreases size - k,
    {
        q.push_avail(k);
        proof {
            vstd::arithmetic::div_mod::lemma_small_mod(k as nat, size as nat);
        }
        k = k + 1;
    }
    (q, bufs)
}

/// Where the bring-up of a virtio-net device stands.
#[derive(Debug, Clone, Copy)]
pub enum NetInit {
    /// Waiting for the identification registers.
    Start,
    /// Waiting for the device features.
    Features,
    /// Waiting for the MAC address and the receive queue's maximum size.
    MacAndQueueMax,
    /// Up, with MAC address `mac` and two `size`-entry queues.
    Ready { mac: [u8; 6], size: u16 },
    /// Bring-up stopped: the device has no receive queue, or it could
    /// not be identified.
    Failed { missing_queue: bool },
}

/// What the platform reports back to the bring-up.
#[derive(Debug, Clone, Copy)]
pub enum NetEvent {
    /// The magic, version and device-id registers.
    Ident { magic: u32, version: u32, device_id: u32 },
    /// The two device-feature halves and the status register.
    Features { lo: u32, hi: u32, status: u32 },
    /// Configuration bytes 0 to 5 (the MAC address), the receive queue's
    /// maximum size and the status register.
    MacAndQueueMax { mac: [u8; 6], max: u32, status: u32 },
}

/// What the bring-up asks of the platform next.
pub enum NetAction {
    /// Store `writes`, then read the device-feature halves and the
    /// status register.
    ReadFeatures { writes: Vec<RegWrite> },
    /// Store `writes`, read configuration bytes 0 to 5, store `select`,
    /// then read the selected queue's maximum size and the status
    /// register.
    ReadMacAndQueueMax { writes: Vec<RegWrite>, select: RegWrite },
    /// Make the `size`-entry receive queue with its buffers (see
    /// [`setup_rx`]) and a `size`-entry transmit queue, configure them as
    /// queues [`QUEUE_RX`] and [`QUEUE_TX`], then store `driver_ok`.
    SetUpQueues { size: u16, driver_ok: RegWrite },
    /// Give up, reporting `reason`.
    Stop { reason: &'static str },
}

/// Whether `e` is what bring-up state `s` waits for.
pub open spec fn net_awaits(s: NetInit, e: NetEvent) -> bool {
    match s {
        NetInit::Start => e is Ident,
        NetInit::Features => e is Features,
        NetInit::MacAndQueueMax => e is MacAndQueueMax,
        NetInit::Ready { .. } => false,
        NetInit::Failed { .. } => false,
    }
}

/// One step of bringing up the virtio-net device at transport `t`: from
/// state `s` and the report `e` it waited for, the next state and what
/// to do. Identify the device, accept VERSION_1 only, read the MAC
/// address, size both queues after the receive queue's maximum (a
/// device without one is refused), set them up, and set DRIVER_OK.
pub fn net_init_step(t: &Transport, s: NetInit, e: NetEvent) -> (r: (NetInit, NetAction))
    requires
        net_awaits(s, e),
    ensures
        s is Start ==> (e matches NetEvent::Ident { magic, version, device_id } && if ident_ok(magic, version, device_id) {
            r.0 == NetInit::Features && (r.1 matches NetAction::ReadFeatures { writes } && writes@ == begin_writes())
        } else {
            r.0 == (NetInit::Failed { missing_queue: false }) && (r.1 matches NetAction::Stop { reason } && reason
                == "init_begin failed")
        }),
        s is Features ==> (e matches NetEvent::Features { lo, hi, status } && r.0 == NetInit::MacAndQueueMax && (
        r.1 matches NetAction::ReadMacAndQueueMax { writes, select } && writes@ == features_writes(
            accepted_features(lo, hi),
            status,
        ) && select == (RegWrite { offset: REG_QUEUE_SEL, value: QUEUE_RX }))),
        s is MacAndQueueMax ==> (e matches NetEvent::MacAndQueueMax { mac, max, status } && if max == 0 {
            r.0 == (NetInit::Failed { missing_queue: true }) && (r.1 matches NetAction::Stop { reason } && reason
                == "virtio-net: no rx queue")
        } else {
            let size = if (max as u16) < QUEUE_SIZE { max as u16 } else { QUEUE_SIZE };
            r.0 == (NetInit::Ready { mac, size }) && (r.1 matches NetAction::SetUpQueues { size: z, driver_ok } && z
                == size && driver_ok == (RegWrite { offset: REG_STATUS, value: status | STATUS_DRIVER_OK }))
        }),
{
    match (s, e) {
        (NetInit::Start, NetEvent::Ident { magic, version, device_id }) => match t.begin(magic, version, device_id) {
            Ok(writes) => (NetInit::Features, NetAction::ReadFeatures { writes }),
            Err(reason) => (NetInit::Failed { missing_queue: false }, NetAction::Stop { reason }),
        },
        (NetInit::Features, NetEvent::Features { lo, hi, status }) => {
            let writes = t.negotiate(lo, hi, status);
            (NetInit::MacAndQueueMax, NetAction::ReadMacAndQueueMax { writes, select: t.queue_max(QUEUE_RX) })
        },
        (NetInit::MacAndQueueMax, NetEvent::MacAndQueueMax { mac, max, status }) => {
            if max == 0 {
                (NetInit::Failed { missing_queue: true }, NetAction::Stop { reason: "virtio-net: no rx queue" })
            } else {
                let m = max as u16;
                let size = if m < QUEUE_SIZE {
                    m
                } else {
                    QUEUE_SIZE
                };
                (NetInit::Ready { mac, size }, NetAction::SetUpQueues { size, driver_ok: t.driver_ok(status) })
            }
        },
        _ => (s, NetAction::Stop { reason: "virtio-net: unexpected event" }),
    }
}

} // verus!
