//! Virtio split virtqueue (virtio 1.1 §2.6).
//!
//! * Descriptor table: `[Desc; size]`.
//! * Available ring: `flags:u16, idx:u16, ring:[u16; size], used_event:u16`.
//! * Used ring: `flags:u16, idx:u16, ring:[UsedElem; size], avail_event:u16`.
//!
//! The three rings share one heap buffer that the device reads and
//! writes: the descriptor table starts on a page boundary inside it, the
//! available ring follows the table directly, and the used ring follows
//! on the next 4-byte boundary. The driver keeps its working copy of the
//! table in `desc` and copies it into the shared buffer each time it
//! publishes a chain.
//!
//! Free descriptors form a singly linked list through `next`, starting at
//! `free_head` and `num_free` entries long. The contracts below state
//! how allocation and release move descriptors between that list and the
//! chains handed to the device.

use vstd::prelude::*;

verus! {

/// One descriptor-table entry.
#[derive(Debug, Clone, Copy, PartialEq, Eq, Structural)]
pub struct Desc {
    pub addr: u64,
    pub len: u32,
    pub flags: u16,
    pub next: u16,
}

pub const VRING_DESC_F_NEXT: u16 = 1;

pub const VRING_DESC_F_WRITE: u16 = 2;

/// Header of the available ring (the ring entries follow it in memory).
#[derive(Debug)]
pub struct AvailRing {
    pub flags: u16,
    pub idx: u16,
    pub ring: [u16; 0],
}

/// One entry of the used ring: descriptor head and bytes written.
#[derive(Debug, Clone, Copy, PartialEq, Eq, Structural)]
pub struct UsedElem {
    pub id: u32,
    pub len: u32,
}

/// Header of the used ring (the ring entries follow it in memory).
#[derive(Debug)]
pub struct UsedRing {
    pub flags: u16,
    pub idx: u16,
    pub ring: [UsedElem; 0],
}

/// Bytes of slack in front of the rings, so that the descriptor table
/// can start on a page boundary wherever the allocator put the buffer.
pub const RING_PAGE: usize = 4096;

/// A split virtqueue whose rings live in one heap buffer.
pub struct Virtqueue {
    pub size: u16,
    /// The driver's copy of the descriptor table.
    pub desc: Vec<Desc>,
    /// The memory shared with the device: descriptor table at `desc_off`,
    /// available ring (flags, idx, ring, used_event) at `avail_off`, used
    /// ring (flags, idx, ring, avail_event) at `used_off`.
    pub ring: Vec<u8>,
    /// Address of `ring[0]`, taken when the buffer was allocated (the
    /// buffer is never resized afterwards).
    pub base: u64,
    pub desc_off: usize,
    pub avail_off: usize,
    pub used_off: usize,
    pub free_head: u16,
    pub num_free: u16,
    pub last_used_idx: u16,
}

/// A descriptor with every field cleared.
pub open spec fn zero_desc() -> Desc {
    Desc { addr: 0, len: 0, flags: 0, next: 0 }
}

/// The `n` descriptor indices reached from `head` by following `next`.
pub open spec fn free_list(desc: Seq<Desc>, head: u16, n: nat) -> Seq<u16>
    decreases n,
{
    if n == 0 {
        Seq::empty()
    } else {
        seq![head] + free_list(desc, desc[head as int].next, (n - 1) as nat)
    }
}

/// Whether `s` is a power of two.
pub open spec fn is_pow2(s: u16) -> bool {
    s > 0 && s & ((s - 1) as u16) == 0
}

/// The little-endian 16-bit value at `off`.
pub open spec fn le16(b: Seq<u8>, off: int) -> u16 {
    (b[off] + 0x100 * b[off + 1]) as u16
}

/// The little-endian 32-bit value at `off`.
pub open spec fn le32(b: Seq<u8>, off: int) -> u32 {
    (b[off] + 0x100 * b[off + 1] + 0x1_0000 * b[off + 2] + 0x100_0000 * b[off + 3]) as u32
}

/// 256 to the power `s`, for `s` below 8.
pub open spec fn pow256(s: int) -> int {
    if s == 0 {
        1
    } else if s == 1 {
        0x100
    } else if s == 2 {
        0x1_0000
    } else if s == 3 {
        0x100_0000
    } else if s == 4 {
        0x1_0000_0000
    } else if s == 5 {
        0x100_0000_0000
    } else if s == 6 {
        0x1_0000_0000_0000
    } else {
        0x100_0000_0000_0000
    }
}

/// Byte `k` (below 16) of descriptor `d` as the device reads it: `addr`,
/// `len`, `flags` and `next`, each little-endian, in that order.
pub open spec fn desc_byte(d: Desc, k: int) -> u8 {
    let v: int = if k < 8 {
        d.addr as int
    } else if k < 12 {
        d.len as int
    } else if k < 14 {
        d.flags as int
    } else {
        d.next as int
    };
    let s: int = if k < 8 {
        k
    } else if k < 12 {
        k - 8
    } else if k < 14 {
        k - 12
    } else {
        k - 14
    };
    ((v / pow256(s)) % 0x100) as u8
}

/// Whether `l` is a chain of descriptors starting at `head`: each entry
/// but the last has `NEXT` set and points at the following one.
pub open spec fn is_chain(desc: Seq<Desc>, head: u16, l: Seq<u16>) -> bool {
    &&& l.len() >= 1
    &&& l[0] == head
    &&& forall|j: int|
        0 <= j < l.len() - 1 ==> #[trigger] desc[l[j] as int].flags & VRING_DESC_F_NEXT != 0
            && desc[l[j] as int].next == l[j + 1]
    &&& desc[l[l.len() - 1] as int].flags & VRING_DESC_F_NEXT == 0
}

/// Whether every index of `l` names a descriptor of a `size`-entry table.
pub open spec fn in_table(l: Seq<u16>, size: u16) -> bool {
    forall|j: int| 0 <= j < l.len() ==> #[trigger] l[j] < size
}

/// Whether no index occurs in both lists.
pub open spec fn disjoint(a: Seq<u16>, b: Seq<u16>) -> bool {
    forall|i: int, j: int| 0 <= i < a.len() && 0 <= j < b.len() ==> a[i] != b[j]
}

/// The descriptors of `l`, freshly allocated and linked into one chain.
pub open spec fn linked(desc: Seq<Desc>, l: Seq<u16>) -> bool {
    &&& forall|j: int|
        0 <= j < l.len() - 1 ==> #[trigger] desc[l[j] as int] == (Desc {
            addr: 0,
            len: 0,
            flags: VRING_DESC_F_NEXT,
            next: l[j + 1],
        })
    &&& l.len() > 0 ==> desc[l[l.len() - 1] as int] == zero_desc()
}

/// What [`Virtqueue::alloc_chain`] leaves after taking `n` descriptors
/// from `q0`: the first `n` free descriptors, linked into a chain, are
/// off the free list.
pub open spec fn chain_taken(q0: Virtqueue, q1: Virtqueue, n: int) -> bool {
    &&& q1.wf()
    &&& q1.size == q0.size
    &&& q1.num_free == q0.num_free - n
    &&& q1.free() == q0.free().skip(n)
    &&& linked(q1.desc@, q0.free().take(n))
}

/// What [`Virtqueue::free_chain`] leaves after returning chain `head`
/// of `q1`: the chain's descriptors go on the front of the free list in
/// reverse order, each with its flags reset to `NEXT` (address and
/// length kept); every other descriptor is unchanged.
pub open spec fn chain_returned(q1: Virtqueue, q2: Virtqueue, head: u16) -> bool {
    forall|l: Seq<u16>|
        is_chain(q1.desc@, head, l) && l.no_duplicates() && in_table(l, q1.size) && disjoint(l, q1.free())
            ==> {
            &&& q2.num_free == q1.num_free + l.len()
            &&& #[trigger] q2.free() == l.reverse() + q1.free()
            &&& forall|k: int|
                0 <= k < l.len() ==> {
                    let d = #[trigger] q2.desc@[l[k] as int];
                    &&& d.flags == VRING_DESC_F_NEXT
                    &&& d.addr == q1.desc@[l[k] as int].addr
                    &&& d.len == q1.desc@[l[k] as int].len
                }
            &&& forall|k: int| 0 <= k < q1.size && !l.contains(k as u16) ==> #[trigger] q2.desc@[k] == q1.desc@[k]
        }
}

/// The available-ring bytes `a1` after publishing chain `head` once on
/// the ring `a0` of a `size`-entry queue: the head goes in the slot the
/// index names, the index advances by exactly one (wrapping), and every
/// other byte (the flags, the other slots, `used_event`) is kept.
pub open spec fn published_once(a0: Seq<u8>, a1: Seq<u8>, size: u16, head: u16) -> bool {
    let i0 = le16(a0, 2);
    let slot = (i0 % size) as int;
    &&& a1.len() == a0.len()
    &&& le16(a1, 2) == (if i0 == u16::MAX {
        0u16
    } else {
        (i0 + 1) as u16
    })
    &&& le16(a1, 4 + 2 * slot) == head
    &&& forall|i: int|
        0 <= i < a0.len() && i != 2 && i != 3 && i != 4 + 2 * slot && i != 4 + 2 * slot + 1 ==> #[trigger] a1[i]
            == a0[i]
}

/// Whether `q1` keeps the shared buffer of `q0` where it was: same
/// address, same length, same ring offsets (so the addresses handed to
/// the device stay valid).
pub open spec fn same_rings(q0: Virtqueue, q1: Virtqueue) -> bool {
    &&& q1.base == q0.base
    &&& q1.ring@.len() == q0.ring@.len()
    &&& q1.desc_off == q0.desc_off
    &&& q1.avail_off == q0.avail_off
    &&& q1.used_off == q0.used_off
}

impl Virtqueue {
    /// Whether `head` starts a chain of distinct in-table descriptors none
    /// of which is free: one that may be returned to the free list.
    pub open spec fn can_free(&self, head: u16) -> bool {
        exists|l: Seq<u16>|
            is_chain(self.desc@, head, l) && l.no_duplicates() && in_table(l, self.size) && disjoint(
                l,
                self.free(),
            )
    }

    /// The free descriptors, in list order.
    pub open spec fn free(&self) -> Seq<u16> {
        free_list(self.desc@, self.free_head, self.num_free as nat)
    }

    /// The available-ring bytes.
    pub open spec fn avail_bytes(&self) -> Seq<u8> {
        self.ring@.subrange(self.avail_off as int, self.avail_off + 4 + 2 * self.size + 2)
    }

    /// The used-ring bytes.
    pub open spec fn used_bytes(&self) -> Seq<u8> {
        self.ring@.subrange(self.used_off as int, self.used_off + 4 + 8 * self.size + 2)
    }

    /// Byte `k` of entry `j` of the descriptor table in the shared buffer.
    pub open spec fn table_byte(&self, j: int, k: int) -> u8 {
        self.ring@[self.desc_off + 16 * j + k]
    }

    /// Whether the table in the shared buffer holds the driver's copy.
    pub open spec fn table_synced(&self) -> bool {
        forall|j: int, k: int|
            0 <= j < self.size && 0 <= k < 16 ==> #[trigger] self.table_byte(j, k) == desc_byte(
                self.desc@[j],
                k,
            )
    }

    /// The layout of the shared buffer: the table on a page boundary, the
    /// available ring right after it, the used ring on a 4-byte boundary
    /// after that, all inside the buffer, which does not wrap around the
    /// address space.
    pub open spec fn layout_ok(&self) -> bool {
        &&& self.base != 0
        &&& self.base + self.ring@.len() <= 0x1_0000_0000_0000_0000
        &&& self.ring@.len() <= usize::MAX
        &&& (self.base + self.desc_off) % 4096 == 0
        &&& self.avail_off == self.desc_off + 16 * self.size
        &&& self.used_off >= self.avail_off + 4 + 2 * self.size + 2
        &&& (self.base + self.used_off) % 4 == 0
        &&& self.ring@.len() == self.used_off + 4 + 8 * self.size + 2
    }

    /// Internal consistency: a power-of-two table, rings laid out in the
    /// shared buffer, and a free list of distinct in-table indices.
    pub open spec fn wf(&self) -> bool {
        &&& is_pow2(self.size)
        &&& self.desc@.len() == self.size
        &&& self.layout_ok()
        &&& self.num_free <= self.size
        &&& in_table(self.free(), self.size)
        &&& self.free().no_duplicates()
    }

    /// Index of the next available-ring slot the driver will fill.
    pub open spec fn avail_idx(&self) -> u16 {
        le16(self.avail_bytes(), 2)
    }

    /// The entry in available-ring slot `i`.
    pub open spec fn avail_entry(&self, i: int) -> u16 {
        le16(self.avail_bytes(), 4 + 2 * i)
    }

    /// Index of the next used-ring slot the device will fill.
    pub open spec fn used_idx(&self) -> u16 {
        le16(self.used_bytes(), 2)
    }

    /// The used element in used-ring slot `i`.
    pub open spec fn used_entry(&self, i: int) -> (u32, u32) {
        (le32(self.used_bytes(), 4 + 8 * i), le32(self.used_bytes(), 4 + 8 * i + 4))
    }

    /// Allocate a `size`-entry queue whose descriptors all start on the
    /// free list in index order. `size` must be a power of two.
    pub fn new(size: u16) -> (q: Self)
        requires
            is_pow2(size),
        ensures
            q.wf(),
            q.size == size,
            q.num_free == size,
            q.free_head == 0,
            q.last_used_idx == 0,
            q.free() == Seq::new(size as nat, |i: int| i as u16),
            q.avail_idx() == 0,
            q.used_idx() == 0,
            q.avail_bytes() == Seq::new((4 + 2 * size + 2) as nat, |i: int| 0u8),
            q.used_bytes() == Seq::new((4 + 8 * size + 2) as nat, |i: int| 0u8),
            forall|i: int|
                0 <= i < size ==> #[trigger] q.desc@[i] == (Desc {
                    addr: 0,
                    len: 0,
                    flags: VRING_DESC_F_NEXT,
                    next: if i + 1 < size {
                        (i + 1) as u16
                    } else {
                        0
                    },
                }),
    {
        let mut desc: Vec<Desc> = Vec::new();
        let mut i: u16 = 0;
        while i < size
            invariant
                i <= size,
                desc@.len() == i,
                forall|k: int|
                    0 <= k < i ==> #[trigger] desc@[k] == (Desc {
                        addr: 0,
                        len: 0,
                        flags: VRING_DESC_F_NEXT,
                        next: if k + 1 < size {
                            (k + 1) as u16
                        } else {
                            0
                        },
                    }),
            decreases size - i,
        {
            let next = if i + 1 < size {
                i + 1
            } else {
                0
            };
            desc.push(Desc { addr: 0, len: 0, flags: VRING_DESC_F_NEXT, next });
            i = i + 1;
        }
        let (ring, base, desc_off, avail_off, used_off) = shared_rings(size);
        let q = Virtqueue {
            size,
            desc,
            ring,
            base,
            desc_off,
            avail_off,
            used_off,
            free_head: 0,
            num_free: size,
            last_used_idx: 0,
        };
        proof {
            lemma_free_list_of_new(q.desc@, size, 0);
            assert(q.free() =~= Seq::new(size as nat, |i: int| i as u16));
            lemma_desc_flag_bits();
            assert(q.avail_bytes() =~= Seq::new((4 + 2 * size + 2) as nat, |i: int| 0u8));
            assert(q.used_bytes() =~= Seq::new((4 + 8 * size + 2) as nat, |i: int| 0u8));
            assert(q.avail_idx() == 0);
            assert(q.used_idx() == 0);
            let f = q.free();
            assert forall|a: int, b: int| 0 <= a < f.len() && 0 <= b < f.len() && a != b implies f[a]
                != f[b] by {}
        }
        q
    }

    /// Address of the descriptor table: on a page boundary inside the
    /// shared buffer.
    pub fn desc_phys(&self) -> (r: u64)
        requires
            self.wf(),
        ensures
            r == self.base + self.desc_off,
            r != 0,
            r % 4096 == 0,
            self.base <= r,
            r + 16 * self.size <= self.base + self.ring@.len(),
    {
        let d = self.base + self.desc_off as u64;
        proof {
            assert(d != 0) by (nonlinear_arith)
                requires
                    d == self.base + self.desc_off,
                    d % 4096 == 0,
                    self.base != 0,
            ;
        }
        d
    }

    /// Address of the available ring: right behind the descriptor table,
    /// inside the shared buffer.
    pub fn avail_phys(&self) -> (r: u64)
        requires
            self.wf(),
        ensures
            r == self.base + self.avail_off,
            r == self.base + self.desc_off + 16 * self.size,
            r + 4 + 2 * self.size + 2 <= self.base + self.ring@.len(),
    {
        self.base + self.avail_off as u64
    }

    /// Address of the used ring: on a 4-byte boundary behind the
    /// available ring, ending where the shared buffer ends.
    pub fn used_phys(&self) -> (r: u64)
        requires
            self.wf(),
        ensures
            r == self.base + self.used_off,
            r >= self.base + self.avail_off + 4 + 2 * self.size + 2,
            r % 4 == 0,
            r + 4 + 8 * self.size + 2 == self.base + self.ring@.len(),
    {
        self.base + self.used_off as u64
    }

    /// Point descriptor `idx` at a buffer of `len` bytes at `addr` with
    /// `flags`, keeping its `next` link.
    pub fn set_desc(&mut self, idx: u16, addr: u64, len: u32, flags: u16)
        requires
            old(self).wf(),
            idx < old(self).size,
        ensures
            final(self).wf(),
            final(self).desc@ == old(self).desc@.update(
                idx as int,
                Desc { addr, len, flags, next: old(self).desc@[idx as int].next },
            ),
            final(self).size == old(self).size,
            final(self).free_head == old(self).free_head,
            final(self).num_free == old(self).num_free,
            final(self).last_used_idx == old(self).last_used_idx,
            final(self).avail_bytes() == old(self).avail_bytes(),
            final(self).used_bytes() == old(self).used_bytes(),
            final(self).free() == old(self).free(),
            same_rings(*old(self), *final(self)),
    {
        let next = self.desc[idx as usize].next;
        let ghost d0 = self.desc@;
        self.desc.set(idx as usize, Desc { addr, len, flags, next });
        proof {
            lemma_free_list_links(d0, self.desc@, self.size, self.free_head, self.num_free as nat);
        }
    }

    /// Whether the device has completed a buffer the driver has not
    /// collected yet.
    pub fn has_used(&self) -> (r: bool)
        requires
            self.wf(),
        ensures
            r == (self.used_idx() != self.last_used_idx),
    {
        let lo = self.ring[self.used_off + 2];
        let hi = self.ring[self.used_off + 3];
        let idx = lo as u16 + 0x100 * hi as u16;
        idx != self.last_used_idx
    }

    /// Take one descriptor off the free list and clear it; `None` when the
    /// free list is empty.
    pub fn alloc_desc(&mut self) -> (r: Option<u16>)
        requires
            old(self).wf(),
        ensures
            final(self).wf(),
            final(self).size == old(self).size,
            final(self).last_used_idx == old(self).last_used_idx,
            final(self).avail_bytes() == old(self).avail_bytes(),
            final(self).used_bytes() == old(self).used_bytes(),
            r is None <==> old(self).num_free == 0,
            r is None ==> *final(self) == *old(self),
            r matches Some(i) ==> {
                &&& i == old(self).free_head
                &&& final(self).free_head == old(self).desc@[i as int].next
                &&& final(self).num_free == old(self).num_free - 1
                &&& final(self).free() == old(self).free().drop_first()
                &&& final(self).desc@ == old(self).desc@.update(i as int, zero_desc())
            },
            same_rings(*old(self), *final(self)),
    {
        if self.num_free == 0 {
            return None;
        }
        let ghost old_free = self.free();
        let idx = self.free_head;
        assert(old_free[0] == idx);
        self.free_head = self.desc[idx as usize].next;
        self.num_free = self.num_free - 1;
        self.desc.set(idx as usize, Desc { addr: 0, len: 0, flags: 0, next: 0 });
        proof {
            let rest = old_free.drop_first();
            assert(rest =~= free_list(old(self).desc@, self.free_head, self.num_free as nat));
            assert(!rest.contains(idx)) by {
                if rest.contains(idx) {
                    let k = choose|k: int| 0 <= k < rest.len() && rest[k] == idx;
                    assert(old_free[k + 1] == old_free[0]);
                }
            }
            lemma_free_list_frame(
                old(self).desc@,
                self.free_head,
                self.num_free as nat,
                idx,
                zero_desc(),
            );
            assert(self.free() =~= rest);
        }
        Some(idx)
    }

    /// Allocate `n` chained descriptors and return the head. Refused
    /// (`None`, nothing changed) when `n` is 0 or `n as u16` exceeds the
    /// free count. Otherwise descriptors are taken one at a time and
    /// linked; if the free list runs dry first, the result is `None` and
    /// the descriptors taken so far stay linked and off the free list.
    pub fn alloc_chain(&mut self, n: usize) -> (r: Option<u16>)
        requires
            old(self).wf(),
        ensures
            final(self).wf(),
            final(self).size == old(self).size,
            final(self).last_used_idx == old(self).last_used_idx,
            final(self).avail_bytes() == old(self).avail_bytes(),
            final(self).used_bytes() == old(self).used_bytes(),
            n == 0 || (n as u16) > old(self).num_free ==> r is None && *final(self) == *old(self),
            !(n == 0 || (n as u16) > old(self).num_free) ==> {
                let m = if n <= old(self).num_free {
                    n as int
                } else {
                    old(self).num_free as int
                };
                let taken = old(self).free().take(m);
                &&& (r is Some <==> n <= old(self).num_free)
                &&& (r matches Some(h) ==> h == old(self).free()[0])
                &&& final(self).num_free == old(self).num_free - m
                &&& final(self).free() == old(self).free().skip(m)
                &&& linked(final(self).desc@, taken)
                &&& forall|i: int|
                    0 <= i < old(self).size && !taken.contains(i as u16)
                        ==> #[trigger] final(self).desc@[i] == old(self).desc@[i]
            },
            r is Some ==> chain_taken(*old(self), *final(self), n as int),
            r matches Some(h) ==> final(self).can_free(h),
            same_rings(*old(self), *final(self)),
    {
        if (n as u16) > self.num_free || n == 0 {
            return None;
        }
        let ghost old_free = self.free();
        let ghost old_desc = self.desc@;
        let ghost m = if n <= self.num_free {
            n as int
        } else {
            self.num_free as int
        };
        proof {
            lemma_free_list_len(self.desc@, self.free_head, self.num_free as nat);
        }
        let head = match self.alloc_desc() {
            Some(h) => h,
            None => {
                return None;
            },
        };
        let mut prev = head;
        let mut i: usize = 1;
        proof {
            assert(old_free.take(1) =~= seq![head]);
            assert(self.free() =~= old_free.skip(1));
            assert(old_free[0] == head);
            assert forall|k: int|
                0 <= k < old(self).size && !old_free.take(1).contains(k as u16) implies #[trigger] self.desc@[k]
                == old_desc[k] by {
                assert(old_free.take(1)[0] == head);
                assert(k != head as int);
            }
        }
        while i < n
            invariant
                self.wf(),
                1 <= i <= n,
                i <= old_free.len(),
                old_free.len() == old(self).num_free,
                old_free.no_duplicates(),
                in_table(old_free, self.size),
                self.size == old(self).size,
                self.last_used_idx == old(self).last_used_idx,
                same_rings(*old(self), *self),
                self.avail_bytes() == old(self).avail_bytes(),
                self.used_bytes() == old(self).used_bytes(),
                self.desc@.len() == old_desc.len(),
                !(n == 0 || (n as u16) > old(self).num_free),
                old_free == old(self).free(),
                old_desc == old(self).desc@,
                m == (if n <= old(self).num_free {
                    n as int
                } else {
                    old(self).num_free as int
                }),
                self.num_free == old(self).num_free - i,
                self.free() == old_free.skip(i as int),
                prev == old_free[i - 1],
                head == old_free[0],
                linked(self.desc@, old_free.take(i as int)),
                forall|k: int|
                    0 <= k < old(self).size && !old_free.take(i as int).contains(k as u16)
                        ==> #[trigger] self.desc@[k] == old_desc[k],
            decreases n - i,
        {
            let ghost before = self.desc@;
            let ghost before_free = self.free();
            proof {
                assert(self.free().len() == old_free.len() - i) by {
                    lemma_free_list_len(self.desc@, self.free_head, self.num_free as nat);
                }
                assert(old_free.take(i as int)[i - 1] == prev);
            }
            let next = match self.alloc_desc() {
                Some(x) => x,
                None => {
                    proof {
                        assert(i == old_free.len());
                    }
                    return None;
                },
            };
            proof {
                assert(next == old_free[i as int]) by {
                    assert(before_free[0] == old_free.skip(i as int)[0]);
                }
                assert(prev != next) by {
                    assert(old_free[i - 1] != old_free[i as int]);
                }
                assert(prev < self.size) by {
                    assert(in_table(old_free, self.size));
                    assert(old_free[i - 1] < self.size);
                }
            }
            let p = prev as usize;
            let mut d = self.desc[p];
            assert(d == zero_desc());
            assert(d.flags == 0);
            proof {
                lemma_desc_flag_bits();
            }
            d.flags = d.flags | VRING_DESC_F_NEXT;
            d.next = next;
            proof {
                lemma_free_list_frame(
                    self.desc@,
                    self.free_head,
                    self.num_free as nat,
                    prev,
                    d,
                );
                assert(!self.free().contains(prev)) by {
                    if self.free().contains(prev) {
                        let k = choose|k: int| 0 <= k < self.free().len() && self.free()[k] == prev;
                        assert(old_free[i + 1 + k] == old_free[i - 1]);
                    }
                }
            }
            self.desc.set(p, d);
            prev = next;
            proof {
                let t = old_free.take(i + 1);
                assert(t =~= old_free.take(i as int).push(next));
                assert(old_free.skip(i as int).drop_first() =~= old_free.skip(i + 1));
                assert forall|k: int|
                    0 <= k < old(self).size && !t.contains(k as u16) implies #[trigger] self.desc@[k]
                    == old_desc[k] by {
                    assert(!old_free.take(i as int).contains(k as u16)) by {
                        if old_free.take(i as int).contains(k as u16) {
                            let j = choose|j: int|
                                0 <= j < i && old_free.take(i as int)[j] == k as u16;
                            assert(t[j] == k as u16);
                        }
                    }
                    assert(k != next as int) by {
                        assert(t[i as int] == next);
                    }
                    assert(k != (old_free[i - 1]) as int) by {
                        assert(t[i - 1] == old_free[i - 1]);
                    }
                }
                assert forall|j: int| 0 <= j < t.len() - 1 implies #[trigger] self.desc@[t[j] as int]
                    == (Desc { addr: 0, len: 0, flags: VRING_DESC_F_NEXT, next: t[j + 1] }) by {
                    if j < i - 1 {
                        assert(t[j] != old_free[i - 1] && t[j] != next) by {
                            assert(old_free[j] != old_free[i - 1]);
                            assert(old_free[j] != old_free[i as int]);
                        }
                    }
                }
                assert(self.desc@[t[t.len() - 1] as int] == zero_desc());
            }
            i = i + 1;
        }
        proof {
            assert(m == n);
            lemma_taken_chain_can_free(*old(self), *self, n as int);
        }
        Some(head)
    }

    /// Return the chain starting at `head` to the free list. Each freed
    /// descriptor is pushed on the front, so the chain ends up on the
    /// list in reverse order, ahead of the descriptors already free.
    pub fn free_chain(&mut self, head: u16)
        requires
            old(self).wf(),
            old(self).can_free(head),
        ensures
            final(self).wf(),
            final(self).size == old(self).size,
            final(self).last_used_idx == old(self).last_used_idx,
            final(self).avail_bytes() == old(self).avail_bytes(),
            final(self).used_bytes() == old(self).used_bytes(),
            chain_returned(*old(self), *final(self), head),
            same_rings(*old(self), *final(self)),
    {
        let ghost l = choose|l: Seq<u16>|
            is_chain(old(self).desc@, head, l) && l.no_duplicates() && in_table(l, old(self).size)
                && disjoint(l, old(self).free());
        let ghost old_free = self.free();
        let ghost old_desc = self.desc@;
        proof {
            lemma_chain_unique(old_desc, head, l);
            lemma_free_list_len(old_desc, old(self).free_head, old(self).num_free as nat);
            lemma_reverse_concat_distinct(l, old_free, self.size);
            assert((l.reverse() + old_free).len() == (l + old_free).len());
            assert(in_table(l + old_free, self.size)) by {
                assert forall|q: int| 0 <= q < (l + old_free).len() implies #[trigger] (l + old_free)[q] < self.size by {
                    if q < l.len() {
                        assert((l + old_free)[q] == l[q]);
                    } else {
                        assert((l + old_free)[q] == old_free[q - l.len()]);
                    }
                }
            }
            assert((l + old_free).no_duplicates()) by {
                let c = l + old_free;
                assert forall|a: int, b: int| 0 <= a < c.len() && 0 <= b < c.len() && a != b implies c[a] != c[b] by {
                    if a < l.len() && b >= l.len() {
                        assert(c[b] == old_free[b - l.len()]);
                    } else if b < l.len() && a >= l.len() {
                        assert(c[a] == old_free[a - l.len()]);
                    } else if a >= l.len() && b >= l.len() {
                        assert(c[a] == old_free[a - l.len()]);
                        assert(c[b] == old_free[b - l.len()]);
                    }
                }
            }
            lemma_distinct_bound(l + old_free, self.size as nat);
        }
        let mut idx = head;
        let ghost mut j: int = 0;
        loop
            invariant_except_break
                0 <= j < l.len(),
                idx == l[j],
            invariant
                self.size == old(self).size,
                self.desc@.len() == self.size,
                is_pow2(self.size),
                self.last_used_idx == old(self).last_used_idx,
                self.ring@ == old(self).ring@,
                same_rings(*old(self), *self),
                self.avail_bytes() == old(self).avail_bytes(),
                self.used_bytes() == old(self).used_bytes(),
                is_chain(old_desc, head, l),
                l.no_duplicates(),
                in_table(l, self.size),
                disjoint(l, old_free),
                old_free == free_list(old_desc, old(self).free_head, old(self).num_free as nat),
                old_free.no_duplicates(),
                in_table(old_free, self.size),
                old_free.len() == old(self).num_free,
                (l + old_free).len() <= self.size,
                self.num_free == old(self).num_free + j,
                self.free() == l.take(j).reverse() + old_free,
                forall|k: int|
                    0 <= k < self.size && !l.take(j).contains(k as u16) ==> #[trigger] self.desc@[k]
                        == old_desc[k],
                forall|k: int|
                    0 <= k < j && k < l.len() ==> {
                        let d = #[trigger] self.desc@[l[k] as int];
                        &&& d.flags == VRING_DESC_F_NEXT
                        &&& d.addr == old_desc[l[k] as int].addr
                        &&& d.len == old_desc[l[k] as int].len
                    },
            ensures
                j == l.len(),
                self.num_free == old(self).num_free + l.len(),
                self.free() == l.reverse() + old_free,
            decreases l.len() - j,
        {
            let i = idx as usize;
            assert(!l.take(j).contains(idx)) by {
                if l.take(j).contains(idx) {
                    let k = choose|k: int| 0 <= k < j && l.take(j)[k] == idx;
                    assert(l[k] == l[j]);
                }
            }
            let d = self.desc[i];
            let next = d.next;
            let has_next = d.flags & VRING_DESC_F_NEXT != 0;
            let new_d = Desc { addr: d.addr, len: d.len, flags: VRING_DESC_F_NEXT, next: self.free_head };
            proof {
                assert(!self.free().contains(idx)) by {
                    if self.free().contains(idx) {
                        let k = choose|k: int| 0 <= k < self.free().len() && self.free()[k] == idx;
                        if k < j {
                            assert(self.free()[k] == l.take(j).reverse()[k]);
                            assert(l.take(j).reverse()[k] == l[j - 1 - k]);
                        } else {
                            assert(self.free()[k] == old_free[k - j]);
                        }
                    }
                }
                lemma_free_list_frame(self.desc@, self.free_head, self.num_free as nat, idx, new_d);
            }
            self.desc.set(i, new_d);
            let ghost prev_head = self.free_head;
            self.free_head = idx;
            self.num_free = self.num_free + 1;
            proof {
                assert(self.free() =~= seq![idx] + free_list(
                    self.desc@,
                    prev_head,
                    (self.num_free - 1) as nat,
                ));
                assert(l.take(j + 1).reverse() =~= seq![idx] + l.take(j).reverse());
                assert forall|k: int|
                    0 <= k < self.size && !l.take(j + 1).contains(k as u16) implies #[trigger] self.desc@[k]
                    == old_desc[k] by {
                    assert(k != idx as int) by {
                        assert(l.take(j + 1)[j] == idx);
                    }
                    if l.take(j).contains(k as u16) {
                        let q = choose|q: int| 0 <= q < j && l.take(j)[q] == k as u16;
                        assert(l.take(j + 1)[q] == k as u16);
                    }
                }
                assert forall|k: int| 0 <= k < j + 1 && k < l.len() implies {
                    let d = #[trigger] self.desc@[l[k] as int];
                    &&& d.flags == VRING_DESC_F_NEXT
                    &&& d.addr == old_desc[l[k] as int].addr
                    &&& d.len == old_desc[l[k] as int].len
                } by {
                    if k < j {
                        assert(l[k] != l[j]);
                    }
                }
                j = j + 1;
            }
            if !has_next {
                proof {
                    assert(j == l.len()) by {
                        if j < l.len() {
                            assert(old_desc[l[j - 1] as int].flags & VRING_DESC_F_NEXT != 0);
                        }
                    }
                    assert(l.take(j) =~= l);
                }
                break;
            }
            proof {
                assert(j < l.len()) by {
                    if j == l.len() {
                        assert(old_desc[l[l.len() - 1] as int].flags & VRING_DESC_F_NEXT == 0);
                    }
                }
                assert(next == l[j]);
            }
            idx = next;
        }
        proof {
            let f = self.free();
            assert(f == l.reverse() + old_free);
            lemma_reverse_concat_distinct(l, old_free, self.size);
            assert(l.take(l.len() as int) =~= l);
            assert forall|m: Seq<u16>|
                is_chain(old(self).desc@, head, m) && m.no_duplicates() && in_table(m, old(self).size) && disjoint(
                    m,
                    old(self).free(),
                ) implies m == l by {
                lemma_chain_unique(old_desc, head, l);
            }
        }
    }

    /// Publish chain `head`: copy the descriptor table into the shared
    /// buffer, put `head` in the next available-ring slot and advance the
    /// available index (wrapping).
    pub fn push_avail(&mut self, head: u16)
        requires
            old(self).wf(),
        ensures
            final(self).wf(),
            final(self).size == old(self).size,
            final(self).desc@ == old(self).desc@,
            final(self).free_head == old(self).free_head,
            final(self).num_free == old(self).num_free,
            final(self).last_used_idx == old(self).last_used_idx,
            final(self).used_bytes() == old(self).used_bytes(),
            final(self).avail_idx() == (old(self).avail_idx() + 1) as u16 || (old(self).avail_idx()
                == u16::MAX && final(self).avail_idx() == 0),
            final(self).avail_entry((old(self).avail_idx() % old(self).size) as int) == head,
            forall|k: int|
                0 <= k < old(self).size && k != (old(self).avail_idx() % old(self).size) as int
                    ==> #[trigger] final(self).avail_entry(k) == old(self).avail_entry(k),
            final(self).avail_bytes().len() == old(self).avail_bytes().len(),
            forall|i: int|
                0 <= i < old(self).avail_bytes().len() && i != 2 && i != 3 && i != 4 + 2 * (old(self).avail_idx()
                    % old(self).size) && i != 4 + 2 * (old(self).avail_idx() % old(self).size) + 1
                    ==> #[trigger] final(self).avail_bytes()[i] == old(self).avail_bytes()[i],
            published_once(old(self).avail_bytes(), final(self).avail_bytes(), old(self).size, head),
            final(self).table_synced(),
            same_rings(*old(self), *final(self)),
    {
        self.sync_table();
        let ghost q1 = *self;
        let size = self.size as usize;
        let ao = self.avail_off;
        let avail_idx: u16 = self.ring[ao + 2] as u16 + 0x100 * self.ring[ao + 3] as u16;
        let slot = (avail_idx as usize) & (size - 1);
        proof {
            lemma_pow2_mask(avail_idx, self.size);
        }
        let off = 4 + slot * 2;
        let lo = (head % 0x100) as u8;
        let hi = (head / 0x100) as u8;
        self.ring.set(ao + off, lo);
        self.ring.set(ao + off + 1, hi);
        memory_fence();
        let new_idx = avail_idx.wrapping_add(1);
        let nlo = (new_idx % 0x100) as u8;
        let nhi = (new_idx / 0x100) as u8;
        self.ring.set(ao + 2, nlo);
        self.ring.set(ao + 3, nhi);
        memory_fence();
        proof {
            let a0 = q1.avail_bytes();
            assert(a0 =~= old(self).avail_bytes());
            assert(self.avail_bytes() =~= a0.update(off as int, lo).update(off + 1, hi).update(2, nlo).update(
                3,
                nhi,
            ));
            assert(self.used_bytes() =~= old(self).used_bytes());
            assert forall|j: int, k: int| 0 <= j < self.size && 0 <= k < 16 implies #[trigger] self.table_byte(j, k)
                == desc_byte(self.desc@[j], k) by {
                assert(q1.table_byte(j, k) == desc_byte(q1.desc@[j], k));
            }
            lemma_le16_roundtrip(head);
            lemma_le16_roundtrip(new_idx);
            assert(self.avail_entry(slot as int) == head);
            assert(self.avail_idx() == new_idx);
            lemma_free_list_same(old(self).desc@, self.desc@, self.free_head, self.num_free as nat);
        }
    }

    /// Copy the driver's descriptor table into the shared buffer.
    fn sync_table(&mut self)
        requires
            old(self).wf(),
        ensures
            final(self).wf(),
            final(self).table_synced(),
            final(self).size == old(self).size,
            final(self).desc == old(self).desc,
            final(self).base == old(self).base,
            final(self).desc_off == old(self).desc_off,
            final(self).avail_off == old(self).avail_off,
            final(self).used_off == old(self).used_off,
            final(self).free_head == old(self).free_head,
            final(self).num_free == old(self).num_free,
            final(self).last_used_idx == old(self).last_used_idx,
            final(self).ring@.len() == old(self).ring@.len(),
            forall|i: int|
                0 <= i < old(self).ring@.len() && !(old(self).desc_off <= i < old(self).avail_off)
                    ==> #[trigger] final(self).ring@[i] == old(self).ring@[i],
    {
        let size = self.size as usize;
        let mut j: usize = 0;
        while j < size
            invariant
                size == self.size,
                j <= size,
                self.wf(),
                self.size == old(self).size,
                self.desc == old(self).desc,
                self.base == old(self).base,
                self.desc_off == old(self).desc_off,
                self.avail_off == old(self).avail_off,
                self.used_off == old(self).used_off,
                self.free_head == old(self).free_head,
                self.num_free == old(self).num_free,
                self.last_used_idx == old(self).last_used_idx,
                self.ring@.len() == old(self).ring@.len(),
                forall|jj: int, k: int|
                    0 <= jj < j && 0 <= k < 16 ==> #[trigger] self.table_byte(jj, k) == desc_byte(
                        self.desc@[jj],
                        k,
                    ),
                forall|i: int|
                    0 <= i < old(self).ring@.len() && !(old(self).desc_off <= i < old(self).avail_off)
                        ==> #[trigger] self.ring@[i] == old(self).ring@[i],
            decreases size - j,
        {
            let d = self.desc[j];
            let at = self.desc_off + 16 * j;
            let ghost r0 = self.ring@;
            let ghost s0 = *self;
            put_desc(&mut self.ring, at, d);
            proof {
                assert forall|jj: int, k: int| 0 <= jj < j + 1 && 0 <= k < 16 implies #[trigger] self.table_byte(jj, k)
                    == desc_byte(self.desc@[jj], k) by {
                    if jj < j {
                        assert(s0.table_byte(jj, k) == desc_byte(s0.desc@[jj], k));
                        assert(self.desc_off + 16 * jj + k < at);
                    } else {
                        assert(self.desc_off + 16 * jj + k == at + k);
                    }
                }
            }
            j = j + 1;
        }
        proof {
            lemma_free_list_same(old(self).desc@, self.desc@, self.free_head, self.num_free as nat);
        }
    }

    /// The next used element the device produced since the last call, if
    /// any; advances `last_used_idx` (wrapping) when one is returned.
    pub fn pop_used(&mut self) -> (r: Option<(u32, u32)>)
        requires
            old(self).wf(),
        ensures
            final(self).wf(),
            final(self).size == old(self).size,
            final(self).desc@ == old(self).desc@,
            final(self).free_head == old(self).free_head,
            final(self).num_free == old(self).num_free,
            final(self).avail_bytes() == old(self).avail_bytes(),
            final(self).used_bytes() == old(self).used_bytes(),
            r is None <==> old(self).used_idx() == old(self).last_used_idx,
            r is None ==> final(self).last_used_idx == old(self).last_used_idx && *final(self) == *old(self),
            r matches Some(e) ==> {
                &&& e == old(self).used_entry(
                    (old(self).last_used_idx % old(self).size) as int,
                )
                &&& final(self).last_used_idx == (if old(self).last_used_idx == u16::MAX {
                    0
                } else {
                    (old(self).last_used_idx + 1) as u16
                })
            },
            same_rings(*old(self), *final(self)),
    {
        let e = match self.peek_used() {
            Some(e) => e,
            None => {
                return None;
            },
        };
        self.last_used_idx = self.last_used_idx.wrapping_add(1);
        Some(e)
    }

    /// The next used element the device produced since the last
    /// collected one, if any, without collecting it.
    pub fn peek_used(&self) -> (r: Option<(u32, u32)>)
        requires
            self.wf(),
        ensures
            r is None <==> self.used_idx() == self.last_used_idx,
            r matches Some(e) ==> e == self.used_entry((self.last_used_idx % self.size) as int),
    {
        let device_idx: u16 = self.ring[self.used_off + 2] as u16 + 0x100 * self.ring[self.used_off + 3] as u16;
        if device_idx == self.last_used_idx {
            return None;
        }
        let size = self.size as usize;
        let slot = (self.last_used_idx as usize) & (size - 1);
        proof {
            lemma_pow2_mask(self.last_used_idx, self.size);
        }
        let off = self.used_off + 4 + slot * 8;
        let r = &self.ring;
        let id = r[off] as u32 + 0x100 * r[off + 1] as u32 + 0x1_0000 * r[off + 2] as u32 + 0x100_0000 * r[off
            + 3] as u32;
        let len = r[off + 4] as u32 + 0x100 * r[off + 5] as u32 + 0x1_0000 * r[off + 6] as u32 + 0x100_0000
            * r[off + 7] as u32;
        Some((id, len))
    }

    /// The next used element, for callers that know one is pending (the
    /// device has advanced the used index past `last_used_idx`).
    pub fn wait_used(&mut self) -> (r: (u32, u32))
        requires
            old(self).wf(),
            old(self).used_idx() != old(self).last_used_idx,
        ensures
            final(self).wf(),
            final(self).size == old(self).size,
            final(self).desc@ == old(self).desc@,
            final(self).free_head == old(self).free_head,
            final(self).num_free == old(self).num_free,
            final(self).avail_bytes() == old(self).avail_bytes(),
            final(self).used_bytes() == old(self).used_bytes(),
            r == old(self).used_entry((old(self).last_used_idx % old(self).size) as int),
            final(self).last_used_idx == (if old(self).last_used_idx == u16::MAX {
                0
            } else {
                (old(self).last_used_idx + 1) as u16
            }),
            same_rings(*old(self), *final(self)),
    {
        self.pop_used().unwrap()
    }
}

/// A zeroed buffer for the rings of a `size`-entry queue, with the
/// address it was allocated at and the offsets of the descriptor table
/// (on a page boundary), the available ring (right behind the table) and
/// the used ring (on a 4-byte boundary behind the available ring).
fn shared_rings(size: u16) -> (r: (Vec<u8>, u64, usize, usize, usize))
    requires
        is_pow2(size),
    ensures
        r.1 != 0,
        r.1 + r.0@.len() <= 0x1_0000_0000_0000_0000,
        r.0@.len() <= usize::MAX,
        (r.1 + r.2) % 4096 == 0,
        r.3 == r.2 + 16 * size,
        r.4 >= r.3 + 4 + 2 * size + 2,
        (r.1 + r.4) % 4 == 0,
        r.0@.len() == r.4 + 4 + 8 * size + 2,
        forall|i: int| 0 <= i < r.0@.len() ==> #[trigger] r.0@[i] == 0u8,
{
    proof {
        assert(size != 1 ==> size % 2 == 0) by (bit_vector)
            requires
                size > 0 && size & ((size - 1) as u16) == 0,
        ;
    }
    let avail_len: usize = 4 + 2 * size as usize + 2;
    let used_len: usize = 4 + 8 * size as usize + 2;
    let avail_span: usize = if size == 1 {
        avail_len
    } else {
        avail_len + 2
    };
    let total: usize = RING_PAGE - 1 + 16 * size as usize + avail_span + 3 + used_len;
    let ring = vec_of_zeros(total);
    let base = slice_addr(ring.as_slice());
    let rem: u64 = base % 4096;
    let desc_off: usize = if rem == 0 {
        0
    } else {
        (4096 - rem) as usize
    };
    let avail_off: usize = desc_off + 16 * size as usize;
    let a: u64 = base + avail_off as u64;
    let pad: usize = ((4 - a % 4) % 4) as usize;
    let used_off: usize = avail_off + avail_span + pad;
    let mut ring = ring;
    ring.truncate(used_off + used_len);
    proof {
        assert((base + desc_off) % 4096 == 0) by (nonlinear_arith)
            requires
                rem == base % 4096,
                desc_off == (if rem == 0 {
                    0
                } else {
                    4096 - rem
                }),
        ;
        assert((base + used_off) % 4 == 0) by (nonlinear_arith)
            requires
                a == base + avail_off,
                pad == (4 - a % 4) % 4,
                used_off == avail_off + avail_span + pad,
                avail_span % 4 == 0,
        ;
    }
    (ring, base, desc_off, avail_off, used_off)
}

/// Write the 16 bytes of descriptor `d` at `at`, leaving every other
/// byte of `ring` as it was.
fn put_desc(ring: &mut Vec<u8>, at: usize, d: Desc)
    requires
        at + 16 <= old(ring)@.len() <= usize::MAX,
    ensures
        final(ring)@.len() == old(ring)@.len(),
        forall|k: int| 0 <= k < 16 ==> #[trigger] final(ring)@[at + k] == desc_byte(d, k),
        forall|i: int|
            0 <= i < old(ring)@.len() && !(at <= i < at + 16) ==> #[trigger] final(ring)@[i] == old(ring)@[i],
{
    ring.set(at, (d.addr % 0x100) as u8);
    ring.set(at + 1, (d.addr / 0x100 % 0x100) as u8);
    ring.set(at + 2, (d.addr / 0x1_0000 % 0x100) as u8);
    ring.set(at + 3, (d.addr / 0x100_0000 % 0x100) as u8);
    ring.set(at + 4, (d.addr / 0x1_0000_0000 % 0x100) as u8);
    ring.set(at + 5, (d.addr / 0x100_0000_0000 % 0x100) as u8);
    ring.set(at + 6, (d.addr / 0x1_0000_0000_0000 % 0x100) as u8);
    ring.set(at + 7, (d.addr / 0x100_0000_0000_0000 % 0x100) as u8);
    ring.set(at + 8, (d.len % 0x100) as u8);
    ring.set(at + 9, (d.len / 0x100 % 0x100) as u8);
    ring.set(at + 10, (d.len / 0x1_0000 % 0x100) as u8);
    ring.set(at + 11, (d.len / 0x100_0000 % 0x100) as u8);
    ring.set(at + 12, (d.flags % 0x100) as u8);
    ring.set(at + 13, (d.flags / 0x100 % 0x100) as u8);
    ring.set(at + 14, (d.next % 0x100) as u8);
    ring.set(at + 15, (d.next / 0x100 % 0x100) as u8);
    proof {
        assert forall|k: int| 0 <= k < 16 implies #[trigger] ring@[at + k] == desc_byte(d, k) by {
            if k == 0 {
            } else if k == 1 {
            } else if k == 2 {
            } else if k == 3 {
            } else if k == 4 {
            } else if k == 5 {
            } else if k == 6 {
            } else if k == 7 {
            } else if k == 8 {
            } else if k == 9 {
            } else if k == 10 {
            } else if k == 11 {
            } else if k == 12 {
            } else if k == 13 {
            } else if k == 14 {
            } else {
            }
        }
    }
}

/// A zero-filled byte buffer of length `n`.
fn vec_of_zeros(n: usize) -> (v: Vec<u8>)
    ensures
        v@ == Seq::new(n as nat, |i: int| 0u8),
{
    let mut v: Vec<u8> = Vec::new();
    let mut i: usize = 0;
    while i < n
        invariant
            i <= n,
            v@ == Seq::new(i as nat, |k: int| 0u8),
        decreases n - i,
    {
        v.push(0);
        i = i + 1;
        proof {
            assert(v@ =~= Seq::new(i as nat, |k: int| 0u8));
        }
    }
    v
}

/// Address of the first byte of a slice (`<[u8]>::as_ptr`, where the
/// device finds the buffer). Which address comes back depends on where
/// the allocator placed the buffer; what holds of every outcome is that
/// a reference is never null and that no allocation wraps around the
/// end of the address space.
#[verifier::external_body]
pub(crate) fn slice_addr(s: &[u8]) -> (r: u64)
    ensures
        r != 0,
        r + s@.len() <= 0x1_0000_0000_0000_0000,
{
    s.as_ptr() as u64
}

/// Full memory barrier, ordering ring writes before the index update
/// the device polls.
#[verifier::external_body]
fn memory_fence() {
    core::sync::atomic::fence(core::sync::atomic::Ordering::SeqCst);
}

/// The free list of a freshly built table is `start, start+1, ...`.
proof fn lemma_free_list_of_new(desc: Seq<Desc>, size: u16, start: int)
    requires
        0 <= start <= size,
        desc.len() == size,
        forall|k: int|
            0 <= k < size ==> #[trigger] desc[k].next == (if k + 1 < size {
                (k + 1) as u16
            } else {
                0
            }),
    ensures
        free_list(desc, start as u16, (size - start) as nat) =~= Seq::new(
            (size - start) as nat,
            |i: int| (start + i) as u16,
        ),
    decreases size - start,
{
    if start < size {
        lemma_free_list_of_new(desc, size, start + 1);
        let tail = free_list(desc, desc[start].next, (size - start - 1) as nat);
        if start + 1 < size {
            assert(desc[start].next == (start + 1) as u16);
        } else {
            assert(tail =~= Seq::<u16>::empty());
        }
    }
}

/// Changing a descriptor that is not on a list leaves the list as it was.
proof fn lemma_free_list_frame(desc: Seq<Desc>, head: u16, n: nat, idx: u16, d: Desc)
    requires
        !free_list(desc, head, n).contains(idx),
        in_table(free_list(desc, head, n), desc.len() as u16),
        desc.len() <= u16::MAX,
        idx < desc.len(),
    ensures
        free_list(desc.update(idx as int, d), head, n) == free_list(desc, head, n),
    decreases n,
{
    if n > 0 {
        let rest = free_list(desc, desc[head as int].next, (n - 1) as nat);
        assert(free_list(desc, head, n) == seq![head] + rest);
        assert(head != idx) by {
            assert(free_list(desc, head, n)[0] == head);
        }
        assert(!rest.contains(idx)) by {
            if rest.contains(idx) {
                let k = choose|k: int| 0 <= k < rest.len() && rest[k] == idx;
                assert(free_list(desc, head, n)[k + 1] == idx);
            }
        }
        assert(in_table(rest, desc.len() as u16)) by {
            assert forall|j: int| 0 <= j < rest.len() implies #[trigger] rest[j] < desc.len() as u16 by {
                assert(free_list(desc, head, n)[j + 1] == rest[j]);
            }
        }
        assert(head < desc.len() as u16) by {
            assert(free_list(desc, head, n)[0] == head);
        }
        lemma_free_list_frame(desc, desc[head as int].next, (n - 1) as nat, idx, d);
        let desc2 = desc.update(idx as int, d);
        assert(desc2[head as int] == desc[head as int]);
        assert(free_list(desc2, head, n) == seq![head] + free_list(
            desc2,
            desc2[head as int].next,
            (n - 1) as nat,
        ));
    }
}

/// A list built from `n` steps has `n` entries.
pub proof fn lemma_free_list_len(desc: Seq<Desc>, head: u16, n: nat)
    ensures
        free_list(desc, head, n).len() == n,
    decreases n,
{
    if n > 0 {
        lemma_free_list_len(desc, desc[head as int].next, (n - 1) as nat);
    }
}

/// Two tables that agree everywhere have the same lists.
proof fn lemma_free_list_same(a: Seq<Desc>, b: Seq<Desc>, head: u16, n: nat)
    requires
        a == b,
    ensures
        free_list(a, head, n) == free_list(b, head, n),
{
}

/// The free list depends on the tables' `next` links only.
proof fn lemma_free_list_links(a: Seq<Desc>, b: Seq<Desc>, size: u16, head: u16, n: nat)
    requires
        a.len() == size,
        b.len() == size,
        forall|i: int| 0 <= i < size ==> #[trigger] a[i].next == b[i].next,
        in_table(free_list(a, head, n), size),
    ensures
        free_list(a, head, n) == free_list(b, head, n),
    decreases n,
{
    if n > 0 {
        let l = free_list(a, head, n);
        assert(l[0] == head);
        assert(a[head as int].next == b[head as int].next);
        let rest = free_list(a, a[head as int].next, (n - 1) as nat);
        assert forall|k: int| 0 <= k < rest.len() implies #[trigger] rest[k] < size by {
            assert(rest[k] == l[k + 1]);
        }
        lemma_free_list_links(a, b, size, a[head as int].next, (n - 1) as nat);
    }
}

/// A chain is determined by its table and head.
proof fn lemma_chain_unique(desc: Seq<Desc>, head: u16, l: Seq<u16>)
    requires
        is_chain(desc, head, l),
    ensures
        forall|m: Seq<u16>| #[trigger] is_chain(desc, head, m) ==> m == l,
{
    assert forall|m: Seq<u16>| #[trigger] is_chain(desc, head, m) implies m == l by {
        lemma_chain_eq(desc, head, l, m, 0);
    }
}

proof fn lemma_chain_eq(desc: Seq<Desc>, head: u16, l: Seq<u16>, m: Seq<u16>, k: int)
    requires
        is_chain(desc, head, l),
        is_chain(desc, head, m),
        0 <= k < l.len(),
        k < m.len(),
        forall|j: int| 0 <= j <= k ==> l[j] == m[j],
    ensures
        l == m,
    decreases l.len() - k,
{
    if k == l.len() - 1 {
        if k < m.len() - 1 {
            assert(desc[m[k] as int].flags & VRING_DESC_F_NEXT != 0);
        }
        assert(l =~= m);
    } else {
        if k == m.len() - 1 {
            assert(desc[l[k] as int].flags & VRING_DESC_F_NEXT != 0);
        }
        assert(desc[l[k] as int].flags & VRING_DESC_F_NEXT != 0);
        assert(desc[m[k] as int].flags & VRING_DESC_F_NEXT != 0);
        assert(l[k + 1] == desc[l[k] as int].next);
        assert(m[k + 1] == desc[m[k] as int].next);
        lemma_chain_eq(desc, head, l, m, k + 1);
    }
}

/// Distinct indices below `n` number at most `n`.
proof fn lemma_distinct_bound(s: Seq<u16>, n: nat)
    requires
        s.no_duplicates(),
        forall|j: int| 0 <= j < s.len() ==> #[trigger] s[j] < n,
    ensures
        s.len() <= n,
    decreases n,
{
    if n == 0 {
        if s.len() > 0 {
            assert(s[0] < 0);
        }
    } else {
        let top = (n - 1) as u16;
        if s.contains(top) {
            let k = choose|k: int| 0 <= k < s.len() && s[k] == top;
            let t = s.subrange(0, k) + s.subrange(k + 1, s.len() as int);
            assert forall|a: int, b: int| 0 <= a < t.len() && 0 <= b < t.len() && a != b implies t[a]
                != t[b] by {
                let ia = if a < k {
                    a
                } else {
                    a + 1
                };
                let ib = if b < k {
                    b
                } else {
                    b + 1
                };
                assert(t[a] == s[ia] && t[b] == s[ib]);
            }
            assert forall|j: int| 0 <= j < t.len() implies #[trigger] t[j] < (n - 1) as nat by {
                let ij = if j < k {
                    j
                } else {
                    j + 1
                };
                assert(t[j] == s[ij]);
                assert(ij != k);
            }
            lemma_distinct_bound(t, (n - 1) as nat);
        } else {
            assert forall|j: int| 0 <= j < s.len() implies #[trigger] s[j] < (n - 1) as nat by {
                assert(s[j] != top);
            }
            lemma_distinct_bound(s, (n - 1) as nat);
        }
    }
}

/// Reversing a distinct in-table chain and putting it in front of a
/// disjoint distinct in-table list gives a distinct in-table list.
proof fn lemma_reverse_concat_distinct(l: Seq<u16>, f: Seq<u16>, size: u16)
    requires
        l.no_duplicates(),
        f.no_duplicates(),
        in_table(l, size),
        in_table(f, size),
        disjoint(l, f),
    ensures
        (l.reverse() + f).no_duplicates(),
        in_table(l.reverse() + f, size),
{
    let r = l.reverse();
    let c = r + f;
    assert forall|a: int, b: int| 0 <= a < c.len() && 0 <= b < c.len() && a != b implies c[a]
        != c[b] by {
        if a < r.len() && b < r.len() {
            assert(c[a] == l[l.len() - 1 - a]);
            assert(c[b] == l[l.len() - 1 - b]);
        } else if a < r.len() {
            assert(c[a] == l[l.len() - 1 - a]);
            assert(c[b] == f[b - r.len()]);
        } else if b < r.len() {
            assert(c[b] == l[l.len() - 1 - b]);
            assert(c[a] == f[a - r.len()]);
        } else {
            assert(c[a] == f[a - r.len()]);
            assert(c[b] == f[b - r.len()]);
        }
    }
    assert forall|j: int| 0 <= j < c.len() implies #[trigger] c[j] < size by {
        if j < r.len() {
            assert(c[j] == l[l.len() - 1 - j]);
        } else {
            assert(c[j] == f[j - r.len()]);
        }
    }
}

/// For a power-of-two `size`, masking with `size - 1` is reduction modulo `size`.
proof fn lemma_pow2_mask(x: u16, size: u16)
    requires
        is_pow2(size),
    ensures
        ((x as usize) & ((size - 1) as usize)) as int == (x % size) as int,
        (x % size) < size,
{
    assert((x & ((size - 1) as u16)) == x % size) by (bit_vector)
        requires
            size > 0 && size & ((size - 1) as u16) == 0,
    ;
    assert(((x as usize) & ((size - 1) as usize)) == (x & ((size - 1) as u16)) as usize) by (
    bit_vector);
}

/// Splitting a 16-bit value into its low and high bytes and joining them
/// again gives the value back.
proof fn lemma_le16_roundtrip(v: u16)
    ensures
        (v % 0x100) as u8 + 0x100 * ((v / 0x100) as u8) == v,
{
}

/// A chain just allocated may be freed: the first `n` free descriptors
/// of `q0`, linked by [`Virtqueue::alloc_chain`] into `q1`, form a chain
/// from `q0`'s first free descriptor that is off the free list.
pub proof fn lemma_taken_chain_can_free(q0: Virtqueue, q1: Virtqueue, n: int)
    requires
        q0.wf(),
        0 < n <= q0.num_free,
        chain_taken(q0, q1, n),
    ensures
        q1.can_free(q0.free()[0]),
        is_chain(q1.desc@, q0.free()[0], q0.free().take(n)),
        q0.free().take(n).no_duplicates(),
        in_table(q0.free().take(n), q1.size),
        disjoint(q0.free().take(n), q1.free()),
{
    let f = q0.free();
    lemma_free_list_len(q0.desc@, q0.free_head, q0.num_free as nat);
    let l = f.take(n);
    let d = q1.desc@;
    assert(l[0] == f[0]);
    assert forall|j: int| 0 <= j < l.len() - 1 implies #[trigger] d[l[j] as int].flags & VRING_DESC_F_NEXT != 0
        && d[l[j] as int].next == l[j + 1] by {
        assert(d[l[j] as int].flags == VRING_DESC_F_NEXT);
        lemma_desc_flag_bits();
    }
    assert(d[l[l.len() - 1] as int].flags == 0);
    lemma_desc_flag_bits();
    assert(is_chain(d, f[0], l));
    assert(l.no_duplicates()) by {
        assert forall|a: int, b: int| 0 <= a < l.len() && 0 <= b < l.len() && a != b implies l[a] != l[b] by {
            assert(l[a] == f[a] && l[b] == f[b]);
        }
    }
    assert(in_table(l, q1.size)) by {
        assert forall|j: int| 0 <= j < l.len() implies #[trigger] l[j] < q1.size by {
            assert(l[j] == f[j]);
        }
    }
    assert(disjoint(l, q1.free())) by {
        assert forall|a: int, b: int| 0 <= a < l.len() && 0 <= b < q1.free().len() implies l[a] != q1.free()[b] by {
            assert(l[a] == f[a]);
            assert(q1.free()[b] == f[b + n]);
        }
    }
}

/// Freeing a chain right after allocating it gives every descriptor
/// back: the chain may be freed, the free count is what it was before
/// the allocation, and the free list holds the same descriptors (the
/// chain's, in reverse order, ahead of the rest).
pub proof fn law_alloc_then_free(q0: Virtqueue, q1: Virtqueue, q2: Virtqueue, n: int)
    requires
        q0.wf(),
        0 < n <= q0.num_free,
        chain_taken(q0, q1, n),
        chain_returned(q1, q2, q0.free()[0]),
    ensures
        q1.can_free(q0.free()[0]),
        q2.num_free == q0.num_free,
        q2.free() == q0.free().take(n).reverse() + q0.free().skip(n),
        forall|d: u16| q2.free().contains(d) <==> q0.free().contains(d),
{
    lemma_taken_chain_can_free(q0, q1, n);
    law_alloc_fill_free(q0, q1, q1, q2, n);
}

/// A chain that was allocated, then pointed at buffers (addresses,
/// lengths and the `WRITE` flag set, its links and `NEXT` flags kept,
/// the free list untouched), then freed gives every descriptor back:
/// the chain may be freed, the free count is what it was before the
/// allocation (so the same allocation succeeds again), the free list
/// holds the same descriptors, and each chain descriptor is back to the
/// plain `NEXT` flag.
pub proof fn law_alloc_fill_free(q0: Virtqueue, q1: Virtqueue, q1b: Virtqueue, q2: Virtqueue, n: int)
    requires
        q0.wf(),
        0 < n <= q0.num_free,
        chain_taken(q0, q1, n),
        q1b.size == q1.size,
        q1b.free() == q1.free(),
        is_chain(q1b.desc@, q0.free()[0], q0.free().take(n)),
        chain_returned(q1b, q2, q0.free()[0]),
    ensures
        q1b.can_free(q0.free()[0]),
        q2.num_free == q0.num_free,
        q2.free() == q0.free().take(n).reverse() + q0.free().skip(n),
        forall|d: u16| q2.free().contains(d) <==> q0.free().contains(d),
        forall|k: int| 0 <= k < n ==> #[trigger] q2.desc@[q0.free()[k] as int].flags == VRING_DESC_F_NEXT,
{
    let f = q0.free();
    lemma_free_list_len(q0.desc@, q0.free_head, q0.num_free as nat);
    lemma_free_list_len(q1.desc@, q1.free_head, q1.num_free as nat);
    lemma_free_list_len(q1b.desc@, q1b.free_head, q1b.num_free as nat);
    let l = f.take(n);
    lemma_taken_chain_can_free(q0, q1, n);
    assert(q1b.can_free(f[0]));
    assert(q1b.num_free == q1.num_free);
    assert(q2.free() == l.reverse() + q1.free());
    assert(f =~= l + f.skip(n));
    assert forall|k: int| 0 <= k < n implies #[trigger] q2.desc@[f[k] as int].flags == VRING_DESC_F_NEXT by {
        assert(l[k] == f[k]);
    }
    assert forall|x: u16| q2.free().contains(x) <==> f.contains(x) by {
        if f.contains(x) {
            let k = choose|k: int| 0 <= k < f.len() && f[k] == x;
            if k < n {
                assert(l.reverse()[n - 1 - k] == x);
                assert(q2.free()[n - 1 - k] == x);
            } else {
                assert(q2.free()[k] == x);
            }
        }
        if q2.free().contains(x) {
            let k = choose|k: int| 0 <= k < q2.free().len() && q2.free()[k] == x;
            if k < n {
                assert(f[n - 1 - k] == x);
            } else {
                assert(f[k] == x);
            }
        }
    }
}

/// The descriptor-flag facts the chain proofs use: `NEXT` is set in
/// `NEXT` and in `NEXT | WRITE`, and clear in `WRITE` and in 0.
pub proof fn lemma_desc_flag_bits()
    by (bit_vector)
    ensures
        1u16 & 1u16 != 0,
        (1u16 | 2u16) & 1u16 != 0,
        2u16 & 1u16 == 0,
        0u16 & 1u16 == 0,
        0u16 | 1u16 == 1u16,
{
}

} // verus!
