//! Capabilities and handle tables.
//!
//! A [`Capability`] is a typed reference to a kernel object. Processes
//! refer to capabilities through small integer [`Handle`]s, and each
//! table entry carries a [`Rights`] mask the kernel checks on every
//! operation.

use std::collections::BTreeMap;
use vstd::prelude::*;

verus! {

broadcast use vstd::laws_cmp::group_laws_cmp, vstd::std_specs::btree::group_btree_axioms;

/// Operations a capability authorises, as a bit mask.
#[derive(Clone, Copy, Debug, PartialEq, Eq, Structural)]
pub struct Rights {
    pub bits: u32,
}

/// Every defined rights bit.
pub const RIGHTS_ALL: u32 = 0x3f;

impl Rights {
    pub const READ: u32 = 1 << 0;

    pub const WRITE: u32 = 1 << 1;

    pub const SEND: u32 = 1 << 2;

    pub const RECEIVE: u32 = 1 << 3;

    pub const TRANSFER: u32 = 1 << 4;

    pub const DUPLICATE: u32 = 1 << 5;

    /// No rights.
    pub fn empty() -> (r: Self)
        ensures
            r.bits == 0,
    {
        Rights { bits: 0 }
    }

    /// Every right.
    pub fn all() -> (r: Self)
        ensures
            r.bits == RIGHTS_ALL,
    {
        Rights { bits: RIGHTS_ALL }
    }

    /// The rights named by `bits`, undefined bits dropped.
    pub fn from_bits_truncate(bits: u32) -> (r: Self)
        ensures
            r.bits == bits & RIGHTS_ALL,
    {
        Rights { bits: bits & RIGHTS_ALL }
    }

    pub fn bits(&self) -> (r: u32)
        ensures
            r == self.bits,
    {
        self.bits
    }

    /// Whether every right in `other` is also in `self`.
    pub fn contains(&self, other: Rights) -> (r: bool)
        ensures
            r == (self.bits & other.bits == other.bits),
    {
        self.bits & other.bits == other.bits
    }

    /// The rights in either mask.
    pub fn union(self, other: Rights) -> (r: Rights)
        ensures
            r.bits == self.bits | other.bits,
    {
        Rights { bits: self.bits | other.bits }
    }
}

/// Opaque handle into a [`CapTable`].
#[derive(Clone, Copy, Debug, PartialEq, Eq, Structural)]
pub struct Handle(pub u32);

/// What a capability points at: a message port, by port id.
#[derive(Clone, Copy, Debug, PartialEq, Eq, Structural)]
pub enum Capability {
    Port(u64),
}

struct Entry {
    cap: Capability,
    rights: Rights,
}

/// Per-process capability table.
pub struct CapTable {
    next: u32,
    entries: BTreeMap<u32, Entry>,
    /// Whether the handle counter has passed `u32::MAX` and started over.
    wrapped: Ghost<bool>,
}

/// A capability table as mathematical values.
#[verifier::ext_equal]
pub struct CapTableModel {
    /// The handle the next insertion will use.
    pub next: u32,
    /// Capability and rights behind each live handle.
    pub entries: Map<u32, (Capability, Rights)>,
}

impl View for CapTable {
    type V = CapTableModel;

    closed spec fn view(&self) -> CapTableModel {
        CapTableModel {
            next: self.next,
            entries: self.entries@.map_values(|e: Entry| (e.cap, e.rights)),
        }
    }
}

/// `x + 1`, wrapping at `u32::MAX`.
pub open spec fn wrapping_succ(x: u32) -> u32 {
    if x == u32::MAX {
        0
    } else {
        (x + 1) as u32
    }
}

/// A table after storing `cap` with `rights` under its next handle,
/// and that handle.
pub open spec fn insert_spec(t: CapTableModel, cap: Capability, rights: Rights) -> (CapTableModel, Handle) {
    (
        CapTableModel { next: wrapping_succ(t.next), entries: t.entries.insert(t.next, (cap, rights)) },
        Handle(t.next),
    )
}

/// The capability and rights behind handle `h`, if it is live.
pub open spec fn get_spec(t: CapTableModel, h: u32) -> Option<(Capability, Rights)> {
    if t.entries.contains_key(h) {
        Some(t.entries[h])
    } else {
        None
    }
}

/// A table after dropping handle `h`, and the capability it held.
pub open spec fn remove_spec(t: CapTableModel, h: u32) -> (CapTableModel, Option<Capability>) {
    (
        CapTableModel { next: t.next, entries: t.entries.remove(h) },
        if t.entries.contains_key(h) {
            Some(t.entries[h].0)
        } else {
            None
        },
    )
}

impl CapTable {
    /// Until the counter wraps, every live handle lies below the next one.
    #[verifier::type_invariant]
    spec fn inv(self) -> bool {
        !self.wrapped@ ==> handles_below_next(self@)
    }

    /// Whether the handle counter has passed `u32::MAX` and started over
    /// (after `u32::MAX` insertions into a new table).
    pub closed spec fn counter_wrapped(&self) -> bool {
        self.wrapped@
    }

    /// An empty table whose first handle will be 1.
    pub fn new() -> (t: Self)
        ensures
            t@.next == 1,
            t@.entries == Map::<u32, (Capability, Rights)>::empty(),
            handles_below_next(t@),
            !t.counter_wrapped(),
    {
        let t = CapTable { next: 1, entries: BTreeMap::new(), wrapped: Ghost(false) };
        proof {
            assert(t@.entries =~= Map::<u32, (Capability, Rights)>::empty());
        }
        t
    }

    /// Store `cap` with `rights` under the next handle (replacing any
    /// entry a wrapped-around counter lands on) and return that handle.
    pub fn insert(&mut self, cap: Capability, rights: Rights) -> (h: Handle)
        ensures
            final(self)@ == insert_spec(old(self)@, cap, rights).0,
            h == insert_spec(old(self)@, cap, rights).1,
            final(self).counter_wrapped() == (old(self).counter_wrapped() || old(self)@.next == u32::MAX),
            !old(self).counter_wrapped() ==> !old(self)@.entries.contains_key(h.0),
            !old(self).counter_wrapped() ==> final(self)@.entries.len() == old(self)@.entries.len() + 1,
            !final(self).counter_wrapped() ==> handles_below_next(final(self)@),
            handles_below_next(old(self)@) ==> !old(self)@.entries.contains_key(h.0),
            handles_below_next(old(self)@) && old(self)@.next != u32::MAX ==> handles_below_next(final(self)@),
    {
        proof {
            use_type_invariant(&*self);
            lemma_model_dom(self.entries@);
        }
        let h = Handle(self.next);
        let mut entries = BTreeMap::new();
        std::mem::swap(&mut entries, &mut self.entries);
        proof {
            assert(self@.entries =~= Map::empty());
        }
        let ghost w = self.wrapped@ || self.next == u32::MAX;
        self.wrapped = Ghost(w);
        self.next = self.next.wrapping_add(1);
        entries.insert(h.0, Entry { cap, rights });
        proof {
            let f = |e: Entry| (e.cap, e.rights);
            assert(entries@.map_values(f) =~= old(self)@.entries.insert(old(self)@.next, (cap, rights)));
            lemma_model_dom(entries@);
        }
        self.entries = entries;
        h
    }

    /// The capability and rights behind `h`, if it is live.
    pub fn get(&self, h: Handle) -> (r: Option<(&Capability, Rights)>)
        ensures
            r is None <==> get_spec(self@, h.0) is None,
            r matches Some((c, rt)) ==> get_spec(self@, h.0) == Some((*c, rt)),
    {
        match self.entries.get(&h.0) {
            Some(e) => Some((&e.cap, e.rights)),
            None => None,
        }
    }

    /// Drop the entry behind `h`, returning its capability.
    pub fn remove(&mut self, h: Handle) -> (r: Option<Capability>)
        ensures
            final(self)@ == remove_spec(old(self)@, h.0).0,
            r == remove_spec(old(self)@, h.0).1,
            final(self).counter_wrapped() == old(self).counter_wrapped(),
            old(self)@.entries.contains_key(h.0) ==> final(self)@.entries.len() == old(self)@.entries.len() - 1,
            !old(self)@.entries.contains_key(h.0) ==> final(self)@ == old(self)@,
            !final(self).counter_wrapped() ==> handles_below_next(final(self)@),
            handles_below_next(old(self)@) ==> handles_below_next(final(self)@),
    {
        proof {
            use_type_invariant(&*self);
            lemma_model_dom(self.entries@);
        }
        let mut entries = BTreeMap::new();
        std::mem::swap(&mut entries, &mut self.entries);
        let r = match entries.remove(&h.0) {
            Some(e) => Some(e.cap),
            None => None,
        };
        proof {
            let f = |e: Entry| (e.cap, e.rights);
            assert(entries@.map_values(f) =~= old(self)@.entries.remove(h.0));
            lemma_model_dom(entries@);
        }
        self.entries = entries;
        r
    }

    /// Number of live handles.
    pub fn len(&self) -> (n: usize)
        ensures
            n == self@.entries.len(),
    {
        proof {
            assert(self.entries@.dom() =~= self@.entries.dom());
        }
        self.entries.len()
    }

    /// Whether no handle is live.
    pub fn is_empty(&self) -> (b: bool)
        ensures
            b == (self@.entries.len() == 0),
    {
        proof {
            assert(self.entries@.dom() =~= self@.entries.dom());
        }
        self.entries.is_empty()
    }
}

impl Default for CapTable {
    fn default() -> (t: Self)
        ensures
            t@.next == 1,
            t@.entries == Map::<u32, (Capability, Rights)>::empty(),
            !t.counter_wrapped(),
    {
        Self::new()
    }
}

/// What is stored is what is found: under the handle `insert` returns,
/// the table holds the capability and rights just stored, and every
/// other handle resolves as before.
pub proof fn law_insert_then_get(t: CapTableModel, cap: Capability, rights: Rights)
    ensures
        get_spec(insert_spec(t, cap, rights).0, insert_spec(t, cap, rights).1.0) == Some((cap, rights)),
        forall|h: u32|
            h != insert_spec(t, cap, rights).1.0 ==> #[trigger] get_spec(insert_spec(t, cap, rights).0, h)
                == get_spec(t, h),
{
}

/// A removed handle no longer resolves; `remove` hands back the
/// capability that `get` found there, and other handles are untouched.
pub proof fn law_remove_then_get(t: CapTableModel, h: u32)
    ensures
        get_spec(remove_spec(t, h).0, h) is None,
        remove_spec(t, h).1 == (match get_spec(t, h) {
            Some((c, _)) => Some(c),
            None => None::<Capability>,
        }),
        forall|k: u32| k != h ==> #[trigger] get_spec(remove_spec(t, h).0, k) == get_spec(t, k),
{
}

/// The live handles of a table are the keys of its entry map, a finite set.
proof fn lemma_model_dom(m: Map<u32, Entry>)
    requires
        m.dom().finite(),
    ensures
        m.map_values(|e: Entry| (e.cap, e.rights)).dom() == m.dom(),
        m.map_values(|e: Entry| (e.cap, e.rights)).dom().finite(),
{
    assert(m.map_values(|e: Entry| (e.cap, e.rights)).dom() =~= m.dom());
}

/// Every live handle lies below the next handle to be given out.
pub open spec fn handles_below_next(t: CapTableModel) -> bool {
    forall|h: u32| #[trigger] t.entries.contains_key(h) ==> h < t.next
}

/// Handles are fresh until the counter wraps. An empty table has every
/// live handle below its next one; in such a table an insertion gives
/// out a handle that was not live, and afterwards every live handle is
/// again below the next one, unless the handle given out was the last,
/// `u32::MAX`; a removal keeps that property.
pub proof fn law_handles_fresh(t: CapTableModel, cap: Capability, rights: Rights, h: u32)
    requires
        handles_below_next(t),
    ensures
        handles_below_next(CapTableModel { next: t.next, entries: Map::empty() }),
        !t.entries.contains_key(insert_spec(t, cap, rights).1.0),
        t.next != u32::MAX ==> handles_below_next(insert_spec(t, cap, rights).0),
        handles_below_next(remove_spec(t, h).0),
{
}

/// A removed handle is not given out again before the counter wraps:
/// in a table whose live handles lie below its next handle, every handle
/// the following insertions give out, while the counter has not wrapped,
/// is at least the next handle, so above every handle live now.
pub proof fn law_removed_handle_not_reissued(t: CapTableModel, h: u32, cap: Capability, rights: Rights)
    requires
        handles_below_next(t),
        t.entries.contains_key(h),
    ensures
        insert_spec(remove_spec(t, h).0, cap, rights).1.0 != h,
        t.next != u32::MAX ==> insert_spec(t, cap, rights).0.next > t.next,
        t.next != u32::MAX ==> insert_spec(remove_spec(t, h).0, cap, rights).0.next > h,
{
}

/// Two insertions in a row return different handles.
pub proof fn law_successive_handles_differ(t: CapTableModel, c1: Capability, r1: Rights, c2: Capability, r2: Rights)
    ensures
        insert_spec(insert_spec(t, c1, r1).0, c2, r2).1 != insert_spec(t, c1, r1).1,
{
}

} // verus!
