//! Display subsystem: pixel buffers, monitors and the stacking compositor.
//!
//! A display surface (a [`framebuffer::Framebuffer`]) is kept apart from
//! the monitor that shows it (a physical screen or a virtual, in-RAM
//! display). The [`compositor`] stacks layers onto a monitor. Registered
//! monitors live in a list in which a monitor's position is its id.

pub mod framebuffer;
pub mod monitor;
pub mod compositor;

use vstd::prelude::*;
use crate::display::monitor::{Monitor, MonitorId, MonitorKind};

verus! {

/// Every monitor's id is its position in the list.
pub open spec fn ids_match(monitors: Seq<Monitor>) -> bool {
    forall|k: int| 0 <= k < monitors.len() ==> #[trigger] monitors[k].id == k
}

/// Register `m`; its id is the number of monitors registered before it
/// (truncated to 32 bits), so ids follow registration order.
pub fn register_monitor(monitors: &mut Vec<Monitor>, m: Monitor) -> (id: MonitorId)
    ensures
        id.0 == old(monitors)@.len() as u32,
        final(monitors)@.len() == old(monitors)@.len() + 1,
        forall|k: int| 0 <= k < old(monitors)@.len() ==> #[trigger] final(monitors)@[k] == old(monitors)@[k],
        final(monitors)@.last().id == id.0,
        final(monitors)@.last().name == m.name,
        final(monitors)@.last().kind == m.kind,
        final(monitors)@.last().width == m.width,
        final(monitors)@.last().height == m.height,
        final(monitors)@.last().fb == m.fb,
        ids_match(old(monitors)@) && old(monitors)@.len() < u32::MAX ==> ids_match(final(monitors)@),
{
    let id = MonitorId(monitors.len() as u32);
    let mut m = m;
    m.set_id(id);
    monitors.push(m);
    id
}

/// What a lookup by id finds: the monitor at that position, if any.
pub open spec fn monitor_at(monitors: Seq<Monitor>, id: u32) -> Option<Monitor> {
    if (id as int) < monitors.len() {
        Some(monitors[id as int])
    } else {
        None
    }
}

/// Registering a monitor makes it the one found under the id returned,
/// which is the number of monitors registered before it; every earlier
/// id finds what it found before, and no later id finds anything. (Left
/// out: a list already holding `u32::MAX` monitors, where the id wraps.)
pub proof fn law_register_then_get(before: Seq<Monitor>, after: Seq<Monitor>, m: Monitor, id: MonitorId)
    requires
        before.len() < u32::MAX,
        id.0 == before.len() as u32,
        after.len() == before.len() + 1,
        forall|k: int| 0 <= k < before.len() ==> #[trigger] after[k] == before[k],
        after.last().id == id.0,
        after.last().name == m.name,
        after.last().kind == m.kind,
        after.last().width == m.width,
        after.last().height == m.height,
        after.last().fb == m.fb,
    ensures
        id.0 == before.len(),
        monitor_at(after, id.0) == Some(after.last()),
        after.last().id == id.0 && after.last().name == m.name && after.last().fb == m.fb,
        forall|j: u32| (j as int) < before.len() ==> #[trigger] monitor_at(after, j) == monitor_at(before, j),
        forall|j: u32| j > id.0 ==> #[trigger] monitor_at(after, j) is None,
{
}

/// The monitor with id `id`, if one is registered.
pub fn get(monitors: &Vec<Monitor>, id: MonitorId) -> (r: Option<&Monitor>)
    ensures
        r == (if (id.0 as int) < monitors@.len() {
            Some(&monitors@[id.0 as int])
        } else {
            None
        }),
        (r is Some) == (monitor_at(monitors@, id.0) is Some),
        r matches Some(x) ==> monitor_at(monitors@, id.0) == Some(*x),
{
    let i = id.0 as usize;
    if i < monitors.len() {
        Some(&monitors[i])
    } else {
        None
    }
}

/// `(id, name, kind, width, height)` of every registered monitor, in
/// registration order.
pub fn list(monitors: &Vec<Monitor>) -> (r: Vec<(MonitorId, String, MonitorKind, u32, u32)>)
    ensures
        r@.len() == monitors@.len(),
        forall|k: int|
            0 <= k < r@.len() ==> {
                let m = #[trigger] monitors@[k];
                &&& r@[k].0.0 == m.id
                &&& r@[k].1@ == m.name@
                &&& r@[k].2 == m.kind
                &&& r@[k].3 == m.width
                &&& r@[k].4 == m.height
            },
{
    let mut out: Vec<(MonitorId, String, MonitorKind, u32, u32)> = Vec::new();
    let mut i: usize = 0;
    while i < monitors.len()
        invariant
            i <= monitors@.len(),
            out@.len() == i,
            forall|k: int|
                0 <= k < i ==> {
                    let m = #[trigger] monitors@[k];
                    &&& out@[k].0.0 == m.id
                    &&& out@[k].1@ == m.name@
                    &&& out@[k].2 == m.kind
                    &&& out@[k].3 == m.width
                    &&& out@[k].4 == m.height
                },
        decreases monitors.len() - i,
    {
        let m = &monitors[i];
        out.push((m.id(), m.name.clone(), m.kind, m.width, m.height));
        i = i + 1;
    }
    out
}

/// Number of registered monitors.
pub fn count(monitors: &Vec<Monitor>) -> (n: usize)
    ensures
        n == monitors@.len(),
{
    monitors.len()
}

/// One-time display set-up: register a 1280x720 in-RAM monitor named
/// `monitor0`.
pub fn init(monitors: &mut Vec<Monitor>) -> (id: MonitorId)
    ensures
        id.0 == old(monitors)@.len() as u32,
        final(monitors)@.len() == old(monitors)@.len() + 1,
        forall|k: int| 0 <= k < old(monitors)@.len() ==> #[trigger] final(monitors)@[k] == old(monitors)@[k],
        final(monitors)@.last().name@ == "monitor0"@,
        final(monitors)@.last().kind == MonitorKind::Virtual,
        final(monitors)@.last().width == 1280,
        final(monitors)@.last().height == 720,
        final(monitors)@.last().id == id.0,
        final(monitors)@.last().fb.wf(),
        final(monitors)@.last().fb.width == 1280,
        final(monitors)@.last().fb.height == 720,
        final(monitors)@.last().fb.pixels@ == Seq::new(1280 * 720 * 4, |i: int| 0u8),
{
    let m = Monitor::new_virtual("monitor0", 1280, 720);
    assert(m.fb.pixels@ =~= Seq::new(1280 * 720 * 4, |i: int| 0u8));
    register_monitor(monitors, m)
}

} // verus!
