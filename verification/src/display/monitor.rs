//! Monitors: physical or virtual display endpoints.

use vstd::prelude::*;
use crate::display::framebuffer::{Framebuffer, PixelFormat};

verus! {

/// Identifier of a registered monitor: its position in registration order.
#[derive(Debug, Clone, Copy, PartialEq, Eq, Structural)]
pub struct MonitorId(pub u32);

#[derive(Debug, Clone, Copy, PartialEq, Eq, Structural)]
pub enum MonitorKind {
    /// Backed by real display hardware (virtio-gpu, HDMI, DSI, ...).
    Physical,
    /// Lives entirely in RAM. The compositor still draws to it; clients
    /// can read the framebuffer for screenshots, recording, or sending it
    /// over a remote protocol.
    Virtual,
}

/// A monitor: name, kind, framebuffer, and the id assigned when it is
/// registered.
pub struct Monitor {
    pub name: String,
    pub kind: MonitorKind,
    pub width: u32,
    pub height: u32,
    pub fb: Framebuffer,
    /// Raw id value; `u32::MAX` while unregistered.
    pub id: u32,
}

impl Monitor {
    /// A virtual monitor with a zeroed BGRA framebuffer of the given
    /// resolution.
    pub fn new_virtual(name: &str, width: u32, height: u32) -> (m: Self)
        requires
            4 * width <= u32::MAX,
            4 * width * height <= u32::MAX,
        ensures
            m.name@ == name@,
            m.kind == MonitorKind::Virtual,
            m.width == width,
            m.height == height,
            m.fb.wf(),
            m.fb.width == width,
            m.fb.height == height,
            m.fb.stride == 4 * width,
            m.fb.format == PixelFormat::Bgra8,
            m.fb.pixels@ == Seq::new((4 * width * height) as nat, |i: int| 0u8),
            m.id == u32::MAX,
    {
        Monitor {
            name: name.to_owned(),
            kind: MonitorKind::Virtual,
            width,
            height,
            fb: Framebuffer::new(width, height, PixelFormat::Bgra8),
            id: u32::MAX,
        }
    }

    /// A physical monitor that shows the framebuffer `fb` a driver owns.
    pub fn new_physical(name: &str, fb: Framebuffer) -> (m: Self)
        ensures
            m.name@ == name@,
            m.kind == MonitorKind::Physical,
            m.width == fb.width,
            m.height == fb.height,
            m.fb == fb,
            m.id == u32::MAX,
    {
        let width = fb.width;
        let height = fb.height;
        Monitor { name: name.to_owned(), kind: MonitorKind::Physical, width, height, fb, id: u32::MAX }
    }

    /// Record the id assigned at registration.
    pub(crate) fn set_id(&mut self, id: MonitorId)
        ensures
            final(self).id == id.0,
            final(self).name == old(self).name,
            final(self).kind == old(self).kind,
            final(self).width == old(self).width,
            final(self).height == old(self).height,
            final(self).fb == old(self).fb,
    {
        self.id = id.0;
    }

    /// The id assigned at registration.
    pub fn id(&self) -> (r: MonitorId)
        ensures
            r.0 == self.id,
    {
        MonitorId(self.id)
    }

    /// Borrow the framebuffer for direct draw operations.
    pub fn with_framebuffer(&mut self) -> (r: &mut Framebuffer)
        ensures
            *r == old(self).fb,
            final(self).fb == *final(r),
            final(self).id == old(self).id,
            final(self).name == old(self).name,
            final(self).kind == old(self).kind,
            final(self).width == old(self).width,
            final(self).height == old(self).height,
    {
        &mut self.fb
    }

    /// A copy of the framebuffer's bytes, for snapshots and remoting.
    pub fn snapshot(&self) -> (r: Vec<u8>)
        ensures
            r@ == self.fb.pixels@,
    {
        let r = self.fb.pixels.clone();
        assert(r@ =~= self.fb.pixels@);
        r
    }
}

} // verus!
