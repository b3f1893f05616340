//! Hardware abstraction layer: the machine description, the boot
//! protocol parsers that produce it, and the choice of boot console.
//!
//! [`Hal`] holds what the boot stub published: the machine description
//! and whether the early console is up.

pub mod boot_info;
pub mod console;
pub mod dtb;
pub mod multiboot;
pub mod text;

use vstd::prelude::*;
use crate::hal::boot_info::BootInfo;

verus! {

/// The description on record after offering `bi` when `prev` was on
/// record: the first one offered stays.
pub open spec fn published(prev: Option<BootInfo>, bi: BootInfo) -> Option<BootInfo> {
    if prev is None {
        Some(bi)
    } else {
        prev
    }
}

/// Publishing is once-only: the first description published is on
/// record from then on, whatever is published later.
pub proof fn law_publish_once(prev: Option<BootInfo>, a: BootInfo, b: BootInfo)
    ensures
        published(None, a) == Some(a),
        published(published(prev, a), b) == published(prev, a),
{
}

/// What the boot stub published.
pub struct Hal {
    pub boot_info: Option<BootInfo>,
    pub console_ready: bool,
}

impl Hal {
    /// Nothing published yet.
    pub fn new() -> (h: Self)
        ensures
            h.boot_info is None,
            !h.console_ready,
    {
        Hal { boot_info: None, console_ready: false }
    }

    /// Publish `bi` (once: a description published earlier stays) and
    /// mark the console installed.
    pub fn init(&mut self, bi: BootInfo)
        ensures
            final(self).console_ready,
            final(self).boot_info == published(old(self).boot_info, bi),
    {
        self.console_ready = true;
        if self.boot_info.is_none() {
            self.boot_info = Some(bi);
        }
    }
}

/// Whether the early console has been installed.
pub fn console_ready(hal: &Hal) -> (r: bool)
    ensures
        r == hal.console_ready,
{
    hal.console_ready
}

/// The published machine description. It must have been published.
pub fn info(hal: &Hal) -> (bi: &BootInfo)
    requires
        hal.boot_info is Some,
    ensures
        *bi == hal.boot_info->Some_0,
{
    hal.boot_info.as_ref().unwrap()
}

} // verus!
