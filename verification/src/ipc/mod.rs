//! Inter-process communication: capability-addressed message ports.
//!
//! The kernel routes capability handles between address spaces and
//! carries fixed-size messages on ports; file servers, drivers and
//! display servers build on these primitives.

pub mod caps;
pub mod port;

use vstd::prelude::*;
use crate::ipc::port::{Registry, PortIdAllocator, created};

verus! {

/// One-time IPC subsystem set-up: registers the `kernel` port.
pub fn init(reg: &mut Registry, ids: &mut PortIdAllocator) -> (id: u64)
    requires
        old(reg).wf(),
    ensures
        created(*old(reg), *final(reg), "kernel"@, *old(ids), *final(ids), id),
{
    crate::ipc::port::init(reg, ids)
}

} // verus!
