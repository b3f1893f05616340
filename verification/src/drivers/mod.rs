//! Device drivers, organised by class, and the registries that hand
//! devices to the rest of the kernel.

pub mod block;
pub mod net;
pub mod uart;
pub mod virtio;
