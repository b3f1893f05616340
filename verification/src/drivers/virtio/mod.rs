//! Virtio devices: split virtqueues, the MMIO transport and the block,
//! network and GPU request logic.

pub mod blk;
pub mod gpu;
pub mod mmio;
pub mod net;
pub mod queue;
