//! Hyperion microkernel core: boot-protocol parsing, virtio rings, IPC
//! ports and capabilities, an in-memory filesystem and a software
//! compositor, with their contracts proved by Verus.

pub mod hal;
pub mod drivers;
pub mod ipc;
pub mod display;
pub mod fs;
pub mod arch;
pub mod efi;
