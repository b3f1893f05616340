//! Choice of the boot console.
//!
//! The boot stub picks a UART driver from the [`ConsoleSpec`] of the
//! machine description; the platform layer keeps it as the active
//! console and performs its register accesses.

use vstd::prelude::*;
use crate::hal::boot_info::{ConsoleSpec, ConsoleKind};
use crate::drivers::uart::{Pl011, Ns16550, BcmMiniUart};

verus! {

/// The concrete driver chosen at boot.
#[derive(Debug, Clone, Copy, PartialEq, Eq, Structural)]
pub enum BootConsole {
    Pl011(Pl011),
    Ns16550(Ns16550),
    BcmMiniUart(BcmMiniUart),
}

/// Register stride of a 16550 in a register window of `size` bytes:
/// one byte for windows under 0x80 bytes, four otherwise.
pub fn ns16550_stride(size: u64) -> (s: usize)
    ensures
        s == (if size < 0x80 { 1usize } else { 4usize }),
{
    if size < 0x80 {
        1
    } else {
        4
    }
}

/// The driver for `spec`, at its register base. The register base is
/// taken as an address (it must fit a `usize`).
pub fn install(spec: ConsoleSpec) -> (c: BootConsole)
    requires
        spec.regs.base <= usize::MAX,
    ensures
        c == (match spec.kind {
            ConsoleKind::Pl011 => BootConsole::Pl011(Pl011 { base: spec.regs.base as usize }),
            ConsoleKind::Ns16550 => BootConsole::Ns16550(
                Ns16550 { base: spec.regs.base as usize, stride: if spec.regs.size < 0x80 { 1usize } else { 4usize } },
            ),
            ConsoleKind::BcmMiniUart => BootConsole::BcmMiniUart(BcmMiniUart { base: spec.regs.base as usize }),
        }),
{
    let base = spec.regs.base as usize;
    match spec.kind {
        ConsoleKind::Pl011 => BootConsole::Pl011(Pl011::new(base)),
        ConsoleKind::Ns16550 => BootConsole::Ns16550(Ns16550::new(base, ns16550_stride(spec.regs.size))),
        ConsoleKind::BcmMiniUart => BootConsole::BcmMiniUart(BcmMiniUart::new(base)),
    }
}

} // verus!
