# hyperion_kernel

The core of the Hyperion microkernel, with its behaviour stated as Verus
contracts and proved.

## Layout

- `src/` is the verified library.
  - `hal/`: the machine description (`BootInfo`), the device-tree and
    Multiboot2 parsers that produce it, the boot console choice, and
    byte-string helpers.
  - `drivers/`: UART register programming, the block and network device
    registries, the UDP echo responder, and the virtio drivers (split
    virtqueues, the MMIO transport, and the block, network and GPU
    request logic and bring-up state machines).
  - `ipc/`: message ports with their registry, and capability tables.
  - `fs/`: the in-memory filesystem and the path-based VFS over it.
  - `display/`: framebuffers, monitors and the stacking compositor.
  - `arch/`: the architecture decisions (descriptor tables, trap
    dispatch, interrupt routing, timer calibration, secondary-CPU
    bring-up, the boot identity map).
  - `efi.rs`: the UEFI stub's computations (handoff block, kernel image
    layout and copy plan, boot pattern, text formatting).
- `app/` is the platform layer: register and port I/O, the trap entry
  points, the global state behind spin locks, the device bring-up loops,
  the kernel entry and the UEFI stub. It acts on the library's decisions
  and is not verified.
- `tests/` runs the library on concrete inputs.

Public proof functions named `law_*` state the properties that relate
several operations (a read after a write, FIFO order of a port,
freeing a descriptor chain after allocating it, and so on).
