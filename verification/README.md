# netbypass

The networking core of a small RISC-V teaching kernel, verified with Verus: a
minimal ARP/IPv4/UDP/TCP stack, an e1000 driver, and kernel-bypass networking
over rings that a user program and the kernel share.

- `src/` is the verified library. It computes on plain values and never touches
  hardware: loops around device or system-call work are written as runs that
  their driver advances.
  - frames and packets: `addr`, `bytes`, `checksum`, `flags`, `frame`, `parse`
  - the stack: `neighbor`, `stack`, `poll`, `udp`, `tcp`, `userbuf`
  - kernel bypass: `bypass` (kernel side), `ring` (user side)
  - devices: `pci`, `nic`, `e1000`, `virtio`, `p9`
  - the rest of the kernel: `trap`, `syscall`, `hexdump`
  - the network programs: `bypass_udp`, `bypass_test`, `bench`, `bench_bypass`,
    `bench_socket`, `bench_e1000`, `stats`
- `app/` is the kernel and its programs around the library: MMIO, locks, system
  calls and printing.
- `tests/` runs the library on concrete values.

Functions named `law_*` are proofs of properties that hold across the library,
such as that a frame that was built is parsed back, or that what a program
commits to the TX ring is what the kernel sends.
