//! Verified networking core of a small teaching kernel.

pub mod addr;
pub mod bench;
pub mod bench_bypass;
pub mod bench_e1000;
pub mod bench_socket;
pub mod bypass;
pub mod bypass_test;
pub mod bypass_udp;
pub mod bytes;
pub mod checksum;
pub mod e1000;
pub mod flags;
pub mod frame;
pub mod hexdump;
pub mod neighbor;
pub mod nic;
pub mod p9;
pub mod parse;
pub mod pci;
pub mod poll;
pub mod ring;
pub mod stack;
pub mod stats;
pub mod syscall;
pub mod tcp;
pub mod trap;
pub mod udp;
pub mod userbuf;
pub mod virtio;

