//! Board support: the QEMU `virt` machine.

pub mod qemu_virt;
