//! Tyrne kernel core: hardware-abstraction types, page-table descriptor
//! encoding, physical-memory management, kernel objects, capabilities and
//! IPC, with their contracts proved by Verus.

pub mod hal;
pub mod obj;
pub mod mm;
pub mod cap;
pub mod ipc;
pub mod test_hal;
pub mod bsp;
