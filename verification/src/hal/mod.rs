//! Hardware-abstraction surface shared by the kernel and the board
//! support code.

pub mod mmu;
pub mod vmsav8;

use vstd::prelude::*;

verus! {

/// A board's interrupt controller. It has no operations yet; boards name
/// their controller through it.
pub trait IrqController {}

/// A board's I/O memory-management unit. It has no operations yet; boards
/// name their IOMMU through it.
pub trait Iommu {}

} // verus!
