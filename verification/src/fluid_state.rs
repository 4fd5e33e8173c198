//! The state of the fluid in one block, as plain values.

use vstd::prelude::*;

verus! {

/// The fluid that a block holds.
#[derive(Clone, Copy, Debug, PartialEq, Eq, Structural)]
pub struct FluidState {
    /// The number of the kind of fluid.
    pub kind: u8,
    /// How much of it the block holds.
    pub amount: u8,
    /// Whether it is falling.
    pub falling: bool,
}

} // verus!
