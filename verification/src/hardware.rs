//! The memory map of the display controller, and the unit in which this
//! crate speaks of it: a single store of a value at an address.

use vstd::prelude::*;

verus! {

/// One store into a memory-mapped region: `value` is to be written at the
/// absolute byte address `address`.
#[derive(Clone, Copy, Debug)]
pub struct Store<T> {
    pub address: usize,
    pub value: T,
}

/// Width of the visible screen in pixels.
pub const WIDTH: i32 = 240;

/// Height of the visible screen in pixels.
pub const HEIGHT: i32 = 160;

/// Base of the background tile store, addressed in 32-bit words.
pub const TILE_BACKGROUND: usize = 0x0600_0000;

/// Base of the background palette store, addressed in 16-bit colours.
pub const PALETTE_BACKGROUND: usize = 0x0500_0000;

/// Base of the sprite palette store.
pub const PALETTE_SPRITE: usize = 0x0500_0200;

/// Base of the sprite tile store.
pub const TILE_SPRITE: usize = 0x0601_0000;

/// Base of the object attribute table.
pub const OBJECT_ATTRIBUTE_MEMORY: usize = 0x0700_0000;

/// Drawing priority of a layer or an object; `Highest` is drawn on top.
#[derive(Clone, Copy, Debug, PartialEq, Eq, Structural)]
pub enum Priority {
    Highest,
    High,
    Low,
    Lowest,
}

impl Priority {
    /// The two-bit hardware encoding.
    pub open spec fn spec_bits(self) -> u16 {
        match self {
            Priority::Highest => 0,
            Priority::High => 1,
            Priority::Low => 2,
            Priority::Lowest => 3,
        }
    }

    #[verifier::when_used_as_spec(spec_bits)]
    pub fn bits(self) -> (b: u16)
        ensures
            b == self.spec_bits(),
            b < 4,
    {
        match self {
            Priority::Highest => 0,
            Priority::High => 1,
            Priority::Low => 2,
            Priority::Lowest => 3,
        }
    }
}

} // verus!
