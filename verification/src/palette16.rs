//! A palette of sixteen colours.

use vstd::prelude::*;

verus! {

/// Sixteen colours in the hardware's 15-bit format, and the identity under
/// which the sprite palette store deduplicates them.
#[derive(Clone, Copy, Debug)]
pub struct Palette16 {
    pub(crate) id: usize,
    pub(crate) colours: [u16; 16],
}

impl Palette16 {
    /// The sixteen colours.
    pub closed spec fn colour_seq(&self) -> Seq<u16> {
        self.colours@
    }

    /// A palette has sixteen colours.
    pub proof fn lemma_sixteen_colours(&self)
        ensures
            self.colour_seq().len() == 16,
    {
    }

    pub closed spec fn spec_id(&self) -> usize {
        self.id
    }

    /// A palette under the identity `id`. Two palettes with one identity are
    /// taken to be the same palette.
    pub fn new(id: usize, colours: [u16; 16]) -> (palette: Self)
        ensures
            palette.colour_seq() == colours@,
            palette.colour_seq().len() == 16,
            palette.spec_id() == id,
    {
        Palette16 { id, colours }
    }

    /// The identity of the palette.
    #[verifier::when_used_as_spec(spec_id)]
    pub fn id(&self) -> (id: usize)
        ensures
            id == self.spec_id(),
    {
        self.id
    }

    /// The colour at `index`.
    pub fn colour(&self, index: usize) -> (c: u16)
        requires
            index < 16,
        ensures
            c == self.colour_seq()[index as int],
    {
        self.colours[index]
    }

    /// Bytes that a palette occupies in palette memory.
    pub fn layout() -> (size: usize)
        ensures
            size == 32,
    {
        32
    }
}

} // verus!
