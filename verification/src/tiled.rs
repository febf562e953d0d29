//! The four hardware background layers, lent out one at a time.

use vstd::prelude::*;
use crate::hardware::Priority;
use crate::regular_map::RegularMap;

verus! {

/// Number of background layers that the hardware has.
pub const LAYERS: usize = 4;

/// The first screenblock given to a background layer; layer `n` gets
/// screenblock `16 + n`.
pub const FIRST_SCREENBLOCK: u8 = 16;

/// The first layer that `in_use` does not mark, or 4 if it marks all.
pub open spec fn first_free(in_use: Seq<bool>) -> int {
    if !in_use[0] {
        0
    } else if !in_use[1] {
        1
    } else if !in_use[2] {
        2
    } else if !in_use[3] {
        3
    } else {
        4
    }
}

/// The number of layers that `in_use` marks.
pub open spec fn live_layers(in_use: Seq<bool>) -> int {
    (if in_use[0] { 1int } else { 0 }) + (if in_use[1] { 1int } else { 0 }) + (if in_use[2] {
        1int
    } else {
        0
    }) + (if in_use[3] { 1int } else { 0 })
}

/// The tiled display mode with four regular background layers.
pub struct Tiled0 {
    regular: [bool; 4],
}

/// A background layer on loan. Whoever holds the loan holds the layer, until
/// the loan is handed back to `Tiled0::release`.
pub struct MapLoan<T> {
    map: T,
    background_id: u8,
}

impl<T> MapLoan<T> {
    /// The hardware layer on loan.
    pub closed spec fn layer(&self) -> u8 {
        self.background_id
    }

    /// The map that drives the layer.
    pub closed spec fn inner(&self) -> T {
        self.map
    }

    /// The layer on loan is one of the four.
    pub open spec fn wf(&self) -> bool {
        self.layer() < LAYERS
    }

    pub(crate) fn new(map: T, background_id: u8) -> (loan: Self)
        requires
            background_id < LAYERS,
        ensures
            loan.wf(),
            loan.inner() == map,
            loan.layer() == background_id,
    {
        MapLoan { map, background_id }
    }

    /// The hardware layer on loan.
    pub fn background_id(&self) -> (id: u8)
        ensures
            id == self.layer(),
    {
        self.background_id
    }

    /// The map that drives the layer.
    pub fn map(&self) -> (map: &T)
        ensures
            *map == self.inner(),
    {
        &self.map
    }

    /// The map that drives the layer, to be changed in place.
    pub fn map_mut(&mut self) -> (map: &mut T)
        ensures
            *map == old(self).inner(),
            final(self).inner() == *final(map),
            final(self).layer() == old(self).layer(),
    {
        &mut self.map
    }
}

impl Tiled0 {
    /// Layer by layer, whether it is on loan.
    pub closed spec fn in_use(&self) -> Seq<bool> {
        self.regular@
    }

    /// There are four layers.
    pub proof fn lemma_four_layers(&self)
        ensures
            self.in_use().len() == LAYERS,
    {
    }

    /// The display mode with no layer on loan.
    pub fn new() -> (tiled: Self)
        ensures
            tiled.in_use() == seq![false, false, false, false],
    {
        let tiled = Tiled0 { regular: [false;4] };
        assert(tiled.in_use() =~= seq![false, false, false, false]);
        tiled
    }

    /// The layer that the next loan will be of, if one is left.
    pub fn free_background(&self) -> (layer: Option<u8>)
        ensures
            layer == (if first_free(self.in_use()) < LAYERS {
                Some(first_free(self.in_use()) as u8)
            } else {
                None
            }),
    {
        if !self.regular[0] {
            Some(0)
        } else if !self.regular[1] {
            Some(1)
        } else if !self.regular[2] {
            Some(2)
        } else if !self.regular[3] {
            Some(3)
        } else {
            None
        }
    }

    /// Lends out the first layer that is not on loan, with an empty map on
    /// it. No more than four layers can be on loan at a time.
    pub fn background(&mut self, priority: Priority) -> (loan: MapLoan<RegularMap>)
        requires
            first_free(old(self).in_use()) < LAYERS,
        ensures
            loan.wf(),
            loan.layer() == first_free(old(self).in_use()),
            final(self).in_use() == old(self).in_use().update(loan.layer() as int, true),
            live_layers(final(self).in_use()) == live_layers(old(self).in_use()) + 1,
            loan.inner().wf(),
            loan.inner().layer() == loan.layer(),
            loan.inner().block() == FIRST_SCREENBLOCK + loan.layer(),
            loan.inner().drawn_at() == priority,
            loan.inner().scroll_x() == 0,
            loan.inner().scroll_y() == 0,
            loan.inner().is_dirty(),
            loan.inner().cells() == Seq::new(1024, |i: int| 0u16),
    {
        let new_background: u8 = self.free_background().unwrap();
        let bg = RegularMap::new(new_background, new_background + FIRST_SCREENBLOCK, priority);
        self.regular[new_background as usize] = true;
        assert(self.in_use() =~= old(self).in_use().update(new_background as int, true));
        MapLoan::new(bg, new_background)
    }

    /// Takes a layer back. The layer can be lent out again; its map is
    /// dropped as it is, with whatever its cells still name.
    pub fn release<T>(&mut self, loan: MapLoan<T>)
        requires
            loan.wf(),
        ensures
            final(self).in_use() == old(self).in_use().update(loan.layer() as int, false),
    {
        self.regular[loan.background_id as usize] = false;
        assert(self.in_use() =~= old(self).in_use().update(loan.layer() as int, false));
    }

    /// With four layers on loan no fifth can be had, and with fewer one can.
    pub proof fn lemma_four_loans_at_most(&self)
        ensures
            0 <= live_layers(self.in_use()) <= LAYERS,
            first_free(self.in_use()) < LAYERS <==> live_layers(self.in_use()) < LAYERS,
    {
    }
}

} // verus!
