//! The owner of sprite tile memory and sprite palette memory: a
//! reference-counted cache that keeps one copy of each sprite and of each
//! palette in hardware memory for as long as somebody borrows it.

use vstd::prelude::*;
use crate::block_allocator::{BlockAllocator, BLOCK_BYTES, can_fit, first_fit, is_first_fit, marked};
use crate::block_allocator::lemma_first_fit_exists;
use crate::hardware::{Store, PALETTE_SPRITE, TILE_SPRITE};
use crate::palette16::Palette16;
use crate::sprite::{Size, Sprite};
use crate::table::{PairTable, table_entries, table_get, table_insert, table_new, table_remove};

verus! {

/// Blocks of 32 bytes in sprite tile memory.
pub const SPRITE_BLOCKS: usize = 1024;

/// Blocks of 32 bytes in sprite palette memory: one palette each.
pub const PALETTE_BLOCKS: usize = 16;

/// The greatest reference count that an entry can carry.
pub const MAX_BORROWS: u16 = 0xFFFF;

/// Where a sprite or a palette lies in hardware memory, in blocks from the
/// start of its memory, and how many borrows of it are out.
#[derive(Clone, Copy, Debug)]
pub struct Storage {
    pub location: u16,
    pub count: u16,
}

impl Storage {
    pub fn from_sprite_ptr(d: usize) -> (storage: Self)
        requires
            TILE_SPRITE <= d < TILE_SPRITE + SPRITE_BLOCKS * BLOCK_BYTES,
        ensures
            storage.location == (d - TILE_SPRITE) / (BLOCK_BYTES as int),
            storage.count == 1,
    {
        Self { location: ((d - TILE_SPRITE) / BLOCK_BYTES) as u16, count: 1 }
    }

    pub fn from_palette_ptr(d: usize) -> (storage: Self)
        requires
            PALETTE_SPRITE <= d < PALETTE_SPRITE + PALETTE_BLOCKS * BLOCK_BYTES,
        ensures
            storage.location == (d - PALETTE_SPRITE) / (BLOCK_BYTES as int),
            storage.count == 1,
    {
        Self { location: ((d - PALETTE_SPRITE) / Palette16::layout()) as u16, count: 1 }
    }

    pub fn as_palette_ptr(&self) -> (d: usize)
        ensures
            d == PALETTE_SPRITE + self.location * BLOCK_BYTES,
    {
        self.location as usize * Palette16::layout() + PALETTE_SPRITE
    }

    pub fn as_sprite_ptr(&self) -> (d: usize)
        ensures
            d == TILE_SPRITE + self.location * BLOCK_BYTES,
    {
        self.location as usize * BLOCK_BYTES + TILE_SPRITE
    }
}

/// The stores that copy a palette's sixteen colours to `address`.
pub open spec fn palette_copy(address: int, colours: Seq<u16>) -> Seq<Store<u16>> {
    Seq::new(16, |i: int| Store { address: (address + 2 * i) as usize, value: colours[i] })
}

/// The stores that copy a sprite's pixel data to `address`, two bytes to a
/// store, the first byte in the low half.
pub open spec fn sprite_copy(address: int, bytes: Seq<u8>) -> Seq<Store<u16>> {
    Seq::new(
        (bytes.len() / 2) as nat,
        |i: int|
            Store {
                address: (address + 2 * i) as usize,
                value: (bytes[2 * i] + 256 * bytes[2 * i + 1]) as u16,
            },
    )
}

/// The state of the sprite and palette cache.
#[verifier::ext_equal]
pub struct SpriteCacheView {
    /// For each sprite in memory, by identity: its first block and the
    /// number of borrows.
    pub sprites: Map<usize, (u16, u16)>,
    /// For each palette in memory, by identity: its block and the number of
    /// borrows.
    pub palettes: Map<usize, (u16, u16)>,
    /// Block by block, whether sprite tile memory is allocated.
    pub tile_memory: Seq<bool>,
    /// Block by block, whether sprite palette memory is allocated.
    pub palette_memory: Seq<bool>,
}

/// What a request for a palette comes to.
pub struct PaletteOutcome {
    pub view: SpriteCacheView,
    /// The palette's block, unless none could be had.
    pub location: Option<u16>,
    /// The stores that the request adds to the pending ones.
    pub uploads: Seq<Store<u16>>,
}

/// What a request for a sprite comes to.
pub struct SpriteOutcome {
    pub view: SpriteCacheView,
    /// The sprite's first block and its palette's block, unless one of them
    /// could not be had.
    pub locations: Option<(u16, u16)>,
    /// The stores that the request adds to the pending ones.
    pub uploads: Seq<Store<u16>>,
}

impl SpriteCacheView {
    /// Both memories have their size, every location lies within its memory,
    /// and every entry has a borrow out.
    pub open spec fn wf(self) -> bool {
        &&& self.tile_memory.len() == SPRITE_BLOCKS
        &&& self.palette_memory.len() == PALETTE_BLOCKS
        &&& forall|id: usize| #[trigger]
            self.sprites.contains_key(id) ==> self.sprites[id].0 < SPRITE_BLOCKS
                && self.sprites[id].1 >= 1
        &&& forall|id: usize| #[trigger]
            self.palettes.contains_key(id) ==> self.palettes[id].0 < PALETTE_BLOCKS
                && self.palettes[id].1 >= 1
    }

    /// One more borrow of a palette. A palette in memory is counted once
    /// more, unless its count is full. A palette not in memory takes the
    /// lowest free block of palette memory, if there is one, and its colours
    /// are to be copied there.
    pub open spec fn acquire_palette(self, id: usize, colours: Seq<u16>) -> PaletteOutcome {
        if self.palettes.contains_key(id) {
            let (location, count) = self.palettes[id];
            if count < MAX_BORROWS {
                PaletteOutcome {
                    view: SpriteCacheView {
                        palettes: self.palettes.insert(id, (location, (count + 1) as u16)),
                        ..self
                    },
                    location: Some(location),
                    uploads: Seq::empty(),
                }
            } else {
                PaletteOutcome { view: self, location: None, uploads: Seq::empty() }
            }
        } else if can_fit(self.palette_memory, 1) {
            let block = first_fit(self.palette_memory, 1);
            PaletteOutcome {
                view: SpriteCacheView {
                    palettes: self.palettes.insert(id, (block as u16, 1)),
                    palette_memory: marked(self.palette_memory, block, 1, true),
                    ..self
                },
                location: Some(block as u16),
                uploads: palette_copy(PALETTE_SPRITE + BLOCK_BYTES * block, colours),
            }
        } else {
            PaletteOutcome { view: self, location: None, uploads: Seq::empty() }
        }
    }

    /// One more borrow of a sprite of `blocks` blocks, and with it of its
    /// palette. A sprite in memory is counted once more; a sprite not in
    /// memory takes the lowest run of free blocks that holds it, and its
    /// pixels are to be copied there. If the sprite's count is full, if no
    /// run is long enough, or if the palette cannot be had, nothing changes
    /// and nothing is borrowed.
    pub open spec fn acquire_sprite(
        self,
        id: usize,
        blocks: int,
        bytes: Seq<u8>,
        palette_id: usize,
        colours: Seq<u16>,
    ) -> SpriteOutcome {
        let nothing = SpriteOutcome { view: self, locations: None, uploads: Seq::empty() };
        let palette = self.acquire_palette(palette_id, colours);
        if self.sprites.contains_key(id) {
            let (location, count) = self.sprites[id];
            if count < MAX_BORROWS && palette.location is Some {
                SpriteOutcome {
                    view: SpriteCacheView {
                        sprites: self.sprites.insert(id, (location, (count + 1) as u16)),
                        ..palette.view
                    },
                    locations: Some((location, palette.location->0)),
                    uploads: palette.uploads,
                }
            } else {
                nothing
            }
        } else if can_fit(self.tile_memory, blocks) && palette.location is Some {
            let block = first_fit(self.tile_memory, blocks);
            SpriteOutcome {
                view: SpriteCacheView {
                    sprites: self.sprites.insert(id, (block as u16, 1)),
                    tile_memory: marked(self.tile_memory, block, blocks, true),
                    ..palette.view
                },
                locations: Some((block as u16, palette.location->0)),
                uploads: palette.uploads + sprite_copy(TILE_SPRITE + BLOCK_BYTES * block, bytes),
            }
        } else {
            nothing
        }
    }

    /// One borrow of a palette given back. With the last borrow the
    /// palette's block is free again and the palette is forgotten.
    pub open spec fn release_palette(self, id: usize) -> SpriteCacheView {
        if self.palettes.contains_key(id) {
            let (location, count) = self.palettes[id];
            if count > 1 {
                SpriteCacheView {
                    palettes: self.palettes.insert(id, (location, (count - 1) as u16)),
                    ..self
                }
            } else {
                SpriteCacheView {
                    palettes: self.palettes.remove(id),
                    palette_memory: marked(self.palette_memory, location as int, 1, false),
                    ..self
                }
            }
        } else {
            self
        }
    }

    /// One borrow of a sprite of `blocks` blocks given back, and with it one
    /// of its palette. With the last borrow the sprite's blocks are free
    /// again and the sprite is forgotten.
    pub open spec fn release_sprite(self, id: usize, blocks: int, palette_id: usize) -> SpriteCacheView {
        let without = if self.sprites.contains_key(id) {
            let (location, count) = self.sprites[id];
            if count > 1 {
                SpriteCacheView {
                    sprites: self.sprites.insert(id, (location, (count - 1) as u16)),
                    ..self
                }
            } else {
                SpriteCacheView {
                    sprites: self.sprites.remove(id),
                    tile_memory: marked(self.tile_memory, location as int, blocks, false),
                    ..self
                }
            }
        } else {
            self
        };
        without.release_palette(palette_id)
    }

    /// Whether a borrow of the sprite and its palette can be doubled: both
    /// are in memory and neither count is full.
    pub open spec fn can_duplicate(self, id: usize, palette_id: usize) -> bool {
        &&& self.sprites.contains_key(id)
        &&& self.sprites[id].1 < MAX_BORROWS
        &&& self.palettes.contains_key(palette_id)
        &&& self.palettes[palette_id].1 < MAX_BORROWS
    }

    /// The cache after a borrow is doubled: the sprite and its palette are
    /// each counted once more.
    pub open spec fn duplicate(self, id: usize, palette_id: usize) -> SpriteCacheView {
        SpriteCacheView {
            sprites: self.sprites.insert(
                id,
                (self.sprites[id].0, (self.sprites[id].1 + 1) as u16),
            ),
            palettes: self.palettes.insert(
                palette_id,
                (self.palettes[palette_id].0, (self.palettes[palette_id].1 + 1) as u16),
            ),
            ..self
        }
    }

    /// A request for a palette keeps the cache well formed.
    pub proof fn lemma_acquire_palette_wf(self, id: usize, colours: Seq<u16>)
        requires
            self.wf(),
        ensures
            self.acquire_palette(id, colours).view.wf(),
            self.acquire_palette(id, colours).location is Some ==> self.acquire_palette(
                id,
                colours,
            ).location->0 < PALETTE_BLOCKS,
            self.acquire_palette(id, colours).view.sprites == self.sprites,
            self.acquire_palette(id, colours).view.tile_memory == self.tile_memory,
    {
        if !self.palettes.contains_key(id) && can_fit(self.palette_memory, 1) {
            let block = first_fit(self.palette_memory, 1);
            lemma_first_fit_exists(self.palette_memory, 1);
        }
    }

    /// A request for a sprite keeps the cache well formed.
    pub proof fn lemma_acquire_sprite_wf(
        self,
        id: usize,
        blocks: int,
        bytes: Seq<u8>,
        palette_id: usize,
        colours: Seq<u16>,
    )
        requires
            self.wf(),
            blocks > 0,
        ensures
            self.acquire_sprite(id, blocks, bytes, palette_id, colours).view.wf(),
            self.acquire_sprite(id, blocks, bytes, palette_id, colours).locations is Some ==> {
                let found = self.acquire_sprite(id, blocks, bytes, palette_id, colours).locations->0;
                found.0 < SPRITE_BLOCKS && found.1 < PALETTE_BLOCKS
            },
    {
        self.lemma_acquire_palette_wf(palette_id, colours);
        if !self.sprites.contains_key(id) && can_fit(self.tile_memory, blocks) {
            let block = first_fit(self.tile_memory, blocks);
            lemma_first_fit_exists(self.tile_memory, blocks);
        }
    }

    /// A request for a sprite that is in memory, with its palette in memory,
    /// borrows both again where they lie: each is counted once more, no
    /// memory is taken, nothing is to be copied, and no entry is added. Both
    /// counts have to fit their 16 bits.
    pub proof fn lemma_cached_sprite_is_borrowed_again(
        self,
        id: usize,
        blocks: int,
        bytes: Seq<u8>,
        palette_id: usize,
        colours: Seq<u16>,
    )
        requires
            self.sprites.contains_key(id),
            self.sprites[id].1 < MAX_BORROWS,
            self.palettes.contains_key(palette_id),
            self.palettes[palette_id].1 < MAX_BORROWS,
        ensures
            ({
                let outcome = self.acquire_sprite(id, blocks, bytes, palette_id, colours);
                &&& outcome.locations == Some((self.sprites[id].0, self.palettes[palette_id].0))
                &&& outcome.uploads == Seq::<Store<u16>>::empty()
                &&& outcome.view.sprites == self.sprites.insert(
                    id,
                    (self.sprites[id].0, (self.sprites[id].1 + 1) as u16),
                )
                &&& outcome.view.palettes == self.palettes.insert(
                    palette_id,
                    (self.palettes[palette_id].0, (self.palettes[palette_id].1 + 1) as u16),
                )
                &&& outcome.view.sprites.dom() == self.sprites.dom()
                &&& outcome.view.palettes.dom() == self.palettes.dom()
                &&& outcome.view.tile_memory == self.tile_memory
                &&& outcome.view.palette_memory == self.palette_memory
            }),
    {
        let outcome = self.acquire_sprite(id, blocks, bytes, palette_id, colours);
        assert(outcome.view.sprites.dom() =~= self.sprites.dom());
        assert(outcome.view.palettes.dom() =~= self.palettes.dom());
    }

    /// Giving a borrow back keeps the cache well formed.
    pub proof fn lemma_release_wf(self, id: usize, blocks: int, palette_id: usize)
        requires
            self.wf(),
        ensures
            self.release_palette(palette_id).wf(),
            self.release_sprite(id, blocks, palette_id).wf(),
    {
    }

    /// A sprite that is borrowed twice and given back once stays in memory
    /// where it is; given back a second time it leaves memory, and its
    /// blocks are free for the next request.
    pub proof fn lemma_borrow_twice_return_twice(
        self,
        id: usize,
        blocks: int,
        bytes: Seq<u8>,
        palette_id: usize,
        colours: Seq<u16>,
    )
        requires
            self.wf(),
            blocks > 0,
            !self.sprites.contains_key(id),
            !self.palettes.contains_key(palette_id),
            self.acquire_sprite(id, blocks, bytes, palette_id, colours).locations is Some,
        ensures
            ({
                let once = self.acquire_sprite(id, blocks, bytes, palette_id, colours);
                let twice = once.view.acquire_sprite(id, blocks, bytes, palette_id, colours);
                let back_once = twice.view.release_sprite(id, blocks, palette_id);
                let back_twice = back_once.release_sprite(id, blocks, palette_id);
                &&& twice.locations == once.locations
                &&& twice.uploads == Seq::<Store<u16>>::empty()
                &&& twice.view.sprites[id].1 == 2
                &&& twice.view.tile_memory == once.view.tile_memory
                &&& back_once == once.view
                &&& back_once.sprites.contains_key(id)
                &&& back_twice == self
                &&& !back_twice.sprites.contains_key(id)
            }),
    {
        let once = self.acquire_sprite(id, blocks, bytes, palette_id, colours);
        let twice = once.view.acquire_sprite(id, blocks, bytes, palette_id, colours);
        let back_once = twice.view.release_sprite(id, blocks, palette_id);
        let back_twice = back_once.release_sprite(id, blocks, palette_id);
        self.lemma_acquire_sprite_wf(id, blocks, bytes, palette_id, colours);
        let block = first_fit(self.tile_memory, blocks);
        lemma_first_fit_exists(self.tile_memory, blocks);
        let slot = first_fit(self.palette_memory, 1);
        lemma_first_fit_exists(self.palette_memory, 1);
        assert(back_once.sprites =~= once.view.sprites);
        assert(back_once.palettes =~= once.view.palettes);
        assert(back_once =~= once.view);
        assert(back_twice.sprites =~= self.sprites);
        assert(back_twice.palettes =~= self.palettes);
        assert(back_twice.tile_memory =~= self.tile_memory);
        assert(back_twice.palette_memory =~= self.palette_memory);
        assert(back_twice =~= self);
    }
}

/// A borrow of a sprite in hardware memory, and of its palette. While the
/// borrow is out, the sprite and the palette stay where they are.
pub struct SpriteBorrow {
    id: usize,
    palette_id: usize,
    size: Size,
    sprite_location: u16,
    palette_location: u16,
}

impl SpriteBorrow {
    /// The identity of the sprite.
    pub closed spec fn sprite_id(&self) -> usize {
        self.id
    }

    /// The identity of the sprite's palette.
    pub closed spec fn palette_id(&self) -> usize {
        self.palette_id
    }

    pub closed spec fn spec_size(&self) -> Size {
        self.size
    }

    /// The sprite's first block in sprite tile memory.
    pub closed spec fn tile(&self) -> u16 {
        self.sprite_location
    }

    /// The palette's block in sprite palette memory.
    pub closed spec fn bank(&self) -> u16 {
        self.palette_location
    }

    /// The locations lie within their memories.
    pub open spec fn wf(&self) -> bool {
        self.tile() < SPRITE_BLOCKS && self.bank() < PALETTE_BLOCKS
    }

    #[verifier::when_used_as_spec(spec_size)]
    pub fn size(&self) -> (size: Size)
        ensures
            size == self.spec_size(),
    {
        self.size
    }

    #[verifier::when_used_as_spec(tile)]
    pub fn sprite_location(&self) -> (location: u16)
        ensures
            location == self.tile(),
    {
        self.sprite_location
    }

    #[verifier::when_used_as_spec(bank)]
    pub fn palette_location(&self) -> (location: u16)
        ensures
            location == self.bank(),
    {
        self.palette_location
    }
}

/// The sprite and palette cache, with the allocators of the two memories
/// and the stores that are pending for them.
pub struct SpriteControllerInner {
    palette: PairTable,
    sprite: PairTable,
    sprite_allocator: BlockAllocator,
    palette_allocator: BlockAllocator,
    uploads: Vec<Store<u16>>,
}

impl SpriteControllerInner {
    pub closed spec fn view(&self) -> SpriteCacheView {
        SpriteCacheView {
            sprites: table_entries(self.sprite),
            palettes: table_entries(self.palette),
            tile_memory: self.sprite_allocator.taken(),
            palette_memory: self.palette_allocator.taken(),
        }
    }

    /// The stores into sprite memory that were asked for and not yet taken,
    /// oldest first.
    pub closed spec fn pending(&self) -> Seq<Store<u16>> {
        self.uploads@
    }

    /// The cache is well formed, and the two allocators cover sprite tile
    /// memory and sprite palette memory.
    pub closed spec fn wf(&self) -> bool {
        &&& self@.wf()
        &&& self.sprite_allocator.base() == TILE_SPRITE
        &&& self.palette_allocator.base() == PALETTE_SPRITE
    }

    /// A well-formed controller has a well-formed cache.
    pub proof fn lemma_wf_view(&self)
        requires
            self.wf(),
        ensures
            self@.wf(),
    {
    }

    /// A cache with nothing in memory and nothing pending.
    pub fn new() -> (controller: Self)
        ensures
            controller.wf(),
            controller@.sprites == Map::<usize, (u16, u16)>::empty(),
            controller@.palettes == Map::<usize, (u16, u16)>::empty(),
            controller@.tile_memory == Seq::new(SPRITE_BLOCKS as nat, |j: int| false),
            controller@.palette_memory == Seq::new(PALETTE_BLOCKS as nat, |j: int| false),
            controller.pending() == Seq::<Store<u16>>::empty(),
    {
        let controller = Self {
            palette: table_new(),
            sprite: table_new(),
            sprite_allocator: BlockAllocator::new(TILE_SPRITE, SPRITE_BLOCKS),
            palette_allocator: BlockAllocator::new(PALETTE_SPRITE, PALETTE_BLOCKS),
            uploads: Vec::new(),
        };
        assert(controller@.sprites =~= Map::<usize, (u16, u16)>::empty());
        assert(controller@.palettes =~= Map::<usize, (u16, u16)>::empty());
        controller
    }

    /// One more borrow of a palette: its block in palette memory, or
    /// nothing if it cannot be had.
    fn palette(&mut self, palette: &Palette16) -> (location: Option<u16>)
        requires
            old(self).wf(),
        ensures
            final(self).wf(),
            final(self)@ == old(self)@.acquire_palette(palette.spec_id(), palette.colour_seq()).view,
            location == old(self)@.acquire_palette(
                palette.spec_id(),
                palette.colour_seq(),
            ).location,
            final(self).pending() == old(self).pending() + old(self)@.acquire_palette(
                palette.spec_id(),
                palette.colour_seq(),
            ).uploads,
    {
        let id = palette.id();
        proof {
            self@.lemma_acquire_palette_wf(id, palette.colour_seq());
            palette.lemma_sixteen_colours();
        }
        match table_get(&self.palette, id) {
            Some(storage) => {
                if storage.1 == MAX_BORROWS {
                    assert(self.pending() =~= old(self).pending() + Seq::<Store<u16>>::empty());
                    return None;
                }
                table_insert(&mut self.palette, id, (storage.0, storage.1 + 1));
                assert(self.pending() =~= old(self).pending() + Seq::<Store<u16>>::empty());
                Some(storage.0)
            },
            None => {
                let dest = match self.palette_allocator.allocate(Palette16::layout()) {
                    Some(dest) => dest,
                    None => {
                        assert(self.pending() =~= old(self).pending() + Seq::<
                            Store<u16>,
                        >::empty());
                        return None;
                    },
                };
                let ghost all = palette_copy(dest as int, palette.colour_seq());
                let mut i: usize = 0;
                while i < 16
                    invariant
                        i <= 16,
                        PALETTE_SPRITE <= dest < PALETTE_SPRITE + PALETTE_BLOCKS * BLOCK_BYTES,
                        palette.colour_seq().len() == 16,
                        all == palette_copy(dest as int, palette.colour_seq()),
                        self.uploads@ == old(self).uploads@ + all.take(i as int),
                        self.palette == old(self).palette,
                        self.sprite == old(self).sprite,
                        self.sprite_allocator == old(self).sprite_allocator,
                        self.palette_allocator.base() == PALETTE_SPRITE,
                        self.palette_allocator.wf(),
                        self.palette_allocator.taken() == marked(
                            old(self).palette_allocator.taken(),
                            first_fit(old(self).palette_allocator.taken(), 1),
                            1,
                            true,
                        ),
                    decreases 16 - i,
                {
                    self.uploads.push(Store { address: dest + 2 * i, value: palette.colour(i) });
                    proof {
                        assert(all.take(i + 1) =~= all.take(i as int).push(all[i as int]));
                    }
                    i += 1;
                }
                proof {
                    assert(all.take(16) =~= all);
                }
                let storage = Storage::from_palette_ptr(dest);
                table_insert(&mut self.palette, id, (storage.location, storage.count));
                Some(storage.location)
            },
        }
    }

    /// Borrows a sprite, and with it its palette. A sprite that is in
    /// memory is counted once more; one that is not is given the lowest run
    /// of free blocks that holds it, and the copy of its pixels is added to
    /// the pending stores. Hands back nothing, and changes nothing, if the
    /// sprite or its palette cannot be had.
    pub fn try_get_sprite(&mut self, sprite: &Sprite<'_>) -> (borrow: Option<SpriteBorrow>)
        requires
            old(self).wf(),
            sprite.fits(),
        ensures
            final(self).wf(),
            final(self)@ == old(self)@.acquire_sprite(
                sprite.spec_id(),
                sprite.spec_size().tiles() as int,
                sprite.bytes(),
                sprite.spec_palette().spec_id(),
                sprite.spec_palette().colour_seq(),
            ).view,
            final(self).pending() == old(self).pending() + old(self)@.acquire_sprite(
                sprite.spec_id(),
                sprite.spec_size().tiles() as int,
                sprite.bytes(),
                sprite.spec_palette().spec_id(),
                sprite.spec_palette().colour_seq(),
            ).uploads,
            borrow is Some == old(self)@.acquire_sprite(
                sprite.spec_id(),
                sprite.spec_size().tiles() as int,
                sprite.bytes(),
                sprite.spec_palette().spec_id(),
                sprite.spec_palette().colour_seq(),
            ).locations is Some,
            borrow is Some ==> {
                let found = old(self)@.acquire_sprite(
                    sprite.spec_id(),
                    sprite.spec_size().tiles() as int,
                    sprite.bytes(),
                    sprite.spec_palette().spec_id(),
                    sprite.spec_palette().colour_seq(),
                ).locations->0;
                &&& borrow->0.wf()
                &&& borrow->0.sprite_id() == sprite.spec_id()
                &&& borrow->0.palette_id() == sprite.spec_palette().spec_id()
                &&& borrow->0.spec_size() == sprite.spec_size()
                &&& borrow->0.tile() == found.0
                &&& borrow->0.bank() == found.1
            },
    {
        let id = sprite.id();
        let palette = sprite.palette();
        let size = sprite.size();
        let data = sprite.data();
        let ghost before = self@;
        let ghost blocks = size.tiles() as int;
        proof {
            before.lemma_acquire_sprite_wf(
                id,
                blocks,
                sprite.bytes(),
                palette.spec_id(),
                palette.colour_seq(),
            );
            before.lemma_acquire_palette_wf(palette.spec_id(), palette.colour_seq());
        }
        match table_get(&self.sprite, id) {
            Some(storage) => {
                if storage.1 == MAX_BORROWS {
                    assert(self.pending() =~= old(self).pending() + Seq::<Store<u16>>::empty());
                    return None;
                }
                let palette_location = match self.palette(palette) {
                    Some(location) => location,
                    None => {
                        assert(self@ =~= before);
                        assert(self.pending() =~= old(self).pending() + Seq::<
                            Store<u16>,
                        >::empty());
                        return None;
                    },
                };
                table_insert(&mut self.sprite, id, (storage.0, storage.1 + 1));
                Some(
                    SpriteBorrow {
                        id,
                        palette_id: palette.id(),
                        size,
                        sprite_location: storage.0,
                        palette_location,
                    },
                )
            },
            None => {
                let bytes = sprite.layout();
                let dest = match self.sprite_allocator.allocate(bytes) {
                    Some(dest) => dest,
                    None => {
                        assert(self.pending() =~= old(self).pending() + Seq::<
                            Store<u16>,
                        >::empty());
                        return None;
                    },
                };
                let ghost block = first_fit(before.tile_memory, blocks);
                let palette_location = match self.palette(palette) {
                    Some(location) => location,
                    None => {
                        self.sprite_allocator.deallocate(dest, bytes);
                        proof {
                            BlockAllocator::lemma_reuse(before.tile_memory, block, blocks);
                            assert(self@ =~= before);
                            assert(self.pending() =~= old(self).pending() + Seq::<
                                Store<u16>,
                            >::empty());
                        }
                        return None;
                    },
                };
                let ghost queued = self.uploads@;
                let ghost all = sprite_copy(dest as int, data@);
                let ghost taken = *self;
                let words = data.len() / 2;
                let mut i: usize = 0;
                while i < words
                    invariant
                        i <= words,
                        words == data@.len() / 2,
                        data@.len() <= 2048,
                        TILE_SPRITE <= dest < TILE_SPRITE + SPRITE_BLOCKS * BLOCK_BYTES,
                        all == sprite_copy(dest as int, data@),
                        self.uploads@ == queued + all.take(i as int),
                        self.palette == taken.palette,
                        self.sprite == taken.sprite,
                        self.sprite_allocator == taken.sprite_allocator,
                        self.palette_allocator == taken.palette_allocator,
                    decreases words - i,
                {
                    let low = data[2 * i] as u16;
                    let high = data[2 * i + 1] as u16;
                    self.uploads.push(Store { address: dest + 2 * i, value: low + 256 * high });
                    proof {
                        assert(all.take(i + 1) =~= all.take(i as int).push(all[i as int]));
                    }
                    i += 1;
                }
                proof {
                    assert(all.take(words as int) =~= all);
                }
                let storage = Storage::from_sprite_ptr(dest);
                table_insert(&mut self.sprite, id, (storage.location, storage.count));
                proof {
                    let outcome = before.acquire_sprite(
                        id,
                        blocks,
                        sprite.bytes(),
                        palette.spec_id(),
                        palette.colour_seq(),
                    );
                    assert(self@ =~= outcome.view);
                    assert(self.pending() =~= old(self).pending() + outcome.uploads);
                }
                Some(
                    SpriteBorrow {
                        id,
                        palette_id: palette.id(),
                        size,
                        sprite_location: storage.location,
                        palette_location,
                    },
                )
            },
        }
    }

    /// Gives back one borrow of a palette.
    fn return_palette(&mut self, id: usize)
        requires
            old(self).wf(),
        ensures
            final(self).wf(),
            final(self)@ == old(self)@.release_palette(id),
            final(self).pending() == old(self).pending(),
    {
        match table_get(&self.palette, id) {
            Some(entry) => {
                let mut storage = Storage { location: entry.0, count: entry.1 };
                storage.count -= 1;
                if storage.count == 0 {
                    self.palette_allocator.deallocate(
                        storage.as_palette_ptr(),
                        Palette16::layout(),
                    );
                    table_remove(&mut self.palette, id);
                } else {
                    table_insert(&mut self.palette, id, (storage.location, storage.count));
                }
                assert(self@ =~= old(self)@.release_palette(id));
            },
            None => {},
        }
    }

    /// Gives back a borrow of a sprite, and with it one of its palette.
    /// With the last borrow the sprite leaves memory.
    pub fn return_sprite(&mut self, borrow: SpriteBorrow)
        requires
            old(self).wf(),
        ensures
            final(self).wf(),
            final(self)@ == old(self)@.release_sprite(
                borrow.sprite_id(),
                borrow.spec_size().tiles() as int,
                borrow.palette_id(),
            ),
            final(self).pending() == old(self).pending(),
    {
        let id = borrow.id;
        let ghost blocks = borrow.size.tiles() as int;
        match table_get(&self.sprite, id) {
            Some(entry) => {
                let mut storage = Storage { location: entry.0, count: entry.1 };
                storage.count -= 1;
                if storage.count == 0 {
                    self.sprite_allocator.deallocate(
                        storage.as_sprite_ptr(),
                        borrow.size.number_of_tiles() * BLOCK_BYTES,
                    );
                    table_remove(&mut self.sprite, id);
                } else {
                    table_insert(&mut self.sprite, id, (storage.location, storage.count));
                }
            },
            None => {},
        }
        proof {
            old(self)@.lemma_release_wf(id, blocks, borrow.palette_id);
        }
        self.return_palette(borrow.palette_id);
        assert(self@ =~= old(self)@.release_sprite(id, blocks, borrow.palette_id()));
    }

    /// Doubles a borrow: the sprite and its palette are each counted once
    /// more. Hands back nothing, and changes nothing, if either is not in
    /// memory or its count is full.
    pub fn clone_borrow(&mut self, borrow: &SpriteBorrow) -> (copy: Option<SpriteBorrow>)
        requires
            old(self).wf(),
        ensures
            final(self).wf(),
            final(self).pending() == old(self).pending(),
            copy is Some == old(self)@.can_duplicate(borrow.sprite_id(), borrow.palette_id()),
            final(self)@ == (if copy is Some {
                old(self)@.duplicate(borrow.sprite_id(), borrow.palette_id())
            } else {
                old(self)@
            }),
            copy is Some ==> {
                &&& copy->0.sprite_id() == borrow.sprite_id()
                &&& copy->0.palette_id() == borrow.palette_id()
                &&& copy->0.spec_size() == borrow.spec_size()
                &&& copy->0.tile() == borrow.tile()
                &&& copy->0.bank() == borrow.bank()
            },
    {
        let sprite = match table_get(&self.sprite, borrow.id) {
            Some(entry) => entry,
            None => {
                return None;
            },
        };
        let palette = match table_get(&self.palette, borrow.palette_id) {
            Some(entry) => entry,
            None => {
                return None;
            },
        };
        if sprite.1 == MAX_BORROWS || palette.1 == MAX_BORROWS {
            return None;
        }
        table_insert(&mut self.sprite, borrow.id, (sprite.0, sprite.1 + 1));
        table_insert(&mut self.palette, borrow.palette_id, (palette.0, palette.1 + 1));
        assert(self@ =~= old(self)@.duplicate(borrow.sprite_id(), borrow.palette_id()));
        Some(
            SpriteBorrow {
                id: borrow.id,
                palette_id: borrow.palette_id,
                size: borrow.size,
                sprite_location: borrow.sprite_location,
                palette_location: borrow.palette_location,
            },
        )
    }

    /// Whether a borrow can be doubled.
    pub fn check_can_duplicate(&self, borrow: &SpriteBorrow) -> (can: bool)
        requires
            self.wf(),
        ensures
            can == self@.can_duplicate(borrow.sprite_id(), borrow.palette_id()),
    {
        let sprite = match table_get(&self.sprite, borrow.id) {
            Some(entry) => entry,
            None => {
                return false;
            },
        };
        let palette = match table_get(&self.palette, borrow.palette_id) {
            Some(entry) => entry,
            None => {
                return false;
            },
        };
        sprite.1 < MAX_BORROWS && palette.1 < MAX_BORROWS
    }

    /// The number of borrows of the sprite with identity `id` that are out,
    /// and its first block; nothing for a sprite that is not in memory.
    pub fn sprite_storage(&self, id: usize) -> (storage: Option<Storage>)
        ensures
            storage is Some == self@.sprites.contains_key(id),
            storage is Some ==> storage->0.location == self@.sprites[id].0 && storage->0.count
                == self@.sprites[id].1,
    {
        match table_get(&self.sprite, id) {
            Some(entry) => Some(Storage { location: entry.0, count: entry.1 }),
            None => None,
        }
    }

    /// The number of borrows of the palette with identity `id` that are
    /// out, and its block; nothing for a palette that is not in memory.
    pub fn palette_storage(&self, id: usize) -> (storage: Option<Storage>)
        ensures
            storage is Some == self@.palettes.contains_key(id),
            storage is Some ==> storage->0.location == self@.palettes[id].0 && storage->0.count
                == self@.palettes[id].1,
    {
        match table_get(&self.palette, id) {
            Some(entry) => Some(Storage { location: entry.0, count: entry.1 }),
            None => None,
        }
    }

    /// Hands over the pending stores into sprite memory, oldest first, and
    /// forgets them.
    pub fn take_uploads(&mut self) -> (stores: Vec<Store<u16>>)
        requires
            old(self).wf(),
        ensures
            final(self).wf(),
            stores@ == old(self).pending(),
            final(self).pending() == Seq::<Store<u16>>::empty(),
            final(self)@ == old(self)@,
    {
        let mut stores = Vec::new();
        std::mem::swap(&mut stores, &mut self.uploads);
        stores
    }
}

} // verus!
