//! The owner of the background tile store: an arena of caller-supplied
//! tilesets behind generation-checked handles, and a reference-counted cache
//! that maps tiles of those sets onto physical slots.

use vstd::prelude::*;
use vstd::pervasive::unreached;
use crate::arena_model::{ArenaEntry, ArenaView, ARENA_SLOTS, generation_after};
use crate::cache_model::{CacheView, TileReference, TileUse, MAX_COUNT, TILE_SLOTS};
use crate::hardware::{Store, PALETTE_BACKGROUND, TILE_BACKGROUND};
use crate::palette16::Palette16;
use crate::table::{PairTable, table_entries, table_get, table_insert, table_new, table_remove};
use crate::tile::{TileIndex, TileSet, TileSetReference};

verus! {

/// What a free physical slot holds when no free slot follows it.
pub const END_OF_FREE_LIST_MARKER: u16 = 0xFFFF;

pub(crate) enum VRamState {
    ReferenceCounted(u16, TileReference),
    Free(u16),
}

impl VRamState {
    pub(crate) open spec fn used(self) -> Option<TileUse> {
        match self {
            VRamState::ReferenceCounted(count, key) => Some(TileUse { key, count: count as int }),
            VRamState::Free(_) => None,
        }
    }

    pub(crate) fn increase_reference(&mut self)
        requires
            *old(self) is ReferenceCounted,
            (*old(self))->ReferenceCounted_0 < MAX_COUNT,
        ensures
            *final(self) == VRamState::ReferenceCounted(
                ((*old(self))->ReferenceCounted_0 + 1) as u16,
                (*old(self))->ReferenceCounted_1,
            ),
    {
        match self {
            VRamState::ReferenceCounted(count, _) => {
                *count += 1;
            },
            VRamState::Free(_) => unreached(),
        }
    }

    pub(crate) fn decrease_reference(&mut self) -> (left: (u16, TileReference))
        requires
            *old(self) is ReferenceCounted,
            (*old(self))->ReferenceCounted_0 >= 1,
        ensures
            left.0 == (*old(self))->ReferenceCounted_0 - 1,
            left.1 == (*old(self))->ReferenceCounted_1,
            *final(self) == VRamState::ReferenceCounted(left.0, left.1),
    {
        match self {
            VRamState::ReferenceCounted(count, tile_ref) => {
                *count -= 1;
                (*count, *tile_ref)
            },
            VRamState::Free(_) => unreached(),
        }
    }
}

pub(crate) enum ArenaStorageItem<T> {
    EndOfFreeList,
    NextFree(usize),
    Data(T, u16),
}

pub(crate) open spec fn arena_entry(item: ArenaStorageItem<TileSet<'_>>) -> Option<ArenaEntry> {
    match item {
        ArenaStorageItem::Data(set, generation) => Some(
            ArenaEntry { generation, words: set.words() },
        ),
        _ => None,
    }
}

/// The free slots of the arena form a chain from `head` in the order of
/// `free`.
pub(crate) open spec fn arena_chain(
    items: Seq<ArenaStorageItem<TileSet<'_>>>,
    free: Seq<int>,
    head: Option<usize>,
) -> bool {
    &&& head == (if free.len() > 0 {
        Some(free[0] as usize)
    } else {
        None
    })
    &&& forall|i: int|
        0 <= i < free.len() ==> 0 <= #[trigger] free[i] < items.len() && items[free[i]] == (if i
            + 1 < free.len() {
            ArenaStorageItem::<TileSet<'_>>::NextFree(free[i + 1] as usize)
        } else {
            ArenaStorageItem::<TileSet<'_>>::EndOfFreeList
        })
}

/// The free physical slots form a chain from `head` in the order of `free`.
pub(crate) open spec fn cache_chain(states: Seq<VRamState>, free: Seq<int>, head: Option<usize>) -> bool {
    &&& head == (if free.len() > 0 {
        Some(free[0] as usize)
    } else {
        None
    })
    &&& forall|i: int|
        0 <= i < free.len() ==> 0 <= #[trigger] free[i] < states.len() && states[free[i]]
            == VRamState::Free(
            if i + 1 < free.len() {
                free[i + 1] as u16
            } else {
                END_OF_FREE_LIST_MARKER
            },
        )
}

/// The key under which the hash table keeps a tile.
pub open spec fn spec_table_key(key: TileReference) -> usize {
    (key.0 * 0x1_0000 + key.1) as usize
}

/// The tile cache's lookup as the hash table holds it.
pub open spec fn lookup_of(entries: Map<usize, (u16, u16)>) -> Map<TileReference, (int, u16)> {
    Map::new(
        |key: TileReference| entries.contains_key(spec_table_key(key)),
        |key: TileReference|
            (entries[spec_table_key(key)].0 as int, entries[spec_table_key(key)].1),
    )
}

/// The tile that `tile` of the tileset behind `handle` is cached under.
pub open spec fn tile_key(handle: TileSetReference, tile: u16) -> TileReference {
    TileReference(handle.slot() as u16, tile)
}

/// The stores that copy tile `tile` of a tileset with the given words into
/// the physical slot `slot`.
pub open spec fn tile_upload(slot: int, words: Seq<u32>, tile: int) -> Seq<Store<u32>> {
    Seq::new(
        8,
        |i: int|
            Store {
                address: (TILE_BACKGROUND + 4 * (slot * 8 + i)) as usize,
                value: words[tile * 8 + i],
            },
    )
}

/// The stores that copy `colours` into the background palette store from its
/// colour `first` on.
pub open spec fn palette_upload(first: int, colours: Seq<u16>) -> Seq<Store<u16>> {
    Seq::new(
        colours.len(),
        |i: int|
            Store { address: (PALETTE_BACKGROUND + 2 * (first + i)) as usize, value: colours[i] },
    )
}

/// The stores that copy whole palettes into the background palette store,
/// bank after bank.
pub open spec fn palettes_upload(palettes: Seq<Palette16>) -> Seq<Store<u16>>
    decreases palettes.len(),
{
    if palettes.len() == 0 {
        Seq::empty()
    } else {
        palettes_upload(palettes.drop_last()) + palette_upload(
            16 * (palettes.len() - 1),
            palettes.last().colour_seq(),
        )
    }
}

/// Whether a request for `tile` of the tileset behind `handle` can be served:
/// either the tile is cached and its count can grow, or a slot is free, the
/// handle is live and the tile lies within the set.
pub open spec fn can_resolve(
    arena: ArenaView,
    cache: CacheView,
    handle: TileSetReference,
    tile: u16,
) -> bool {
    let key = tile_key(handle, tile);
    &&& cache.can_add(key, handle.issued())
    &&& !cache.is_hit(key, handle.issued()) ==> {
        &&& arena.is_live(handle)
        &&& (tile + 1) * 8 <= arena.words(handle).len()
    }
}

/// The stores that a request for the tile adds to the pending ones: none on
/// a hit, the copy of the tile's eight words on a miss.
pub open spec fn resolve_upload(
    arena: ArenaView,
    cache: CacheView,
    handle: TileSetReference,
    tile: u16,
) -> Seq<Store<u32>> {
    let key = tile_key(handle, tile);
    if cache.is_hit(key, handle.issued()) {
        Seq::empty()
    } else {
        tile_upload(cache.next_slot(), arena.words(handle), tile as int)
    }
}

/// A request for a tile that is cached from the generation asked for can
/// be served as soon as its count can grow, whatever has become of the
/// tileset, and copies nothing.
pub proof fn lemma_hit_copies_nothing(
    arena: ArenaView,
    cache: CacheView,
    handle: TileSetReference,
    tile: u16,
)
    requires
        cache.is_hit(tile_key(handle, tile), handle.issued()),
    ensures
        can_resolve(arena, cache, handle, tile) == (cache.count(
            cache.lookup[tile_key(handle, tile)].0,
        ) < MAX_COUNT),
        resolve_upload(arena, cache, handle, tile) == Seq::<Store<u32>>::empty(),
{
}

/// The tileset arena and the tile cache, with the stores that are pending
/// for the background tile store.
pub struct VRamManager<'a> {
    tilesets: Vec<ArenaStorageItem<TileSet<'a>>>,
    generation: u16,
    free_pointer: Option<usize>,
    tile_set_to_vram: PairTable,
    references: Vec<VRamState>,
    vram_free_pointer: Option<usize>,
    uploads: Vec<Store<u32>>,
    free_count: usize,
    arena_free: Ghost<Seq<int>>,
    vram_free: Ghost<Seq<int>>,
}

fn table_key(key: TileReference) -> (k: usize)
    ensures
        k == spec_table_key(key),
{
    key.0 as usize * 0x1_0000 + key.1 as usize
}

proof fn lemma_table_key_injective(a: TileReference, b: TileReference)
    requires
        spec_table_key(a) == spec_table_key(b),
    ensures
        a == b,
{
}

impl<'a> VRamManager<'a> {
    /// The tileset arena.
    pub closed spec fn arena(&self) -> ArenaView {
        ArenaView {
            slots: Seq::new(self.tilesets@.len(), |i: int| arena_entry(self.tilesets@[i])),
            free: self.arena_free@,
            next_generation: self.generation,
        }
    }

    /// The tile cache.
    pub closed spec fn cache(&self) -> CacheView {
        CacheView {
            slots: Seq::new(self.references@.len(), |i: int| self.references@[i].used()),
            lookup: lookup_of(table_entries(self.tile_set_to_vram)),
            free: self.vram_free@,
        }
    }

    /// The stores into the background tile store that were asked for and not
    /// yet taken, oldest first.
    pub closed spec fn pending(&self) -> Seq<Store<u32>> {
        self.uploads@
    }

    /// The arena and the cache are well formed, and the linked free lists
    /// are the ones that the two views show.
    pub closed spec fn wf(&self) -> bool {
        &&& self.arena().wf()
        &&& self.cache().wf()
        &&& arena_chain(self.tilesets@, self.arena_free@, self.free_pointer)
        &&& cache_chain(self.references@, self.vram_free@, self.vram_free_pointer)
        &&& self.free_count == self.vram_free@.len()
    }

    /// Fewer slots are free than there are slots.
    proof fn lemma_free_count(&self)
        requires
            self.wf(),
        ensures
            self.vram_free@.len() < self.references@.len(),
    {
        let list = self.vram_free@;
        let n = self.references@.len() as int;
        let all = vstd::set_lib::set_int_range(1, n);
        vstd::set_lib::lemma_int_range(1, n);
        list.unique_seq_to_set();
        assert(list.to_set().subset_of(all)) by {
            assert forall|x: int| list.to_set().contains(x) implies all.contains(x) by {
                let i = choose|i: int| 0 <= i < list.len() && list[i] == x;
                assert(1 <= list[i] < self.cache().slots.len());
            }
        }
        vstd::set_lib::lemma_len_subset(list.to_set(), all);
    }

    /// A well-formed manager has a well-formed arena and cache.
    pub proof fn lemma_wf_views(&self)
        requires
            self.wf(),
        ensures
            self.arena().wf(),
            self.cache().wf(),
    {
    }

    /// A manager that holds no tileset and has no tile cached. Slot 0 of the
    /// tile store is set aside for the empty tile.
    pub fn new() -> (vram: Self)
        ensures
            vram.wf(),
            vram.arena() == (ArenaView {
                slots: Seq::empty(),
                free: Seq::empty(),
                next_generation: 0,
            }),
            vram.cache() == (CacheView {
                slots: seq![None],
                lookup: Map::empty(),
                free: Seq::empty(),
            }),
            vram.pending() == Seq::<Store<u32>>::empty(),
    {
        let mut references = Vec::new();
        references.push(VRamState::Free(0));
        let vram = Self {
            tilesets: Vec::new(),
            generation: 0,
            free_pointer: None,
            tile_set_to_vram: table_new(),
            references,
            vram_free_pointer: None,
            uploads: Vec::new(),
            free_count: 0,
            arena_free: Ghost(Seq::empty()),
            vram_free: Ghost(Seq::empty()),
        };
        proof {
            assert(vram.arena().slots =~= Seq::empty());
            assert(vram.cache().slots =~= seq![None]);
            assert(vram.cache().lookup =~= Map::empty());
        }
        vram
    }

    /// Whether one more tileset can be stored.
    pub fn has_room(&self) -> (room: bool)
        requires
            self.wf(),
        ensures
            room == self.arena().has_room(),
    {
        self.free_pointer.is_some() || self.tilesets.len() < ARENA_SLOTS
    }

    /// Stores a tileset in the first free slot of the arena, or in a new
    /// slot, under the next generation, and hands back its handle.
    pub fn add_tileset(&mut self, tileset: TileSet<'a>) -> (handle: TileSetReference)
        requires
            old(self).wf(),
            old(self).arena().has_room(),
        ensures
            final(self).wf(),
            final(self).arena() == old(self).arena().add(tileset.words()),
            handle == TileSetReference::of(
                old(self).arena().next_slot() as u16,
                old(self).arena().next_generation,
            ),
            handle.slot() == old(self).arena().next_slot(),
            handle.issued() == old(self).arena().next_generation,
            final(self).arena().is_live(handle),
            final(self).cache() == old(self).cache(),
            final(self).pending() == old(self).pending(),
    {
        proof {
            old(self).arena().lemma_add_wf(tileset.words());
        }
        let generation = self.generation;
        self.generation = self.generation.wrapping_add(1);
        let item = ArenaStorageItem::Data(tileset, generation);
        let free_pointer = self.free_pointer;
        let index = match free_pointer {
            Some(ptr) => {
                assert(ptr == old(self).arena_free@[0]);
                let next = match self.tilesets[ptr] {
                    ArenaStorageItem::NextFree(next_free) => Some(next_free),
                    ArenaStorageItem::EndOfFreeList => None,
                    ArenaStorageItem::Data(_, _) => unreached(),
                };
                self.free_pointer = next;
                self.tilesets.set(ptr, item);
                proof {
                    let free = old(self).arena_free@;
                    self.arena_free = Ghost(free.drop_first());
                    assert forall|i: int| 0 <= i < self.arena_free@.len() implies 0
                        <= #[trigger] self.arena_free@[i] < self.tilesets@.len()
                        && self.tilesets@[self.arena_free@[i]] == (if i + 1
                        < self.arena_free@.len() {
                        ArenaStorageItem::<TileSet<'_>>::NextFree(self.arena_free@[i + 1] as usize)
                    } else {
                        ArenaStorageItem::<TileSet<'_>>::EndOfFreeList
                    }) by {
                        assert(self.arena_free@[i] == free[i + 1]);
                        assert(free[i + 1] != free[0]);
                        if i + 1 < self.arena_free@.len() {
                            assert(self.arena_free@[i + 1] == free[i + 2]);
                        }
                    }
                    if free.len() > 1 {
                        assert(self.arena_free@[0] == free[1]);
                    }
                }
                ptr
            },
            None => {
                self.tilesets.push(item);
                proof {
                    assert forall|i: int| 0 <= i < self.arena_free@.len() implies 0
                        <= #[trigger] self.arena_free@[i] < self.tilesets@.len() by {}
                }
                self.tilesets.len() - 1
            },
        };
        proof {
            assert(self.arena().slots =~= old(self).arena().add(tileset.words()).slots);
            assert(self.cache().slots =~= old(self).cache().slots);
        }
        TileSetReference::new(index as u16, generation)
    }

    /// Whether `handle` is live.
    pub fn is_live(&self, handle: TileSetReference) -> (live: bool)
        requires
            self.wf(),
        ensures
            live == self.arena().is_live(handle),
    {
        let id = handle.id() as usize;
        if id >= self.tilesets.len() {
            return false;
        }
        match &self.tilesets[id] {
            ArenaStorageItem::Data(_, generation) => *generation == handle.generation(),
            _ => false,
        }
    }

    /// Gives up the slot of a live handle; the slot becomes the first to be
    /// reused. Tiles of the set that are cached stay cached.
    pub fn remove_tileset(&mut self, tile_set_ref: TileSetReference)
        requires
            old(self).wf(),
            old(self).arena().is_live(tile_set_ref),
        ensures
            final(self).wf(),
            final(self).arena() == old(self).arena().remove(tile_set_ref),
            !final(self).arena().is_live(tile_set_ref),
            final(self).cache() == old(self).cache(),
            final(self).pending() == old(self).pending(),
    {
        proof {
            old(self).arena().lemma_remove_wf(tile_set_ref);
        }
        let id = tile_set_ref.id() as usize;
        let item = match self.free_pointer {
            Some(ptr) => ArenaStorageItem::NextFree(ptr),
            None => ArenaStorageItem::EndOfFreeList,
        };
        self.tilesets.set(id, item);
        self.free_pointer = Some(id);
        proof {
            let free = old(self).arena_free@;
            assert(!free.contains(id as int));
            self.arena_free = Ghost(seq![id as int] + free);
            assert forall|i: int| 0 <= i < self.arena_free@.len() implies 0
                <= #[trigger] self.arena_free@[i] < self.tilesets@.len()
                && self.tilesets@[self.arena_free@[i]] == (if i + 1 < self.arena_free@.len() {
                ArenaStorageItem::<TileSet<'_>>::NextFree(self.arena_free@[i + 1] as usize)
            } else {
                ArenaStorageItem::<TileSet<'_>>::EndOfFreeList
            }) by {
                if i > 0 {
                    assert(self.arena_free@[i] == free[i - 1]);
                    if i + 1 < self.arena_free@.len() {
                        assert(self.arena_free@[i + 1] == free[i]);
                    }
                } else if free.len() > 0 {
                    assert(self.arena_free@[1] == free[0]);
                }
            }
            assert(self.arena().slots =~= old(self).arena().remove(tile_set_ref).slots);
            assert(self.cache().slots =~= old(self).cache().slots);
        }
    }

    /// Whether `add_tile` can serve a request for the tile.
    pub open spec fn can_add_tile(&self, tile_set_ref: TileSetReference, tile: u16) -> bool {
        can_resolve(self.arena(), self.cache(), tile_set_ref, tile)
    }

    /// The stores that `add_tile` adds to the pending ones for the tile.
    pub open spec fn upload_for(&self, tile_set_ref: TileSetReference, tile: u16) -> Seq<
        Store<u32>,
    > {
        resolve_upload(self.arena(), self.cache(), tile_set_ref, tile)
    }

    /// Whether `add_tile` may be called for the tile.
    pub fn check_can_add_tile(&self, tile_set_ref: TileSetReference, tile: u16) -> (ok: bool)
        requires
            self.wf(),
        ensures
            ok == self.can_add_tile(tile_set_ref, tile),
    {
        let tile_ref = TileReference(tile_set_ref.id(), tile);
        if let Some(reference) = table_get(&self.tile_set_to_vram, table_key(tile_ref)) {
            if reference.1 == tile_set_ref.generation() {
                assert(self.cache().lookup.contains_key(tile_ref));
                return match self.references[reference.0 as usize] {
                    VRamState::ReferenceCounted(count, _) => count < MAX_COUNT,
                    VRamState::Free(_) => false,
                };
            }
        }
        let room = self.vram_free_pointer.is_some() || self.references.len() < TILE_SLOTS;
        if !room || !self.is_live(tile_set_ref) {
            return false;
        }
        match &self.tilesets[tile_set_ref.id() as usize] {
            ArenaStorageItem::Data(data, _) => (tile as usize + 1) * 8 <= data.tiles().len(),
            _ => false,
        }
    }

    /// Resolves a tile of a tileset to a physical slot. A tile that is cached
    /// from the same generation of the set gets one more reference and no
    /// copy is made. Otherwise the first free slot, or a new one, is taken
    /// into use with one reference, and the copy of the tile's words into it
    /// is added to the pending stores.
    pub fn add_tile(&mut self, tile_set_ref: TileSetReference, tile: u16) -> (index: TileIndex)
        requires
            old(self).wf(),
            old(self).can_add_tile(tile_set_ref, tile),
        ensures
            final(self).wf(),
            final(self).arena() == old(self).arena(),
            final(self).cache() == old(self).cache().add(
                tile_key(tile_set_ref, tile),
                tile_set_ref.issued(),
            ),
            index.spec_index() == old(self).cache().slot_for(
                tile_key(tile_set_ref, tile),
                tile_set_ref.issued(),
            ),
            1 <= index.spec_index() < TILE_SLOTS,
            final(self).pending() == old(self).pending() + old(self).upload_for(
                tile_set_ref,
                tile,
            ),
    {
        let tile_ref = TileReference(tile_set_ref.id(), tile);
        let generation = tile_set_ref.generation();
        let ghost before = self.cache();
        proof {
            before.lemma_add_wf(tile_ref, generation);
        }
        if let Some(reference) = table_get(&self.tile_set_to_vram, table_key(tile_ref)) {
            if reference.1 == generation {
                assert(before.lookup.contains_key(tile_ref));
                let slot = reference.0 as usize;
                let state = &mut self.references[slot];
                state.increase_reference();
                proof {
                    assert(self.cache().slots =~= before.add(tile_ref, generation).slots);
                    assert(self.arena().slots =~= old(self).arena().slots);
                    assert(self.pending() =~= old(self).pending() + old(self).upload_for(
                        tile_set_ref,
                        tile,
                    ));
                    assert forall|i: int| 0 <= i < self.vram_free@.len() implies 0
                        <= #[trigger] self.vram_free@[i] < self.references@.len()
                        && self.references@[self.vram_free@[i]] == VRamState::Free(
                        if i + 1 < self.vram_free@.len() {
                            self.vram_free@[i + 1] as u16
                        } else {
                            END_OF_FREE_LIST_MARKER
                        },
                    ) by {
                        assert(before.slots[self.vram_free@[i]] is None);
                    }
                }
                return TileIndex::new(reference.0);
            }
        }
        assert(!before.is_hit(tile_ref, generation));
        let vram_free_pointer = self.vram_free_pointer;
        let index_to_copy_into = match vram_free_pointer {
            Some(ptr) => {
                assert(ptr == self.vram_free@[0]);
                let next = match self.references[ptr] {
                    VRamState::Free(next_free) => {
                        if next_free != END_OF_FREE_LIST_MARKER {
                            Some(next_free as usize)
                        } else {
                            None
                        }
                    },
                    VRamState::ReferenceCounted(_, _) => unreached(),
                };
                self.vram_free_pointer = next;
                self.free_count = self.free_count - 1;
                self.references.set(ptr, VRamState::ReferenceCounted(1, tile_ref));
                proof {
                    let free = old(self).vram_free@;
                    self.vram_free = Ghost(free.drop_first());
                    assert forall|i: int| 0 <= i < self.vram_free@.len() implies 0
                        <= #[trigger] self.vram_free@[i] < self.references@.len()
                        && self.references@[self.vram_free@[i]] == VRamState::Free(
                        if i + 1 < self.vram_free@.len() {
                            self.vram_free@[i + 1] as u16
                        } else {
                            END_OF_FREE_LIST_MARKER
                        },
                    ) by {
                        assert(self.vram_free@[i] == free[i + 1]);
                        assert(free[i + 1] != free[0]);
                        if i + 1 < self.vram_free@.len() {
                            assert(self.vram_free@[i + 1] == free[i + 2]);
                        }
                    }
                    if free.len() > 1 {
                        assert(self.vram_free@[0] == free[1]);
                        assert(1 <= free[1] < TILE_SLOTS);
                    }
                }
                ptr
            },
            None => {
                self.references.push(VRamState::ReferenceCounted(1, tile_ref));
                proof {
                    assert forall|i: int| 0 <= i < self.vram_free@.len() implies 0
                        <= #[trigger] self.vram_free@[i] < self.references@.len() by {}
                }
                self.references.len() - 1
            },
        };
        let words = match &self.tilesets[tile_set_ref.id() as usize] {
            ArenaStorageItem::Data(data, _) => data.tiles(),
            _ => unreached(),
        };
        let tile_offset = tile as usize * 8;
        let ghost queued = self.uploads@;
        let ghost taken = *self;
        let mut i: usize = 0;
        while i < 8
            invariant
                i <= 8,
                1 <= index_to_copy_into < TILE_SLOTS,
                tile_offset == tile * 8,
                tile_offset + 8 <= words@.len(),
                self.uploads@ == queued + tile_upload(
                    index_to_copy_into as int,
                    words@,
                    tile as int,
                ).take(i as int),
                self.tilesets == taken.tilesets,
                self.generation == taken.generation,
                self.free_pointer == taken.free_pointer,
                self.arena_free == taken.arena_free,
                self.references == taken.references,
                self.free_count == taken.free_count,
                self.tile_set_to_vram == taken.tile_set_to_vram,
                self.vram_free_pointer == taken.vram_free_pointer,
                self.vram_free == taken.vram_free,
            decreases 8 - i,
        {
            self.uploads.push(
                Store {
                    address: TILE_BACKGROUND + 4 * (index_to_copy_into * 8 + i),
                    value: words[tile_offset + i],
                },
            );
            proof {
                let all = tile_upload(index_to_copy_into as int, words@, tile as int);
                assert(all.take(i + 1) =~= all.take(i as int).push(all[i as int]));
                assert(self.uploads@ =~= queued + all.take(i + 1));
            }
            i += 1;
        }
        table_insert(
            &mut self.tile_set_to_vram,
            table_key(tile_ref),
            (index_to_copy_into as u16, generation),
        );
        proof {
            let all = tile_upload(index_to_copy_into as int, words@, tile as int);
            assert(all.take(8) =~= all);
            let after = before.add(tile_ref, generation);
            assert(self.cache().slots =~= after.slots);
            assert(self.cache().lookup =~= after.lookup) by {
                assert forall|k: TileReference|
                    self.cache().lookup.contains_key(k) == after.lookup.contains_key(k) && (
                    self.cache().lookup.contains_key(k) ==> self.cache().lookup[k]
                        == after.lookup[k]) by {
                    if spec_table_key(k) == spec_table_key(tile_ref) {
                        lemma_table_key_injective(k, tile_ref);
                    }
                }
            }
            assert(self.arena().slots =~= old(self).arena().slots);
        }
        TileIndex::new(index_to_copy_into as u16)
    }

    /// Whether the physical slot `tile_index` is in use.
    pub fn is_counted(&self, tile_index: TileIndex) -> (counted: bool)
        requires
            self.wf(),
        ensures
            counted == self.cache().is_counted(tile_index.spec_index() as int),
    {
        let index = tile_index.index() as usize;
        if index >= self.references.len() {
            return false;
        }
        match self.references[index] {
            VRamState::ReferenceCounted(_, _) => true,
            VRamState::Free(_) => false,
        }
    }

    /// The slot in which the tile is cached from the generation of its
    /// tileset that the handle names, if it is.
    pub fn cached_slot(&self, tile_set_ref: TileSetReference, tile: u16) -> (slot: Option<TileIndex>)
        requires
            self.wf(),
        ensures
            slot is Some == self.cache().is_hit(
                tile_key(tile_set_ref, tile),
                tile_set_ref.issued(),
            ),
            slot is Some ==> slot->0.spec_index() == self.cache().lookup[tile_key(
                tile_set_ref,
                tile,
            )].0,
    {
        let tile_ref = TileReference(tile_set_ref.id(), tile);
        match table_get(&self.tile_set_to_vram, table_key(tile_ref)) {
            Some(reference) => {
                assert(self.cache().lookup.contains_key(tile_ref));
                if reference.1 == tile_set_ref.generation() {
                    Some(TileIndex::new(reference.0))
                } else {
                    None
                }
            },
            None => None,
        }
    }

    /// The tile that the physical slot `tile_index` shows, if the slot is in
    /// use.
    pub fn slot_tile(&self, tile_index: TileIndex) -> (tile: Option<TileReference>)
        requires
            self.wf(),
        ensures
            tile is Some == self.cache().is_counted(tile_index.spec_index() as int),
            tile is Some ==> tile->0 == self.cache().slots[tile_index.spec_index() as int]->0.key,
    {
        let index = tile_index.index() as usize;
        if index >= self.references.len() {
            return None;
        }
        match self.references[index] {
            VRamState::ReferenceCounted(_, key) => Some(key),
            VRamState::Free(_) => None,
        }
    }

    /// Whether tile `tile` lies within the tileset behind a live handle.
    pub fn tile_in_bounds(&self, tile_set_ref: TileSetReference, tile: u16) -> (within: bool)
        requires
            self.wf(),
            self.arena().is_live(tile_set_ref),
        ensures
            within == ((tile + 1) * 8 <= self.arena().words(tile_set_ref).len()),
    {
        match &self.tilesets[tile_set_ref.id() as usize] {
            ArenaStorageItem::Data(data, _) => (tile as usize + 1) * 8 <= data.tiles().len(),
            _ => false,
        }
    }

    /// The number of references to the physical slot `tile_index`; 0 for a
    /// slot that is not in use.
    pub fn reference_count(&self, tile_index: TileIndex) -> (count: u16)
        requires
            self.wf(),
        ensures
            count == self.cache().count(tile_index.spec_index() as int),
    {
        let index = tile_index.index() as usize;
        if index >= self.references.len() {
            return 0;
        }
        match self.references[index] {
            VRamState::ReferenceCounted(count, _) => count,
            VRamState::Free(_) => 0,
        }
    }

    /// The number of physical slots that can still be taken into use.
    pub fn room(&self) -> (room: usize)
        requires
            self.wf(),
        ensures
            room == self.cache().room(),
    {
        proof {
            self.lemma_free_count();
        }
        TILE_SLOTS - self.references.len() + self.free_count
    }

    /// Whether `n` more requests can be served whatever they ask for.
    pub fn has_headroom(&self, n: usize) -> (enough: bool)
        requires
            self.wf(),
        ensures
            enough == self.cache().headroom(n as int),
    {
        if self.room() < n {
            return false;
        }
        if n > MAX_COUNT as usize {
            assert(self.cache().count(0) + n > MAX_COUNT);
            return false;
        }
        let limit = MAX_COUNT - n as u16;
        let mut i: usize = 0;
        while i < self.references.len()
            invariant
                i <= self.references@.len(),
                self.wf(),
                limit == MAX_COUNT - n,
                forall|slot: int| 0 <= slot < i ==> #[trigger] self.cache().count(slot) <= limit,
            decreases self.references@.len() - i,
        {
            match self.references[i] {
                VRamState::ReferenceCounted(count, _) => {
                    if count > limit {
                        assert(self.cache().count(i as int) + n > MAX_COUNT);
                        return false;
                    }
                },
                VRamState::Free(_) => {},
            }
            i += 1;
        }
        assert forall|slot: int| #[trigger] self.cache().count(slot) + n <= MAX_COUNT by {
            if 0 <= slot < self.references@.len() {
                assert(self.cache().count(slot) <= limit);
            }
        }
        true
    }

    /// Gives up one reference to a physical slot. With the last reference the
    /// slot becomes the first to be reused and the cache forgets its tile.
    pub fn remove_tile(&mut self, tile_index: TileIndex)
        requires
            old(self).wf(),
            old(self).cache().is_counted(tile_index.spec_index() as int),
        ensures
            final(self).wf(),
            final(self).arena() == old(self).arena(),
            final(self).cache() == old(self).cache().release(tile_index.spec_index() as int),
            final(self).pending() == old(self).pending(),
    {
        let index = tile_index.index() as usize;
        let ghost before = self.cache();
        proof {
            before.lemma_release_wf(index as int);
        }
        let state = &mut self.references[index];
        let (new_count, tile_ref) = state.decrease_reference();
        if new_count != 0 {
            proof {
                assert(self.cache().slots =~= before.release(index as int).slots);
                assert(self.arena().slots =~= old(self).arena().slots);
                assert forall|i: int| 0 <= i < self.vram_free@.len() implies 0
                    <= #[trigger] self.vram_free@[i] < self.references@.len()
                    && self.references@[self.vram_free@[i]] == VRamState::Free(
                    if i + 1 < self.vram_free@.len() {
                        self.vram_free@[i + 1] as u16
                    } else {
                        END_OF_FREE_LIST_MARKER
                    },
                ) by {
                    assert(before.slots[self.vram_free@[i]] is None);
                }
            }
            return ;
        }
        let next = match self.vram_free_pointer {
            Some(ptr) => ptr as u16,
            None => END_OF_FREE_LIST_MARKER,
        };
        self.references.set(index, VRamState::Free(next));
        table_remove(&mut self.tile_set_to_vram, table_key(tile_ref));
        self.vram_free_pointer = Some(index);
        proof {
            old(self).lemma_free_count();
        }
        self.free_count = self.free_count + 1;
        proof {
            let free = old(self).vram_free@;
            assert(!free.contains(index as int));
            self.vram_free = Ghost(seq![index as int] + free);
            assert forall|i: int| 0 <= i < self.vram_free@.len() implies 0
                <= #[trigger] self.vram_free@[i] < self.references@.len()
                && self.references@[self.vram_free@[i]] == VRamState::Free(
                if i + 1 < self.vram_free@.len() {
                    self.vram_free@[i + 1] as u16
                } else {
                    END_OF_FREE_LIST_MARKER
                },
            ) by {
                if i > 0 {
                    assert(self.vram_free@[i] == free[i - 1]);
                    if i + 1 < self.vram_free@.len() {
                        assert(self.vram_free@[i + 1] == free[i]);
                    }
                } else if free.len() > 0 {
                    assert(self.vram_free@[1] == free[0]);
                }
            }
            let after = before.release(index as int);
            assert(self.cache().slots =~= after.slots);
            assert(self.cache().lookup =~= after.lookup) by {
                assert forall|k: TileReference|
                    self.cache().lookup.contains_key(k) == after.lookup.contains_key(k) && (
                    self.cache().lookup.contains_key(k) ==> self.cache().lookup[k]
                        == after.lookup[k]) by {
                    if spec_table_key(k) == spec_table_key(tile_ref) {
                        lemma_table_key_injective(k, tile_ref);
                    }
                }
            }
            assert(self.arena().slots =~= old(self).arena().slots);
        }
    }

    /// Hands over the pending stores into the background tile store, oldest
    /// first, and forgets them.
    pub fn take_uploads(&mut self) -> (stores: Vec<Store<u32>>)
        requires
            old(self).wf(),
        ensures
            final(self).wf(),
            stores@ == old(self).pending(),
            final(self).pending() == Seq::<Store<u32>>::empty(),
            final(self).arena() == old(self).arena(),
            final(self).cache() == old(self).cache(),
    {
        let mut stores = Vec::new();
        std::mem::swap(&mut stores, &mut self.uploads);
        proof {
            assert(self.cache().slots =~= old(self).cache().slots);
            assert(self.arena().slots =~= old(self).arena().slots);
        }
        stores
    }

    /// The stores that copy raw colours to the start of the background
    /// palette store, as they are.
    pub fn set_background_palette_raw(&mut self, palette: &[u16]) -> (stores: Vec<Store<u16>>)
        requires
            palette@.len() <= 256,
        ensures
            stores@ == palette_upload(0, palette@),
            *final(self) == *old(self),
    {
        let mut stores = Vec::new();
        let mut index: usize = 0;
        while index < palette.len()
            invariant
                index <= palette@.len() <= 256,
                stores@ == palette_upload(0, palette@).take(index as int),
            decreases palette@.len() - index,
        {
            stores.push(Store { address: PALETTE_BACKGROUND + 2 * index, value: palette[index] });
            proof {
                let all = palette_upload(0, palette@);
                assert(all.take(index + 1) =~= all.take(index as int).push(all[index as int]));
            }
            index += 1;
        }
        proof {
            let all = palette_upload(0, palette@);
            assert(all.take(palette@.len() as int) =~= all);
        }
        stores
    }

    /// Adds to `stores` the ones that copy a palette into bank `pal_index` of
    /// the background palette store.
    fn set_background_palette(
        &mut self,
        stores: &mut Vec<Store<u16>>,
        pal_index: u8,
        palette: &Palette16,
    )
        requires
            pal_index < 16,
        ensures
            final(stores)@ == old(stores)@ + palette_upload(
                16 * pal_index,
                palette.colour_seq(),
            ),
            *final(self) == *old(self),
    {
        let ghost all = palette_upload(16 * pal_index, palette.colour_seq());
        proof {
            palette.lemma_sixteen_colours();
        }
        let mut colour_index: usize = 0;
        while colour_index < 16
            invariant
                colour_index <= 16,
                pal_index < 16,
                palette.colour_seq().len() == 16,
                all == palette_upload(16 * pal_index, palette.colour_seq()),
                stores@ == old(stores)@ + all.take(colour_index as int),
            decreases 16 - colour_index,
        {
            stores.push(
                Store {
                    address: PALETTE_BACKGROUND + 2 * (pal_index as usize * 16 + colour_index),
                    value: palette.colour(colour_index),
                },
            );
            proof {
                assert(all.take(colour_index + 1) =~= all.take(colour_index as int).push(
                    all[colour_index as int],
                ));
            }
            colour_index += 1;
        }
        proof {
            assert(all.take(16) =~= all);
        }
    }

    /// The stores that copy whole palettes into the background palette
    /// store, the first palette into bank 0.
    pub fn set_background_palettes(&mut self, palettes: &[Palette16]) -> (stores: Vec<
        Store<u16>,
    >)
        requires
            palettes@.len() <= 16,
        ensures
            stores@ == palettes_upload(palettes@),
            *final(self) == *old(self),
    {
        let mut stores = Vec::new();
        let mut palette_index: usize = 0;
        while palette_index < palettes.len()
            invariant
                palette_index <= palettes@.len() <= 16,
                stores@ == palettes_upload(palettes@.take(palette_index as int)),
                *self == *old(self),
            decreases palettes@.len() - palette_index,
        {
            self.set_background_palette(&mut stores, palette_index as u8, &palettes[palette_index]);
            proof {
                let next = palettes@.take(palette_index + 1);
                assert(next.drop_last() =~= palettes@.take(palette_index as int));
                assert(next.last() == palettes@[palette_index as int]);
            }
            palette_index += 1;
        }
        proof {
            assert(palettes@.take(palettes@.len() as int) =~= palettes@);
        }
        stores
    }
}

} // verus!
