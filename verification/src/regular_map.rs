//! One background layer: a wrapping grid of 32 by 32 cells, each naming a
//! physical tile slot, of which only the part under the screen is ever sent
//! to the hardware.

use vstd::prelude::*;
use crate::cache_model::{CacheView, TileReference, MAX_COUNT, TILE_SLOTS};
use crate::geometry::{Vector2D, ceil_div, div_ceil, lemma_ceil_div_bounds, wrap};
use crate::hardware::{Priority, Store, HEIGHT, WIDTH};
use crate::tile::{Tile, TileIndex, TileSetReference, TileSetting, flag_bits, index_bits};
use crate::arena_model::ArenaView;
use crate::vram::{VRamManager, can_resolve, resolve_upload, tile_key};

verus! {

/// Number of cells of a background grid.
pub const GRID_CELLS: usize = 1024;

/// The cell at a grid position, row after row.
pub open spec fn cell_index(pos: Vector2D<u16>) -> int {
    pos.x + pos.y * 32
}

/// 1 if the packed cell value `raw` is not empty and names `slot`, else 0.
pub open spec fn names(raw: u16, slot: int) -> nat {
    if raw != 0 && index_bits(raw) == slot {
        1
    } else {
        0
    }
}

/// The number of cells from `from` on that name `slot`.
pub open spec fn uses_from(cells: Seq<u16>, slot: int, from: int) -> nat
    decreases cells.len() - from,
{
    if from < 0 || from >= cells.len() {
        0
    } else {
        names(cells[from], slot) + uses_from(cells, slot, from + 1)
    }
}

/// The number of cells that name `slot`.
pub open spec fn uses(cells: Seq<u16>, slot: int) -> nat {
    uses_from(cells, slot, 0)
}

/// Every slot is counted at least as often as the cells name it, with
/// `others(slot)` references to spare for whoever else holds some.
pub open spec fn accounted(cells: Seq<u16>, cache: CacheView, others: spec_fn(int) -> nat) -> bool {
    forall|slot: int| #[trigger] uses(cells, slot) + others(slot) <= cache.count(slot)
}

/// Every slot is counted at least as often as the cells name it.
pub open spec fn backed_by(cells: Seq<u16>, cache: CacheView) -> bool {
    accounted(cells, cache, |slot: int| 0nat)
}

/// The cache after a cell that held `raw` lets go of its slot.
pub open spec fn cache_after_clearing(cache: CacheView, raw: u16) -> CacheView {
    if raw == 0 {
        cache
    } else {
        cache.release(index_bits(raw) as int)
    }
}

/// The cache after a cell that held `raw` is set to show what `setting`
/// asks for of the tileset behind `handle`.
pub open spec fn cache_after_setting(
    cache: CacheView,
    raw: u16,
    handle: TileSetReference,
    setting: TileSetting,
) -> CacheView {
    let cleared = cache_after_clearing(cache, raw);
    let tile = index_bits(setting.raw());
    if tile == 0 {
        cleared
    } else {
        cleared.add(tile_key(handle, tile), handle.issued())
    }
}

/// The packed value of a cell that held `raw` once it is set to show what
/// `setting` asks for of the tileset behind `handle`: empty for tile 0, else
/// the slot that the tile resolves to, with the setting's flips and palette
/// bank.
pub open spec fn cell_after_setting(
    cache: CacheView,
    raw: u16,
    handle: TileSetReference,
    setting: TileSetting,
) -> u16 {
    let cleared = cache_after_clearing(cache, raw);
    let tile = index_bits(setting.raw());
    if tile == 0 {
        0
    } else {
        Tile::packed(
            cleared.slot_for(tile_key(handle, tile), handle.issued()) as u16,
            flag_bits(setting.raw()),
        )
    }
}

/// What setting cells changes: the cells of a grid and its dirty flag, the
/// tile cache, and the stores that are pending for the tile store.
#[verifier::ext_equal]
pub struct GridState {
    pub cells: Seq<u16>,
    pub dirty: bool,
    pub cache: CacheView,
    pub pending: Seq<Store<u32>>,
}

/// The state after cell `cell` is set to show what `setting` asks for of the
/// tileset behind `handle`: the cell lets go of its slot and takes the one
/// that the tile resolves to, a tile that was not cached is to be copied,
/// and the grid is dirty if the cell's value changed.
pub open spec fn set_cell(
    state: GridState,
    arena: ArenaView,
    cell: int,
    handle: TileSetReference,
    setting: TileSetting,
) -> GridState {
    let raw = state.cells[cell];
    let fresh = cell_after_setting(state.cache, raw, handle, setting);
    let tile = index_bits(setting.raw());
    GridState {
        cells: state.cells.update(cell, fresh),
        dirty: state.dirty || fresh != raw,
        cache: cache_after_setting(state.cache, raw, handle, setting),
        pending: if tile == 0 {
            state.pending
        } else {
            state.pending + resolve_upload(
                arena,
                cache_after_clearing(state.cache, raw),
                handle,
                tile,
            )
        },
    }
}

/// Whether a cell that holds `raw` can be set to show what `setting` asks
/// for: the slot it lets go of is in use, and the tile asked for can be
/// resolved once that slot is let go.
pub open spec fn can_set_cell(
    vram: &VRamManager<'_>,
    raw: u16,
    handle: TileSetReference,
    setting: TileSetting,
) -> bool {
    let tile = index_bits(setting.raw());
    &&& raw != 0 ==> vram.cache().is_counted(index_bits(raw) as int)
    &&& tile != 0 ==> can_resolve(
        vram.arena(),
        cache_after_clearing(vram.cache(), raw),
        handle,
        tile,
    )
}

/// Whether cell `cell` can be set, in `state`, to show what `setting` asks
/// for of the tileset behind `handle`: the cell exists, the slot it lets go
/// of is in use, and the tile asked for can be resolved once that slot is
/// let go.
pub open spec fn can_set_state(
    state: GridState,
    arena: ArenaView,
    cell: int,
    handle: TileSetReference,
    setting: TileSetting,
) -> bool {
    let raw = state.cells[cell];
    let tile = index_bits(setting.raw());
    &&& 0 <= cell < state.cells.len()
    &&& raw != 0 ==> state.cache.is_counted(index_bits(raw) as int)
    &&& tile != 0 ==> can_resolve(arena, cache_after_clearing(state.cache, raw), handle, tile)
}

/// No cell names a slot that a cell cannot name.
pub proof fn lemma_unnamed_slot_unused(cells: Seq<u16>, slot: int, from: int)
    requires
        slot < 0 || slot >= TILE_SLOTS,
    ensures
        uses_from(cells, slot, from) == 0,
    decreases cells.len() - from,
{
    if 0 <= from < cells.len() {
        lemma_unnamed_slot_unused(cells, slot, from + 1);
    }
}

/// No more cells name a slot than there are cells.
pub proof fn lemma_uses_bounded(cells: Seq<u16>, slot: int, from: int)
    requires
        0 <= from <= cells.len(),
    ensures
        uses_from(cells, slot, from) <= cells.len() - from,
    decreases cells.len() - from,
{
    if from < cells.len() {
        lemma_uses_bounded(cells, slot, from + 1);
    }
}

/// No cell of an empty grid names any slot.
pub proof fn lemma_empty_grid_unused(cells: Seq<u16>, slot: int, from: int)
    requires
        forall|i: int| 0 <= i < cells.len() ==> cells[i] == 0,
    ensures
        uses_from(cells, slot, from) == 0,
    decreases cells.len() - from,
{
    if 0 <= from < cells.len() {
        lemma_empty_grid_unused(cells, slot, from + 1);
    }
}

/// An empty grid is backed by any cache.
pub proof fn lemma_empty_grid_backed(cache: CacheView)
    requires
        cache.wf(),
    ensures
        backed_by(Seq::new(1024, |i: int| 0u16), cache),
{
    let cells = Seq::new(1024, |i: int| 0u16);
    assert forall|slot: int| #[trigger] uses(cells, slot) + 0 <= cache.count(slot) by {
        lemma_empty_grid_unused(cells, slot, 0);
    }
}

/// Replacing one cell changes the number of cells that name a slot by what
/// the old and the new value name.
pub proof fn lemma_uses_update(cells: Seq<u16>, slot: int, cell: int, raw: u16, from: int)
    requires
        0 <= cell < cells.len(),
        0 <= from <= cells.len(),
    ensures
        uses_from(cells.update(cell, raw), slot, from) == uses_from(cells, slot, from) + (if cell
            >= from {
            names(raw, slot) - names(cells[cell], slot)
        } else {
            0
        }),
    decreases cells.len() - from,
{
    if from < cells.len() {
        lemma_uses_update(cells, slot, cell, raw, from + 1);
    }
}

/// A cell that names a slot is counted among the uses of that slot.
pub proof fn lemma_named_is_used(cells: Seq<u16>, cell: int, from: int)
    requires
        0 <= from <= cell < cells.len(),
        cells[cell] != 0,
    ensures
        uses_from(cells, index_bits(cells[cell]) as int, from) >= 1,
    decreases cell - from,
{
    if from < cell {
        lemma_named_is_used(cells, cell, from + 1);
    }
}

/// A cell of an accounted grid can always let go of its slot, and the grid
/// without that cell's reference is accounted in the cache without it.
pub proof fn lemma_clear_cell_accounted(
    cells: Seq<u16>,
    cache: CacheView,
    cell: int,
    others: spec_fn(int) -> nat,
)
    requires
        cache.wf(),
        0 <= cell < cells.len(),
        accounted(cells, cache, others),
    ensures
        cells[cell] != 0 ==> cache.is_counted(index_bits(cells[cell]) as int),
        cache_after_clearing(cache, cells[cell]).wf(),
        accounted(cells.update(cell, 0), cache_after_clearing(cache, cells[cell]), others),
        forall|n: int| cache.headroom(n) ==> cache_after_clearing(cache, cells[cell]).headroom(n),
{
    let raw = cells[cell];
    let after = cache_after_clearing(cache, raw);
    let cleared = cells.update(cell, 0);
    if raw != 0 {
        let slot = index_bits(raw) as int;
        lemma_named_is_used(cells, cell, 0);
        assert(uses(cells, slot) + others(slot) <= cache.count(slot));
        cache.lemma_release_wf(slot);
        assert forall|n: int| cache.headroom(n) implies after.headroom(n) by {
            cache.lemma_release_headroom(slot, n);
        }
    }
    assert forall|slot: int| #[trigger] uses(cleared, slot) + others(slot) <= after.count(slot) by {
        lemma_uses_update(cells, slot, cell, 0, 0);
        assert(uses(cells, slot) + others(slot) <= cache.count(slot));
    }
}

/// Setting a cell of an accounted grid keeps the accounts: the cell can let
/// go of its slot, and afterwards every slot is still counted at least as
/// often as the grid names it, with the same references to spare.
pub proof fn lemma_set_cell_accounted(
    cells: Seq<u16>,
    cache: CacheView,
    cell: int,
    handle: TileSetReference,
    setting: TileSetting,
    others: spec_fn(int) -> nat,
)
    requires
        cache.wf(),
        0 <= cell < cells.len(),
        accounted(cells, cache, others),
        index_bits(setting.raw()) != 0 ==> cache_after_clearing(cache, cells[cell]).can_add(
            tile_key(handle, index_bits(setting.raw())),
            handle.issued(),
        ),
    ensures
        cells[cell] != 0 ==> cache.is_counted(index_bits(cells[cell]) as int),
        cache_after_setting(cache, cells[cell], handle, setting).wf(),
        accounted(
            cells.update(cell, cell_after_setting(cache, cells[cell], handle, setting)),
            cache_after_setting(cache, cells[cell], handle, setting),
            others,
        ),
{
    let raw = cells[cell];
    let mid = cache_after_clearing(cache, raw);
    let cleared = cells.update(cell, 0);
    lemma_clear_cell_accounted(cells, cache, cell, others);
    let tile = index_bits(setting.raw());
    let fresh = cell_after_setting(cache, raw, handle, setting);
    let after = cache_after_setting(cache, raw, handle, setting);
    assert(cells.update(cell, fresh) =~= cleared.update(cell, fresh));
    if tile != 0 {
        let key = tile_key(handle, tile);
        let slot = mid.slot_for(key, handle.issued());
        mid.lemma_add_wf(key, handle.issued());
        let flags = flag_bits(setting.raw());
        assert(flags % 1024 == 0 && flags <= 64512);
        assert(fresh == slot + flags);
        assert(index_bits(fresh) == slot && fresh != 0);
        assert forall|s: int| #[trigger]
            uses(cleared.update(cell, fresh), s) + others(s) <= after.count(s) by {
            lemma_uses_update(cleared, s, cell, fresh, 0);
            assert(uses(cleared, s) + others(s) <= mid.count(s));
        }
    } else {
        assert(cleared.update(cell, fresh) =~= cleared);
    }
}

/// Whether a cell that holds `raw` shows what `setting` asks for of the
/// tileset behind `handle`: nothing for tile 0, else a slot in use for that
/// tile, under the setting's flips and palette bank.
pub open spec fn shows(
    cache: CacheView,
    raw: u16,
    handle: TileSetReference,
    setting: TileSetting,
) -> bool {
    let tile = index_bits(setting.raw());
    if tile == 0 {
        raw == 0
    } else {
        &&& raw != 0
        &&& flag_bits(raw) == flag_bits(setting.raw())
        &&& cache.is_counted(index_bits(raw) as int)
        &&& cache.slots[index_bits(raw) as int]->0.key == tile_key(handle, tile)
    }
}

/// Two cells that name the same slot make two uses of it.
pub proof fn lemma_two_named(cells: Seq<u16>, first: int, second: int)
    requires
        0 <= first < cells.len(),
        0 <= second < cells.len(),
        first != second,
        cells[first] != 0,
        cells[second] != 0,
        index_bits(cells[first]) == index_bits(cells[second]),
    ensures
        uses(cells, index_bits(cells[first]) as int) >= 2,
{
    let slot = index_bits(cells[first]) as int;
    let without = cells.update(first, 0);
    lemma_uses_update(cells, slot, first, 0, 0);
    lemma_named_is_used(without, second, 0);
}

/// A cell that was just set shows what was asked for.
pub proof fn lemma_set_cell_shows(
    cells: Seq<u16>,
    cache: CacheView,
    cell: int,
    handle: TileSetReference,
    setting: TileSetting,
)
    requires
        cache.wf(),
        0 <= cell < cells.len(),
        backed_by(cells, cache),
        index_bits(setting.raw()) != 0 ==> cache_after_clearing(cache, cells[cell]).can_add(
            tile_key(handle, index_bits(setting.raw())),
            handle.issued(),
        ),
    ensures
        shows(
            cache_after_setting(cache, cells[cell], handle, setting),
            cell_after_setting(cache, cells[cell], handle, setting),
            handle,
            setting,
        ),
{
    let raw = cells[cell];
    let mid = cache_after_clearing(cache, raw);
    let others = |slot: int| 0nat;
    lemma_clear_cell_accounted(cells, cache, cell, others);
    let tile = index_bits(setting.raw());
    if tile != 0 {
        let key = tile_key(handle, tile);
        let slot = mid.slot_for(key, handle.issued());
        mid.lemma_add_wf(key, handle.issued());
        let flags = flag_bits(setting.raw());
        let fresh = cell_after_setting(cache, raw, handle, setting);
        assert(flags % 1024 == 0 && flags <= 64512);
        assert(fresh == slot + flags);
        assert(index_bits(fresh) == slot && fresh != 0);
        assert(flag_bits(fresh) == flags);
    }
}

/// Setting one cell of a backed grid leaves every other cell showing what
/// it showed.
pub proof fn lemma_set_cell_keeps_showing(
    cells: Seq<u16>,
    cache: CacheView,
    cell: int,
    handle: TileSetReference,
    setting: TileSetting,
    other: int,
    other_handle: TileSetReference,
    other_setting: TileSetting,
)
    requires
        cache.wf(),
        0 <= cell < cells.len(),
        0 <= other < cells.len(),
        other != cell,
        backed_by(cells, cache),
        index_bits(setting.raw()) != 0 ==> cache_after_clearing(cache, cells[cell]).can_add(
            tile_key(handle, index_bits(setting.raw())),
            handle.issued(),
        ),
        shows(cache, cells[other], other_handle, other_setting),
    ensures
        shows(
            cache_after_setting(cache, cells[cell], handle, setting),
            cells[other],
            other_handle,
            other_setting,
        ),
{
    let raw = cells[cell];
    let kept = cells[other];
    let mid = cache_after_clearing(cache, raw);
    let others = |slot: int| 0nat;
    lemma_clear_cell_accounted(cells, cache, cell, others);
    if index_bits(other_setting.raw()) != 0 {
        let slot = index_bits(kept) as int;
        if raw != 0 && index_bits(raw) == slot {
            lemma_two_named(cells, cell, other);
            assert(uses(cells, slot) + others(slot) <= cache.count(slot));
        }
        assert(shows(mid, kept, other_handle, other_setting));
        let tile = index_bits(setting.raw());
        if tile != 0 {
            mid.lemma_add_wf(tile_key(handle, tile), handle.issued());
        }
    }
}

/// The cache after the cells from `from` on let go of their slots, one after
/// the other.
pub open spec fn cache_after_clearing_from(cells: Seq<u16>, cache: CacheView, from: int) -> CacheView
    decreases cells.len() - from,
{
    if from < 0 || from >= cells.len() {
        cache
    } else {
        cache_after_clearing_from(cells, cache_after_clearing(cache, cells[from]), from + 1)
    }
}

/// Whether the cells from `from` on can let go of their slots, one after
/// the other: each finds its slot in use when its turn comes.
pub open spec fn can_clear_from(cells: Seq<u16>, cache: CacheView, from: int) -> bool
    decreases cells.len() - from,
{
    if from < 0 || from >= cells.len() {
        true
    } else {
        &&& cells[from] != 0 ==> cache.is_counted(index_bits(cells[from]) as int)
        &&& can_clear_from(cells, cache_after_clearing(cache, cells[from]), from + 1)
    }
}

/// The cells of an accounted grid can all let go of their slots, and what
/// the others hold is still counted afterwards.
pub proof fn lemma_clear_accounted(
    cells: Seq<u16>,
    cache: CacheView,
    from: int,
    others: spec_fn(int) -> nat,
)
    requires
        cache.wf(),
        0 <= from <= cells.len(),
        forall|slot: int| #[trigger] uses_from(cells, slot, from) + others(slot) <= cache.count(slot),
    ensures
        can_clear_from(cells, cache, from),
        cache_after_clearing_from(cells, cache, from).wf(),
        forall|slot: int|
            others(slot) <= #[trigger] cache_after_clearing_from(cells, cache, from).count(slot),
    decreases cells.len() - from,
{
    if from < cells.len() {
        let raw = cells[from];
        let next = cache_after_clearing(cache, raw);
        if raw != 0 {
            let slot = index_bits(raw) as int;
            assert(uses_from(cells, slot, from) + others(slot) <= cache.count(slot));
            cache.lemma_release_wf(slot);
        }
        assert forall|slot: int| #[trigger]
            uses_from(cells, slot, from + 1) + others(slot) <= next.count(slot) by {
            assert(uses_from(cells, slot, from) + others(slot) <= cache.count(slot));
        }
        lemma_clear_accounted(cells, next, from + 1, others);
    } else {
        assert forall|slot: int| others(slot) <= #[trigger] cache.count(slot) by {
            assert(uses_from(cells, slot, from) + others(slot) <= cache.count(slot));
        }
    }
}

/// A line `d` lines after `start` wraps to a line that is `d` lines after
/// `start` on the wrapping grid.
proof fn lemma_wrapped_line(start: int, d: int)
    requires
        0 <= d < 32,
    ensures
        wrap((start + d) % 32 - start, 32) == d,
{
}

/// A cell index splits into its row and its column.
proof fn lemma_cell_split(row: int, column: int)
    requires
        0 <= row < 32,
        0 <= column < 32,
    ensures
        (row * 32 + column) % 32 == column,
        (row * 32 + column) / 32 == row,
{
}

/// The first grid line, in tiles, under a screen scrolled to `scroll`.
pub open spec fn window_start(scroll: u16) -> int {
    scroll as int / 8
}

/// One past the last grid line sent to the hardware for a screen of
/// `extent` pixels scrolled to `scroll`: the lines under the screen and one
/// more.
pub open spec fn window_end(scroll: u16, extent: int) -> int {
    ceil_div(scroll + extent, 8) + 1
}

/// Whether grid line `line` of 32 lies in the window of a screen of
/// `extent` pixels scrolled to `scroll`.
pub open spec fn line_in_window(scroll: u16, extent: int, line: int) -> bool {
    wrap(line - window_start(scroll), 32) < window_end(scroll, extent) - window_start(scroll)
}

/// One background layer: its registers and its grid of 32 by 32 cells.
pub struct RegularMap {
    background_id: u8,
    screenblock: u8,
    x_scroll: u16,
    y_scroll: u16,
    priority: Priority,
    tiles: [Tile; 1024],
    tiles_dirty: bool,
}

impl RegularMap {
    /// The packed values of the 1024 cells, row after row.
    pub closed spec fn cells(&self) -> Seq<u16> {
        Seq::new(1024, |i: int| self.tiles@[i].raw())
    }

    /// Whether the cells have changed since they were last sent.
    pub closed spec fn is_dirty(&self) -> bool {
        self.tiles_dirty
    }

    /// The hardware layer, 0 to 3.
    pub closed spec fn layer(&self) -> u8 {
        self.background_id
    }

    /// The hardware screenblock that holds the layer's cells.
    pub closed spec fn block(&self) -> u8 {
        self.screenblock
    }

    /// The horizontal scroll position in pixels.
    pub closed spec fn scroll_x(&self) -> u16 {
        self.x_scroll
    }

    /// The vertical scroll position in pixels.
    pub closed spec fn scroll_y(&self) -> u16 {
        self.y_scroll
    }

    /// The drawing priority of the layer.
    pub closed spec fn drawn_at(&self) -> Priority {
        self.priority
    }

    /// The part of the map and of the tile store that setting cells changes.
    pub open spec fn state(&self, vram: &VRamManager<'_>) -> GridState {
        GridState {
            cells: self.cells(),
            dirty: self.is_dirty(),
            cache: vram.cache(),
            pending: vram.pending(),
        }
    }

    /// Whether two maps differ at most in their cells and dirty flag.
    pub open spec fn same_registers(&self, other: &RegularMap) -> bool {
        &&& self.layer() == other.layer()
        &&& self.block() == other.block()
        &&& self.scroll_x() == other.scroll_x()
        &&& self.scroll_y() == other.scroll_y()
        &&& self.drawn_at() == other.drawn_at()
    }

    /// The map drives one of the four layers of the hardware.
    pub open spec fn wf(&self) -> bool {
        self.layer() < 4
    }

    /// A map has 1024 cells.
    pub proof fn lemma_cells_len(&self)
        ensures
            self.cells().len() == GRID_CELLS,
    {
    }

    pub(crate) fn new(background_id: u8, screenblock: u8, priority: Priority) -> (map: Self)
        requires
            background_id < 4,
        ensures
            map.wf(),
            map.layer() == background_id,
            map.block() == screenblock,
            map.drawn_at() == priority,
            map.scroll_x() == 0,
            map.scroll_y() == 0,
            map.is_dirty(),
            map.cells() == Seq::new(1024, |i: int| 0u16),
    {
        let map = Self {
            background_id,
            screenblock,
            x_scroll: 0,
            y_scroll: 0,
            priority,
            tiles: [Tile::empty();1024],
            tiles_dirty: true,
        };
        assert(map.cells() =~= Seq::new(1024, |i: int| 0u16));
        map
    }

    /// The packed value of the cell at `pos`.
    pub fn tile_at(&self, pos: Vector2D<u16>) -> (raw: u16)
        requires
            cell_index(pos) < GRID_CELLS,
        ensures
            raw == self.cells()[cell_index(pos)],
    {
        self.tiles[(pos.x + pos.y * 32) as usize].value()
    }

    /// Whether the cells have changed since they were last sent.
    pub fn dirty(&self) -> (dirty: bool)
        ensures
            dirty == self.is_dirty(),
    {
        self.tiles_dirty
    }

    /// Whether every slot is counted at least as often as the cells of the
    /// map name it.
    pub fn is_backed_by(&self, vram: &VRamManager<'_>) -> (backed: bool)
        requires
            vram.wf(),
        ensures
            backed == backed_by(self.cells(), vram.cache()),
    {
        let ghost cells = self.cells();
        let mut named: Vec<u16> = Vec::new();
        let mut slot: usize = 0;
        while slot < TILE_SLOTS
            invariant
                slot <= TILE_SLOTS,
                named@.len() == slot,
                forall|s: int| 0 <= s < slot ==> named@[s] == 0,
            decreases TILE_SLOTS - slot,
        {
            named.push(0);
            slot += 1;
        }
        let mut i: usize = GRID_CELLS;
        while i > 0
            invariant
                i <= GRID_CELLS,
                cells == self.cells(),
                cells.len() == GRID_CELLS,
                named@.len() == TILE_SLOTS,
                forall|s: int| 0 <= s < TILE_SLOTS ==> named@[s] == uses_from(cells, s, i as int),
            decreases i,
        {
            i -= 1;
            let tile = self.tiles[i];
            assert(tile.raw() == cells[i as int]);
            if tile.value() != 0 {
                let index = tile.tile_index().index() as usize;
                proof {
                    lemma_uses_bounded(cells, index as int, i + 1);
                }
                let count = named[index];
                named.set(index, count + 1);
            }
        }
        proof {
            vram.lemma_wf_views();
        }
        let mut slot: usize = 0;
        while slot < TILE_SLOTS
            invariant
                slot <= TILE_SLOTS,
                vram.wf(),
                vram.cache().wf(),
                cells == self.cells(),
                named@.len() == TILE_SLOTS,
                forall|s: int| 0 <= s < TILE_SLOTS ==> named@[s] == uses(cells, s),
                forall|s: int| 0 <= s < slot ==> uses(cells, s) <= vram.cache().count(s),
            decreases TILE_SLOTS - slot,
        {
            if named[slot] > vram.reference_count(TileIndex::new(slot as u16)) {
                assert(uses(cells, slot as int) + 0 > vram.cache().count(slot as int));
                return false;
            }
            slot += 1;
        }
        proof {
            assert forall|s: int| #[trigger] uses(cells, s) + 0 <= vram.cache().count(s) by {
                if 0 <= s < TILE_SLOTS {
                } else {
                    lemma_unnamed_slot_unused(cells, s, 0);
                }
            }
        }
        true
    }

    /// Whether `set_tile` may be called with these arguments.
    pub fn can_set_tile(
        &self,
        vram: &VRamManager<'_>,
        pos: Vector2D<u16>,
        tileset_ref: TileSetReference,
        tile_setting: TileSetting,
    ) -> (can: bool)
        requires
            vram.wf(),
        ensures
            can == (cell_index(pos) < GRID_CELLS && can_set_cell(
                vram,
                self.cells()[cell_index(pos)],
                tileset_ref,
                tile_setting,
            )),
    {
        if pos.x as usize + pos.y as usize * 32 >= GRID_CELLS {
            return false;
        }
        proof {
            vram.lemma_wf_views();
        }
        let old_tile = self.tiles[pos.x as usize + pos.y as usize * 32];
        let held = old_tile.value() != 0;
        let old_index = old_tile.tile_index();
        if held && !vram.is_counted(old_index) {
            return false;
        }
        let tile = tile_setting.index();
        if tile == 0 {
            return true;
        }
        let key = TileReference(tileset_ref.id(), tile);
        let freed = held && vram.reference_count(old_index) == 1;
        let forgotten = freed && match vram.slot_tile(old_index) {
            Some(shown) => shown == key,
            None => false,
        };
        let hit = vram.cached_slot(tileset_ref, tile);
        match hit {
            Some(slot) => {
                if !forgotten {
                    let shared = held && old_index.index() == slot.index();
                    let count = vram.reference_count(slot);
                    return if shared {
                        count - 1 < MAX_COUNT
                    } else {
                        count < MAX_COUNT
                    };
                }
            },
            None => {},
        }
        let room = if freed {
            true
        } else {
            vram.room() >= 1
        };
        room && vram.is_live(tileset_ref) && vram.tile_in_bounds(tileset_ref, tile)
    }

    /// Sets the cell at `pos` to show what `tile_setting` asks for of the
    /// tileset behind `tileset_ref`. The cell first lets go of the slot it
    /// named; tile 0 then leaves it empty, any other tile is resolved
    /// through the cache. The map is marked dirty only if the cell's value
    /// changed.
    pub fn set_tile(
        &mut self,
        vram: &mut VRamManager<'_>,
        pos: Vector2D<u16>,
        tileset_ref: TileSetReference,
        tile_setting: TileSetting,
    )
        requires
            cell_index(pos) < GRID_CELLS,
            old(vram).wf(),
            can_set_cell(
                old(vram),
                old(self).cells()[cell_index(pos)],
                tileset_ref,
                tile_setting,
            ),
        ensures
            final(vram).wf(),
            final(vram).arena() == old(vram).arena(),
            final(vram).cache() == cache_after_setting(
                old(vram).cache(),
                old(self).cells()[cell_index(pos)],
                tileset_ref,
                tile_setting,
            ),
            final(vram).pending() == old(vram).pending() + (if index_bits(tile_setting.raw())
                == 0 {
                Seq::empty()
            } else {
                resolve_upload(
                    old(vram).arena(),
                    cache_after_clearing(old(vram).cache(), old(self).cells()[cell_index(pos)]),
                    tileset_ref,
                    index_bits(tile_setting.raw()),
                )
            }),
            final(self).cells() == old(self).cells().update(
                cell_index(pos),
                cell_after_setting(
                    old(vram).cache(),
                    old(self).cells()[cell_index(pos)],
                    tileset_ref,
                    tile_setting,
                ),
            ),
            final(self).is_dirty() == (old(self).is_dirty() || final(self).cells()[cell_index(
                pos,
            )] != old(self).cells()[cell_index(pos)]),
            final(self).same_registers(old(self)),
            (index_bits(tile_setting.raw()) == 0) == (final(self).cells()[cell_index(pos)] == 0),
            final(self).state(final(vram)) == set_cell(
                old(self).state(old(vram)),
                old(vram).arena(),
                cell_index(pos),
                tileset_ref,
                tile_setting,
            ),
    {
        let pos = (pos.x + pos.y * 32) as usize;
        let old_tile = self.tiles[pos];
        if old_tile.value() != 0 {
            vram.remove_tile(old_tile.tile_index());
        }
        let tile_index = tile_setting.index();
        let new_tile = if tile_index != 0 {
            let new_tile_idx = vram.add_tile(tileset_ref, tile_index);
            Tile::new(new_tile_idx, tile_setting)
        } else {
            Tile::empty()
        };
        if old_tile.value() == new_tile.value() {
            assert(self.cells() =~= old(self).cells().update(pos as int, new_tile.raw()));
            return ;
        }
        self.tiles[pos] = new_tile;
        self.tiles_dirty = true;
        assert(self.cells() =~= old(self).cells().update(pos as int, new_tile.raw()));
    }

    /// Empties every cell, each letting go of the slot it named, in the
    /// order of the cells. The dirty flag stays as it is.
    pub fn clear(&mut self, vram: &mut VRamManager<'_>)
        requires
            old(vram).wf(),
            can_clear_from(old(self).cells(), old(vram).cache(), 0),
        ensures
            final(vram).wf(),
            final(vram).arena() == old(vram).arena(),
            final(vram).pending() == old(vram).pending(),
            final(vram).cache() == cache_after_clearing_from(
                old(self).cells(),
                old(vram).cache(),
                0,
            ),
            final(self).cells() == Seq::new(1024, |i: int| 0u16),
            final(self).is_dirty() == old(self).is_dirty(),
            final(self).same_registers(old(self)),
    {
        let ghost cells = self.cells();
        let mut i: usize = 0;
        while i < 1024
            invariant
                i <= 1024,
                cells == old(self).cells(),
                cells.len() == 1024,
                vram.wf(),
                vram.arena() == old(vram).arena(),
                vram.pending() == old(vram).pending(),
                can_clear_from(cells, vram.cache(), i as int),
                cache_after_clearing_from(cells, vram.cache(), i as int)
                    == cache_after_clearing_from(cells, old(vram).cache(), 0),
                forall|j: int| 0 <= j < i ==> self.cells()[j] == 0,
                forall|j: int| i <= j < 1024 ==> self.cells()[j] == cells[j],
                self.is_dirty() == old(self).is_dirty(),
                self.same_registers(old(self)),
            decreases 1024 - i,
        {
            let tile = self.tiles[i];
            assert(tile.raw() == self.cells()[i as int]);
            if tile.value() != 0 {
                vram.remove_tile(tile.tile_index());
            }
            let ghost prev = self.cells();
            self.tiles[i] = Tile::empty();
            assert(self.cells() =~= prev.update(i as int, 0));
            i += 1;
        }
        assert(self.cells() =~= Seq::new(1024, |i: int| 0u16));
    }

    /// The display-control bit that enables the layer.
    pub open spec fn enable_bit(&self) -> u16 {
        if self.layer() == 0 {
            0x100
        } else if self.layer() == 1 {
            0x200
        } else if self.layer() == 2 {
            0x400
        } else {
            0x800
        }
    }

    /// The display-control value that shows the layer: `mode` with the
    /// layer's enable bit set.
    pub fn show(&mut self, mode: u16) -> (new_mode: u16)
        requires
            old(self).wf(),
        ensures
            new_mode == mode | old(self).enable_bit(),
            *final(self) == *old(self),
    {
        let shift: u16 = (self.background_id + 0x08) as u16;
        assert(1u16 << shift == (if shift == 8 {
            0x100u16
        } else if shift == 9 {
            0x200u16
        } else if shift == 10 {
            0x400u16
        } else {
            0x800u16
        })) by (bit_vector)
            requires
                8 <= shift < 12,
        ;
        mode | (1 << shift)
    }

    /// The display-control value that hides the layer: `mode` with the
    /// layer's enable bit cleared.
    pub fn conceal(&mut self, mode: u16) -> (new_mode: u16)
        requires
            old(self).wf(),
        ensures
            new_mode == mode & !old(self).enable_bit(),
            *final(self) == *old(self),
    {
        let shift: u16 = (self.background_id + 0x08) as u16;
        assert(1u16 << shift == (if shift == 8 {
            0x100u16
        } else if shift == 9 {
            0x200u16
        } else if shift == 10 {
            0x400u16
        } else {
            0x800u16
        })) by (bit_vector)
            requires
                8 <= shift < 12,
        ;
        mode & !(1 << shift)
    }

    /// Scrolls the layer to `pos`; the hardware learns of it with the next
    /// `commit`.
    pub fn set_scroll_pos(&mut self, pos: Vector2D<u16>)
        ensures
            final(self).scroll_x() == pos.x,
            final(self).scroll_y() == pos.y,
            final(self).cells() == old(self).cells(),
            final(self).is_dirty() == old(self).is_dirty(),
            final(self).layer() == old(self).layer(),
            final(self).block() == old(self).block(),
            final(self).drawn_at() == old(self).drawn_at(),
    {
        self.x_scroll = pos.x;
        self.y_scroll = pos.y;
        assert(self.cells() =~= old(self).cells());
    }

    pub fn get_scroll_pos(&self) -> (pos: Vector2D<u16>)
        ensures
            pos.x == self.scroll_x(),
            pos.y == self.scroll_y(),
    {
        Vector2D::new(self.x_scroll, self.y_scroll)
    }

    /// Address of the layer's control register.
    pub open spec fn control_address(&self) -> usize {
        (0x0400_0008 + 2 * self.layer()) as usize
    }

    /// Address of the layer's horizontal scroll register.
    pub open spec fn h_offset_address(&self) -> usize {
        (0x0400_0010 + 4 * self.layer()) as usize
    }

    /// Address of the layer's vertical scroll register.
    pub open spec fn v_offset_address(&self) -> usize {
        (0x0400_0012 + 4 * self.layer()) as usize
    }

    /// Address of the first cell of the layer's screenblock.
    pub open spec fn screenblock_address(&self) -> usize {
        (0x0600_0000 + 0x800 * self.block()) as usize
    }

    /// What the control register is to hold: the priority in its low bits,
    /// the screenblock from bit 8 on.
    pub open spec fn control_value(&self) -> u16 {
        (self.drawn_at().spec_bits() + 256 * self.block()) as u16
    }

    #[verifier::when_used_as_spec(control_address)]
    pub fn bg_control_register(&self) -> (address: usize)
        ensures
            address == self.control_address(),
    {
        0x0400_0008 + 2 * self.background_id as usize
    }

    #[verifier::when_used_as_spec(h_offset_address)]
    pub fn bg_h_offset(&self) -> (address: usize)
        ensures
            address == self.h_offset_address(),
    {
        0x0400_0010 + 4 * self.background_id as usize
    }

    #[verifier::when_used_as_spec(v_offset_address)]
    pub fn bg_v_offset(&self) -> (address: usize)
        ensures
            address == self.v_offset_address(),
    {
        0x0400_0012 + 4 * self.background_id as usize
    }

    #[verifier::when_used_as_spec(screenblock_address)]
    pub fn screenblock_memory(&self) -> (address: usize)
        ensures
            address == self.screenblock_address(),
    {
        0x0600_0000 + 0x1000 * self.screenblock as usize / 2
    }

    /// The stores that bring the layer's three registers up to date.
    pub open spec fn register_stores(&self) -> Seq<Store<u16>> {
        seq![
            Store { address: self.control_address(), value: self.control_value() },
            Store { address: self.h_offset_address(), value: self.scroll_x() },
            Store { address: self.v_offset_address(), value: self.scroll_y() },
        ]
    }

    /// Number of grid columns sent to the hardware.
    pub open spec fn window_width(&self) -> int {
        window_end(self.scroll_x(), WIDTH as int) - window_start(self.scroll_x())
    }

    /// Number of grid rows sent to the hardware.
    pub open spec fn window_height(&self) -> int {
        window_end(self.scroll_y(), HEIGHT as int) - window_start(self.scroll_y())
    }

    /// The `k`-th cell sent to the hardware: the window is walked row after
    /// row, and both axes wrap at 32.
    pub open spec fn window_cell(&self, k: int) -> int {
        let x = window_start(self.scroll_x()) + k % self.window_width();
        let y = window_start(self.scroll_y()) + k / self.window_width();
        (y % 32) * 32 + x % 32
    }

    /// The stores that copy the cells in the window into the screenblock.
    pub open spec fn cell_stores(&self) -> Seq<Store<u16>> {
        Seq::new(
            (self.window_width() * self.window_height()) as nat,
            |k: int|
                Store {
                    address: (self.screenblock_address() + 2 * self.window_cell(k)) as usize,
                    value: self.cells()[self.window_cell(k)],
                },
        )
    }

    /// The stores that bring the hardware up to date with the map: always
    /// the three registers, and the cells in the window if the map is dirty.
    pub open spec fn commit_stores(&self) -> Seq<Store<u16>> {
        if self.is_dirty() {
            self.register_stores() + self.cell_stores()
        } else {
            self.register_stores()
        }
    }

    /// The window is 31 or 32 columns wide and 21 or 22 rows high.
    pub proof fn lemma_window_size(&self)
        ensures
            31 <= self.window_width() <= 32,
            21 <= self.window_height() <= 22,
            self.window_width() == (if self.scroll_x() % 8 == 0 {
                31int
            } else {
                32int
            }),
            self.window_height() == (if self.scroll_y() % 8 == 0 {
                21int
            } else {
                22int
            }),
    {
        lemma_ceil_div_bounds(self.scroll_x() + WIDTH, 8);
        lemma_ceil_div_bounds(self.scroll_y() + HEIGHT, 8);
    }

    /// Every cell that `commit` sends lies in the window: its column is
    /// under the screen or the one after, and so is its row. A cell outside
    /// the window is never written.
    pub proof fn lemma_commit_stays_in_window(&self, k: int)
        requires
            0 <= k < self.cell_stores().len(),
        ensures
            0 <= self.window_cell(k) < GRID_CELLS,
            line_in_window(self.scroll_x(), WIDTH as int, self.window_cell(k) % 32),
            line_in_window(self.scroll_y(), HEIGHT as int, self.window_cell(k) / 32),
            self.cell_stores()[k].address == self.screenblock_address() + 2 * self.window_cell(k),
            self.cell_stores()[k].value == self.cells()[self.window_cell(k)],
    {
        self.lemma_window_size();
        let w = self.window_width();
        let h = self.window_height();
        let dx = k % w;
        let dy = k / w;
        assert(0 <= dx < w && 0 <= dy < h) by (nonlinear_arith)
            requires
                0 <= k < w * h,
                w > 0,
                dx == k % w,
                dy == k / w,
        ;
        let sx = window_start(self.scroll_x());
        let sy = window_start(self.scroll_y());
        lemma_wrapped_line(sx, dx);
        lemma_wrapped_line(sy, dy);
        lemma_cell_split((sy + dy) % 32, (sx + dx) % 32);
    }

    /// Every cell in the window is sent by `commit` on a dirty map.
    pub proof fn lemma_window_is_committed(&self, cell: int)
        requires
            0 <= cell < GRID_CELLS,
            line_in_window(self.scroll_x(), WIDTH as int, cell % 32),
            line_in_window(self.scroll_y(), HEIGHT as int, cell / 32),
        ensures
            exists|k: int|
                0 <= k < self.cell_stores().len() && #[trigger] self.window_cell(k) == cell,
    {
        self.lemma_window_size();
        let w = self.window_width();
        let h = self.window_height();
        let sx = window_start(self.scroll_x());
        let sy = window_start(self.scroll_y());
        let dx = wrap(cell % 32 - sx, 32);
        let dy = wrap(cell / 32 - sy, 32);
        let k = dy * w + dx;
        assert(k / w == dy && k % w == dx) by {
            vstd::arithmetic::div_mod::lemma_fundamental_div_mod_converse(k, w, dy, dx);
        }
        assert(0 <= k < w * h) by (nonlinear_arith)
            requires
                k == dy * w + dx,
                0 <= dx < w,
                0 <= dy < h,
        ;
        assert((sx + dx) % 32 == cell % 32);
        assert((sy + dy) % 32 == cell / 32);
        assert(self.window_cell(k) == cell);
    }

    /// Brings the hardware up to date with the map. The three registers are
    /// always stored; the cells only if the map is dirty, and of them only
    /// those in the window. Afterwards the map is clean.
    pub fn commit(&mut self) -> (stores: Vec<Store<u16>>)
        ensures
            stores@ == old(self).commit_stores(),
            !final(self).is_dirty(),
            final(self).cells() == old(self).cells(),
            final(self).same_registers(old(self)),
    {
        let priority = self.priority.bits();
        let block = self.screenblock as u16;
        assert(priority | (block << 8) == priority + 256 * block) by (bit_vector)
            requires
                priority < 4,
                block < 256,
        ;
        let new_bg_control_value = priority | (block << 8);
        let mut stores = Vec::new();
        stores.push(Store { address: self.bg_control_register(), value: new_bg_control_value });
        stores.push(Store { address: self.bg_h_offset(), value: self.x_scroll });
        stores.push(Store { address: self.bg_v_offset(), value: self.y_scroll });
        assert(stores@ =~= self.register_stores());
        if !self.tiles_dirty {
            return stores;
        }
        let screenblock_memory = self.screenblock_memory();
        let scroll_pos = self.get_scroll_pos();
        proof {
            self.lemma_window_size();
            lemma_ceil_div_bounds(self.scroll_x() + WIDTH, 8);
            lemma_ceil_div_bounds(self.scroll_y() + HEIGHT, 8);
        }
        let start_x = scroll_pos.x / 8;
        let end_x = div_ceil(scroll_pos.x as i32 + WIDTH, 8) as u16 + 1;
        let start_y = scroll_pos.y / 8;
        let end_y = div_ceil(scroll_pos.y as i32 + HEIGHT, 8) as u16 + 1;
        let ghost w = self.window_width();
        let ghost h = self.window_height();
        let ghost all = self.cell_stores();
        assert(stores@ =~= self.register_stores() + all.take(0));
        let mut y = start_y;
        while y < end_y
            invariant
                start_y <= y <= end_y,
                start_x <= end_x,
                start_x == window_start(self.scroll_x()),
                start_y == window_start(self.scroll_y()),
                end_x - start_x == w,
                end_y - start_y == h,
                31 <= w <= 32,
                21 <= h <= 22,
                end_x <= 8224,
                end_y <= 8224,
                w == self.window_width(),
                h == self.window_height(),
                all == self.cell_stores(),
                all.len() == w * h,
                screenblock_memory == self.screenblock_address(),
                stores@ == self.register_stores() + all.take((y - start_y) * w),
                *self == *old(self),
            decreases end_y - y,
        {
            let mut x = start_x;
            while x < end_x
                invariant
                    start_y <= y < end_y,
                    start_x <= x <= end_x,
                    start_x == window_start(self.scroll_x()),
                    start_y == window_start(self.scroll_y()),
                    end_x - start_x == w,
                    end_y - start_y == h,
                    31 <= w <= 32,
                    21 <= h <= 22,
                    end_x <= 8224,
                    end_y <= 8224,
                    w == self.window_width(),
                    h == self.window_height(),
                    all == self.cell_stores(),
                    all.len() == w * h,
                    screenblock_memory == self.screenblock_address(),
                    stores@ == self.register_stores() + all.take(
                        (y - start_y) * w + (x - start_x),
                    ),
                    *self == *old(self),
                decreases end_x - x,
            {
                let id = (y % 32) * 32 + x % 32;
                proof {
                    let k = (y - start_y) * w + (x - start_x);
                    assert(0 <= k < w * h) by (nonlinear_arith)
                        requires
                            k == (y - start_y) * w + (x - start_x),
                            0 <= x - start_x < w,
                            0 <= y - start_y < h,
                    ;
                    vstd::arithmetic::div_mod::lemma_fundamental_div_mod_converse(
                        k,
                        w,
                        y - start_y,
                        x - start_x,
                    );
                    assert(self.window_cell(k) == id);
                    assert(self.tiles@[id as int].raw() == self.cells()[id as int]);
                    assert(all.take(k + 1) =~= all.take(k).push(all[k]));
                }
                stores.push(
                    Store {
                        address: screenblock_memory + 2 * (id as usize),
                        value: self.tiles[id as usize].value(),
                    },
                );
                x += 1;
            }
            proof {
                assert((y - start_y) * w + (end_x - start_x) == (y + 1 - start_y) * w)
                    by (nonlinear_arith)
                    requires
                        end_x - start_x == w,
                ;
            }
            y += 1;
        }
        proof {
            assert(all.take(h * w) =~= all) by {
                assert(h * w == w * h) by (nonlinear_arith);
            }
        }
        self.tiles_dirty = false;
        assert(self.cells() =~= old(self).cells());
        stores
    }
}

} // verus!
