//! Tile graphics as the caller supplies them, and the packed values by which
//! a background cell names a tile.

use vstd::prelude::*;

verus! {

/// The pixel format of a tileset.
#[derive(Clone, Copy, Debug)]
pub enum TileFormat {
    FourBpp,
}

impl TileFormat {
    /// Size of one tile in bytes.
    pub fn tile_size(self) -> (bytes: usize)
        ensures
            bytes == 32,
    {
        match self {
            TileFormat::FourBpp => 8 * 8 / 2,
        }
    }
}

/// A buffer of tile graphics owned by the caller.
#[derive(Clone, Copy)]
pub struct TileSet<'a> {
    pub(crate) tiles: &'a [u32],
    pub(crate) format: TileFormat,
}

impl<'a> TileSet<'a> {
    /// The pixel words of the set, tile after tile.
    pub closed spec fn words(self) -> Seq<u32> {
        self.tiles@
    }

    /// The pixel format of the set.
    pub closed spec fn spec_format(self) -> TileFormat {
        self.format
    }

    pub fn new(tiles: &'a [u32], format: TileFormat) -> (set: Self)
        ensures
            set.words() == tiles@,
            set.spec_format() == format,
    {
        Self { tiles, format }
    }

    /// The pixel words of the set.
    pub fn tiles(&self) -> (tiles: &'a [u32])
        ensures
            tiles@ == self.words(),
    {
        self.tiles
    }

    /// The pixel format of the set.
    pub fn format(&self) -> (format: TileFormat)
        ensures
            format == self.spec_format(),
    {
        self.format
    }
}

/// A checked handle to a tileset held by the arena.
#[derive(Clone, Copy, Debug, PartialEq, Eq, Structural)]
pub struct TileSetReference {
    pub(crate) id: u16,
    pub(crate) generation: u16,
}

impl TileSetReference {
    /// The arena slot that the handle names.
    pub closed spec fn slot(self) -> int {
        self.id as int
    }

    /// The generation that the slot had when the handle was issued.
    pub closed spec fn issued(self) -> u16 {
        self.generation
    }

    /// The handle to slot `id` under `generation`.
    pub closed spec fn of(id: u16, generation: u16) -> TileSetReference {
        TileSetReference { id, generation }
    }

    /// A handle is made of its slot and its generation.
    pub proof fn lemma_of(id: u16, generation: u16)
        ensures
            TileSetReference::of(id, generation).slot() == id,
            TileSetReference::of(id, generation).issued() == generation,
    {
    }

    pub(crate) fn new(id: u16, generation: u16) -> (handle: Self)
        ensures
            handle == TileSetReference::of(id, generation),
            handle.slot() == id,
            handle.issued() == generation,
    {
        Self { id, generation }
    }

    /// The arena slot that the handle names.
    pub fn id(&self) -> (id: u16)
        ensures
            id == self.slot(),
    {
        self.id
    }

    /// The generation that the slot had when the handle was issued.
    pub fn generation(&self) -> (generation: u16)
        ensures
            generation == self.issued(),
    {
        self.generation
    }

    /// Two handles with the same slot and generation are the same handle.
    pub proof fn lemma_same(self, other: Self)
        requires
            self.slot() == other.slot(),
            self.issued() == other.issued(),
        ensures
            self == other,
    {
    }
}

/// The index of a physical slot in the background tile store.
#[derive(Clone, Copy, Debug)]
pub struct TileIndex(pub(crate) u16);

impl TileIndex {
    pub closed spec fn spec_index(self) -> u16 {
        self.0
    }

    pub fn new(index: u16) -> (idx: Self)
        ensures
            idx.spec_index() == index,
    {
        TileIndex(index)
    }

    /// The slot number.
    #[verifier::when_used_as_spec(spec_index)]
    pub fn index(self) -> (i: u16)
        ensures
            i == self.spec_index(),
    {
        self.0
    }
}

/// The low ten bits of a packed tile value: the tile it names.
pub open spec fn index_bits(raw: u16) -> u16 {
    raw % 1024
}

/// A packed tile value with its low ten bits cleared: the flips and the
/// palette bank.
pub open spec fn flag_bits(raw: u16) -> u16 {
    (raw - raw % 1024) as u16
}

/// The packed value that `TileSetting::new` builds.
pub open spec fn packed_setting(tile_id: u16, hflip: bool, vflip: bool, palette_id: u8) -> u16 {
    ((tile_id % 1024) + (if hflip { 1024int } else { 0 }) + (if vflip { 2048int } else { 0 })
        + 4096 * (palette_id % 16)) as u16
}

/// What the caller asks a background cell to show: a tile of a tileset, the
/// two flips and a palette bank.
#[derive(Clone, Copy, Debug)]
pub struct TileSetting(pub(crate) u16);

impl TileSetting {
    /// The packed value.
    pub closed spec fn raw(self) -> u16 {
        self.0
    }

    /// The setting for tile `tile_id` of a tileset, of which ten bits count,
    /// under the given flips and palette bank, of which four bits count.
    pub fn new(tile_id: u16, hflip: bool, vflip: bool, palette_id: u8) -> (setting: Self)
        ensures
            setting.raw() == packed_setting(tile_id, hflip, vflip, palette_id),
            index_bits(setting.raw()) == tile_id % 1024,
    {
        let h: u16 = if hflip { 1 } else { 0 };
        let v: u16 = if vflip { 1 } else { 0 };
        let p: u16 = palette_id as u16;
        let raw: u16 = (tile_id & 0x3ff) | (h << 10) | (v << 11) | (p << 12);
        assert(raw == (tile_id % 1024) + h * 1024 + v * 2048 + 4096 * (p % 16) && raw % 1024
            == tile_id % 1024) by (bit_vector)
            requires
                raw == (tile_id & 0x3ff) | (h << 10) | (v << 11) | (p << 12),
                h <= 1,
                v <= 1,
                p < 256,
        ;
        Self(raw)
    }

    pub fn from_raw(raw: u16) -> (setting: Self)
        ensures
            setting.raw() == raw,
    {
        Self(raw)
    }

    /// The packed value.
    pub fn value(self) -> (raw: u16)
        ensures
            raw == self.raw(),
    {
        self.0
    }

    /// The tile within its tileset; 0 stands for the empty tile.
    pub fn index(self) -> (i: u16)
        ensures
            i == index_bits(self.raw()),
            i < 1024,
    {
        let raw = self.0;
        assert(raw & 0x3ff == raw % 1024) by (bit_vector);
        raw & 0x3ff
    }

    /// The flips and the palette bank, in place.
    pub fn setting(self) -> (s: u16)
        ensures
            s == flag_bits(self.raw()),
            s % 1024 == 0,
    {
        let raw = self.0;
        assert(raw & !0x3ffu16 == raw - raw % 1024 && (raw & !0x3ffu16) % 1024 == 0)
            by (bit_vector);
        raw & !0x3ff
    }
}

/// One cell of a background grid: a physical tile slot with flips and palette
/// bank. The all-zero value is the empty, transparent cell.
#[derive(Clone, Copy, Debug, PartialEq, Eq, Structural)]
pub struct Tile(pub(crate) u16);

impl Tile {
    /// The packed value, as the hardware reads it.
    pub closed spec fn raw(self) -> u16 {
        self.0
    }

    /// The physical slot that the cell names.
    pub open spec fn slot(self) -> int {
        index_bits(self.raw()) as int
    }

    /// Whether the cell is the transparent one.
    pub open spec fn is_empty(self) -> bool {
        self.raw() == 0
    }

    /// The cell that shows `slot` under the given flips and palette bank.
    pub open spec fn packed(slot: u16, flags: u16) -> u16 {
        (slot + flags) as u16
    }

    pub fn empty() -> (tile: Self)
        ensures
            tile.raw() == 0,
    {
        Tile(0)
    }

    /// The cell that shows slot `idx` under the flips and palette bank of
    /// `setting`.
    pub fn new(idx: TileIndex, setting: TileSetting) -> (tile: Self)
        requires
            idx.spec_index() < 1024,
        ensures
            tile.raw() == Tile::packed(idx.spec_index(), flag_bits(setting.raw())),
            tile.slot() == idx.spec_index(),
            flag_bits(tile.raw()) == flag_bits(setting.raw()),
    {
        let i = idx.0;
        let s = setting.setting();
        assert((i | s) == i + s && (i | s) % 1024 == i && (i | s) - (i | s) % 1024 == s)
            by (bit_vector)
            requires
                i < 1024,
                s % 1024 == 0,
        ;
        Tile(i | s)
    }

    pub fn tile_index(self) -> (idx: TileIndex)
        ensures
            idx.spec_index() == self.slot(),
            idx.spec_index() < 1024,
    {
        let raw = self.0;
        assert(raw & 0x3ff == raw % 1024) by (bit_vector);
        TileIndex(raw & 0x3ff)
    }

    /// Same as `raw`, for the executable side.
    pub fn value(self) -> (v: u16)
        ensures
            v == self.raw(),
    {
        self.0
    }
}

} // verus!
