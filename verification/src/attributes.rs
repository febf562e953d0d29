//! The three packed 16-bit attributes of a hardware object, and the
//! operations that set their fields.
//!
//! Fields are laid out from the lowest bit up, in the order in which the view
//! structs name them.

use vstd::prelude::*;
use crate::hardware::{Priority, Store, OBJECT_ATTRIBUTE_MEMORY};

verus! {

/// How the hardware treats an object.
#[derive(Clone, Copy, Debug, PartialEq, Eq, Structural)]
pub enum ObjectMode {
    Normal,
    Affine,
    Disabled,
    AffineDouble,
}

impl ObjectMode {
    /// The two-bit hardware encoding.
    pub open spec fn spec_bits(self) -> u16 {
        match self {
            ObjectMode::Normal => 0,
            ObjectMode::Affine => 1,
            ObjectMode::Disabled => 2,
            ObjectMode::AffineDouble => 3,
        }
    }

    #[verifier::when_used_as_spec(spec_bits)]
    pub fn bits(self) -> (b: u16)
        ensures
            b == self.spec_bits(),
            b < 4,
    {
        match self {
            ObjectMode::Normal => 0,
            ObjectMode::Affine => 1,
            ObjectMode::Disabled => 2,
            ObjectMode::AffineDouble => 3,
        }
    }

    pub open spec fn spec_from_bits(b: int) -> ObjectMode {
        if b == 0 {
            ObjectMode::Normal
        } else if b == 1 {
            ObjectMode::Affine
        } else if b == 2 {
            ObjectMode::Disabled
        } else {
            ObjectMode::AffineDouble
        }
    }
}

/// The fields of attribute 0.
pub struct Attribute0View {
    /// The vertical position, 8 bits.
    pub y: int,
    /// The object mode, 2 bits.
    pub object_mode: int,
    /// The graphics mode, 2 bits.
    pub graphics_mode: int,
    /// The mosaic flag, 1 bit.
    pub mosaic: int,
    /// The colour mode, 1 bit.
    pub colour_mode: int,
    /// The shape code, 2 bits.
    pub shape: int,
}

/// The fields of attribute 1 of an object that is not transformed.
pub struct Attribute1StandardView {
    /// The horizontal position, 9 bits.
    pub x: int,
    /// Three bits that are not used.
    pub unused: int,
    /// The horizontal flip, 1 bit.
    pub horizontal_flip: int,
    /// The vertical flip, 1 bit.
    pub vertical_flip: int,
    /// The size code, 2 bits.
    pub size: int,
}

/// The fields of attribute 1 of a transformed object.
pub struct Attribute1AffineView {
    /// The horizontal position, 9 bits.
    pub x: int,
    /// The transformation matrix, 5 bits.
    pub affine_index: int,
    /// The size code, 2 bits.
    pub size: int,
}

/// The fields of attribute 2.
pub struct Attribute2View {
    /// The first tile of the sprite, 10 bits.
    pub tile_index: int,
    /// The drawing priority, 2 bits.
    pub priority: int,
    /// The palette bank, 4 bits.
    pub palette_bank: int,
}

/// Attribute 0 of an object: vertical position, modes and shape.
#[derive(Clone, Copy, Debug, PartialEq, Eq, Structural)]
pub struct ObjectAttribute0(u16);

/// Attribute 1 of an object that is not transformed: horizontal position,
/// flips and size.
#[derive(Clone, Copy, Debug, PartialEq, Eq, Structural)]
pub struct ObjectAttribute1Standard(u16);

/// Attribute 1 of a transformed object: horizontal position, matrix and
/// size.
#[derive(Clone, Copy, Debug, PartialEq, Eq, Structural)]
pub struct ObjectAttribute1Affine(u16);

/// Attribute 2 of an object: first tile, priority and palette bank.
#[derive(Clone, Copy, Debug, PartialEq, Eq, Structural)]
pub struct ObjectAttribute2(u16);

impl ObjectAttribute0 {
    /// The packed value, as the hardware reads it.
    pub closed spec fn raw(self) -> u16 {
        self.0
    }

    pub open spec fn view(self) -> Attribute0View {
        Attribute0View {
            y: (self.raw() % 256) as int,
            object_mode: ((self.raw() / 256) % 4) as int,
            graphics_mode: ((self.raw() / 1024) % 4) as int,
            mosaic: ((self.raw() / 4096) % 2) as int,
            colour_mode: ((self.raw() / 8192) % 2) as int,
            shape: (self.raw() / 16384) as int,
        }
    }

    pub fn new() -> (a: Self)
        ensures
            a.raw() == 0,
    {
        ObjectAttribute0(0)
    }

    pub fn value(self) -> (v: u16)
        ensures
            v == self.raw(),
    {
        self.0
    }

    pub fn object_mode(self) -> (mode: ObjectMode)
        ensures
            mode == ObjectMode::spec_from_bits(self@.object_mode),
            mode.spec_bits() == self@.object_mode,
    {
        let bits = (self.0 / 256) % 4;
        if bits == 0 {
            ObjectMode::Normal
        } else if bits == 1 {
            ObjectMode::Affine
        } else if bits == 2 {
            ObjectMode::Disabled
        } else {
            ObjectMode::AffineDouble
        }
    }

    pub fn set_y(&mut self, y: u8)
        ensures
            final(self)@ == (Attribute0View { y: y as int, ..old(self)@ }),
    {
        let stale: u16 = self.0;
        let value: u16 = y as u16;
        let fresh: u16 = (stale & !0x00ffu16) | value;
        assert(fresh % 256 == value
            && (fresh / 256) % 4 == (stale / 256) % 4
            && (fresh / 1024) % 4 == (stale / 1024) % 4
            && (fresh / 4096) % 2 == (stale / 4096) % 2
            && (fresh / 8192) % 2 == (stale / 8192) % 2
            && (fresh / 16384) == (stale / 16384)) by (bit_vector)
            requires
                fresh == (stale & !0x00ffu16) | value,
                value < 256,
        ;
        self.0 = fresh;
    }

    pub fn set_object_mode(&mut self, mode: ObjectMode)
        ensures
            final(self)@ == (Attribute0View {
                object_mode: mode.spec_bits() as int,
                ..old(self)@
            }),
    {
        let stale: u16 = self.0;
        let value: u16 = mode.bits();
        let fresh: u16 = (stale & !0x0300u16) | (value << 8);
        assert(fresh % 256 == stale % 256
            && (fresh / 256) % 4 == value
            && (fresh / 1024) % 4 == (stale / 1024) % 4
            && (fresh / 4096) % 2 == (stale / 4096) % 2
            && (fresh / 8192) % 2 == (stale / 8192) % 2
            && (fresh / 16384) == (stale / 16384)) by (bit_vector)
            requires
                fresh == (stale & !0x0300u16) | (value << 8),
                value < 4,
        ;
        self.0 = fresh;
    }

    pub fn set_shape(&mut self, shape: u8)
        requires
            shape < 4,
        ensures
            final(self)@ == (Attribute0View { shape: shape as int, ..old(self)@ }),
    {
        let stale: u16 = self.0;
        let value: u16 = shape as u16;
        let fresh: u16 = (stale & !0xc000u16) | (value << 14);
        assert(fresh % 256 == stale % 256
            && (fresh / 256) % 4 == (stale / 256) % 4
            && (fresh / 1024) % 4 == (stale / 1024) % 4
            && (fresh / 4096) % 2 == (stale / 4096) % 2
            && (fresh / 8192) % 2 == (stale / 8192) % 2
            && (fresh / 16384) == value) by (bit_vector)
            requires
                fresh == (stale & !0xc000u16) | (value << 14),
                value < 4,
        ;
        self.0 = fresh;
    }
}

impl ObjectAttribute1Standard {
    /// The packed value, as the hardware reads it.
    pub closed spec fn raw(self) -> u16 {
        self.0
    }

    pub open spec fn view(self) -> Attribute1StandardView {
        Attribute1StandardView {
            x: (self.raw() % 512) as int,
            unused: ((self.raw() / 512) % 8) as int,
            horizontal_flip: ((self.raw() / 4096) % 2) as int,
            vertical_flip: ((self.raw() / 8192) % 2) as int,
            size: (self.raw() / 16384) as int,
        }
    }

    pub fn new() -> (a: Self)
        ensures
            a.raw() == 0,
    {
        ObjectAttribute1Standard(0)
    }

    pub fn value(self) -> (v: u16)
        ensures
            v == self.raw(),
    {
        self.0
    }

    pub fn set_x(&mut self, x: u16)
        requires
            x < 512,
        ensures
            final(self)@ == (Attribute1StandardView { x: x as int, ..old(self)@ }),
    {
        let stale: u16 = self.0;
        let value: u16 = x;
        let fresh: u16 = (stale & !0x01ffu16) | value;
        assert(fresh % 512 == value
            && (fresh / 512) % 8 == (stale / 512) % 8
            && (fresh / 4096) % 2 == (stale / 4096) % 2
            && (fresh / 8192) % 2 == (stale / 8192) % 2
            && (fresh / 16384) == (stale / 16384)) by (bit_vector)
            requires
                fresh == (stale & !0x01ffu16) | value,
                value < 512,
        ;
        self.0 = fresh;
    }

    pub fn set_horizontal_flip(&mut self, flip: bool)
        ensures
            final(self)@ == (Attribute1StandardView {
                horizontal_flip: if flip {
                    1
                } else {
                    0
                },
                ..old(self)@
            }),
    {
        let stale: u16 = self.0;
        let value: u16 = if flip { 1 } else { 0 };
        let fresh: u16 = (stale & !0x1000u16) | (value << 12);
        assert(fresh % 512 == stale % 512
            && (fresh / 512) % 8 == (stale / 512) % 8
            && (fresh / 4096) % 2 == value
            && (fresh / 8192) % 2 == (stale / 8192) % 2
            && (fresh / 16384) == (stale / 16384)) by (bit_vector)
            requires
                fresh == (stale & !0x1000u16) | (value << 12),
                value < 2,
        ;
        self.0 = fresh;
    }

    pub fn set_vertical_flip(&mut self, flip: bool)
        ensures
            final(self)@ == (Attribute1StandardView {
                vertical_flip: if flip {
                    1
                } else {
                    0
                },
                ..old(self)@
            }),
    {
        let stale: u16 = self.0;
        let value: u16 = if flip { 1 } else { 0 };
        let fresh: u16 = (stale & !0x2000u16) | (value << 13);
        assert(fresh % 512 == stale % 512
            && (fresh / 512) % 8 == (stale / 512) % 8
            && (fresh / 4096) % 2 == (stale / 4096) % 2
            && (fresh / 8192) % 2 == value
            && (fresh / 16384) == (stale / 16384)) by (bit_vector)
            requires
                fresh == (stale & !0x2000u16) | (value << 13),
                value < 2,
        ;
        self.0 = fresh;
    }

    pub fn set_size(&mut self, size: u8)
        requires
            size < 4,
        ensures
            final(self)@ == (Attribute1StandardView { size: size as int, ..old(self)@ }),
    {
        let stale: u16 = self.0;
        let value: u16 = size as u16;
        let fresh: u16 = (stale & !0xc000u16) | (value << 14);
        assert(fresh % 512 == stale % 512
            && (fresh / 512) % 8 == (stale / 512) % 8
            && (fresh / 4096) % 2 == (stale / 4096) % 2
            && (fresh / 8192) % 2 == (stale / 8192) % 2
            && (fresh / 16384) == value) by (bit_vector)
            requires
                fresh == (stale & !0xc000u16) | (value << 14),
                value < 4,
        ;
        self.0 = fresh;
    }
}

impl ObjectAttribute1Affine {
    /// The packed value, as the hardware reads it.
    pub closed spec fn raw(self) -> u16 {
        self.0
    }

    pub open spec fn view(self) -> Attribute1AffineView {
        Attribute1AffineView {
            x: (self.raw() % 512) as int,
            affine_index: ((self.raw() / 512) % 32) as int,
            size: (self.raw() / 16384) as int,
        }
    }

    pub fn new() -> (a: Self)
        ensures
            a.raw() == 0,
    {
        ObjectAttribute1Affine(0)
    }

    pub fn value(self) -> (v: u16)
        ensures
            v == self.raw(),
    {
        self.0
    }

    pub fn set_x(&mut self, x: u16)
        requires
            x < 512,
        ensures
            final(self)@ == (Attribute1AffineView { x: x as int, ..old(self)@ }),
    {
        let stale: u16 = self.0;
        let value: u16 = x;
        let fresh: u16 = (stale & !0x01ffu16) | value;
        assert(fresh % 512 == value
            && (fresh / 512) % 32 == (stale / 512) % 32
            && (fresh / 16384) == (stale / 16384)) by (bit_vector)
            requires
                fresh == (stale & !0x01ffu16) | value,
                value < 512,
        ;
        self.0 = fresh;
    }

    pub fn set_size(&mut self, size: u8)
        requires
            size < 4,
        ensures
            final(self)@ == (Attribute1AffineView { size: size as int, ..old(self)@ }),
    {
        let stale: u16 = self.0;
        let value: u16 = size as u16;
        let fresh: u16 = (stale & !0xc000u16) | (value << 14);
        assert(fresh % 512 == stale % 512
            && (fresh / 512) % 32 == (stale / 512) % 32
            && (fresh / 16384) == value) by (bit_vector)
            requires
                fresh == (stale & !0xc000u16) | (value << 14),
                value < 4,
        ;
        self.0 = fresh;
    }
}

impl ObjectAttribute2 {
    /// The packed value, as the hardware reads it.
    pub closed spec fn raw(self) -> u16 {
        self.0
    }

    pub open spec fn view(self) -> Attribute2View {
        Attribute2View {
            tile_index: (self.raw() % 1024) as int,
            priority: ((self.raw() / 1024) % 4) as int,
            palette_bank: (self.raw() / 4096) as int,
        }
    }

    pub fn new() -> (a: Self)
        ensures
            a.raw() == 0,
    {
        ObjectAttribute2(0)
    }

    pub fn value(self) -> (v: u16)
        ensures
            v == self.raw(),
    {
        self.0
    }

    pub fn set_tile_index(&mut self, tile_index: u16)
        requires
            tile_index < 1024,
        ensures
            final(self)@ == (Attribute2View { tile_index: tile_index as int, ..old(self)@ }),
    {
        let stale: u16 = self.0;
        let value: u16 = tile_index;
        let fresh: u16 = (stale & !0x03ffu16) | value;
        assert(fresh % 1024 == value
            && (fresh / 1024) % 4 == (stale / 1024) % 4
            && (fresh / 4096) == (stale / 4096)) by (bit_vector)
            requires
                fresh == (stale & !0x03ffu16) | value,
                value < 1024,
        ;
        self.0 = fresh;
    }

    pub fn set_priority(&mut self, priority: Priority)
        ensures
            final(self)@ == (Attribute2View {
                priority: priority.spec_bits() as int,
                ..old(self)@
            }),
    {
        let stale: u16 = self.0;
        let value: u16 = priority.bits();
        let fresh: u16 = (stale & !0x0c00u16) | (value << 10);
        assert(fresh % 1024 == stale % 1024
            && (fresh / 1024) % 4 == value
            && (fresh / 4096) == (stale / 4096)) by (bit_vector)
            requires
                fresh == (stale & !0x0c00u16) | (value << 10),
                value < 4,
        ;
        self.0 = fresh;
    }

    pub fn set_palete_bank(&mut self, bank: u8)
        requires
            bank < 16,
        ensures
            final(self)@ == (Attribute2View { palette_bank: bank as int, ..old(self)@ }),
    {
        let stale: u16 = self.0;
        let value: u16 = bank as u16;
        let fresh: u16 = (stale & !0xf000u16) | (value << 12);
        assert(fresh % 1024 == stale % 1024
            && (fresh / 1024) % 4 == (stale / 1024) % 4
            && (fresh / 4096) == value) by (bit_vector)
            requires
                fresh == (stale & !0xf000u16) | (value << 12),
                value < 16,
        ;
        self.0 = fresh;
    }
}

/// What attribute 0 of a row holds when no object is drawn from it: the
/// object mode `Disabled`, and nothing else.
pub const HIDDEN_VALUE: u16 = 0x200;

/// Address of attribute `which` (0 to 2) of row `location` of the object
/// attribute table; a row takes four 16-bit places.
pub open spec fn attribute_address(location: int, which: int) -> usize {
    (OBJECT_ATTRIBUTE_MEMORY + 2 * (location * 4 + which)) as usize
}

/// The attributes of one object.
#[derive(Clone, Copy, Debug, PartialEq, Eq, Structural)]
pub struct Attributes {
    pub a0: ObjectAttribute0,
    pub a1s: ObjectAttribute1Standard,
    pub a1a: ObjectAttribute1Affine,
    pub a2: ObjectAttribute2,
}

impl Attributes {
    /// The attributes with every field 0.
    pub closed spec fn blank() -> Attributes {
        Attributes {
            a0: ObjectAttribute0(0),
            a1s: ObjectAttribute1Standard(0),
            a1a: ObjectAttribute1Affine(0),
            a2: ObjectAttribute2(0),
        }
    }

    /// What the blank attributes hold.
    pub proof fn lemma_blank()
        ensures
            Attributes::blank().a0.raw() == 0,
            Attributes::blank().a1s.raw() == 0,
            Attributes::blank().a1a.raw() == 0,
            Attributes::blank().a2.raw() == 0,
    {
    }

    pub fn new() -> (attrs: Self)
        ensures
            attrs == Attributes::blank(),
            attrs.a0.raw() == 0,
            attrs.a1s.raw() == 0,
            attrs.a1a.raw() == 0,
            attrs.a2.raw() == 0,
    {
        Self {
            a0: ObjectAttribute0::new(),
            a1s: ObjectAttribute1Standard::new(),
            a1a: ObjectAttribute1Affine::new(),
            a2: ObjectAttribute2::new(),
        }
    }

    /// What attribute 1 is to hold: the standard form for an object in mode
    /// `Normal`, the affine form in any other mode.
    pub open spec fn second(self) -> u16 {
        if self.a0@.object_mode == 0 {
            self.a1s.raw()
        } else {
            self.a1a.raw()
        }
    }

    /// The stores that write the attributes into row `location` of the
    /// object attribute table.
    pub open spec fn commit_stores(self, location: int) -> Seq<Store<u16>> {
        seq![
            Store { address: attribute_address(location, 0), value: self.a0.raw() },
            Store { address: attribute_address(location, 1), value: self.second() },
            Store { address: attribute_address(location, 2), value: self.a2.raw() },
        ]
    }

    /// Adds to `stores` the ones that write the attributes into row
    /// `location` of the object attribute table.
    pub fn commit(&self, location: usize, stores: &mut Vec<Store<u16>>)
        requires
            location < 128,
        ensures
            final(stores)@ == old(stores)@ + self.commit_stores(location as int),
    {
        let mode = self.a0.object_mode();
        let second = match mode {
            ObjectMode::Normal => self.a1s.value(),
            _ => self.a1a.value(),
        };
        let base = OBJECT_ATTRIBUTE_MEMORY + 2 * (location * 4);
        stores.push(Store { address: base, value: self.a0.value() });
        stores.push(Store { address: base + 2, value: second });
        stores.push(Store { address: base + 4, value: self.a2.value() });
        assert(stores@ =~= old(stores)@ + self.commit_stores(location as int));
    }
}

} // verus!
