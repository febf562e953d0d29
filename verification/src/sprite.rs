//! Sprite graphics as the caller supplies them: sizes, frames, and the named
//! runs of frames that make up animations.

use vstd::prelude::*;
use vstd::slice::slice_subrange;
use vstd::string::StringSliceAdditionalSpecFns;
use crate::palette16::Palette16;

verus! {

/// Bytes that one tile of a sprite occupies in sprite tile memory.
pub const BYTES_PER_TILE_4BPP: usize = 32;

/// The twelve sizes that the hardware can draw a sprite in.
#[derive(Clone, Copy, Debug, PartialEq, Eq, Structural)]
pub enum Size {
    S8x8,
    S16x16,
    S32x32,
    S64x64,
    S16x8,
    S32x8,
    S32x16,
    S64x32,
    S8x16,
    S8x32,
    S16x32,
    S32x64,
}

impl Size {
    /// Width and height in pixels.
    pub open spec fn spec_width_height(self) -> (usize, usize) {
        match self {
            Size::S8x8 => (8, 8),
            Size::S16x16 => (16, 16),
            Size::S32x32 => (32, 32),
            Size::S64x64 => (64, 64),
            Size::S16x8 => (16, 8),
            Size::S32x8 => (32, 8),
            Size::S32x16 => (32, 16),
            Size::S64x32 => (64, 32),
            Size::S8x16 => (8, 16),
            Size::S8x32 => (8, 32),
            Size::S16x32 => (16, 32),
            Size::S32x64 => (32, 64),
        }
    }

    /// Whether the hardware can draw a sprite of this width and height.
    pub open spec fn is_size(width: usize, height: usize) -> bool {
        exists|size: Size| size.spec_width_height() == (width, height)
    }

    /// The hardware's shape code: 0 square, 1 wide, 2 tall.
    pub open spec fn shape(self) -> u8 {
        let (width, height) = self.spec_width_height();
        if width == height {
            0
        } else if width > height {
            1
        } else {
            2
        }
    }

    /// The hardware's size code within the shape, 0 to 3 from the smallest
    /// up.
    pub open spec fn scale(self) -> u8 {
        match self {
            Size::S8x8 | Size::S16x8 | Size::S8x16 => 0,
            Size::S16x16 | Size::S32x8 | Size::S8x32 => 1,
            Size::S32x32 | Size::S32x16 | Size::S16x32 => 2,
            Size::S64x64 | Size::S64x32 | Size::S32x64 => 3,
        }
    }

    /// Number of 8 by 8 tiles that a sprite of this size is made of.
    pub open spec fn tiles(self) -> usize {
        match self {
            Size::S8x8 => 1,
            Size::S16x16 => 4,
            Size::S32x32 => 16,
            Size::S64x64 => 64,
            Size::S16x8 => 2,
            Size::S32x8 => 4,
            Size::S32x16 => 8,
            Size::S64x32 => 32,
            Size::S8x16 => 2,
            Size::S8x32 => 4,
            Size::S16x32 => 8,
            Size::S32x64 => 32,
        }
    }

    /// Number of 8 by 8 tiles that a sprite of this size is made of.
    #[verifier::when_used_as_spec(tiles)]
    pub fn number_of_tiles(self) -> (tiles: usize)
        ensures
            tiles == self.tiles(),
            tiles * 64 == self.spec_width_height().0 * self.spec_width_height().1,
            1 <= tiles <= 64,
    {
        match self {
            Size::S8x8 => 1,
            Size::S16x16 => 4,
            Size::S32x32 => 16,
            Size::S64x64 => 64,
            Size::S16x8 => 2,
            Size::S32x8 => 4,
            Size::S32x16 => 8,
            Size::S64x32 => 32,
            Size::S8x16 => 2,
            Size::S8x32 => 4,
            Size::S16x32 => 8,
            Size::S32x64 => 32,
        }
    }

    /// The hardware's shape and size codes.
    pub fn shape_size(self) -> (codes: (u8, u8))
        ensures
            codes.0 == self.shape(),
            codes.1 == self.scale(),
            codes.0 < 3,
            codes.1 < 4,
    {
        match self {
            Size::S8x8 => (0, 0),
            Size::S16x16 => (0, 1),
            Size::S32x32 => (0, 2),
            Size::S64x64 => (0, 3),
            Size::S16x8 => (1, 0),
            Size::S32x8 => (1, 1),
            Size::S32x16 => (1, 2),
            Size::S64x32 => (1, 3),
            Size::S8x16 => (2, 0),
            Size::S8x32 => (2, 1),
            Size::S16x32 => (2, 2),
            Size::S32x64 => (2, 3),
        }
    }

    /// The size of the given width and height, if the hardware has one.
    pub fn try_from_width_height(width: usize, height: usize) -> (size: Option<Size>)
        ensures
            size is Some == Size::is_size(width, height),
            size is Some ==> size->0.spec_width_height() == (width, height),
    {
        let size = if width == 8 && height == 8 {
            Size::S8x8
        } else if width == 16 && height == 16 {
            Size::S16x16
        } else if width == 32 && height == 32 {
            Size::S32x32
        } else if width == 64 && height == 64 {
            Size::S64x64
        } else if width == 16 && height == 8 {
            Size::S16x8
        } else if width == 32 && height == 8 {
            Size::S32x8
        } else if width == 32 && height == 16 {
            Size::S32x16
        } else if width == 64 && height == 32 {
            Size::S64x32
        } else if width == 8 && height == 16 {
            Size::S8x16
        } else if width == 8 && height == 32 {
            Size::S8x32
        } else if width == 16 && height == 32 {
            Size::S16x32
        } else if width == 32 && height == 64 {
            Size::S32x64
        } else {
            return None;
        };
        assert(size.spec_width_height() == (width, height));
        Some(size)
    }

    /// The size of the given width and height.
    pub fn from_width_height(width: usize, height: usize) -> (size: Size)
        requires
            Size::is_size(width, height),
        ensures
            size.spec_width_height() == (width, height),
    {
        Size::try_from_width_height(width, height).unwrap()
    }

    #[verifier::when_used_as_spec(spec_width_height)]
    pub fn to_width_height(self) -> (extent: (usize, usize))
        ensures
            extent == self.spec_width_height(),
    {
        match self {
            Size::S8x8 => (8, 8),
            Size::S16x16 => (16, 16),
            Size::S32x32 => (32, 32),
            Size::S64x64 => (64, 64),
            Size::S16x8 => (16, 8),
            Size::S32x8 => (32, 8),
            Size::S32x16 => (32, 16),
            Size::S64x32 => (64, 32),
            Size::S8x16 => (8, 16),
            Size::S8x32 => (8, 32),
            Size::S16x32 => (16, 32),
            Size::S32x64 => (32, 64),
        }
    }

    /// A size is known by its width and height: no two sizes share them.
    pub proof fn lemma_width_height_names_size(self, other: Size)
        requires
            self.spec_width_height() == other.spec_width_height(),
        ensures
            self == other,
    {
    }
}

/// One frame of sprite graphics: its pixel data, its size, its palette, and
/// the identity under which sprite memory deduplicates it.
pub struct Sprite<'a> {
    id: usize,
    palette: &'a Palette16,
    data: &'a [u8],
    size: Size,
}

impl<'a> Sprite<'a> {
    pub closed spec fn spec_id(&self) -> usize {
        self.id
    }

    pub closed spec fn spec_palette(&self) -> Palette16 {
        *self.palette
    }

    /// The pixel data, four bits a pixel.
    pub closed spec fn bytes(&self) -> Seq<u8> {
        self.data@
    }

    pub closed spec fn spec_size(&self) -> Size {
        self.size
    }

    /// A sprite under the identity `id`. Two sprites with one identity are
    /// taken to be the same sprite.
    pub fn new(id: usize, palette: &'a Palette16, data: &'a [u8], size: Size) -> (sprite: Self)
        ensures
            sprite.spec_id() == id,
            sprite.spec_palette() == *palette,
            sprite.bytes() == data@,
            sprite.spec_size() == size,
    {
        Self { id, palette, data, size }
    }

    /// The identity of the sprite.
    #[verifier::when_used_as_spec(spec_id)]
    pub fn id(&self) -> (id: usize)
        ensures
            id == self.spec_id(),
    {
        self.id
    }

    #[verifier::when_used_as_spec(spec_size)]
    pub fn size(&self) -> (size: Size)
        ensures
            size == self.spec_size(),
    {
        self.size
    }

    pub fn palette(&self) -> (palette: &'a Palette16)
        ensures
            *palette == self.spec_palette(),
    {
        self.palette
    }

    pub fn data(&self) -> (data: &'a [u8])
        ensures
            data@ == self.bytes(),
    {
        self.data
    }

    /// Whether the pixel data fits into the memory that a sprite of this
    /// size is given.
    pub open spec fn fits(&self) -> bool {
        self.bytes().len() <= BYTES_PER_TILE_4BPP * self.spec_size().tiles()
    }

    /// Bytes that the sprite occupies in sprite tile memory.
    pub fn layout(&self) -> (bytes: usize)
        ensures
            bytes == BYTES_PER_TILE_4BPP * self.spec_size().tiles(),
            32 <= bytes <= 2048,
    {
        self.size.number_of_tiles() * BYTES_PER_TILE_4BPP
    }
}

/// Whether two byte strings are the same.
pub fn const_byte_compare(a: &[u8], b: &[u8]) -> (same: bool)
    ensures
        same == (a@ == b@),
{
    if a.len() != b.len() {
        return false;
    }
    let mut i: usize = 0;
    while i < a.len()
        invariant
            i <= a@.len(),
            a@.len() == b@.len(),
            forall|j: int| 0 <= j < i ==> a@[j] == b@[j],
        decreases a@.len() - i,
    {
        if a[i] != b[i] {
            return false;
        }
        i += 1;
    }
    assert(a@ =~= b@);
    true
}

/// The order in which an animation goes through its frames.
#[derive(Clone, Copy, Debug, PartialEq, Eq, Structural)]
pub enum Direction {
    Forward,
    Backward,
    Pingpong,
}

impl Direction {
    pub fn from_usize(a: usize) -> (direction: Self)
        requires
            a <= 2,
        ensures
            direction == (if a == 0 {
                Direction::Forward
            } else if a == 1 {
                Direction::Backward
            } else {
                Direction::Pingpong
            }),
    {
        if a == 0 {
            Direction::Forward
        } else if a == 1 {
            Direction::Backward
        } else {
            Direction::Pingpong
        }
    }
}

/// The frame, counted within an animation of `len` frames, that is to be
/// shown at step `idx`: forwards the frames repeat, backwards they repeat in
/// reverse, and back and forth they run up to the last frame and down again
/// without showing either end twice.
pub open spec fn animation_frame(direction: Direction, len: int, idx: int) -> int {
    match direction {
        Direction::Forward => idx % len,
        Direction::Backward => len - 1 - idx % len,
        Direction::Pingpong => {
            let turn = (idx + len - 1) % ((len - 1) * 2);
            if turn >= len - 1 {
                turn - (len - 1)
            } else {
                len - 1 - turn
            }
        },
    }
}

/// A named run of consecutive frames.
pub struct Tag<'a> {
    sprites: &'a [Sprite<'a>],
    from: usize,
    len: usize,
    direction: Direction,
}

impl<'a> Tag<'a> {
    /// The frames of the animation, first to last.
    pub closed spec fn frames(&self) -> Seq<Sprite<'a>> {
        self.sprites@.subrange(self.from as int, self.from + self.len)
    }

    pub closed spec fn spec_direction(&self) -> Direction {
        self.direction
    }

    /// An animation has at least one frame, and its frames exist.
    pub closed spec fn wf(&self) -> bool {
        &&& self.len >= 1
        &&& self.from + self.len <= self.sprites@.len()
    }

    /// The animation that runs over `sprites[from..=to]`.
    pub fn new(sprites: &'a [Sprite<'a>], from: usize, to: usize, direction: usize) -> (tag: Self)
        requires
            from <= to,
            to < sprites@.len(),
            direction <= 2,
        ensures
            tag.wf(),
            tag.frames() == sprites@.subrange(from as int, to + 1),
            tag.spec_direction() == (if direction == 0 {
                Direction::Forward
            } else if direction == 1 {
                Direction::Backward
            } else {
                Direction::Pingpong
            }),
    {
        let count = sprites.len();
        assert(to < count);
        Self { sprites, from, len: to - from + 1, direction: Direction::from_usize(direction) }
    }

    /// Number of frames.
    pub fn len(&self) -> (len: usize)
        requires
            self.wf(),
        ensures
            len == self.frames().len(),
            len >= 1,
    {
        self.len
    }

    pub fn direction(&self) -> (direction: Direction)
        ensures
            direction == self.spec_direction(),
    {
        self.direction
    }

    /// The frames of the animation, first to last.
    pub fn sprites(&self) -> (frames: &'a [Sprite<'a>])
        requires
            self.wf(),
        ensures
            frames@ == self.frames(),
    {
        let count = self.sprites.len();
        assert(self.from + self.len <= count);
        slice_subrange(self.sprites, self.from, self.from + self.len)
    }

    /// The frame at place `idx` of the animation.
    pub fn sprite(&self, idx: usize) -> (frame: &'a Sprite<'a>)
        requires
            self.wf(),
            idx < self.frames().len(),
        ensures
            *frame == self.frames()[idx as int],
    {
        let count = self.sprites.len();
        assert(self.from + idx < count);
        &self.sprites[self.from + idx]
    }

    /// Whether `animation_sprite` can say what to show at step `idx`: an
    /// animation that goes back and forth needs two frames, and the step
    /// must leave room to count on.
    pub open spec fn can_animate(&self, idx: usize) -> bool {
        self.spec_direction() == Direction::Pingpong ==> {
            &&& self.frames().len() >= 2
            &&& idx + self.frames().len() - 1 <= usize::MAX
            &&& 2 * (self.frames().len() - 1) <= usize::MAX
        }
    }

    /// The frame to be shown at step `idx` of the animation.
    pub fn animation_sprite(&self, idx: usize) -> (frame: &'a Sprite<'a>)
        requires
            self.wf(),
            self.can_animate(idx),
        ensures
            0 <= animation_frame(self.spec_direction(), self.frames().len() as int, idx as int)
                < self.frames().len(),
            *frame == self.frames()[animation_frame(
                self.spec_direction(),
                self.frames().len() as int,
                idx as int,
            )],
    {
        let len_sub_1 = self.len - 1;
        match self.direction {
            Direction::Forward => self.sprite(idx % self.len),
            Direction::Backward => self.sprite(len_sub_1 - (idx % self.len)),
            Direction::Pingpong => {
                let turn = (idx + len_sub_1) % (len_sub_1 * 2);
                if turn >= len_sub_1 {
                    self.sprite(turn - len_sub_1)
                } else {
                    self.sprite(len_sub_1 - turn)
                }
            },
        }
    }
}

/// The frame shown at any step is one of the animation's frames, and an
/// animation that goes back and forth repeats after twice its length less
/// two.
pub proof fn lemma_animation_frame(direction: Direction, len: int, idx: int)
    requires
        len >= 1,
        idx >= 0,
        direction == Direction::Pingpong ==> len >= 2,
    ensures
        0 <= animation_frame(direction, len, idx) < len,
        direction == Direction::Forward ==> animation_frame(direction, len, idx + len)
            == animation_frame(direction, len, idx),
        direction == Direction::Backward ==> animation_frame(direction, len, idx + len)
            == animation_frame(direction, len, idx),
        direction == Direction::Pingpong ==> animation_frame(direction, len, idx + 2 * (len - 1))
            == animation_frame(direction, len, idx),
        animation_frame(direction, len, 0) == (if direction == Direction::Backward {
            len - 1
        } else {
            0
        }),
{
    vstd::arithmetic::div_mod::lemma_mod_bound(idx, len);
    vstd::arithmetic::div_mod::lemma_mod_add_multiples_vanish(idx, len);
    vstd::arithmetic::div_mod::lemma_small_mod(0, len as nat);
    if direction == Direction::Pingpong {
        let period = (len - 1) * 2;
        vstd::arithmetic::div_mod::lemma_mod_bound(idx + len - 1, period);
        vstd::arithmetic::div_mod::lemma_mod_add_multiples_vanish(idx + len - 1, period);
        vstd::arithmetic::div_mod::lemma_small_mod((len - 1) as nat, period as nat);
    }
}

/// The animations of a set of sprite graphics, by name.
pub struct TagMap<'a> {
    tags: &'a [(&'a str, Tag<'a>)],
}

/// The place of the first of `tags` named `name`, or the number of tags if
/// none is.
pub open spec fn first_named(tags: Seq<(&str, Tag<'_>)>, name: Seq<u8>) -> int
    decreases tags.len(),
{
    if tags.len() == 0 {
        0
    } else if tags[0].0.spec_bytes() == name {
        0
    } else {
        1 + first_named(tags.drop_first(), name)
    }
}

impl<'a> TagMap<'a> {
    /// The named animations, in the order in which they are searched.
    pub closed spec fn entries(&self) -> Seq<(&'a str, Tag<'a>)> {
        self.tags@
    }

    pub fn new(tags: &'a [(&'a str, Tag<'a>)]) -> (map: Self)
        ensures
            map.entries() == tags@,
    {
        Self { tags }
    }

    /// The first animation named `tag`, if there is one.
    pub fn try_get(&self, tag: &str) -> (found: Option<&'a Tag<'a>>)
        ensures
            first_named(self.entries(), tag.spec_bytes()) <= self.entries().len(),
            found is Some == (first_named(self.entries(), tag.spec_bytes())
                < self.entries().len()),
            found is Some ==> *found->0 == self.entries()[first_named(
                self.entries(),
                tag.spec_bytes(),
            )].1,
    {
        let mut i: usize = 0;
        assert(self.entries().skip(0) =~= self.entries());
        while i < self.tags.len()
            invariant
                i <= self.entries().len(),
                self.entries() == self.tags@,
                first_named(self.entries(), tag.spec_bytes()) == i + first_named(
                    self.entries().skip(i as int),
                    tag.spec_bytes(),
                ),
            decreases self.entries().len() - i,
        {
            let s = self.tags[i].0;
            proof {
                let rest = self.entries().skip(i as int);
                assert(rest[0] == self.entries()[i as int]);
                assert(rest.drop_first() =~= self.entries().skip(i + 1));
            }
            if const_byte_compare(s.as_bytes(), tag.as_bytes()) {
                return Some(&self.tags[i].1);
            }
            i += 1;
        }
        assert(self.entries().skip(i as int).len() == 0);
        None
    }

    /// Whether an animation is named `tag`.
    pub open spec fn has(&self, tag: &str) -> bool {
        first_named(self.entries(), tag.spec_bytes()) < self.entries().len()
    }

    /// The first animation named `tag`.
    pub fn get(&self, tag: &str) -> (found: &'a Tag<'a>)
        requires
            self.has(tag),
        ensures
            *found == self.entries()[first_named(self.entries(), tag.spec_bytes())].1,
    {
        let i = self.position(tag);
        &self.tags[i].1
    }

    /// The place of the first animation named `tag`, or the number of
    /// animations if none is.
    pub fn position(&self, tag: &str) -> (place: usize)
        ensures
            place == first_named(self.entries(), tag.spec_bytes()),
            place <= self.entries().len(),
    {
        let mut i: usize = 0;
        assert(self.entries().skip(0) =~= self.entries());
        while i < self.tags.len()
            invariant
                i <= self.entries().len(),
                self.entries() == self.tags@,
                first_named(self.entries(), tag.spec_bytes()) == i + first_named(
                    self.entries().skip(i as int),
                    tag.spec_bytes(),
                ),
            decreases self.entries().len() - i,
        {
            let s = self.tags[i].0;
            proof {
                let rest = self.entries().skip(i as int);
                assert(rest[0] == self.entries()[i as int]);
                assert(rest.drop_first() =~= self.entries().skip(i + 1));
            }
            if const_byte_compare(s.as_bytes(), tag.as_bytes()) {
                return i;
            }
            i += 1;
        }
        assert(self.entries().skip(i as int).len() == 0);
        i
    }

    /// All animations, in the order in which they are searched.
    pub fn values(&self) -> (all: Vec<&'a Tag<'a>>)
        ensures
            all@.len() == self.entries().len(),
            forall|i: int| 0 <= i < all@.len() ==> *all@[i] == self.entries()[i].1,
    {
        let mut all: Vec<&'a Tag<'a>> = Vec::new();
        let mut i: usize = 0;
        while i < self.tags.len()
            invariant
                i <= self.entries().len(),
                self.entries() == self.tags@,
                all@.len() == i,
                forall|j: int| 0 <= j < i ==> *all@[j] == self.entries()[j].1,
            decreases self.entries().len() - i,
        {
            all.push(&self.tags[i].1);
            i += 1;
        }
        all
    }
}

/// A set of sprite graphics: the frames, and the animations over them.
pub struct Graphics<'a> {
    sprites: &'a [Sprite<'a>],
    tag_map: &'a TagMap<'a>,
}

impl<'a> Graphics<'a> {
    pub closed spec fn frames(&self) -> Seq<Sprite<'a>> {
        self.sprites@
    }

    pub closed spec fn animations(&self) -> TagMap<'a> {
        *self.tag_map
    }

    pub fn new(sprites: &'a [Sprite<'a>], tag_map: &'a TagMap<'a>) -> (graphics: Self)
        ensures
            graphics.frames() == sprites@,
            graphics.animations() == *tag_map,
    {
        Self { sprites, tag_map }
    }

    pub fn tags(&self) -> (tags: &'a TagMap<'a>)
        ensures
            *tags == self.animations(),
    {
        self.tag_map
    }

    pub fn sprites(&self) -> (sprites: &'a [Sprite<'a>])
        ensures
            sprites@ == self.frames(),
    {
        self.sprites
    }
}

} // verus!
