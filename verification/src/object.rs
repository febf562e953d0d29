//! The shadow of the hardware object attribute table: 128 rows that objects
//! are drawn from, changed in memory and sent to the hardware in one pass,
//! in the order of the objects' depth.

use vstd::prelude::*;
use crate::attributes::{
    Attribute0View,
    Attribute1AffineView,
    Attribute1StandardView,
    Attribute2View,
    Attributes,
    ObjectMode,
    HIDDEN_VALUE,
    attribute_address,
};
use crate::geometry::{Vector2D, wrap};
use crate::hardware::{Priority, Store, OBJECT_ATTRIBUTE_MEMORY};
use crate::sprite::Sprite;
use crate::sprite_controller::{SpriteBorrow, SpriteCacheView, SpriteControllerInner};
use crate::sprite_controller::{PALETTE_BLOCKS, SPRITE_BLOCKS};

verus! {

/// Rows in the object attribute table.
pub const OBJECTS: usize = 128;

/// Transformation matrices that the hardware has.
pub const AFFINE_MATRICES: u8 = 32;

/// What the shadow table holds for an object: its attributes and its depth.
/// Objects of lesser depth are sent to earlier rows of the hardware table.
#[derive(Clone, Copy, Debug, PartialEq, Eq, Structural)]
pub struct ObjectInner {
    pub attrs: Attributes,
    pub z: i32,
}

/// The depth by which a row is ordered: that of its object, and the
/// greatest depth there is for a row without one.
pub open spec fn row_key(rows: Seq<Option<ObjectInner>>, row: u8) -> int {
    match rows[row as int] {
        Some(object) => object.z as int,
        None => i32::MAX as int,
    }
}

/// Whether `after` is `before` sorted by depth: the same rows, each once,
/// in ascending order of depth, and rows of equal depth in the order in
/// which `before` has them.
pub open spec fn z_sorted(before: Seq<u8>, after: Seq<u8>, rows: Seq<Option<ObjectInner>>) -> bool {
    &&& after.len() == before.len()
    &&& after.no_duplicates()
    &&& forall|row: u8| after.contains(row) == before.contains(row)
    &&& forall|i: int, j: int|
        0 <= i < j < after.len() ==> row_key(rows, after[i]) <= row_key(rows, after[j])
    &&& forall|i: int, j: int, a: int, b: int|
        0 <= i < j < before.len() && row_key(rows, before[i]) == row_key(rows, before[j]) && 0
            <= a < after.len() && 0 <= b < after.len() && after[a] == before[i] && after[b]
            == before[j] ==> a < b
}

/// Whether row `x` has to come before row `y` when `before` is sorted by
/// depth: it is of lesser depth, or of the same depth and earlier in
/// `before`.
pub open spec fn precedes(before: Seq<u8>, rows: Seq<Option<ObjectInner>>, x: u8, y: u8) -> bool {
    ||| row_key(rows, x) < row_key(rows, y)
    ||| row_key(rows, x) == row_key(rows, y) && exists|p: int, q: int|
        0 <= p < q < before.len() && before[p] == x && before[q] == y
}

/// In a sorted order, an earlier row precedes a later one.
proof fn lemma_sorted_precedes(
    before: Seq<u8>,
    after: Seq<u8>,
    rows: Seq<Option<ObjectInner>>,
    i: int,
    j: int,
)
    requires
        z_sorted(before, after, rows),
        0 <= i < j < after.len(),
    ensures
        precedes(before, rows, after[i], after[j]),
{
    if row_key(rows, after[i]) == row_key(rows, after[j]) {
        assert(after.contains(after[i]));
        assert(after.contains(after[j]));
        assert(before.contains(after[i]));
        assert(before.contains(after[j]));
        let p = choose|p: int| 0 <= p < before.len() && before[p] == after[i];
        let q = choose|q: int| 0 <= q < before.len() && before[q] == after[j];
        if q < p {
            assert(j < i);
        }
        assert(p != q);
    }
}

/// Sorting by depth has one outcome: two orders that are both `before`
/// sorted by depth agree up to any rank.
proof fn lemma_sorted_agree(
    before: Seq<u8>,
    first: Seq<u8>,
    second: Seq<u8>,
    rows: Seq<Option<ObjectInner>>,
    n: int,
)
    requires
        before.no_duplicates(),
        z_sorted(before, first, rows),
        z_sorted(before, second, rows),
        0 <= n <= before.len(),
    ensures
        forall|i: int| 0 <= i < n ==> first[i] == second[i],
    decreases n,
{
    if n > 0 {
        lemma_sorted_agree(before, first, second, rows, n - 1);
        let i = n - 1;
        let x = first[i];
        let y = second[i];
        assert(first.contains(x));
        assert(before.contains(x));
        assert(second.contains(x));
        assert(second.contains(y));
        assert(before.contains(y));
        assert(first.contains(y));
        let j = choose|j: int| 0 <= j < second.len() && second[j] == x;
        let k = choose|k: int| 0 <= k < first.len() && first[k] == y;
        if j < i {
            assert(first[j] == second[j]);
        }
        if k < i {
            assert(second[k] == first[k]);
        }
        if j > i && k > i {
            lemma_sorted_precedes(before, second, rows, i, j);
            lemma_sorted_precedes(before, first, rows, i, k);
            assert(precedes(before, rows, y, x));
            assert(precedes(before, rows, x, y));
        }
    }
}

/// Sorting by depth has one outcome.
pub proof fn lemma_z_sorted_unique(
    before: Seq<u8>,
    first: Seq<u8>,
    second: Seq<u8>,
    rows: Seq<Option<ObjectInner>>,
)
    requires
        before.no_duplicates(),
        z_sorted(before, first, rows),
        z_sorted(before, second, rows),
    ensures
        first == second,
{
    lemma_sorted_agree(before, first, second, rows, before.len() as int);
    assert(first =~= second);
}

/// The depth by which row `row` is ordered.
fn key_of(shadow_oam: &Vec<Option<ObjectInner>>, row: u8) -> (key: i32)
    requires
        row < shadow_oam@.len(),
    ensures
        key == row_key(shadow_oam@, row),
{
    match &shadow_oam[row as usize] {
        Some(object) => object.z,
        None => i32::MAX,
    }
}

/// `slice::sort_by_key`, with the depth of a row as its key. The sort is the
/// standard library's and is not verified here; it is documented as a stable
/// sort, so `z_order` is believed to come out as the same rows in ascending
/// order of depth, with rows of equal depth in the order in which they went
/// in.
#[verifier::external_body]
fn sort_by_z(z_order: &mut Vec<u8>, shadow_oam: &Vec<Option<ObjectInner>>)
    requires
        old(z_order)@.no_duplicates(),
        forall|i: int| 0 <= i < old(z_order)@.len() ==> old(z_order)@[i] < shadow_oam@.len(),
    ensures
        z_sorted(old(z_order)@, final(z_order)@, shadow_oam@),
{
    z_order.sort_by_key(|&row| key_of(shadow_oam, row));
}

/// A row of the object attribute table on loan.
pub struct Loan {
    index: u8,
}

/// A hardware object: a row of the object attribute table, and the sprite
/// drawn from it. The object lives until it is handed back to
/// `ObjectController::release_object`.
pub struct Object {
    sprite: SpriteBorrow,
    previous_sprite: SpriteBorrow,
    loan: Loan,
}

impl Object {
    /// The row of the object attribute table that the object is drawn from.
    pub closed spec fn row(&self) -> u8 {
        self.loan.index
    }

    /// The sprite that the object shows.
    pub closed spec fn shown(&self) -> SpriteBorrow {
        self.sprite
    }

    /// The sprite that the object showed before, kept in memory until the
    /// next change of sprite.
    pub closed spec fn kept(&self) -> SpriteBorrow {
        self.previous_sprite
    }

    /// The row of the object attribute table that the object is drawn from.
    pub fn index(&self) -> (row: u8)
        ensures
            row == self.row(),
    {
        self.loan.index
    }
}

/// The shadow of the object attribute table, and the sprite memory that
/// its objects draw from.
pub struct ObjectController {
    free_affine_matricies: Vec<u8>,
    free_object: Vec<u8>,
    shadow_oam: Vec<Option<ObjectInner>>,
    z_order: Vec<u8>,
    sprite_controller: SpriteControllerInner,
}

/// The stores that send the row at rank `rank` of the order: the attributes
/// of its object, or the hidden pattern if it has none.
pub open spec fn rank_stores(rows: Seq<Option<ObjectInner>>, order: Seq<u8>, rank: int) -> Seq<
    Store<u16>,
> {
    match rows[order[rank] as int] {
        Some(object) => object.attrs.commit_stores(rank),
        None => seq![Store { address: attribute_address(rank, 0), value: HIDDEN_VALUE }],
    }
}

/// The stores that send the first `n` ranks of the order.
pub open spec fn stores_upto(rows: Seq<Option<ObjectInner>>, order: Seq<u8>, n: int) -> Seq<
    Store<u16>,
>
    decreases n,
{
    if n <= 0 {
        Seq::empty()
    } else {
        stores_upto(rows, order, n - 1) + rank_stores(rows, order, n - 1)
    }
}

/// The stores that hide the first `n` rows of the hardware table.
pub open spec fn blank_stores(n: int) -> Seq<Store<u16>> {
    Seq::new(n as nat, |i: int| Store { address: attribute_address(i, 0), value: HIDDEN_VALUE })
}

/// Whether `attrs` are `before` changed to draw a sprite that lies at block
/// `tile` with its palette in bank `bank`, in the shape and size given.
pub open spec fn draws_sprite(
    attrs: Attributes,
    before: Attributes,
    tile: u16,
    bank: u16,
    shape: u8,
    scale: u8,
) -> bool {
    &&& attrs.a2@ == (Attribute2View {
        tile_index: tile as int,
        palette_bank: bank as int,
        ..before.a2@
    })
    &&& attrs.a0@ == (Attribute0View { shape: shape as int, ..before.a0@ })
    &&& attrs.a1a@ == (Attribute1AffineView { size: scale as int, ..before.a1a@ })
    &&& attrs.a1s@ == (Attribute1StandardView { size: scale as int, ..before.a1s@ })
}

/// Sets `attrs` to draw the sprite behind `sprite`.
fn draw_sprite(attrs: &mut Attributes, sprite: &SpriteBorrow)
    requires
        sprite.wf(),
    ensures
        draws_sprite(
            *final(attrs),
            *old(attrs),
            sprite.tile(),
            sprite.bank(),
            sprite.spec_size().shape(),
            sprite.spec_size().scale(),
        ),
{
    attrs.a2.set_tile_index(sprite.sprite_location());
    let shape_size = sprite.size().shape_size();
    attrs.a2.set_palete_bank(sprite.palette_location() as u8);
    attrs.a0.set_shape(shape_size.0);
    attrs.a1a.set_size(shape_size.1);
    attrs.a1s.set_size(shape_size.1);
}

impl ObjectController {
    /// Row by row, the object drawn from it, if any.
    pub closed spec fn rows(&self) -> Seq<Option<ObjectInner>> {
        self.shadow_oam@
    }

    /// The rows in the order in which they are sent to the hardware.
    pub closed spec fn order(&self) -> Seq<u8> {
        self.z_order@
    }

    /// The rows without an object; the last is the next to be lent out.
    pub closed spec fn free_rows(&self) -> Seq<u8> {
        self.free_object@
    }

    /// The sprite and palette cache.
    pub closed spec fn sprites(&self) -> SpriteControllerInner {
        self.sprite_controller
    }

    /// Whether row `row` has an object.
    pub open spec fn is_live(&self, row: u8) -> bool {
        row < OBJECTS && self.rows()[row as int] is Some
    }

    /// There are 128 rows; the order names each row once; the free rows are
    /// exactly the rows without an object; the objects come in ascending depth
    /// in the order; and the sprite cache is well formed.
    pub closed spec fn wf(&self) -> bool {
        &&& self.shadow_oam@.len() == OBJECTS
        &&& self.z_order@.len() == OBJECTS
        &&& self.z_order@.no_duplicates()
        &&& forall|i: int| 0 <= i < OBJECTS ==> #[trigger] self.z_order@[i] < OBJECTS
        &&& forall|row: u8| row < OBJECTS ==> #[trigger] self.z_order@.contains(row)
        &&& self.free_object@.no_duplicates()
        &&& forall|i: int|
            0 <= i < self.free_object@.len() ==> #[trigger] self.free_object@[i] < OBJECTS
                && self.shadow_oam@[self.free_object@[i] as int] is None
        &&& forall|row: u8|
            row < OBJECTS && (#[trigger] self.shadow_oam@[row as int]) is None
                ==> self.free_object@.contains(row)
        &&& forall|i: int, j: int|
            0 <= i < j < OBJECTS && self.shadow_oam@[self.z_order@[i] as int] is Some
                && self.shadow_oam@[self.z_order@[j] as int] is Some ==> row_key(
                self.shadow_oam@,
                self.z_order@[i],
            ) <= row_key(self.shadow_oam@, self.z_order@[j])
        &&& self.sprite_controller.wf()
    }

    /// What a well-formed controller shows of itself: 128 rows, an order
    /// that names each row once, in which the objects come in ascending
    /// depth, and free rows that are exactly the rows without an object.
    pub proof fn lemma_wf(&self)
        requires
            self.wf(),
        ensures
            self.rows().len() == OBJECTS,
            self.order().len() == OBJECTS,
            self.order().no_duplicates(),
            forall|i: int| 0 <= i < OBJECTS ==> #[trigger] self.order()[i] < OBJECTS,
            forall|row: u8| row < OBJECTS ==> #[trigger] self.order().contains(row),
            forall|i: int, j: int|
                0 <= i < j < OBJECTS && self.is_live(self.order()[i]) && self.is_live(
                    self.order()[j],
                ) ==> row_key(self.rows(), self.order()[i]) <= row_key(
                    self.rows(),
                    self.order()[j],
                ),
            forall|row: u8| row < OBJECTS ==> self.free_rows().contains(row) == !self.is_live(row),
            self.free_rows().no_duplicates(),
            self.sprites().wf(),
    {
        assert forall|row: u8| row < OBJECTS implies self.free_rows().contains(row)
            == !self.is_live(row) by {
            if self.free_rows().contains(row) {
                let i = choose|i: int|
                    0 <= i < self.free_object@.len() && self.free_object@[i] == row;
                assert(self.shadow_oam@[self.free_object@[i] as int] is None);
            }
        }
    }

    /// Whatever the table holds, `commit` sends a row without an object as
    /// the hidden pattern and nothing else, a row with an object as that
    /// object's attributes, each to the hardware row of its rank, and the
    /// objects in ascending order of depth.
    pub proof fn lemma_commit_by_depth(&self, rank: int, later: int)
        requires
            self.wf(),
            0 <= rank <= later < OBJECTS,
        ensures
            self.order()[rank] < OBJECTS,
            !self.is_live(self.order()[rank]) ==> rank_stores(self.rows(), self.order(), rank)
                == seq![Store { address: attribute_address(rank, 0), value: HIDDEN_VALUE }],
            self.is_live(self.order()[rank]) ==> rank_stores(self.rows(), self.order(), rank)
                == self.rows()[self.order()[rank] as int]->0.attrs.commit_stores(rank),
            self.is_live(self.order()[rank]) && self.is_live(self.order()[later]) ==> self.rows()[self.order()[rank] as int]->0.z
                <= self.rows()[self.order()[later] as int]->0.z,
            stores_upto(self.rows(), self.order(), rank + 1) == stores_upto(
                self.rows(),
                self.order(),
                rank,
            ) + rank_stores(self.rows(), self.order(), rank),
    {
        self.lemma_wf();
        assert(self.z_order@[rank] < OBJECTS);
        assert(self.z_order@[later] < OBJECTS);
    }

    /// Whether row `row` has an object.
    pub fn has_object(&self, row: u8) -> (live: bool)
        requires
            self.wf(),
        ensures
            live == self.is_live(row),
    {
        (row as usize) < OBJECTS && self.shadow_oam[row as usize].is_some()
    }

    /// Number of rows without an object.
    pub fn free_objects(&self) -> (free: usize)
        ensures
            free == self.free_rows().len(),
    {
        self.free_object.len()
    }

    /// The depth of the object in row `row`.
    pub fn depth(&self, row: u8) -> (z: i32)
        requires
            self.wf(),
            self.is_live(row),
        ensures
            z == self.rows()[row as int]->0.z,
    {
        self.object_inner(row).z
    }

    /// The rank of row `row` in the order in which rows are sent.
    pub fn rank_of(&self, row: u8) -> (rank: usize)
        requires
            self.wf(),
            row < OBJECTS,
        ensures
            rank < OBJECTS,
            self.order()[rank as int] == row,
    {
        let ghost place = choose|i: int| 0 <= i < self.z_order@.len() && self.z_order@[i] == row;
        proof {
            assert(self.z_order@.contains(row));
        }
        let mut rank: usize = 0;
        while self.z_order[rank] != row
            invariant
                rank <= place < OBJECTS,
                self.wf(),
                self.z_order@[place] == row,
            decreases OBJECTS - rank,
        {
            rank += 1;
        }
        rank
    }

    /// Whether an object can be had for `sprite`.
    pub fn check_can_get_object(&self, sprite: &SpriteBorrow) -> (can: bool)
        requires
            self.wf(),
        ensures
            can == self.can_get_object(sprite),
    {
        self.free_object.len() > 0 && self.sprite_controller.check_can_duplicate(sprite)
    }

    /// The value that display control is to hold for objects to be drawn:
    /// `mode` with one-dimensional sprite mapping and the object layer
    /// switched on, and forced blanking switched off.
    pub fn display_control(mode: u16) -> (new_mode: u16)
        ensures
            new_mode == (mode | 0x1040) & !0x0080u16,
    {
        (mode | 0x1040) & !0x0080u16
    }

    /// The stores that hide all 128 rows of the hardware table.
    pub fn blank_table() -> (stores: Vec<Store<u16>>)
        ensures
            stores@ == blank_stores(OBJECTS as int),
    {
        let mut stores = Vec::new();
        let mut i: usize = 0;
        while i < OBJECTS
            invariant
                i <= OBJECTS,
                stores@ == blank_stores(i as int),
            decreases OBJECTS - i,
        {
            stores.push(
                Store { address: OBJECT_ATTRIBUTE_MEMORY + 2 * (i * 4), value: HIDDEN_VALUE },
            );
            assert(stores@ =~= blank_stores(i + 1));
            i += 1;
        }
        stores
    }

    /// A controller with no objects and nothing in sprite memory. All rows
    /// are free, row 127 the next to be lent out.
    pub fn new() -> (controller: Self)
        ensures
            controller.wf(),
            controller.rows() == Seq::new(OBJECTS as nat, |i: int| None::<ObjectInner>),
            controller.order() == Seq::new(OBJECTS as nat, |i: int| i as u8),
            controller.free_rows() == Seq::new(OBJECTS as nat, |i: int| i as u8),
            controller.sprites().wf(),
            controller.sprites()@.sprites == Map::<usize, (u16, u16)>::empty(),
            controller.sprites()@.palettes == Map::<usize, (u16, u16)>::empty(),
            controller.sprites()@.tile_memory == Seq::new(SPRITE_BLOCKS as nat, |j: int| false),
            controller.sprites()@.palette_memory == Seq::new(
                PALETTE_BLOCKS as nat,
                |j: int| false,
            ),
            controller.sprites().pending() == Seq::<Store<u16>>::empty(),
    {
        let mut shadow_oam: Vec<Option<ObjectInner>> = Vec::new();
        let mut z_order: Vec<u8> = Vec::new();
        let mut free_object: Vec<u8> = Vec::new();
        let mut free_affine_matricies: Vec<u8> = Vec::new();
        let mut i: u8 = 0;
        while i < 128
            invariant
                i <= 128,
                shadow_oam@ == Seq::new(i as nat, |k: int| None::<ObjectInner>),
                z_order@ == Seq::new(i as nat, |k: int| k as u8),
                free_object@ == Seq::new(i as nat, |k: int| k as u8),
            decreases 128 - i,
        {
            shadow_oam.push(None);
            z_order.push(i);
            free_object.push(i);
            assert(shadow_oam@ =~= Seq::new((i + 1) as nat, |k: int| None::<ObjectInner>));
            assert(z_order@ =~= Seq::new((i + 1) as nat, |k: int| k as u8));
            assert(free_object@ =~= Seq::new((i + 1) as nat, |k: int| k as u8));
            i += 1;
        }
        let mut m: u8 = 0;
        while m < AFFINE_MATRICES
            invariant
                m <= AFFINE_MATRICES,
            decreases AFFINE_MATRICES - m,
        {
            free_affine_matricies.push(m);
            m += 1;
        }
        let controller = Self {
            free_affine_matricies,
            free_object,
            shadow_oam,
            z_order,
            sprite_controller: SpriteControllerInner::new(),
        };
        proof {
            assert forall|row: u8|
                row < OBJECTS && (#[trigger] controller.shadow_oam@[row as int]) is None implies controller.free_object@.contains(
                row,
            ) by {
                assert(controller.free_object@[row as int] == row);
            }
            assert forall|row: u8| row < OBJECTS implies #[trigger] controller.z_order@.contains(
                row,
            ) by {
                assert(controller.z_order@[row as int] == row);
            }
        }
        controller
    }

    /// The stores that send the whole table to the hardware: rank by rank
    /// of the order, the attributes of the row's object, or the hidden
    /// pattern for a row without one.
    pub open spec fn commit_stores(&self) -> Seq<Store<u16>> {
        stores_upto(self.rows(), self.order(), OBJECTS as int)
    }

    /// Sends the whole table to the hardware in one pass.
    pub fn commit(&self) -> (stores: Vec<Store<u16>>)
        requires
            self.wf(),
        ensures
            stores@ == self.commit_stores(),
    {
        let mut stores = Vec::new();
        let mut i: usize = 0;
        while i < OBJECTS
            invariant
                i <= OBJECTS,
                self.wf(),
                stores@ == stores_upto(self.rows(), self.order(), i as int),
            decreases OBJECTS - i,
        {
            let z = self.z_order[i];
            assert(self.z_order@[i as int] < OBJECTS);
            match &self.shadow_oam[z as usize] {
                Some(o) => {
                    o.attrs.commit(i, &mut stores);
                },
                None => {
                    stores.push(
                        Store {
                            address: OBJECT_ATTRIBUTE_MEMORY + 2 * (i * 4),
                            value: HIDDEN_VALUE,
                        },
                    );
                    assert(stores@ =~= stores_upto(self.rows(), self.order(), i as int)
                        + rank_stores(self.rows(), self.order(), i as int));
                },
            }
            i += 1;
        }
        stores
    }

    /// Whether the controllers differ at most in row `row`: every other
    /// row, the order, the free rows and the sprite cache are the same.
    pub open spec fn same_but_row(&self, before: &Self, row: u8) -> bool {
        &&& self.rows().len() == before.rows().len()
        &&& forall|other: int|
            0 <= other < self.rows().len() && other != row ==> self.rows()[other]
                == before.rows()[other]
        &&& self.order() == before.order()
        &&& self.free_rows() == before.free_rows()
        &&& self.sprites() == before.sprites()
    }

    /// Borrows a sprite from the cache.
    pub fn try_get_sprite(&mut self, sprite: &Sprite<'_>) -> (borrow: Option<SpriteBorrow>)
        requires
            old(self).wf(),
            sprite.fits(),
        ensures
            final(self).wf(),
            final(self).rows() == old(self).rows(),
            final(self).order() == old(self).order(),
            final(self).free_rows() == old(self).free_rows(),
            final(self).sprites()@ == old(self).sprites()@.acquire_sprite(
                sprite.spec_id(),
                sprite.spec_size().tiles() as int,
                sprite.bytes(),
                sprite.spec_palette().spec_id(),
                sprite.spec_palette().colour_seq(),
            ).view,
            final(self).sprites().pending() == old(self).sprites().pending() + old(self).sprites()@.acquire_sprite(
                sprite.spec_id(),
                sprite.spec_size().tiles() as int,
                sprite.bytes(),
                sprite.spec_palette().spec_id(),
                sprite.spec_palette().colour_seq(),
            ).uploads,
            borrow is Some == old(self).sprites()@.acquire_sprite(
                sprite.spec_id(),
                sprite.spec_size().tiles() as int,
                sprite.bytes(),
                sprite.spec_palette().spec_id(),
                sprite.spec_palette().colour_seq(),
            ).locations is Some,
            borrow is Some ==> {
                let found = old(self).sprites()@.acquire_sprite(
                    sprite.spec_id(),
                    sprite.spec_size().tiles() as int,
                    sprite.bytes(),
                    sprite.spec_palette().spec_id(),
                    sprite.spec_palette().colour_seq(),
                ).locations->0;
                &&& borrow->0.wf()
                &&& borrow->0.sprite_id() == sprite.spec_id()
                &&& borrow->0.palette_id() == sprite.spec_palette().spec_id()
                &&& borrow->0.spec_size() == sprite.spec_size()
                &&& borrow->0.tile() == found.0
                &&& borrow->0.bank() == found.1
            },
    {
        self.sprite_controller.try_get_sprite(sprite)
    }

    /// Borrows a sprite from the cache, where that is known to succeed.
    pub fn sprite(&mut self, sprite: &Sprite<'_>) -> (borrow: SpriteBorrow)
        requires
            old(self).wf(),
            sprite.fits(),
            old(self).sprites()@.acquire_sprite(
                sprite.spec_id(),
                sprite.spec_size().tiles() as int,
                sprite.bytes(),
                sprite.spec_palette().spec_id(),
                sprite.spec_palette().colour_seq(),
            ).locations is Some,
        ensures
            final(self).wf(),
            final(self).rows() == old(self).rows(),
            final(self).order() == old(self).order(),
            final(self).free_rows() == old(self).free_rows(),
            final(self).sprites()@ == old(self).sprites()@.acquire_sprite(
                sprite.spec_id(),
                sprite.spec_size().tiles() as int,
                sprite.bytes(),
                sprite.spec_palette().spec_id(),
                sprite.spec_palette().colour_seq(),
            ).view,
            borrow.wf(),
            borrow.sprite_id() == sprite.spec_id(),
            borrow.palette_id() == sprite.spec_palette().spec_id(),
            borrow.spec_size() == sprite.spec_size(),
            ({
                let found = old(self).sprites()@.acquire_sprite(
                    sprite.spec_id(),
                    sprite.spec_size().tiles() as int,
                    sprite.bytes(),
                    sprite.spec_palette().spec_id(),
                    sprite.spec_palette().colour_seq(),
                ).locations->0;
                borrow.tile() == found.0 && borrow.bank() == found.1
            }),
            final(self).sprites().pending() == old(self).sprites().pending() + old(self).sprites()@.acquire_sprite(
                sprite.spec_id(),
                sprite.spec_size().tiles() as int,
                sprite.bytes(),
                sprite.spec_palette().spec_id(),
                sprite.spec_palette().colour_seq(),
            ).uploads,
    {
        self.try_get_sprite(sprite).unwrap()
    }

    /// Doubles a borrow of a sprite: the sprite and its palette are each
    /// counted once more. Hands back nothing, and changes nothing, if either
    /// is not in memory or its count is full.
    pub fn clone_sprite(&mut self, borrow: &SpriteBorrow) -> (copy: Option<SpriteBorrow>)
        requires
            old(self).wf(),
        ensures
            final(self).wf(),
            final(self).rows() == old(self).rows(),
            final(self).order() == old(self).order(),
            final(self).free_rows() == old(self).free_rows(),
            final(self).sprites().pending() == old(self).sprites().pending(),
            copy is Some == old(self).sprites()@.can_duplicate(
                borrow.sprite_id(),
                borrow.palette_id(),
            ),
            final(self).sprites()@ == (if copy is Some {
                old(self).sprites()@.duplicate(borrow.sprite_id(), borrow.palette_id())
            } else {
                old(self).sprites()@
            }),
            copy is Some ==> {
                &&& copy->0.wf() == borrow.wf()
                &&& copy->0.sprite_id() == borrow.sprite_id()
                &&& copy->0.palette_id() == borrow.palette_id()
                &&& copy->0.spec_size() == borrow.spec_size()
                &&& copy->0.tile() == borrow.tile()
                &&& copy->0.bank() == borrow.bank()
            },
    {
        self.sprite_controller.clone_borrow(borrow)
    }

    /// Gives back a borrow of a sprite that no object shows.
    pub fn return_sprite(&mut self, borrow: SpriteBorrow)
        requires
            old(self).wf(),
        ensures
            final(self).wf(),
            final(self).rows() == old(self).rows(),
            final(self).order() == old(self).order(),
            final(self).free_rows() == old(self).free_rows(),
            final(self).sprites().pending() == old(self).sprites().pending(),
            final(self).sprites()@ == old(self).sprites()@.release_sprite(
                borrow.sprite_id(),
                borrow.spec_size().tiles() as int,
                borrow.palette_id(),
            ),
    {
        self.sprite_controller.return_sprite(borrow);
    }

    /// Hands over the pending stores into sprite memory, oldest first.
    pub fn take_uploads(&mut self) -> (stores: Vec<Store<u16>>)
        requires
            old(self).wf(),
        ensures
            final(self).wf(),
            stores@ == old(self).sprites().pending(),
            final(self).sprites().pending() == Seq::<Store<u16>>::empty(),
            final(self).sprites()@ == old(self).sprites()@,
            final(self).rows() == old(self).rows(),
            final(self).order() == old(self).order(),
            final(self).free_rows() == old(self).free_rows(),
    {
        self.sprite_controller.take_uploads()
    }

    /// Whether an object can be had for `sprite`: a row is free, and the
    /// borrow can be doubled, for the object keeps two.
    pub open spec fn can_get_object(&self, sprite: &SpriteBorrow) -> bool {
        &&& self.free_rows().len() > 0
        &&& self.sprites()@.can_duplicate(sprite.sprite_id(), sprite.palette_id())
    }

    /// Sorts the order by depth.
    fn update_z_ordering(&mut self)
        requires
            old(self).shadow_oam@.len() == OBJECTS,
            old(self).z_order@.len() == OBJECTS,
            old(self).z_order@.no_duplicates(),
            forall|i: int| 0 <= i < OBJECTS ==> #[trigger] old(self).z_order@[i] < OBJECTS,
        ensures
            z_sorted(old(self).order(), final(self).order(), old(self).rows()),
            final(self).rows() == old(self).rows(),
            final(self).free_rows() == old(self).free_rows(),
            final(self).sprites() == old(self).sprites(),
            final(self).free_affine_matricies == old(self).free_affine_matricies,
            forall|i: int| 0 <= i < OBJECTS ==> #[trigger] final(self).z_order@[i] < OBJECTS,
            forall|row: u8|
                #[trigger] final(self).z_order@.contains(row) == old(self).z_order@.contains(row),
    {
        sort_by_z(&mut self.z_order, &self.shadow_oam);
        proof {
            assert forall|i: int| 0 <= i < OBJECTS implies #[trigger] self.z_order@[i]
                < OBJECTS by {
                let row = self.z_order@[i];
                assert(self.z_order@.contains(row));
                assert(old(self).z_order@.contains(row));
            }
        }
    }

    /// Lends out a free row for an object that shows `sprite`, at depth 0,
    /// and sorts the order. The object keeps the borrow and a double of it.
    /// Where no object can be had, the borrow is given back.
    pub fn try_get_object(&mut self, sprite: SpriteBorrow) -> (object: Option<Object>)
        requires
            old(self).wf(),
            sprite.wf(),
        ensures
            final(self).wf(),
            object is Some == old(self).can_get_object(&sprite),
            object is None ==> {
                &&& final(self).rows() == old(self).rows()
                &&& final(self).order() == old(self).order()
                &&& final(self).free_rows() == old(self).free_rows()
                &&& final(self).sprites()@ == old(self).sprites()@.release_sprite(
                    sprite.sprite_id(),
                    sprite.spec_size().tiles() as int,
                    sprite.palette_id(),
                )
            },
            object is Some ==> {
                let row = old(self).free_rows().last();
                &&& object->0.row() == row
                &&& object->0.shown() == sprite
                &&& object->0.kept().sprite_id() == sprite.sprite_id()
                &&& object->0.kept().palette_id() == sprite.palette_id()
                &&& object->0.kept().spec_size() == sprite.spec_size()
                &&& object->0.kept().tile() == sprite.tile()
                &&& object->0.kept().bank() == sprite.bank()
                &&& !old(self).is_live(row)
                &&& forall|other: u8|
                    final(self).is_live(other) == (old(self).is_live(other) || other == row)
                &&& final(self).rows()[row as int]->0.z == 0
                &&& draws_sprite(
                    final(self).rows()[row as int]->0.attrs,
                    Attributes::blank(),
                    sprite.tile(),
                    sprite.bank(),
                    sprite.spec_size().shape(),
                    sprite.spec_size().scale(),
                )
                &&& forall|other: int|
                    0 <= other < OBJECTS && other != row ==> final(self).rows()[other] == old(self).rows()[other]
                &&& final(self).free_rows() == old(self).free_rows().drop_last()
                &&& z_sorted(old(self).order(), final(self).order(), final(self).rows())
                &&& final(self).sprites()@ == old(self).sprites()@.duplicate(
                    sprite.sprite_id(),
                    sprite.palette_id(),
                )
            },
            final(self).sprites().pending() == old(self).sprites().pending(),
    {
        if self.free_object.len() == 0 {
            self.sprite_controller.return_sprite(sprite);
            return None;
        }
        let previous_sprite = match self.sprite_controller.clone_borrow(&sprite) {
            Some(copy) => copy,
            None => {
                self.sprite_controller.return_sprite(sprite);
                return None;
            },
        };
        let mut attrs = Attributes::new();
        draw_sprite(&mut attrs, &sprite);
        let index = self.free_object.pop().unwrap();
        assert(index == old(self).free_object@.last());
        assert(old(self).free_object@[old(self).free_object@.len() - 1] == index);
        self.shadow_oam.set(index as usize, Some(ObjectInner { attrs, z: 0 }));
        let loan = Loan { index };
        let ghost before_sort = *self;
        self.update_z_ordering();
        proof {
            let free = old(self).free_object@;
            assert(self.free_object@ =~= free.drop_last());
            assert forall|i: int| 0 <= i < self.free_object@.len() implies #[trigger] self.free_object@[i]
                < OBJECTS && self.shadow_oam@[self.free_object@[i] as int] is None by {
                assert(self.free_object@[i] == free[i]);
                assert(free[i] != free[free.len() - 1]);
            }
            assert forall|row: u8|
                row < OBJECTS && (#[trigger] self.shadow_oam@[row as int]) is None implies self.free_object@.contains(
                row,
            ) by {
                assert(old(self).shadow_oam@[row as int] is None);
                let i = choose|i: int| 0 <= i < free.len() && free[i] == row;
                assert(self.free_object@[i] == row);
            }
        }
        Some(Object { sprite, previous_sprite, loan })
    }

    /// Lends out a free row for an object that shows `sprite`, where that is
    /// known to succeed.
    pub fn object(&mut self, sprite: SpriteBorrow) -> (object: Object)
        requires
            old(self).wf(),
            sprite.wf(),
            old(self).can_get_object(&sprite),
        ensures
            final(self).wf(),
            object.row() == old(self).free_rows().last(),
            object.shown() == sprite,
            object.kept().sprite_id() == sprite.sprite_id(),
            object.kept().palette_id() == sprite.palette_id(),
            object.kept().spec_size() == sprite.spec_size(),
            object.kept().tile() == sprite.tile(),
            object.kept().bank() == sprite.bank(),
            !old(self).is_live(object.row()),
            forall|other: u8|
                final(self).is_live(other) == (old(self).is_live(other) || other == object.row()),
            final(self).rows()[object.row() as int]->0.z == 0,
            draws_sprite(
                final(self).rows()[object.row() as int]->0.attrs,
                Attributes::blank(),
                sprite.tile(),
                sprite.bank(),
                sprite.spec_size().shape(),
                sprite.spec_size().scale(),
            ),
            forall|other: int|
                0 <= other < OBJECTS && other != object.row() ==> final(self).rows()[other]
                    == old(self).rows()[other],
            final(self).free_rows() == old(self).free_rows().drop_last(),
            z_sorted(old(self).order(), final(self).order(), final(self).rows()),
            final(self).sprites()@ == old(self).sprites()@.duplicate(
                sprite.sprite_id(),
                sprite.palette_id(),
            ),
            final(self).sprites().pending() == old(self).sprites().pending(),
    {
        self.try_get_object(sprite).unwrap()
    }

    /// Takes an object back: its row is free again, the next to be lent
    /// out, and its two borrows are given back. The order stays as it is.
    pub fn release_object(&mut self, object: Object)
        requires
            old(self).wf(),
            old(self).is_live(object.row()),
        ensures
            final(self).wf(),
            final(self).rows() == old(self).rows().update(object.row() as int, None),
            final(self).free_rows() == old(self).free_rows().push(object.row()),
            final(self).order() == old(self).order(),
            forall|row: u8|
                final(self).is_live(row) == (old(self).is_live(row) && row != object.row()),
            final(self).sprites().pending() == old(self).sprites().pending(),
            final(self).sprites()@ == old(self).sprites()@.release_sprite(
                object.shown().sprite_id(),
                object.shown().spec_size().tiles() as int,
                object.shown().palette_id(),
            ).release_sprite(
                object.kept().sprite_id(),
                object.kept().spec_size().tiles() as int,
                object.kept().palette_id(),
            ),
    {
        let Object { sprite, previous_sprite, loan } = object;
        self.sprite_controller.return_sprite(sprite);
        self.sprite_controller.return_sprite(previous_sprite);
        proof {
            let free = old(self).free_object@;
            if free.contains(loan.index) {
                let i = choose|i: int| 0 <= i < free.len() && free[i] == loan.index;
                assert(old(self).shadow_oam@[free[i] as int] is None);
            }
        }
        self.free_object.push(loan.index);
        self.shadow_oam.set(loan.index as usize, None);
        proof {
            let free = old(self).free_object@;
            assert forall|row: u8|
                row < OBJECTS && (#[trigger] self.shadow_oam@[row as int]) is None implies self.free_object@.contains(
                row,
            ) by {
                if row == loan.index {
                    assert(self.free_object@[free.len() as int] == row);
                } else {
                    assert(old(self).shadow_oam@[row as int] is None);
                    let i = choose|i: int| 0 <= i < free.len() && free[i] == row;
                    assert(self.free_object@[i] == row);
                }
            }
            assert forall|i: int, j: int|
                0 <= i < j < OBJECTS && self.shadow_oam@[self.z_order@[i] as int] is Some
                    && self.shadow_oam@[self.z_order@[j] as int] is Some implies row_key(
                self.shadow_oam@,
                self.z_order@[i],
            ) <= row_key(self.shadow_oam@, self.z_order@[j]) by {
                assert(row_key(old(self).shadow_oam@, self.z_order@[i]) <= row_key(
                    old(self).shadow_oam@,
                    self.z_order@[j],
                ));
            }
        }
    }

    /// The attributes and the depth of the object in row `row`.
    fn object_inner(&self, row: u8) -> (inner: ObjectInner)
        requires
            self.wf(),
            self.is_live(row),
        ensures
            inner == self.rows()[row as int]->0,
    {
        self.shadow_oam[row as usize].unwrap()
    }

    /// Replaces the attributes of the object in row `row`.
    fn set_attrs(&mut self, row: u8, attrs: Attributes)
        requires
            old(self).wf(),
            old(self).is_live(row),
        ensures
            final(self).wf(),
            final(self).same_but_row(old(self), row),
            final(self).rows()[row as int] == Some(
                ObjectInner { attrs, z: old(self).rows()[row as int]->0.z },
            ),
    {
        let z = self.object_inner(row).z;
        self.shadow_oam.set(row as usize, Some(ObjectInner { attrs, z }));
        proof {
            assert forall|i: int|
                0 <= i < self.free_object@.len() implies #[trigger] self.free_object@[i] < OBJECTS
                && self.shadow_oam@[self.free_object@[i] as int] is None by {
                assert(old(self).shadow_oam@[self.free_object@[i] as int] is None);
            }
            assert forall|r: u8|
                r < OBJECTS && (#[trigger] self.shadow_oam@[r as int]) is None implies self.free_object@.contains(
                r,
            ) by {
                assert(old(self).shadow_oam@[r as int] is None);
            }
            assert forall|i: int, j: int|
                0 <= i < j < OBJECTS && self.shadow_oam@[self.z_order@[i] as int] is Some
                    && self.shadow_oam@[self.z_order@[j] as int] is Some implies row_key(
                self.shadow_oam@,
                self.z_order@[i],
            ) <= row_key(self.shadow_oam@, self.z_order@[j]) by {
                assert(row_key(old(self).shadow_oam@, self.z_order@[i]) <= row_key(
                    old(self).shadow_oam@,
                    self.z_order@[j],
                ));
            }
        }
    }

    /// Sets the depth of the object in row `row` and sorts the order.
    fn set_depth(&mut self, row: u8, z: i32)
        requires
            old(self).wf(),
            old(self).is_live(row),
        ensures
            final(self).wf(),
            final(self).rows() == old(self).rows().update(
                row as int,
                Some(ObjectInner { attrs: old(self).rows()[row as int]->0.attrs, z }),
            ),
            z_sorted(old(self).order(), final(self).order(), final(self).rows()),
            final(self).free_rows() == old(self).free_rows(),
            final(self).sprites() == old(self).sprites(),
    {
        let attrs = self.object_inner(row).attrs;
        self.shadow_oam.set(row as usize, Some(ObjectInner { attrs, z }));
        self.update_z_ordering();
        proof {
            assert forall|i: int|
                0 <= i < self.free_object@.len() implies #[trigger] self.free_object@[i] < OBJECTS
                && self.shadow_oam@[self.free_object@[i] as int] is None by {
                assert(old(self).shadow_oam@[self.free_object@[i] as int] is None);
            }
            assert forall|r: u8|
                r < OBJECTS && (#[trigger] self.shadow_oam@[r as int]) is None implies self.free_object@.contains(
                r,
            ) by {
                assert(old(self).shadow_oam@[r as int] is None);
            }
        }
    }
}

impl Object {
    /// Whether the controllers differ at most in the attributes of this
    /// object.
    pub open spec fn only_attrs_changed(
        &self,
        controller: &ObjectController,
        before: &ObjectController,
    ) -> bool {
        &&& controller.same_but_row(before, self.row())
        &&& controller.is_live(self.row())
        &&& controller.rows()[self.row() as int]->0.z == before.rows()[self.row() as int]->0.z
    }

    /// The attributes of this object.
    pub open spec fn attrs(&self, controller: &ObjectController) -> Attributes {
        controller.rows()[self.row() as int]->0.attrs
    }

    /// Makes the object show `sprite`. The sprite shown so far is kept until
    /// the next change, and the one kept so far is given back.
    pub fn set_sprite(&mut self, controller: &mut ObjectController, sprite: SpriteBorrow)
        requires
            old(controller).wf(),
            old(controller).is_live(old(self).row()),
            sprite.wf(),
        ensures
            final(controller).wf(),
            final(self).row() == old(self).row(),
            final(self).shown() == sprite,
            final(self).kept() == old(self).shown(),
            final(controller).is_live(final(self).row()),
            final(controller).rows().len() == old(controller).rows().len(),
            forall|other: int|
                0 <= other < OBJECTS && other != old(self).row() ==> final(controller).rows()[other] == old(controller).rows()[other],
            final(controller).order() == old(controller).order(),
            final(controller).free_rows() == old(controller).free_rows(),
            final(controller).rows()[old(self).row() as int]->0.z == old(controller).rows()[old(self).row() as int]->0.z,
            draws_sprite(
                final(self).attrs(final(controller)),
                old(self).attrs(old(controller)),
                sprite.tile(),
                sprite.bank(),
                sprite.spec_size().shape(),
                sprite.spec_size().scale(),
            ),
            final(controller).sprites().pending() == old(controller).sprites().pending(),
            final(controller).sprites()@ == old(controller).sprites()@.release_sprite(
                old(self).kept().sprite_id(),
                old(self).kept().spec_size().tiles() as int,
                old(self).kept().palette_id(),
            ),
    {
        let mut attrs = controller.object_inner(self.loan.index).attrs;
        draw_sprite(&mut attrs, &sprite);
        controller.set_attrs(self.loan.index, attrs);
        let mut shown = sprite;
        std::mem::swap(&mut self.sprite, &mut shown);
        std::mem::swap(&mut self.previous_sprite, &mut shown);
        controller.return_sprite(shown);
    }

    /// Has the object drawn.
    pub fn show(&self, controller: &mut ObjectController)
        requires
            old(controller).wf(),
            old(controller).is_live(self.row()),
        ensures
            final(controller).wf(),
            self.only_attrs_changed(final(controller), old(controller)),
            self.attrs(final(controller)).a0@ == (Attribute0View {
                object_mode: ObjectMode::Normal.spec_bits() as int,
                ..self.attrs(old(controller)).a0@
            }),
            self.attrs(final(controller)).a1s == self.attrs(old(controller)).a1s,
            self.attrs(final(controller)).a1a == self.attrs(old(controller)).a1a,
            self.attrs(final(controller)).a2 == self.attrs(old(controller)).a2,
    {
        let mut attrs = controller.object_inner(self.loan.index).attrs;
        attrs.a0.set_object_mode(ObjectMode::Normal);
        controller.set_attrs(self.loan.index, attrs);
    }

    /// Has the object not drawn.
    pub fn conceal(&self, controller: &mut ObjectController)
        requires
            old(controller).wf(),
            old(controller).is_live(self.row()),
        ensures
            final(controller).wf(),
            self.only_attrs_changed(final(controller), old(controller)),
            self.attrs(final(controller)).a0@ == (Attribute0View {
                object_mode: ObjectMode::Disabled.spec_bits() as int,
                ..self.attrs(old(controller)).a0@
            }),
            self.attrs(final(controller)).a1s == self.attrs(old(controller)).a1s,
            self.attrs(final(controller)).a1a == self.attrs(old(controller)).a1a,
            self.attrs(final(controller)).a2 == self.attrs(old(controller)).a2,
    {
        let mut attrs = controller.object_inner(self.loan.index).attrs;
        attrs.a0.set_object_mode(ObjectMode::Disabled);
        controller.set_attrs(self.loan.index, attrs);
    }

    pub fn set_hflip(&self, controller: &mut ObjectController, flip: bool)
        requires
            old(controller).wf(),
            old(controller).is_live(self.row()),
        ensures
            final(controller).wf(),
            self.only_attrs_changed(final(controller), old(controller)),
            self.attrs(final(controller)).a1s@ == (Attribute1StandardView {
                horizontal_flip: if flip {
                    1
                } else {
                    0
                },
                ..self.attrs(old(controller)).a1s@
            }),
            self.attrs(final(controller)).a0 == self.attrs(old(controller)).a0,
            self.attrs(final(controller)).a1a == self.attrs(old(controller)).a1a,
            self.attrs(final(controller)).a2 == self.attrs(old(controller)).a2,
    {
        let mut attrs = controller.object_inner(self.loan.index).attrs;
        attrs.a1s.set_horizontal_flip(flip);
        controller.set_attrs(self.loan.index, attrs);
    }

    pub fn set_vflip(&self, controller: &mut ObjectController, flip: bool)
        requires
            old(controller).wf(),
            old(controller).is_live(self.row()),
        ensures
            final(controller).wf(),
            self.only_attrs_changed(final(controller), old(controller)),
            self.attrs(final(controller)).a1s@ == (Attribute1StandardView {
                vertical_flip: if flip {
                    1
                } else {
                    0
                },
                ..self.attrs(old(controller)).a1s@
            }),
            self.attrs(final(controller)).a0 == self.attrs(old(controller)).a0,
            self.attrs(final(controller)).a1a == self.attrs(old(controller)).a1a,
            self.attrs(final(controller)).a2 == self.attrs(old(controller)).a2,
    {
        let mut attrs = controller.object_inner(self.loan.index).attrs;
        attrs.a1s.set_vertical_flip(flip);
        controller.set_attrs(self.loan.index, attrs);
    }

    /// Sets the horizontal position, which wraps at 512.
    pub fn set_x(&self, controller: &mut ObjectController, x: u16)
        requires
            old(controller).wf(),
            old(controller).is_live(self.row()),
        ensures
            final(controller).wf(),
            self.only_attrs_changed(final(controller), old(controller)),
            self.attrs(final(controller)).a1s@ == (Attribute1StandardView {
                x: x as int % 512,
                ..self.attrs(old(controller)).a1s@
            }),
            self.attrs(final(controller)).a1a@ == (Attribute1AffineView {
                x: x as int % 512,
                ..self.attrs(old(controller)).a1a@
            }),
            self.attrs(final(controller)).a0 == self.attrs(old(controller)).a0,
            self.attrs(final(controller)).a2 == self.attrs(old(controller)).a2,
    {
        let mut attrs = controller.object_inner(self.loan.index).attrs;
        attrs.a1a.set_x(x % 512);
        attrs.a1s.set_x(x % 512);
        controller.set_attrs(self.loan.index, attrs);
    }

    pub fn set_priority(&self, controller: &mut ObjectController, priority: Priority)
        requires
            old(controller).wf(),
            old(controller).is_live(self.row()),
        ensures
            final(controller).wf(),
            self.only_attrs_changed(final(controller), old(controller)),
            self.attrs(final(controller)).a2@ == (Attribute2View {
                priority: priority.spec_bits() as int,
                ..self.attrs(old(controller)).a2@
            }),
            self.attrs(final(controller)).a0 == self.attrs(old(controller)).a0,
            self.attrs(final(controller)).a1s == self.attrs(old(controller)).a1s,
            self.attrs(final(controller)).a1a == self.attrs(old(controller)).a1a,
    {
        let mut attrs = controller.object_inner(self.loan.index).attrs;
        attrs.a2.set_priority(priority);
        controller.set_attrs(self.loan.index, attrs);
    }

    /// Sets the vertical position, which wraps at 256.
    pub fn set_y(&self, controller: &mut ObjectController, y: u16)
        requires
            old(controller).wf(),
            old(controller).is_live(self.row()),
        ensures
            final(controller).wf(),
            self.only_attrs_changed(final(controller), old(controller)),
            self.attrs(final(controller)).a0@ == (Attribute0View {
                y: y as int % 256,
                ..self.attrs(old(controller)).a0@
            }),
            self.attrs(final(controller)).a1s == self.attrs(old(controller)).a1s,
            self.attrs(final(controller)).a1a == self.attrs(old(controller)).a1a,
            self.attrs(final(controller)).a2 == self.attrs(old(controller)).a2,
    {
        let mut attrs = controller.object_inner(self.loan.index).attrs;
        attrs.a0.set_y((y % 256) as u8);
        controller.set_attrs(self.loan.index, attrs);
    }

    /// Sets the depth of the object and sorts the order by depth: the
    /// objects of lesser depth come first, and objects of equal depth stay
    /// in the order in which they were.
    pub fn set_z(&self, controller: &mut ObjectController, z: i32)
        requires
            old(controller).wf(),
            old(controller).is_live(self.row()),
        ensures
            final(controller).wf(),
            final(controller).rows() == old(controller).rows().update(
                self.row() as int,
                Some(ObjectInner { attrs: self.attrs(old(controller)), z }),
            ),
            z_sorted(old(controller).order(), final(controller).order(), final(controller).rows()),
            final(controller).free_rows() == old(controller).free_rows(),
            final(controller).sprites() == old(controller).sprites(),
            forall|row: u8| final(controller).is_live(row) == old(controller).is_live(row),
    {
        proof {
            controller.lemma_wf();
        }
        controller.set_depth(self.loan.index, z);
    }

    /// Sets the position: the horizontal one wraps at 512, the vertical one
    /// at 256.
    pub fn set_position(&self, controller: &mut ObjectController, position: Vector2D<i32>)
        requires
            old(controller).wf(),
            old(controller).is_live(self.row()),
        ensures
            final(controller).wf(),
            self.only_attrs_changed(final(controller), old(controller)),
            self.attrs(final(controller)).a0@ == (Attribute0View {
                y: wrap(position.y as int, 256),
                ..self.attrs(old(controller)).a0@
            }),
            self.attrs(final(controller)).a1s@ == (Attribute1StandardView {
                x: wrap(position.x as int, 512),
                ..self.attrs(old(controller)).a1s@
            }),
            self.attrs(final(controller)).a1a@ == (Attribute1AffineView {
                x: wrap(position.x as int, 512),
                ..self.attrs(old(controller)).a1a@
            }),
            self.attrs(final(controller)).a2 == self.attrs(old(controller)).a2,
    {
        let y = position.y.checked_rem_euclid(256).unwrap() as u8;
        let x = position.x.checked_rem_euclid(512).unwrap() as u16;
        let mut attrs = controller.object_inner(self.loan.index).attrs;
        attrs.a0.set_y(y);
        attrs.a1a.set_x(x);
        attrs.a1s.set_x(x);
        controller.set_attrs(self.loan.index, attrs);
    }
}

} // verus!
