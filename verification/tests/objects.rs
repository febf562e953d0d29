use agb::geometry::Vector2D;
use agb::hardware::Priority;
use agb::object::ObjectController;
use agb::palette16::Palette16;
use agb::sprite::{Size, Sprite};

const OAM: usize = 0x0700_0000;

#[test]
fn objects_are_sent_in_ascending_depth() {
    let palette = Palette16::new(1, [0; 16]);
    let data = [0u8; 32];
    let sprite = Sprite::new(9, &palette, &data, Size::S8x8);
    let mut controller = ObjectController::new();

    let borrow = controller.sprite(&sprite);
    let a = controller.object(borrow);
    let borrow = controller.sprite(&sprite);
    let b = controller.object(borrow);
    let borrow = controller.sprite(&sprite);
    let c = controller.object(borrow);
    assert_eq!((a.index(), b.index(), c.index()), (127, 126, 125));

    a.set_x(&mut controller, 10);
    b.set_x(&mut controller, 20);
    c.set_x(&mut controller, 30);
    a.set_z(&mut controller, 5);
    b.set_z(&mut controller, 1);
    c.set_z(&mut controller, 3);

    let stores = controller.commit();
    assert_eq!(stores.len(), 3 * 3 + 125);
    // rank 0: depth 1, rank 1: depth 3, rank 2: depth 5
    assert_eq!(stores[0].address, OAM);
    assert_eq!((stores[1].address, stores[1].value), (OAM + 2, 20));
    assert_eq!(stores[2].address, OAM + 4);
    assert_eq!(stores[3].address, OAM + 8);
    assert_eq!((stores[4].address, stores[4].value), (OAM + 10, 30));
    assert_eq!((stores[7].address, stores[7].value), (OAM + 18, 10));
    for (i, store) in stores[9..].iter().enumerate() {
        assert_eq!(store.address, OAM + 8 * (3 + i));
        assert_eq!(store.value, 0x0200);
    }
    assert_eq!(controller.rank_of(b.index()), 0);
    assert_eq!(controller.rank_of(c.index()), 1);
    assert_eq!(controller.rank_of(a.index()), 2);
    assert_eq!(controller.depth(a.index()), 5);
}

#[test]
fn objects_of_equal_depth_keep_their_order() {
    let palette = Palette16::new(1, [0; 16]);
    let data = [0u8; 32];
    let sprite = Sprite::new(9, &palette, &data, Size::S8x8);
    let mut controller = ObjectController::new();
    let borrow = controller.sprite(&sprite);
    let a = controller.object(borrow);
    let borrow = controller.sprite(&sprite);
    let b = controller.object(borrow);
    // both at depth 0: the first object had come to the front of the order
    // before the second was made, and stays in front of it
    assert_eq!(controller.rank_of(a.index()), 0);
    assert_eq!(controller.rank_of(b.index()), 1);
    a.set_z(&mut controller, 0);
    assert_eq!(controller.rank_of(a.index()), 0);
    assert_eq!(controller.rank_of(b.index()), 1);
    b.set_z(&mut controller, -1);
    assert_eq!(controller.rank_of(b.index()), 0);
    assert_eq!(controller.rank_of(a.index()), 1);
    a.set_z(&mut controller, -1);
    assert_eq!(controller.rank_of(b.index()), 0);
    assert_eq!(controller.rank_of(a.index()), 1);
    // the free rows follow in their own order
    assert_eq!(controller.rank_of(0), 2);
    assert_eq!(controller.rank_of(125), 127);
}

#[test]
fn a_new_object_draws_its_sprite() {
    let palette = Palette16::new(1, [0; 16]);
    let other_palette = Palette16::new(2, [0; 16]);
    let data = [0u8; 256];
    let first = Sprite::new(9, &palette, &data[..64], Size::S16x8);
    let second = Sprite::new(10, &other_palette, &data, Size::S16x32);
    let mut controller = ObjectController::new();
    let borrow = controller.sprite(&first);
    let _a = controller.object(borrow);
    let borrow = controller.sprite(&second);
    assert_eq!((borrow.sprite_location(), borrow.palette_location()), (2, 1));
    let b = controller.object(borrow);
    b.set_z(&mut controller, -5);
    let stores = controller.commit();
    // attribute 0: shape tall; attribute 1: size code 2; attribute 2: tile 2, bank 1
    assert_eq!(stores[0].value, 2 << 14);
    assert_eq!(stores[1].value, 2 << 14);
    assert_eq!(stores[2].value, 2 | (1 << 12));
    assert_eq!(stores[3].value, 1 << 14);
    assert_eq!(stores[4].value, 0);
    assert_eq!(stores[5].value, 0);
}

#[test]
fn the_mutators_change_the_shadow_attributes() {
    let palette = Palette16::new(1, [0; 16]);
    let data = [0u8; 32];
    let sprite = Sprite::new(9, &palette, &data, Size::S8x8);
    let mut controller = ObjectController::new();
    let borrow = controller.sprite(&sprite);
    let object = controller.object(borrow);

    object.set_x(&mut controller, 513);
    object.set_y(&mut controller, 258);
    object.set_hflip(&mut controller, true);
    object.set_priority(&mut controller, Priority::Lowest);
    let stores = controller.commit();
    assert_eq!(stores[0].value, 2);
    assert_eq!(stores[1].value, 1 | 0x1000);
    assert_eq!(stores[2].value, 3 << 10);

    object.set_vflip(&mut controller, true);
    object.set_hflip(&mut controller, false);
    object.conceal(&mut controller);
    let stores = controller.commit();
    assert_eq!(stores[0].value, 2 | 0x0200);
    // a disabled object is sent in its affine form, which has no flips
    assert_eq!(stores[1].value, 1);

    object.show(&mut controller);
    object.set_position(&mut controller, Vector2D::new(-1, -2));
    let stores = controller.commit();
    assert_eq!(stores[0].value, 254);
    assert_eq!(stores[1].value, 511 | 0x2000);
}

#[test]
fn the_pool_holds_128_objects() {
    let palette = Palette16::new(1, [0; 16]);
    let data = [0u8; 32];
    let sprite = Sprite::new(9, &palette, &data, Size::S8x8);
    let mut controller = ObjectController::new();
    let mut objects = Vec::new();
    for i in 0..128 {
        let borrow = controller.sprite(&sprite);
        assert!(controller.check_can_get_object(&borrow));
        let object = controller.try_get_object(borrow).unwrap();
        assert_eq!(object.index(), 127 - i);
        objects.push(object);
    }
    assert_eq!(controller.free_objects(), 0);
    let borrow = controller.sprite(&sprite);
    assert!(!controller.check_can_get_object(&borrow));
    assert!(controller.try_get_object(borrow).is_none());
    let stores = controller.commit();
    assert_eq!(stores.len(), 3 * 128);

    let released = objects.pop().unwrap();
    let row = released.index();
    controller.release_object(released);
    assert!(!controller.has_object(row));
    assert_eq!(controller.free_objects(), 1);
    let stores = controller.commit();
    assert_eq!(stores.len(), 3 * 127 + 1);
    let rank = controller.rank_of(row);
    let hidden = stores.iter().find(|store| store.address == OAM + 8 * rank).unwrap();
    assert_eq!(hidden.value, 0x0200);
    assert!(stores.iter().all(|store| store.address != OAM + 8 * rank + 2));

    let borrow = controller.sprite(&sprite);
    let again = controller.object(borrow);
    assert_eq!(again.index(), row);
}

#[test]
fn an_object_keeps_its_sprites_in_memory() {
    let palette = Palette16::new(1, [0; 16]);
    let data = [0u8; 32];
    let first = Sprite::new(9, &palette, &data, Size::S8x8);
    let second = Sprite::new(10, &palette, &data, Size::S8x8);
    let mut controller = ObjectController::new();
    let borrow = controller.sprite(&first);
    let mut object = controller.object(borrow);
    let uploads = controller.take_uploads();
    assert_eq!(uploads.len(), 16 + 16);

    // the object holds two borrows of its sprite
    let probe = controller.sprite(&first);
    assert_eq!(probe.sprite_location(), 0);
    controller.return_sprite(probe);

    let borrow = controller.sprite(&second);
    assert_eq!(borrow.sprite_location(), 1);
    object.set_sprite(&mut controller, borrow);
    // the first sprite is still kept, as the one shown before
    let borrow = controller.sprite(&second);
    object.set_sprite(&mut controller, borrow);
    // now the first sprite has left memory, and its block is free
    let third = Sprite::new(11, &palette, &data, Size::S8x8);
    let borrow = controller.sprite(&third);
    assert_eq!(borrow.sprite_location(), 0);
    controller.return_sprite(borrow);

    let stores = controller.commit();
    assert_eq!(stores[2].value, 1);
    controller.release_object(object);
    let borrow = controller.sprite(&third);
    assert_eq!(borrow.sprite_location(), 0);
    let borrow2 = controller.sprite(&first);
    assert_eq!(borrow2.sprite_location(), 1);
}

#[test]
fn the_table_starts_hidden() {
    let stores = ObjectController::blank_table();
    assert_eq!(stores.len(), 128);
    for (i, store) in stores.iter().enumerate() {
        assert_eq!(store.address, OAM + 8 * i);
        assert_eq!(store.value, 0x0200);
    }
    assert_eq!(ObjectController::display_control(0), 0x1040);
    assert_eq!(ObjectController::display_control(0x0080), 0x1040);
    assert_eq!(ObjectController::display_control(0xffff), 0xff7f);
    let controller = ObjectController::new();
    assert_eq!(controller.free_objects(), 128);
    assert_eq!(controller.commit().len(), 128);
}

#[test]
fn every_row_has_its_rank() {
    let controller = ObjectController::new();
    for row in 0..128u8 {
        assert_eq!(controller.rank_of(row), row as usize);
    }
}

#[test]
fn a_borrow_doubled_through_the_controller_counts_twice() {
    let palette = Palette16::new(1, [0; 16]);
    let data = [0u8; 32];
    let sprite = Sprite::new(9, &palette, &data, Size::S8x8);
    let mut controller = ObjectController::new();
    let borrow = controller.sprite(&sprite);
    let copy = controller.clone_sprite(&borrow).unwrap();
    assert_eq!(copy.sprite_location(), borrow.sprite_location());
    controller.return_sprite(borrow);
    // the copy keeps the sprite in memory
    let other = Sprite::new(10, &palette, &data, Size::S8x8);
    let next = controller.sprite(&other);
    assert_eq!(next.sprite_location(), 1);
    controller.return_sprite(copy);
    let third = Sprite::new(11, &palette, &data, Size::S8x8);
    assert_eq!(controller.sprite(&third).sprite_location(), 0);
}
