use agb::palette16::Palette16;
use agb::sprite::{Size, Sprite};
use agb::sprite_controller::{SpriteControllerInner, Storage};

fn colours(first: u16) -> [u16; 16] {
    let mut c = [0u16; 16];
    for i in 0..16 {
        c[i] = first + i as u16;
    }
    c
}

#[test]
fn a_sprite_borrowed_twice_lies_in_memory_once() {
    let palette = Palette16::new(50, colours(300));
    let data: Vec<u8> = (0..128).map(|i| i as u8).collect();
    let sprite = Sprite::new(7, &palette, &data, Size::S16x16);
    let mut cache = SpriteControllerInner::new();

    let first = cache.try_get_sprite(&sprite).unwrap();
    let stores = cache.take_uploads();
    assert_eq!(stores.len(), 16 + 64);
    for i in 0..16 {
        assert_eq!(stores[i].address, 0x0500_0200 + 2 * i);
        assert_eq!(stores[i].value, 300 + i as u16);
    }
    for i in 0..64 {
        assert_eq!(stores[16 + i].address, 0x0601_0000 + 2 * i);
        assert_eq!(stores[16 + i].value, (2 * i) as u16 + 256 * (2 * i + 1) as u16);
    }

    let second = cache.try_get_sprite(&sprite).unwrap();
    assert!(cache.take_uploads().is_empty());
    assert_eq!(first.sprite_location(), 0);
    assert_eq!(second.sprite_location(), 0);
    assert_eq!(first.palette_location(), 0);
    assert_eq!(second.palette_location(), 0);
    assert_eq!(first.size(), Size::S16x16);
    assert_eq!(cache.sprite_storage(7).unwrap().count, 2);
    assert_eq!(cache.palette_storage(50).unwrap().count, 2);

    cache.return_sprite(first);
    let left = cache.sprite_storage(7).unwrap();
    assert_eq!((left.location, left.count), (0, 1));
    assert_eq!(cache.palette_storage(50).unwrap().count, 1);

    cache.return_sprite(second);
    assert!(cache.sprite_storage(7).is_none());
    assert!(cache.palette_storage(50).is_none());

    let other_palette = Palette16::new(51, colours(500));
    let other = Sprite::new(8, &other_palette, &data[..32], Size::S8x8);
    let borrow = cache.try_get_sprite(&other).unwrap();
    assert_eq!(borrow.sprite_location(), 0);
    assert_eq!(borrow.palette_location(), 0);
}

#[test]
fn a_live_sprite_keeps_its_memory_from_others() {
    let palette = Palette16::new(50, colours(0));
    let data = [0u8; 128];
    let big = Sprite::new(1, &palette, &data, Size::S16x16);
    let small = Sprite::new(2, &palette, &data[..32], Size::S8x8);
    let mut cache = SpriteControllerInner::new();
    let a = cache.try_get_sprite(&big).unwrap();
    let b = cache.try_get_sprite(&small).unwrap();
    assert_eq!(a.sprite_location(), 0);
    assert_eq!(b.sprite_location(), 4);
    // the two sprites share their palette
    assert_eq!(a.palette_location(), b.palette_location());
    assert_eq!(cache.palette_storage(50).unwrap().count, 2);
    cache.return_sprite(a);
    let c = cache.try_get_sprite(&small).unwrap();
    assert_eq!(c.sprite_location(), 4);
    let d = cache.try_get_sprite(&big).unwrap();
    assert_eq!(d.sprite_location(), 0);
}

#[test]
fn a_seventeenth_palette_cannot_be_had() {
    let data = [0u8; 32];
    let palettes: Vec<Palette16> = (0..17).map(|i| Palette16::new(i, colours(0))).collect();
    let mut cache = SpriteControllerInner::new();
    let mut borrows = Vec::new();
    for i in 0..16 {
        let sprite = Sprite::new(100 + i, &palettes[i], &data, Size::S8x8);
        let borrow = cache.try_get_sprite(&sprite).unwrap();
        assert_eq!(borrow.palette_location(), i as u16);
        assert_eq!(borrow.sprite_location(), i as u16);
        borrows.push(borrow);
    }
    cache.take_uploads();
    let sprite = Sprite::new(200, &palettes[16], &data, Size::S8x8);
    assert!(cache.try_get_sprite(&sprite).is_none());
    assert!(cache.sprite_storage(200).is_none());
    assert!(cache.palette_storage(16).is_none());
    assert!(cache.take_uploads().is_empty());
    // nothing was taken: the next sprite with a known palette goes where
    // the failed one would have gone
    let sprite = Sprite::new(201, &palettes[3], &data, Size::S8x8);
    assert_eq!(cache.try_get_sprite(&sprite).unwrap().sprite_location(), 16);
}

#[test]
fn sprite_memory_runs_out() {
    let palette = Palette16::new(1, colours(0));
    let data = [0u8; 2048];
    let mut cache = SpriteControllerInner::new();
    for i in 0..16 {
        let sprite = Sprite::new(i, &palette, &data, Size::S64x64);
        assert_eq!(cache.try_get_sprite(&sprite).unwrap().sprite_location(), 64 * i as u16);
    }
    let sprite = Sprite::new(99, &palette, &data[..32], Size::S8x8);
    assert!(cache.try_get_sprite(&sprite).is_none());
    assert_eq!(cache.palette_storage(1).unwrap().count, 16);
}

#[test]
fn a_doubled_borrow_counts_twice() {
    let palette = Palette16::new(1, colours(0));
    let data = [0u8; 32];
    let sprite = Sprite::new(5, &palette, &data, Size::S8x8);
    let mut cache = SpriteControllerInner::new();
    let borrow = cache.try_get_sprite(&sprite).unwrap();
    assert!(cache.check_can_duplicate(&borrow));
    let copy = cache.clone_borrow(&borrow).unwrap();
    assert_eq!(copy.sprite_location(), borrow.sprite_location());
    assert_eq!(cache.sprite_storage(5).unwrap().count, 2);
    assert_eq!(cache.palette_storage(1).unwrap().count, 2);
    cache.return_sprite(borrow);
    cache.return_sprite(copy);
    assert!(cache.sprite_storage(5).is_none());
}

#[test]
fn storage_converts_between_blocks_and_addresses() {
    let storage = Storage::from_sprite_ptr(0x0601_0000 + 32 * 5);
    assert_eq!((storage.location, storage.count), (5, 1));
    assert_eq!(storage.as_sprite_ptr(), 0x0601_0000 + 32 * 5);
    let storage = Storage::from_palette_ptr(0x0500_0200 + 32 * 3);
    assert_eq!((storage.location, storage.count), (3, 1));
    assert_eq!(storage.as_palette_ptr(), 0x0500_0200 + 32 * 3);
}

#[test]
fn a_sprite_that_left_memory_is_copied_again() {
    let palette = Palette16::new(1, colours(0));
    let data = [3u8; 32];
    let sprite = Sprite::new(5, &palette, &data, Size::S8x8);
    let mut cache = SpriteControllerInner::new();
    let borrow = cache.try_get_sprite(&sprite).unwrap();
    assert_eq!(cache.take_uploads().len(), 16 + 16);
    cache.return_sprite(borrow);
    assert!(cache.sprite_storage(5).is_none());
    let borrow = cache.try_get_sprite(&sprite).unwrap();
    assert_eq!(borrow.sprite_location(), 0);
    let stores = cache.take_uploads();
    assert_eq!(stores.len(), 16 + 16);
    assert_eq!(stores[16].value, 3 + 256 * 3);
    assert_eq!(cache.sprite_storage(5).unwrap().count, 1);
    assert_eq!(cache.palette_storage(1).unwrap().count, 1);
}
