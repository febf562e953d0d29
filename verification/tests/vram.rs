use agb::palette16::Palette16;
use agb::tile::{TileFormat, TileSet};
use agb::vram::VRamManager;

fn words(tiles: usize) -> Vec<u32> {
    (0..tiles * 8).map(|i| 1000 + i as u32).collect()
}

#[test]
fn handles_carry_slot_and_generation() {
    let data = words(2);
    let mut vram = VRamManager::new();
    let first = vram.add_tileset(TileSet::new(&data, TileFormat::FourBpp));
    let second = vram.add_tileset(TileSet::new(&data, TileFormat::FourBpp));
    assert_eq!((first.id(), first.generation()), (0, 0));
    assert_eq!((second.id(), second.generation()), (1, 1));
    assert!(vram.is_live(first));
    assert!(vram.is_live(second));
}

#[test]
fn a_reused_slot_does_not_answer_to_the_old_handle() {
    let data = words(2);
    let mut vram = VRamManager::new();
    let first = vram.add_tileset(TileSet::new(&data, TileFormat::FourBpp));
    let second = vram.add_tileset(TileSet::new(&data, TileFormat::FourBpp));
    vram.remove_tileset(first);
    assert!(!vram.is_live(first));
    assert!(vram.is_live(second));
    let third = vram.add_tileset(TileSet::new(&data, TileFormat::FourBpp));
    assert_eq!((third.id(), third.generation()), (0, 2));
    assert!(vram.is_live(third));
    assert!(!vram.is_live(first));
    assert!(vram.is_live(second));
}

#[test]
fn the_slot_freed_last_is_reused_first() {
    let data = words(1);
    let mut vram = VRamManager::new();
    let a = vram.add_tileset(TileSet::new(&data, TileFormat::FourBpp));
    let b = vram.add_tileset(TileSet::new(&data, TileFormat::FourBpp));
    let c = vram.add_tileset(TileSet::new(&data, TileFormat::FourBpp));
    vram.remove_tileset(a);
    vram.remove_tileset(c);
    assert_eq!(vram.add_tileset(TileSet::new(&data, TileFormat::FourBpp)).id(), c.id());
    assert_eq!(vram.add_tileset(TileSet::new(&data, TileFormat::FourBpp)).id(), a.id());
    assert_eq!(vram.add_tileset(TileSet::new(&data, TileFormat::FourBpp)).id(), 3);
    assert!(vram.is_live(b));
}

#[test]
fn the_generation_counter_wraps() {
    let data = words(1);
    let mut vram = VRamManager::new();
    let mut last = vram.add_tileset(TileSet::new(&data, TileFormat::FourBpp));
    for _ in 0..0x1_0000 {
        vram.remove_tileset(last);
        last = vram.add_tileset(TileSet::new(&data, TileFormat::FourBpp));
    }
    assert_eq!((last.id(), last.generation()), (0, 0));
}

#[test]
fn the_same_tile_asked_for_three_times_takes_one_slot() {
    let data = words(4);
    let mut vram = VRamManager::new();
    let set = vram.add_tileset(TileSet::new(&data, TileFormat::FourBpp));
    let room = vram.room();
    assert_eq!(room, 1023);

    assert!(vram.check_can_add_tile(set, 1));
    let first = vram.add_tile(set, 1);
    let second = vram.add_tile(set, 1);
    let third = vram.add_tile(set, 1);
    assert_eq!(first.index(), 1);
    assert_eq!(second.index(), 1);
    assert_eq!(third.index(), 1);
    assert_eq!(vram.reference_count(first), 3);
    assert_eq!(vram.room(), room - 1);

    let other = vram.add_tile(set, 2);
    assert_eq!(other.index(), 2);
    assert_eq!(vram.reference_count(other), 1);

    vram.remove_tile(first);
    assert!(vram.is_counted(second));
    assert_eq!(vram.reference_count(second), 2);
    vram.remove_tile(second);
    vram.remove_tile(third);
    assert!(!vram.is_counted(agb::tile::TileIndex::new(1)));
    assert_eq!(vram.reference_count(agb::tile::TileIndex::new(1)), 0);
    assert_eq!(vram.room(), room - 1);

    let next = vram.add_tile(set, 3);
    assert_eq!(next.index(), 1);
}

#[test]
fn only_a_miss_copies_the_tile() {
    let data = words(4);
    let mut vram = VRamManager::new();
    let set = vram.add_tileset(TileSet::new(&data, TileFormat::FourBpp));
    let index = vram.add_tile(set, 2);
    let stores = vram.take_uploads();
    assert_eq!(stores.len(), 8);
    for (i, store) in stores.iter().enumerate() {
        assert_eq!(store.address, 0x0600_0000 + 4 * (index.index() as usize * 8 + i));
        assert_eq!(store.value, 1000 + 2 * 8 + i as u32);
    }
    vram.add_tile(set, 2);
    assert!(vram.take_uploads().is_empty());
}

#[test]
fn a_tile_cached_from_a_removed_tileset_is_not_a_hit_for_its_successor() {
    let old_data = words(2);
    let new_data: Vec<u32> = (0..16).map(|i| 5000 + i as u32).collect();
    let mut vram = VRamManager::new();
    let old_set = vram.add_tileset(TileSet::new(&old_data, TileFormat::FourBpp));
    let cached = vram.add_tile(old_set, 1);
    vram.remove_tileset(old_set);
    let new_set = vram.add_tileset(TileSet::new(&new_data, TileFormat::FourBpp));
    assert_eq!(new_set.id(), old_set.id());
    vram.take_uploads();
    let fresh = vram.add_tile(new_set, 1);
    assert_ne!(fresh.index(), cached.index());
    let stores = vram.take_uploads();
    assert_eq!(stores.len(), 8);
    assert_eq!(stores[0].value, 5008);
    assert!(vram.is_counted(cached));
}

#[test]
fn a_tile_beyond_its_tileset_cannot_be_added() {
    let data = words(2);
    let mut vram = VRamManager::new();
    let set = vram.add_tileset(TileSet::new(&data, TileFormat::FourBpp));
    assert!(vram.check_can_add_tile(set, 1));
    assert!(!vram.check_can_add_tile(set, 2));
    vram.remove_tileset(set);
    assert!(!vram.check_can_add_tile(set, 1));
}

#[test]
fn headroom_counts_free_slots() {
    let data = words(2);
    let mut vram = VRamManager::new();
    let set = vram.add_tileset(TileSet::new(&data, TileFormat::FourBpp));
    assert!(vram.has_headroom(1023));
    assert!(!vram.has_headroom(1024));
    vram.add_tile(set, 1);
    assert!(vram.has_headroom(1022));
    assert!(!vram.has_headroom(1023));
}

#[test]
fn raw_palettes_are_copied_as_they_are() {
    let mut vram = VRamManager::new();
    let stores = vram.set_background_palette_raw(&[7, 8, 9]);
    assert_eq!(stores.len(), 3);
    assert_eq!((stores[0].address, stores[0].value), (0x0500_0000, 7));
    assert_eq!((stores[1].address, stores[1].value), (0x0500_0002, 8));
    assert_eq!((stores[2].address, stores[2].value), (0x0500_0004, 9));
}

#[test]
fn palettes_are_copied_bank_after_bank() {
    let mut vram = VRamManager::new();
    let mut first = [0u16; 16];
    let mut second = [0u16; 16];
    for i in 0..16 {
        first[i] = 100 + i as u16;
        second[i] = 200 + i as u16;
    }
    let palettes = [Palette16::new(1, first), Palette16::new(2, second)];
    let stores = vram.set_background_palettes(&palettes);
    assert_eq!(stores.len(), 32);
    for i in 0..16 {
        assert_eq!(stores[i].address, 0x0500_0000 + 2 * i);
        assert_eq!(stores[i].value, 100 + i as u16);
        assert_eq!(stores[16 + i].address, 0x0500_0000 + 2 * (16 + i));
        assert_eq!(stores[16 + i].value, 200 + i as u16);
    }
}

#[test]
fn a_tile_that_left_the_cache_is_copied_again() {
    let data = words(4);
    let mut vram = VRamManager::new();
    let set = vram.add_tileset(TileSet::new(&data, TileFormat::FourBpp));
    let first = vram.add_tile(set, 2);
    vram.take_uploads();
    vram.remove_tile(first);
    assert!(vram.cached_slot(set, 2).is_none());
    assert!(vram.slot_tile(first).is_none());
    let again = vram.add_tile(set, 2);
    assert_eq!(again.index(), first.index());
    assert_eq!(vram.take_uploads().len(), 8);
    assert_eq!(vram.reference_count(again), 1);
    assert_eq!(vram.cached_slot(set, 2).unwrap().index(), again.index());
    let key = vram.slot_tile(again).unwrap();
    assert_eq!((key.0, key.1), (set.id(), 2));
    assert!(vram.tile_in_bounds(set, 3));
    assert!(!vram.tile_in_bounds(set, 4));
}
