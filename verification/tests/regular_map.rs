use agb::geometry::Vector2D;
use agb::hardware::Priority;
use agb::tile::{TileFormat, TileIndex, TileSet, TileSetting};
use agb::tiled::Tiled0;
use agb::vram::VRamManager;

fn words(tiles: usize) -> Vec<u32> {
    (0..tiles * 8).map(|i| i as u32).collect()
}

#[test]
fn emptying_a_cell_releases_its_slot_and_marks_the_map_dirty() {
    let data = words(4);
    let mut vram = VRamManager::new();
    let set = vram.add_tileset(TileSet::new(&data, TileFormat::FourBpp));
    let mut tiled = Tiled0::new();
    let mut loan = tiled.background(Priority::Highest);
    let map = loan.map_mut();

    map.set_tile(&mut vram, Vector2D::new(0, 0), set, TileSetting::new(2, false, false, 0));
    let raw = map.tile_at(Vector2D::new(0, 0));
    assert_ne!(raw, 0);
    let slot = TileIndex::new(raw & 0x3ff);
    assert!(vram.is_counted(slot));
    map.commit();
    assert!(!map.dirty());

    map.set_tile(&mut vram, Vector2D::new(0, 0), set, TileSetting::new(0, false, false, 0));
    assert_eq!(map.tile_at(Vector2D::new(0, 0)), 0);
    assert!(!vram.is_counted(slot));
    assert!(map.dirty());
}

#[test]
fn a_cell_holds_slot_flips_and_palette() {
    let data = words(4);
    let mut vram = VRamManager::new();
    let set = vram.add_tileset(TileSet::new(&data, TileFormat::FourBpp));
    let mut tiled = Tiled0::new();
    let mut loan = tiled.background(Priority::Highest);
    let map = loan.map_mut();
    map.set_tile(&mut vram, Vector2D::new(3, 2), set, TileSetting::new(3, true, false, 5));
    assert_eq!(map.tile_at(Vector2D::new(3, 2)), 1 + 1024 + 5 * 4096);
    assert_eq!(map.tile_at(Vector2D::new(2, 3)), 0);
}

#[test]
fn two_cells_with_the_same_tile_share_a_slot() {
    let data = words(4);
    let mut vram = VRamManager::new();
    let set = vram.add_tileset(TileSet::new(&data, TileFormat::FourBpp));
    let mut tiled = Tiled0::new();
    let mut loan = tiled.background(Priority::Highest);
    let map = loan.map_mut();
    map.set_tile(&mut vram, Vector2D::new(0, 0), set, TileSetting::new(3, false, false, 0));
    map.set_tile(&mut vram, Vector2D::new(1, 0), set, TileSetting::new(3, true, false, 0));
    let first = map.tile_at(Vector2D::new(0, 0)) & 0x3ff;
    let second = map.tile_at(Vector2D::new(1, 0)) & 0x3ff;
    assert_eq!(first, second);
    assert_eq!(vram.reference_count(TileIndex::new(first)), 2);
    assert_eq!(vram.room(), 1022);
}

#[test]
fn setting_a_cell_to_what_it_shows_leaves_the_map_clean() {
    let data = words(4);
    let mut vram = VRamManager::new();
    let set = vram.add_tileset(TileSet::new(&data, TileFormat::FourBpp));
    let mut tiled = Tiled0::new();
    let mut loan = tiled.background(Priority::Highest);
    let map = loan.map_mut();
    let setting = TileSetting::new(1, false, true, 1);
    map.set_tile(&mut vram, Vector2D::new(4, 4), set, setting);
    map.commit();
    map.set_tile(&mut vram, Vector2D::new(4, 4), set, setting);
    assert!(!map.dirty());
    map.set_tile(&mut vram, Vector2D::new(5, 4), set, TileSetting::new(0, false, false, 0));
    assert!(!map.dirty());
}

#[test]
fn clear_releases_every_cell() {
    let data = words(4);
    let mut vram = VRamManager::new();
    let set = vram.add_tileset(TileSet::new(&data, TileFormat::FourBpp));
    let mut tiled = Tiled0::new();
    let mut loan = tiled.background(Priority::Highest);
    let map = loan.map_mut();
    map.set_tile(&mut vram, Vector2D::new(0, 0), set, TileSetting::new(1, false, false, 0));
    map.set_tile(&mut vram, Vector2D::new(9, 9), set, TileSetting::new(1, false, false, 0));
    map.set_tile(&mut vram, Vector2D::new(31, 31), set, TileSetting::new(2, false, false, 0));
    assert_eq!(vram.room(), 1021);
    map.clear(&mut vram);
    assert_eq!(map.tile_at(Vector2D::new(0, 0)), 0);
    assert_eq!(map.tile_at(Vector2D::new(9, 9)), 0);
    assert_eq!(map.tile_at(Vector2D::new(31, 31)), 0);
    assert_eq!(vram.room(), 1023);
    assert!(!vram.is_counted(TileIndex::new(1)));
    assert!(!vram.is_counted(TileIndex::new(2)));
}

#[test]
fn commit_sends_the_registers_and_the_window() {
    let mut tiled = Tiled0::new();
    let mut loan = tiled.background(Priority::Low);
    let map = loan.map_mut();
    let stores = map.commit();
    assert_eq!(stores.len(), 3 + 31 * 21);
    assert_eq!((stores[0].address, stores[0].value), (0x0400_0008, 2 | (16 << 8)));
    assert_eq!((stores[1].address, stores[1].value), (0x0400_0010, 0));
    assert_eq!((stores[2].address, stores[2].value), (0x0400_0012, 0));
    let base = 0x0600_0000 + 0x800 * 16;
    for store in &stores[3..] {
        let cell = (store.address - base) / 2;
        assert!(cell % 32 < 31);
        assert!(cell / 32 < 21);
        assert_eq!(store.value, 0);
    }
    assert_eq!(stores[3].address, base);
    assert_eq!(stores[4].address, base + 2);
    assert_eq!(stores[3 + 31].address, base + 2 * 32);
    assert!(!map.dirty());
}

#[test]
fn commit_of_a_clean_map_sends_the_registers_only() {
    let mut tiled = Tiled0::new();
    let mut loan = tiled.background(Priority::Highest);
    let map = loan.map_mut();
    map.commit();
    map.set_scroll_pos(Vector2D::new(12, 34));
    let stores = map.commit();
    assert_eq!(stores.len(), 3);
    assert_eq!(stores[1].value, 12);
    assert_eq!(stores[2].value, 34);
}

#[test]
fn commit_leaves_cells_outside_the_window_alone() {
    let data = words(4);
    let mut vram = VRamManager::new();
    let set = vram.add_tileset(TileSet::new(&data, TileFormat::FourBpp));
    let mut tiled = Tiled0::new();
    let mut loan = tiled.background(Priority::Highest);
    let map = loan.map_mut();
    map.commit();
    map.set_tile(&mut vram, Vector2D::new(31, 31), set, TileSetting::new(1, false, false, 0));
    map.set_tile(&mut vram, Vector2D::new(5, 5), set, TileSetting::new(1, false, false, 0));
    let stores = map.commit();
    let base = 0x0600_0000 + 0x800 * 16;
    let outside = base + 2 * (31 * 32 + 31);
    let inside = base + 2 * (5 * 32 + 5);
    assert!(stores.iter().all(|store| store.address != outside));
    assert_eq!(stores.iter().filter(|store| store.address == inside).count(), 1);
    let sent = stores.iter().find(|store| store.address == inside).unwrap();
    assert_eq!(sent.value, map.tile_at(Vector2D::new(5, 5)));
}

#[test]
fn the_window_wraps_with_the_scroll() {
    let mut tiled = Tiled0::new();
    let mut loan = tiled.background(Priority::Highest);
    let map = loan.map_mut();
    map.set_scroll_pos(Vector2D::new(30 * 8 + 3, 8));
    assert_eq!(map.get_scroll_pos().x, 243);
    assert_eq!(map.get_scroll_pos().y, 8);
    let stores = map.commit();
    assert_eq!(stores.len(), 3 + 32 * 21);
    let base = 0x0600_0000 + 0x800 * 16;
    assert_eq!(stores[3].address, base + 2 * (32 + 30));
    assert_eq!(stores[4].address, base + 2 * (32 + 31));
    assert_eq!(stores[5].address, base + 2 * 32);
    for store in &stores[3..] {
        let row = (store.address - base) / 2 / 32;
        assert!((1..22).contains(&row));
    }
}

#[test]
fn show_sets_the_layer_bit_and_conceal_clears_it() {
    let mut tiled = Tiled0::new();
    let mut first = tiled.background(Priority::Highest);
    let mut second = tiled.background(Priority::Highest);
    assert_eq!(first.map_mut().show(0x0003), 0x0103);
    assert_eq!(second.map_mut().show(0x0003), 0x0203);
    assert_eq!(first.map_mut().conceal(0xffff), 0xfeff);
    assert_eq!(second.map_mut().conceal(0xffff), 0xfdff);
}

#[test]
fn register_addresses_follow_the_layer() {
    let mut tiled = Tiled0::new();
    let _first = tiled.background(Priority::Highest);
    let second = tiled.background(Priority::High);
    let map = second.map();
    assert_eq!(map.bg_control_register(), 0x0400_000a);
    assert_eq!(map.bg_h_offset(), 0x0400_0014);
    assert_eq!(map.bg_v_offset(), 0x0400_0016);
    assert_eq!(map.screenblock_memory(), 0x0600_0000 + 0x800 * 17);
}

#[test]
fn a_cell_can_be_set_when_its_tile_can_be_resolved() {
    let data = words(2);
    let mut vram = VRamManager::new();
    let set = vram.add_tileset(TileSet::new(&data, TileFormat::FourBpp));
    let mut tiled = Tiled0::new();
    let mut loan = tiled.background(Priority::Highest);
    let map = loan.map_mut();
    let inside = TileSetting::new(1, false, false, 0);
    let beyond = TileSetting::new(2, false, false, 0);
    let empty = TileSetting::new(0, false, false, 0);
    assert!(map.can_set_tile(&vram, Vector2D::new(0, 0), set, inside));
    assert!(!map.can_set_tile(&vram, Vector2D::new(0, 0), set, beyond));
    assert!(map.can_set_tile(&vram, Vector2D::new(0, 0), set, empty));
    assert!(!map.can_set_tile(&vram, Vector2D::new(0, 32), set, inside));
    assert!(map.can_set_tile(&vram, Vector2D::new(31, 31), set, inside));
    map.set_tile(&mut vram, Vector2D::new(0, 0), set, inside);
    vram.remove_tileset(set);
    // the tile is cached: another cell can still take it
    assert!(map.can_set_tile(&vram, Vector2D::new(1, 0), set, inside));
    // but the only cell that shows it cannot be set to it again: it would
    // let go of the slot first, and the tileset is gone
    assert!(!map.can_set_tile(&vram, Vector2D::new(0, 0), set, inside));
    assert!(map.can_set_tile(&vram, Vector2D::new(0, 0), set, empty));
}

#[test]
fn a_map_is_backed_while_its_slots_are_counted() {
    let data = words(4);
    let mut vram = VRamManager::new();
    let set = vram.add_tileset(TileSet::new(&data, TileFormat::FourBpp));
    let mut tiled = Tiled0::new();
    let mut loan = tiled.background(Priority::Highest);
    let map = loan.map_mut();
    assert!(map.is_backed_by(&vram));
    map.set_tile(&mut vram, Vector2D::new(0, 0), set, TileSetting::new(1, false, false, 0));
    map.set_tile(&mut vram, Vector2D::new(1, 0), set, TileSetting::new(1, false, false, 0));
    map.set_tile(&mut vram, Vector2D::new(2, 0), set, TileSetting::new(2, false, false, 0));
    assert!(map.is_backed_by(&vram));
    // one reference is taken away behind the map's back
    vram.remove_tile(TileIndex::new(1));
    assert!(!map.is_backed_by(&vram));
    vram.add_tile(set, 1);
    assert!(map.is_backed_by(&vram));
}
