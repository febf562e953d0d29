use std::cell::Cell;

use agb::geometry::Vector2D;
use agb::hardware::Priority;
use agb::infinite_map::{exposed_line, InfiniteScrolledMap};
use agb::tile::{TileFormat, TileSet, TileSetReference, TileSetting};
use agb::tiled::Tiled0;
use agb::vram::VRamManager;

fn words(tiles: usize) -> Vec<u32> {
    (0..tiles * 8).map(|i| i as u32).collect()
}

fn tile_for(x: i32, y: i32) -> u16 {
    ((x + 2 * y).rem_euclid(5) + 1) as u16
}

#[test]
fn init_fills_the_window_from_the_fetch_function() {
    let data = words(8);
    let mut vram = VRamManager::new();
    let set = vram.add_tileset(TileSet::new(&data, TileFormat::FourBpp));
    let mut tiled = Tiled0::new();
    let loan = tiled.background(Priority::Highest);
    let calls = Cell::new(0usize);
    let fetch = |p: Vector2D<i32>| -> (TileSetReference, TileSetting) {
        calls.set(calls.get() + 1);
        (set, TileSetting::new(tile_for(p.x, p.y), false, false, 0))
    };
    let mut window = InfiniteScrolledMap::new(loan, fetch);
    window.init(&mut vram, Vector2D::new(0, 0));
    assert_eq!(calls.get(), 31 * 21);
    assert_eq!((window.pos().x, window.pos().y), (0, 0));
    assert_eq!((window.offset().x, window.offset().y), (0, 0));
    assert_eq!(window.map().get_scroll_pos().x, 0);
    assert_eq!(window.map().get_scroll_pos().y, 0);
    // the tiles were first asked for in the order 1, 2, 3, 4, 5, so that
    // each lies in the slot of its own number
    for y in 0..21u16 {
        for x in 0..31u16 {
            let raw = window.map().tile_at(Vector2D::new(x, y));
            assert_eq!(raw & 0x3ff, tile_for(x as i32, y as i32));
        }
    }
    assert_eq!(window.map().tile_at(Vector2D::new(31, 0)), 0);
    assert_eq!(window.map().tile_at(Vector2D::new(0, 21)), 0);
    assert_eq!(vram.room(), 1023 - 5);
}

#[test]
fn init_off_the_tile_grid_scrolls_by_the_rest() {
    let data = words(8);
    let mut vram = VRamManager::new();
    let set = vram.add_tileset(TileSet::new(&data, TileFormat::FourBpp));
    let mut tiled = Tiled0::new();
    let loan = tiled.background(Priority::Highest);
    let calls = Cell::new(0usize);
    let fetch = |p: Vector2D<i32>| -> (TileSetReference, TileSetting) {
        calls.set(calls.get() + 1);
        (set, TileSetting::new(tile_for(p.x, p.y), false, false, 0))
    };
    let mut window = InfiniteScrolledMap::new(loan, fetch);
    window.init(&mut vram, Vector2D::new(5, -3));
    assert_eq!(calls.get(), 32 * 22);
    assert_eq!((window.offset().x, window.offset().y), (0, -1));
    assert_eq!(window.map().get_scroll_pos().x, 5);
    assert_eq!(window.map().get_scroll_pos().y, 5);
    let raw = window.map().tile_at(Vector2D::new(0, 0));
    assert_ne!(raw, 0);
    assert!(window.map().dirty());
}

#[test]
fn a_step_of_one_pixel_fetches_one_column_at_most() {
    let data = words(8);
    let mut vram = VRamManager::new();
    let set = vram.add_tileset(TileSet::new(&data, TileFormat::FourBpp));
    let mut tiled = Tiled0::new();
    let loan = tiled.background(Priority::Highest);
    let calls = Cell::new(0usize);
    let fetch = |p: Vector2D<i32>| -> (TileSetReference, TileSetting) {
        calls.set(calls.get() + 1);
        (set, TileSetting::new(tile_for(p.x, p.y), false, false, 0))
    };
    let mut window = InfiniteScrolledMap::new(loan, fetch);
    window.init(&mut vram, Vector2D::new(0, 0));

    calls.set(0);
    window.set_pos(&mut vram, Vector2D::new(1, 0));
    assert_eq!(calls.get(), 0);
    assert_eq!(window.map().get_scroll_pos().x, 1);
    assert_eq!((window.pos().x, window.pos().y), (1, 0));

    for x in 2..8 {
        window.set_pos(&mut vram, Vector2D::new(x, 0));
    }
    assert_eq!(calls.get(), 0);

    window.set_pos(&mut vram, Vector2D::new(8, 0));
    assert_eq!(calls.get(), 22);
    assert_eq!(window.map().get_scroll_pos().x, 8);
    // the column of logical tile 31 was fetched, from row -1 to row 20
    for y in 0..21u16 {
        let raw = window.map().tile_at(Vector2D::new(31, y));
        assert_eq!(raw & 0x3ff != 0, true);
    }
    assert_ne!(window.map().tile_at(Vector2D::new(31, 31)), 0);
    assert_eq!(window.map().tile_at(Vector2D::new(31, 21)), 0);

    calls.set(0);
    window.set_pos(&mut vram, Vector2D::new(7, 0));
    assert_eq!(calls.get(), 22);
    assert_eq!((window.offset().x, window.offset().y), (0, 0));
}

#[test]
fn a_step_down_fetches_one_row() {
    let data = words(8);
    let mut vram = VRamManager::new();
    let set = vram.add_tileset(TileSet::new(&data, TileFormat::FourBpp));
    let mut tiled = Tiled0::new();
    let loan = tiled.background(Priority::Highest);
    let calls = Cell::new(0usize);
    let fetch = |p: Vector2D<i32>| -> (TileSetReference, TileSetting) {
        calls.set(calls.get() + 1);
        (set, TileSetting::new(tile_for(p.x, p.y), false, false, 0))
    };
    let mut window = InfiniteScrolledMap::new(loan, fetch);
    window.init(&mut vram, Vector2D::new(0, 7));
    calls.set(0);
    window.set_pos(&mut vram, Vector2D::new(0, 8));
    assert_eq!(calls.get(), 32);
    assert_eq!(window.map().get_scroll_pos().y, 8);
    // logical row 21 lies in grid row 21, and is filled over the whole width
    for x in 0..32u16 {
        assert_ne!(window.map().tile_at(Vector2D::new(x, 21)), 0);
    }
}

#[test]
fn a_diagonal_step_across_both_tile_borders_fetches_a_column_and_a_row() {
    let data = words(8);
    let mut vram = VRamManager::new();
    let set = vram.add_tileset(TileSet::new(&data, TileFormat::FourBpp));
    let mut tiled = Tiled0::new();
    let loan = tiled.background(Priority::Highest);
    let calls = Cell::new(0usize);
    let fetch = |p: Vector2D<i32>| -> (TileSetReference, TileSetting) {
        calls.set(calls.get() + 1);
        (set, TileSetting::new(tile_for(p.x, p.y), false, false, 0))
    };
    let mut window = InfiniteScrolledMap::new(loan, fetch);
    window.init(&mut vram, Vector2D::new(7, 7));
    calls.set(0);
    window.set_pos(&mut vram, Vector2D::new(8, 8));
    assert_eq!(calls.get(), 22 + 32);
}

#[test]
fn a_move_of_more_than_eighty_pixels_fills_the_window_anew() {
    let data = words(8);
    let mut vram = VRamManager::new();
    let set = vram.add_tileset(TileSet::new(&data, TileFormat::FourBpp));
    let mut tiled = Tiled0::new();
    let loan = tiled.background(Priority::Highest);
    let calls = Cell::new(0usize);
    let fetch = |p: Vector2D<i32>| -> (TileSetReference, TileSetting) {
        calls.set(calls.get() + 1);
        (set, TileSetting::new(tile_for(p.x, p.y), false, false, 0))
    };
    let mut window = InfiniteScrolledMap::new(loan, fetch);
    window.init(&mut vram, Vector2D::new(0, 0));

    calls.set(0);
    window.set_pos(&mut vram, Vector2D::new(80, 0));
    assert!(calls.get() <= 22);
    assert_eq!((window.offset().x, window.offset().y), (0, 0));

    calls.set(0);
    window.set_pos(&mut vram, Vector2D::new(80 + 81, 0));
    assert_eq!(calls.get(), 32 * 21);
    assert_eq!((window.offset().x, window.offset().y), (20, 0));
    assert_eq!(window.map().get_scroll_pos().x, 1);
    assert_eq!((window.pos().x, window.pos().y), (161, 0));
}

#[test]
fn the_scroll_wraps_at_256_pixels() {
    let data = words(8);
    let mut vram = VRamManager::new();
    let set = vram.add_tileset(TileSet::new(&data, TileFormat::FourBpp));
    let mut tiled = Tiled0::new();
    let loan = tiled.background(Priority::Highest);
    let fetch = |p: Vector2D<i32>| -> (TileSetReference, TileSetting) {
        (set, TileSetting::new(tile_for(p.x, p.y), false, false, 0))
    };
    let mut window = InfiniteScrolledMap::new(loan, fetch);
    window.init(&mut vram, Vector2D::new(0, 0));
    window.set_pos(&mut vram, Vector2D::new(-3, -1));
    assert_eq!(window.map().get_scroll_pos().x, 253);
    assert_eq!(window.map().get_scroll_pos().y, 255);
    let mut x = -3;
    while x < 300 {
        x += 50;
        window.set_pos(&mut vram, Vector2D::new(x, -1));
    }
    assert_eq!(window.map().get_scroll_pos().x, (x.rem_euclid(256)) as u16);
}

#[test]
fn the_exposed_line_is_the_leading_edge() {
    assert_eq!(exposed_line(0, 7, 30), None);
    assert_eq!(exposed_line(7, 8, 30), Some(31));
    assert_eq!(exposed_line(8, 7, 30), Some(0));
    assert_eq!(exposed_line(0, -1, 30), Some(-1));
    assert_eq!(exposed_line(-1, 0, 20), Some(20));
    assert_eq!(exposed_line(15, 16, 20), Some(22));
}

#[test]
fn the_window_commits_and_hands_back_its_layer() {
    let data = words(8);
    let mut vram = VRamManager::new();
    let set = vram.add_tileset(TileSet::new(&data, TileFormat::FourBpp));
    let mut tiled = Tiled0::new();
    let loan = tiled.background(Priority::High);
    let fetch = |_p: Vector2D<i32>| -> (TileSetReference, TileSetting) {
        (set, TileSetting::new(1, false, false, 0))
    };
    let mut window = InfiniteScrolledMap::new(loan, fetch);
    window.init(&mut vram, Vector2D::new(0, 0));
    assert_eq!(window.show(0), 0x0100);
    assert_eq!(window.conceal(0x0100), 0);
    let stores = window.commit();
    assert_eq!(stores.len(), 3 + 31 * 21);
    assert_eq!(stores[0].value, 1 | (16 << 8));
    assert_eq!(stores[3].value, 1);
    assert_eq!(window.commit().len(), 3);
    let loan = window.into_loan();
    assert_eq!(loan.background_id(), 0);
    tiled.release(loan);
    assert_eq!(tiled.free_background(), Some(0));
}

#[test]
fn a_boxed_fetch_function_serves_as_well() {
    let data = words(8);
    let mut vram = VRamManager::new();
    let set = vram.add_tileset(TileSet::new(&data, TileFormat::FourBpp));
    let mut tiled = Tiled0::new();
    let loan = tiled.background(Priority::Highest);
    let fetch: Box<dyn Fn(Vector2D<i32>) -> (TileSetReference, TileSetting)> =
        Box::new(move |p: Vector2D<i32>| {
            let tile = if p.x == 0 && p.y == 0 { 0 } else { 2 };
            (set, TileSetting::new(tile, p.x < 0, false, 1))
        });
    let mut window = InfiniteScrolledMap::new(loan, fetch);
    window.init(&mut vram, Vector2D::new(-8, 0));
    assert_eq!((window.offset().x, window.offset().y), (-1, 0));
    // grid cell (0, 0) stands for logical tile (-1, 0), cell (1, 0) for the
    // empty tile at (0, 0)
    assert_eq!(window.map().tile_at(Vector2D::new(0, 0)), 1 | 1024 | 4096);
    assert_eq!(window.map().tile_at(Vector2D::new(1, 0)), 0);
    assert_eq!(window.map().tile_at(Vector2D::new(2, 0)), 1 | 4096);
    assert_eq!(vram.reference_count(agb::tile::TileIndex::new(1)) as usize, 31 * 21 - 1);
    assert_eq!(vram.take_uploads().len(), 8);
}

#[test]
fn a_window_over_few_tiles_fills_a_nearly_full_tile_store() {
    // one layer shows a picture of 600 distinct tiles: 423 slots are left,
    // fewer than a window has cells
    let picture = words(601);
    let world = words(51);
    let mut vram = VRamManager::new();
    let picture_set = vram.add_tileset(TileSet::new(&picture, TileFormat::FourBpp));
    let world_set = vram.add_tileset(TileSet::new(&world, TileFormat::FourBpp));
    let mut tiled = Tiled0::new();
    let mut still = tiled.background(Priority::Low);
    for i in 0..600u16 {
        let pos = Vector2D::new(i % 32, i / 32);
        still.map_mut().set_tile(&mut vram, pos, picture_set, TileSetting::new(i + 1, false, false, 0));
    }
    assert_eq!(vram.room(), 423);
    assert!(!vram.has_headroom(31 * 21));

    let loan = tiled.background(Priority::Highest);
    let calls = Cell::new(0usize);
    let fetch = |p: Vector2D<i32>| -> (TileSetReference, TileSetting) {
        calls.set(calls.get() + 1);
        let tile = (p.x * 7 + p.y * 3).rem_euclid(50) as u16 + 1;
        (world_set, TileSetting::new(tile, false, false, 0))
    };
    let mut window = InfiniteScrolledMap::new(loan, fetch);
    assert_eq!(window.try_init(&mut vram, Vector2D::new(0, 0)), None);
    assert_eq!(calls.get(), 31 * 21);
    assert_eq!(vram.room(), 423 - 50);
    assert_eq!((window.offset().x, window.offset().y), (0, 0));

    calls.set(0);
    assert_eq!(window.try_set_pos(&mut vram, Vector2D::new(8, 0)), None);
    assert_eq!(calls.get(), 22);
    assert_eq!(window.map().get_scroll_pos().x, 8);
    assert_eq!(vram.room(), 423 - 50);

    calls.set(0);
    assert_eq!(window.try_set_pos(&mut vram, Vector2D::new(200, 50)), None);
    assert_eq!(calls.get(), 31 * 22);
    assert_eq!((window.offset().x, window.offset().y), (25, 6));
    assert_eq!(window.map().get_scroll_pos().x, 0);
    assert_eq!(window.map().get_scroll_pos().y, 2);
    assert_eq!(vram.room(), 423 - 50);
    assert!(window.map().is_backed_by(&vram));
    assert!(still.map().is_backed_by(&vram));
}

#[test]
fn a_fill_stops_at_the_tile_that_cannot_be_set() {
    let data = words(4);
    let mut vram = VRamManager::new();
    let set = vram.add_tileset(TileSet::new(&data, TileFormat::FourBpp));
    let mut tiled = Tiled0::new();
    let loan = tiled.background(Priority::Highest);
    let calls = Cell::new(0usize);
    // logical tile (5, 2) asks for a tile beyond the tileset
    let fetch = |p: Vector2D<i32>| -> (TileSetReference, TileSetting) {
        calls.set(calls.get() + 1);
        let tile = if p.x == 5 && p.y == 2 { 9 } else { 1 };
        (set, TileSetting::new(tile, false, false, 0))
    };
    let mut window = InfiniteScrolledMap::new(loan, fetch);
    window.map();
    let stopped = window.try_init(&mut vram, Vector2D::new(0, 0));
    assert_eq!(stopped, Some(2 * 31 + 5));
    assert_eq!(calls.get(), 2 * 31 + 5 + 1);
    assert_eq!((window.pos().x, window.pos().y), (0, 0));
    assert_ne!(window.map().tile_at(Vector2D::new(4, 2)), 0);
    assert_eq!(window.map().tile_at(Vector2D::new(5, 2)), 0);
    assert_eq!(window.map().tile_at(Vector2D::new(6, 2)), 0);
    assert_eq!(vram.reference_count(agb::tile::TileIndex::new(1)) as usize, 2 * 31 + 5);
}

#[test]
fn a_move_stops_at_a_stale_handle() {
    let data = words(4);
    let mut vram = VRamManager::new();
    let set = vram.add_tileset(TileSet::new(&data, TileFormat::FourBpp));
    let mut tiled = Tiled0::new();
    let loan = tiled.background(Priority::Highest);
    // the exposed column asks for a tile that is not cached
    let fetch = |p: Vector2D<i32>| -> (TileSetReference, TileSetting) {
        let tile = if p.x == 31 { 2 } else { 1 };
        (set, TileSetting::new(tile, false, false, 0))
    };
    let mut window = InfiniteScrolledMap::new(loan, fetch);
    assert_eq!(window.try_init(&mut vram, Vector2D::new(0, 0)), None);
    vram.remove_tileset(set);
    // tiles that are cached can still be had
    assert_eq!(window.try_set_pos(&mut vram, Vector2D::new(0, 8)), None);
    assert_eq!(window.map().get_scroll_pos().y, 8);
    // the tile of the column can not
    assert_eq!(window.try_set_pos(&mut vram, Vector2D::new(8, 8)), Some(0));
    assert_eq!((window.pos().x, window.pos().y), (8, 8));
    assert_eq!(window.map().get_scroll_pos().x, 0);
    assert_eq!(window.map().get_scroll_pos().y, 8);
}

#[test]
fn a_move_stops_in_the_row_after_the_column() {
    let data = words(4);
    let mut vram = VRamManager::new();
    let set = vram.add_tileset(TileSet::new(&data, TileFormat::FourBpp));
    let mut tiled = Tiled0::new();
    let loan = tiled.background(Priority::Highest);
    // once the world has changed, logical tile (3, 21), in the row that a
    // move down exposes, cannot be set
    let changed = Cell::new(false);
    let fetch = |p: Vector2D<i32>| -> (TileSetReference, TileSetting) {
        let tile = if changed.get() && p.x == 3 && p.y == 21 { 7 } else { 1 };
        (set, TileSetting::new(tile, false, false, 0))
    };
    let mut window = InfiniteScrolledMap::new(loan, fetch);
    assert_eq!(window.try_init(&mut vram, Vector2D::new(7, 7)), None);
    changed.set(true);
    // the column of 22 is set, and of the row the tiles at x = 0, 1, 2
    assert_eq!(window.try_set_pos(&mut vram, Vector2D::new(8, 8)), Some(22 + 3));
    assert_eq!(window.map().get_scroll_pos().x, 7);
}
