use agb::tile::{Tile, TileFormat, TileIndex, TileSet, TileSetting};

#[test]
fn tile_setting_packs_index_flips_and_palette() {
    let setting = TileSetting::new(5, true, false, 3);
    assert_eq!(setting.value(), 5 + 1024 + 3 * 4096);
    assert_eq!(setting.index(), 5);
    assert_eq!(setting.setting(), 1024 + 3 * 4096);

    let setting = TileSetting::new(0, false, true, 15);
    assert_eq!(setting.value(), 2048 + 15 * 4096);
    assert_eq!(setting.index(), 0);
}

#[test]
fn tile_setting_keeps_ten_bits_of_the_index_and_four_of_the_palette() {
    let setting = TileSetting::new(1024 + 7, false, false, 0x1f);
    assert_eq!(setting.index(), 7);
    assert_eq!(setting.value(), 7 + 15 * 4096);
}

#[test]
fn tile_setting_from_raw_is_the_raw_value() {
    let setting = TileSetting::from_raw(0xabcd);
    assert_eq!(setting.value(), 0xabcd);
    assert_eq!(setting.index(), 0xabcd & 0x3ff);
    assert_eq!(setting.setting(), 0xabcd & 0xfc00);
}

#[test]
fn tile_joins_slot_and_flags() {
    let setting = TileSetting::new(77, true, true, 2);
    let tile = Tile::new(TileIndex::new(9), setting);
    assert_eq!(tile.value(), 9 + 1024 + 2048 + 2 * 4096);
    assert_eq!(tile.tile_index().index(), 9);
    assert_eq!(Tile::empty().value(), 0);
}

#[test]
fn four_bits_per_pixel_tiles_take_32_bytes() {
    assert_eq!(TileFormat::FourBpp.tile_size(), 32);
    let words = [1u32, 2, 3, 4, 5, 6, 7, 8];
    let set = TileSet::new(&words, TileFormat::FourBpp);
    assert_eq!(set.tiles(), &words[..]);
}
