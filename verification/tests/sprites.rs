use agb::palette16::Palette16;
use agb::sprite::{const_byte_compare, Direction, Graphics, Size, Sprite, Tag, TagMap};

const ALL_SIZES: [(Size, usize, usize, usize, u8, u8); 12] = [
    (Size::S8x8, 8, 8, 1, 0, 0),
    (Size::S16x16, 16, 16, 4, 0, 1),
    (Size::S32x32, 32, 32, 16, 0, 2),
    (Size::S64x64, 64, 64, 64, 0, 3),
    (Size::S16x8, 16, 8, 2, 1, 0),
    (Size::S32x8, 32, 8, 4, 1, 1),
    (Size::S32x16, 32, 16, 8, 1, 2),
    (Size::S64x32, 64, 32, 32, 1, 3),
    (Size::S8x16, 8, 16, 2, 2, 0),
    (Size::S8x32, 8, 32, 4, 2, 1),
    (Size::S16x32, 16, 32, 8, 2, 2),
    (Size::S32x64, 32, 64, 32, 2, 3),
];

#[test]
fn each_size_has_its_extent_tiles_and_codes() {
    for (size, width, height, tiles, shape, scale) in ALL_SIZES {
        assert_eq!(size.to_width_height(), (width, height));
        assert_eq!(size.number_of_tiles(), tiles);
        assert_eq!(size.shape_size(), (shape, scale));
        assert_eq!(Size::from_width_height(width, height), size);
        assert_eq!(Size::try_from_width_height(width, height), Some(size));
    }
}

#[test]
fn other_extents_are_no_size() {
    assert_eq!(Size::try_from_width_height(8, 64), None);
    assert_eq!(Size::try_from_width_height(0, 0), None);
    assert_eq!(Size::try_from_width_height(24, 24), None);
    assert_eq!(Size::try_from_width_height(64, 8), None);
}

#[test]
fn byte_strings_compare_by_length_and_content() {
    assert!(const_byte_compare(b"walk", b"walk"));
    assert!(!const_byte_compare(b"walk", b"wall"));
    assert!(!const_byte_compare(b"walk", b"walks"));
    assert!(const_byte_compare(b"", b""));
}

fn frames<'a>(palette: &'a Palette16, data: &'a [u8], n: usize) -> Vec<Sprite<'a>> {
    (0..n).map(|i| Sprite::new(100 + i, palette, data, Size::S8x8)).collect()
}

#[test]
fn a_sprite_knows_its_size_and_memory() {
    let palette = Palette16::new(1, [0; 16]);
    let data = [0u8; 128];
    let sprite = Sprite::new(7, &palette, &data, Size::S16x16);
    assert_eq!(sprite.id(), 7);
    assert_eq!(sprite.size(), Size::S16x16);
    assert_eq!(sprite.layout(), 128);
    assert_eq!(sprite.palette().id(), 1);
    assert_eq!(sprite.data().len(), 128);
    assert_eq!(Palette16::layout(), 32);
}

#[test]
fn a_forward_animation_repeats() {
    let palette = Palette16::new(1, [0; 16]);
    let data = [0u8; 32];
    let sprites = frames(&palette, &data, 5);
    let tag = Tag::new(&sprites, 1, 3, 0);
    assert_eq!(tag.len(), 3);
    assert_eq!(tag.direction(), Direction::Forward);
    let shown: Vec<usize> = (0..7).map(|i| tag.animation_sprite(i).id()).collect();
    assert_eq!(shown, vec![101, 102, 103, 101, 102, 103, 101]);
    assert_eq!(tag.sprite(2).id(), 103);
    assert_eq!(tag.sprites().len(), 3);
    assert_eq!(tag.sprites()[0].id(), 101);
}

#[test]
fn a_backward_animation_repeats_in_reverse() {
    let palette = Palette16::new(1, [0; 16]);
    let data = [0u8; 32];
    let sprites = frames(&palette, &data, 5);
    let tag = Tag::new(&sprites, 1, 3, 1);
    let shown: Vec<usize> = (0..7).map(|i| tag.animation_sprite(i).id()).collect();
    assert_eq!(shown, vec![103, 102, 101, 103, 102, 101, 103]);
}

#[test]
fn a_pingpong_animation_goes_back_and_forth() {
    let palette = Palette16::new(1, [0; 16]);
    let data = [0u8; 32];
    let sprites = frames(&palette, &data, 5);
    let tag = Tag::new(&sprites, 0, 3, 2);
    assert_eq!(tag.direction(), Direction::Pingpong);
    let shown: Vec<usize> = (0..10).map(|i| tag.animation_sprite(i).id()).collect();
    assert_eq!(shown, vec![100, 101, 102, 103, 102, 101, 100, 101, 102, 103]);
}

#[test]
fn a_single_frame_animates_forward_and_backward() {
    let palette = Palette16::new(1, [0; 16]);
    let data = [0u8; 32];
    let sprites = frames(&palette, &data, 2);
    let forward = Tag::new(&sprites, 1, 1, 0);
    let backward = Tag::new(&sprites, 1, 1, 1);
    assert_eq!(forward.animation_sprite(9).id(), 101);
    assert_eq!(backward.animation_sprite(9).id(), 101);
}

#[test]
fn tags_are_found_by_name() {
    let palette = Palette16::new(1, [0; 16]);
    let data = [0u8; 32];
    let sprites = frames(&palette, &data, 6);
    let tags = [
        ("idle", Tag::new(&sprites, 0, 1, 0)),
        ("walk", Tag::new(&sprites, 2, 4, 2)),
        ("idle", Tag::new(&sprites, 5, 5, 0)),
    ];
    let map = TagMap::new(&tags);
    assert_eq!(map.try_get("walk").unwrap().len(), 3);
    assert_eq!(map.try_get("walk").unwrap().sprite(0).id(), 102);
    assert_eq!(map.try_get("idle").unwrap().len(), 2);
    assert!(map.try_get("run").is_none());
    assert!(map.try_get("wal").is_none());
    assert_eq!(map.get("idle").sprite(1).id(), 101);
    assert_eq!(map.position("walk"), 1);
    assert_eq!(map.position("run"), 3);
    let all = map.values();
    assert_eq!(all.len(), 3);
    assert_eq!(all[2].sprite(0).id(), 105);

    let graphics = Graphics::new(&sprites, &map);
    assert_eq!(graphics.sprites().len(), 6);
    assert_eq!(graphics.tags().get("walk").len(), 3);
}

#[test]
fn directions_are_numbered() {
    assert_eq!(Direction::from_usize(0), Direction::Forward);
    assert_eq!(Direction::from_usize(1), Direction::Backward);
    assert_eq!(Direction::from_usize(2), Direction::Pingpong);
}
