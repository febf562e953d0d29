use agb::attributes::{
    Attributes, ObjectAttribute0, ObjectAttribute1Affine, ObjectAttribute1Standard,
    ObjectAttribute2, ObjectMode, HIDDEN_VALUE,
};
use agb::hardware::Priority;

#[test]
fn attribute_0_packs_y_mode_and_shape() {
    let mut a = ObjectAttribute0::new();
    assert_eq!(a.value(), 0);
    a.set_y(0x12);
    assert_eq!(a.value(), 0x0012);
    a.set_object_mode(ObjectMode::Disabled);
    assert_eq!(a.value(), 0x0212);
    assert_eq!(a.object_mode(), ObjectMode::Disabled);
    a.set_shape(2);
    assert_eq!(a.value(), 0x8212);
    a.set_y(0xff);
    assert_eq!(a.value(), 0x82ff);
    a.set_object_mode(ObjectMode::Normal);
    assert_eq!(a.value(), 0x80ff);
    assert_eq!(a.object_mode(), ObjectMode::Normal);
    a.set_shape(0);
    assert_eq!(a.value(), 0x00ff);
}

#[test]
fn a_hidden_row_is_a_disabled_object() {
    let mut a = ObjectAttribute0::new();
    a.set_object_mode(ObjectMode::Disabled);
    assert_eq!(a.value(), HIDDEN_VALUE);
    assert_eq!(HIDDEN_VALUE, 0b10 << 8);
}

#[test]
fn standard_attribute_1_packs_x_flips_and_size() {
    let mut a = ObjectAttribute1Standard::new();
    a.set_x(300);
    assert_eq!(a.value(), 300);
    a.set_horizontal_flip(true);
    assert_eq!(a.value(), 300 | 0x1000);
    a.set_vertical_flip(true);
    assert_eq!(a.value(), 300 | 0x3000);
    a.set_size(3);
    assert_eq!(a.value(), 300 | 0xf000);
    a.set_horizontal_flip(false);
    assert_eq!(a.value(), 300 | 0xe000);
    a.set_x(511);
    assert_eq!(a.value(), 511 | 0xe000);
    a.set_x(0);
    a.set_size(1);
    a.set_vertical_flip(false);
    assert_eq!(a.value(), 0x4000);
}

#[test]
fn affine_attribute_1_packs_x_and_size() {
    let mut a = ObjectAttribute1Affine::new();
    a.set_x(5);
    a.set_size(2);
    assert_eq!(a.value(), 5 | 0x8000);
    a.set_x(256);
    assert_eq!(a.value(), 256 | 0x8000);
}

#[test]
fn attribute_2_packs_tile_priority_and_palette() {
    let mut a = ObjectAttribute2::new();
    a.set_tile_index(5);
    a.set_priority(Priority::Low);
    a.set_palete_bank(3);
    assert_eq!(a.value(), 0x3805);
    a.set_tile_index(1023);
    assert_eq!(a.value(), 0x3bff);
    a.set_priority(Priority::Highest);
    assert_eq!(a.value(), 0x33ff);
    a.set_palete_bank(15);
    assert_eq!(a.value(), 0xf3ff);
}

#[test]
fn attributes_are_sent_to_their_row() {
    let mut attrs = Attributes::new();
    attrs.a0.set_y(9);
    attrs.a1s.set_x(17);
    attrs.a1a.set_x(33);
    attrs.a2.set_tile_index(4);
    let mut stores = Vec::new();
    attrs.commit(2, &mut stores);
    assert_eq!(stores.len(), 3);
    assert_eq!((stores[0].address, stores[0].value), (0x0700_0010, 9));
    assert_eq!((stores[1].address, stores[1].value), (0x0700_0012, 17));
    assert_eq!((stores[2].address, stores[2].value), (0x0700_0014, 4));

    attrs.a0.set_object_mode(ObjectMode::Affine);
    attrs.commit(127, &mut stores);
    assert_eq!(stores.len(), 6);
    assert_eq!((stores[3].address, stores[3].value), (0x0700_0000 + 8 * 127, 9 | 0x100));
    assert_eq!((stores[4].address, stores[4].value), (0x0700_0002 + 8 * 127, 33));
}

#[test]
fn priorities_and_modes_have_their_bits() {
    assert_eq!(Priority::Highest.bits(), 0);
    assert_eq!(Priority::High.bits(), 1);
    assert_eq!(Priority::Low.bits(), 2);
    assert_eq!(Priority::Lowest.bits(), 3);
    assert_eq!(ObjectMode::Normal.bits(), 0);
    assert_eq!(ObjectMode::Affine.bits(), 1);
    assert_eq!(ObjectMode::Disabled.bits(), 2);
    assert_eq!(ObjectMode::AffineDouble.bits(), 3);
}
