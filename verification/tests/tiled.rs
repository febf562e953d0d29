use agb::hardware::Priority;
use agb::tiled::Tiled0;

#[test]
fn four_layers_can_be_had_and_no_fifth() {
    let mut tiled = Tiled0::new();
    let a = tiled.background(Priority::Highest);
    let b = tiled.background(Priority::High);
    let c = tiled.background(Priority::Low);
    assert_eq!(tiled.free_background(), Some(3));
    let d = tiled.background(Priority::Lowest);
    assert_eq!(a.background_id(), 0);
    assert_eq!(b.background_id(), 1);
    assert_eq!(c.background_id(), 2);
    assert_eq!(d.background_id(), 3);
    assert_eq!(tiled.free_background(), None);
}

#[test]
fn a_released_layer_is_lent_out_again() {
    let mut tiled = Tiled0::new();
    let _a = tiled.background(Priority::Highest);
    let b = tiled.background(Priority::Highest);
    let _c = tiled.background(Priority::Highest);
    let _d = tiled.background(Priority::Highest);
    tiled.release(b);
    assert_eq!(tiled.free_background(), Some(1));
    let again = tiled.background(Priority::Highest);
    assert_eq!(again.background_id(), 1);
    assert_eq!(again.map().screenblock_memory(), 0x0600_0000 + 0x800 * 17);
    assert_eq!(tiled.free_background(), None);
}
