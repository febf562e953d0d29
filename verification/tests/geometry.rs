use agb::geometry::{div_ceil, div_floor};

#[test]
fn floor_division_rounds_down() {
    assert_eq!(div_floor(7, 8), 0);
    assert_eq!(div_floor(8, 8), 1);
    assert_eq!(div_floor(-1, 8), -1);
    assert_eq!(div_floor(-8, 8), -1);
    assert_eq!(div_floor(-9, 8), -2);
    assert_eq!(div_floor(7, -2), -4);
    assert_eq!(div_floor(-7, -2), 3);
}

#[test]
fn ceiling_division_rounds_up() {
    assert_eq!(div_ceil(7, 8), 1);
    assert_eq!(div_ceil(8, 8), 1);
    assert_eq!(div_ceil(9, 8), 2);
    assert_eq!(div_ceil(-1, 8), 0);
    assert_eq!(div_ceil(-8, 8), -1);
    assert_eq!(div_ceil(-7, -2), 4);
    assert_eq!(div_ceil(7, -2), -3);
}
