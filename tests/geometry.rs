use graphiclity::{Color, Vec2};

#[test]
fn vec2_new_keeps_coordinates() {
    let v = Vec2::new(-3, 7);
    assert_eq!(v.x, -3);
    assert_eq!(v.y, 7);
}

#[test]
fn vec2_as_u32_tuple_raises_negatives_to_zero() {
    assert_eq!(Vec2::new(-5, 9).as_u32_tuple(), (0, 9));
    assert_eq!(Vec2::new(12, -1).as_u32_tuple(), (12, 0));
    assert_eq!(Vec2::new(i32::MAX, 0).as_u32_tuple(), (2147483647, 0));
}

#[test]
fn vec2_from_integer_pair_is_identity() {
    let v: Vec2 = Vec2::from((4, -8));
    assert_eq!(v, Vec2::new(4, -8));
}

#[test]
fn vec2_adds_and_subtracts_componentwise() {
    let a = Vec2::new(2, 3);
    let b = Vec2::new(10, -4);
    assert_eq!(a + b, Vec2::new(12, -1));
    assert_eq!(a - b, Vec2::new(-8, 7));
}

#[test]
fn color_rgb_is_opaque() {
    let c = Color::rgb(128, 23, 255);
    assert_eq!((c.r, c.g, c.b, c.a), (128, 23, 255, 255));
}

#[test]
fn named_colors_have_their_channels() {
    assert_eq!(Color::black(), Color::rgb(0, 0, 0));
    assert_eq!(Color::white(), Color::rgb(255, 255, 255));
    assert_eq!(Color::red(), Color::rgb(255, 0, 0));
    assert_eq!(Color::green(), Color::rgb(0, 255, 0));
    assert_eq!(Color::blue(), Color::rgb(0, 0, 255));
    assert_eq!(Color::yellow(), Color::rgb(255, 255, 0));
    assert_eq!(Color::cyan(), Color::rgb(0, 255, 255));
    assert_eq!(Color::magenta(), Color::rgb(255, 0, 255));
}
