use terminal_gfx::blank_lines;
use terminal_gfx::grey_to_utf8;
use terminal_gfx::types::dot;
use terminal_gfx::types::Vector2;
use terminal_gfx::types::Vector3;

#[test]
fn vector2_new_holds_components() {
    let v = Vector2::new(3i64, -4i64);
    assert_eq!(v.x, 3);
    assert_eq!(v.y, -4);
}

#[test]
fn vector2_extend_appends_z() {
    let v = Vector2::new(1i64, 2i64).extend(5i64);
    assert_eq!(v.x, 1);
    assert_eq!(v.y, 2);
    assert_eq!(v.z, 5);
}

#[test]
fn vector3_new_holds_components() {
    let v = Vector3::new(7i64, 8i64, 9i64);
    assert_eq!(v.x, 7);
    assert_eq!(v.y, 8);
    assert_eq!(v.z, 9);
}

#[test]
fn vector3_add_componentwise() {
    let v = Vector3::new(1i64, -2i64, 3i64).add(Vector3::new(10i64, 20i64, 30i64));
    assert_eq!(v.x, 11);
    assert_eq!(v.y, 18);
    assert_eq!(v.z, 33);
}

#[test]
fn vector3_sub_componentwise() {
    let v = Vector3::new(1i64, -2i64, 3i64).sub(Vector3::new(10i64, 20i64, 30i64));
    assert_eq!(v.x, -9);
    assert_eq!(v.y, -22);
    assert_eq!(v.z, -27);
}

#[test]
fn dot_product_exact() {
    let a = Vector3::new(1i64, 2i64, 3i64);
    let b = Vector3::new(4i64, -5i64, 6i64);
    assert_eq!(dot(a, b), 4 - 10 + 18);
}

#[test]
fn grey_to_utf8_band_boundaries() {
    assert_eq!(grey_to_utf8(0), ' ');
    assert_eq!(grey_to_utf8(41), ' ');
    assert_eq!(grey_to_utf8(42), '.');
    assert_eq!(grey_to_utf8(83), '.');
    assert_eq!(grey_to_utf8(84), ':');
    assert_eq!(grey_to_utf8(125), ':');
    assert_eq!(grey_to_utf8(126), '*');
    assert_eq!(grey_to_utf8(167), '*');
    assert_eq!(grey_to_utf8(168), '8');
    assert_eq!(grey_to_utf8(209), '8');
    assert_eq!(grey_to_utf8(210), '#');
    assert_eq!(grey_to_utf8(255), '#');
}

#[test]
fn blank_lines_tenth_capped_at_five() {
    assert_eq!(blank_lines(0), 0);
    assert_eq!(blank_lines(9), 0);
    assert_eq!(blank_lines(24), 2);
    assert_eq!(blank_lines(50), 5);
    assert_eq!(blank_lines(1000), 5);
}
