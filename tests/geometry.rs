use arcade_survival::geometry::{
    check_collision_circles, integer_sqrt, ring_direction, unit_vector, Vec2,
};

#[test]
fn sqrt_values() {
    assert_eq!(integer_sqrt(0), 0);
    assert_eq!(integer_sqrt(15), 3);
    assert_eq!(integer_sqrt(16), 4);
    assert_eq!(integer_sqrt(u128::MAX), u64::MAX);
}

#[test]
fn unit_vectors() {
    assert_eq!(unit_vector(3, 4), Vec2 { x: 600_000, y: 800_000 });
    assert_eq!(unit_vector(-3, -4), Vec2 { x: -600_000, y: -800_000 });
    assert_eq!(unit_vector(0, 0), Vec2 { x: 0, y: 0 });
    assert_eq!(unit_vector(1, 1), Vec2 { x: 707_107, y: 707_107 });
    assert_eq!(unit_vector(0, -7), Vec2 { x: 0, y: -1_000_000 });
}

#[test]
fn unit_vectors_have_unit_length() {
    for (dx, dy) in [
        (1i64, 1i64),
        (3, 4),
        (-5, 12),
        (100_000_000, 100_000_000),
        (1_000_000_007, -3),
        (1, 8_000_000_000_000),
    ] {
        let u = unit_vector(dx, dy);
        let n = u.x * u.x + u.y * u.y;
        assert!(n >= 1_000_000_000_000 - 5_000_000, "{} {}", dx, dy);
        assert!(n <= 1_000_000_000_000 + 3_000_000, "{} {}", dx, dy);
    }
}

#[test]
fn collision_circles() {
    let c = Vec2 { x: 100_000_000, y: 100_000_000 };
    assert!(check_collision_circles(c, 10_000_000, c, 5_000_000));
    assert!(check_collision_circles(c, 10_000_000, Vec2 { x: 115_000_000, y: 100_000_000 }, 5_000_000));
    assert!(!check_collision_circles(c, 10_000_000, Vec2 { x: 115_000_001, y: 100_000_000 }, 5_000_000));
}

#[test]
fn ring_directions() {
    assert_eq!(ring_direction(0), Vec2 { x: 1_000_000, y: 0 });
    assert_eq!(ring_direction(90), Vec2 { x: 0, y: 1_000_000 });
    assert_eq!(ring_direction(180), Vec2 { x: -1_000_000, y: 0 });
    assert_eq!(ring_direction(270), Vec2 { x: 0, y: -1_000_000 });
    assert_eq!(ring_direction(30), Vec2 { x: 866_025, y: 500_000 });
    assert_eq!(ring_direction(135), Vec2 { x: -707_107, y: 707_107 });
    assert_eq!(ring_direction(360), Vec2 { x: 1_000_000, y: 0 });
}

#[test]
fn ring_directions_match_trigonometry() {
    for deg in 0u32..360 {
        let r = ring_direction(deg);
        let a = (deg as f64).to_radians();
        assert!((r.x as f64 - a.cos() * 1e6).abs() <= 0.5 + 1e-6, "{}", deg);
        assert!((r.y as f64 - a.sin() * 1e6).abs() <= 0.5 + 1e-6, "{}", deg);
        let n = r.x * r.x + r.y * r.y;
        assert!((n - 1_000_000_000_000).abs() <= 2_000_000, "{}", deg);
    }
}
