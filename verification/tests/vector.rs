use spatial::{Sign, Vec3};

#[test]
fn test_vec3_i64_add() {
    let v1 = Vec3::new(1i64, 2, 3);
    let v2 = Vec3::new(4i64, 5, 6);
    let v = v1 + v2;
    assert_eq!(v.0, 5);
    assert_eq!(v.1, 7);
    assert_eq!(v.2, 9);
}

#[test]
fn test_vec3_i64_sub() {
    let v1 = Vec3::new(1i64, 2, 3);
    let v2 = Vec3::new(4i64, 6, 8);
    let v = v1 - v2;
    assert_eq!(v, Vec3::new(-3, -4, -5));
}

#[test]
fn test_vec3_i64_cross() {
    let v1 = Vec3::new(1i64, 2, 3);
    let v2 = Vec3::new(4i64, 5, 6);
    let v = v1 * v2;
    assert_eq!(v.0, -3);
    assert_eq!(v.1, 6);
    assert_eq!(v.2, -3);
}

#[test]
fn test_vec3_i64_cross_of_large_components() {
    let v1 = Vec3::new(0i64, 3_000_000_000, 0);
    let v2 = Vec3::new(0i64, 0, 3_000_000_000);
    let v = v1 * v2;
    assert_eq!(v, Vec3::new(9_000_000_000_000_000_000, 0, 0));
}

#[test]
fn test_vec3_i64_dot() {
    let v1 = Vec3::new(1i64, 2, 3);
    let v2 = Vec3::new(4i64, 5, 6);
    assert_eq!(v1 ^ v2, 32);
}

#[test]
fn test_vec3_i64_dot_is_wide() {
    let v1 = Vec3::new(i64::MAX, i64::MIN, 0);
    let v2 = Vec3::new(i64::MAX, i64::MIN, 0);
    let max = i64::MAX as i128;
    let min = i64::MIN as i128;
    assert_eq!(v1 ^ v2, max * max + min * min);
}

#[test]
fn test_vec3_i64_dot_with_cancelling_products() {
    let big = i64::MIN;
    let v1 = Vec3::new(big, big, big);
    let v2 = Vec3::new(big, big, i64::MAX);
    let square = (big as i128) * (big as i128);
    let mixed = (big as i128) * (i64::MAX as i128);
    assert_eq!(v1 ^ v2, square + mixed + square);
}

#[test]
fn test_vec3_zip_and_unzip() {
    let v1 = Vec3::new(1u8, 2, 3);
    let v2 = Vec3::new("a", "b", "c");
    let zipped = v1.zip_components(v2);
    assert_eq!(zipped, Vec3::new((1, "a"), (2, "b"), (3, "c")));
    let (x, y) = zipped.unzip();
    assert_eq!(x, v1);
    assert_eq!(y, v2);
}

#[test]
fn test_vec3_map_components() {
    let v = Vec3::new((1i32, 10i32), (2, 20), (3, 30));
    assert_eq!(v.map_components(|a, b| a + b), Vec3::new(11, 22, 33));
}

#[test]
fn test_vec3_try_zip_components() {
    let v = Vec3::new((1i32, 2i32), (4, 2), (9, 3));
    let halves = v.try_zip_components(|a, b| if a % b == 0 { Some(a / b) } else { None });
    assert_eq!(halves, None);
    let w = Vec3::new((6i32, 2i32), (4, 2), (9, 3));
    let thirds = w.try_zip_components(|a, b| if a % b == 0 { Some(a / b) } else { None });
    assert_eq!(thirds, Some(Vec3::new(3, 2, 3)));
}

#[test]
fn test_vec3_try_zip_components_stops_at_first_failure() {
    let calls = std::cell::Cell::new(0u32);
    let v = Vec3::new((1i32, 1i32), (0, 1), (1, 1));
    let r = v.try_zip_components(|a, _| {
        calls.set(calls.get() + 1);
        if a == 0 {
            None
        } else {
            Some(a)
        }
    });
    assert_eq!(r, None);
    assert_eq!(calls.get(), 2);
}

#[test]
fn test_vec3_tuple_conversions() {
    let t: (i64, i64, i64) = Vec3::new(1i64, 2, 3).into();
    assert_eq!(t, (1, 2, 3));
    let v: Vec3<i64> = (4i64, 5i64, 6i64).into();
    assert_eq!(v, Vec3::new(4, 5, 6));
}

#[test]
fn test_vec3_default() {
    let v: Vec3<i64> = Vec3::default();
    assert_eq!(v, Vec3::new(0, 0, 0));
}

#[test]
fn test_vec3_to_ordering() {
    let v = Vec3::new(-7i64, 0, 12);
    assert_eq!(v.to_ordering(), Vec3::new(Sign::Negative, Sign::Zero, Sign::Positive));
    let w = Vec3::new(i64::MAX, i64::MIN, 0);
    assert_eq!(w.to_ordering(), Vec3::new(Sign::Positive, Sign::Negative, Sign::Zero));
}
