use boids::fixed::{floor_quot, isqrt_ceil, quot, LIMIT, ONE};
use boids::vec3::{Vec3, Wide};

#[test]
fn scale_and_limit() {
    assert_eq!(ONE, 1000);
    assert_eq!(LIMIT, 1_000_000_000_000);
}

#[test]
fn quotient_rounds_toward_zero() {
    assert_eq!(quot(7, 2), 3);
    assert_eq!(quot(-7, 2), -3);
    assert_eq!(quot(6, 3), 2);
    assert_eq!(quot(-6, 3), -2);
    assert_eq!(quot(0, 5), 0);
    assert_eq!(quot(-1, 1000), 0);
}

#[test]
fn floor_quotient_rounds_down() {
    assert_eq!(floor_quot(7, 2), 3);
    assert_eq!(floor_quot(-7, 2), -4);
    assert_eq!(floor_quot(-8, 2), -4);
    assert_eq!(floor_quot(-1, 1000), -1);
    assert_eq!(floor_quot(0, 1000), 0);
    assert_eq!(floor_quot(999, 1000), 0);
    assert_eq!(floor_quot(-1000, 1000), -1);
    assert_eq!(floor_quot(-1001, 1000), -2);
    assert_eq!(floor_quot(i64::MIN, 1), i64::MIN);
    assert_eq!(floor_quot(i64::MAX, 1), i64::MAX);
}

#[test]
fn square_root_rounds_up() {
    assert_eq!(isqrt_ceil(0), 0);
    assert_eq!(isqrt_ceil(1), 1);
    assert_eq!(isqrt_ceil(2), 2);
    assert_eq!(isqrt_ceil(4), 2);
    assert_eq!(isqrt_ceil(5), 3);
    assert_eq!(isqrt_ceil(9), 3);
    assert_eq!(isqrt_ceil(10), 4);
    assert_eq!(isqrt_ceil(1_000_000), 1000);
    assert_eq!(isqrt_ceil(1_000_001), 1001);
    assert_eq!(
        isqrt_ceil(100_000_000_000_000_000_000_000_000),
        10_000_000_000_000
    );
}

#[test]
fn square_root_is_least_upper() {
    let mut n: i128 = 0;
    while n < 5000 {
        let r = isqrt_ceil(n);
        assert!(r * r >= n);
        assert!(r == 0 || (r - 1) * (r - 1) < n);
        n += 1;
    }
}

#[test]
fn vector_finiteness() {
    assert!(Vec3::new(LIMIT, -LIMIT, 0).is_finite());
    assert!(!Vec3::new(LIMIT + 1, 0, 0).is_finite());
    assert!(!Vec3::new(0, -LIMIT - 1, 0).is_finite());
    assert!(!Vec3::new(0, 0, i64::MAX).is_finite());
    assert_eq!(Vec3::zero(), Vec3::new(0, 0, 0));
}

#[test]
fn wide_narrow_keeps_finite_only() {
    let w = Wide { x: 5, y: -6, z: 7 };
    assert_eq!(w.narrow(), Some(Vec3::new(5, -6, 7)));
    let big = Wide { x: LIMIT as i128 + 1, y: 0, z: 0 };
    assert_eq!(big.narrow(), None);
    let d = Wide::between(Vec3::new(1, 2, 3), Vec3::new(10, 20, 30));
    assert_eq!((d.x, d.y, d.z), (-9, -18, -27));
    assert_eq!(d.norm2(), 81 + 324 + 729);
}

#[test]
fn wide_scaled_is_fixed_point_product() {
    let w = Wide::of(Vec3::new(3000, -1500, 1));
    let s = w.scaled(500);
    assert_eq!((s.x, s.y, s.z), (1500, -750, 0));
    let t = w.scaled(2000);
    assert_eq!((t.x, t.y, t.z), (6000, -3000, 2));
}

#[test]
fn clamp_keeps_short_vectors() {
    let w = Wide::of(Vec3::new(300, 400, 0));
    assert_eq!(w.clamped(500), Vec3::new(300, 400, 0));
    assert_eq!(w.clamped(1000), Vec3::new(300, 400, 0));
}

#[test]
fn clamp_shortens_long_vectors() {
    let w = Wide::of(Vec3::new(3000, 4000, 0));
    assert_eq!(w.clamped(500), Vec3::new(300, 400, 0));
    let v = Wide::of(Vec3::new(-3000, 0, 4000)).clamped(50);
    assert_eq!(v, Vec3::new(-30, 0, 40));
    assert_eq!(Wide::of(Vec3::new(7, 7, 7)).clamped(0), Vec3::new(0, 0, 0));
}

#[test]
fn clamp_never_exceeds_the_maximum() {
    let mut seed: u64 = 12345;
    let mut k = 0;
    while k < 500 {
        seed = seed.wrapping_mul(6364136223846793005).wrapping_add(1442695040888963407);
        let x = ((seed >> 20) % 2_000_001) as i64 - 1_000_000;
        seed = seed.wrapping_mul(6364136223846793005).wrapping_add(1442695040888963407);
        let y = ((seed >> 20) % 2_000_001) as i64 - 1_000_000;
        seed = seed.wrapping_mul(6364136223846793005).wrapping_add(1442695040888963407);
        let z = ((seed >> 20) % 2_000_001) as i64 - 1_000_000;
        seed = seed.wrapping_mul(6364136223846793005).wrapping_add(1442695040888963407);
        let max = ((seed >> 20) % 100_000) as i64;
        let v = Wide::of(Vec3::new(x, y, z)).clamped(max);
        let n2 = (v.x as i128) * (v.x as i128) + (v.y as i128) * (v.y as i128) + (v.z as i128) * (v.z as i128);
        assert!(n2 <= (max as i128) * (max as i128));
        k += 1;
    }
}

#[test]
fn resize_gives_the_asked_length() {
    let v = Wide::of(Vec3::new(0, 0, 5)).resized(1000);
    assert_eq!(v, Vec3::new(0, 0, 1000));
    let v = Wide::of(Vec3::new(-10000, 0, 0)).resized(1000);
    assert_eq!(v, Vec3::new(-1000, 0, 0));
    let v = Wide::of(Vec3::new(3, 4, 0)).resized(1000);
    assert_eq!(v, Vec3::new(600, 800, 0));
}
