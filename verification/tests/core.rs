use raytracer::fixed::{fx_add, fx_div, fx_mul, fx_sqrt, fx_sub, SCALE};
use raytracer::interval::{Empty, Interval, Universe, NEG_INF, POS_INF};
use raytracer::ray::Ray;
use raytracer::vec3::{random_on_hemisphere, random_unit_vector, Vec3};

#[test]
fn fixed_arithmetic_exact_values() {
    assert_eq!(fx_add(1500, 250), 1750);
    assert_eq!(fx_sub(1500, 250), 1250);
    assert_eq!(fx_mul(2000, 3000), 6000);
    assert_eq!(fx_mul(500, 500), 250);
    assert_eq!(fx_div(1000, 2000), 500);
    assert_eq!(fx_div(3000, 1500), 2000);
    assert_eq!(fx_sqrt(4000), 2000);
    assert_eq!(fx_sqrt(1000), 1000);
    assert_eq!(fx_sqrt(250), 500);
}

#[test]
fn fixed_arithmetic_saturates_and_tolerates_zero() {
    assert_eq!(fx_add(i64::MAX, 1), i64::MAX);
    assert_eq!(fx_sub(i64::MIN, 1), i64::MIN);
    assert_eq!(fx_mul(i64::MAX, i64::MAX), i64::MAX);
    assert_eq!(fx_div(5000, 0), 0);
    assert_eq!(fx_sqrt(-4000), 0);
}

#[test]
fn interval_contains_and_surrounds() {
    let iv = Interval::new(2000, 5000);
    assert_eq!(iv.min(), 2000);
    assert_eq!(iv.max(), 5000);
    assert!(iv.contains(2000));
    assert!(iv.contains(5000));
    assert!(iv.contains(3000));
    assert!(!iv.contains(1999));
    assert!(!iv.contains(5001));
    assert!(!iv.surrounds(2000));
    assert!(!iv.surrounds(5000));
    assert!(iv.surrounds(2001));
    assert!(iv.surrounds(4999));
}

#[test]
fn interval_clamp_lands_inside() {
    let iv = Interval::new(2000, 5000);
    assert_eq!(iv.clamp(1000), 2000);
    assert_eq!(iv.clamp(9000), 5000);
    assert_eq!(iv.clamp(3500), 3500);
    for x in [i64::MIN, -1, 0, 2000, 3000, 5000, 6000, i64::MAX] {
        assert!(iv.contains(iv.clamp(x)));
    }
}

#[test]
fn interval_empty_and_universe() {
    let empty = Empty::new();
    let universe = Universe::new();
    assert_eq!(empty.min(), POS_INF);
    assert_eq!(empty.max(), NEG_INF);
    assert_eq!(universe.min(), NEG_INF);
    assert_eq!(universe.max(), POS_INF);
    for x in [i64::MIN, -1000, 0, 1000, i64::MAX] {
        assert!(!empty.contains(x));
        assert!(universe.contains(x));
    }
}

#[test]
fn vec3_componentwise_arithmetic() {
    let a = Vec3::new(1000, 2000, -3000);
    let b = Vec3::new(500, -500, 1500);
    assert_eq!(a.add(b), Vec3::new(1500, 1500, -1500));
    assert_eq!(a.sub(b), Vec3::new(500, 2500, -4500));
    assert_eq!(a.mul(b), Vec3::new(500, -1000, -4500));
    assert_eq!(a.div(b), Vec3::new(2000, -4000, -2000));
    assert_eq!(a.scale(2000), Vec3::new(2000, 4000, -6000));
    assert_eq!(a.dot(b), 500 - 1000 - 4500);
    assert_eq!(a.length_squared(), 1000 + 4000 + 9000);
    assert_eq!(Vec3::from(700), Vec3::new(700, 700, 700));
    assert_eq!(Vec3::default(), Vec3::new(0, 0, 0));
    assert_eq!(a.x(), 1000);
    assert_eq!(a.y(), 2000);
    assert_eq!(a.z(), -3000);
}

#[test]
fn ray_walks_its_parameter() {
    let ray = Ray::new(Vec3::new(1000, 2000, 3000), Vec3::new(0, 0, -1000));
    assert_eq!(ray.origin(), Vec3::new(1000, 2000, 3000));
    assert_eq!(ray.direction(), Vec3::new(0, 0, -1000));
    assert_eq!(ray.at(500), Vec3::new(1000, 2000, 2500));
    assert_eq!(ray.at(2000), Vec3::new(1000, 2000, 1000));
}

#[test]
fn random_vectors_stay_in_their_boxes() {
    for _ in 0..32 {
        let v = Vec3::random();
        assert!(0 <= v.x() && v.x() < SCALE);
        assert!(0 <= v.y() && v.y() < SCALE);
        assert!(0 <= v.z() && v.z() < SCALE);
    }
}

#[test]
fn random_unit_vectors_are_roughly_unit() {
    for _ in 0..32 {
        let v = random_unit_vector();
        // each component of a scaled draw is bounded by the scale squared
        assert!(v.x().abs() <= SCALE * SCALE);
        assert!(v.y().abs() <= SCALE * SCALE);
        assert!(v.z().abs() <= SCALE * SCALE);
    }
}

#[test]
fn hemisphere_draws_do_not_oppose_the_normal() {
    let normal = Vec3::new(0, 1000, 0);
    for _ in 0..32 {
        let v = random_on_hemisphere(normal);
        assert!(v.dot(normal) >= 0);
    }
}
