use raytrace::scalar::Scalar;
use raytrace::vec3::Vec3;

fn s(x: f64) -> Scalar {
    Scalar { units: (x * 1_000_000.0).round() as i64 }
}

fn v(x: f64, y: f64, z: f64) -> Vec3 {
    Vec3(s(x), s(y), s(z))
}

fn assert_units_close(a: Scalar, b: Scalar, tolerance: i64) {
    assert!((a.units - b.units).abs() <= tolerance, "{} vs {}", a.units, b.units);
}

#[test]
fn test_length() {
    assert_eq!(Vec3(s(2.0), s(3.0), s(4.5)).length(), s(5.766281));
}

#[test]
fn test_normalized() {
    let normalized_vector = Vec3(s(1.0), s(2.0), s(3.0)).normalized();
    assert_units_close(normalized_vector.0, s(0.267261), 1);
    assert_units_close(normalized_vector.1, s(0.534523), 1);
    assert_units_close(normalized_vector.2, s(0.801784), 1);
}

#[test]
fn test_dot() {
    assert_eq!(Vec3(s(1.0), s(2.0), s(3.0)).dot(Vec3(s(1.0), s(3.3), s(0.0))), s(7.6));
}

#[test]
fn test_cross() {
    assert_eq!(v(1.0, 2.0, 3.0).cross(v(0.0, 2.0, 3.0)), v(0.0, -3.0, 2.0));
}

#[test]
fn test_as_ppm_pixel() {
    // The tie at 2.5 rounds to the even neighbour.
    assert_eq!(v(0.4, 1.6, 2.5).as_ppm_pixel(), "0 2 2");
}

#[test]
fn test_as_ppm_pixel_negative_component() {
    assert_eq!(v(-1.5, 0.5, 3.5).as_ppm_pixel(), "-2 0 4");
}

#[test]
fn test_math() {
    let a = v(1.0, 2.0, 3.0);
    let b = v(2.0, 2.0, 2.0);
    assert_eq!(a.add(b), v(3.0, 4.0, 5.0));
    assert_eq!(a.sub(b), v(-1.0, 0.0, 1.0));
    assert_eq!(a.mul(s(2.0)), v(2.0, 4.0, 6.0));
    assert_eq!(a.mul_vec(b), v(2.0, 4.0, 6.0));
    assert_eq!(a.div(s(2.0)), v(0.5, 1.0, 1.5));
    assert_eq!(a.div_vec(b), v(0.5, 1.0, 1.5));
    let mut c = a.clone();
    c.mul_assign(s(2.0));
    assert_eq!(a.mul(s(2.0)), c);
    c.div_assign(s(2.0));
    assert_eq!(a, c);
    let mut d = a.clone();
    d.mul_assign_vec(b);
    assert_eq!(a.mul(s(2.0)), d);
    d.div_assign_vec(b);
    assert_eq!(a, d);
    let mut e = a.clone();
    e.add_assign(b);
    assert_eq!(e, v(3.0, 4.0, 5.0));
    e.sub_assign(b);
    assert_eq!(e, a);
}

#[test]
fn test_add_then_sub_returns_original() {
    let a = v(1.25, -7.5, 3.125);
    let b = v(42.0, 0.001, -13.75);
    assert_eq!(a.add(b).sub(b), a);
}

#[test]
fn test_dot_is_symmetric() {
    let a = v(1.5, -2.25, 3.75);
    let b = v(-4.5, 5.125, 6.0);
    assert_eq!(a.dot(b), b.dot(a));
}

#[test]
fn test_cross_is_antisymmetric() {
    let a = v(1.0, 2.5, -3.0);
    let b = v(4.0, -5.5, 6.25);
    let ab = a.cross(b);
    let ba = b.cross(a);
    assert_eq!(ab.0, ba.0.neg());
    assert_eq!(ab.1, ba.1.neg());
    assert_eq!(ab.2, ba.2.neg());
}

#[test]
fn test_normalized_has_unit_length() {
    for vector in [v(1.0, 2.0, 3.0), v(-5.5, 0.25, 0.0), v(1000.0, -2000.0, 500.0)] {
        let length = vector.normalized().length();
        assert_units_close(length, s(1.0), 3);
    }
}

#[test]
fn test_scalar_sqrt() {
    assert_eq!(s(4.0).sqrt(), s(2.0));
    assert_eq!(s(2.0).sqrt(), s(1.414213));
    assert_eq!(s(0.0).sqrt(), s(0.0));
    assert_eq!(s(-1.0).sqrt(), s(0.0));
}

#[test]
fn test_scalar_round_half_away_from_zero() {
    assert_eq!(s(0.5).round(), 1);
    assert_eq!(s(2.5).round(), 3);
    assert_eq!(s(2.4).round(), 2);
    assert_eq!(s(-0.5).round(), -1);
    assert_eq!(s(-2.5).round(), -3);
}

#[test]
fn test_scalar_round_half_to_even() {
    assert_eq!(s(0.5).round_even(), 0);
    assert_eq!(s(1.5).round_even(), 2);
    assert_eq!(s(2.5).round_even(), 2);
    assert_eq!(s(3.5).round_even(), 4);
    assert_eq!(s(-2.5).round_even(), -2);
    assert_eq!(s(2.4).round_even(), 2);
    assert_eq!(s(2.6).round_even(), 3);
}

#[test]
fn test_scalar_saturates_instead_of_wrapping() {
    let top = Scalar { units: i64::MAX };
    assert_eq!(top.add(s(1.0)).units, i64::MAX);
    let bottom = Scalar { units: i64::MIN };
    assert_eq!(bottom.sub(s(1.0)).units, i64::MIN);
}
