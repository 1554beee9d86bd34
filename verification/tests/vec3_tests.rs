use raytrace::scalar::Scalar;
use raytrace::vec3::Vec3;

fn s(x: f32) -> Scalar {
    Scalar::from_bits(x.to_bits())
}

fn f(x: Scalar) -> f32 {
    f32::from_bits(x.to_bits())
}

#[test]
fn vec3_test_rgb_xyz() {
    let v = Vec3::new(s(3.), s(4.), s(5.));
    assert_eq!(f(v.x()), 3.);
    assert_eq!(f(v.y()), 4.);
    assert_eq!(f(v.z()), 5.);
    assert_eq!(f(v.r()), 3.);
    assert_eq!(f(v.g()), 4.);
    assert_eq!(f(v.b()), 5.);
}

#[test]
fn vec3_test_neg() {
    let v_input = Vec3::new(s(3.), s(4.), s(5.));
    let v_neg = Vec3::new(s(-3.), s(-4.), s(-5.));
    assert_eq!(-v_input, v_neg);
}

#[test]
fn scalar_test_rgb_xyz() {
    let v = Vec3::new(s(3.), s(4.), s(5.));
    assert_eq!(v.x(), s(3.));
    assert_eq!(v.y(), s(4.));
    assert_eq!(v.z(), s(5.));
    assert_eq!(v.r(), s(3.));
    assert_eq!(v.g(), s(4.));
    assert_eq!(v.b(), s(5.));
}

#[test]
fn scalar_test_neg() {
    let v_input = Vec3::new(s(3.), s(4.), s(5.));
    let v_neg = Vec3::new(s(-3.), s(-4.), s(-5.));
    assert_eq!(-v_input, v_neg);
}

#[test]
fn sse2_test_rgb_xyz() {
    let v = Vec3::new(s(3.), s(4.), s(5.));
    assert_eq!(f(v.x()), 3.);
    assert_eq!(f(v.y()), 4.);
    assert_eq!(f(v.z()), 5.);
    assert_eq!(f(v.r()), 3.);
    assert_eq!(f(v.g()), 4.);
    assert_eq!(f(v.b()), 5.);
}

#[test]
fn sse2_test_neg() {
    let v_input = Vec3::new(s(3.), s(4.), s(5.));
    let v_neg = Vec3::new(s(-3.), s(-4.), s(-5.));
    assert_eq!(-v_input, v_neg);
}

#[test]
fn set_and_index_components() {
    let mut v = Vec3::default();
    assert_eq!(v, Vec3::new(s(0.), s(0.), s(0.)));
    v.set_x(s(1.5));
    v.set_y(s(-2.5));
    v.set_z(s(7.));
    assert_eq!(f(v.i(0)), 1.5);
    assert_eq!(f(v.i(1)), -2.5);
    assert_eq!(f(v.i(2)), 7.);
    v.set_i(1, s(9.));
    assert_eq!(v, Vec3::new(s(1.5), s(9.), s(7.)));
}

#[test]
fn negation_by_name_and_by_sign_agree() {
    let v_input = Vec3::new(s(3.), s(-0.0), s(f32::INFINITY));
    assert_eq!(v_input.neg(), -v_input);
    assert_eq!(-v_input, Vec3::new(s(-3.), s(0.0), s(f32::NEG_INFINITY)));
    assert_eq!(-(-v_input), v_input);
}
