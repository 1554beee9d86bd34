use raytrace::render::{clamp_channel, clamp_color, convert_rgb_u8};
use raytrace::scalar::Scalar;
use raytrace::vec3::Vec3;

fn s(x: f32) -> Scalar {
    Scalar::from_bits(x.to_bits())
}

fn f(x: Scalar) -> f32 {
    f32::from_bits(x.to_bits())
}

fn samples() -> Vec<f32> {
    let mut out = vec![
        0.0,
        -0.0,
        0.25,
        -0.25,
        0.999_999_9,
        -0.999_999_9,
        1.0,
        -1.0,
        1.5,
        -1.5,
        2.0,
        -2.0,
        2.5,
        254.0,
        254.999,
        255.0,
        255.5,
        255.99,
        256.0,
        1000.75,
        -1000.75,
        8388607.5,
        8388608.0,
        -8388608.5,
        16777216.0,
        16777218.0,
        -16777218.0,
        1.0e9,
        -1.0e9,
        2147483520.0,
        2147483648.0,
        -2147483648.0,
        -2147483904.0,
        4.0e9,
        -4.0e9,
        1.0e-40,
        -1.0e-40,
        f32::MIN_POSITIVE,
        f32::MAX,
        -f32::MAX,
        f32::INFINITY,
        f32::NEG_INFINITY,
        f32::NAN,
        -f32::NAN,
    ];
    let mut seed: u32 = 2024;
    for _ in 0..2000 {
        seed = seed.wrapping_mul(1664525).wrapping_add(1013904223);
        out.push(f32::from_bits(seed));
        out.push(((seed >> 8) as f32 / 65536.0) - 128.0);
    }
    out
}

#[test]
fn to_i32_agrees_with_the_hardware() {
    for &x in samples().iter() {
        assert_eq!(s(x).to_i32(), x as i32, "{}", x);
    }
}

#[test]
fn floor_to_i32_agrees_with_the_hardware() {
    for &x in samples().iter() {
        assert_eq!(s(x).floor_to_i32(), x.floor() as i32, "{}", x);
    }
}

/// The nearest whole number from 0 to 255, as the hardware rounds.
fn nearest_byte(x: f32) -> u8 {
    if x.is_nan() || x < 0.0 {
        0
    } else {
        x.min(255.0).round() as u8
    }
}

#[test]
fn to_byte_rounds_as_the_hardware_does() {
    for &x in samples().iter() {
        assert_eq!(s(x).to_byte(), nearest_byte(x), "{}", x);
    }
    for n in 0..=2560 {
        let x = n as f32 / 10.0;
        assert_eq!(s(x).to_byte(), nearest_byte(x), "{}", x);
        let below = f32::from_bits(x.to_bits().wrapping_sub(1));
        assert_eq!(s(below).to_byte(), nearest_byte(below), "{}", below);
    }
}

#[test]
fn exact_values_of_the_conversions() {
    assert_eq!(s(2.75).to_i32(), 2);
    assert_eq!(s(-2.75).to_i32(), -2);
    assert_eq!(s(2.75).floor_to_i32(), 2);
    assert_eq!(s(-2.75).floor_to_i32(), -3);
    assert_eq!(s(-3.0).floor_to_i32(), -3);
    assert_eq!(s(3.0e10).to_i32(), i32::MAX);
    assert_eq!(s(-3.0e10).to_i32(), i32::MIN);
    assert_eq!(s(f32::NAN).to_i32(), 0);
}

#[test]
fn to_byte_takes_the_nearest_whole_number() {
    assert_eq!(s(127.995).to_byte(), 128);
    assert_eq!(s(127.5).to_byte(), 128);
    assert_eq!(s(127.49).to_byte(), 127);
    assert_eq!(s(127.0).to_byte(), 127);
    assert_eq!(s(0.49).to_byte(), 0);
    assert_eq!(s(0.5).to_byte(), 1);
    assert_eq!(s(0.999).to_byte(), 1);
    assert_eq!(s(1.0e-40).to_byte(), 0);
    assert_eq!(s(254.49).to_byte(), 254);
    assert_eq!(s(254.5).to_byte(), 255);
}

#[test]
fn to_byte_stays_in_the_range_of_a_byte() {
    assert_eq!(s(255.0).to_byte(), 255);
    assert_eq!(s(255.99).to_byte(), 255);
    assert_eq!(s(300.0).to_byte(), 255);
    assert_eq!(s(f32::INFINITY).to_byte(), 255);
    assert_eq!(s(-0.0).to_byte(), 0);
    assert_eq!(s(-0.75).to_byte(), 0);
    assert_eq!(s(-5.0).to_byte(), 0);
    assert_eq!(s(f32::NEG_INFINITY).to_byte(), 0);
    assert_eq!(s(f32::NAN).to_byte(), 0);
    assert_eq!(s(-f32::NAN).to_byte(), 0);
}

#[test]
fn from_byte_agrees_with_the_hardware() {
    for n in 0..=255u8 {
        assert_eq!(Scalar::from_byte(n).to_bits(), f32::from(n).to_bits(), "{}", n);
        assert_eq!(Scalar::from_byte(n).to_byte(), n);
        assert_eq!(Scalar::from_byte(n).to_i32(), n as i32);
    }
}

/// The bytes of a colour: each channel held to the range from 0 to 1,
/// raised to the power 1 / gamma and scaled by 255.99, then rounded.
fn pixel(colour: [f32; 3], gamma: f32) -> [u8; 3] {
    let clamped = clamp_color(&Vec3::new(s(colour[0]), s(colour[1]), s(colour[2])));
    let scaled = Vec3::new(
        s(255.99 * f(clamped.r()).powf(1.0 / gamma)),
        s(255.99 * f(clamped.g()).powf(1.0 / gamma)),
        s(255.99 * f(clamped.b()).powf(1.0 / gamma)),
    );
    convert_rgb_u8(&scaled)
}

#[test]
fn pixel_bytes_of_a_colour() {
    assert_eq!(pixel([0.25, 0.0, 0.25], 2.0), [128, 0, 128]);
    assert_eq!(pixel([0.25, 1.0, 0.0], 2.0), [128, 255, 0]);
    assert_eq!(pixel([1.0, 0.5, 0.04], 2.0), [255, 181, 51]);
    assert_eq!(pixel([0.5, 0.5, 0.5], 1.0), [128, 128, 128]);
}

#[test]
fn pixel_bytes_of_a_colour_out_of_range() {
    assert_eq!(pixel([4.0, -1.0, f32::NAN], 2.0), [255, 0, 0]);
    assert_eq!(pixel([f32::INFINITY, f32::NEG_INFINITY, -0.0], 2.0), [255, 0, 0]);
    // Without the clamp the rule of the bytes is the same.
    let scaled = Vec3::new(s(255.99 * 2.0), s(-1.0), s(f32::NAN));
    assert_eq!(convert_rgb_u8(&scaled), [255, 0, 0]);
}

#[test]
fn channels_are_held_to_the_unit_range() {
    assert_eq!(f(clamp_channel(s(0.25))), 0.25);
    assert_eq!(f(clamp_channel(s(0.0))), 0.0);
    assert_eq!(f(clamp_channel(s(1.0))), 1.0);
    assert_eq!(f(clamp_channel(s(1.5))), 1.0);
    assert_eq!(f(clamp_channel(s(f32::INFINITY))), 1.0);
    assert_eq!(clamp_channel(s(-0.5)).to_bits(), 0);
    assert_eq!(clamp_channel(s(f32::NEG_INFINITY)).to_bits(), 0);
    assert_eq!(clamp_channel(s(f32::NAN)).to_bits(), 0);
    let c = clamp_color(&Vec3::new(s(-1.0), s(0.5), s(7.0)));
    assert_eq!(c, Vec3::new(s(0.0), s(0.5), s(1.0)));
}

#[test]
fn black_pixel_stays_black() {
    // A black surface before a black background: every sample is black.
    let sum = [0.0f32, 0.0, 0.0];
    let ns = 16.0f32;
    assert_eq!(pixel([sum[0] / ns, sum[1] / ns, sum[2] / ns], 2.0), [0, 0, 0]);
}
