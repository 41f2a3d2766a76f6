use path_tracer::camera::{channel_to_byte, linear_to_gamma, write_color, INTENSITY_MAX_RAW};
use path_tracer::fixed::Fixed;
use path_tracer::ppm::{push_decimal, push_header, push_pixel, Rgb};
use path_tracer::vector::Vector3;

fn text(bytes: &[u8]) -> String {
    String::from_utf8(bytes.to_vec()).unwrap()
}

#[test]
fn gamma_is_the_square_root() {
    assert_eq!(linear_to_gamma(Fixed::one()), Fixed::one());
    assert_eq!(linear_to_gamma(Fixed::ratio(1, 4)), Fixed::ratio(1, 2));
    assert_eq!(linear_to_gamma(Fixed::zero()), Fixed::zero());
    assert_eq!(linear_to_gamma(Fixed::from_int(-1)), Fixed::zero());
    assert_eq!(linear_to_gamma(Fixed::from_int(9)), Fixed::from_int(3));
}

#[test]
fn intensity_limit_is_999_thousandths() {
    assert_eq!(Fixed::ratio(999, 1000).raw, INTENSITY_MAX_RAW);
}

#[test]
fn full_intensity_is_byte_255_and_none_is_byte_0() {
    assert_eq!(channel_to_byte(Fixed::one()), 255);
    assert_eq!(channel_to_byte(Fixed::zero()), 0);
}

#[test]
fn bytes_of_other_intensities() {
    // sqrt(1/4) = 1/2, and 256 / 2 = 128
    assert_eq!(channel_to_byte(Fixed::ratio(1, 4)), 128);
    // sqrt(1/16) = 1/4
    assert_eq!(channel_to_byte(Fixed::ratio(1, 16)), 64);
    // sqrt(0.5) * 256 = 181.01...
    assert_eq!(channel_to_byte(Fixed::ratio(1, 2)), 181);
    assert_eq!(channel_to_byte(Fixed::from_int(-3)), 0);
    assert_eq!(channel_to_byte(Fixed::from_int(1000)), 255);
    assert_eq!(channel_to_byte(Fixed::max_value()), 255);
    assert_eq!(channel_to_byte(Fixed::from_raw(i64::MIN)), 0);
    // The smallest positive number has the square root 2^-16.
    assert_eq!(channel_to_byte(Fixed::from_raw(1)), 0);
    // 255/256 squared is the least intensity of byte 255.
    assert_eq!(channel_to_byte(Fixed::ratio(255 * 255, 256 * 256)), 255);
    assert_eq!(channel_to_byte(Fixed::from_raw(Fixed::ratio(255 * 255, 256 * 256).raw - 1)), 254);
}

#[test]
fn decimal_digits() {
    for (n, s) in [
        (0u64, "0"),
        (7, "7"),
        (9, "9"),
        (10, "10"),
        (99, "99"),
        (100, "100"),
        (255, "255"),
        (65535, "65535"),
        (1234567890, "1234567890"),
        (u64::MAX, "18446744073709551615"),
    ] {
        let mut out = Vec::new();
        push_decimal(&mut out, n);
        assert_eq!(text(&out), s);
    }
}

#[test]
fn push_decimal_appends() {
    let mut out = vec![b'x'];
    push_decimal(&mut out, 42);
    push_decimal(&mut out, 0);
    assert_eq!(text(&out), "x420");
}

#[test]
fn header_text() {
    let mut out = Vec::new();
    push_header(&mut out, 400, 225);
    assert_eq!(text(&out), "P3\n400 225\n255\n\n");
    let mut out = vec![b'#'];
    push_header(&mut out, 1, 1);
    assert_eq!(text(&out), "#P3\n1 1\n255\n\n");
}

#[test]
fn pixel_text() {
    let mut out = Vec::new();
    push_pixel(&mut out, Rgb { r: 255, g: 0, b: 17 });
    assert_eq!(text(&out), "255 0 17\n\n");
    push_pixel(&mut out, Rgb { r: 1, g: 22, b: 133 });
    assert_eq!(text(&out), "255 0 17\n\n1 22 133\n\n");
}

#[test]
fn write_color_writes_the_bytes_of_the_colour() {
    let mut out = Vec::new();
    write_color(&mut out, Vector3::new(Fixed::one(), Fixed::ratio(1, 4), Fixed::zero()));
    assert_eq!(text(&out), "255 128 0\n\n");
    write_color(
        &mut out,
        Vector3::new(Fixed::from_int(-1), Fixed::from_int(5), Fixed::ratio(1, 16)),
    );
    assert_eq!(text(&out), "255 128 0\n\n0 255 64\n\n");
}
