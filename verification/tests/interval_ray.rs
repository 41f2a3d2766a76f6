use path_tracer::fixed::{Fixed, MAX_RAW};
use path_tracer::interval::{empty, universe, Interval};
use path_tracer::ray::Ray;
use path_tracer::vector::Vector3;

fn v(x: i32, y: i32, z: i32) -> Vector3 {
    Vector3::new(Fixed::from_int(x), Fixed::from_int(y), Fixed::from_int(z))
}

#[test]
fn interval_size() {
    let i = Interval::new(Fixed::from_int(2), Fixed::from_int(5));
    assert_eq!(i.size(), Fixed::from_int(3));
    assert_eq!(Interval::new(Fixed::from_int(5), Fixed::from_int(2)).size(), Fixed::from_int(-3));
    assert_eq!(universe().size().raw, MAX_RAW);
    assert_eq!(empty().size().raw, -MAX_RAW);
}

#[test]
fn contains_includes_the_ends() {
    let i = Interval::new(Fixed::from_int(2), Fixed::from_int(5));
    assert!(i.contains(Fixed::from_int(2)));
    assert!(i.contains(Fixed::from_int(5)));
    assert!(i.contains(Fixed::from_int(3)));
    assert!(!i.contains(Fixed::from_int(1)));
    assert!(!i.contains(Fixed::from_int(6)));
}

#[test]
fn surrounds_leaves_the_ends_out() {
    let i = Interval::new(Fixed::from_int(2), Fixed::from_int(5));
    assert!(!i.surrounds(Fixed::from_int(2)));
    assert!(!i.surrounds(Fixed::from_int(5)));
    assert!(i.surrounds(Fixed::from_int(3)));
    assert!(i.surrounds(Fixed::from_raw(Fixed::from_int(2).raw + 1)));
}

#[test]
fn clamp_brings_a_number_into_the_interval() {
    let i = Interval::new(Fixed::zero(), Fixed::ratio(999, 1000));
    assert_eq!(i.clamp(Fixed::from_int(-1)), Fixed::zero());
    assert_eq!(i.clamp(Fixed::from_int(2)), Fixed::ratio(999, 1000));
    assert_eq!(i.clamp(Fixed::ratio(1, 2)), Fixed::ratio(1, 2));
    assert_eq!(i.clamp(Fixed::zero()), Fixed::zero());
}

#[test]
fn the_empty_interval_holds_nothing() {
    for x in [Fixed::zero(), Fixed::max_value(), Fixed::min_value(), Fixed::from_int(7)] {
        assert!(!empty().surrounds(x));
    }
    assert!(!empty().contains(Fixed::zero()));
    assert_eq!(Interval::default(), empty());
}

#[test]
fn the_universe_holds_everything() {
    for x in [Fixed::zero(), Fixed::max_value(), Fixed::min_value(), Fixed::from_int(-7)] {
        assert!(universe().contains(x));
    }
    assert!(universe().surrounds(Fixed::zero()));
    assert!(!universe().surrounds(Fixed::max_value()));
}

#[test]
fn ray_at_walks_along_the_direction() {
    let r = Ray::new(v(1, 2, 3), v(0, -1, 2));
    assert_eq!(r.at(Fixed::zero()), v(1, 2, 3));
    assert_eq!(r.at(Fixed::from_int(2)), v(1, 0, 7));
    assert_eq!(r.at(Fixed::from_int(-1)), v(1, 3, 1));
    assert_eq!(
        r.at(Fixed::ratio(1, 2)),
        Vector3::new(Fixed::from_int(1), Fixed::ratio(3, 2), Fixed::from_int(4))
    );
}
