use fluid_sim::fixed::{Fixed, SCALE, WHOLE_MAX};
use fluid_sim::scalar::Scalar;

fn whole(n: i64) -> Fixed {
    Fixed { raw: n * SCALE }
}

fn ratio(num: i64, den: i64) -> Fixed {
    Fixed { raw: num * SCALE / den }
}

#[test]
fn zero_and_one() {
    assert_eq!(Fixed::zero(), Fixed { raw: 0 });
    assert_eq!(Fixed::one(), Fixed { raw: 1 << 32 });
    assert_eq!(SCALE, 1 << 32);
}

#[test]
fn from_index_counts_in_units_of_one() {
    assert_eq!(Fixed::from_index(0), whole(0));
    assert_eq!(Fixed::from_index(7), whole(7));
    assert_eq!(Fixed::from_index(WHOLE_MAX), Fixed { raw: 0x7fff_ffff_0000_0000 });
}

#[test]
fn from_index_saturates_above_the_range() {
    assert_eq!(Fixed::from_index(WHOLE_MAX + 1), Fixed { raw: i64::MAX });
    assert_eq!(Fixed::from_index(usize::MAX), Fixed { raw: i64::MAX });
}

#[test]
fn plus_and_minus_are_exact_within_the_range() {
    assert_eq!(ratio(3, 2).plus(ratio(1, 4)), ratio(7, 4));
    assert_eq!(ratio(3, 2).minus(whole(2)), ratio(-1, 2));
    assert_eq!(whole(-5).plus(whole(5)), Fixed::zero());
}

#[test]
fn plus_and_minus_saturate() {
    let top = Fixed { raw: i64::MAX };
    let bottom = Fixed { raw: i64::MIN };
    assert_eq!(top.plus(Fixed { raw: 1 }), top);
    assert_eq!(bottom.minus(Fixed { raw: 1 }), bottom);
    assert_eq!(bottom.plus(bottom), bottom);
    assert_eq!(top.minus(bottom), top);
}

#[test]
fn times_multiplies_and_rounds_toward_zero() {
    assert_eq!(ratio(3, 2).times(whole(4)), whole(6));
    assert_eq!(ratio(-3, 2).times(ratio(1, 2)), ratio(-3, 4));
    // the smallest step times one half is below the smallest step
    assert_eq!(Fixed { raw: 1 }.times(ratio(1, 2)), Fixed::zero());
    assert_eq!(Fixed { raw: -1 }.times(ratio(1, 2)), Fixed::zero());
    assert_eq!(Fixed { raw: 3 }.times(ratio(1, 2)), Fixed { raw: 1 });
    assert_eq!(Fixed { raw: -3 }.times(ratio(1, 2)), Fixed { raw: -1 });
}

#[test]
fn times_saturates() {
    let big = whole(1 << 20);
    assert_eq!(big.times(big), Fixed { raw: i64::MAX });
    assert_eq!(big.times(big.neg()), Fixed { raw: i64::MIN });
}

#[test]
fn over_divides_and_rounds_toward_zero() {
    assert_eq!(whole(6).over(whole(4)), ratio(3, 2));
    assert_eq!(whole(1).over(whole(2)), Fixed { raw: 1 << 31 });
    assert_eq!(whole(1).over(whole(4)), Fixed { raw: 1 << 30 });
    assert_eq!(whole(1).over(whole(3)), Fixed { raw: 0x5555_5555 });
    assert_eq!(whole(-1).over(whole(3)), Fixed { raw: -0x5555_5555 });
    assert_eq!(whole(1).over(whole(-3)), Fixed { raw: -0x5555_5555 });
    assert_eq!(whole(-1).over(whole(-3)), Fixed { raw: 0x5555_5555 });
}

#[test]
fn over_by_zero_goes_to_the_end_of_the_range() {
    assert_eq!(whole(1).over(Fixed::zero()), Fixed { raw: i64::MAX });
    assert_eq!(whole(-1).over(Fixed::zero()), Fixed { raw: i64::MIN });
    assert_eq!(Fixed::zero().over(Fixed::zero()), Fixed::zero());
}

#[test]
fn over_saturates() {
    assert_eq!(whole(1 << 30).over(Fixed { raw: 1 }), Fixed { raw: i64::MAX });
    assert_eq!(whole(1 << 30).over(Fixed { raw: -1 }), Fixed { raw: i64::MIN });
}

#[test]
fn neg_and_abs() {
    assert_eq!(ratio(3, 2).neg(), ratio(-3, 2));
    assert_eq!(ratio(-3, 2).abs(), ratio(3, 2));
    assert_eq!(ratio(3, 2).abs(), ratio(3, 2));
    assert_eq!(Fixed::zero().neg(), Fixed::zero());
    assert_eq!(Fixed { raw: i64::MIN }.neg(), Fixed { raw: i64::MAX });
    assert_eq!(Fixed { raw: i64::MIN }.abs(), Fixed { raw: i64::MAX });
}

#[test]
fn sqrt_of_squares_is_exact() {
    assert_eq!(whole(0).sqrt(), whole(0));
    assert_eq!(whole(1).sqrt(), whole(1));
    assert_eq!(whole(4).sqrt(), whole(2));
    assert_eq!(whole(144).sqrt(), whole(12));
    assert_eq!(ratio(1, 4).sqrt(), ratio(1, 2));
    assert_eq!(ratio(9, 16).sqrt(), ratio(3, 4));
}

#[test]
fn sqrt_rounds_down() {
    // the root of two is 1.41421356237..., which is 6074001000.03... steps
    assert_eq!(whole(2).sqrt(), Fixed { raw: 6074000999 });
    let r = Fixed { raw: i64::MAX }.sqrt().raw as i128;
    let n = (i64::MAX as i128) << 32;
    assert!(r * r <= n && n < (r + 1) * (r + 1));
}

#[test]
fn sqrt_below_zero_is_zero() {
    assert_eq!(whole(-4).sqrt(), Fixed::zero());
    assert_eq!(Fixed { raw: -1 }.sqrt(), Fixed::zero());
}

#[test]
fn min_max_and_lt_follow_the_order() {
    let a = ratio(-1, 2);
    let b = ratio(1, 3);
    assert_eq!(a.min(b), a);
    assert_eq!(b.min(a), a);
    assert_eq!(a.max(b), b);
    assert_eq!(b.max(a), b);
    assert!(a.lt(b));
    assert!(!b.lt(a));
    assert!(!a.lt(a));
}

#[test]
fn floor_index_rounds_down_and_stops_at_zero() {
    assert_eq!(ratio(7, 2).floor_index(), 3);
    assert_eq!(whole(3).floor_index(), 3);
    assert_eq!(Fixed { raw: 3 * SCALE - 1 }.floor_index(), 2);
    assert_eq!(ratio(1, 2).floor_index(), 0);
    assert_eq!(ratio(-1, 2).floor_index(), 0);
    assert_eq!(whole(-9).floor_index(), 0);
    assert_eq!(Fixed { raw: i64::MAX }.floor_index(), WHOLE_MAX);
}
