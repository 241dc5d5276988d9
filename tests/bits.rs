use banded_align::bits::{Bits, MAX_BITS, NEG_INF_BITS, ONE};
use banded_align::score::Score;

fn b(v: i64) -> Bits {
    Bits { value: v }
}

#[test]
fn bits_log_sum_is_floor_log2_of_sum() {
    assert_eq!(Bits::log_sum(b(3), b(3)), b(4));
    assert_eq!(Bits::log_sum(b(3), b(-2)), b(3));
    assert_eq!(Bits::log_sum(b(-7), b(-1)), b(-1));
    assert_eq!(Bits::log_sum(b(NEG_INF_BITS), b(-5)), b(-5));
    assert_eq!(Bits::log_sum(b(NEG_INF_BITS), b(NEG_INF_BITS)), b(NEG_INF_BITS));
}

#[test]
fn bits_exp_is_fixed_point_power_of_two() {
    assert_eq!(Bits::exp(b(0)), b(ONE));
    assert_eq!(Bits::exp(b(-1)), b(ONE / 2));
    assert_eq!(Bits::exp(b(3)), b(8 * ONE));
    assert_eq!(Bits::exp(b(-16)), b(1));
    assert_eq!(Bits::exp(b(-17)), b(0));
    assert_eq!(Bits::exp(b(NEG_INF_BITS)), b(0));
    assert_eq!(Bits::exp(b(30)), b(MAX_BITS));
}

#[test]
fn bits_arithmetic_saturates() {
    assert_eq!(Bits::add(b(2), b(-5)), b(-3));
    assert_eq!(Bits::add(b(NEG_INF_BITS), b(5)), b(NEG_INF_BITS));
    assert_eq!(Bits::add(b(MAX_BITS), b(MAX_BITS)), b(MAX_BITS));
    assert_eq!(Bits::sub(b(2), b(5)), b(-3));
    assert_eq!(Bits::sub(b(2), b(NEG_INF_BITS)), b(MAX_BITS));
    assert_eq!(Bits::mul(b(ONE), b(-77)), b(-77));
    assert_eq!(Bits::mul(b(ONE / 2), b(ONE / 2)), b(ONE / 4));
    assert_eq!(Bits::mul(b(0), b(NEG_INF_BITS)), b(NEG_INF_BITS));
    assert_eq!(Bits::recip(b(2 * ONE)), b(ONE / 2));
    assert_eq!(Bits::recip(b(0)), b(MAX_BITS));
    assert_eq!(Bits::max(b(-3), b(4)), b(4));
    assert!(Bits::is_zero(Bits::zero()));
    assert_eq!(Bits::neg_inf(), b(NEG_INF_BITS));
}
