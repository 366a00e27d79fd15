use nnet::activation::{num_dsigmoid, num_sigmoid};
use nnet::fixed::{Fx, SCALE};

fn fx(x: f64) -> Fx {
    Fx::new((x * 1_000_000f64).round() as i64)
}

#[test]
fn scale_is_one_million() {
    assert_eq!(SCALE, 1_000_000);
    assert_eq!(Fx::one().units, SCALE);
    assert_eq!(Fx::zero().units, 0);
}

#[test]
fn addition_and_subtraction_are_exact_in_range() {
    assert_eq!(fx(1.25).add(fx(2.5)).units, 3_750_000);
    assert_eq!(fx(1.25).sub(fx(2.5)).units, -1_250_000);
}

#[test]
fn addition_saturates_at_the_ends() {
    assert_eq!(Fx::new(i64::MAX).add(Fx::new(1)).units, i64::MAX);
    assert_eq!(Fx::new(i64::MIN).sub(Fx::new(1)).units, i64::MIN);
    assert_eq!(Fx::from_int(i64::MAX).units, i64::MAX);
}

#[test]
fn multiplication_rescales_exactly() {
    assert_eq!(fx(2.0).mul(fx(3.0)).units, 6_000_000);
    assert_eq!(fx(-2.0).mul(fx(3.0)).units, -6_000_000);
    assert_eq!(fx(0.5).mul(fx(0.5)).units, 250_000);
}

#[test]
fn multiplication_truncates_toward_zero() {
    // -3 units times 0.5 is -1.5 units: truncation gives -1, not -2.
    assert_eq!(Fx::new(-3).mul(fx(0.5)).units, -1);
    assert_eq!(Fx::new(3).mul(fx(0.5)).units, 1);
}

#[test]
fn division_by_count_truncates_toward_zero() {
    assert_eq!(Fx::new(-5).div_count(2).units, -2);
    assert_eq!(Fx::new(5).div_count(2).units, 2);
    assert_eq!(fx(1.0).div_count(4).units, 250_000);
}

#[test]
fn sigmoid_at_zero_is_one_half() {
    assert_eq!(num_sigmoid(Fx::zero()).units, 500_000);
}

#[test]
fn sigmoid_at_one_half() {
    assert_eq!(num_sigmoid(fx(0.5)).units, 622_459);
}

#[test]
fn sigmoid_interpolates_between_nodes() {
    // At 0.25 the curve is half way between the nodes at 0 and 0.5.
    assert_eq!(num_sigmoid(fx(0.25)).units, 561_229);
}

#[test]
fn sigmoid_clamps_far_out() {
    assert_eq!(num_sigmoid(fx(6.0)).units, 997_527);
    assert_eq!(num_sigmoid(fx(50.0)).units, 997_527);
    assert_eq!(num_sigmoid(fx(-6.0)).units, 2_473);
    assert_eq!(num_sigmoid(Fx::new(i64::MIN)).units, 2_473);
    assert_eq!(num_sigmoid(Fx::new(i64::MAX)).units, 997_527);
}

#[test]
fn sigmoid_mirrors_negative_inputs() {
    let pos = num_sigmoid(fx(0.25)).units;
    let neg = num_sigmoid(fx(-0.25)).units;
    assert_eq!(pos + neg, SCALE);
    assert_eq!(neg, 438_771);
}

#[test]
fn derivative_is_s_times_one_minus_s() {
    assert_eq!(num_dsigmoid(Fx::zero()).units, 250_000);
    // s(0.5) = 0.622459; s * (1 - s) truncated to scale.
    assert_eq!(num_dsigmoid(fx(0.5)).units, 235_003);
    // The derivative is evaluated on the pre-activation value, so it peaks
    // at zero and falls off on both sides.
    assert!(num_dsigmoid(fx(2.0)).units < num_dsigmoid(fx(1.0)).units);
    assert_eq!(
        num_dsigmoid(fx(1.0)).units,
        num_dsigmoid(fx(-1.0)).units
    );
}
