use kilac::kipac::{abs, aikavali, ceil, floor, kmod, max, mean, median, min, sum};
use kilac::num::Num;

fn n(s: &str) -> Num {
    kilac::num::from_literal(s).unwrap()
}

#[test]
fn test_aikavali() {
    assert_eq!(n("5"), aikavali(n("5"), n("10")));
    assert_eq!(n("0"), aikavali(n("10"), n("10")));
    assert_eq!(n("100"), aikavali(n("86400"), n("100")));
}

#[test]
fn test_abs() {
    assert_eq!(n("5"), abs(n("5").neg()));
    assert_eq!(n("5"), abs(n("5")));
    assert_eq!(n("25.5555"), abs(n("25.5555")));
    assert_eq!(n("25.50"), abs(n("25.50").neg()));
}

#[test]
fn test_floor() {
    assert_eq!(n("1"), floor(n("1.0")));
    assert_eq!(n("1"), floor(n("1.6")));
    assert_eq!(n("1"), floor(n("1.999")));
    assert_eq!(n("1"), floor(n("1.5")));
    assert_eq!(n("1").neg(), floor(n("0.4").neg()));
}

#[test]
fn test_ceil() {
    assert_eq!(n("1"), ceil(n("1.0")));
    assert_eq!(n("2"), ceil(n("1.6")));
    assert_eq!(n("2"), ceil(n("1.999")));
    assert_eq!(n("2"), ceil(n("1.5")));
    assert_eq!(n("1").neg(), ceil(n("1.4").neg()));
}

#[test]
fn test_sqrt() {}

#[test]
fn mod_test_mod() {
    assert_eq!(n("0"), kmod(n("4"), n("2")));
    assert_eq!(n("1"), kmod(n("3"), n("2")));
}

#[test]
fn test_interpoloi() {}

#[test]
fn test_max() {
    assert_eq!(
        n("5"),
        max(vec![n("5"), n("1"), n("10").neg(), n("4.99999"), n("2.5")])
    )
}

#[test]
fn mod_test_min() {
    assert_eq!(
        n("10").neg(),
        min(vec![n("5"), n("1"), n("10").neg(), n("4.99999"), n("2.5")])
    );
    assert_eq!(n("0"), min(vec![n("0"), n("1")]));
}

#[test]
fn test_mean() {
    assert_eq!(n("2"), mean(vec![n("1"), n("2"), n("3")]));
}

#[test]
fn test_median() {
    assert_eq!(n("2"), median(vec![n("1"), n("2"), n("3")]));
}

#[test]
fn median_of_even_length_averages_the_middle() {
    assert_eq!(n("2.5"), median(vec![n("4"), n("1"), n("3"), n("2")]));
}

#[test]
fn reducers_on_empty_lists() {
    assert_eq!(Num::NaN, min(vec![]));
    assert_eq!(Num::NaN, max(vec![]));
    assert_eq!(n("0"), sum(vec![]));
    assert_eq!(Num::NaN, mean(vec![]));
    assert_eq!(Num::NaN, median(vec![]));
}

#[test]
fn min_max_drop_nan() {
    assert_eq!(n("1"), min(vec![Num::NaN, n("1"), n("2")]));
    assert_eq!(n("2"), max(vec![n("1"), Num::NaN, n("2")]));
}

#[test]
fn arithmetic_specials() {
    assert_eq!(Num::Inf, n("1").divide(&n("0")));
    assert_eq!(Num::NegInf, n("1").neg().divide(&n("0")));
    assert_eq!(Num::NaN, n("0").divide(&n("0")));
    assert_eq!(Num::NaN, Num::Inf.minus(&Num::Inf));
    assert_eq!(Num::NaN, Num::Inf.times(&n("0")));
    assert_eq!(Num::NaN, n("5").rem(&n("0")));
    assert_eq!(n("5"), n("5").rem(&Num::Inf));
    assert_eq!(n("1"), Num::NaN.powf(&n("0")));
    assert_eq!(n("0.25"), n("2").powf(&n("2").neg()));
    assert_eq!(Num::NaN, n("4").powf(&n("0.5")));
    assert!(Num::NaN.lt(&n("1")) == false);
    assert!(n("1").lt(&Num::NaN) == false);
    assert!(Num::NaN.eq_num(&Num::NaN) == false);
}
