use bookkeeping::date::Date;
use bookkeeping::money::{total, Money};
use core::cmp::Ordering;
use rust_decimal::Decimal;
use std::str::FromStr;

fn from_text(text: &str) -> Money {
    let decimal = Decimal::from_str(text).unwrap();
    Money::from_parts(decimal.mantissa(), decimal.scale()).unwrap()
}

#[test]
fn amounts_of_different_scale_compare_by_value() {
    assert_eq!(Money::new(10, 1), Money::new(100, 2));
    assert_ne!(Money::new(10, 1), Money::new(101, 2));
    assert_eq!(Money::new(10, 1).compare(&Money::new(100, 2)), Ordering::Equal);
    assert_eq!(Money::new(-1, 0).compare(&Money::new(1, 28)), Ordering::Less);
    assert_eq!(Money::new(5, 1).compare(&Money::new(49, 2)), Ordering::Greater);
    assert!(Money::new(1, 2).lt(&Money::new(1, 1)));
    assert!(Money::new(1, 1).le(&Money::new(10, 2)));
    assert!(Money::new(1, 1).gt(&Money::new(1, 2)));
    assert!(Money::new(1, 1).ge(&Money::new(10, 2)));
    assert!(!Money::new(1, 1).lt(&Money::new(10, 2)));
}

#[test]
fn sum_is_exact() {
    let sum = Money::new(10000, 2).checked_add(Money::new(5, 1)).unwrap();
    assert_eq!(sum, Money::new(10050, 2));
    assert_eq!(sum.to_text(), "100.50");
    assert_eq!(sum.mantissa(), 10050);
    assert_eq!(sum.scale(), 2);
}

#[test]
fn tenths_add_up_exactly() {
    let mut sum = Money::zero();
    for _ in 0..10 {
        sum = sum.checked_add(from_text("0.1")).unwrap();
    }
    assert_eq!(sum, Money::new(1, 0));
    assert_eq!(from_text("0.1").checked_add(from_text("0.2")), Some(from_text("0.3")));
}

#[test]
fn amounts_go_to_text_and_back_exactly() {
    for text in ["0.1", "0.01", "100.00", "-12.345", "0", "79228162514264337593543950335",
        "-79228162514264337593543950335", "0.0000000000000000000000000001",
        "1234567890123456789.123456789"]
    {
        let amount = from_text(text);
        assert_eq!(amount.to_text(), text);
        assert_eq!(from_text(&amount.to_text()), amount);
        assert_eq!(from_text(&amount.to_text()).scale(), amount.scale());
    }
}

#[test]
fn large_sums_stay_exact() {
    let big = from_text("39614081257132168796771975167.00");
    assert!(big.scale() <= 28);
    let a = from_text("123456789012345678901234.56");
    let b = from_text("876543210987654321098765.44");
    assert_eq!(a.checked_add(b), Some(from_text("1000000000000000000000000.00")));
    assert_eq!(a.checked_add(b).unwrap().to_text(), "1000000000000000000000000.00");
}

#[test]
fn a_sum_that_does_not_fit_is_refused() {
    let top = Money::from_parts(79228162514264337593543950335, 0).unwrap();
    assert_eq!(top.checked_add(Money::new(1, 0)), None);
    assert_eq!(top.neg().checked_sub(Money::new(1, 0)), None);
}

#[test]
fn a_sum_that_would_be_rounded_is_refused() {
    let top = Money::from_parts(79228162514264337593543950335, 0).unwrap();
    let small = Money::new(1, 1);
    let rounded = Decimal::from_i128_with_scale(79228162514264337593543950335, 0)
        .checked_add(Decimal::new(1, 1));
    assert!(rounded.is_some());
    assert_eq!(top.checked_add(small), None);
    assert_eq!(top.confirm_sum(small, Some((79228162514264337593543950335, 0))), None);
}

#[test]
fn a_candidate_sum_is_accepted_only_if_exact() {
    let a = Money::new(150, 2);
    let b = Money::new(25, 1);
    assert_eq!(a.confirm_sum(b, Some((400, 2))), Some(Money::new(4, 0)));
    assert_eq!(a.confirm_sum(b, Some((4, 0))), Some(Money::new(4, 0)));
    assert_eq!(a.confirm_sum(b, Some((150, 2))), None);
    assert_eq!(a.confirm_sum(b, Some((401, 2))), None);
    assert_eq!(a.confirm_sum(b, None), None);
    assert_eq!(a.confirm_sum(b, Some((400, 29))), None);
}

#[test]
fn a_candidate_quotient_is_accepted_only_if_exact() {
    let a = Money::new(100, 2);
    let two = Money::new(2, 0);
    assert_eq!(a.confirm_quotient(two, Some((50, 2))), Some(Money::new(5, 1)));
    assert_eq!(a.confirm_quotient(two, Some((100, 2))), None);
    assert_eq!(a.confirm_quotient(two, None), None);
    assert_eq!(a.confirm_quotient(Money::zero(), Some((0, 0))), None);
}

#[test]
fn difference_and_quotient_are_exact() {
    assert_eq!(Money::new(100, 2).checked_sub(Money::new(25, 1)), Some(Money::new(-150, 2)));
    assert_eq!(Money::new(100, 2).checked_div(Money::new(4, 0)), Some(Money::new(25, 2)));
    assert_eq!(Money::new(1, 0).checked_div(Money::new(3, 0)), None);
    assert_eq!(Money::new(1, 0).checked_div(Money::zero()), None);
}

#[test]
fn sign_and_magnitude() {
    let debt = Money::new(-1050, 2);
    assert_eq!(debt.neg(), Money::new(1050, 2));
    assert_eq!(debt.abs(), Money::new(1050, 2));
    assert_eq!(debt.abs().abs(), Money::new(1050, 2));
    assert!(debt.is_negative() && !debt.is_positive() && !debt.is_zero());
    assert!(Money::new(0, 5).is_zero());
    assert!(Money::zero().neg().is_zero());
    assert_eq!(debt.max(Money::zero()), Money::zero());
    assert_eq!(Money::new(10, 1).max(Money::new(100, 2)).scale(), 2);
    assert_eq!(Money::new(11, 1).max(Money::new(100, 2)).scale(), 1);
}

#[test]
fn parts_out_of_range_are_refused() {
    assert!(Money::from_parts(0, 29).is_none());
    assert!(Money::from_parts(79228162514264337593543950336, 0).is_none());
    assert!(Money::from_parts(-79228162514264337593543950336, 0).is_none());
    assert!(Money::from_parts(79228162514264337593543950335, 28).is_some());
}

#[test]
fn totals_add_from_left_to_right() {
    assert_eq!(total(&vec![]), Some(Money::zero()));
    assert_eq!(
        total(&vec![Money::new(1, 2), Money::new(2, 1), Money::new(3, 0)]),
        Some(Money::new(321, 2))
    );
    let top = Money::from_parts(79228162514264337593543950335, 0).unwrap();
    assert_eq!(total(&vec![top, Money::new(1, 0), Money::new(-1, 0)]), None);
}

#[test]
fn dates_are_days_of_the_calendar() {
    assert!(Date::from_ymd_opt(2024, 2, 29).is_some());
    assert!(Date::from_ymd_opt(2023, 2, 29).is_none());
    assert!(Date::from_ymd_opt(1900, 2, 29).is_none());
    assert!(Date::from_ymd_opt(2000, 2, 29).is_some());
    assert!(Date::from_ymd_opt(-4, 2, 29).is_some());
    assert!(Date::from_ymd_opt(2024, 4, 31).is_none());
    assert!(Date::from_ymd_opt(2024, 0, 1).is_none());
    assert!(Date::from_ymd_opt(2024, 13, 1).is_none());
    assert!(Date::from_ymd_opt(2024, 1, 0).is_none());
    assert!(Date::from_ymd_opt(262142, 12, 31).is_some());
    assert!(Date::from_ymd_opt(262143, 1, 1).is_none());
    assert!(Date::from_ymd_opt(-262143, 1, 1).is_some());
    assert!(Date::from_ymd_opt(-262144, 12, 31).is_none());
    let day = Date::from_ymd_opt(2024, 3, 1).unwrap();
    assert_eq!((day.year(), day.month(), day.day()), (2024, 3, 1));
}

#[test]
fn dates_are_ordered_by_calendar() {
    let a = Date::from_ymd_opt(2023, 12, 31).unwrap();
    let b = Date::from_ymd_opt(2024, 1, 1).unwrap();
    let c = Date::from_ymd_opt(2024, 1, 2).unwrap();
    assert!(a.is_before(&b) && b.is_before(&c) && a.is_before(&c));
    assert!(c.is_after(&a) && !a.is_after(&a) && !a.is_before(&a));
    assert_eq!(b, Date::from_ymd_opt(2024, 1, 1).unwrap());
}

#[test]
fn a_sum_is_confirmed_whatever_the_trailing_zeros() {
    let large = Money::from_parts(5_000_000_000_000, 0).unwrap();
    let one = Money::from_parts(10_000_000_000_000_000_000_000_000_000, 28).unwrap();
    let sum = large.checked_add(one).unwrap();
    assert_eq!(sum, Money::from_parts(5_000_000_000_001, 0).unwrap());
    assert_eq!(large.confirm_sum(one, Some((5_000_000_000_001, 0))), Some(sum));
    assert_eq!(large.confirm_sum(one, Some((50_000_000_000_010, 1))), Some(sum));
    assert_eq!(large.confirm_sum(one, Some((5_000_000_000_002, 0))), None);
    let top = Money::from_parts(79228162514264337593543950335, 0).unwrap();
    assert_eq!(top.checked_sub(one), Money::from_parts(79228162514264337593543950334, 0));
    assert_eq!(top.neg().checked_add(top), Some(Money::zero()));
    assert_eq!(Money::new(-5, 1).checked_add(Money::new(50, 2)).map(|z| z.is_zero()), Some(true));
}
