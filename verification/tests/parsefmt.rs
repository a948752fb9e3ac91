use minicalc::math::base::NumberBase;
use minicalc::math::parsefmt::{fmt, fmt_padded, parse};
use minicalc::math::{Num, NumComponent};

fn num(numer: i64, denom: i64) -> Num {
    Num::new(NumComponent::from(numer), NumComponent::from(denom))
}

#[test]
fn fmt_test() {
    assert_eq!(fmt(num(1, 3), NumberBase::Decimal, 128),
    // 128 decimal places of 3 !!
    "0.33333333333333333333333333333333333333333333333333333333333333333333333333333333333333333333333333333333333333333333333333333333".to_owned()
    );

    assert_eq!(fmt(num(1, 2), NumberBase::Binary, 128),
    "0b0.1".to_owned()
    );

    assert_eq!(fmt(num(7, 1), NumberBase::Hexadecimal, 128),
    "0x7".to_owned()
    );

    assert_eq!(fmt(num(1, 4), NumberBase::Binary, 128),
    "0b0.01".to_owned()
    );
}

#[test]
fn parse_test() {
    assert_eq!(
        parse("3.14159".to_owned()),
        Some(num(314159, 100000))
    );
}

#[test]
fn fifteen_in_each_base() {
    assert_eq!(fmt(num(15, 1), NumberBase::Binary, 128), "0b1111");
    assert_eq!(fmt(num(15, 1), NumberBase::Hexadecimal, 128), "0xF");
    assert_eq!(fmt(num(15, 1), NumberBase::Decimal, 128), "15");
}

#[test]
fn negative_integers_keep_sign_before_marker() {
    assert_eq!(fmt(num(-5, 1), NumberBase::Binary, 128), "-0b101");
    assert_eq!(fmt(num(-255, 1), NumberBase::Hexadecimal, 128), "-0xFF");
    assert_eq!(fmt(num(-12, 1), NumberBase::Decimal, 128), "-12");
}

#[test]
fn budget_cuts_without_rounding() {
    assert_eq!(fmt(num(2, 3), NumberBase::Decimal, 4), "0.6666");
    assert_eq!(fmt(num(1, 3), NumberBase::Decimal, 0), "0.");
    let third = fmt(num(1, 3), NumberBase::Decimal, 17);
    assert_eq!(third.len(), 2 + 17);
}

#[test]
fn half_ends_after_one_binary_digit() {
    assert_eq!(fmt(num(1, 2), NumberBase::Binary, 128), "0b0.1");
    assert_eq!(fmt(num(1, 2), NumberBase::Decimal, 128), "0.5");
    assert_eq!(fmt(num(1, 2), NumberBase::Hexadecimal, 128), "0x0.8");
}

#[test]
fn padded_echoes_trailing_zeros() {
    assert_eq!(fmt_padded(num(3, 1), NumberBase::Decimal, 128, Some(2)), "3.00");
    assert_eq!(fmt_padded(num(3, 1), NumberBase::Decimal, 128, Some(0)), "3.");
    assert_eq!(fmt_padded(num(3, 1), NumberBase::Decimal, 128, None), "3");
    assert_eq!(fmt_padded(num(7, 2), NumberBase::Decimal, 128, Some(1)), "3.50");
}

#[test]
fn parse_rejects_what_is_no_decimal_number() {
    assert_eq!(parse("1.2.3".to_owned()), None);
    assert_eq!(parse("".to_owned()), None);
    assert_eq!(parse("3.".to_owned()), None);
    assert_eq!(parse(".5".to_owned()), None);
    assert_eq!(parse("0x10".to_owned()), None);
    assert_eq!(parse("abc".to_owned()), None);
    assert_eq!(parse("-+5".to_owned()), None);
}

#[test]
fn parse_reads_integers_and_fractions() {
    assert_eq!(parse("42".to_owned()), Some(num(42, 1)));
    assert_eq!(parse("-42".to_owned()), Some(num(-42, 1)));
    assert_eq!(parse("+7".to_owned()), Some(num(7, 1)));
    assert_eq!(parse("3.05".to_owned()), Some(num(305, 100)));
    assert_eq!(parse("0.500".to_owned()), Some(num(1, 2)));
    assert_eq!(parse("1_000".to_owned()), Some(num(1000, 1)));
}

#[test]
fn parse_undoes_fmt_for_terminating_decimals() {
    for (n, d) in [(0, 1), (7, 1), (1, 2), (1, 8), (12345, 1000), (3, 40)] {
        let text = fmt(num(n, d), NumberBase::Decimal, 128);
        assert_eq!(parse(text), Some(num(n, d)));
    }
}

#[test]
fn negative_fractions_carry_their_sign_on_each_digit() {
    assert_eq!(fmt(num(-1, 2), NumberBase::Decimal, 128), "0.-5");
    assert_eq!(fmt(num(-5, 2), NumberBase::Decimal, 128), "-2.-5");
    assert_eq!(fmt(num(-5, 4), NumberBase::Binary, 128), "-0b1.0-1");
    assert_eq!(parse("0.-5".to_owned()), Some(num(-5, 100)));
    assert_eq!(parse("-2.5".to_owned()), Some(num(-3, 2)));
}

#[test]
fn the_fraction_counts_every_character_behind_the_point() {
    assert_eq!(parse("1.0_5".to_owned()), Some(num(1005, 1000)));
    assert_eq!(parse("1.+5".to_owned()), Some(num(105, 100)));
    assert_eq!(parse("7.000".to_owned()), Some(num(7, 1)));
}
