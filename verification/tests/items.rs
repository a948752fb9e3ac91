use minicalc::cli::{Args, Frontend};
use minicalc::config::Config;
use minicalc::math::base::NumberBase;
use minicalc::math::number::MathError;
use minicalc::math::operation::Operation;
use minicalc::math::{Num, NumComponent};
use minicalc::text::{find_char, is_white_space, split_once, str_eq, trim};

#[test]
fn place_values() {
    assert_eq!(NumberBase::Binary.place_value(), 2);
    assert_eq!(NumberBase::Decimal.place_value(), 10);
    assert_eq!(NumberBase::Hexadecimal.place_value(), 16);
}

#[test]
fn operator_symbols() {
    let all = [
        (Operation::Add, "+"),
        (Operation::Sub, "-"),
        (Operation::Mul, "*"),
        (Operation::Div, "/"),
        (Operation::Mod, "%"),
    ];
    for (op, symbol) in all {
        assert_eq!(op.char(), symbol);
        assert_eq!(Operation::from_str(symbol), Some(op));
    }
    assert_eq!(Operation::from_str("x"), None);
    assert_eq!(Operation::from_str(""), None);
    assert_eq!(Operation::from_str("++"), None);
}

#[test]
fn frontends_by_name() {
    assert_eq!(Frontend::from_str("Egui"), Ok(Frontend::Egui));
    assert_eq!(Frontend::from_str("Term"), Ok(Frontend::Term));
    assert_eq!(Frontend::from_str("egui"), Err("Invalid frontend".to_owned()));
    assert_eq!(Frontend::Egui.to_string(), "Egui");
    assert_eq!(Frontend::Term.to_string(), "Term");
}

#[test]
fn defaults() {
    let config = Config::default();
    assert_eq!(config.max_fractional_places, 128);
    assert_eq!(config.base, NumberBase::Decimal);
    let args = Args::default();
    assert_eq!(args.vars, "minicalc-vars");
    assert_eq!(args.frontend, Frontend::Egui);
}

#[test]
fn number_model() {
    let a = Num::new(NumComponent::from(7), NumComponent::from(2));
    let b = Num::new(NumComponent::from(-3), NumComponent::from(4));
    let q = |n: i64, d: i64| Num::new(NumComponent::from(n), NumComponent::from(d));
    assert_eq!(a.add(&b), q(11, 4));
    assert_eq!(a.subtract(&b), q(17, 4));
    assert_eq!(a.multiply(&b), q(-21, 8));
    assert_eq!(a.divide(&b).unwrap(), q(-14, 3));
    assert_eq!(a.modulo(&b).unwrap(), q(1, 2));
    assert_eq!(b.modulo(&q(1, 2)).unwrap(), q(-1, 4));
    assert_eq!(q(7, 1).modulo(&q(2, 1)).unwrap(), q(1, 1));
    assert_eq!(q(-7, 1).modulo(&q(2, 1)).unwrap(), q(-1, 1));
    assert_eq!(a.divide(&q(0, 1)), Err(MathError::DivisionByZero));
    assert_eq!(a.modulo(&q(0, 1)), Err(MathError::DivisionByZero));
    assert_eq!(q(6, -4).numer(), &NumComponent::from(-3));
    assert_eq!(q(6, -4).denom(), &NumComponent::from(2));
    assert_eq!(q(0, -4).denom(), &NumComponent::from(1));
    assert!(!a.is_integer());
    assert!(q(4, 2).is_integer());
    assert!(q(0, 5).is_zero());
    assert!(!b.is_zero());
    assert_eq!(a.truncate(), q(3, 1));
    assert_eq!(b.truncate(), q(0, 1));
    assert_eq!(q(-7, 2).truncate(), q(-3, 1));
    assert_eq!(a.fractional_part(), q(1, 2));
    assert_eq!(q(-7, 2).fractional_part(), q(-1, 2));
    assert_eq!(q(-7, 2).to_integer(), NumComponent::from(-3));
    assert_eq!(q(6, -4), q(-3, 2));
    assert_eq!(a.clone(), a);
}

#[test]
fn integers() {
    assert_eq!(NumComponent::from_str("-12"), Some(NumComponent::from(-12)));
    assert_eq!(NumComponent::from_str("+12"), Some(NumComponent::from(12)));
    assert_eq!(NumComponent::from_str("1_2_"), Some(NumComponent::from(12)));
    assert_eq!(NumComponent::from_str("007"), Some(NumComponent::from(7)));
    assert_eq!(NumComponent::from_str("-0"), Some(NumComponent::from(0)));
    for bad in ["", "-", "+", "_1", "+_1", "-+1", "+-1", "--1", "1a", "１", " 1", "1.0"] {
        assert_eq!(NumComponent::from_str(bad), None, "{:?}", bad);
    }
    let big = NumComponent::from(i64::MAX).multiply(&NumComponent::from(i64::MIN));
    assert_eq!(big.to_digits(NumberBase::Decimal), "-85070591730234615856620279821087277056");
    assert_eq!(big.to_digits(NumberBase::Hexadecimal), "-3FFFFFFFFFFFFFFF8000000000000000");
    assert_eq!(NumComponent::from(-5).to_digits(NumberBase::Binary), "-101");
    assert_eq!(NumComponent::from(0).to_digits(NumberBase::Binary), "0");
    assert_eq!(big.clone(), big);
}

#[test]
fn text_helpers() {
    assert!(str_eq("abc", "abc"));
    assert!(!str_eq("abc", "abd"));
    assert!(!str_eq("abc", "ab"));
    assert_eq!(find_char("a.b.c", '.'), 1);
    assert_eq!(find_char("abc", '.'), 3);
    assert_eq!(find_char("äö.", '.'), 2);
    assert_eq!(split_once("a b c", ' '), ("a", Some("b c")));
    assert_eq!(split_once("abc", ' '), ("abc", None));
    assert_eq!(split_once("abc ", ' '), ("abc", Some("")));
    assert_eq!(trim(" \t a b \u{3000}\n"), "a b");
    assert_eq!(trim("   "), "");
    assert_eq!(trim(""), "");
    for c in ['\t', '\n', '\u{b}', '\u{c}', '\r', ' ', '\u{85}', '\u{a0}', '\u{1680}', '\u{2000}', '\u{200a}', '\u{2028}', '\u{2029}', '\u{202f}', '\u{205f}', '\u{3000}'] {
        assert!(is_white_space(c), "{:?}", c);
    }
    for c in ['a', '0', '\u{200b}', '\u{e}', '\u{1f}', '\u{feff}'] {
        assert!(!is_white_space(c), "{:?}", c);
    }
}

#[test]
fn white_space_is_what_std_says() {
    let mut c = 0u32;
    while c <= 0x10FFFF {
        if let Some(ch) = char::from_u32(c) {
            assert_eq!(is_white_space(ch), ch.is_whitespace(), "{:x}", c);
        }
        c += 1;
    }
}

#[test]
fn numbers_are_ordered_by_value() {
    let q = |n: i64, d: i64| Num::new(NumComponent::from(n), NumComponent::from(d));
    assert!(q(1, 3) < q(1, 2));
    assert!(q(-1, 2) < q(-1, 3));
    assert!(q(2, 4) == q(1, 2));
    assert!(q(2, 4) <= q(1, 2));
    assert!(q(7, 1) > q(13, 2));
    assert!(q(1, 3) != q(1, 2));
    assert!(NumComponent::from(3) != NumComponent::from(-3));
    assert!(NumComponent::from(3) == NumComponent::from(3));
}
