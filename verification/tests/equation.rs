use minicalc::math::base::NumberBase;
use minicalc::math::equation::Equation;
use minicalc::math::operation::Operation;
use minicalc::math::{Num, NumComponent};

fn num(numer: i64, denom: i64) -> Num {
    Num::new(NumComponent::from(numer), NumComponent::from(denom))
}

fn typed(keys: &[&str], base: NumberBase) -> Equation {
    let mut equation = Equation::default();
    for key in keys {
        equation.try_type_single(key, base);
    }
    equation
}

#[test]
fn a_new_equation_is_zero() {
    let equation = Equation::default();
    assert_eq!(equation.left(), &num(0, 1));
    assert!(equation.editing_left());
    assert_eq!(equation.operation(), None);
    assert_eq!(equation.right(), None);
    assert_eq!(equation.editing_trailing_zeros(), None);
    assert_eq!(equation.display(NumberBase::Decimal, 128), "0");
}

#[test]
fn trailing_zeros_are_kept_and_deleted_one_by_one() {
    let mut equation = typed(&["3", ".", "0", "0"], NumberBase::Decimal);
    assert_eq!(equation.display(NumberBase::Decimal, 128), "3.00");
    equation.delete_one_mut(NumberBase::Decimal);
    assert_eq!(equation.display(NumberBase::Decimal, 128), "3.0");
    equation.delete_one_mut(NumberBase::Decimal);
    assert_eq!(equation.display(NumberBase::Decimal, 128), "3.");
    equation.delete_one_mut(NumberBase::Decimal);
    assert_eq!(equation.display(NumberBase::Decimal, 128), "3");
}

#[test]
fn fifteen_by_three_is_five() {
    let equation = typed(&["1", "5", "/", "3"], NumberBase::Decimal);
    assert_eq!(equation.display(NumberBase::Decimal, 128), "15 / 3");
    let result = equation.eval().unwrap();
    assert_eq!(result.left(), &num(5, 1));
    assert!(result.editing_left());
    assert_eq!(result.editing_trailing_zeros(), None);
    assert_eq!(result.display(NumberBase::Decimal, 128), "5");
}

#[test]
fn seven_modulo_two_is_one() {
    let mut equation = typed(&["7", "%", "2"], NumberBase::Decimal);
    equation.eval_mut();
    assert_eq!(equation.display(NumberBase::Decimal, 128), "1");
}

#[test]
fn division_by_zero_leaves_the_equation() {
    let mut equation = typed(&["5", "/", "0"], NumberBase::Decimal);
    assert!(equation.eval().is_none());
    equation.eval_mut();
    assert_eq!(equation.display(NumberBase::Decimal, 128), "5 / 0");
    let mut modulo = typed(&["5", "%", "0"], NumberBase::Decimal);
    modulo.eval_mut();
    assert_eq!(modulo.display(NumberBase::Decimal, 128), "5 % 0");
}

#[test]
fn evaluation_needs_an_operator() {
    let equation = typed(&["4", "2"], NumberBase::Decimal);
    assert!(equation.eval().is_none());
}

#[test]
fn the_other_operators_evaluate() {
    let mut sum = typed(&["2", "+", "2"], NumberBase::Decimal);
    sum.eval_mut();
    assert_eq!(sum.left(), &num(4, 1));
    let mut difference = typed(&["2", "-", "5"], NumberBase::Decimal);
    difference.eval_mut();
    assert_eq!(difference.left(), &num(-3, 1));
    let mut product = typed(&["1", "2", "*", "1", "2"], NumberBase::Decimal);
    product.eval_mut();
    assert_eq!(product.left(), &num(144, 1));
    let mut quotient = typed(&["1", "/", "8"], NumberBase::Decimal);
    quotient.eval_mut();
    assert_eq!(quotient.display(NumberBase::Decimal, 128), "0.125");
}

#[test]
fn digits_append_in_each_base() {
    assert_eq!(typed(&["1", "0", "1"], NumberBase::Binary).left(), &num(5, 1));
    assert_eq!(typed(&["F", "F"], NumberBase::Hexadecimal).left(), &num(255, 1));
    assert_eq!(typed(&["1", "2", "3"], NumberBase::Decimal).left(), &num(123, 1));
}

#[test]
fn digits_the_base_lacks_are_ignored() {
    assert_eq!(typed(&["1", "2"], NumberBase::Binary).left(), &num(1, 1));
    assert_eq!(typed(&["9", "A"], NumberBase::Decimal).left(), &num(9, 1));
    assert_eq!(typed(&["x", "7", "", "12", "a"], NumberBase::Decimal).left(), &num(7, 1));
}

#[test]
fn fractional_digits_land_behind_the_point() {
    let equation = typed(&["3", ".", "1", "4"], NumberBase::Decimal);
    assert_eq!(equation.left(), &num(314, 100));
    assert_eq!(equation.editing_trailing_zeros(), Some(0));
    let spaced = typed(&["3", ".", "0", "0", "5"], NumberBase::Decimal);
    assert_eq!(spaced.left(), &num(3005, 1000));
    assert_eq!(spaced.display(NumberBase::Decimal, 128), "3.005");
    let binary = typed(&["1", ".", "0", "1"], NumberBase::Binary);
    assert_eq!(binary.left(), &num(5, 4));
    assert_eq!(binary.display(NumberBase::Binary, 128), "0b1.01");
}

#[test]
fn a_second_point_is_ignored() {
    let equation = typed(&["3", ".", ".", "5", "."], NumberBase::Decimal);
    assert_eq!(equation.left(), &num(7, 2));
    assert_eq!(equation.display(NumberBase::Decimal, 128), "3.5");
}

#[test]
fn an_operator_on_the_right_side_is_ignored() {
    let equation = typed(&["1", "+", "2", "*", "3"], NumberBase::Decimal);
    assert_eq!(equation.operation(), Some(Operation::Add));
    assert_eq!(equation.right(), Some(&num(23, 1)));
    assert_eq!(equation.display(NumberBase::Decimal, 128), "1 + 23");
}

#[test]
fn an_operator_forgets_the_point() {
    let equation = typed(&["1", ".", "0", "+"], NumberBase::Decimal);
    assert_eq!(equation.editing_trailing_zeros(), None);
    assert_eq!(equation.display(NumberBase::Decimal, 128), "1 + 0");
}

#[test]
fn the_right_side_shows_its_zeros() {
    let equation = typed(&["1", "+", "2", ".", "0"], NumberBase::Decimal);
    assert_eq!(equation.display(NumberBase::Decimal, 128), "1 + 2.0");
}

#[test]
fn deleting_digits_returns_to_zero() {
    for base in [NumberBase::Binary, NumberBase::Decimal, NumberBase::Hexadecimal] {
        let mut equation = typed(&["1", "0", "1", "1"], base);
        for _ in 0..4 {
            equation.delete_one_mut(base);
        }
        assert_eq!(equation, Equation::default());
    }
}

#[test]
fn deleting_a_zero_right_side_drops_the_operator() {
    let mut equation = typed(&["4", "2", "+"], NumberBase::Decimal);
    equation.delete_one_mut(NumberBase::Decimal);
    assert!(equation.editing_left());
    assert_eq!(equation.left(), &num(42, 1));
    assert_eq!(equation.display(NumberBase::Decimal, 128), "42");
}

#[test]
fn deleting_a_fractional_digit() {
    let mut equation = typed(&["3", ".", "2", "5"], NumberBase::Decimal);
    equation.delete_one_mut(NumberBase::Decimal);
    assert_eq!(equation.editing_trailing_zeros(), None);
    assert_eq!(equation.left(), &num(325, 100));
    equation.delete_one_mut(NumberBase::Decimal);
    assert_eq!(equation.left(), &num(32, 10));
    equation.delete_one_mut(NumberBase::Decimal);
    assert_eq!(equation.left(), &num(3, 1));
    equation.delete_one_mut(NumberBase::Decimal);
    assert_eq!(equation.left(), &num(0, 1));
}

#[test]
fn one_zero_behind_a_fraction_goes_with_the_point() {
    let mut equation = typed(&["3", ".", "5", "0"], NumberBase::Decimal);
    assert_eq!(equation.display(NumberBase::Decimal, 128), "3.50");
    equation.delete_one_mut(NumberBase::Decimal);
    assert_eq!(equation.editing_trailing_zeros(), None);
    assert_eq!(equation.display(NumberBase::Decimal, 128), "3.5");
}

#[test]
fn an_endless_fraction_takes_no_digit_and_loses_its_tail() {
    let mut equation = typed(&["1", "/", "3"], NumberBase::Decimal);
    equation.eval_mut();
    let third = equation.clone();
    equation.try_type_single("7", NumberBase::Decimal);
    assert_eq!(equation, third);
    equation.try_type_single("0", NumberBase::Decimal);
    assert_eq!(equation.editing_trailing_zeros(), Some(1));
    let mut cut = third.clone();
    cut.delete_one_mut(NumberBase::Decimal);
    let expected = "0.".to_owned() + &"3".repeat(127);
    assert_eq!(cut.display(NumberBase::Decimal, 200), expected);
}

#[test]
fn loading_operands() {
    let mut equation = typed(&["1", "+", "2"], NumberBase::Decimal);
    equation.set_left(num(7, 2));
    assert!(equation.set_right(num(1, 2)));
    assert_eq!(equation.display(NumberBase::Decimal, 128), "3.5 + 0.5");
    let mut single = Equation::default();
    assert!(!single.set_right(num(1, 2)));
    assert_eq!(single, Equation::default());
}

#[test]
fn counted_zeros_stop_at_their_limit() {
    let mut equation = typed(&["1", "."], NumberBase::Decimal);
    for _ in 0..300 {
        equation.try_type_single("0", NumberBase::Decimal);
    }
    assert_eq!(equation.editing_trailing_zeros(), Some(255));
    assert_eq!(equation.display(NumberBase::Decimal, 128), "1.".to_owned() + &"0".repeat(255));
    equation.try_type_single("7", NumberBase::Decimal);
    assert_eq!(equation.editing_trailing_zeros(), Some(0));
    assert_eq!(
        equation.display(NumberBase::Decimal, 300),
        "1.".to_owned() + &"0".repeat(255) + "7"
    );
}

#[test]
fn a_fraction_at_the_shift_limit() {
    let mut equation = typed(&["0", "."], NumberBase::Binary);
    for _ in 0..127 {
        equation.try_type_single("0", NumberBase::Binary);
    }
    equation.try_type_single("1", NumberBase::Binary);
    let tiny = equation.clone();
    assert_eq!(
        tiny.display(NumberBase::Binary, 128),
        "0b0.".to_owned() + &"0".repeat(127) + "1"
    );
    equation.try_type_single("1", NumberBase::Binary);
    assert_eq!(equation, tiny);
    equation.delete_one_mut(NumberBase::Binary);
    assert_eq!(equation.editing_trailing_zeros(), None);
    equation.delete_one_mut(NumberBase::Binary);
    assert_eq!(equation.left(), &num(0, 1));
}

#[test]
fn digits_typed_on_the_right_are_deleted_again() {
    let start = typed(&["9", "*"], NumberBase::Decimal);
    let mut equation = start.clone();
    for key in ["4", "0", "2"] {
        equation.try_type_single(key, NumberBase::Decimal);
    }
    assert_eq!(equation.right(), Some(&num(402, 1)));
    for _ in 0..3 {
        equation.delete_one_mut(NumberBase::Decimal);
    }
    assert_eq!(equation, start);
    let mut zero_first = start.clone();
    zero_first.try_type_single("0", NumberBase::Decimal);
    zero_first.delete_one_mut(NumberBase::Decimal);
    assert!(zero_first.editing_left());
}

#[test]
fn keys_given_as_characters() {
    let mut equation = Equation::default();
    for key in ['1', '2', '.', '5', '-', '3'] {
        equation.type_char(key, NumberBase::Decimal);
    }
    assert_eq!(equation.display(NumberBase::Decimal, 128), "12.5 - 3");
    equation.type_char('x', NumberBase::Decimal);
    equation.try_type_single("12", NumberBase::Decimal);
    assert_eq!(equation.display(NumberBase::Decimal, 128), "12.5 - 3");
}
