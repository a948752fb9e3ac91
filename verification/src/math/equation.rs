//! The equation being edited: a left operand, perhaps an operator with a
//! right operand, and the bookkeeping for a fraction that is being typed.
//!
//! A number in lowest terms cannot remember that `3.00` was typed and not
//! `3`, so the point and the zeros after it are counted beside the number
//! until a digit other than zero gives them a value.

use crate::math::base::NumberBase;
use crate::math::number::{
    is_integral, lemma_floor_of_quotient, lemma_real_of_product, lemma_whole, trunc, Num,
};
use crate::math::operation::Operation;
use crate::math::parsefmt::{fmt, fmt_padded, fmt_padded_text, fmt_text};
use vstd::prelude::*;
use vstd::string::*;

verus! {

/// The most places a value is shifted while its last digit is looked for.
pub const SHIFT_LIMIT: u32 = 128;

/// `b` to the power `e`.
pub open spec fn real_pow(b: real, e: nat) -> real
    decreases e,
{
    if e == 0 {
        1real
    } else {
        b * real_pow(b, (e - 1) as nat)
    }
}

/// How many times `v` must be multiplied by `radix` to become whole, as far
/// as `limit` multiplications can tell: `limit` itself if they do not
/// suffice.
pub open spec fn frac_depth(v: real, radix: nat, limit: nat) -> nat
    decreases limit,
{
    if limit == 0 || is_integral(v) {
        0
    } else {
        1 + frac_depth(v * (radix as real), radix, (limit - 1) as nat)
    }
}

/// `v` without its last digit in base `radix`. The value is shifted until it
/// is whole (or the limit is reached, and then cut to its integer part),
/// divided by the radix once and cut again, and shifted back by one place
/// less.
pub open spec fn drop_last_digit(v: real, radix: nat) -> real {
    let depth = frac_depth(v, radix, SHIFT_LIMIT as nat);
    let shifted = trunc(v * real_pow(radix as real, depth)) as real;
    let cut = trunc(shifted / (radix as real)) as real;
    cut / real_pow(radix as real, if depth == 0 { 0 } else { (depth - 1) as nat })
}

/// The value of a digit key: 0 to 9 for `0` to `9`, 10 to 15 for `A` to
/// `F`, and 16 for any other character.
pub open spec fn glyph_value(c: char) -> nat {
    if c == '0' {
        0
    } else if c == '1' {
        1
    } else if c == '2' {
        2
    } else if c == '3' {
        3
    } else if c == '4' {
        4
    } else if c == '5' {
        5
    } else if c == '6' {
        6
    } else if c == '7' {
        7
    } else if c == '8' {
        8
    } else if c == '9' {
        9
    } else if c == 'A' {
        10
    } else if c == 'B' {
        11
    } else if c == 'C' {
        12
    } else if c == 'D' {
        13
    } else if c == 'E' {
        14
    } else if c == 'F' {
        15
    } else {
        16
    }
}

/// What an equation is, as mathematics: the value of its left operand, the
/// operator and the value of its right operand if there are any, and the
/// count of zeros typed after a point on the side being edited.
pub struct EquationView {
    pub left: real,
    pub pending: Option<(Operation, real)>,
    pub trailing_zeros: Option<u8>,
}

impl EquationView {
    /// The equation nothing has been typed into.
    pub open spec fn empty() -> EquationView {
        EquationView { left: 0real, pending: None, trailing_zeros: None }
    }

    /// Whether keystrokes go to the left operand.
    pub open spec fn editing_left(self) -> bool {
        self.pending is None
    }

    /// The operator, if one has been typed.
    pub open spec fn operation(self) -> Option<Operation> {
        match self.pending {
            Some((op, _)) => Some(op),
            None => None,
        }
    }

    /// The right operand, if an operator has been typed.
    pub open spec fn right(self) -> Option<real> {
        match self.pending {
            Some((_, right)) => Some(right),
            None => None,
        }
    }

    /// The operand that keystrokes go to.
    pub open spec fn editing_num(self) -> real {
        match self.pending {
            Some((_, right)) => right,
            None => self.left,
        }
    }

    /// The equation with `v` in place of the operand being edited.
    pub open spec fn with_editing_num(self, v: real) -> EquationView {
        match self.pending {
            Some((op, _)) => EquationView { pending: Some((op, v)), ..self },
            None => EquationView { left: v, ..self },
        }
    }

    /// After the point key: a side without a point gets one.
    pub open spec fn type_point(self) -> EquationView {
        if self.trailing_zeros is None {
            EquationView { trailing_zeros: Some(0u8), ..self }
        } else {
            self
        }
    }

    /// After an operator key: on the left side the operator is taken, the
    /// right operand starts at zero and the point is forgotten; on the
    /// right side nothing happens.
    pub open spec fn type_operator(self, op: Operation) -> EquationView {
        if self.editing_left() {
            EquationView { left: self.left, pending: Some((op, 0real)), trailing_zeros: None }
        } else {
            self
        }
    }

    /// After a digit key. A digit the base does not have changes nothing. On
    /// a whole number without a point the digit is appended. Otherwise a
    /// zero is only counted, and another digit lands behind the fractional
    /// digits and the counted zeros, unless the fractional digits are too
    /// many to be found.
    pub open spec fn type_digit(self, digit: nat, radix: nat) -> EquationView {
        let v = self.editing_num();
        let depth = frac_depth(v, radix, SHIFT_LIMIT as nat);
        if digit >= radix {
            self
        } else if is_integral(v) && self.trailing_zeros is None {
            self.with_editing_num(v * (radix as real) + digit as real)
        } else if digit == 0 {
            EquationView {
                trailing_zeros: Some(
                    match self.trailing_zeros {
                        None => 1u8,
                        Some(z) => if z == 255 {
                            255u8
                        } else {
                            (z + 1) as u8
                        },
                    },
                ),
                ..self
            }
        } else if depth >= SHIFT_LIMIT {
            self
        } else {
            let places = depth + 1 + match self.trailing_zeros {
                None => 0nat,
                Some(z) => z as nat,
            };
            EquationView {
                trailing_zeros: Some(0u8),
                ..self.with_editing_num(v + digit as real / real_pow(radix as real, places))
            }
        }
    }

    /// After one key. The sixteen digit glyphs, the five operator symbols
    /// and the point do what their keys do; anything else does nothing.
    pub open spec fn type_key(self, input: Seq<char>, base: NumberBase) -> EquationView {
        if input.len() != 1 {
            self
        } else if glyph_value(input[0]) < 16 {
            self.type_digit(glyph_value(input[0]), base.radix())
        } else if Operation::of_symbol(input) is Some {
            self.type_operator(Operation::of_symbol(input).unwrap())
        } else if input[0] == '.' {
            self.type_point()
        } else {
            self
        }
    }

    /// After backspace. Counted zeros go first, one at a time, and then the
    /// point; with one counted zero behind real fractional digits the count
    /// is dropped at once. Without a point, a right operand of zero goes
    /// away together with its operator; otherwise the operand being edited
    /// loses its last digit.
    pub open spec fn delete_one(self, radix: nat) -> EquationView {
        match self.trailing_zeros {
            Some(z) => EquationView {
                trailing_zeros: if z == 0 || (z == 1 && !is_integral(self.editing_num())) {
                    None
                } else {
                    Some((z - 1) as u8)
                },
                ..self
            },
            None => if !self.editing_left() && self.editing_num() == 0real {
                EquationView { pending: None, ..self }
            } else {
                self.with_editing_num(drop_last_digit(self.editing_num(), radix))
            },
        }
    }

    /// The result of the pending operation as a fresh equation, if there is
    /// an operation and it has a result.
    pub open spec fn evaluate(self) -> Option<EquationView> {
        match self.pending {
            None => None,
            Some((op, right)) => match op.apply(self.left, right) {
                Some(v) => Some(EquationView { left: v, pending: None, trailing_zeros: None }),
                None => None,
            },
        }
    }

    /// The text shown for the equation. The side being edited carries the
    /// point and the counted zeros.
    pub open spec fn render(self, base: NumberBase, places: nat) -> Seq<char> {
        match self.pending {
            None => fmt_padded_text(self.left, base, places, self.trailing_zeros),
            Some((op, right)) => fmt_text(self.left, base, places) + seq![' ', op.symbol(), ' ']
                + fmt_padded_text(right, base, places, self.trailing_zeros),
        }
    }
}

/// An equation has an operator exactly when it has a right operand, and
/// then it is the right operand that is being edited; no keystroke and no
/// evaluation can part the two.
pub proof fn lemma_operator_with_right_operand(e: EquationView)
    ensures
        e.operation() is Some <==> e.right() is Some,
        e.editing_left() <==> e.right() is None,
        e.right() is Some ==> e.editing_num() == e.right().unwrap(),
        e.right() is None ==> e.editing_num() == e.left,
{
}

/// Powers of a positive base are positive.
pub proof fn lemma_real_pow_positive(b: real, e: nat)
    requires
        b > 0real,
    ensures
        real_pow(b, e) > 0real,
    decreases e,
{
    if e > 0 {
        lemma_real_pow_positive(b, (e - 1) as nat);
        let p = real_pow(b, (e - 1) as nat);
        assert(b * p > 0real) by (nonlinear_arith)
            requires
                b > 0real,
                p > 0real,
        ;
    }
}

/// The equation after the digit keys `digits`, typed in order.
pub open spec fn type_digits(e: EquationView, digits: Seq<nat>, radix: nat) -> EquationView
    decreases digits.len(),
{
    if digits.len() == 0 {
        e
    } else {
        type_digits(e, digits.drop_last(), radix).type_digit(digits.last(), radix)
    }
}

/// The equation after `count` backspaces.
pub open spec fn delete_many(e: EquationView, count: nat, radix: nat) -> EquationView
    decreases count,
{
    if count == 0 {
        e
    } else {
        delete_many(e.delete_one(radix), (count - 1) as nat, radix)
    }
}

/// A whole number that is not negative loses, with its last digit, exactly
/// the digit that was appended.
proof fn lemma_drop_appended_digit(v: real, digit: nat, radix: nat)
    requires
        is_integral(v),
        v >= 0real,
        digit < radix,
    ensures
        is_integral(v * (radix as real) + digit as real),
        drop_last_digit(v * (radix as real) + digit as real, radix) == v,
{
    let b = radix as real;
    let k = v.floor();
    let w = v * b + digit as real;
    let n = k * radix + digit;
    lemma_real_of_product(k, radix as int);
    assert(w == n as real);
    lemma_whole(n);
    assert(frac_depth(w, radix, SHIFT_LIMIT as nat) == 0);
    assert(real_pow(b, 0) == 1real);
    assert(w * 1real == w);
    let shifted = trunc(w * real_pow(b, 0)) as real;
    assert(shifted == w);
    lemma_floor_of_quotient(k, digit as int, radix as int);
    assert(w / b >= 0real) by (nonlinear_arith)
        requires
            w >= 0real,
            b >= 1real,
    ;
    assert(trunc(shifted / b) == k);
    assert((k as real) / 1real == k as real);
}

/// One backspace takes back one digit typed onto a whole number without a
/// point, as long as the backspace does not find a right operand of zero.
proof fn lemma_delete_undoes_digit(e: EquationView, digit: nat, base: NumberBase)
    requires
        e.trailing_zeros is None,
        is_integral(e.editing_num()),
        e.editing_num() >= 0real,
        digit < base.radix(),
        e.editing_left() || e.editing_num() > 0real || digit > 0,
    ensures
        e.type_digit(digit, base.radix()).delete_one(base.radix()) == e,
        e.type_digit(digit, base.radix()) == e.with_editing_num(
            e.editing_num() * (base.radix() as real) + digit as real,
        ),
{
    let v = e.editing_num();
    let b = base.radix() as real;
    let w = v * b + digit as real;
    lemma_drop_appended_digit(v, digit, base.radix());
    assert(b >= 2real);
    if v > 0real {
        assert(v * b > 0real) by (nonlinear_arith)
            requires
                v > 0real,
                b >= 2real,
        ;
    } else {
        assert(v * b == 0real) by (nonlinear_arith)
            requires
                v == 0real,
        ;
    }
    let typed = e.type_digit(digit, base.radix());
    assert(typed.editing_num() == w);
    assert(typed.delete_one(base.radix()) == typed.with_editing_num(v));
}

/// Digits typed onto a whole number without a point leave a whole number
/// without a point on the same side, and a number above zero if the start
/// or the first digit is above zero.
proof fn lemma_type_digits_shape(e: EquationView, digits: Seq<nat>, base: NumberBase)
    requires
        e.trailing_zeros is None,
        is_integral(e.editing_num()),
        e.editing_num() >= 0real,
        forall|i: int| 0 <= i < digits.len() ==> digits[i] < base.radix(),
    ensures
        ({
            let typed = type_digits(e, digits, base.radix());
            &&& typed.trailing_zeros is None
            &&& is_integral(typed.editing_num())
            &&& typed.editing_num() >= 0real
            &&& typed == e.with_editing_num(typed.editing_num())
            &&& digits.len() > 0 && (e.editing_num() > 0real || digits[0] > 0)
                ==> typed.editing_num() > 0real
        }),
    decreases digits.len(),
{
    if digits.len() > 0 {
        let init = digits.drop_last();
        lemma_type_digits_shape(e, init, base);
        let before = type_digits(e, init, base.radix());
        let v = before.editing_num();
        let b = base.radix() as real;
        lemma_drop_appended_digit(v, digits.last(), base.radix());
        assert(b >= 2real);
        assert(v * b >= v) by (nonlinear_arith)
            requires
                v >= 0real,
                b >= 2real,
        ;
        if init.len() > 0 {
            assert(init[0] == digits[0]);
        }
    }
}

/// Typing digits and then pressing backspace once for each of them restores
/// the equation, when the digits were typed onto a zero without a point:
/// on the left side always, on the right side when the first digit is not
/// zero (a right operand that is still zero goes away with its operator at
/// the first backspace).
pub proof fn lemma_delete_undoes_digits(e: EquationView, digits: Seq<nat>, base: NumberBase)
    requires
        e.trailing_zeros is None,
        e.editing_num() == 0real,
        forall|i: int| 0 <= i < digits.len() ==> digits[i] < base.radix(),
        e.editing_left() || digits.len() == 0 || digits[0] > 0,
    ensures
        delete_many(type_digits(e, digits, base.radix()), digits.len(), base.radix()) == e,
    decreases digits.len(),
{
    if digits.len() > 0 {
        let init = digits.drop_last();
        let before = type_digits(e, init, base.radix());
        lemma_type_digits_shape(e, init, base);
        if init.len() > 0 {
            assert(init[0] == digits[0]);
        }
        lemma_delete_undoes_digit(before, digits.last(), base);
        lemma_delete_undoes_digits(e, init, base);
    }
}

/// The equation being edited.
#[derive(Debug, PartialEq, Eq)]
pub struct Equation {
    left: Num,
    pending: Option<(Operation, Num)>,
    editing_trailing_zeros: Option<u8>,
}

impl View for Equation {
    type V = EquationView;

    closed spec fn view(&self) -> EquationView {
        EquationView {
            left: self.left@,
            pending: match self.pending {
                Some((op, right)) => Some((op, right@)),
                None => None,
            },
            trailing_zeros: self.editing_trailing_zeros,
        }
    }
}

impl Clone for Equation {
    fn clone(&self) -> (r: Self)
        ensures
            r@ == self@,
    {
        let pending = match &self.pending {
            Some((op, right)) => Some((*op, right.clone())),
            None => None,
        };
        Equation {
            left: self.left.clone(),
            pending,
            editing_trailing_zeros: self.editing_trailing_zeros,
        }
    }
}

impl Default for Equation {
    fn default() -> (r: Self)
        ensures
            r@ == EquationView::empty(),
    {
        Self { left: Num::from_integer(0), pending: None, editing_trailing_zeros: None }
    }
}

/// The digit that a key stands for, if it is one of the sixteen glyphs.
fn digit_of_key(c: char) -> (r: Option<u32>)
    ensures
        match r {
            Some(d) => glyph_value(c) == d && d < 16,
            None => glyph_value(c) == 16,
        },
{
    if c == '0' {
        Some(0)
    } else if c == '1' {
        Some(1)
    } else if c == '2' {
        Some(2)
    } else if c == '3' {
        Some(3)
    } else if c == '4' {
        Some(4)
    } else if c == '5' {
        Some(5)
    } else if c == '6' {
        Some(6)
    } else if c == '7' {
        Some(7)
    } else if c == '8' {
        Some(8)
    } else if c == '9' {
        Some(9)
    } else if c == 'A' {
        Some(10)
    } else if c == 'B' {
        Some(11)
    } else if c == 'C' {
        Some(12)
    } else if c == 'D' {
        Some(13)
    } else if c == 'E' {
        Some(14)
    } else if c == 'F' {
        Some(15)
    } else {
        None
    }
}

/// The operator that a key stands for, if it is one of the five symbols.
fn operation_of_key(c: char) -> (r: Option<Operation>)
    ensures
        r == Operation::of_symbol(seq![c]),
{
    proof {
        assert(seq![c] == seq!['+'] <==> c == '+') by {
            if c == '+' {
                assert(seq![c] =~= seq!['+']);
            } else {
                assert(seq![c][0] != seq!['+'][0]);
            }
        }
        assert(seq![c] == seq!['-'] <==> c == '-') by {
            if c == '-' {
                assert(seq![c] =~= seq!['-']);
            } else {
                assert(seq![c][0] != seq!['-'][0]);
            }
        }
        assert(seq![c] == seq!['*'] <==> c == '*') by {
            if c == '*' {
                assert(seq![c] =~= seq!['*']);
            } else {
                assert(seq![c][0] != seq!['*'][0]);
            }
        }
        assert(seq![c] == seq!['/'] <==> c == '/') by {
            if c == '/' {
                assert(seq![c] =~= seq!['/']);
            } else {
                assert(seq![c][0] != seq!['/'][0]);
            }
        }
        assert(seq![c] == seq!['%'] <==> c == '%') by {
            if c == '%' {
                assert(seq![c] =~= seq!['%']);
            } else {
                assert(seq![c][0] != seq!['%'][0]);
            }
        }
    }
    if c == '+' {
        Some(Operation::Add)
    } else if c == '-' {
        Some(Operation::Sub)
    } else if c == '*' {
        Some(Operation::Mul)
    } else if c == '/' {
        Some(Operation::Div)
    } else if c == '%' {
        Some(Operation::Mod)
    } else {
        None
    }
}

impl Equation {
    /// The left operand.
    pub fn left(&self) -> (r: &Num)
        ensures
            r@ == self@.left,
    {
        &self.left
    }

    /// The operator, if one has been typed.
    pub fn operation(&self) -> (r: Option<Operation>)
        ensures
            r == self@.operation(),
    {
        match &self.pending {
            Some((op, _)) => Some(*op),
            None => None,
        }
    }

    /// The right operand, if an operator has been typed.
    pub fn right(&self) -> (r: Option<&Num>)
        ensures
            match r {
                Some(n) => self@.right() == Some(n@),
                None => self@.right() is None,
            },
    {
        match &self.pending {
            Some((_, right)) => Some(right),
            None => None,
        }
    }

    /// The zeros counted after a point on the side being edited; `None`
    /// without a point.
    pub fn editing_trailing_zeros(&self) -> (r: Option<u8>)
        ensures
            r == self@.trailing_zeros,
    {
        self.editing_trailing_zeros
    }

    /// Puts `n` in place of the left operand.
    pub fn set_left(&mut self, n: Num)
        ensures
            final(self)@ == (EquationView { left: n@, ..old(self)@ }),
    {
        self.left = n;
    }

    /// Puts `n` in place of the right operand, if there is one, and says
    /// whether there was.
    pub fn set_right(&mut self, n: Num) -> (r: bool)
        ensures
            r == !old(self)@.editing_left(),
            r ==> final(self)@ == old(self)@.with_editing_num(n@),
            !r ==> final(self)@ == old(self)@,
    {
        match self.operation() {
            Some(op) => {
                self.pending = Some((op, n));
                true
            },
            None => false,
        }
    }

    /// The text shown for the equation in `base`, with at most
    /// `max_fractional_places` digits after each point.
    pub fn display(&self, base: NumberBase, max_fractional_places: u32) -> (r: String)
        ensures
            r@ == self@.render(base, max_fractional_places as nat),
    {
        match &self.pending {
            None => fmt_padded(
                self.left.clone(),
                base,
                max_fractional_places,
                self.editing_trailing_zeros,
            ),
            Some((op, right)) => {
                proof {
                    reveal_strlit(" ");
                    assert(" "@ =~= seq![' ']);
                }
                let mut out = fmt(self.left.clone(), base, max_fractional_places);
                out.append(" ");
                out.append(op.char());
                out.append(" ");
                let side = fmt_padded(
                    right.clone(),
                    base,
                    max_fractional_places,
                    self.editing_trailing_zeros,
                );
                out.append(side.as_str());
                assert(out@ =~= self@.render(base, max_fractional_places as nat));
                out
            },
        }
    }

    /// Whether keystrokes go to the left operand.
    pub fn editing_left(&self) -> (r: bool)
        ensures
            r == self@.editing_left(),
    {
        self.pending.is_none()
    }

    /// The result of the pending operation as a fresh equation. Nothing
    /// without an operator, and nothing on division or remainder by zero.
    pub fn eval(&self) -> (r: Option<Self>)
        ensures
            match r {
                Some(e) => self@.evaluate() == Some(e@),
                None => self@.evaluate() is None,
            },
    {
        let (op, right) = match &self.pending {
            Some((op, right)) => (*op, right),
            None => {
                return None;
            },
        };
        let result = match op {
            Operation::Add => self.left.add(right),
            Operation::Sub => self.left.subtract(right),
            Operation::Mul => self.left.multiply(right),
            Operation::Div => match self.left.divide(right) {
                Ok(n) => n,
                Err(_) => {
                    return None;
                },
            },
            Operation::Mod => match self.left.modulo(right) {
                Ok(n) => n,
                Err(_) => {
                    return None;
                },
            },
        };
        Some(Self { left: result, pending: None, editing_trailing_zeros: None })
    }

    fn add_operation(&mut self, op: Operation)
        ensures
            final(self)@ == (EquationView {
                left: old(self)@.left,
                pending: Some((op, 0real)),
                trailing_zeros: None,
            }),
    {
        self.editing_trailing_zeros = None;
        self.pending = Some((op, Num::from_integer(0)));
    }

    /// Takes one key, given as a text of one character: a digit glyph, an
    /// operator symbol or the point. Anything else, and any key that makes
    /// no sense where it is typed, is ignored.
    pub fn try_type_single(&mut self, input: &str, base: NumberBase)
        ensures
            final(self)@ == old(self)@.type_key(input@, base),
    {
        if input.unicode_len() == 1 {
            let key = input.get_char(0);
            assert(input@ =~= seq![key]);
            self.type_char(key, base);
        }
    }

    /// Takes one key, given as a character.
    pub fn type_char(&mut self, key: char, base: NumberBase)
        ensures
            final(self)@ == old(self)@.type_key(seq![key], base),
    {
        if let Some(digit) = digit_of_key(key) {
            self.try_add_digit(digit, base);
        } else if let Some(op) = operation_of_key(key) {
            if self.editing_left() {
                self.add_operation(op);
            }
        } else if key == '.' {
            if self.editing_trailing_zeros.is_none() {
                self.editing_trailing_zeros = Some(0);
            }
        }
    }

    fn editing_num(&self) -> (r: Num)
        ensures
            r@ == self@.editing_num(),
    {
        match &self.pending {
            Some((_, right)) => right.clone(),
            None => self.left.clone(),
        }
    }

    fn set_editing_num(&mut self, n: Num)
        ensures
            final(self)@ == old(self)@.with_editing_num(n@),
    {
        match self.operation() {
            Some(op) => {
                self.pending = Some((op, n));
            },
            None => {
                self.left = n;
            },
        }
    }

    fn add_trailing_zeros(&mut self, n: u8)
        ensures
            final(self)@ == (EquationView {
                trailing_zeros: Some(
                    match old(self)@.trailing_zeros {
                        None => n,
                        Some(z) => if z + n > 255 {
                            255u8
                        } else {
                            (z + n) as u8
                        },
                    },
                ),
                ..old(self)@
            }),
    {
        match self.editing_trailing_zeros {
            None => {
                self.editing_trailing_zeros = Some(n);
            },
            Some(z) => {
                let sum: u8 = if z > 255 - n {
                    255
                } else {
                    z + n
                };
                self.editing_trailing_zeros = Some(sum);
            },
        }
    }

    /// Shifts `n` up by whole places until it is whole or the limit is
    /// reached, and says how many places that took.
    fn shift_until_whole(n: Num, placevalue: &Num, base: NumberBase) -> (r: (Num, u32))
        requires
            placevalue@ == base.radix() as real,
        ensures
            r.1 == frac_depth(n@, base.radix(), SHIFT_LIMIT as nat),
            r.1 <= SHIFT_LIMIT,
            r.0@ == n@ * real_pow(base.radix() as real, r.1 as nat),
    {
        let ghost start = n@;
        let ghost radix = base.radix();
        let mut n = n;
        let mut moved: u32 = 0;
        while moved < SHIFT_LIMIT && !n.is_integer()
            invariant
                moved <= SHIFT_LIMIT,
                placevalue@ == radix as real,
                n@ == start * real_pow(radix as real, moved as nat),
                frac_depth(start, radix, SHIFT_LIMIT as nat) == moved + frac_depth(
                    n@,
                    radix,
                    (SHIFT_LIMIT - moved) as nat,
                ),
            decreases SHIFT_LIMIT - moved,
        {
            let ghost p = real_pow(radix as real, moved as nat);
            n = n.multiply(placevalue);
            moved = moved + 1;
            proof {
                let b = radix as real;
                assert(real_pow(b, moved as nat) == b * p);
                assert(start * p * b == start * (b * p)) by (nonlinear_arith);
            }
        }
        (n, moved)
    }

    fn try_add_digit(&mut self, digit: u32, base: NumberBase)
        requires
            digit < 16,
        ensures
            final(self)@ == old(self)@.type_digit(digit as nat, base.radix()),
    {
        let radix = base.place_value();
        if digit >= radix {
            return ;
        }
        let n = self.editing_num();
        let ghost v = n@;
        let placevalue = Num::from_integer(radix as i64);
        let unit = Num::from_integer(digit as i64);

        // adding an integer digit
        if n.is_integer() && self.editing_trailing_zeros.is_none() {
            let n = n.multiply(&placevalue).add(&unit);
            self.set_editing_num(n);
            return ;
        }
        // adding a trailing zero
        if digit == 0 {
            self.add_trailing_zeros(1);
            return ;
        }
        // adding a nonzero fractional digit
        let (n, depth) = Self::shift_until_whole(n, &placevalue, base);
        if depth >= SHIFT_LIMIT {
            return ;
        }
        let zeros: u32 = match self.editing_trailing_zeros {
            Some(z) => z as u32,
            None => 0,
        };
        let places: u32 = depth + zeros + 1;
        let ghost b = radix as real;
        let mut n = n;
        let mut moved: u32 = depth;
        while moved < places
            invariant
                moved <= places,
                placevalue@ == b,
                b == base.radix() as real,
                n@ == v * real_pow(b, moved as nat),
            decreases places - moved,
        {
            let ghost p = real_pow(b, moved as nat);
            n = n.multiply(&placevalue);
            moved = moved + 1;
            proof {
                assert(real_pow(b, moved as nat) == b * p);
                assert(v * p * b == v * (b * p)) by (nonlinear_arith);
            }
        }
        n = n.add(&unit);
        let ghost top = n@;
        let mut back: u32 = 0;
        proof {
            assert(real_pow(b, 0) == 1real);
        }
        while back < places
            invariant
                back <= places,
                placevalue@ == b,
                b >= 2real,
                n@ * real_pow(b, back as nat) == top,
            decreases places - back,
        {
            let ghost p = real_pow(b, back as nat);
            let ghost before = n@;
            n = match n.divide(&placevalue) {
                Ok(n) => n,
                Err(_) => {
                    return ;
                },
            };
            back = back + 1;
            proof {
                assert(real_pow(b, back as nat) == b * p);
                assert((before / b) * (b * p) == before * p) by (nonlinear_arith)
                    requires
                        b >= 2real,
                ;
            }
        }
        proof {
            let p = real_pow(b, places as nat);
            lemma_real_pow_positive(b, places as nat);
            assert(n@ == v + digit as real / p) by (nonlinear_arith)
                requires
                    n@ * p == v * p + digit as real,
                    p > 0real,
            ;
        }
        self.set_editing_num(n);
        self.editing_trailing_zeros = Some(0);
    }

    /// Puts the result of the pending operation in place of the equation,
    /// if it has one; otherwise leaves the equation as it is.
    pub fn eval_mut(&mut self)
        ensures
            final(self)@ == match old(self)@.evaluate() {
                Some(e) => e,
                None => old(self)@,
            },
    {
        let result = self.eval();
        if let Some(result) = result {
            *self = result;
        }
    }

    /// Takes back the last keystroke on the side being edited.
    pub fn delete_one_mut(&mut self, base: NumberBase)
        ensures
            final(self)@ == old(self)@.delete_one(base.radix()),
    {
        if let Some(value) = self.editing_trailing_zeros {
            let n = self.editing_num();
            if value == 0 || (value == 1 && !n.is_integer()) {
                self.editing_trailing_zeros = None;
            } else {
                self.editing_trailing_zeros = Some(value - 1);
            }
            return ;
        }
        let radix = base.place_value();
        let placevalue = Num::from_integer(radix as i64);
        let n = self.editing_num();
        let ghost v = n@;
        let ghost b = radix as real;

        if !self.editing_left() && n.is_zero() {
            self.pending = None;
            return ;
        }
        let (n, depth) = Self::shift_until_whole(n, &placevalue, base);
        // if there are even more digits (the limit was hit), they are cut off
        let n = n.truncate();
        let n = match n.divide(&placevalue) {
            Ok(n) => n,
            Err(_) => {
                return ;
            },
        };
        let mut n = n.truncate();
        let ghost cut = n@;
        let places: u32 = if depth == 0 {
            0
        } else {
            depth - 1
        };
        let mut back: u32 = 0;
        proof {
            assert(real_pow(b, 0) == 1real);
        }
        while back < places
            invariant
                back <= places,
                placevalue@ == b,
                b >= 2real,
                n@ * real_pow(b, back as nat) == cut,
            decreases places - back,
        {
            let ghost p = real_pow(b, back as nat);
            let ghost before = n@;
            n = match n.divide(&placevalue) {
                Ok(n) => n,
                Err(_) => {
                    return ;
                },
            };
            back = back + 1;
            proof {
                assert(real_pow(b, back as nat) == b * p);
                assert((before / b) * (b * p) == before * p) by (nonlinear_arith)
                    requires
                        b >= 2real,
                ;
            }
        }
        proof {
            let p = real_pow(b, places as nat);
            lemma_real_pow_positive(b, places as nat);
            assert(n@ == cut / p) by (nonlinear_arith)
                requires
                    n@ * p == cut,
                    p > 0real,
            ;
        }
        self.set_editing_num(n);
    }
}

} // verus!
