//! The positional codec: numbers to text in any of the three bases, and
//! decimal text back to numbers.

use crate::math::base::NumberBase;
use crate::math::integer::{int_text_value, radix_digits, signed_digits, NumComponent};
use crate::math::integer::{
    decimal_value, digit_char, is_decimal_digit, lemma_decimal_digits_spell,
    lemma_decimal_value_concat, lemma_digits_read_back, lemma_radix_digits_shape,
};
use crate::math::number::{
    fract, is_integral, lemma_integral_is_whole, lemma_real_of_product, trunc, Num,
};
use crate::text::{find_char, first_index, lemma_first_index, lemma_first_index_is};
use vstd::arithmetic::power::{lemma_pow0, lemma_pow_positive, pow};
use vstd::prelude::*;
use vstd::string::*;

verus! {

/// The integer `i` in `base`: a minus sign if it is negative, the base's
/// marker, then the digits of its magnitude.
pub open spec fn int_text(i: int, base: NumberBase) -> Seq<char> {
    if i < 0 {
        seq!['-'] + base.marker() + radix_digits((-i) as nat, base.radix())
    } else {
        base.marker() + radix_digits(i as nat, base.radix())
    }
}

/// The fractional digits of `f` in `base`, at most `places` of them: each
/// step multiplies by the radix, writes the integer part and goes on with
/// what is left, until nothing is left or the places run out. The digits of
/// a negative fraction are negative, and each is written with its sign.
pub open spec fn fract_text(f: real, base: NumberBase, places: nat) -> Seq<char>
    decreases places,
{
    if places == 0 {
        Seq::empty()
    } else {
        let x = f * (base.radix() as real);
        let digit = signed_digits(trunc(x), base.radix());
        if fract(x) == 0real {
            digit
        } else {
            digit + fract_text(fract(x), base, (places - 1) as nat)
        }
    }
}

/// The text of `v` in `base` with at most `places` fractional digits: the
/// integer part, and for a number that is not whole a point and the
/// fractional digits, cut off (not rounded) where the places run out.
pub open spec fn fmt_text(v: real, base: NumberBase, places: nat) -> Seq<char> {
    if is_integral(v) {
        int_text(trunc(v), base)
    } else {
        int_text(trunc(v), base) + seq!['.'] + fract_text(fract(v), base, places)
    }
}

/// `n` zero digits.
pub open spec fn zeros(n: nat) -> Seq<char> {
    Seq::new(n, |i: int| '0')
}

/// The text of `v` followed by the zeros that an editor asks for: with
/// `Some(k)` a whole number gets its point, and `k` zero digits follow.
pub open spec fn fmt_padded_text(
    v: real,
    base: NumberBase,
    places: nat,
    trailing_zeros: Option<u8>,
) -> Seq<char> {
    match trailing_zeros {
        None => fmt_text(v, base, places),
        Some(k) => fmt_text(v, base, places) + (if is_integral(v) {
            seq!['.']
        } else {
            Seq::empty()
        }) + zeros(k as nat),
    }
}

/// Where the first point of `s` stands; the length of `s` if it has none.
pub open spec fn first_point(s: Seq<char>) -> int {
    first_index(s, '.')
}

/// The number that a decimal text spells. Without a point the text is an
/// integer. With one, the text before it is an integer `i`, the text after
/// it an integer `f`, and the number is `i + f / 10^n` for the `n`
/// characters after the point: the fraction is added to the integer, also
/// to a negative one. A second point spoils the fraction.
pub open spec fn parse_text(s: Seq<char>) -> Option<real> {
    let p = first_point(s);
    if p == s.len() {
        match int_text_value(s) {
            Some(i) => Some(i as real),
            None => None,
        }
    } else {
        let tail = s.subrange(p + 1, s.len() as int);
        match (int_text_value(s.subrange(0, p)), int_text_value(tail)) {
            (Some(i), Some(f)) => Some(i as real + f as real / (pow(10, tail.len()) as real)),
            _ => None,
        }
    }
}

/// Whether the digits of the fraction `f` in base `radix` come to an end
/// within `places` digits.
pub open spec fn terminates_within(f: real, radix: nat, places: nat) -> bool
    decreases places,
{
    places > 0 && (fract(f * (radix as real)) == 0real || terminates_within(
        fract(f * (radix as real)),
        radix,
        (places - 1) as nat,
    ))
}

/// The decimal digits of a fraction between zero and one that ends within
/// the places are digit glyphs, at least one, and spell the fraction times
/// ten to their number.
proof fn lemma_fract_text_spells(f: real, places: nat)
    requires
        0real <= f < 1real,
        terminates_within(f, 10, places),
    ensures
        fract_text(f, NumberBase::Decimal, places).len() >= 1,
        forall|i: int|
            0 <= i < fract_text(f, NumberBase::Decimal, places).len() ==> is_decimal_digit(
                #[trigger] fract_text(f, NumberBase::Decimal, places)[i],
            ),
        decimal_value(fract_text(f, NumberBase::Decimal, places)) as real == f * (pow(
            10,
            fract_text(f, NumberBase::Decimal, places).len(),
        ) as real),
    decreases places,
{
    let base = NumberBase::Decimal;
    let text = fract_text(f, base, places);
    let x = f * 10real;
    assert(x == f * (base.radix() as real));
    let d = x.floor();
    assert(0 <= d <= 9);
    assert(trunc(x) == d);
    let rest = x - d as real;
    assert(fract(x) == rest);
    assert(0real <= rest < 1real);
    let glyph = seq![digit_char(d)];
    assert(signed_digits(d, 10) =~= glyph);
    assert(is_decimal_digit(digit_char(d)));
    assert(crate::math::integer::decimal_digit_value(digit_char(d)) == d);
    assert(glyph.drop_last() =~= Seq::<char>::empty());
    assert(glyph.last() == digit_char(d));
    assert(decimal_value(Seq::<char>::empty()) == 0);
    assert(decimal_value(glyph) == 10 * decimal_value(glyph.drop_last()) + d);
    vstd::arithmetic::power::lemma_pow1(10);
    if rest == 0real {
        assert(text == glyph);
    } else {
        let tail = fract_text(rest, base, (places - 1) as nat);
        lemma_fract_text_spells(rest, (places - 1) as nat);
        assert(text == glyph + tail);
        lemma_decimal_value_concat(glyph, tail);
        vstd::arithmetic::power::lemma_pow_adds(10, 1, tail.len());
        let p = pow(10, tail.len());
        let t = decimal_value(tail) as int;
        assert(pow(10, text.len()) == 10 * p);
        assert(decimal_value(text) == d * p + t);
        let pr = p as real;
        let dr = d as real;
        lemma_real_of_product(d, p);
        assert((10 * p) as real == 10real * pr);
        assert(decimal_value(text) as real == dr * pr + rest * pr);
        assert(dr * pr + rest * pr == f * (10real * pr)) by (nonlinear_arith)
            requires
                rest == f * 10real - dr,
        ;
    }
}

/// A fraction between zero and one is written with one glyph for each
/// digit: never more than `places`, at least one if there are any places,
/// and all `places` of them when the digits do not come to an end.
pub proof fn lemma_fract_text_length(f: real, base: NumberBase, places: nat)
    requires
        0real <= f < 1real,
    ensures
        fract_text(f, base, places).len() <= places,
        places > 0 ==> fract_text(f, base, places).len() >= 1,
        !terminates_within(f, base.radix(), places) ==> fract_text(f, base, places).len()
            == places,
    decreases places,
{
    if places > 0 {
        let b = base.radix() as real;
        let x = f * b;
        assert(0real <= x < b) by (nonlinear_arith)
            requires
                0real <= f < 1real,
                x == f * b,
                b >= 2real,
        ;
        let d = x.floor();
        assert(0 <= d < base.radix());
        assert(trunc(x) == d);
        let rest = x - d as real;
        assert(fract(x) == rest);
        assert(signed_digits(d, base.radix()) =~= seq![digit_char(d)]);
        if rest != 0real {
            lemma_fract_text_length(rest, base, (places - 1) as nat);
        }
    }
}

/// A text with a second point spells no number.
pub proof fn lemma_second_point_fails(s: Seq<char>)
    requires
        first_point(s) < s.len(),
        first_point(s.subrange(first_point(s) + 1, s.len() as int)) < s.len() - first_point(s)
            - 1,
    ensures
        parse_text(s) is None,
{
    let p = first_point(s);
    lemma_first_index(s, '.');
    let tail = s.subrange(p + 1, s.len() as int);
    lemma_first_index(tail, '.');
    let q = first_point(tail);
    assert(tail[q] == '.');
    assert(!is_decimal_digit('.'));
    if q > 0 {
        assert(tail.drop_first()[q - 1] == '.');
    }
}

/// Reading undoes writing: a number written in decimal reads back as
/// itself, if it is whole, or if it is above zero and its fraction ends
/// within the places. (A negative fraction is written with a sign on each
/// digit, which does not read back.)
pub proof fn lemma_parse_undoes_fmt(v: real, places: nat)
    requires
        is_integral(v) || (v > 0real && terminates_within(fract(v), 10, places)),
    ensures
        parse_text(fmt_text(v, NumberBase::Decimal, places)) == Some(v),
        forall|j: int|
            0 <= j < fmt_text(v, NumberBase::Decimal, places).len() ==> {
                let c = #[trigger] fmt_text(v, NumberBase::Decimal, places)[j];
                is_decimal_digit(c) || c == '-' || c == '.'
            },
{
    let base = NumberBase::Decimal;
    let text = fmt_text(v, base, places);
    let i = trunc(v);
    let magnitude = vstd::math::abs(i) as nat;
    let digits = radix_digits(magnitude, 10);
    lemma_decimal_digits_spell(magnitude);
    lemma_digits_read_back(digits);
    assert(base.marker() + digits =~= digits);
    if is_integral(v) {
        lemma_integral_is_whole(v);
        assert(text == int_text(i, base));
        if i < 0 {
            assert(text =~= seq!['-'] + digits);
            assert(text.drop_first() =~= digits);
        } else {
            assert(text =~= digits);
        }
        assert forall|j: int| 0 <= j < text.len() implies text[j] != '.' by {
            if i < 0 && j > 0 {
                assert(text[j] == digits[j - 1]);
            }
        }
        lemma_first_index_is(text, '.', text.len() as int);
        assert(is_decimal_digit(digits[0]));
        assert forall|j: int| 0 <= j < text.len() implies {
            let c = #[trigger] text[j];
            is_decimal_digit(c) || c == '-' || c == '.'
        } by {
            if i < 0 && j > 0 {
                assert(text[j] == digits[j - 1]);
            }
        }
    } else {
        let f = fract(v);
        assert(i == v.floor());
        assert(i >= 0);
        assert(0real < f < 1real);
        let tail = fract_text(f, base, places);
        lemma_fract_text_spells(f, places);
        lemma_digits_read_back(tail);
        assert(text =~= digits + seq!['.'] + tail);
        let p = digits.len() as int;
        assert forall|j: int| 0 <= j < p implies text[j] != '.' by {
            assert(text[j] == digits[j]);
        }
        assert(text[p] == '.');
        lemma_first_index_is(text, '.', p);
        assert(text.subrange(0, p) =~= digits);
        assert(text.subrange(p + 1, text.len() as int) =~= tail);
        let pr = pow(10, tail.len()) as real;
        vstd::arithmetic::power::lemma_pow_positive(10, tail.len());
        let fr = decimal_value(tail) as int as real;
        assert(fr / pr == f) by (nonlinear_arith)
            requires
                fr == f * pr,
                pr > 0real,
        ;
        assert forall|j: int| 0 <= j < text.len() implies {
            let c = #[trigger] text[j];
            is_decimal_digit(c) || c == '-' || c == '.'
        } by {
            if j < p {
                assert(text[j] == digits[j]);
            } else if j > p {
                assert(text[j] == tail[j - p - 1]);
            }
        }
    }
}

/// Puts the base's marker between the sign and the digits.
fn with_marker(digits: &str, marker: &str) -> (r: String)
    ensures
        r@ == if digits@.len() > 0 && digits@[0] == '-' {
            seq!['-'] + marker@ + digits@.skip(1)
        } else {
            marker@ + digits@
        },
{
    let n = digits.unicode_len();
    if n > 0 && digits.get_char(0) == '-' {
        proof {
            reveal_strlit("-");
            assert("-"@ =~= seq!['-']);
        }
        let mut out = String::from_str("-");
        out.append(marker);
        out.append(digits.substring_char(1, n));
        assert(digits@.subrange(1, n as int) =~= digits@.skip(1));
        out
    } else {
        let mut out = String::from_str(marker);
        out.append(digits);
        out
    }
}

/// The integer `n` in `base`, with the base's marker.
fn fmt_int(n: NumComponent, base: NumberBase) -> (r: String)
    ensures
        r@ == int_text(n@, base),
{
    let digits = n.to_digits(base);
    proof {
        reveal_strlit("0b");
        reveal_strlit("0x");
        reveal_strlit("");
        assert("0b"@ =~= seq!['0', 'b']);
        assert("0x"@ =~= seq!['0', 'x']);
        assert(""@ =~= Seq::<char>::empty());
        lemma_radix_digits_shape(vstd::math::abs(n@) as nat, base.radix());
        if n@ < 0 {
            assert(digits@.skip(1) =~= radix_digits((-n@) as nat, base.radix()));
        } else {
            assert(digits@[0] != '-');
        }
    }
    let r = match base {
        NumberBase::Binary => with_marker(digits.as_str(), "0b"),
        NumberBase::Decimal => with_marker(digits.as_str(), ""),
        NumberBase::Hexadecimal => with_marker(digits.as_str(), "0x"),
    };
    assert(r@ =~= int_text(n@, base));
    r
}

/// The fractional digits of `n` in `base`, at most `places` of them.
fn fmt_fract(n: Num, base: NumberBase, places: u32) -> (r: String)
    ensures
        r@ == fract_text(n@, base, places as nat),
{
    let ghost whole = fract_text(n@, base, places as nat);
    let mut out = String::new();
    let mut n = n;
    let radix = base.place_value();
    let placevalue = Num::from_integer(radix as i64);
    let mut written: u32 = 0;
    let mut done = false;
    while written < places && !done
        invariant
            written <= places,
            radix == base.radix(),
            placevalue@ == radix as real,
            whole == out@ + (if done {
                Seq::empty()
            } else {
                fract_text(n@, base, (places - written) as nat)
            }),
        decreases places - written + (if done { 0int } else { 1int }),
    {
        let ghost before = out@;
        let ghost x = n@ * (base.radix() as real);
        // one more digit: its integer part after a shift by one place
        n = n.multiply(&placevalue);
        let digit = n.to_integer();
        let glyph = digit.to_digits(base);
        out.append(glyph.as_str());
        // and on with what is left
        n = n.fractional_part();
        written = written + 1;
        if n.is_zero() {
            done = true;
        }
        proof {
            assert(n@ == fract(x));
            assert(glyph@ == signed_digits(trunc(x), base.radix()));
            assert(whole =~= out@ + (if done {
                Seq::empty()
            } else {
                fract_text(n@, base, (places - written) as nat)
            }));
        }
    }
    assert(whole =~= out@);
    out
}

/// Renders `n` in `base` with at most `max_fractional_places` digits after
/// the point. A whole number has no point. A fraction that does not end
/// within the places is cut off, not rounded.
pub fn fmt(n: Num, base: NumberBase, max_fractional_places: u32) -> (r: String)
    ensures
        r@ == fmt_text(n@, base, max_fractional_places as nat),
{
    if n.is_integer() {
        fmt_int(n.to_integer(), base)
    } else {
        proof {
            reveal_strlit(".");
            assert("."@ =~= seq!['.']);
        }
        let mut out = fmt_int(n.to_integer(), base);
        out.append(".");
        let digits = fmt_fract(n.fractional_part(), base, max_fractional_places);
        out.append(digits.as_str());
        out
    }
}

/// Renders `n` as `fmt` does and then echoes the zeros an editor holds back:
/// with `Some(k)` a whole number gets its point, and `k` zero digits follow.
pub fn fmt_padded(
    n: Num,
    base: NumberBase,
    max_fractional_places: u32,
    trailing_zeros: Option<u8>,
) -> (r: String)
    ensures
        r@ == fmt_padded_text(n@, base, max_fractional_places as nat, trailing_zeros),
{
    let whole = n.is_integer();
    let mut out = fmt(n, base, max_fractional_places);
    match trailing_zeros {
        None => out,
        Some(count) => {
            proof {
                reveal_strlit(".");
                reveal_strlit("0");
                assert("."@ =~= seq!['.']);
                assert("0"@ =~= seq!['0']);
            }
            if whole {
                out.append(".");
            }
            let ghost stem = out@;
            let mut i: u8 = 0;
            while i < count
                invariant
                    i <= count,
                    out@ == stem + zeros(i as nat),
                    "0"@ == seq!['0'],
                decreases count - i,
            {
                out.append("0");
                i = i + 1;
                assert(out@ =~= stem + zeros(i as nat));
            }
            out
        },
    }
}

/// Reads the digits after the point: the integer they spell over ten to the
/// number of characters.
fn parse_fract(s: &str) -> (r: Option<Num>)
    ensures
        match r {
            Some(f) => int_text_value(s@) is Some && f@ == int_text_value(s@).unwrap() as real / (
            pow(10, s@.len()) as real),
            None => int_text_value(s@) is None,
        },
{
    let comp = match NumComponent::from_str(s) {
        Some(comp) => comp,
        None => {
            return None;
        },
    };
    let len = s.unicode_len();
    let ten = NumComponent::from(10);
    let mut bound = NumComponent::from(1);
    let mut i: usize = 0;
    proof {
        lemma_pow0(10);
    }
    while i < len
        invariant
            i <= len,
            ten@ == 10,
            bound@ == pow(10, i as nat),
        decreases len - i,
    {
        bound = bound.multiply(&ten);
        proof {
            vstd::arithmetic::power::lemma_pow1(10);
            vstd::arithmetic::power::lemma_pow_adds(10, i as nat, 1);
        }
        i += 1;
    }
    proof {
        lemma_pow_positive(10, len as nat);
    }
    Some(Num::new(comp, bound))
}

/// Reads a decimal number: an integer, or an integer, one point and the
/// digits of a fraction. Binary and hexadecimal text is not read.
pub fn parse(s: String) -> (r: Option<Num>)
    ensures
        match r {
            Some(n) => parse_text(s@) == Some(n@),
            None => parse_text(s@) is None,
        },
{
    let text = s.as_str();
    let len = text.unicode_len();
    let p = find_char(text, '.');
    let one = NumComponent::from(1);
    if p == len {
        match NumComponent::from_str(text) {
            Some(units) => {
                let r = Num::new(units, one);
                assert(one@ as real == 1real);
                assert(r@ == units@ as real / 1real);
                Some(r)
            },
            None => None,
        }
    } else {
        let units = match NumComponent::from_str(text.substring_char(0, p)) {
            Some(units) => units,
            None => {
                return None;
            },
        };
        let fract = match parse_fract(text.substring_char(p + 1, len)) {
            Some(fract) => fract,
            None => {
                return None;
            },
        };
        let whole = Num::new(units, one);
        assert(one@ as real == 1real);
        assert(whole@ == units@ as real / 1real);
        Some(whole.add(&fract))
    }
}

} // verus!
