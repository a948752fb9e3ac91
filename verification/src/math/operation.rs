//! The five binary operators.

use crate::math::number::rem;
use crate::text::str_eq;
use vstd::prelude::*;

verus! {

/// A binary operator of the calculator.
#[derive(Clone, Debug, PartialEq, Eq, Copy, Structural)]
pub enum Operation {
    Add,
    Sub,
    Mul,
    Div,
    Mod,
}

impl Operation {
    /// The one character that stands for the operator.
    pub open spec fn symbol(self) -> char {
        match self {
            Operation::Add => '+',
            Operation::Sub => '-',
            Operation::Mul => '*',
            Operation::Div => '/',
            Operation::Mod => '%',
        }
    }

    /// The operator that a one-character text stands for, if any.
    pub open spec fn of_symbol(s: Seq<char>) -> Option<Operation> {
        if s == seq!['+'] {
            Some(Operation::Add)
        } else if s == seq!['-'] {
            Some(Operation::Sub)
        } else if s == seq!['*'] {
            Some(Operation::Mul)
        } else if s == seq!['/'] {
            Some(Operation::Div)
        } else if s == seq!['%'] {
            Some(Operation::Mod)
        } else {
            None
        }
    }

    /// The result of the operator on two values; nothing on division or
    /// remainder by zero.
    pub open spec fn apply(self, a: real, b: real) -> Option<real> {
        match self {
            Operation::Add => Some(a + b),
            Operation::Sub => Some(a - b),
            Operation::Mul => Some(a * b),
            Operation::Div => if b == 0real {
                None
            } else {
                Some(a / b)
            },
            Operation::Mod => if b == 0real {
                None
            } else {
                Some(rem(a, b))
            },
        }
    }

    /// The operator's symbol as text.
    pub fn char(&self) -> (r: &'static str)
        ensures
            r@ == seq![self.symbol()],
    {
        proof {
            reveal_strlit("+");
            reveal_strlit("-");
            reveal_strlit("*");
            reveal_strlit("/");
            reveal_strlit("%");
        }
        let r = match self {
            Operation::Add => "+",
            Operation::Sub => "-",
            Operation::Mul => "*",
            Operation::Div => "/",
            Operation::Mod => "%",
        };
        assert(r@ =~= seq![self.symbol()]);
        r
    }

    /// The operator that `s` stands for, if it is one of the five symbols.
    pub fn from_str(s: &str) -> (r: Option<Self>)
        ensures
            r == Self::of_symbol(s@),
    {
        proof {
            reveal_strlit("+");
            reveal_strlit("-");
            reveal_strlit("*");
            reveal_strlit("/");
            reveal_strlit("%");
            assert("+"@ =~= seq!['+']);
            assert("-"@ =~= seq!['-']);
            assert("*"@ =~= seq!['*']);
            assert("/"@ =~= seq!['/']);
            assert("%"@ =~= seq!['%']);
        }
        if str_eq(s, "+") {
            Some(Operation::Add)
        } else if str_eq(s, "-") {
            Some(Operation::Sub)
        } else if str_eq(s, "*") {
            Some(Operation::Mul)
        } else if str_eq(s, "/") {
            Some(Operation::Div)
        } else if str_eq(s, "%") {
            Some(Operation::Mod)
        } else {
            None
        }
    }
}

} // verus!
