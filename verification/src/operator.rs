//! The five binary operators of an expression.

use vstd::prelude::*;

verus! {

/// A binary operator, as written in an expression by one of `+ - * / %`.
#[derive(Clone, Copy, Debug, PartialEq, Eq, Structural)]
pub enum Operator {
    /// `+`
    Add,
    /// `-`
    Sub,
    /// `*`
    Mul,
    /// `/`
    Div,
    /// `%`
    Rem,
}

impl Operator {
    /// The operator that a character stands for, if it stands for one.
    pub open spec fn of_char(c: char) -> Option<Operator> {
        if c == '+' {
            Some(Operator::Add)
        } else if c == '-' {
            Some(Operator::Sub)
        } else if c == '*' {
            Some(Operator::Mul)
        } else if c == '/' {
            Some(Operator::Div)
        } else if c == '%' {
            Some(Operator::Rem)
        } else {
            None
        }
    }

    /// The character that stands for this operator.
    pub open spec fn symbol_of(self) -> char {
        match self {
            Operator::Add => '+',
            Operator::Sub => '-',
            Operator::Mul => '*',
            Operator::Div => '/',
            Operator::Rem => '%',
        }
    }

    /// `*`, `/` and `%` bind tighter than `+` and `-`.
    pub open spec fn is_tight(self) -> bool {
        self == Operator::Mul || self == Operator::Div || self == Operator::Rem
    }

    /// Reads an operator from its character.
    pub fn from_char(c: char) -> (r: Option<Operator>)
        ensures
            r == Self::of_char(c),
    {
        if c == '+' {
            Some(Operator::Add)
        } else if c == '-' {
            Some(Operator::Sub)
        } else if c == '*' {
            Some(Operator::Mul)
        } else if c == '/' {
            Some(Operator::Div)
        } else if c == '%' {
            Some(Operator::Rem)
        } else {
            None
        }
    }

    /// The character that stands for this operator.
    pub fn symbol(self) -> (c: char)
        ensures
            c == self.symbol_of(),
            Self::of_char(c) == Some(self),
    {
        match self {
            Operator::Add => '+',
            Operator::Sub => '-',
            Operator::Mul => '*',
            Operator::Div => '/',
            Operator::Rem => '%',
        }
    }

    /// Whether this operator is one of `*`, `/`, `%`.
    pub fn binds_tighter(self) -> (b: bool)
        ensures
            b == self.is_tight(),
    {
        match self {
            Operator::Add => false,
            Operator::Sub => false,
            _ => true,
        }
    }
}

} // verus!
