//! Why an evaluation stopped before it had a value.

use vstd::prelude::*;
use crate::operator::Operator;
use crate::reals::{Query, RealQuery};

verus! {

/// The three kinds of value, by name.
#[derive(Clone, Copy, Debug, PartialEq, Eq, Structural)]
pub enum TypeTag {
    /// A 32-bit signed integer.
    Int,
    /// A real.
    Float,
    /// A text.
    String,
}

impl TypeTag {
    /// The name of the kind.
    pub open spec fn name(self) -> Seq<char> {
        match self {
            TypeTag::Int => "i32"@,
            TypeTag::Float => "f64"@,
            TypeTag::String => "String"@,
        }
    }

    /// The name of the kind: `i32`, `f64` or `String`.
    pub fn as_str(self) -> (name: &'static str)
        ensures
            name@ == self.name(),
    {
        match self {
            TypeTag::Int => "i32",
            TypeTag::Float => "f64",
            TypeTag::String => "String",
        }
    }
}

/// Which parenthesis an expression lacks.
#[derive(Clone, Copy, Debug, PartialEq, Eq, Structural)]
pub enum Missing {
    /// A `)` stands where no `(` is open.
    Opening,
    /// The expression ends while a `(` is still open.
    Closing,
}

/// What is wrong with an expression.
#[derive(Clone, Copy, Debug, PartialEq, Eq)]
pub enum EvalError {
    /// The expression holds no operand.
    EmptyExpression,
    /// The parentheses do not match.
    UnbalancedParentheses(Missing),
    /// An operator stands where an operand is due: at the start of the expression
    /// (`previous` is `None`) or right after another operator.
    UnexpectedOperator { previous: Option<Operator>, found: Operator },
    /// The operator is not defined on operands of these two kinds, left and right.
    UnsupportedOperand { operator: Operator, left: TypeTag, right: TypeTag },
    /// Division, or remainder, by a number that is zero.
    DivisionByZero { operator: Operator },
}

impl EvalError {
    /// The error in words.
    pub open spec fn text(self) -> Seq<char> {
        match self {
            EvalError::EmptyExpression => "Error: Empty equation"@,
            EvalError::UnbalancedParentheses(Missing::Opening) => "parentheses must be opened before being closed"@,
            EvalError::UnbalancedParentheses(Missing::Closing) => "All parentheses must be closed!"@,
            EvalError::UnexpectedOperator { previous, found } => (match previous {
                Some(operator) => seq![operator.symbol_of()],
                None => seq!['\0'],
            }) + " can't be followed by "@ + seq![found.symbol_of()],
            EvalError::UnsupportedOperand { operator, left, right } => match operator {
                Operator::Add => "Unable to add "@ + right.name() + " to "@ + left.name(),
                Operator::Sub => "Unable to substract "@ + right.name() + " from "@ + left.name(),
                Operator::Mul => "Unable to multiply "@ + left.name() + " with "@ + right.name(),
                Operator::Div => "Unable to divide "@ + left.name() + " by "@ + right.name(),
                Operator::Rem => "Cannot perform modulo operation between "@ + left.name()
                    + " and "@ + right.name(),
            },
            EvalError::DivisionByZero { operator } => if operator == Operator::Rem {
                "Unable to calculate the remainder with a divisor of zero"@
            } else {
                "Unable to divide by zero"@
            },
        }
    }

    /// The error in words, for a reader.
    pub fn message(&self) -> (words: String)
        ensures
            words@ == self.text(),
    {
        match self {
            EvalError::EmptyExpression => "Error: Empty equation".to_owned(),
            EvalError::UnbalancedParentheses(Missing::Opening) => {
                "parentheses must be opened before being closed".to_owned()
            },
            EvalError::UnbalancedParentheses(Missing::Closing) => {
                "All parentheses must be closed!".to_owned()
            },
            EvalError::UnexpectedOperator { previous, found } => {
                let mut words = String::new();
                match previous {
                    Some(operator) => words.push(operator.symbol()),
                    None => words.push('\0'),
                }
                words.append(" can't be followed by ");
                words.push(found.symbol());
                assert(words@ =~= self.text());
                words
            },
            EvalError::UnsupportedOperand { operator, left, right } => {
                let (lead, first, link, second) = match operator {
                    Operator::Add => ("Unable to add ", right, " to ", left),
                    Operator::Sub => ("Unable to substract ", right, " from ", left),
                    Operator::Mul => ("Unable to multiply ", left, " with ", right),
                    Operator::Div => ("Unable to divide ", left, " by ", right),
                    Operator::Rem => ("Cannot perform modulo operation between ", left, " and ", right),
                };
                let mut words = lead.to_owned();
                words.append(first.as_str());
                words.append(link);
                words.append(second.as_str());
                assert(words@ =~= self.text());
                words
            },
            EvalError::DivisionByZero { operator } => match operator {
                Operator::Rem => {
                    "Unable to calculate the remainder with a divisor of zero".to_owned()
                },
                _ => "Unable to divide by zero".to_owned(),
            },
        }
    }
}

/// Why an evaluation stopped, as contracts speak of it.
pub enum Halted {
    /// The expression is wrong.
    Failed(EvalError),
    /// The table of reals cannot answer this question yet.
    Pending(Query),
}

/// Why an evaluation stopped.
#[derive(Debug)]
pub enum Halt {
    /// The expression is wrong.
    Failed(EvalError),
    /// The table of reals cannot answer this question yet. Once the answer has been
    /// recorded in the table, the evaluation can be run again.
    Pending(RealQuery),
}

impl View for Halt {
    type V = Halted;

    open spec fn view(&self) -> Halted {
        match self {
            Halt::Failed(error) => Halted::Failed(*error),
            Halt::Pending(query) => Halted::Pending(query@),
        }
    }
}

/// A result as contracts speak of it: the value as it is, the halt by its view.
pub open spec fn stopped<T>(r: Result<T, Halt>) -> Result<T, Halted> {
    match r {
        Ok(value) => Ok(value),
        Err(halt) => Err(halt@),
    }
}

/// A result as contracts speak of it: the value and the halt by their views.
pub open spec fn viewed<T: View>(r: Result<T, Halt>) -> Result<T::V, Halted> {
    match r {
        Ok(value) => Ok(value@),
        Err(halt) => Err(halt@),
    }
}

} // verus!
