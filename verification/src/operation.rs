//! The four operations and the rule that admits them.

use crate::binary64::Binary64;
use vstd::prelude::*;

verus! {

/// The operation selected for one invocation.
#[derive(Clone, Copy, Debug, PartialEq, Eq, Structural)]
pub enum Operation {
    Add,
    Subtract,
    Multiply,
    Divide,
}

/// Why an operation was not admitted.
#[derive(Clone, Copy, Debug, PartialEq, Eq, Structural)]
pub enum OperationError {
    /// The divisor compares equal to 0.0.
    DivisionByZero,
}

/// One binary64 operation that is admitted and remains to be carried out:
/// `lhs + rhs`, `lhs - rhs`, `lhs * rhs` or `lhs / rhs`, as `operation` says,
/// in IEEE 754 arithmetic.
#[derive(Clone, Copy, Debug, PartialEq, Eq, Structural)]
pub struct Arithmetic {
    pub operation: Operation,
    pub lhs: Binary64,
    pub rhs: Binary64,
}

impl OperationError {
    /// The text shown to the user for this error.
    pub open spec fn text(&self) -> Seq<char> {
        "Division by zero is not allowed"@
    }

    /// The text shown to the user for this error.
    pub fn message(&self) -> (r: &'static str)
        ensures
            r@ == self.text(),
    {
        match self {
            OperationError::DivisionByZero => "Division by zero is not allowed",
        }
    }
}

impl Operation {
    /// The word that selects the operation on the command line.
    pub open spec fn word(&self) -> Seq<char> {
        match *self {
            Operation::Add => "add"@,
            Operation::Subtract => "subtract"@,
            Operation::Multiply => "multiply"@,
            Operation::Divide => "divide"@,
        }
    }

    /// The operation that a word selects, if it selects one.
    pub open spec fn selected(word: Seq<char>) -> Option<Operation> {
        if word == "add"@ {
            Some(Operation::Add)
        } else if word == "subtract"@ {
            Some(Operation::Subtract)
        } else if word == "multiply"@ {
            Some(Operation::Multiply)
        } else if word == "divide"@ {
            Some(Operation::Divide)
        } else {
            None
        }
    }

    /// Each operation is selected by its own word and by no other: the four
    /// words are distinct.
    pub proof fn lemma_word_selects(operation: Operation)
        ensures
            Operation::selected(operation.word()) == Some(operation),
    {
        reveal_strlit("add");
        reveal_strlit("subtract");
        reveal_strlit("multiply");
        reveal_strlit("divide");
        assert("add"@.len() == 3);
        assert("divide"@.len() == 6);
        assert("subtract"@.len() == 8 && "subtract"@[0] == 's');
        assert("multiply"@.len() == 8 && "multiply"@[0] == 'm');
    }

    /// The word that selects the operation on the command line.
    pub fn name(&self) -> (r: &'static str)
        ensures
            r@ == self.word(),
    {
        match self {
            Operation::Add => "add",
            Operation::Subtract => "subtract",
            Operation::Multiply => "multiply",
            Operation::Divide => "divide",
        }
    }

    /// Reads the word that selects an operation: `add`, `subtract`,
    /// `multiply` or `divide`, in lower case and nothing else.
    pub fn from_name(name: &str) -> (r: Option<Operation>)
        ensures
            r == Operation::selected(name@),
    {
        let word = name.to_owned();
        if word == "add".to_owned() {
            Some(Operation::Add)
        } else if word == "subtract".to_owned() {
            Some(Operation::Subtract)
        } else if word == "multiply".to_owned() {
            Some(Operation::Multiply)
        } else if word == "divide".to_owned() {
            Some(Operation::Divide)
        } else {
            None
        }
    }

    /// What `apply` makes of `self` on two operands: division by a zero is
    /// refused, everything else is admitted with the operands in their order.
    pub open spec fn outcome(self, num1: Binary64, num2: Binary64) -> Result<
        Arithmetic,
        OperationError,
    > {
        if self == Operation::Divide && num2.spec_is_zero() {
            Err(OperationError::DivisionByZero)
        } else {
            Ok(Arithmetic { operation: self, lhs: num1, rhs: num2 })
        }
    }

    /// Admits or refuses the operation on `num1` and `num2`.
    ///
    /// Division is refused exactly when `num2` is a zero of either sign, and
    /// nothing is computed then. No other operand is looked at: infinities
    /// and NaNs pass through to the arithmetic.
    pub fn apply(&self, num1: Binary64, num2: Binary64) -> (r: Result<Arithmetic, OperationError>)
        ensures
            r == self.outcome(num1, num2),
            r is Err <==> *self == Operation::Divide && num2.spec_is_zero(),
    {
        match self {
            Operation::Divide => {
                if num2.is_zero() {
                    Err(OperationError::DivisionByZero)
                } else {
                    Ok(Arithmetic { operation: Operation::Divide, lhs: num1, rhs: num2 })
                }
            },
            Operation::Add => Ok(Arithmetic { operation: Operation::Add, lhs: num1, rhs: num2 }),
            Operation::Subtract => Ok(
                Arithmetic { operation: Operation::Subtract, lhs: num1, rhs: num2 },
            ),
            Operation::Multiply => Ok(
                Arithmetic { operation: Operation::Multiply, lhs: num1, rhs: num2 },
            ),
        }
    }
}

} // verus!
