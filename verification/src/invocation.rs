//! One invocation: the input, what it asks for, and the line it ends with.

use crate::binary64::Binary64;
use crate::nearest::lemma_nearest_is_zero_only_for_zero;
use crate::number::CustomNumber;
use crate::operation::{Arithmetic, Operation, OperationError};
use vstd::prelude::*;
use vstd::string::*;

verus! {

/// The two operands, in the order given.
#[derive(Clone, Copy, Debug, PartialEq, Eq, Structural)]
pub struct Numbers {
    pub num1: CustomNumber,
    pub num2: CustomNumber,
}

/// What one invocation was asked to do.
#[derive(Clone, Copy, Debug, PartialEq, Eq, Structural)]
pub struct CalculatorInput {
    pub operation: Operation,
    pub numbers: Numbers,
}

/// The result of a successful invocation. `new` makes it a `Float`: every
/// operation yields a binary64 value.
#[derive(Clone, Copy, Debug, PartialEq, Eq, Structural)]
pub struct CalculatorOutput {
    pub result: CustomNumber,
}

/// The single line an invocation writes, and the stream it goes to.
#[derive(Clone, Debug, PartialEq, Eq)]
pub enum OutputLine {
    Stdout(String),
    Stderr(String),
}

impl CalculatorInput {
    /// What the input asks for: its operation on its two operands, each
    /// widened to binary64.
    pub open spec fn request(&self) -> Result<Arithmetic, OperationError> {
        self.operation.outcome(self.numbers.num1.widened(), self.numbers.num2.widened())
    }

    /// Widens both operands and admits or refuses the operation on them.
    ///
    /// The result depends on the input alone; the same input gives the same
    /// request however often it is asked.
    pub fn evaluate(&self) -> (r: Result<Arithmetic, OperationError>)
        ensures
            r == self.request(),
    {
        let num1 = self.numbers.num1.to_f64();
        let num2 = self.numbers.num2.to_f64();
        self.operation.apply(num1, num2)
    }
}

/// An input is refused exactly when it asks to divide by a zero, and the
/// refusal is then `DivisionByZero`, whatever the dividend is. Every other
/// input is admitted: the request names the input's operation, and the two
/// operands widened, in their order.
pub proof fn lemma_refused_iff_division_by_zero(input: CalculatorInput)
    ensures
        input.request() is Err <==> input.operation == Operation::Divide
            && input.numbers.num2.is_zero(),
        input.request() is Err ==> input.request() == Err::<Arithmetic, OperationError>(
            OperationError::DivisionByZero,
        ),
        input.request() is Ok ==> input.request() == Ok::<Arithmetic, OperationError>(
            Arithmetic {
                operation: input.operation,
                lhs: input.numbers.num1.widened(),
                rhs: input.numbers.num2.widened(),
            },
        ),
{
    match input.numbers.num2 {
        CustomNumber::Integer(value) => {
            lemma_nearest_is_zero_only_for_zero(value as int);
        },
        CustomNumber::Float(_) => {},
    }
}

/// An evaluation has no state of its own: two inputs that agree in the
/// operation and in both operands ask for the same thing.
pub proof fn lemma_evaluation_repeats(first: CalculatorInput, second: CalculatorInput)
    requires
        first.operation == second.operation,
        first.numbers.num1 == second.numbers.num1,
        first.numbers.num2 == second.numbers.num2,
    ensures
        first.request() == second.request(),
{
}

impl CalculatorOutput {
    /// Wraps the value that the arithmetic produced.
    pub fn new(value: Binary64) -> (r: CalculatorOutput)
        ensures
            r.result == CustomNumber::Float(value),
    {
        CalculatorOutput { result: CustomNumber::Float(value) }
    }

    /// The structured rendering of the output, with `float_text` as the text
    /// of a binary64 result.
    pub open spec fn debug_text(&self, float_text: Seq<char>) -> Seq<char> {
        "CalculatorOutput { result: "@ + self.result.debug_text(float_text) + " }"@
    }

    /// Renders the output as `CalculatorOutput { result: Float(..) }`, with
    /// `float_text` between the round brackets.
    pub fn render(&self, float_text: &str) -> (r: String)
        ensures
            r@ == self.debug_text(float_text@),
    {
        let number = self.result.render(float_text);
        let mut text = "CalculatorOutput { result: ".to_owned();
        text.append(number.as_str());
        text.append(" }");
        text
    }
}

/// The line that ends an invocation.
///
/// A result goes to standard output as `Result: ` and its rendering; a
/// refusal goes to standard error as `Error: ` and its message, and nothing
/// goes to standard output then. `float_text` is the caller's text for the
/// binary64 result, and is not looked at on a refusal.
pub fn report(outcome: &Result<CalculatorOutput, OperationError>, float_text: &str) -> (r:
    OutputLine)
    ensures
        match *outcome {
            Ok(output) => r matches OutputLine::Stdout(line) && line@ == "Result: "@
                + output.debug_text(float_text@),
            Err(error) => r matches OutputLine::Stderr(line) && line@ == "Error: "@ + error.text(),
        },
{
    match outcome {
        Ok(output) => {
            let rendering = output.render(float_text);
            let mut line = "Result: ".to_owned();
            line.append(rendering.as_str());
            OutputLine::Stdout(line)
        },
        Err(error) => {
            let mut line = "Error: ".to_owned();
            line.append(error.message());
            OutputLine::Stderr(line)
        },
    }
}

} // verus!
