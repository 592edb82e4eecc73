//! Operands: a whole number or a binary64 value, and how a token becomes one.

use crate::binary64::Binary64;
use crate::token::{
    format_integer, integer_text, integer_token, is_integer_literal, literal_value, parse_integer,
};
use vstd::prelude::*;
use vstd::string::*;

verus! {

/// An operand or a result.
///
/// Two numbers are equal when they are the same variant with the same
/// contents; for `Float` that is identity of bit patterns, not numeric
/// comparison.
#[derive(Clone, Copy, Debug, PartialEq, Eq, Structural)]
pub enum CustomNumber {
    Integer(i64),
    Float(Binary64),
}

/// A token that is neither an integer literal in range nor a floating-point
/// literal. `reason` is what floating-point parsing said of it.
#[derive(Clone, Debug, PartialEq, Eq)]
pub struct ParseError {
    pub reason: String,
}

impl CustomNumber {
    /// What a token denotes, given what floating-point parsing made of it.
    ///
    /// The integer reading comes first: a token that is an integer literal
    /// within 64 bits is that integer, whatever `float_attempt` holds. Any
    /// other token is what `float_attempt` says: the value, or the failure
    /// with its reason.
    pub open spec fn parsed(token: Seq<char>, float_attempt: Result<Binary64, String>) -> Result<
        CustomNumber,
        ParseError,
    > {
        match integer_token(token) {
            Some(value) => Ok(CustomNumber::Integer(value)),
            None => match float_attempt {
                Ok(value) => Ok(CustomNumber::Float(value)),
                Err(reason) => Err(ParseError { reason }),
            },
        }
    }

    /// The operand is a zero: the integer 0, or a float zero of either sign.
    pub open spec fn is_zero(&self) -> bool {
        match *self {
            CustomNumber::Integer(value) => value == 0,
            CustomNumber::Float(value) => value.spec_is_zero(),
        }
    }

    /// The operand as a binary64 value: an integer widened to the nearest
    /// value, a float as it is.
    pub open spec fn widened(&self) -> Binary64 {
        match *self {
            CustomNumber::Integer(value) => Binary64::nearest(value as int),
            CustomNumber::Float(value) => value,
        }
    }

    /// The structured rendering of a number: the variant's name with the
    /// value in round brackets. An integer is written in decimal; for a float
    /// the text of the value is `float_text`.
    pub open spec fn debug_text(&self, float_text: Seq<char>) -> Seq<char> {
        match *self {
            CustomNumber::Integer(value) => "Integer("@ + integer_text(value as int) + ")"@,
            CustomNumber::Float(_) => "Float("@ + float_text + ")"@,
        }
    }

    /// Renders the number as `Integer(..)` or `Float(..)`.
    ///
    /// `float_text` is the caller's text for the binary64 value, and is used
    /// only for a `Float`.
    pub fn render(&self, float_text: &str) -> (r: String)
        ensures
            r@ == self.debug_text(float_text@),
    {
        match self {
            CustomNumber::Integer(value) => {
                let digits = format_integer(*value);
                let mut text = "Integer(".to_owned();
                text.append(digits.as_str());
                text.append(")");
                text
            },
            CustomNumber::Float(_) => {
                let mut text = "Float(".to_owned();
                text.append(float_text);
                text.append(")");
                text
            },
        }
    }

    /// Reads an operand token.
    ///
    /// `float_attempt` is the outcome of parsing the same token as a binary64
    /// literal: the value's bit pattern, or the failure's message. It is
    /// consulted only where the token is not an integer literal in range.
    pub fn from_str(s: &str, float_attempt: Result<Binary64, String>) -> (r: Result<
        CustomNumber,
        ParseError,
    >)
        ensures
            r == CustomNumber::parsed(s@, float_attempt),
            is_integer_literal(s@) && i64::MIN <= literal_value(s@) <= i64::MAX ==> r == Ok::<
                CustomNumber,
                ParseError,
            >(CustomNumber::Integer(literal_value(s@) as i64)),
            r is Err <==> integer_token(s@) is None && float_attempt is Err,
    {
        match parse_integer(s) {
            Some(value) => Ok(CustomNumber::Integer(value)),
            None => match float_attempt {
                Ok(value) => Ok(CustomNumber::Float(value)),
                Err(reason) => Err(ParseError { reason }),
            },
        }
    }

    /// Converts the operand for arithmetic: an integer is widened to the
    /// nearest binary64 value, a float is handed on bit for bit.
    pub fn to_f64(&self) -> (r: Binary64)
        ensures
            r == self.widened(),
            *self matches CustomNumber::Integer(value) ==> r.is_nearest_to(value as int),
            *self matches CustomNumber::Float(value) ==> r == value,
            r.spec_is_zero() <==> self.is_zero(),
    {
        match self {
            CustomNumber::Integer(value) => Binary64::from_i64(*value),
            CustomNumber::Float(value) => *value,
        }
    }
}

} // verus!
