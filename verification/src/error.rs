//! What can go wrong with a format request, and how it is told.

use vstd::prelude::*;
use vstd::string::StringExecFns;

verus! {

/// Why a format request was refused. The first fault found ends the
/// expansion: nothing is emitted beside it.
#[derive(Clone, Copy, Debug, PartialEq, Eq, Structural)]
pub enum FormatError {
    /// The input does not start with the template: what stands before its
    /// first comma is not one string literal.
    MissingTemplate,
    /// The argument at `index`, counted from zero, is neither an accepted
    /// literal nor a macro invocation.
    InvalidArgument { index: usize },
    /// The template has `expected` markers and `found` arguments came.
    ArityMismatch { expected: usize, found: usize },
}

/// The character of one decimal digit.
pub open spec fn digit(value: nat) -> char {
    seq!['0', '1', '2', '3', '4', '5', '6', '7', '8', '9'][value as int]
}

/// A number in decimal digits, without leading zero.
pub open spec fn decimal(value: nat) -> Seq<char>
    decreases value,
{
    if value < 10 {
        seq![digit(value)]
    } else {
        decimal(value / 10).push(digit(value % 10))
    }
}

/// The message for a missing template.
pub open spec fn missing_template_text() -> Seq<char> {
    "requires at least one argument; provide a format string and arguments"@
}

/// The message for an element that is no argument.
pub open spec fn invalid_argument_text() -> Seq<char> {
    "all arguments must be literals or macro-style invocations"@
}

/// The message for `found` arguments where the template has `expected`
/// markers.
pub open spec fn arity_mismatch_text(expected: nat, found: nat) -> Seq<char> {
    "Wrong number of arguments, expected: "@ + decimal(expected) + " but found "@ + decimal(found)
}

/// One decimal digit as a text.
fn digit_text(value: usize) -> (text: &'static str)
    requires
        value < 10,
    ensures
        text@ == seq![digit(value as nat)],
{
    proof {
        reveal_strlit("0");
        reveal_strlit("1");
        reveal_strlit("2");
        reveal_strlit("3");
        reveal_strlit("4");
        reveal_strlit("5");
        reveal_strlit("6");
        reveal_strlit("7");
        reveal_strlit("8");
        reveal_strlit("9");
    }
    match value {
        0 => "0",
        1 => "1",
        2 => "2",
        3 => "3",
        4 => "4",
        5 => "5",
        6 => "6",
        7 => "7",
        8 => "8",
        _ => "9",
    }
}

/// Writes `value` in decimal digits.
pub fn decimal_text(value: usize) -> (text: String)
    ensures
        text@ == decimal(value as nat),
    decreases value,
{
    if value < 10 {
        String::from_str(digit_text(value))
    } else {
        let mut text = decimal_text(value / 10);
        text.append(digit_text(value % 10));
        text
    }
}

impl FormatError {
    /// The message of this error, as `message` writes it.
    pub open spec fn message_text(self) -> Seq<char> {
        match self {
            FormatError::MissingTemplate => missing_template_text(),
            FormatError::InvalidArgument { .. } => invalid_argument_text(),
            FormatError::ArityMismatch { expected, found } => arity_mismatch_text(
                expected as nat,
                found as nat,
            ),
        }
    }

    /// The message for the user. A wrong count is told with both numbers.
    pub fn message(&self) -> (text: String)
        ensures
            text@ == self.message_text(),
    {
        match self {
            FormatError::MissingTemplate => String::from_str(
                "requires at least one argument; provide a format string and arguments",
            ),
            FormatError::InvalidArgument { .. } => String::from_str(
                "all arguments must be literals or macro-style invocations",
            ),
            FormatError::ArityMismatch { expected, found } => {
                let mut text = String::from_str("Wrong number of arguments, expected: ");
                text.append(decimal_text(*expected).as_str());
                text.append(" but found ");
                text.append(decimal_text(*found).as_str());
                text
            },
        }
    }
}

} // verus!
