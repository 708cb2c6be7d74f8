//! The closed set of failures that scanning, parsing and evaluation report.

use vstd::prelude::*;
use vstd::string::*;

verus! {

/// Why a scan, a parse or an evaluation did not go through.
#[derive(Debug, PartialEq, Eq)]
pub enum Error {
    /// A required literal is not what the input starts with.
    UnexpectedToken { expected: String },
    /// The input does not start with a decimal digit.
    ExpectedDigits,
    /// The input does not start with a letter.
    ExpectedIdentifier,
    /// The input does not start with a space.
    ExpectedSpace,
    /// The input starts with none of `+`, `-`, `*`, `/`.
    ExpectedOperator,
    /// No binding of this name has been stored.
    UnknownBinding { name: String },
    /// The right operand of a division is zero.
    DivisionByZero,
    /// A number literal or the result of an operation does not fit in 32 bits.
    ArithmeticOverflow,
}

/// An [`Error`] with its strings taken as sequences of characters.
pub enum ErrorView {
    UnexpectedToken { expected: Seq<char> },
    ExpectedDigits,
    ExpectedIdentifier,
    ExpectedSpace,
    ExpectedOperator,
    UnknownBinding { name: Seq<char> },
    DivisionByZero,
    ArithmeticOverflow,
}

impl View for Error {
    type V = ErrorView;

    open spec fn view(&self) -> ErrorView {
        match self {
            Error::UnexpectedToken { expected } => ErrorView::UnexpectedToken {
                expected: expected@,
            },
            Error::ExpectedDigits => ErrorView::ExpectedDigits,
            Error::ExpectedIdentifier => ErrorView::ExpectedIdentifier,
            Error::ExpectedSpace => ErrorView::ExpectedSpace,
            Error::ExpectedOperator => ErrorView::ExpectedOperator,
            Error::UnknownBinding { name } => ErrorView::UnknownBinding { name: name@ },
            Error::DivisionByZero => ErrorView::DivisionByZero,
            Error::ArithmeticOverflow => ErrorView::ArithmeticOverflow,
        }
    }
}

impl Clone for Error {
    fn clone(&self) -> (copy: Self)
        ensures
            copy == *self,
    {
        match self {
            Error::UnexpectedToken { expected } => Error::UnexpectedToken {
                expected: expected.clone(),
            },
            Error::ExpectedDigits => Error::ExpectedDigits,
            Error::ExpectedIdentifier => Error::ExpectedIdentifier,
            Error::ExpectedSpace => Error::ExpectedSpace,
            Error::ExpectedOperator => Error::ExpectedOperator,
            Error::UnknownBinding { name } => Error::UnknownBinding { name: name.clone() },
            Error::DivisionByZero => Error::DivisionByZero,
            Error::ArithmeticOverflow => Error::ArithmeticOverflow,
        }
    }
}

impl ErrorView {
    /// The text that describes the failure.
    pub open spec fn message(self) -> Seq<char> {
        match self {
            ErrorView::UnexpectedToken { expected } => "expected "@ + expected,
            ErrorView::ExpectedDigits => "expected digits"@,
            ErrorView::ExpectedIdentifier => "expected identifier"@,
            ErrorView::ExpectedSpace => "expected a space"@,
            ErrorView::ExpectedOperator => "expected an operator"@,
            ErrorView::UnknownBinding { name } => "binding with name '"@ + name
                + "' does not exist"@,
            ErrorView::DivisionByZero => "division by zero"@,
            ErrorView::ArithmeticOverflow => "arithmetic overflow"@,
        }
    }
}

/// The outcome of an evaluation or a lookup, with the error by its view.
pub open spec fn eval_view<T>(r: Result<T, Error>) -> Result<T, ErrorView> {
    match r {
        Ok(value) => Ok(value),
        Err(e) => Err(e@),
    }
}

impl Error {
    /// Describes the failure in words.
    pub fn message(&self) -> (text: String)
        ensures
            text@ == self@.message(),
    {
        match self {
            Error::UnexpectedToken { expected } => {
                "expected ".to_owned().concat(expected.as_str())
            },
            Error::ExpectedDigits => "expected digits".to_owned(),
            Error::ExpectedIdentifier => "expected identifier".to_owned(),
            Error::ExpectedSpace => "expected a space".to_owned(),
            Error::ExpectedOperator => "expected an operator".to_owned(),
            Error::UnknownBinding { name } => {
                "binding with name '".to_owned().concat(name.as_str()).concat("' does not exist")
            },
            Error::DivisionByZero => "division by zero".to_owned(),
            Error::ArithmeticOverflow => "arithmetic overflow".to_owned(),
        }
    }
}

} // verus!
