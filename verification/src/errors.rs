//! The interpreter's error taxonomy.  Every failure of scanning, parsing or
//! evaluation is one of these variants; the mathematical mirror `VErr` is
//! what contracts speak about.

use vstd::prelude::*;

verus! {

use vstd::string::StringExecFns;
use crate::text::{dec_digits, dec_digits_vec, append_chars};

/// Every error the library can report.
#[derive(Debug, PartialEq)]
pub enum MyError {
    /// A token did not fit the grammar.
    ParseError(String),
    /// An operand had the wrong runtime type; the message names the line.
    CastError(String),
    /// Division with a right operand of exactly zero.
    DividedbyzeroError,
    /// A construct the interpreter does not support.
    NotImplementedError,
    /// A variable name not bound in any reachable scope.
    EnValueNotFoundError(String),
    /// A variable read before initialization.
    EnValueNotInitError(String),
    /// The left side of an assignment was not a bare variable.
    InvalidAssignmentTargetError(String),
    /// `break` outside of every loop.
    BreakNotInLoop,
    /// A call whose callee is not a function value.
    NotCallableError,
    /// More call arguments or parameters than the grammar allows.
    MaxArgumentNumError,
    /// The scanner met a malformed lexeme; the message names the line.
    ScanError(String),
    /// A call whose argument count differs from the parameter count:
    /// expected, got, and the line of the closing parenthesis.
    ArityMismatchError(usize, usize, usize),
    /// An exact arithmetic result left the representable range.
    NumberOverflowError,
    /// The evaluation depth budget ran out.
    RecursionLimitError,
}

/// The mathematical mirror of [`MyError`].
pub enum VErr {
    ParseError(Seq<char>),
    CastError(Seq<char>),
    Dividedbyzero,
    NotImplemented,
    EnValueNotFound(Seq<char>),
    EnValueNotInit(Seq<char>),
    InvalidAssignmentTarget(Seq<char>),
    BreakNotInLoop,
    NotCallable,
    MaxArgumentNum,
    ScanError(Seq<char>),
    ArityMismatch(nat, nat, nat),
    NumberOverflow,
    RecursionLimit,
}

impl View for MyError {
    type V = VErr;

    open spec fn view(&self) -> VErr {
        match self {
            MyError::ParseError(m) => VErr::ParseError(m@),
            MyError::CastError(m) => VErr::CastError(m@),
            MyError::DividedbyzeroError => VErr::Dividedbyzero,
            MyError::NotImplementedError => VErr::NotImplemented,
            MyError::EnValueNotFoundError(m) => VErr::EnValueNotFound(m@),
            MyError::EnValueNotInitError(m) => VErr::EnValueNotInit(m@),
            MyError::InvalidAssignmentTargetError(m) => VErr::InvalidAssignmentTarget(m@),
            MyError::BreakNotInLoop => VErr::BreakNotInLoop,
            MyError::NotCallableError => VErr::NotCallable,
            MyError::MaxArgumentNumError => VErr::MaxArgumentNum,
            MyError::ScanError(m) => VErr::ScanError(m@),
            MyError::ArityMismatchError(e, g, l) => VErr::ArityMismatch(
                *e as nat,
                *g as nat,
                *l as nat,
            ),
            MyError::NumberOverflowError => VErr::NumberOverflow,
            MyError::RecursionLimitError => VErr::RecursionLimit,
        }
    }
}

/// The one-line description of an error.
pub open spec fn err_message(e: VErr) -> Seq<char> {
    match e {
        VErr::ParseError(m) => "Parsing error occurred "@ + m,
        VErr::CastError(m) => "Casting error occurred "@ + m,
        VErr::Dividedbyzero => "Divided by zero Error occurred"@,
        VErr::NotImplemented => "Not implemented Error occurred"@,
        VErr::EnValueNotFound(m) => "Undefined variable "@ + m + "."@,
        VErr::EnValueNotInit(m) => "Uninitialized variable "@ + m + "."@,
        VErr::InvalidAssignmentTarget(m) => "Invalid assignment target Error occurred. "@ + m,
        VErr::BreakNotInLoop => "Break must in loop."@,
        VErr::NotCallable => "Not callable Error occurred."@,
        VErr::MaxArgumentNum => "Argument number excedding the limit"@,
        VErr::ScanError(m) => "Scanning error occurred "@ + m,
        VErr::ArityMismatch(exp, got, line) => "[Line "@ + dec_digits(line) + "]: Expected "@
            + dec_digits(exp) + " arguments but got "@ + dec_digits(got) + "."@,
        VErr::NumberOverflow => "Number out of range Error occurred"@,
        VErr::RecursionLimit => "Recursion limit reached"@,
    }
}

impl MyError {
    /// The one-line description of this error, ready for a diagnostic
    /// line.
    pub fn message(&self) -> (r: String)
        ensures
            r@ == err_message(self@),
    {
        match self {
            MyError::ParseError(m) => {
                let mut s = String::from_str("Parsing error occurred ");
                s.append(m.as_str());
                s
            },
            MyError::CastError(m) => {
                let mut s = String::from_str("Casting error occurred ");
                s.append(m.as_str());
                s
            },
            MyError::DividedbyzeroError => String::from_str("Divided by zero Error occurred"),
            MyError::NotImplementedError => String::from_str("Not implemented Error occurred"),
            MyError::EnValueNotFoundError(m) => {
                let mut s = String::from_str("Undefined variable ");
                s.append(m.as_str());
                s.append(".");
                s
            },
            MyError::EnValueNotInitError(m) => {
                let mut s = String::from_str("Uninitialized variable ");
                s.append(m.as_str());
                s.append(".");
                s
            },
            MyError::InvalidAssignmentTargetError(m) => {
                let mut s = String::from_str("Invalid assignment target Error occurred. ");
                s.append(m.as_str());
                s
            },
            MyError::BreakNotInLoop => String::from_str("Break must in loop."),
            MyError::NotCallableError => String::from_str("Not callable Error occurred."),
            MyError::MaxArgumentNumError => String::from_str(
                "Argument number excedding the limit",
            ),
            MyError::ScanError(m) => {
                let mut s = String::from_str("Scanning error occurred ");
                s.append(m.as_str());
                s
            },
            MyError::ArityMismatchError(exp, got, line) => {
                let mut s = String::from_str("[Line ");
                let d1 = dec_digits_vec(*line as u128);
                append_chars(&mut s, &d1);
                s.append("]: Expected ");
                let d2 = dec_digits_vec(*exp as u128);
                append_chars(&mut s, &d2);
                s.append(" arguments but got ");
                let d3 = dec_digits_vec(*got as u128);
                append_chars(&mut s, &d3);
                s.append(".");
                s
            },
            MyError::NumberOverflowError => String::from_str("Number out of range Error occurred"),
            MyError::RecursionLimitError => String::from_str("Recursion limit reached"),
        }
    }
}

} // verus!
