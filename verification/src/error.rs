//! The error taxonomy: every failure of tokenizing, parsing or evaluation
//! is one of these variants, and each carries or renders a human-readable
//! reason.

use vstd::prelude::*;

use crate::render::{dec_digits, u64_to_dec};

verus! {

/// Everything that can go wrong while tokenizing, parsing or evaluating.
///
/// * `UnterminatedString`: a string literal, or an escape inside one,
///   reaches the end of the input before the closing quote.
/// * `NumberTooLarge`: a numeric literal does not fit in 64 bits.
/// * `UnexpectedListClosing`: a closing delimiter with no enclosing list.
/// * `ExpectedListClosing`: the input ends inside an unclosed list.
/// * `TrailingInput`: tokens remain after the first complete expression.
/// * `UnsupportedToken`: a string literal reaches the parser, which
///   rejects it deterministically since the evaluator has no string type.
/// * `SymbolNotFound`: lookup failed in every scope; carries the name.
/// * `NotAProcedure`: the head of an applied list is neither a built-in
///   procedure nor a lambda.
/// * `ArityMismatch`: a procedure received the wrong number of arguments;
///   carries the procedure name, the expected count and the actual count.
/// * `NotANumber`: an argument of an arithmetic built-in evaluated to
///   something other than a number; carries the built-in's name.
/// * `ArithmeticOverflow`: the result of an arithmetic built-in does not
///   fit in 64 bits; carries the built-in's name.
/// * `ParameterNotSymbol`: a parameter in a `lambda` form is not a symbol.
/// * `CallDepthExceeded`: procedure invocations nested deeper than the
///   evaluator's fixed depth limit.
#[derive(Debug, Clone, PartialEq, Eq)]
pub enum LispError {
    UnterminatedString,
    NumberTooLarge,
    UnexpectedListClosing,
    ExpectedListClosing,
    TrailingInput,
    UnsupportedToken,
    SymbolNotFound(String),
    NotAProcedure,
    ArityMismatch(String, u64, u64),
    NotANumber(String),
    ArithmeticOverflow(String),
    ParameterNotSymbol,
    CallDepthExceeded,
}

/// The mathematical value of a [`LispError`]: the same shape with string
/// contents abstracted to character sequences.
#[verifier::ext_equal]
pub enum ErrorModel {
    UnterminatedString,
    NumberTooLarge,
    UnexpectedListClosing,
    ExpectedListClosing,
    TrailingInput,
    UnsupportedToken,
    SymbolNotFound(Seq<char>),
    NotAProcedure,
    ArityMismatch(Seq<char>, u64, u64),
    NotANumber(Seq<char>),
    ArithmeticOverflow(Seq<char>),
    ParameterNotSymbol,
    CallDepthExceeded,
}

impl View for LispError {
    type V = ErrorModel;

    open spec fn view(&self) -> ErrorModel {
        match self {
            LispError::UnterminatedString => ErrorModel::UnterminatedString,
            LispError::NumberTooLarge => ErrorModel::NumberTooLarge,
            LispError::UnexpectedListClosing => ErrorModel::UnexpectedListClosing,
            LispError::ExpectedListClosing => ErrorModel::ExpectedListClosing,
            LispError::TrailingInput => ErrorModel::TrailingInput,
            LispError::UnsupportedToken => ErrorModel::UnsupportedToken,
            LispError::SymbolNotFound(s) => ErrorModel::SymbolNotFound(s@),
            LispError::NotAProcedure => ErrorModel::NotAProcedure,
            LispError::ArityMismatch(s, want, got) => ErrorModel::ArityMismatch(s@, *want, *got),
            LispError::NotANumber(s) => ErrorModel::NotANumber(s@),
            LispError::ArithmeticOverflow(s) => ErrorModel::ArithmeticOverflow(s@),
            LispError::ParameterNotSymbol => ErrorModel::ParameterNotSymbol,
            LispError::CallDepthExceeded => ErrorModel::CallDepthExceeded,
        }
    }
}

impl DeepView for LispError {
    type V = ErrorModel;

    open spec fn deep_view(&self) -> ErrorModel {
        self.view()
    }
}

/// The reason text of each error.
pub open spec fn spec_reason(e: ErrorModel) -> Seq<char> {
    match e {
        ErrorModel::UnterminatedString => "Unterminated string"@,
        ErrorModel::NumberTooLarge => "Number literal too large"@,
        ErrorModel::UnexpectedListClosing => "Unexpected list closing"@,
        ErrorModel::ExpectedListClosing => "Expected list closing"@,
        ErrorModel::TrailingInput => "Failed to parse all of input"@,
        ErrorModel::UnsupportedToken => "Unsupported token type"@,
        ErrorModel::SymbolNotFound(s) => "Symbol not found "@ + s,
        ErrorModel::NotAProcedure => "Expected a function/procedure name"@,
        ErrorModel::ArityMismatch(s, want, got) => "Wrong number of arguments for "@ + s
            + ": expected "@ + dec_digits(want as nat) + ", got "@ + dec_digits(got as nat),
        ErrorModel::NotANumber(s) => "Expected a number as argument for "@ + s,
        ErrorModel::ArithmeticOverflow(s) => "Arithmetic overflow in "@ + s,
        ErrorModel::ParameterNotSymbol => "Parameters must be symbols"@,
        ErrorModel::CallDepthExceeded => "Call depth exceeded"@,
    }
}

impl LispError {
    /// The human-readable reason for this error.
    pub fn reason(&self) -> (r: String)
        ensures
            r@ == spec_reason(self@),
    {
        match self {
            LispError::UnterminatedString => String::from_str("Unterminated string"),
            LispError::NumberTooLarge => String::from_str("Number literal too large"),
            LispError::UnexpectedListClosing => String::from_str("Unexpected list closing"),
            LispError::ExpectedListClosing => String::from_str("Expected list closing"),
            LispError::TrailingInput => String::from_str("Failed to parse all of input"),
            LispError::UnsupportedToken => String::from_str("Unsupported token type"),
            LispError::SymbolNotFound(s) => {
                let mut r = String::from_str("Symbol not found ");
                r.append(s.as_str());
                r
            },
            LispError::NotAProcedure => String::from_str("Expected a function/procedure name"),
            LispError::ArityMismatch(s, want, got) => {
                let mut r = String::from_str("Wrong number of arguments for ");
                r.append(s.as_str());
                r.append(": expected ");
                let w = u64_to_dec(*want);
                r.append(w.as_str());
                r.append(", got ");
                let g = u64_to_dec(*got);
                r.append(g.as_str());
                r
            },
            LispError::NotANumber(s) => {
                let mut r = String::from_str("Expected a number as argument for ");
                r.append(s.as_str());
                r
            },
            LispError::ArithmeticOverflow(s) => {
                let mut r = String::from_str("Arithmetic overflow in ");
                r.append(s.as_str());
                r
            },
            LispError::ParameterNotSymbol => String::from_str("Parameters must be symbols"),
            LispError::CallDepthExceeded => String::from_str("Call depth exceeded"),
        }
    }
}

} // verus!
