//! Lexical tokens produced by the tokenizer and consumed by the parser.

use vstd::prelude::*;

verus! {

/// One lexical unit of source text.
///
/// `Eof` marks the end of the input inside the tokenizer; it is never
/// placed in the token sequence that `tokenize` returns.
#[derive(Debug, Clone, PartialEq, Eq)]
pub enum Token {
    Eof,
    StrLit(String),
    Symbol(String),
    Number(u64),
    LOpen,
    LClose,
}

/// The mathematical value of a [`Token`]: the same shape with string
/// contents abstracted to character sequences.
pub enum TokenModel {
    Eof,
    StrLit(Seq<char>),
    Symbol(Seq<char>),
    Number(u64),
    LOpen,
    LClose,
}

impl View for Token {
    type V = TokenModel;

    open spec fn view(&self) -> TokenModel {
        match self {
            Token::Eof => TokenModel::Eof,
            Token::StrLit(s) => TokenModel::StrLit(s@),
            Token::Symbol(s) => TokenModel::Symbol(s@),
            Token::Number(n) => TokenModel::Number(*n),
            Token::LOpen => TokenModel::LOpen,
            Token::LClose => TokenModel::LClose,
        }
    }
}

impl DeepView for Token {
    type V = TokenModel;

    open spec fn deep_view(&self) -> TokenModel {
        self.view()
    }
}

} // verus!
