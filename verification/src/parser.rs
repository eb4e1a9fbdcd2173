//! The parser: recursive descent with one token of lookahead, building
//! an expression from the token sequence.

use vstd::prelude::*;

use crate::error::{ErrorModel, LispError};
use crate::expr::{ExprModel, LispExpr, LispList};
use crate::lexer::{spec_tokenize, tokenize};
use crate::token::{Token, TokenModel};

verus! {

/// The result of parsing from a position: the expression and the position
/// just after it, or the error. `None` stands for an exhausted recursion
/// budget; with the budget [`parse_fuel`] gives, it never occurs.
pub type ParseStep = Option<Result<(ExprModel, int), ErrorModel>>;

/// As [`ParseStep`], for the elements of a list.
pub type ParseListStep = Option<Result<(Seq<ExprModel>, int), ErrorModel>>;

/// A recursion budget that always suffices to parse from position `i`:
/// parsing consumes at least one token per budget step spent.
pub open spec fn parse_fuel(ts: Seq<TokenModel>, i: int) -> nat {
    (ts.len() - i + 1) as nat
}

/// Parses one expression starting at `ts[i]`.
///
/// * An opening delimiter starts a list of expressions.
/// * A closing delimiter here has no enclosing list and is an error.
/// * A number or symbol token is that expression alone.
/// * A string literal is rejected: the evaluator has no string type.
/// * At the end of the input, the degenerate empty list is produced; this
///   arm is reached only when the whole input is empty, since the list
///   parser checks for the end of input itself.
pub open spec fn spec_parse(fuel: nat, ts: Seq<TokenModel>, i: int) -> ParseStep
    decreases fuel, 0int,
{
    if fuel == 0 {
        Option::None
    } else if i >= ts.len() {
        Option::Some(Result::Ok((ExprModel::List(Seq::empty()), i)))
    } else {
        match ts[i] {
            TokenModel::LOpen => match spec_parse_list((fuel - 1) as nat, ts, i + 1) {
                Option::None => Option::None,
                Option::Some(Result::Err(e)) => Option::Some(Result::Err(e)),
                Option::Some(Result::Ok((items, j))) => Option::Some(
                    Result::Ok((ExprModel::List(items), j)),
                ),
            },
            TokenModel::LClose => Option::Some(Result::Err(ErrorModel::UnexpectedListClosing)),
            TokenModel::Number(n) => Option::Some(Result::Ok((ExprModel::Number(n), i + 1))),
            TokenModel::Symbol(s) => Option::Some(Result::Ok((ExprModel::Symbol(s), i + 1))),
            _ => Option::Some(Result::Err(ErrorModel::UnsupportedToken)),
        }
    }
}

/// Parses the elements of a list starting at `ts[i]`, up to and including
/// the closing delimiter. An input that ends before the closing
/// delimiter is an error.
pub open spec fn spec_parse_list(fuel: nat, ts: Seq<TokenModel>, i: int) -> ParseListStep
    decreases fuel, 1int,
{
    if fuel == 0 {
        Option::None
    } else if i >= ts.len() {
        Option::Some(Result::Err(ErrorModel::ExpectedListClosing))
    } else if ts[i] is LClose {
        Option::Some(Result::Ok((Seq::empty(), i + 1)))
    } else {
        match spec_parse(fuel, ts, i) {
            Option::None => Option::None,
            Option::Some(Result::Err(e)) => Option::Some(Result::Err(e)),
            Option::Some(Result::Ok((e, j))) => match spec_parse_list((fuel - 1) as nat, ts, j) {
                Option::None => Option::None,
                Option::Some(Result::Err(er)) => Option::Some(Result::Err(er)),
                Option::Some(Result::Ok((items, k))) => Option::Some(
                    Result::Ok((seq![e] + items, k)),
                ),
            },
        }
    }
}

/// A budget that produced an answer was enough: any larger budget
/// produces the same answer.
pub proof fn lemma_parse_mono(f1: nat, f2: nat, ts: Seq<TokenModel>, i: int)
    requires
        f1 <= f2,
        spec_parse(f1, ts, i) is Some,
    ensures
        spec_parse(f2, ts, i) == spec_parse(f1, ts, i),
    decreases f1, 0int,
{
    if f1 > 0 && i < ts.len() {
        if ts[i] is LOpen {
            if spec_parse_list((f1 - 1) as nat, ts, i + 1) is Some {
                lemma_parse_list_mono((f1 - 1) as nat, (f2 - 1) as nat, ts, i + 1);
            }
        }
    }
}

/// As [`lemma_parse_mono`], for the elements of a list.
pub proof fn lemma_parse_list_mono(f1: nat, f2: nat, ts: Seq<TokenModel>, i: int)
    requires
        f1 <= f2,
        spec_parse_list(f1, ts, i) is Some,
    ensures
        spec_parse_list(f2, ts, i) == spec_parse_list(f1, ts, i),
    decreases f1, 1int,
{
    if f1 > 0 && i < ts.len() && !(ts[i] is LClose) {
        assert(spec_parse(f1, ts, i) is Some);
        lemma_parse_mono(f1, f2, ts, i);
        if let Option::Some(Result::Ok((e, j))) = spec_parse(f1, ts, i) {
            if spec_parse_list((f1 - 1) as nat, ts, j) is Some {
                lemma_parse_list_mono((f1 - 1) as nat, (f2 - 1) as nat, ts, j);
            }
        }
    }
}

/// Parses the elements of a list and the closing delimiter, from `ts[i]`.
fn parse_list(tokens: &Vec<Token>, i: usize) -> (r: Result<(LispList, usize), LispError>)
    requires
        i <= tokens@.len(),
    ensures
        match r {
            Result::Ok((l, j)) => spec_parse_list(
                parse_fuel(tokens.deep_view(), i as int),
                tokens.deep_view(),
                i as int,
            ) == Option::Some(Result::<(Seq<ExprModel>, int), ErrorModel>::Ok((l@, j as int)))
                && i < j <= tokens@.len(),
            Result::Err(e) => spec_parse_list(
                parse_fuel(tokens.deep_view(), i as int),
                tokens.deep_view(),
                i as int,
            ) == Option::Some(Result::<(Seq<ExprModel>, int), ErrorModel>::Err(e@)),
        },
    decreases tokens@.len() - i, 1int,
{
    let ghost ts = tokens.deep_view();
    proof {
        assert(ts.len() == tokens@.len());
    }
    if i >= tokens.len() {
        return Result::Err(LispError::ExpectedListClosing);
    }
    if let Token::LClose = &tokens[i] {
        return Result::Ok((LispList::Nil, i + 1));
    }
    proof {
        assert(!(ts[i as int] is LClose));
    }
    match parse(tokens, i) {
        Result::Err(e) => Result::Err(e),
        Result::Ok((e, j)) => {
            match parse_list(tokens, j) {
                Result::Err(er) => {
                    proof {
                        lemma_parse_list_mono(
                            parse_fuel(ts, j as int),
                            (parse_fuel(ts, i as int) - 1) as nat,
                            ts,
                            j as int,
                        );
                    }
                    Result::Err(er)
                },
                Result::Ok((items, k)) => {
                    proof {
                        lemma_parse_list_mono(
                            parse_fuel(ts, j as int),
                            (parse_fuel(ts, i as int) - 1) as nat,
                            ts,
                            j as int,
                        );
                        assert(seq![e@] + items@ =~= LispList::Cons(
                            e,
                            Box::new(items),
                        )@);
                    }
                    Result::Ok((LispList::Cons(e, Box::new(items)), k))
                },
            }
        },
    }
}

/// Parses one expression from `ts[i]`; at the end of the input it
/// produces the degenerate empty list without consuming anything.
fn parse(tokens: &Vec<Token>, i: usize) -> (r: Result<(LispExpr, usize), LispError>)
    requires
        i <= tokens@.len(),
    ensures
        match r {
            Result::Ok((e, j)) => spec_parse(
                parse_fuel(tokens.deep_view(), i as int),
                tokens.deep_view(),
                i as int,
            ) == Option::Some(Result::<(ExprModel, int), ErrorModel>::Ok((e@, j as int))) && i <= j
                <= tokens@.len() && (i < tokens@.len() ==> i < j) && (i == tokens@.len() ==> j
                == i),
            Result::Err(e) => spec_parse(
                parse_fuel(tokens.deep_view(), i as int),
                tokens.deep_view(),
                i as int,
            ) == Option::Some(Result::<(ExprModel, int), ErrorModel>::Err(e@)),
        },
    decreases tokens@.len() - i, 0int,
{
    let ghost ts = tokens.deep_view();
    proof {
        assert(ts.len() == tokens@.len());
    }
    if i >= tokens.len() {
        let empty = LispExpr::List(Box::new(LispList::Nil));
        proof {
            assert(crate::expr::list_model(LispList::Nil) =~= Seq::<ExprModel>::empty());
            assert(empty@ == ExprModel::List(Seq::<ExprModel>::empty()));
        }
        return Result::Ok((empty, i));
    }
    match &tokens[i] {
        Token::LOpen => {
            match parse_list(tokens, i + 1) {
                Result::Err(e) => {
                    proof {
                        lemma_parse_list_mono(
                            parse_fuel(ts, i + 1),
                            (parse_fuel(ts, i as int) - 1) as nat,
                            ts,
                            i + 1,
                        );
                    }
                    Result::Err(e)
                },
                Result::Ok((items, j)) => {
                    proof {
                        lemma_parse_list_mono(
                            parse_fuel(ts, i + 1),
                            (parse_fuel(ts, i as int) - 1) as nat,
                            ts,
                            i + 1,
                        );
                    }
                    Result::Ok((LispExpr::List(Box::new(items)), j))
                },
            }
        },
        Token::LClose => Result::Err(LispError::UnexpectedListClosing),
        Token::Number(n) => Result::Ok((LispExpr::Number(*n), i + 1)),
        Token::Symbol(s) => Result::Ok((LispExpr::Symbol(s.clone()), i + 1)),
        _ => Result::Err(LispError::UnsupportedToken),
    }
}

/// The result of tokenizing and parsing a whole source line: the one
/// expression it holds, or the first error. Tokens after the first
/// expression are a trailing-input error.
pub open spec fn spec_tl_parse(s: Seq<char>) -> Result<ExprModel, ErrorModel> {
    match spec_tokenize(s, 0) {
        Result::Err(e) => Result::Err(e),
        Result::Ok(ts) => match spec_parse(parse_fuel(ts, 0), ts, 0) {
            Option::Some(Result::Ok((e, j))) => if j == ts.len() {
                Result::Ok(e)
            } else {
                Result::Err(ErrorModel::TrailingInput)
            },
            Option::Some(Result::Err(e)) => Result::Err(e),
            Option::None => Result::Err(ErrorModel::TrailingInput),
        },
    }
}

/// Tokenizes and parses one source line.
pub fn tl_parse(code: &str) -> (r: Result<LispExpr, LispError>)
    ensures
        match r {
            Result::Ok(e) => spec_tl_parse(code@) == Result::<ExprModel, ErrorModel>::Ok(e@),
            Result::Err(e) => spec_tl_parse(code@) == Result::<ExprModel, ErrorModel>::Err(e@),
        },
{
    match tokenize(code) {
        Result::Err(e) => Result::Err(e),
        Result::Ok(tokens) => {
            match parse(&tokens, 0) {
                Result::Err(e) => Result::Err(e),
                Result::Ok((e, j)) => {
                    if j == tokens.len() {
                        Result::Ok(e)
                    } else {
                        Result::Err(LispError::TrailingInput)
                    }
                },
            }
        },
    }
}

} // verus!
