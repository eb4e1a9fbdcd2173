use rlisp::env::LispEnv;
use rlisp::error::LispError;
use rlisp::eval::{eval, eval_list};
use rlisp::expr::{BuiltinOp, LispExpr, LispList};
use rlisp::lexer::tokenize;
use rlisp::parser::tl_parse;
use rlisp::token::Token;

fn list(elems: Vec<LispExpr>) -> LispExpr {
    let mut l = LispList::Nil;
    for e in elems.into_iter().rev() {
        l = LispList::Cons(e, Box::new(l));
    }
    LispExpr::List(Box::new(l))
}

fn sym(s: &str) -> LispExpr {
    LispExpr::Symbol(String::from(s))
}

fn num(n: u64) -> LispExpr {
    LispExpr::Number(n)
}

fn scope(bindings: Vec<(&str, LispExpr)>) -> Vec<(String, LispExpr)> {
    bindings.into_iter().map(|(k, v)| (String::from(k), v)).collect()
}

#[test]
fn number_evaluates_to_itself() {
    let env = LispEnv::default_env();
    assert_eq!(eval(num(5), env), Ok(num(5)));
    let env = LispEnv::default_env();
    assert_eq!(eval(num(0), env), Ok(num(0)));
    let env = LispEnv::new();
    assert_eq!(eval(num(u64::MAX), env), Ok(num(u64::MAX)));
}

#[test]
fn plus_adds_two_numbers() {
    let env = LispEnv::default_env();
    let e = list(vec![sym("+"), num(2), num(3)]);
    assert_eq!(eval(e, env), Ok(num(5)));
}

#[test]
fn plus_is_variadic_and_folds_from_zero() {
    let env = LispEnv::default_env();
    assert_eq!(eval(list(vec![sym("+")]), env), Ok(num(0)));
    let env = LispEnv::default_env();
    let e = list(vec![sym("+"), num(1), num(2), num(3), num(4)]);
    assert_eq!(eval(e, env), Ok(num(10)));
}

#[test]
fn minus_subtracts_two_numbers() {
    let env = LispEnv::default_env();
    let e = list(vec![sym("-"), num(5), num(2)]);
    assert_eq!(eval(e, env), Ok(num(3)));
}

#[test]
fn minus_with_one_argument_is_an_arity_error() {
    let env = LispEnv::default_env();
    let e = list(vec![sym("-"), num(5)]);
    assert_eq!(
        eval(e, env),
        Err(LispError::ArityMismatch(String::from("-"), 2, 1))
    );
}

#[test]
fn minus_with_three_arguments_is_an_arity_error() {
    let env = LispEnv::default_env();
    let e = list(vec![sym("-"), num(5), num(2), num(1)]);
    assert_eq!(
        eval(e, env),
        Err(LispError::ArityMismatch(String::from("-"), 2, 3))
    );
}

#[test]
fn unbound_symbol_is_not_found() {
    let env = LispEnv::default_env();
    assert_eq!(
        eval(sym("undefined_name"), env),
        Err(LispError::SymbolNotFound(String::from("undefined_name")))
    );
}

#[test]
fn lambda_form_builds_a_procedure_value() {
    let env = LispEnv::default_env();
    let e = list(vec![sym("lambda"), list(vec![sym("x")]), sym("x")]);
    assert_eq!(
        eval(e, env),
        Ok(LispExpr::Lambda(
            vec![String::from("x")],
            Box::new(sym("x"))
        ))
    );
}

#[test]
fn parse_then_evaluate_nested_arithmetic() {
    let env = LispEnv::default_env();
    let e = tl_parse("(+ 1 (- 4 2))").unwrap();
    assert_eq!(eval(e, env), Ok(num(3)));
}

#[test]
fn unbalanced_open_is_expected_list_closing() {
    assert_eq!(tl_parse("(+ 1 2"), Err(LispError::ExpectedListClosing));
}

#[test]
fn bare_close_is_unexpected_list_closing() {
    assert_eq!(tl_parse(")"), Err(LispError::UnexpectedListClosing));
}

#[test]
fn inner_scope_shadows_outer_scope() {
    let root = LispEnv {
        this: scope(vec![("x", num(2))]),
        parent: None,
    };
    let env = LispEnv {
        this: scope(vec![("x", num(1))]),
        parent: Some(Box::new(root)),
    };
    assert_eq!(env.lookup(String::from("x")), Ok(num(1)));
}

#[test]
fn lookup_walks_to_the_outer_scope() {
    let root = LispEnv {
        this: scope(vec![("y", num(7))]),
        parent: None,
    };
    let env = LispEnv {
        this: scope(vec![("x", num(1))]),
        parent: Some(Box::new(root)),
    };
    assert_eq!(env.lookup(String::from("y")), Ok(num(7)));
}

#[test]
fn lookup_in_a_fresh_environment_fails() {
    let env = LispEnv::new();
    assert_eq!(
        env.lookup(String::from("x")),
        Err(LispError::SymbolNotFound(String::from("x")))
    );
}

#[test]
fn parse_round_trip_keeps_the_structure() {
    let e = tl_parse("(+ 1 (- 4 2))").unwrap();
    let text = e.to_code();
    assert_eq!(text, String::from("(+ 1 (- 4 2))"));
    assert_eq!(tl_parse(&text), Ok(e));
}

#[test]
fn round_trip_drops_extra_whitespace_only() {
    let e = tl_parse("  ( +   1 ( - 4   2 ) )  ").unwrap();
    assert_eq!(e.to_code(), String::from("(+ 1 (- 4 2))"));
    assert_eq!(tl_parse(&e.to_code()), Ok(e));
}

#[test]
fn empty_input_parses_to_the_empty_list() {
    assert_eq!(tl_parse(""), Ok(LispExpr::List(Box::new(LispList::Nil))));
}

#[test]
fn empty_list_evaluates_to_itself() {
    let env = LispEnv::default_env();
    let e = tl_parse("()").unwrap();
    assert_eq!(eval(e, env), Ok(list(vec![])));
}

#[test]
fn trailing_tokens_are_an_error() {
    assert_eq!(tl_parse("1 2"), Err(LispError::TrailingInput));
    assert_eq!(tl_parse("(+ 1 2) )"), Err(LispError::TrailingInput));
}

#[test]
fn string_literals_are_rejected_by_the_parser() {
    assert_eq!(tl_parse("\"abc\""), Err(LispError::UnsupportedToken));
}

#[test]
fn unterminated_string_is_a_lexical_error() {
    assert_eq!(tokenize("\"abc"), Err(LispError::UnterminatedString));
    assert_eq!(tokenize("'abc\\"), Err(LispError::UnterminatedString));
}

#[test]
fn string_escapes_are_decoded() {
    let ts = tokenize("\"a\\\"b\"").unwrap();
    assert_eq!(ts, vec![Token::StrLit(String::from("a\"b"))]);
}

#[test]
fn oversized_number_literal_is_an_error() {
    assert_eq!(
        tl_parse("99999999999999999999999999"),
        Err(LispError::NumberTooLarge)
    );
    assert_eq!(tl_parse("18446744073709551615"), Ok(num(u64::MAX)));
}

#[test]
fn tokenizer_splits_delimiters_numbers_and_symbols() {
    let ts = tokenize(" (+ 12 abc) ").unwrap();
    assert_eq!(
        ts,
        vec![
            Token::LOpen,
            Token::Symbol(String::from("+")),
            Token::Number(12),
            Token::Symbol(String::from("abc")),
            Token::LClose,
        ]
    );
}

#[test]
fn calling_a_lambda_binds_its_parameters() {
    let lam = LispExpr::Lambda(vec![String::from("x")], Box::new(sym("x")));
    let env = LispEnv {
        this: scope(vec![("f", lam)]),
        parent: Some(Box::new(LispEnv::default_env())),
    };
    let e = list(vec![sym("f"), num(7)]);
    assert_eq!(eval(e, env), Ok(num(7)));
}

#[test]
fn lambda_body_sees_the_surrounding_bindings() {
    let lam = LispExpr::Lambda(
        vec![String::from("x")],
        Box::new(list(vec![sym("+"), sym("x"), sym("y")])),
    );
    let env = LispEnv {
        this: scope(vec![("f", lam), ("y", num(10))]),
        parent: Some(Box::new(LispEnv::default_env())),
    };
    let e = list(vec![sym("f"), num(7)]);
    assert_eq!(eval(e, env), Ok(num(17)));
}

#[test]
fn lambda_parameter_shadows_outer_binding() {
    let lam = LispExpr::Lambda(vec![String::from("x")], Box::new(sym("x")));
    let env = LispEnv {
        this: scope(vec![("f", lam), ("x", num(1))]),
        parent: Some(Box::new(LispEnv::default_env())),
    };
    let e = list(vec![sym("f"), num(42)]);
    assert_eq!(eval(e, env), Ok(num(42)));
}

#[test]
fn repeated_parameter_keeps_the_last_argument() {
    let lam = LispExpr::Lambda(
        vec![String::from("x"), String::from("x")],
        Box::new(sym("x")),
    );
    let env = LispEnv {
        this: scope(vec![("f", lam)]),
        parent: Some(Box::new(LispEnv::default_env())),
    };
    let e = list(vec![sym("f"), num(1), num(2)]);
    assert_eq!(eval(e, env), Ok(num(2)));
}

#[test]
fn lambda_call_with_wrong_arity_is_an_error() {
    let lam = LispExpr::Lambda(vec![String::from("x")], Box::new(sym("x")));
    let env = LispEnv {
        this: scope(vec![("f", lam)]),
        parent: Some(Box::new(LispEnv::default_env())),
    };
    let e = list(vec![sym("f"), num(1), num(2)]);
    assert_eq!(
        eval(e, env),
        Err(LispError::ArityMismatch(String::from("f"), 1, 2))
    );
}

#[test]
fn unbounded_recursion_hits_the_depth_limit() {
    let lam = LispExpr::Lambda(vec![], Box::new(list(vec![sym("f")])));
    let env = LispEnv {
        this: scope(vec![("f", lam)]),
        parent: Some(Box::new(LispEnv::default_env())),
    };
    let e = list(vec![sym("f")]);
    assert_eq!(eval(e, env), Err(LispError::CallDepthExceeded));
}

#[test]
fn plus_rejects_a_non_number_argument() {
    let env = LispEnv::default_env();
    let e = tl_parse("(+ 1 ())").unwrap();
    assert_eq!(eval(e, env), Err(LispError::NotANumber(String::from("+"))));
}

#[test]
fn plus_overflow_is_reported() {
    let env = LispEnv::default_env();
    let e = list(vec![sym("+"), num(u64::MAX), num(1)]);
    assert_eq!(
        eval(e, env),
        Err(LispError::ArithmeticOverflow(String::from("+")))
    );
}

#[test]
fn minus_below_zero_is_reported() {
    let env = LispEnv::default_env();
    let e = tl_parse("(- 2 5)").unwrap();
    assert_eq!(
        eval(e, env),
        Err(LispError::ArithmeticOverflow(String::from("-")))
    );
}

#[test]
fn non_symbol_lambda_parameter_is_an_error() {
    let env = LispEnv::default_env();
    let e = tl_parse("(lambda (1) x)").unwrap();
    assert_eq!(eval(e, env), Err(LispError::ParameterNotSymbol));
}

#[test]
fn lambda_form_arity_is_checked() {
    let env = LispEnv::default_env();
    let e = tl_parse("(lambda (x))").unwrap();
    assert_eq!(
        eval(e, env),
        Err(LispError::ArityMismatch(String::from("lambda"), 2, 1))
    );
}

#[test]
fn a_number_head_is_not_a_procedure() {
    let env = LispEnv::default_env();
    let e = tl_parse("(1 2)").unwrap();
    assert_eq!(eval(e, env), Err(LispError::NotAProcedure));
}

#[test]
fn a_list_head_is_not_a_procedure() {
    let env = LispEnv::default_env();
    let e = tl_parse("((lambda (x) x) 5)").unwrap();
    assert_eq!(eval(e, env), Err(LispError::NotAProcedure));
}

#[test]
fn a_bound_non_procedure_head_is_rejected() {
    let env = LispEnv {
        this: scope(vec![("x", num(3))]),
        parent: Some(Box::new(LispEnv::default_env())),
    };
    let e = list(vec![sym("x"), num(1)]);
    assert_eq!(eval(e, env), Err(LispError::NotAProcedure));
}

#[test]
fn eval_list_matches_eval_on_list_expressions() {
    let env = LispEnv::default_env();
    let inner = match tl_parse("(+ 2 3)").unwrap() {
        LispExpr::List(l) => *l,
        _ => panic!("expected a list"),
    };
    assert_eq!(eval_list(inner, env), Ok(num(5)));
}

#[test]
fn error_reasons_are_rendered() {
    assert_eq!(
        LispError::SymbolNotFound(String::from("zip")).reason(),
        String::from("Symbol not found zip")
    );
    assert_eq!(
        LispError::ArityMismatch(String::from("-"), 2, 310).reason(),
        String::from("Wrong number of arguments for -: expected 2, got 310")
    );
    assert_eq!(
        LispError::ExpectedListClosing.reason(),
        String::from("Expected list closing")
    );
    assert_eq!(
        LispError::UnexpectedListClosing.reason(),
        String::from("Unexpected list closing")
    );
    assert_eq!(
        LispError::TrailingInput.reason(),
        String::from("Failed to parse all of input")
    );
}

#[test]
fn numbers_render_in_decimal() {
    assert_eq!(num(0).to_code(), String::from("0"));
    assert_eq!(num(10).to_code(), String::from("10"));
    assert_eq!(num(9876543210).to_code(), String::from("9876543210"));
}

#[test]
fn lambdas_and_builtins_render_as_source() {
    let lam = LispExpr::Lambda(
        vec![String::from("x"), String::from("y")],
        Box::new(sym("x")),
    );
    assert_eq!(lam.to_code(), String::from("(lambda (x y) x)"));
    assert_eq!(
        LispExpr::Builtin(BuiltinOp::Plus).to_code(),
        String::from("+")
    );
}

#[test]
fn deep_clone_copies_the_whole_tree() {
    let e = tl_parse("(+ 1 (- 4 2))").unwrap();
    assert_eq!(e.deep_clone(), e);
    let env = LispEnv::default_env();
    let copy = env.deep_clone();
    assert_eq!(copy.lookup(String::from("nope")), env.lookup(String::from("nope")));
}

#[test]
fn list_length_counts_elements() {
    let l = match list(vec![num(1), num(2), num(3)]) {
        LispExpr::List(l) => *l,
        _ => panic!("expected a list"),
    };
    assert_eq!(l.length(), 3);
    assert_eq!(LispList::Nil.length(), 0);
}

#[test]
fn symbols_may_contain_digits_after_the_first_character() {
    let ts = tokenize("a1b 1ab").unwrap();
    assert_eq!(
        ts,
        vec![
            Token::Symbol(String::from("a1b")),
            Token::Number(1),
            Token::Symbol(String::from("ab")),
        ]
    );
}

#[test]
fn symbol_heavy_source_round_trips() {
    let e = tl_parse("(foo bar12 (baz) qux)").unwrap();
    assert_eq!(e.to_code(), String::from("(foo bar12 (baz) qux)"));
    assert_eq!(tl_parse(&e.to_code()), Ok(e));
}

#[test]
fn nested_empty_lists_round_trip() {
    let e = tl_parse("(() (()))").unwrap();
    assert_eq!(e.to_code(), String::from("(() (()))"));
    assert_eq!(tl_parse(&e.to_code()), Ok(e));
}
