//! The laws of the library: what evaluation returns on whole families of
//! inputs, and that parsing inverts serialization on the structures the
//! parser itself produces.

use vstd::prelude::*;

use crate::env::{default_scope, lookup_model};
use crate::error::ErrorModel;
use crate::eval::{
    all_numbers, all_symbols, count_u64, spec_eval, spec_eval_args, sum_numbers, symbol_names,
};
use crate::expr::{BuiltinOp, ExprModel};
use crate::lexer::{
    is_digit_char, is_sym_break, is_ws, lemma_next_token_bounds, lemma_num_end_run,
    lemma_skip_ws_bounds, lemma_sym_end_run, lemma_sym_run_chars, num_val, spec_next_token,
    spec_tokenize,
};
use crate::parser::{parse_fuel, spec_parse, spec_parse_list, spec_tl_parse};
use crate::render::{dec_digits, digit_char, spec_render, spec_render_items};
use crate::token::TokenModel;
use vstd::arithmetic::div_mod::lemma_fundamental_div_mod;

verus! {

broadcast use vstd::string::group_string_axioms;

/// A number evaluates to itself, in every environment and with any
/// budget.
pub proof fn lemma_eval_number(fuel: nat, n: u64, env: Seq<Map<Seq<char>, ExprModel>>)
    ensures
        spec_eval(fuel, ExprModel::Number(n), env) == Result::<ExprModel, ErrorModel>::Ok(
            ExprModel::Number(n),
        ),
{
}

/// The base environment binds exactly `+`, `-` and `lambda`, each to its
/// built-in procedure.
pub proof fn lemma_default_bindings()
    ensures
        lookup_model(seq![default_scope()], "+"@) == Option::Some(
            ExprModel::Builtin(BuiltinOp::Plus),
        ),
        lookup_model(seq![default_scope()], "-"@) == Option::Some(
            ExprModel::Builtin(BuiltinOp::Minus),
        ),
        lookup_model(seq![default_scope()], "lambda"@) == Option::Some(
            ExprModel::Builtin(BuiltinOp::LambdaForm),
        ),
        forall|s: Seq<char>|
            s != "+"@ && s != "-"@ && s != "lambda"@ ==> lookup_model(
                seq![default_scope()],
                s,
            ) is None,
{
    reveal_strlit("+");
    reveal_strlit("-");
    reveal_strlit("lambda");
    assert("+"@.len() == 1 && "-"@.len() == 1 && "lambda"@.len() == 6);
    assert("+"@[0] == '+' && "-"@[0] == '-');
    assert forall|s: Seq<char>|
        s != "+"@ && s != "-"@ && s != "lambda"@ implies lookup_model(
        seq![default_scope()],
        s,
    ) is None by {
        let env = seq![default_scope()];
        assert(env[0] == default_scope());
        assert(!env[0].dom().contains(s));
        let tail = env.subrange(1, env.len() as int);
        assert(tail =~= Seq::<Map<Seq<char>, ExprModel>>::empty());
        assert(lookup_model(tail, s) is None);
        assert(lookup_model(env, s) is None);
    }
}

/// A symbol the base environment does not bind evaluates to a
/// symbol-not-found error naming it.
pub proof fn lemma_unbound_symbol(fuel: nat, s: Seq<char>)
    requires
        s != "+"@ && s != "-"@ && s != "lambda"@,
    ensures
        spec_eval(fuel, ExprModel::Symbol(s), seq![default_scope()]) == Result::<
            ExprModel,
            ErrorModel,
        >::Err(ErrorModel::SymbolNotFound(s)),
{
    lemma_default_bindings();
}

/// Number literals passed as arguments evaluate to themselves, in order.
pub proof fn lemma_eval_args_literals(
    fuel: nat,
    es: Seq<ExprModel>,
    env: Seq<Map<Seq<char>, ExprModel>>,
)
    requires
        all_numbers(es),
    ensures
        spec_eval_args(fuel, es, env) == Result::<Seq<ExprModel>, ErrorModel>::Ok(es),
    decreases es.len(),
{
    if es.len() > 0 {
        assert(es[0] is Number);
        assert(spec_eval(fuel, es[0], env) == Result::<ExprModel, ErrorModel>::Ok(es[0]));
        lemma_eval_args_literals(fuel, es.subrange(1, es.len() as int), env);
        assert(seq![es[0]] + es.subrange(1, es.len() as int) =~= es);
        assert(spec_eval_args(fuel, es, env) == Result::<Seq<ExprModel>, ErrorModel>::Ok(
            seq![es[0]] + es.subrange(1, es.len() as int),
        ));
    } else {
        assert(es =~= Seq::<ExprModel>::empty());
    }
}

/// Applying `+` to number literals yields their sum, whenever the
/// environment binds `+` to its built-in and the sum fits in 64 bits.
pub proof fn lemma_plus_literals(
    fuel: nat,
    args: Seq<ExprModel>,
    env: Seq<Map<Seq<char>, ExprModel>>,
)
    requires
        lookup_model(env, "+"@) == Option::Some(ExprModel::Builtin(BuiltinOp::Plus)),
        all_numbers(args),
        sum_numbers(args) <= u64::MAX,
    ensures
        spec_eval(fuel, ExprModel::List(seq![ExprModel::Symbol("+"@)] + args), env) == Result::<
            ExprModel,
            ErrorModel,
        >::Ok(ExprModel::Number(sum_numbers(args) as u64)),
{
    let items = seq![ExprModel::Symbol("+"@)] + args;
    assert(items[0] == ExprModel::Symbol("+"@));
    assert(items.subrange(1, items.len() as int) =~= args);
    lemma_eval_args_literals(fuel, args, env);
}

/// Applying `-` to two number literals yields their difference, whenever
/// the environment binds `-` to its built-in and the difference is not
/// negative.
pub proof fn lemma_minus_literals(fuel: nat, a: u64, b: u64, env: Seq<Map<Seq<char>, ExprModel>>)
    requires
        lookup_model(env, "-"@) == Option::Some(ExprModel::Builtin(BuiltinOp::Minus)),
        a >= b,
    ensures
        spec_eval(
            fuel,
            ExprModel::List(
                seq![ExprModel::Symbol("-"@), ExprModel::Number(a), ExprModel::Number(b)],
            ),
            env,
        ) == Result::<ExprModel, ErrorModel>::Ok(ExprModel::Number((a - b) as u64)),
{
    let items = seq![ExprModel::Symbol("-"@), ExprModel::Number(a), ExprModel::Number(b)];
    let args = items.subrange(1, items.len() as int);
    assert(all_numbers(args));
    lemma_eval_args_literals(fuel, args, env);
    assert(args[0] == ExprModel::Number(a));
    assert(args[1] == ExprModel::Number(b));
}

/// Applying `-` to any number of arguments other than two is an arity
/// error naming `-`, the expected count and the actual count, whatever
/// the arguments are.
pub proof fn lemma_minus_arity(fuel: nat, args: Seq<ExprModel>, env: Seq<Map<Seq<char>, ExprModel>>)
    requires
        lookup_model(env, "-"@) == Option::Some(ExprModel::Builtin(BuiltinOp::Minus)),
        args.len() != 2,
    ensures
        spec_eval(fuel, ExprModel::List(seq![ExprModel::Symbol("-"@)] + args), env) == Result::<
            ExprModel,
            ErrorModel,
        >::Err(ErrorModel::ArityMismatch("-"@, 2, count_u64(args.len()))),
{
    let items = seq![ExprModel::Symbol("-"@)] + args;
    assert(items[0] == ExprModel::Symbol("-"@));
    assert(items.len() - 1 == args.len());
}

/// A `lambda` form evaluates to the lambda value of its parameter names
/// and its unevaluated body, whenever the environment binds `lambda` to
/// its built-in and every parameter is a symbol.
pub proof fn lemma_lambda_form(
    fuel: nat,
    ps: Seq<ExprModel>,
    body: ExprModel,
    env: Seq<Map<Seq<char>, ExprModel>>,
)
    requires
        lookup_model(env, "lambda"@) == Option::Some(ExprModel::Builtin(BuiltinOp::LambdaForm)),
        all_symbols(ps),
    ensures
        spec_eval(
            fuel,
            ExprModel::List(seq![ExprModel::Symbol("lambda"@), ExprModel::List(ps), body]),
            env,
        ) == Result::<ExprModel, ErrorModel>::Ok(
            ExprModel::Lambda(symbol_names(ps), Box::new(body)),
        ),
{
    let items = seq![ExprModel::Symbol("lambda"@), ExprModel::List(ps), body];
    assert(items[0] == ExprModel::Symbol("lambda"@));
    assert(items[1] == ExprModel::List(ps));
    assert(items[2] == body);
    assert(items.len() - 1 == 2);
}

/// The shapes the parser can produce: symbols, numbers and lists of such
/// shapes. Lambdas and built-ins are made by evaluation, never by the
/// parser.
pub open spec fn parsed_form(e: ExprModel) -> bool
    decreases e, 0int,
{
    match e {
        ExprModel::Symbol(_) => true,
        ExprModel::Number(_) => true,
        ExprModel::List(items) => parsed_list(items),
        _ => false,
    }
}

/// Every element has a shape the parser can produce.
pub open spec fn parsed_list(items: Seq<ExprModel>) -> bool
    decreases items, 1int,
{
    if items.len() == 0 {
        true
    } else {
        parsed_form(items[0]) && parsed_list(items.subrange(1, items.len() as int))
    }
}

/// The token sequence whose parse is the expression.
pub open spec fn tokens_of(e: ExprModel) -> Seq<TokenModel>
    decreases e, 0int,
{
    match e {
        ExprModel::Symbol(s) => seq![TokenModel::Symbol(s)],
        ExprModel::Number(n) => seq![TokenModel::Number(n)],
        ExprModel::List(items) => seq![TokenModel::LOpen] + tokens_of_list(items),
        _ => Seq::empty(),
    }
}

/// The tokens of the elements of a list, closed by the closing delimiter.
pub open spec fn tokens_of_list(items: Seq<ExprModel>) -> Seq<TokenModel>
    decreases items, 1int,
{
    if items.len() == 0 {
        seq![TokenModel::LClose]
    } else {
        tokens_of(items[0]) + tokens_of_list(items.subrange(1, items.len() as int))
    }
}

/// A parseable expression has at least one token.
pub proof fn lemma_tokens_of_len(e: ExprModel)
    requires
        parsed_form(e),
    ensures
        tokens_of(e).len() >= 1,
{
}

/// The tokens of a list's elements always include the closing delimiter.
pub proof fn lemma_tokens_of_list_len(items: Seq<ExprModel>)
    ensures
        tokens_of_list(items).len() >= 1,
    decreases items.len(),
{
    if items.len() > 0 {
        lemma_tokens_of_list_len(items.subrange(1, items.len() as int));
    }
}

/// Parsing the tokens of a parseable expression, wherever they stand in
/// a longer sequence, succeeds with exactly that expression and consumes
/// exactly its tokens, given budget beyond the token count.
pub proof fn lemma_parse_tokens_of(e: ExprModel, ts: Seq<TokenModel>, i: int, fuel: nat)
    requires
        parsed_form(e),
        0 <= i,
        i + tokens_of(e).len() <= ts.len(),
        ts.subrange(i, i + tokens_of(e).len()) == tokens_of(e),
        fuel >= tokens_of(e).len() + 1,
    ensures
        spec_parse(fuel, ts, i) == Option::Some(
            Result::<(ExprModel, int), ErrorModel>::Ok((e, i + tokens_of(e).len())),
        ),
    decreases e, 0int,
{
    let t = tokens_of(e);
    match e {
        ExprModel::Symbol(s) => {
            assert(ts.subrange(i, i + t.len() as int)[0] == t[0]);
            assert(ts[i] == TokenModel::Symbol(s));
        },
        ExprModel::Number(n) => {
            assert(ts.subrange(i, i + t.len() as int)[0] == t[0]);
            assert(ts[i] == TokenModel::Number(n));
        },
        ExprModel::List(items) => {
            let tl = tokens_of_list(items);
            lemma_tokens_of_list_len(items);
            assert(t =~= seq![TokenModel::LOpen] + tl);
            assert(ts.subrange(i, i + t.len() as int)[0] == t[0]);
            assert(ts[i] == TokenModel::LOpen);
            assert(ts.subrange(i + 1, i + 1 + tl.len() as int) =~= tl) by {
                assert forall|m: int| 0 <= m < tl.len() implies ts.subrange(
                    i + 1,
                    i + 1 + tl.len() as int,
                )[m] == tl[m] by {
                    assert(ts.subrange(i, i + t.len() as int)[m + 1] == t[m + 1]);
                }
            }
            lemma_parse_tokens_of_list(items, ts, i + 1, (fuel - 1) as nat);
        },
        _ => {},
    }
}

/// As [`lemma_parse_tokens_of`], for the elements of a list up to and
/// including its closing delimiter.
pub proof fn lemma_parse_tokens_of_list(items: Seq<ExprModel>, ts: Seq<TokenModel>, i: int, fuel: nat)
    requires
        parsed_list(items),
        0 <= i,
        i + tokens_of_list(items).len() <= ts.len(),
        ts.subrange(i, i + tokens_of_list(items).len()) == tokens_of_list(items),
        fuel >= tokens_of_list(items).len(),
    ensures
        spec_parse_list(fuel, ts, i) == Option::Some(
            Result::<(Seq<ExprModel>, int), ErrorModel>::Ok(
                (items, i + tokens_of_list(items).len()),
            ),
        ),
    decreases items, 1int,
{
    let tl = tokens_of_list(items);
    lemma_tokens_of_list_len(items);
    assert(ts.subrange(i, i + tl.len() as int)[0] == tl[0]);
    assert(ts[i] == tl[0]);
    if items.len() == 0 {
        assert(ts[i] == TokenModel::LClose);
        assert(items =~= Seq::<ExprModel>::empty());
    } else {
        let head = items[0];
        let rest = items.subrange(1, items.len() as int);
        let th = tokens_of(head);
        let tr = tokens_of_list(rest);
        lemma_tokens_of_len(head);
        lemma_tokens_of_list_len(rest);
        assert(tl =~= th + tr);
        assert(ts[i] == th[0]);
        assert(!(ts[i] is LClose)) by {
            match head {
                ExprModel::Symbol(_) => {
                    assert(th[0] == TokenModel::Symbol(head->Symbol_0));
                },
                ExprModel::Number(_) => {},
                ExprModel::List(_) => {},
                _ => {},
            }
        }
        assert(ts.subrange(i, i + th.len() as int) =~= th) by {
            assert forall|m: int| 0 <= m < th.len() implies ts.subrange(i, i + th.len() as int)[m]
                == th[m] by {
                assert(ts.subrange(i, i + tl.len() as int)[m] == tl[m]);
            }
        }
        lemma_parse_tokens_of(head, ts, i, fuel);
        let j = i + th.len() as int;
        assert(tl.len() == th.len() + tr.len());
        assert(ts.subrange(j, j + tr.len() as int) =~= tr) by {
            assert forall|m: int| 0 <= m < tr.len() implies ts.subrange(j, j + tr.len() as int)[m]
                == tr[m] by {
                assert(ts.subrange(i, i + tl.len() as int)[th.len() + m] == tl[th.len() + m]);
            }
        }
        lemma_parse_tokens_of_list(rest, ts, j, (fuel - 1) as nat);
        assert(seq![head] + rest =~= items);
    }
}

/// Parsing inverts serialization to tokens: the tokens of a parseable
/// expression parse back to exactly that expression, consuming them all.
pub proof fn lemma_parse_round_trip(e: ExprModel)
    requires
        parsed_form(e),
    ensures
        spec_parse(parse_fuel(tokens_of(e), 0), tokens_of(e), 0) == Option::Some(
            Result::<(ExprModel, int), ErrorModel>::Ok((e, tokens_of(e).len() as int)),
        ),
{
    let ts = tokens_of(e);
    assert(ts.subrange(0, ts.len() as int) =~= ts);
    lemma_parse_tokens_of(e, ts, 0, parse_fuel(ts, 0));
}

/// Whatever the parser produces has a shape it can produce: a successful
/// parse yields a parseable expression.
pub proof fn lemma_parse_yields_parsed_form(fuel: nat, ts: Seq<TokenModel>, i: int)
    ensures
        match spec_parse(fuel, ts, i) {
            Option::Some(Result::Ok((e, _))) => parsed_form(e),
            _ => true,
        },
    decreases fuel, 0int,
{
    if fuel > 0 && i < ts.len() {
        if ts[i] is LOpen {
            lemma_parse_list_yields_parsed_form((fuel - 1) as nat, ts, i + 1);
        }
    }
}

/// As [`lemma_parse_yields_parsed_form`], for the elements of a list.
pub proof fn lemma_parse_list_yields_parsed_form(fuel: nat, ts: Seq<TokenModel>, i: int)
    ensures
        match spec_parse_list(fuel, ts, i) {
            Option::Some(Result::Ok((items, _))) => parsed_list(items),
            _ => true,
        },
    decreases fuel, 1int,
{
    if fuel > 0 && i < ts.len() && !(ts[i] is LClose) {
        lemma_parse_yields_parsed_form(fuel, ts, i);
        if let Option::Some(Result::Ok((e, j))) = spec_parse(fuel, ts, i) {
            lemma_parse_list_yields_parsed_form((fuel - 1) as nat, ts, j);
            if let Option::Some(Result::Ok((items, _))) = spec_parse_list((fuel - 1) as nat, ts, j) {
                assert((seq![e] + items).subrange(1, (seq![e] + items).len() as int) =~= items);
                assert((seq![e] + items)[0] == e);
            }
        }
    }
}

/// An expression whose textual form the tokenizer reads back exactly:
/// every symbol in it is non-empty, starts with something other than a
/// digit, and contains no whitespace or delimiter; and the expression
/// has a shape the parser can produce.
pub open spec fn render_wf(e: ExprModel) -> bool
    decreases e, 0int,
{
    match e {
        ExprModel::Symbol(s) => wf_symbol_name(s),
        ExprModel::Number(_) => true,
        ExprModel::List(items) => render_wf_list(items),
        _ => false,
    }
}

/// A symbol name the tokenizer reads back exactly: non-empty, not
/// starting with a digit, free of whitespace and delimiters.
pub open spec fn wf_symbol_name(name: Seq<char>) -> bool {
    name.len() >= 1 && !is_digit_char(name[0]) && (forall|k: int|
        0 <= k < name.len() ==> !is_sym_break(name[k]))
}

/// A token whose symbol payload, if any, the tokenizer reads back
/// exactly.
pub open spec fn wf_token(t: TokenModel) -> bool {
    match t {
        TokenModel::Symbol(name) => wf_symbol_name(name),
        _ => true,
    }
}

/// Every symbol token the tokenizer produces has a well-formed name.
pub proof fn lemma_tokenize_symbols_wf(s: Seq<char>, i: int)
    requires
        0 <= i <= s.len(),
    ensures
        match spec_tokenize(s, i) {
            Result::Ok(ts) => forall|m: int| 0 <= m < ts.len() ==> wf_token(#[trigger] ts[m]),
            Result::Err(_) => true,
        },
    decreases s.len() - i,
{
    let k = crate::lexer::skip_ws(s, i);
    lemma_skip_ws_bounds(s, i);
    lemma_next_token_bounds(s, k);
    if let Result::Ok((t, j)) = spec_next_token(s, k) {
        if !(t is Eof) {
            lemma_tokenize_symbols_wf(s, j);
            assert(wf_token(t)) by {
                if k < s.len() && s[k] != '(' && s[k] != ')' && s[k] != '"' && s[k] != '\''
                    && !is_digit_char(s[k]) {
                    assert(!is_sym_break(s[k]));
                    lemma_sym_run_chars(s, k);
                    let e = crate::lexer::sym_end(s, k);
                    let name = s.subrange(k, e);
                    assert(e > k);
                    assert(name[0] == s[k]);
                    assert forall|m: int| 0 <= m < name.len() implies !is_sym_break(name[m]) by {
                        assert(name[m] == s[k + m]);
                    }
                }
            }
            if let Result::Ok(rest) = spec_tokenize(s, j) {
                assert forall|m: int| 0 <= m < (seq![t] + rest).len() implies wf_token(
                    #[trigger] (seq![t] + rest)[m],
                ) by {
                    if m == 0 {
                        assert((seq![t] + rest)[0] == t);
                    } else {
                        assert((seq![t] + rest)[m] == rest[m - 1]);
                    }
                }
            }
        }
    }
}

/// Whatever the parser builds from well-formed tokens is well-rendered.
pub proof fn lemma_parse_symbols_wf(fuel: nat, ts: Seq<TokenModel>, i: int)
    requires
        0 <= i,
        forall|m: int| 0 <= m < ts.len() ==> wf_token(#[trigger] ts[m]),
    ensures
        match spec_parse(fuel, ts, i) {
            Option::Some(Result::Ok((e, j))) => render_wf(e) && j >= i,
            _ => true,
        },
    decreases fuel, 0int,
{
    if fuel > 0 && i < ts.len() {
        if ts[i] is LOpen {
            lemma_parse_list_symbols_wf((fuel - 1) as nat, ts, i + 1);
        }
        assert(wf_token(ts[i]));
    }
}

/// As [`lemma_parse_symbols_wf`], for the elements of a list.
pub proof fn lemma_parse_list_symbols_wf(fuel: nat, ts: Seq<TokenModel>, i: int)
    requires
        0 <= i,
        forall|m: int| 0 <= m < ts.len() ==> wf_token(#[trigger] ts[m]),
    ensures
        match spec_parse_list(fuel, ts, i) {
            Option::Some(Result::Ok((items, j))) => render_wf_list(items) && j >= i,
            _ => true,
        },
    decreases fuel, 1int,
{
    if fuel > 0 && i < ts.len() && !(ts[i] is LClose) {
        lemma_parse_symbols_wf(fuel, ts, i);
        if let Option::Some(Result::Ok((e, j))) = spec_parse(fuel, ts, i) {
            lemma_parse_list_symbols_wf((fuel - 1) as nat, ts, j);
            if let Option::Some(Result::Ok((items, _))) = spec_parse_list((fuel - 1) as nat, ts, j) {
                assert((seq![e] + items).subrange(1, (seq![e] + items).len() as int) =~= items);
                assert((seq![e] + items)[0] == e);
            }
        }
    }
}

/// Every element of the list has a textual form the tokenizer reads
/// back exactly.
pub open spec fn render_wf_list(items: Seq<ExprModel>) -> bool
    decreases items, 1int,
{
    if items.len() == 0 {
        true
    } else {
        render_wf(items[0]) && render_wf_list(items.subrange(1, items.len() as int))
    }
}

/// A well-rendered expression has a shape the parser can produce.
pub proof fn lemma_render_wf_parsed(e: ExprModel)
    requires
        render_wf(e),
    ensures
        parsed_form(e),
    decreases e, 0int,
{
    if let ExprModel::List(items) = e {
        lemma_render_wf_parsed_list(items);
    }
}

/// As [`lemma_render_wf_parsed`], for the elements of a list.
pub proof fn lemma_render_wf_parsed_list(items: Seq<ExprModel>)
    requires
        render_wf_list(items),
    ensures
        parsed_list(items),
    decreases items, 1int,
{
    if items.len() > 0 {
        lemma_render_wf_parsed(items[0]);
        lemma_render_wf_parsed_list(items.subrange(1, items.len() as int));
    }
}

/// The character of a decimal digit is a digit character whose value is
/// the digit.
pub proof fn lemma_digit_char_val(d: nat)
    requires
        d < 10,
    ensures
        is_digit_char(digit_char(d)),
        crate::lexer::digit_val(digit_char(d)) == d,
{
}

/// Every character of a decimal rendering is a digit character.
pub proof fn lemma_dec_digits_are_digits(n: nat)
    ensures
        dec_digits(n).len() >= 1,
        forall|k: int| 0 <= k < dec_digits(n).len() ==> is_digit_char(#[trigger] dec_digits(n)[k]),
    decreases n,
{
    if n < 10 {
        lemma_digit_char_val(n);
    } else {
        assert(n / 10 < n) by (nonlinear_arith)
            requires
                n >= 10,
        ;
        lemma_dec_digits_are_digits(n / 10);
        lemma_digit_char_val(n % 10);
        assert forall|k: int| 0 <= k < dec_digits(n).len() implies is_digit_char(
            #[trigger] dec_digits(n)[k],
        ) by {
            if k < dec_digits(n / 10).len() {
                assert(dec_digits(n)[k] == dec_digits(n / 10)[k]);
            } else {
                assert(dec_digits(n)[k] == digit_char(n % 10));
            }
        }
    }
}

/// Reading the decimal rendering of `n` back as a number yields `n`.
pub proof fn lemma_num_val_of_dec(s: Seq<char>, i: int, n: nat)
    requires
        0 <= i,
        i + dec_digits(n).len() <= s.len(),
        s.subrange(i, i + dec_digits(n).len() as int) == dec_digits(n),
    ensures
        num_val(s, i, i + dec_digits(n).len() as int) == n,
    decreases n,
{
    let d = dec_digits(n);
    let j = i + d.len() as int;
    assert(s.subrange(i, j)[d.len() - 1] == s[j - 1]);
    if n < 10 {
        assert(s[i] == d[0]);
        lemma_digit_char_val(n);
        assert(num_val(s, i, i) == 0);
    } else {
        assert(n / 10 < n) by (nonlinear_arith)
            requires
                n >= 10,
        ;
        let d1 = dec_digits(n / 10);
        assert(d == d1.push(digit_char(n % 10)));
        assert(s.subrange(i, i + d1.len() as int) =~= d1) by {
            assert forall|m: int| 0 <= m < d1.len() implies s.subrange(i, i + d1.len() as int)[m]
                == d1[m] by {
                assert(s.subrange(i, j)[m] == d[m]);
                assert(d[m] == d1[m]);
            }
        }
        lemma_num_val_of_dec(s, i, n / 10);
        assert(s[j - 1] == d[d.len() - 1]);
        assert(d[d.len() - 1] == digit_char(n % 10));
        lemma_digit_char_val(n % 10);
        lemma_fundamental_div_mod(n as int, 10);
    }
}

/// A break character is never a digit, and never whitespace when it is a
/// delimiter; a digit is never whitespace, a delimiter or a quote.
pub proof fn lemma_char_classes(c: char)
    ensures
        is_digit_char(c) ==> !is_ws(c) && c != '(' && c != ')' && c != '"' && c != '\'' && !is_sym_break(c),
        is_sym_break(c) ==> !is_digit_char(c),
{
}

/// Tokenizing from a position that holds the rendering of a
/// well-rendered expression, followed by a break character or the end of
/// the input, reads exactly the tokens of that expression and continues
/// just after the rendering.
pub proof fn lemma_scan_expr(e: ExprModel, s: Seq<char>, i: int)
    requires
        render_wf(e),
        0 <= i,
        i + spec_render(e).len() <= s.len(),
        s.subrange(i, i + spec_render(e).len() as int) == spec_render(e),
        i + spec_render(e).len() == s.len() || is_sym_break(s[i + spec_render(e).len() as int]),
    ensures
        spec_tokenize(s, i) == (match spec_tokenize(s, i + spec_render(e).len() as int) {
            Result::Ok(ts) => Result::<Seq<TokenModel>, ErrorModel>::Ok(tokens_of(e) + ts),
            Result::Err(er) => Result::<Seq<TokenModel>, ErrorModel>::Err(er),
        }),
    decreases e, 0int,
{
    let r = spec_render(e);
    let j = i + r.len() as int;
    assert forall|k: int| 0 <= k < r.len() implies s[i + k] == r[k] by {
        assert(s.subrange(i, j)[k] == r[k]);
    }
    match e {
        ExprModel::Symbol(name) => {
            assert(s[i] == name[0]);
            lemma_char_classes(s[i]);
            assert(!is_ws(s[i]));
            assert(crate::lexer::skip_ws(s, i) == i);
            assert forall|k: int| i <= k < j implies !is_sym_break(s[k]) by {
                assert(s.subrange(i, j)[k - i] == r[k - i]);
                assert(!is_sym_break(name[k - i]));
            }
            lemma_sym_end_run(s, i, j);
            assert(s.subrange(i, j) == name);
            assert(tokens_of(e) =~= seq![TokenModel::Symbol(name)]);
            if let Result::Ok(ts) = spec_tokenize(s, j) {
                assert(seq![TokenModel::Symbol(name)] + ts =~= tokens_of(e) + ts);
            }
        },
        ExprModel::Number(n) => {
            lemma_dec_digits_are_digits(n as nat);
            assert(s[i] == dec_digits(n as nat)[0]);
            assert(is_digit_char(s[i]));
            lemma_char_classes(s[i]);
            assert(crate::lexer::skip_ws(s, i) == i);
            if j < s.len() {
                lemma_char_classes(s[j]);
            }
            assert forall|k: int| i <= k < j implies is_digit_char(s[k]) by {
                assert(s.subrange(i, j)[k - i] == r[k - i]);
            }
            lemma_num_end_run(s, i, j);
            lemma_num_val_of_dec(s, i, n as nat);
            assert(num_val(s, i, j) == n as nat);
            assert(tokens_of(e) =~= seq![TokenModel::Number(n)]);
            if let Result::Ok(ts) = spec_tokenize(s, j) {
                assert(seq![TokenModel::Number(n)] + ts =~= tokens_of(e) + ts);
            }
        },
        ExprModel::List(items) => {
            reveal_strlit("(");
            reveal_strlit(")");
            let ri = spec_render_items(items);
            assert(r =~= "("@ + ri + ")"@);
            assert("("@.len() == 1 && ")"@.len() == 1);
            assert(r.len() == ri.len() + 2);
            assert(s[i] == r[0]);
            assert(("("@ + ri + ")"@)[0] == "("@[0]);
            assert(s[i] == '(');
            assert(crate::lexer::skip_ws(s, i) == i);
            assert(s.subrange(i + 1, i + 1 + ri.len() as int) =~= ri) by {
                assert forall|m: int| 0 <= m < ri.len() implies s.subrange(
                    i + 1,
                    i + 1 + ri.len() as int,
                )[m] == ri[m] by {
                    assert(s[i + 1 + m] == r[m + 1]);
                    assert(r[m + 1] == ri[m]);
                }
            }
            assert(s[j - 1] == r[r.len() - 1]);
            assert(("("@ + ri + ")"@)[r.len() - 1] == ")"@[0]);
            assert(s[j - 1] == ')');
            lemma_scan_items(items, s, i + 1);
            assert(tokens_of(e) =~= seq![TokenModel::LOpen] + tokens_of_list(items));
            if let Result::Ok(ts) = spec_tokenize(s, j) {
                assert(seq![TokenModel::LOpen] + (tokens_of_list(items) + ts) =~= tokens_of(e)
                    + ts);
            }
        },
        _ => {},
    }
}

/// As [`lemma_scan_expr`], for the elements of a list: the rendering of
/// the elements, followed by the closing delimiter, reads back as their
/// tokens including the closing one.
pub proof fn lemma_scan_items(items: Seq<ExprModel>, s: Seq<char>, i: int)
    requires
        render_wf_list(items),
        0 <= i,
        i + spec_render_items(items).len() + 1 <= s.len(),
        s.subrange(i, i + spec_render_items(items).len() as int) == spec_render_items(items),
        s[i + spec_render_items(items).len() as int] == ')',
    ensures
        spec_tokenize(s, i) == (match spec_tokenize(
            s,
            i + spec_render_items(items).len() + 1 as int,
        ) {
            Result::Ok(ts) => Result::<Seq<TokenModel>, ErrorModel>::Ok(tokens_of_list(items) + ts),
            Result::Err(er) => Result::<Seq<TokenModel>, ErrorModel>::Err(er),
        }),
    decreases items, 1int,
{
    let ri = spec_render_items(items);
    let close = i + ri.len() as int;
    assert forall|k: int| 0 <= k < ri.len() implies s[i + k] == ri[k] by {
        assert(s.subrange(i, close)[k] == ri[k]);
    }
    if items.len() == 0 {
        assert(ri.len() == 0);
        assert(s[i] == ')');
        lemma_char_classes(s[i]);
        assert(crate::lexer::skip_ws(s, i) == i);
        assert(tokens_of_list(items) =~= seq![TokenModel::LClose]);
        if let Result::Ok(ts) = spec_tokenize(s, i + 1) {
            assert(seq![TokenModel::LClose] + ts =~= tokens_of_list(items) + ts);
        }
    } else {
        let head = items[0];
        let rest = items.subrange(1, items.len() as int);
        let rh = spec_render(head);
        if items.len() == 1 {
            assert(ri =~= rh);
            assert(s.subrange(i, i + rh.len() as int) =~= rh);
            assert(is_sym_break(s[i + rh.len() as int]));
            lemma_scan_expr(head, s, i);
            let j = i + rh.len() as int;
            assert(s[j] == ')');
            assert(spec_render_items(rest).len() == 0);
            assert(s.subrange(j, j) =~= spec_render_items(rest));
            lemma_scan_items(rest, s, j);
            assert(tokens_of_list(items) =~= tokens_of(head) + tokens_of_list(rest));
            if let Result::Ok(ts) = spec_tokenize(s, j + 1) {
                assert(tokens_of(head) + (tokens_of_list(rest) + ts) =~= tokens_of_list(items)
                    + ts);
            }
        } else {
            reveal_strlit(" ");
            let rr = spec_render_items(rest);
            assert(ri =~= rh + " "@ + rr);
            assert(ri.len() == rh.len() + 1 + rr.len());
            assert(s.subrange(i, i + rh.len() as int) =~= rh) by {
                assert forall|m: int| 0 <= m < rh.len() implies s.subrange(
                    i,
                    i + rh.len() as int,
                )[m] == rh[m] by {
                    assert(s[i + m] == ri[m]);
                    assert(ri[m] == (rh + " "@ + rr)[m]);
                }
            }
            let j = i + rh.len() as int;
            assert(s[j] == ri[rh.len() as int]);
            assert(s[j] == ' ');
            assert(is_sym_break(s[j]));
            lemma_scan_expr(head, s, i);
            assert(crate::lexer::skip_ws(s, j) == crate::lexer::skip_ws(s, j + 1));
            assert(spec_tokenize(s, j) == spec_tokenize(s, j + 1));
            assert(s.subrange(j + 1, j + 1 + rr.len() as int) =~= rr) by {
                assert forall|m: int| 0 <= m < rr.len() implies s.subrange(
                    j + 1,
                    j + 1 + rr.len() as int,
                )[m] == rr[m] by {
                    assert(s[j + 1 + m] == ri[rh.len() + 1 + m]);
                    assert(ri[rh.len() + 1 + m] == (rh + " "@ + rr)[rh.len() + 1 + m]);
                }
            }
            assert(s[j + 1 + rr.len() as int] == ')');
            lemma_scan_items(rest, s, j + 1);
            assert(tokens_of_list(items) =~= tokens_of(head) + tokens_of_list(rest));
            if let Result::Ok(ts) = spec_tokenize(s, j + 1 + rr.len() + 1 as int) {
                assert(tokens_of(head) + (tokens_of_list(rest) + ts) =~= tokens_of_list(items)
                    + ts);
            }
        }
    }
}

/// The full round trip: tokenizing and parsing the textual form of a
/// well-rendered expression yields exactly that expression again.
pub proof fn lemma_render_round_trip(e: ExprModel)
    requires
        render_wf(e),
    ensures
        spec_tl_parse(spec_render(e)) == Result::<ExprModel, ErrorModel>::Ok(e),
{
    let s = spec_render(e);
    assert(s.subrange(0, s.len() as int) =~= s);
    lemma_scan_expr(e, s, 0);
    assert(crate::lexer::skip_ws(s, s.len() as int) == s.len());
    assert(spec_tokenize(s, s.len() as int) == Result::<Seq<TokenModel>, ErrorModel>::Ok(
        Seq::empty(),
    ));
    if let Result::Ok(ts0) = spec_tokenize(s, 0) {
        assert(ts0 =~= tokens_of(e) + Seq::<TokenModel>::empty());
        assert(ts0 =~= tokens_of(e));
    }
    lemma_render_wf_parsed(e);
    lemma_parse_round_trip(e);
}

/// Round trip from any source text: whenever a source line parses, the
/// textual form of the resulting expression parses back to a
/// structurally equal expression.
pub proof fn lemma_source_round_trip(src: Seq<char>)
    ensures
        match spec_tl_parse(src) {
            Result::Ok(e) => spec_tl_parse(spec_render(e)) == Result::<
                ExprModel,
                ErrorModel,
            >::Ok(e),
            Result::Err(_) => true,
        },
{
    if let Result::Ok(e) = spec_tl_parse(src) {
        lemma_tokenize_symbols_wf(src, 0);
        if let Result::Ok(ts) = spec_tokenize(src, 0) {
            lemma_parse_symbols_wf(parse_fuel(ts, 0), ts, 0);
        }
        lemma_render_round_trip(e);
    }
}

} // verus!
