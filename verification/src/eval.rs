//! The evaluator: walks an expression, resolving symbols through the
//! environment, dispatching built-in procedures and invoking lambdas.

use vstd::prelude::*;

use crate::env::{bind_params, lookup_model, scope_insert, scope_model, scope_wf, LispEnv};
use crate::error::{ErrorModel, LispError};
use crate::expr::{BuiltinOp, ExprModel, LispExpr, LispList};
use crate::MAX_CALL_DEPTH;

verus! {

/// A count of arguments or parameters, saturating at the greatest `u64`.
pub open spec fn count_u64(n: nat) -> u64 {
    if n > u64::MAX {
        u64::MAX
    } else {
        n as u64
    }
}

/// The name under which a built-in procedure is reported in errors.
pub open spec fn builtin_name(op: BuiltinOp) -> Seq<char> {
    match op {
        BuiltinOp::Plus => "+"@,
        BuiltinOp::Minus => "-"@,
        BuiltinOp::LambdaForm => "lambda"@,
    }
}

/// Every element is a number value.
pub open spec fn all_numbers(vs: Seq<ExprModel>) -> bool {
    forall|k: int| 0 <= k < vs.len() ==> vs[k] is Number
}

/// The sum of a sequence of number values.
pub open spec fn sum_numbers(vs: Seq<ExprModel>) -> nat
    decreases vs.len(),
{
    if vs.len() == 0 {
        0
    } else {
        sum_numbers(vs.drop_last()) + match vs.last() {
            ExprModel::Number(n) => n as nat,
            _ => 0,
        }
    }
}

/// Every element is a symbol.
pub open spec fn all_symbols(vs: Seq<ExprModel>) -> bool {
    forall|k: int| 0 <= k < vs.len() ==> vs[k] is Symbol
}

/// The names of a sequence of symbols.
pub open spec fn symbol_names(vs: Seq<ExprModel>) -> Seq<Seq<char>> {
    Seq::new(
        vs.len(),
        |k: int|
            match vs[k] {
                ExprModel::Symbol(s) => s,
                _ => Seq::empty(),
            },
    )
}

/// Evaluating an expression with a recursion budget for procedure calls.
///
/// * A number, a lambda, a built-in and the empty list evaluate to
///   themselves.
/// * A symbol evaluates to what the environment binds it to, and to a
///   `SymbolNotFound` error where no scope binds it.
/// * A non-empty list is an application: the head must be a symbol (which
///   is resolved through the environment), a lambda or a built-in; any
///   other head is a `NotAProcedure` error.
pub open spec fn spec_eval(
    fuel: nat,
    e: ExprModel,
    env: Seq<Map<Seq<char>, ExprModel>>,
) -> Result<ExprModel, ErrorModel>
    decreases fuel, e, 0int,
{
    match e {
        ExprModel::Number(_) => Result::Ok(e),
        ExprModel::Lambda(_, _) => Result::Ok(e),
        ExprModel::Builtin(_) => Result::Ok(e),
        ExprModel::Symbol(s) => match lookup_model(env, s) {
            Option::Some(v) => Result::Ok(v),
            Option::None => Result::Err(ErrorModel::SymbolNotFound(s)),
        },
        ExprModel::List(items) => if items.len() == 0 {
            Result::Ok(e)
        } else {
            match items[0] {
                ExprModel::Symbol(name) => match lookup_model(env, name) {
                    Option::None => Result::Err(ErrorModel::SymbolNotFound(name)),
                    Option::Some(f) => spec_apply(fuel, f, name, items, env),
                },
                ExprModel::Lambda(_, _) => spec_apply(fuel, items[0], "lambda"@, items, env),
                ExprModel::Builtin(op) => spec_apply(fuel, items[0], builtin_name(op), items, env),
                _ => Result::Err(ErrorModel::NotAProcedure),
            }
        },
    }
}

/// Applying a resolved head `f` to the application `items` (whose first
/// element is the head expression itself), under the name `name`.
///
/// * `+` is variadic: it evaluates every argument, requires each value to
///   be a number, and folds the sum from zero; a sum beyond 64 bits is an
///   arithmetic overflow error.
/// * `-` requires exactly two arguments, evaluates both, requires both
///   values to be numbers, and subtracts; a negative difference is an
///   arithmetic overflow error.
/// * `lambda` requires exactly two unevaluated arguments: a list of
///   symbols and a body. It builds a lambda value.
/// * A lambda requires as many arguments as it has parameters, evaluates
///   them, binds them in a fresh scope extending the environment of the
///   call, and evaluates its body there, spending one unit of budget.
/// * Any other head value is a `NotAProcedure` error.
pub open spec fn spec_apply(
    fuel: nat,
    f: ExprModel,
    name: Seq<char>,
    items: Seq<ExprModel>,
    env: Seq<Map<Seq<char>, ExprModel>>,
) -> Result<ExprModel, ErrorModel>
    decreases fuel, items, 1int,
{
    let argc = (items.len() - 1) as nat;
    if items.len() == 0 {
        Result::Err(ErrorModel::NotAProcedure)
    } else {
    match f {
        ExprModel::Builtin(BuiltinOp::Plus) => match spec_eval_args(
            fuel,
            items.subrange(1, items.len() as int),
            env,
        ) {
            Result::Err(e) => Result::Err(e),
            Result::Ok(vals) => if !all_numbers(vals) {
                Result::Err(ErrorModel::NotANumber("+"@))
            } else if sum_numbers(vals) > u64::MAX {
                Result::Err(ErrorModel::ArithmeticOverflow("+"@))
            } else {
                Result::Ok(ExprModel::Number(sum_numbers(vals) as u64))
            },
        },
        ExprModel::Builtin(BuiltinOp::Minus) => if argc != 2 {
            Result::Err(ErrorModel::ArityMismatch("-"@, 2, count_u64(argc)))
        } else {
            match spec_eval_args(fuel, items.subrange(1, items.len() as int), env) {
                Result::Err(e) => Result::Err(e),
                Result::Ok(vals) => match vals[0] {
                    ExprModel::Number(a) => match vals[1] {
                        ExprModel::Number(b) => if a >= b {
                            Result::Ok(ExprModel::Number((a - b) as u64))
                        } else {
                            Result::Err(ErrorModel::ArithmeticOverflow("-"@))
                        },
                        _ => Result::Err(ErrorModel::NotANumber("-"@)),
                    },
                    _ => Result::Err(ErrorModel::NotANumber("-"@)),
                },
            }
        },
        ExprModel::Builtin(BuiltinOp::LambdaForm) => if argc != 2 {
            Result::Err(ErrorModel::ArityMismatch("lambda"@, 2, count_u64(argc)))
        } else {
            match items[1] {
                ExprModel::List(ps) => if all_symbols(ps) {
                    Result::Ok(ExprModel::Lambda(symbol_names(ps), Box::new(items[2])))
                } else {
                    Result::Err(ErrorModel::ParameterNotSymbol)
                },
                _ => Result::Err(ErrorModel::ParameterNotSymbol),
            }
        },
        ExprModel::Lambda(ps, body) => if argc != ps.len() {
            Result::Err(ErrorModel::ArityMismatch(name, count_u64(ps.len()), count_u64(argc)))
        } else {
            match spec_eval_args(fuel, items.subrange(1, items.len() as int), env) {
                Result::Err(e) => Result::Err(e),
                Result::Ok(vals) => if fuel == 0 {
                    Result::Err(ErrorModel::CallDepthExceeded)
                } else {
                    spec_eval(
                        (fuel - 1) as nat,
                        *body,
                        seq![bind_params(Map::empty(), ps, vals)] + env,
                    )
                },
            }
        },
        _ => Result::Err(ErrorModel::NotAProcedure),
    }
    }
}

/// Evaluating a sequence of argument expressions, left to right; the
/// first error is the result.
pub open spec fn spec_eval_args(
    fuel: nat,
    es: Seq<ExprModel>,
    env: Seq<Map<Seq<char>, ExprModel>>,
) -> Result<Seq<ExprModel>, ErrorModel>
    decreases fuel, es, 2int,
{
    if es.len() == 0 {
        Result::Ok(Seq::empty())
    } else {
        match spec_eval(fuel, es[0], env) {
            Result::Err(e) => Result::Err(e),
            Result::Ok(v) => match spec_eval_args(fuel, es.subrange(1, es.len() as int), env) {
                Result::Err(e) => Result::Err(e),
                Result::Ok(vs) => Result::Ok(seq![v] + vs),
            },
        }
    }
}

/// A prefix of number values never sums to more than the whole.
proof fn lemma_sum_prefix(vs: Seq<ExprModel>, k: int)
    requires
        0 <= k <= vs.len(),
    ensures
        sum_numbers(vs.subrange(0, k)) <= sum_numbers(vs),
    decreases vs.len() - k,
{
    if k < vs.len() {
        lemma_sum_prefix(vs, k + 1);
        assert(vs.subrange(0, k + 1).drop_last() =~= vs.subrange(0, k));
        assert(vs.subrange(0, k + 1).last() == vs[k]);
    } else {
        assert(vs.subrange(0, k) =~= vs);
    }
}

/// Successful argument evaluation yields one value per argument.
pub proof fn lemma_eval_args_len(fuel: nat, es: Seq<ExprModel>, env: Seq<Map<Seq<char>, ExprModel>>)
    ensures
        match spec_eval_args(fuel, es, env) {
            Result::Ok(vs) => vs.len() == es.len(),
            Result::Err(_) => true,
        },
    decreases es.len(),
{
    if es.len() > 0 {
        lemma_eval_args_len(fuel, es.subrange(1, es.len() as int), env);
    }
}

/// The name of a built-in, as a string.
fn builtin_name_string(op: BuiltinOp) -> (r: String)
    ensures
        r@ == builtin_name(op),
{
    match op {
        BuiltinOp::Plus => String::from_str("+"),
        BuiltinOp::Minus => String::from_str("-"),
        BuiltinOp::LambdaForm => String::from_str("lambda"),
    }
}

/// Whether the list has exactly `n` elements.
fn len_matches(l: &LispList, n: usize) -> (r: bool)
    ensures
        r == (l@.len() == n),
    decreases *l,
{
    match l {
        LispList::Nil => n == 0,
        LispList::Cons(_, rest) => n > 0 && len_matches(rest, n - 1),
    }
}

/// The saturating count of a number of parameters.
fn count_exec(n: usize) -> (r: u64)
    ensures
        r == count_u64(n as nat),
{
    n as u64
}

/// Evaluates each argument in order; the first error is the result.
fn eval_args(args: &LispList, env: &LispEnv, depth: u64) -> (r: Result<Vec<LispExpr>, LispError>)
    requires
        env.wf(),
    ensures
        match r {
            Result::Ok(vals) => spec_eval_args(depth as nat, args@, env@) == Result::<
                Seq<ExprModel>,
                ErrorModel,
            >::Ok(vals.deep_view()),
            Result::Err(e) => spec_eval_args(depth as nat, args@, env@) == Result::<
                Seq<ExprModel>,
                ErrorModel,
            >::Err(e@),
        },
    decreases depth, *args, 2int,
{
    match args {
        LispList::Nil => {
            let vals: Vec<LispExpr> = Vec::new();
            proof {
                assert(vals.deep_view() =~= Seq::<ExprModel>::empty());
            }
            Result::Ok(vals)
        },
        LispList::Cons(e, rest) => {
            proof {
                assert(args@ =~= seq![e@] + rest@);
                assert(args@.subrange(1, args@.len() as int) =~= rest@);
            }
            match eval_at(e, env, depth) {
                Result::Err(er) => Result::Err(er),
                Result::Ok(v) => {
                    match eval_args(rest, env, depth) {
                        Result::Err(er) => Result::Err(er),
                        Result::Ok(mut vals) => {
                            let ghost old_vals = vals.deep_view();
                            vals.insert(0, v);
                            proof {
                                assert(vals.deep_view() =~= seq![v@] + old_vals);
                            }
                            Result::Ok(vals)
                        },
                    }
                },
            }
        },
    }
}

/// Sums evaluated arguments for `+`: each must be a number, and the sum
/// must fit in 64 bits.
fn sum_values(vals: &Vec<LispExpr>) -> (r: Result<LispExpr, LispError>)
    ensures
        match r {
            Result::Ok(v) => all_numbers(vals.deep_view()) && sum_numbers(vals.deep_view())
                <= u64::MAX && v@ == ExprModel::Number(sum_numbers(vals.deep_view()) as u64),
            Result::Err(e) => (!all_numbers(vals.deep_view()) && e@ == ErrorModel::NotANumber("+"@))
                || (all_numbers(vals.deep_view()) && sum_numbers(vals.deep_view()) > u64::MAX && e@
                == ErrorModel::ArithmeticOverflow("+"@)),
        },
{
    let ghost vs = vals.deep_view();
    proof {
        assert(vs.len() == vals@.len());
    }
    let n = vals.len();
    let mut k: usize = 0;
    while k < n
        invariant
            k <= n,
            n == vals@.len(),
            vs == vals.deep_view(),
            forall|j: int| 0 <= j < k ==> vs[j] is Number,
        decreases n - k,
    {
        match &vals[k] {
            LispExpr::Number(_) => {},
            _ => {
                proof {
                    assert(!(vs[k as int] is Number));
                }
                return Result::Err(LispError::NotANumber(String::from_str("+")));
            },
        }
        k = k + 1;
    }
    let mut acc: u64 = 0;
    let mut k: usize = 0;
    while k < n
        invariant
            k <= n,
            n == vals@.len(),
            vs == vals.deep_view(),
            all_numbers(vs),
            acc as nat == sum_numbers(vs.subrange(0, k as int)),
        decreases n - k,
    {
        let d: u64 = match &vals[k] {
            LispExpr::Number(m) => *m,
            _ => 0,
        };
        proof {
            assert(vs.subrange(0, k + 1).drop_last() =~= vs.subrange(0, k as int));
            assert(vs.subrange(0, k + 1).last() == vs[k as int]);
        }
        match acc.checked_add(d) {
            Option::Some(v) => {
                acc = v;
            },
            Option::None => {
                proof {
                    lemma_sum_prefix(vs, k + 1);
                }
                return Result::Err(LispError::ArithmeticOverflow(String::from_str("+")));
            },
        }
        k = k + 1;
    }
    proof {
        assert(vs.subrange(0, n as int) =~= vs);
    }
    Result::Ok(LispExpr::Number(acc))
}

/// Collects the parameter names of a `lambda` form; every element of the
/// parameter list must be a symbol.
fn collect_param_names(l: &LispList) -> (r: Result<Vec<String>, LispError>)
    ensures
        match r {
            Result::Ok(names) => all_symbols(l@) && names.deep_view() =~= symbol_names(l@),
            Result::Err(e) => !all_symbols(l@) && e@ == ErrorModel::ParameterNotSymbol,
        },
    decreases *l,
{
    match l {
        LispList::Nil => {
            let names: Vec<String> = Vec::new();
            proof {
                assert(names.deep_view() =~= symbol_names(l@));
            }
            Result::Ok(names)
        },
        LispList::Cons(e, rest) => {
            proof {
                assert(l@ =~= seq![e@] + rest@);
            }
            match e {
                LispExpr::Symbol(s) => {
                    match collect_param_names(rest) {
                        Result::Err(er) => {
                            proof {
                                let k = choose|k: int|
                                    0 <= k < rest@.len() && !(rest@[k] is Symbol);
                                assert(!(l@[k + 1] is Symbol));
                            }
                            Result::Err(er)
                        },
                        Result::Ok(mut names) => {
                            let ghost old_names = names.deep_view();
                            names.insert(0, s.clone());
                            proof {
                                assert(names.deep_view() =~= seq![s@] + old_names);
                                assert(names.deep_view() =~= symbol_names(l@));
                            }
                            Result::Ok(names)
                        },
                    }
                },
                _ => {
                    proof {
                        assert(!(l@[0] is Symbol));
                    }
                    Result::Err(LispError::ParameterNotSymbol)
                },
            }
        },
    }
}

/// Binds parameter names to argument values in a fresh scope.
fn make_call_scope(params: &Vec<String>, vals: &Vec<LispExpr>) -> (r: Vec<(String, LispExpr)>)
    requires
        params@.len() == vals@.len(),
    ensures
        scope_wf(r@),
        scope_model(r@) == bind_params(Map::empty(), params.deep_view(), vals.deep_view()),
{
    let ghost ps = params.deep_view();
    let ghost vs = vals.deep_view();
    let mut sc: Vec<(String, LispExpr)> = Vec::new();
    proof {
        assert(sc@ =~= Seq::<(String, LispExpr)>::empty());
        assert(scope_model(sc@) =~= Map::<Seq<char>, ExprModel>::empty());
        assert(ps.subrange(0, ps.len() as int) =~= ps);
        assert(vs.subrange(0, vs.len() as int) =~= vs);
    }
    let mut k: usize = 0;
    while k < params.len()
        invariant
            k <= params@.len(),
            params@.len() == vals@.len(),
            ps == params.deep_view(),
            vs == vals.deep_view(),
            ps.len() == params@.len(),
            vs.len() == vals@.len(),
            scope_wf(sc@),
            bind_params(scope_model(sc@), ps.subrange(k as int, ps.len() as int), vs.subrange(k as int, vs.len() as int))
                == bind_params(Map::empty(), ps, vs),
        decreases params@.len() - k,
    {
        proof {
            let pst = ps.subrange(k as int, ps.len() as int);
            let vst = vs.subrange(k as int, vs.len() as int);
            assert(pst[0] == ps[k as int]);
            assert(vst[0] == vs[k as int]);
            assert(pst.subrange(1, pst.len() as int) =~= ps.subrange(k + 1, ps.len() as int));
            assert(vst.subrange(1, vst.len() as int) =~= vs.subrange(k + 1, vs.len() as int));
        }
        scope_insert(&mut sc, params[k].clone(), vals[k].deep_clone());
        k = k + 1;
    }
    proof {
        assert(ps.subrange(k as int, ps.len() as int).len() == 0);
    }
    sc
}

/// Applies the resolved head value `f`, reported under `name`, to the
/// application `list` (whose first element is the head expression).
fn apply_at(f: LispExpr, name: String, list: &LispList, env: &LispEnv, depth: u64) -> (r: Result<
    LispExpr,
    LispError,
>)
    requires
        env.wf(),
        list is Cons,
    ensures
        match r {
            Result::Ok(v) => spec_apply(depth as nat, f@, name@, list@, env@) == Result::<
                ExprModel,
                ErrorModel,
            >::Ok(v@),
            Result::Err(e) => spec_apply(depth as nat, f@, name@, list@, env@) == Result::<
                ExprModel,
                ErrorModel,
            >::Err(e@),
        },
    decreases depth, *list, 1int,
{
    let ghost items = list@;
    let args: &LispList = match list {
        LispList::Cons(_, rest) => rest,
        LispList::Nil => {
            return Result::Err(LispError::NotAProcedure);
        },
    };
    proof {
        assert(items.subrange(1, items.len() as int) =~= args@);
        assert(items.len() >= 1);
    }
    match &f {
        LispExpr::Builtin(BuiltinOp::Plus) => {
            match eval_args(args, env, depth) {
                Result::Err(e) => Result::Err(e),
                Result::Ok(vals) => sum_values(&vals),
            }
        },
        LispExpr::Builtin(BuiltinOp::Minus) => {
            let argc = args.length();
            if argc != 2 {
                return Result::Err(
                    LispError::ArityMismatch(String::from_str("-"), 2, argc),
                );
            }
            match eval_args(args, env, depth) {
                Result::Err(e) => Result::Err(e),
                Result::Ok(vals) => {
                    proof {
                        lemma_eval_args_len(depth as nat, args@, env@);
                        assert(vals.deep_view().len() == args@.len());
                        assert(vals.deep_view()[0] == vals@[0]@);
                        assert(vals.deep_view()[1] == vals@[1]@);
                    }
                    match (&vals[0], &vals[1]) {
                        (LispExpr::Number(a), LispExpr::Number(b)) => {
                            match a.checked_sub(*b) {
                                Option::Some(d) => Result::Ok(LispExpr::Number(d)),
                                Option::None => Result::Err(
                                    LispError::ArithmeticOverflow(String::from_str("-")),
                                ),
                            }
                        },
                        _ => Result::Err(LispError::NotANumber(String::from_str("-"))),
                    }
                },
            }
        },
        LispExpr::Builtin(BuiltinOp::LambdaForm) => {
            let argc = args.length();
            if argc != 2 {
                return Result::Err(
                    LispError::ArityMismatch(String::from_str("lambda"), 2, argc),
                );
            }
            match args {
                LispList::Cons(p, rest1) => {
                    match &**rest1 {
                        LispList::Cons(b, _) => {
                            proof {
                                assert(args@ == seq![p@] + (**rest1)@);
                                assert(args@[0] == p@);
                                assert(args@[1] == (**rest1)@[0]);
                                assert((**rest1)@[0] == b@);
                                assert(items[1] == args@[0]);
                                assert(items[2] == args@[1]);
                                assert(items[1] == p@);
                                assert(items[2] == b@);
                            }
                            match p {
                                LispExpr::List(pl) => {
                                    match collect_param_names(&**pl) {
                                        Result::Err(e) => Result::Err(e),
                                        Result::Ok(names) => Result::Ok(
                                            LispExpr::Lambda(names, Box::new(b.deep_clone())),
                                        ),
                                    }
                                },
                                _ => Result::Err(LispError::ParameterNotSymbol),
                            }
                        },
                        LispList::Nil => Result::Err(LispError::ParameterNotSymbol),
                    }
                },
                LispList::Nil => Result::Err(LispError::ParameterNotSymbol),
            }
        },
        LispExpr::Lambda(ps, body) => {
            if !len_matches(args, ps.len()) {
                let argc = args.length();
                proof {
                    assert(ps.deep_view().len() == ps@.len());
                }
                return Result::Err(
                    LispError::ArityMismatch(name, count_exec(ps.len()), argc),
                );
            }
            proof {
                assert(args@.len() == ps@.len());
            }
            match eval_args(args, env, depth) {
                Result::Err(e) => Result::Err(e),
                Result::Ok(vals) => {
                    if depth == 0 {
                        return Result::Err(LispError::CallDepthExceeded);
                    }
                    proof {
                        lemma_eval_args_len(depth as nat, args@, env@);
                        assert(vals.deep_view().len() == args@.len());
                    }
                    let sc = make_call_scope(ps, &vals);
                    let child = LispEnv {
                        this: sc,
                        parent: Option::Some(Box::new(env.deep_clone())),
                    };
                    proof {
                        assert(child.wf());
                        assert(child@ =~= seq![
                            bind_params(Map::empty(), ps.deep_view(), vals.deep_view()),
                        ] + env@);
                    }
                    eval_at(&**body, &child, depth - 1)
                },
            }
        },
        _ => Result::Err(LispError::NotAProcedure),
    }
}

/// Evaluates one expression against an environment, with `depth` budget
/// for nested procedure invocations.
fn eval_at(expr: &LispExpr, env: &LispEnv, depth: u64) -> (r: Result<LispExpr, LispError>)
    requires
        env.wf(),
    ensures
        match r {
            Result::Ok(v) => spec_eval(depth as nat, expr@, env@) == Result::<
                ExprModel,
                ErrorModel,
            >::Ok(v@),
            Result::Err(e) => spec_eval(depth as nat, expr@, env@) == Result::<
                ExprModel,
                ErrorModel,
            >::Err(e@),
        },
    decreases depth, *expr, 0int,
{
    match expr {
        LispExpr::Number(_) => Result::Ok(expr.deep_clone()),
        LispExpr::Lambda(_, _) => Result::Ok(expr.deep_clone()),
        LispExpr::Builtin(_) => Result::Ok(expr.deep_clone()),
        LispExpr::Symbol(s) => env.lookup(s.clone()),
        LispExpr::List(l) => {
            match &**l {
                LispList::Nil => Result::Ok(expr.deep_clone()),
                LispList::Cons(head, _) => {
                    proof {
                        assert(expr@ == ExprModel::List(l@));
                        assert(l@[0] == head@);
                        assert(l@.len() >= 1);
                    }
                    match head {
                        LispExpr::Symbol(s) => {
                            match env.lookup(s.clone()) {
                                Result::Err(e) => Result::Err(e),
                                Result::Ok(fv) => apply_at(fv, s.clone(), &**l, env, depth),
                            }
                        },
                        LispExpr::Lambda(_, _) => apply_at(
                            head.deep_clone(),
                            String::from_str("lambda"),
                            &**l,
                            env,
                            depth,
                        ),
                        LispExpr::Builtin(op) => apply_at(
                            LispExpr::Builtin(*op),
                            builtin_name_string(*op),
                            &**l,
                            env,
                            depth,
                        ),
                        _ => Result::Err(LispError::NotAProcedure),
                    }
                },
            }
        },
    }
}

/// Evaluates an expression against an environment, with the evaluator's
/// fixed budget for nested procedure invocations.
pub fn eval(expr: LispExpr, env: LispEnv) -> (r: Result<LispExpr, LispError>)
    requires
        env.wf(),
    ensures
        match r {
            Result::Ok(v) => spec_eval(MAX_CALL_DEPTH as nat, expr@, env@) == Result::<
                ExprModel,
                ErrorModel,
            >::Ok(v@),
            Result::Err(e) => spec_eval(MAX_CALL_DEPTH as nat, expr@, env@) == Result::<
                ExprModel,
                ErrorModel,
            >::Err(e@),
        },
{
    eval_at(&expr, &env, MAX_CALL_DEPTH)
}

/// Evaluates a list expression against an environment, as [`eval`] does.
pub fn eval_list(list: LispList, env: LispEnv) -> (r: Result<LispExpr, LispError>)
    requires
        env.wf(),
    ensures
        match r {
            Result::Ok(v) => spec_eval(MAX_CALL_DEPTH as nat, ExprModel::List(list@), env@)
                == Result::<ExprModel, ErrorModel>::Ok(v@),
            Result::Err(e) => spec_eval(MAX_CALL_DEPTH as nat, ExprModel::List(list@), env@)
                == Result::<ExprModel, ErrorModel>::Err(e@),
        },
{
    eval_at(&LispExpr::List(Box::new(list)), &env, MAX_CALL_DEPTH)
}

} // verus!
