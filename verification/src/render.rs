//! Printable representations: decimal rendering of numbers and the
//! textual form of expressions.

use vstd::prelude::*;

use crate::expr::{BuiltinOp, ExprModel, LispExpr, LispList};

verus! {

/// The decimal digit character for a value below ten.
pub open spec fn digit_char(d: nat) -> char {
    if d == 0 {
        '0'
    } else if d == 1 {
        '1'
    } else if d == 2 {
        '2'
    } else if d == 3 {
        '3'
    } else if d == 4 {
        '4'
    } else if d == 5 {
        '5'
    } else if d == 6 {
        '6'
    } else if d == 7 {
        '7'
    } else if d == 8 {
        '8'
    } else {
        '9'
    }
}

/// The decimal digits of `n`, most significant first, without a sign and
/// without leading zeros (`0` itself is the single digit `0`).
pub open spec fn dec_digits(n: nat) -> Seq<char>
    decreases n,
{
    if n < 10 {
        seq![digit_char(n)]
    } else {
        proof {
            assert(n / 10 < n) by (nonlinear_arith)
                requires
                    n >= 10,
            ;
        }
        dec_digits(n / 10).push(digit_char(n % 10))
    }
}

/// The one-character string for a decimal digit.
fn digit_str(d: u64) -> (r: &'static str)
    requires
        d < 10,
    ensures
        r@ == seq![digit_char(d as nat)],
{
    proof {
        reveal_strlit("0");
        reveal_strlit("1");
        reveal_strlit("2");
        reveal_strlit("3");
        reveal_strlit("4");
        reveal_strlit("5");
        reveal_strlit("6");
        reveal_strlit("7");
        reveal_strlit("8");
        reveal_strlit("9");
    }
    let r = if d == 0 {
        "0"
    } else if d == 1 {
        "1"
    } else if d == 2 {
        "2"
    } else if d == 3 {
        "3"
    } else if d == 4 {
        "4"
    } else if d == 5 {
        "5"
    } else if d == 6 {
        "6"
    } else if d == 7 {
        "7"
    } else if d == 8 {
        "8"
    } else {
        "9"
    };
    proof {
        assert(r@ =~= seq![digit_char(d as nat)]);
    }
    r
}

/// The textual form of an expression: symbols and numbers as themselves,
/// lists parenthesized with single spaces between elements, lambdas as
/// the `lambda` form that constructs them.
pub open spec fn spec_render(e: ExprModel) -> Seq<char>
    decreases e, 0int,
{
    match e {
        ExprModel::Symbol(s) => s,
        ExprModel::Number(n) => dec_digits(n as nat),
        ExprModel::Builtin(op) => crate::eval::builtin_name(op),
        ExprModel::List(items) => "("@ + spec_render_items(items) + ")"@,
        ExprModel::Lambda(ps, b) => "(lambda ("@ + join_names_from(ps, 0) + ") "@ + spec_render(
            *b,
        ) + ")"@,
    }
}

/// The textual form of the elements of a list, space separated.
pub open spec fn spec_render_items(items: Seq<ExprModel>) -> Seq<char>
    decreases items, 1int,
{
    if items.len() == 0 {
        Seq::empty()
    } else if items.len() == 1 {
        spec_render(items[0])
    } else {
        spec_render(items[0]) + " "@ + spec_render_items(items.subrange(1, items.len() as int))
    }
}

/// The names from position `k` on, space separated.
pub open spec fn join_names_from(ps: Seq<Seq<char>>, k: int) -> Seq<char>
    decreases ps.len() - k,
{
    if k < 0 || k >= ps.len() {
        Seq::empty()
    } else if k == ps.len() - 1 {
        ps[k]
    } else {
        ps[k] + " "@ + join_names_from(ps, k + 1)
    }
}

/// Renders the names from position `k` on, space separated.
fn render_names_from(names: &Vec<String>, k: usize) -> (r: String)
    requires
        k <= names@.len(),
    ensures
        r@ == join_names_from(names.deep_view(), k as int),
    decreases names@.len() - k,
{
    if k >= names.len() {
        String::new()
    } else if k == names.len() - 1 {
        names[k].clone()
    } else {
        let mut r = names[k].clone();
        r.append(" ");
        let rest = render_names_from(names, k + 1);
        r.append(rest.as_str());
        r
    }
}

impl LispExpr {
    /// The printable textual form of this expression.
    pub fn to_code(&self) -> (r: String)
        ensures
            r@ == spec_render(self@),
        decreases *self, 0int,
    {
        match self {
            LispExpr::Symbol(s) => s.clone(),
            LispExpr::Number(n) => u64_to_dec(*n),
            LispExpr::Builtin(op) => {
                match op {
                    BuiltinOp::Plus => String::from_str("+"),
                    BuiltinOp::Minus => String::from_str("-"),
                    BuiltinOp::LambdaForm => String::from_str("lambda"),
                }
            },
            LispExpr::List(l) => {
                let mut r = String::from_str("(");
                let inner = render_list_items(l);
                r.append(inner.as_str());
                r.append(")");
                proof {
                    assert(r@ =~= "("@ + spec_render_items(l@) + ")"@);
                }
                r
            },
            LispExpr::Lambda(ps, b) => {
                let mut r = String::from_str("(lambda (");
                let names = render_names_from(ps, 0);
                r.append(names.as_str());
                r.append(") ");
                let body = b.to_code();
                r.append(body.as_str());
                r.append(")");
                proof {
                    assert(r@ =~= "(lambda ("@ + join_names_from(ps.deep_view(), 0) + ") "@
                        + spec_render(b@) + ")"@);
                }
                r
            },
        }
    }
}

/// Renders the elements of a list, space separated.
fn render_list_items(l: &LispList) -> (r: String)
    ensures
        r@ == spec_render_items(l@),
    decreases *l, 1int,
{
    match l {
        LispList::Nil => {
            proof {
                assert(l@.len() == 0);
            }
            String::new()
        },
        LispList::Cons(e, rest) => {
            proof {
                assert(l@ =~= seq![e@] + rest@);
                assert(l@.subrange(1, l@.len() as int) =~= rest@);
                assert(l@[0] == e@);
            }
            match &**rest {
                LispList::Nil => {
                    proof {
                        assert(l@.len() == 1);
                    }
                    e.to_code()
                },
                LispList::Cons(_, _) => {
                    let mut r = e.to_code();
                    r.append(" ");
                    let more = render_list_items(rest);
                    r.append(more.as_str());
                    proof {
                        assert(l@.len() > 1);
                        assert(r@ =~= spec_render(l@[0]) + " "@ + spec_render_items(
                            l@.subrange(1, l@.len() as int),
                        ));
                    }
                    r
                },
            }
        },
    }
}

/// Renders `n` in decimal.
pub fn u64_to_dec(n: u64) -> (r: String)
    ensures
        r@ == dec_digits(n as nat),
    decreases n,
{
    if n < 10 {
        String::from_str(digit_str(n))
    } else {
        let mut s = u64_to_dec(n / 10);
        s.append(digit_str(n % 10));
        proof {
            assert(s@ =~= dec_digits(n as nat));
        }
        s
    }
}

} // verus!
