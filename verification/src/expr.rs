//! Expressions: the abstract syntax tree that the parser builds and the
//! evaluator walks, together with its mathematical model.

use vstd::prelude::*;

verus! {

/// A primitive procedure supplied by the language core.
///
/// `LambdaForm` is the special form that constructs a procedure value; it
/// receives its arguments unevaluated.
#[derive(Debug, Clone, Copy, PartialEq, Eq, Structural)]
pub enum BuiltinOp {
    Plus,
    Minus,
    LambdaForm,
}

/// A parsed expression.
///
/// * `Symbol`: an identifier, resolved by environment lookup.
/// * `Number`: a numeric literal, self-evaluating.
/// * `List`: an ordered sequence of expressions; a procedure application
///   when non-empty, the self-evaluating empty-list value when empty.
/// * `Lambda`: a procedure value: parameter names and an unevaluated body.
///   A procedure value does not carry the environment of its definition;
///   an application extends the environment of the call instead.
/// * `Builtin`: a primitive procedure value, found in the base environment.
#[derive(Debug, PartialEq, Eq)]
pub enum LispExpr {
    Symbol(String),
    Number(u64),
    List(Box<LispList>),
    Lambda(Vec<String>, Box<LispExpr>),
    Builtin(BuiltinOp),
}

/// The elements of a `LispExpr::List`, stored as a singly linked list with
/// the first element outermost.
#[derive(Debug, PartialEq, Eq)]
pub enum LispList {
    Cons(LispExpr, Box<LispList>),
    Nil,
}

/// The mathematical value of a [`LispExpr`]: strings become character
/// sequences and list structure becomes `Seq`.
#[verifier::ext_equal]
pub enum ExprModel {
    Symbol(Seq<char>),
    Number(u64),
    List(Seq<ExprModel>),
    Lambda(Seq<Seq<char>>, Box<ExprModel>),
    Builtin(BuiltinOp),
}

pub open spec fn expr_model(e: LispExpr) -> ExprModel
    decreases e, 0int,
{
    match e {
        LispExpr::Symbol(s) => ExprModel::Symbol(s@),
        LispExpr::Number(n) => ExprModel::Number(n),
        LispExpr::List(l) => ExprModel::List(list_model(*l)),
        LispExpr::Lambda(ps, b) => ExprModel::Lambda(ps.deep_view(), Box::new(expr_model(*b))),
        LispExpr::Builtin(op) => ExprModel::Builtin(op),
    }
}

pub open spec fn list_model(l: LispList) -> Seq<ExprModel>
    decreases l, 1int,
{
    match l {
        LispList::Cons(e, rest) => seq![expr_model(e)] + list_model(*rest),
        LispList::Nil => Seq::empty(),
    }
}

impl View for LispExpr {
    type V = ExprModel;

    open spec fn view(&self) -> ExprModel {
        expr_model(*self)
    }
}

impl DeepView for LispExpr {
    type V = ExprModel;

    open spec fn deep_view(&self) -> ExprModel {
        expr_model(*self)
    }
}

impl View for LispList {
    type V = Seq<ExprModel>;

    open spec fn view(&self) -> Seq<ExprModel> {
        list_model(*self)
    }
}

impl DeepView for LispList {
    type V = Seq<ExprModel>;

    open spec fn deep_view(&self) -> Seq<ExprModel> {
        list_model(*self)
    }
}

/// Copies a vector of names; the copy has the same character sequences.
pub fn clone_names(names: &Vec<String>) -> (r: Vec<String>)
    ensures
        r.deep_view() == names.deep_view(),
{
    let mut out: Vec<String> = Vec::new();
    let mut i: usize = 0;
    while i < names.len()
        invariant
            i <= names.len(),
            out@.len() == i,
            forall|j: int| 0 <= j < i ==> out@[j]@ == names@[j]@,
        decreases names.len() - i,
    {
        out.push(names[i].clone());
        i = i + 1;
    }
    proof {
        assert(out.deep_view() =~= names.deep_view());
    }
    out
}

impl LispExpr {
    /// Copies an expression; the copy has the same mathematical value.
    pub fn deep_clone(&self) -> (r: LispExpr)
        ensures
            r@ == self@,
        decreases *self,
    {
        match self {
            LispExpr::Symbol(s) => LispExpr::Symbol(s.clone()),
            LispExpr::Number(n) => LispExpr::Number(*n),
            LispExpr::List(l) => LispExpr::List(Box::new(l.deep_clone())),
            LispExpr::Lambda(ps, b) => LispExpr::Lambda(clone_names(ps), Box::new(b.deep_clone())),
            LispExpr::Builtin(op) => LispExpr::Builtin(*op),
        }
    }
}

impl LispList {
    /// Copies a list of expressions; the copy has the same mathematical value.
    pub fn deep_clone(&self) -> (r: LispList)
        ensures
            r@ == self@,
        decreases *self,
    {
        match self {
            LispList::Cons(e, rest) => LispList::Cons(e.deep_clone(), Box::new(rest.deep_clone())),
            LispList::Nil => LispList::Nil,
        }
    }

    /// The number of elements, saturating at the greatest `u64` value.
    pub fn length(&self) -> (r: u64)
        ensures
            self@.len() <= u64::MAX ==> r == self@.len(),
            self@.len() > u64::MAX ==> r == u64::MAX,
        decreases *self,
    {
        match self {
            LispList::Cons(_, rest) => {
                let n = rest.length();
                if n == u64::MAX {
                    u64::MAX
                } else {
                    n + 1
                }
            },
            LispList::Nil => 0,
        }
    }
}

} // verus!
