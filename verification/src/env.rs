//! Environments: a chain of scopes mapping symbol names to bound
//! expressions, with lexical lookup from the innermost scope outward.

use vstd::prelude::*;

use crate::error::{ErrorModel, LispError};
use crate::expr::{BuiltinOp, ExprModel, LispExpr};

verus! {

broadcast use vstd::string::group_string_axioms;

/// A chain of scopes. `this` holds the bindings of the innermost scope,
/// each name at most once; `parent` is the next scope outward, and the
/// root scope has none.
#[derive(Debug, PartialEq, Eq)]
pub struct LispEnv {
    pub this: Vec<(String, LispExpr)>,
    pub parent: Option<Box<LispEnv>>,
}

/// The mathematical value of one scope: the map from bound names to the
/// values bound to them, later bindings of a name overriding earlier ones.
pub open spec fn scope_model(s: Seq<(String, LispExpr)>) -> Map<Seq<char>, ExprModel>
    decreases s.len(),
{
    if s.len() == 0 {
        Map::empty()
    } else {
        scope_model(s.drop_last()).insert(s.last().0@, s.last().1@)
    }
}

/// Each name is bound at most once in the scope.
pub open spec fn scope_wf(s: Seq<(String, LispExpr)>) -> bool {
    forall|i: int, j: int| 0 <= i < j < s.len() ==> s[i].0@ != s[j].0@
}

/// Looking a name up in a chain of scopes: the innermost scope that binds
/// the name decides; `None` when no scope binds it.
pub open spec fn lookup_model(env: Seq<Map<Seq<char>, ExprModel>>, name: Seq<char>) -> Option<
    ExprModel,
>
    decreases env.len(),
{
    if env.len() == 0 {
        Option::None
    } else if env[0].dom().contains(name) {
        Option::Some(env[0][name])
    } else {
        lookup_model(env.subrange(1, env.len() as int), name)
    }
}

/// A name is in the model of a scope exactly when some entry binds it.
pub proof fn lemma_scope_model_dom(s: Seq<(String, LispExpr)>, k: Seq<char>)
    ensures
        scope_model(s).dom().contains(k) <==> exists|j: int| 0 <= j < s.len() && s[j].0@ == k,
    decreases s.len(),
{
    if s.len() > 0 {
        lemma_scope_model_dom(s.drop_last(), k);
        if scope_model(s).dom().contains(k) && s.last().0@ != k {
            let j = choose|j: int| 0 <= j < s.drop_last().len() && s.drop_last()[j].0@ == k;
            assert(s[j].0@ == k);
        }
        if exists|j: int| 0 <= j < s.len() && s[j].0@ == k {
            let j = choose|j: int| 0 <= j < s.len() && s[j].0@ == k;
            if j < s.len() - 1 {
                assert(s.drop_last()[j].0@ == k);
            }
        }
    }
}

/// In a well-formed scope, the entry that binds a name gives its value.
pub proof fn lemma_scope_model_found(s: Seq<(String, LispExpr)>, i: int)
    requires
        scope_wf(s),
        0 <= i < s.len(),
    ensures
        scope_model(s).dom().contains(s[i].0@),
        scope_model(s)[s[i].0@] == s[i].1@,
    decreases s.len(),
{
    if i == s.len() - 1 {
        assert(s[i] == s.last());
    } else {
        assert(scope_wf(s.drop_last()));
        assert(s.drop_last()[i] == s[i]);
        lemma_scope_model_found(s.drop_last(), i);
        assert(s[i].0@ != s.last().0@);
    }
}

/// Replacing the entry that binds a name is insertion into the model.
pub proof fn lemma_scope_model_update(s: Seq<(String, LispExpr)>, i: int, p: (String, LispExpr))
    requires
        scope_wf(s),
        0 <= i < s.len(),
        p.0@ == s[i].0@,
    ensures
        scope_model(s.update(i, p)) =~= scope_model(s).insert(p.0@, p.1@),
        scope_wf(s.update(i, p)),
    decreases s.len(),
{
    let t = s.update(i, p);
    assert(t.len() == s.len());
    if i == s.len() - 1 {
        assert(t.drop_last() =~= s.drop_last());
        assert(t.last() == p);
    } else {
        assert(scope_wf(s.drop_last()));
        assert(s.drop_last()[i] == s[i]);
        lemma_scope_model_update(s.drop_last(), i, p);
        assert(t.drop_last() =~= s.drop_last().update(i, p));
        assert(t.last() == s.last());
        assert(s[i].0@ != s.last().0@);
    }
}

/// Binds a name in a scope: replaces the entry that already binds the
/// name, or appends a new entry.
pub fn scope_insert(v: &mut Vec<(String, LispExpr)>, name: String, val: LispExpr)
    requires
        scope_wf(old(v)@),
    ensures
        scope_wf(final(v)@),
        scope_model(final(v)@) == scope_model(old(v)@).insert(name@, val@),
{
    let mut i: usize = 0;
    while i < v.len()
        invariant
            scope_wf(v@),
            v@ == old(v)@,
            i <= v.len(),
            forall|j: int| 0 <= j < i ==> v@[j].0@ != name@,
        decreases v.len() - i,
    {
        if v[i].0 == name {
            proof {
                lemma_scope_model_update(v@, i as int, (name, val));
            }
            v.set(i, (name, val));
            return ;
        }
        i = i + 1;
    }
    proof {
        assert(v@.push((name, val)).drop_last() =~= v@);
        assert(forall|j: int|
            0 <= j < v@.len() ==> #[trigger] v@.push((name, val))[j] == v@[j]);
    }
    v.push((name, val));
}

/// The mathematical value of an environment: the chain of scope models,
/// innermost first.
pub open spec fn env_model(e: LispEnv) -> Seq<Map<Seq<char>, ExprModel>>
    decreases e,
{
    seq![scope_model(e.this@)] + match e.parent {
        Option::Some(p) => env_model(*p),
        Option::None => Seq::empty(),
    }
}

/// Every scope of the chain is well formed.
pub open spec fn env_wf(e: LispEnv) -> bool
    decreases e,
{
    scope_wf(e.this@) && match e.parent {
        Option::Some(p) => env_wf(*p),
        Option::None => true,
    }
}

impl View for LispEnv {
    type V = Seq<Map<Seq<char>, ExprModel>>;

    open spec fn view(&self) -> Seq<Map<Seq<char>, ExprModel>> {
        env_model(*self)
    }
}

impl LispEnv {
    /// Every scope of the chain is well formed.
    pub open spec fn wf(&self) -> bool {
        env_wf(*self)
    }

    /// A fresh environment: one empty scope, no parent.
    pub fn new() -> (r: LispEnv)
        ensures
            r.wf(),
            r@ =~= seq![Map::<Seq<char>, ExprModel>::empty()],
    {
        LispEnv { this: Vec::new(), parent: Option::None }
    }

    /// Resolves a name: the innermost scope that binds it decides, and a
    /// name bound nowhere in the chain is a `SymbolNotFound` error.
    pub fn lookup(&self, symbol: String) -> (r: Result<LispExpr, LispError>)
        requires
            self.wf(),
        ensures
            match r {
                Result::Ok(v) => lookup_model(self@, symbol@) == Option::Some(v@),
                Result::Err(e) => lookup_model(self@, symbol@) is None && e@
                    == ErrorModel::SymbolNotFound(symbol@),
            },
        decreases *self,
    {
        let mut i: usize = 0;
        while i < self.this.len()
            invariant
                self.wf(),
                i <= self.this.len(),
                forall|j: int| 0 <= j < i ==> self.this@[j].0@ != symbol@,
            decreases self.this.len() - i,
        {
            if self.this[i].0 == symbol {
                proof {
                    lemma_scope_model_found(self.this@, i as int);
                }
                return Result::Ok(self.this[i].1.deep_clone());
            }
            i = i + 1;
        }
        proof {
            lemma_scope_model_dom(self.this@, symbol@);
            assert(self@[0] == scope_model(self.this@));
            assert(!self@[0].dom().contains(symbol@));
            assert(self@.subrange(1, self@.len() as int) =~= match self.parent {
                Option::Some(p) => env_model(*p),
                Option::None => Seq::empty(),
            });
        }
        match &self.parent {
            Option::Some(p) => {
                let r = p.lookup(symbol);
                proof {
                    assert(env_model(**p) == self@.subrange(1, self@.len() as int));
                    assert(lookup_model(self@, symbol@) == lookup_model(env_model(**p), symbol@));
                }
                r
            },
            Option::None => {
                proof {
                    let tail = self@.subrange(1, self@.len() as int);
                    assert(tail =~= Seq::<Map<Seq<char>, ExprModel>>::empty());
                    assert(lookup_model(tail, symbol@) is None);
                    assert(lookup_model(self@, symbol@) is None);
                }
                Result::Err(LispError::SymbolNotFound(symbol))
            },
        }
    }

    /// Copies an environment; the copy has the same mathematical value.
    pub fn deep_clone(&self) -> (r: LispEnv)
        ensures
            r@ == self@,
            self.wf() ==> r.wf(),
        decreases *self,
    {
        let mut this: Vec<(String, LispExpr)> = Vec::new();
        let mut i: usize = 0;
        while i < self.this.len()
            invariant
                i <= self.this.len(),
                this@.len() == i,
                forall|j: int| 0 <= j < i ==> this@[j].0@ == self.this@[j].0@,
                forall|j: int| 0 <= j < i ==> this@[j].1@ == self.this@[j].1@,
            decreases self.this.len() - i,
        {
            let entry = &self.this[i];
            this.push((entry.0.clone(), entry.1.deep_clone()));
            i = i + 1;
        }
        proof {
            lemma_scope_model_pointwise(this@, self.this@);
        }
        let parent = match &self.parent {
            Option::Some(p) => Option::Some(Box::new(p.deep_clone())),
            Option::None => Option::None,
        };
        LispEnv { this, parent }
    }
}

/// Binding parameter names to argument values, in order, onto a scope
/// map; a repeated name keeps its last binding.
pub open spec fn bind_params(
    m: Map<Seq<char>, ExprModel>,
    ps: Seq<Seq<char>>,
    vs: Seq<ExprModel>,
) -> Map<Seq<char>, ExprModel>
    decreases ps.len(),
{
    if ps.len() == 0 || vs.len() == 0 {
        m
    } else {
        bind_params(
            m.insert(ps[0], vs[0]),
            ps.subrange(1, ps.len() as int),
            vs.subrange(1, vs.len() as int),
        )
    }
}

/// The scope of the base environment: the three built-in procedures.
pub open spec fn default_scope() -> Map<Seq<char>, ExprModel> {
    Map::empty().insert("+"@, ExprModel::Builtin(BuiltinOp::Plus)).insert(
        "-"@,
        ExprModel::Builtin(BuiltinOp::Minus),
    ).insert("lambda"@, ExprModel::Builtin(BuiltinOp::LambdaForm))
}

impl LispEnv {
    /// The base environment: one scope binding `+`, `-` and `lambda` to
    /// the built-in procedures, no parent.
    pub fn default_env() -> (r: LispEnv)
        ensures
            r.wf(),
            r@ =~= seq![default_scope()],
    {
        let mut this: Vec<(String, LispExpr)> = Vec::new();
        this.push((String::from_str("+"), LispExpr::Builtin(BuiltinOp::Plus)));
        this.push((String::from_str("-"), LispExpr::Builtin(BuiltinOp::Minus)));
        this.push((String::from_str("lambda"), LispExpr::Builtin(BuiltinOp::LambdaForm)));
        proof {
            reveal_strlit("+");
            reveal_strlit("-");
            reveal_strlit("lambda");
            reveal_with_fuel(scope_model, 4);
            let s = this@;
            assert(s.len() == 3);
            assert(s[0].0@ == "+"@ && s[1].0@ == "-"@ && s[2].0@ == "lambda"@);
            assert("+"@.len() == 1 && "-"@.len() == 1 && "lambda"@.len() == 6);
            assert("+"@[0] == '+' && "-"@[0] == '-');
            assert("+"@ != "-"@ && "+"@ != "lambda"@ && "-"@ != "lambda"@);
            assert(s.drop_last() =~= seq![s[0], s[1]]);
            assert(s.drop_last().drop_last() =~= seq![s[0]]);
            assert(seq![s[0]].drop_last() =~= Seq::<(String, LispExpr)>::empty());
            assert(scope_model(s) =~= default_scope());
            assert(scope_wf(s));
        }
        LispEnv { this, parent: Option::None }
    }
}

/// A name bound in an inner scope shadows the same name in every outer
/// scope: when the scope at position `i` binds the name and no scope
/// nearer the inside does, lookup returns the binding at position `i`,
/// whatever any scope further out binds the name to.
pub proof fn lemma_inner_binding_shadows(
    env: Seq<Map<Seq<char>, ExprModel>>,
    name: Seq<char>,
    i: int,
)
    requires
        0 <= i < env.len(),
        env[i].dom().contains(name),
        forall|k: int| 0 <= k < i ==> !(#[trigger] env[k]).dom().contains(name),
    ensures
        lookup_model(env, name) == Option::Some(env[i][name]),
    decreases i,
{
    if i > 0 {
        let tail = env.subrange(1, env.len() as int);
        assert(tail[i - 1] == env[i]);
        assert(forall|k: int| 0 <= k < i - 1 ==> #[trigger] tail[k] == env[k + 1]);
        lemma_inner_binding_shadows(tail, name, i - 1);
    }
}

/// Scopes whose entries agree name for name and value for value have the
/// same model.
pub proof fn lemma_scope_model_pointwise(a: Seq<(String, LispExpr)>, b: Seq<(String, LispExpr)>)
    requires
        a.len() == b.len(),
        forall|j: int| 0 <= j < a.len() ==> a[j].0@ == b[j].0@,
        forall|j: int| 0 <= j < a.len() ==> a[j].1@ == b[j].1@,
    ensures
        scope_model(a) == scope_model(b),
        scope_wf(a) == scope_wf(b),
    decreases a.len(),
{
    if a.len() > 0 {
        lemma_scope_model_pointwise(a.drop_last(), b.drop_last());
        assert(scope_model(a) =~= scope_model(b));
    }
    assert(scope_wf(a) == scope_wf(b));
}

} // verus!
