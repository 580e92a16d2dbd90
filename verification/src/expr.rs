//! The value/AST type shared by the reader, the compiler and the evaluator,
//! together with its mathematical model.

use vstd::prelude::*;
use crate::num;

verus! {

/// Primitive functions that the library itself implements.
#[derive(Clone, Copy, Debug, PartialEq, Eq, Structural)]
pub enum Prim {
    Refl,
    IsPi,
    IsPath,
    IsSigma,
    IsGlue,
    IsGlueType,
    IsString,
    StringAppend,
    StringLength,
    StringEq,
    StringLt,
    StringGt,
    StringLe,
    StringGe,
    StringToNumber,
    NumberToString,
    StringToSymbol,
    SymbolToString,
    StringUpcase,
    StringDowncase,
    Substring,
    List,
    Car,
    Cdr,
    Cons,
    IsNull,
    Not,
}

/// A function value that is not a lambda.
#[derive(Debug)]
pub enum Builtin {
    /// A primitive of the library.
    Prim(Prim),
    /// A primitive that the host supplies, by name.
    Native(String),
    /// The body of a `funext` path: given an interval point `i`, the function
    /// `\x. (p x) @ i`.  Holds `p` and the global environment.
    FunextLine(Box<Expr>, usize),
    /// `\x. (p x) @ i`, holding `p`, `i` and the global environment.
    FunextPoint(Box<Expr>, Box<Expr>, usize),
}

/// Expressions: both the surface syntax and the values it evaluates to.
/// Numbers are binary64 values carried by their bit pattern.
#[derive(Debug)]
pub enum Expr {
    Number(u64),
    Symbol(String),
    Str(String),
    List(Vec<Expr>),
    /// A De Bruijn index into the lexical environment.
    Index(usize),
    Func(Builtin),
    /// A closure: arity, body, captured lexical environment.
    Lambda(usize, Box<Expr>, Box<LexEnv>),
    /// Member `k` of a `letrec` group: the values the group's right-hand
    /// sides evaluated to, and the lexical environment around the `letrec`.
    /// Applying it applies value `k`, a lambda, in an environment where
    /// every name of the group is bound to its member, itself included.
    Rec(usize, Vec<Expr>, Box<LexEnv>),
    /// A macro: parameter names and body.
    Macro(Vec<String>, Box<Expr>),
    /// A path `\i. body` closed over a lexical environment.
    Path(Box<Expr>, Box<LexEnv>),
    /// A dependent function type: domain, codomain, environment.
    Pi(Box<Expr>, Box<Expr>, Box<LexEnv>),
    /// A dependent pair type: domain, codomain, environment.
    Sigma(Box<Expr>, Box<Expr>, Box<LexEnv>),
    /// A Glue type: base type and equivalence.
    GlueType(Box<Expr>, Box<Expr>),
    /// A Glue term: fibre value and equivalence.
    Glue(Box<Expr>, Box<Expr>),
}

/// The lexical environment: a linked list whose head is De Bruijn index 0.
#[derive(Debug)]
pub enum LexEnv {
    Empty,
    Node(Box<Expr>, Box<LexEnv>),
}

/// Mathematical model of [`Builtin`].
pub enum SBuiltin {
    Prim(Prim),
    Native(Seq<char>),
    FunextLine(Box<SExpr>, nat),
    FunextPoint(Box<SExpr>, Box<SExpr>, nat),
}

/// Mathematical model of [`Expr`]; lexical environments are sequences whose
/// first element is index 0.
pub enum SExpr {
    Number(u64),
    Symbol(Seq<char>),
    Str(Seq<char>),
    List(Seq<SExpr>),
    Index(nat),
    Func(SBuiltin),
    Lambda(nat, Box<SExpr>, Seq<SExpr>),
    Rec(nat, Seq<SExpr>, Seq<SExpr>),
    Macro(Seq<Seq<char>>, Box<SExpr>),
    Path(Box<SExpr>, Seq<SExpr>),
    Pi(Box<SExpr>, Box<SExpr>, Seq<SExpr>),
    Sigma(Box<SExpr>, Box<SExpr>, Seq<SExpr>),
    GlueType(Box<SExpr>, Box<SExpr>),
    Glue(Box<SExpr>, Box<SExpr>),
}

pub open spec fn strings_view(s: Seq<String>) -> Seq<Seq<char>> {
    s.map_values(|x: String| x@)
}

pub open spec fn exprs_view(s: Seq<Expr>) -> Seq<SExpr>
    decreases s,
{
    if s.len() == 0 {
        Seq::empty()
    } else {
        exprs_view(s.drop_last()).push(expr_view(s.last()))
    }
}

pub open spec fn builtin_view(b: Builtin) -> SBuiltin
    decreases b,
{
    match b {
        Builtin::Prim(p) => SBuiltin::Prim(p),
        Builtin::Native(n) => SBuiltin::Native(n@),
        Builtin::FunextLine(p, g) => SBuiltin::FunextLine(Box::new(expr_view(*p)), g as nat),
        Builtin::FunextPoint(p, i, g) => SBuiltin::FunextPoint(
            Box::new(expr_view(*p)),
            Box::new(expr_view(*i)),
            g as nat,
        ),
    }
}

pub open spec fn expr_view(e: Expr) -> SExpr
    decreases e,
{
    match e {
        Expr::Number(n) => SExpr::Number(n),
        Expr::Symbol(s) => SExpr::Symbol(s@),
        Expr::Str(s) => SExpr::Str(s@),
        Expr::List(v) => SExpr::List(exprs_view(v@)),
        Expr::Index(i) => SExpr::Index(i as nat),
        Expr::Func(b) => SExpr::Func(builtin_view(b)),
        Expr::Lambda(a, b, l) => SExpr::Lambda(a as nat, Box::new(expr_view(*b)), lex_view(*l)),
        Expr::Rec(k, vs, l) => SExpr::Rec(k as nat, exprs_view(vs@), lex_view(*l)),
        Expr::Macro(ps, b) => SExpr::Macro(strings_view(ps@), Box::new(expr_view(*b))),
        Expr::Path(b, l) => SExpr::Path(Box::new(expr_view(*b)), lex_view(*l)),
        Expr::Pi(d, c, l) => SExpr::Pi(Box::new(expr_view(*d)), Box::new(expr_view(*c)), lex_view(*l)),
        Expr::Sigma(d, c, l) => SExpr::Sigma(
            Box::new(expr_view(*d)),
            Box::new(expr_view(*c)),
            lex_view(*l),
        ),
        Expr::GlueType(a, f) => SExpr::GlueType(Box::new(expr_view(*a)), Box::new(expr_view(*f))),
        Expr::Glue(v, f) => SExpr::Glue(Box::new(expr_view(*v)), Box::new(expr_view(*f))),
    }
}

pub open spec fn lex_view(l: LexEnv) -> Seq<SExpr>
    decreases l,
{
    match l {
        LexEnv::Empty => Seq::empty(),
        LexEnv::Node(e, rest) => seq![expr_view(*e)] + lex_view(*rest),
    }
}

impl View for Expr {
    type V = SExpr;

    open spec fn view(&self) -> SExpr {
        expr_view(*self)
    }
}

impl View for LexEnv {
    type V = Seq<SExpr>;

    open spec fn view(&self) -> Seq<SExpr> {
        lex_view(*self)
    }
}

impl View for Builtin {
    type V = SBuiltin;

    open spec fn view(&self) -> SBuiltin {
        builtin_view(*self)
    }
}

pub broadcast proof fn lemma_exprs_view(s: Seq<Expr>)
    ensures
        #[trigger] exprs_view(s).len() == s.len(),
        forall|i: int| 0 <= i < s.len() ==> #[trigger] exprs_view(s)[i] == expr_view(s[i]),
    decreases s.len(),
{
    if s.len() > 0 {
        lemma_exprs_view(s.drop_last());
    }
}

pub proof fn lemma_exprs_view_push(s: Seq<Expr>, e: Expr)
    ensures exprs_view(s.push(e)) == exprs_view(s).push(expr_view(e)),
{
    assert(s.push(e).drop_last() =~= s);
}

pub proof fn lemma_exprs_view_add(a: Seq<Expr>, b: Seq<Expr>)
    ensures exprs_view(a + b) == exprs_view(a) + exprs_view(b),
{
    lemma_exprs_view(a);
    lemma_exprs_view(b);
    lemma_exprs_view(a + b);
    assert(exprs_view(a + b) =~= exprs_view(a) + exprs_view(b));
}

pub proof fn lemma_exprs_view_take(s: Seq<Expr>, i: int)
    requires 0 <= i <= s.len(),
    ensures exprs_view(s.take(i)) == exprs_view(s).take(i),
{
    lemma_exprs_view(s);
    lemma_exprs_view(s.take(i));
    assert(exprs_view(s.take(i)) =~= exprs_view(s).take(i));
}

pub proof fn lemma_exprs_view_skip(s: Seq<Expr>, i: int)
    requires 0 <= i <= s.len(),
    ensures exprs_view(s.skip(i)) == exprs_view(s).skip(i),
{
    lemma_exprs_view(s);
    lemma_exprs_view(s.skip(i));
    assert(exprs_view(s.skip(i)) =~= exprs_view(s).skip(i));
}

/// Copies a vector of strings.
pub fn clone_strings(v: &Vec<String>) -> (r: Vec<String>)
    ensures strings_view(r@) == strings_view(v@),
{
    let mut out: Vec<String> = Vec::new();
    let mut i: usize = 0;
    while i < v.len()
        invariant
            i <= v.len(),
            out@.len() == i,
            forall|j: int| 0 <= j < i ==> #[trigger] out@[j]@ == v@[j]@,
        decreases v.len() - i,
    {
        out.push(v[i].clone());
        i = i + 1;
    }
    assert(strings_view(out@) =~= strings_view(v@));
    out
}

impl Builtin {
    pub fn deep_clone(&self) -> (r: Self)
        ensures r@ == self@,
        decreases self,
    {
        match self {
            Builtin::Prim(p) => Builtin::Prim(*p),
            Builtin::Native(n) => Builtin::Native(n.clone()),
            Builtin::FunextLine(p, g) => Builtin::FunextLine(Box::new((**p).deep_clone()), *g),
            Builtin::FunextPoint(p, i, g) => Builtin::FunextPoint(
                Box::new((**p).deep_clone()),
                Box::new((**i).deep_clone()),
                *g,
            ),
        }
    }
}

impl Expr {
    /// Copies an expression; the copy has the same model.
    pub fn deep_clone(&self) -> (r: Self)
        ensures r@ == self@,
        decreases self,
    {
        match self {
            Expr::Number(n) => Expr::Number(*n),
            Expr::Symbol(s) => Expr::Symbol(s.clone()),
            Expr::Str(s) => Expr::Str(s.clone()),
            Expr::List(v) => {
                let mut out: Vec<Expr> = Vec::new();
                let mut i: usize = 0;
                while i < v.len()
                    invariant
                        i <= v.len(),
                        *self == Expr::List(*v),
                        exprs_view(out@) == exprs_view(v@.take(i as int)),
                    decreases v.len() - i,
                {
                    proof {
                        assert(decreases_to!(*v => v@));
                        assert(decreases_to!(v@ => v@[i as int]));
                        assert(decreases_to!(*self => (*self)->List_0));
                        assert(decreases_to!(*self => v@[i as int]));
                    }
                    let e = v[i].deep_clone();
                    let ghost old_out = out@;
                    out.push(e);
                    i = i + 1;
                    proof {
                        lemma_exprs_view_push(old_out, e);
                        assert(v@.take(i as int) =~= v@.take(i - 1).push(v@[i - 1]));
                        lemma_exprs_view_push(v@.take(i - 1), v@[i - 1]);
                    }
                }
                assert(v@.take(i as int) =~= v@);
                Expr::List(out)
            }
            Expr::Rec(k, v, l) => {
                let mut out: Vec<Expr> = Vec::new();
                let mut i: usize = 0;
                while i < v.len()
                    invariant
                        i <= v.len(),
                        *self == Expr::Rec(*k, *v, *l),
                        exprs_view(out@) == exprs_view(v@.take(i as int)),
                    decreases v.len() - i,
                {
                    proof {
                        assert(decreases_to!(*v => v@));
                        assert(decreases_to!(v@ => v@[i as int]));
                        assert(decreases_to!(*self => (*self)->Rec_1));
                        assert(decreases_to!(*self => v@[i as int]));
                    }
                    let e = v[i].deep_clone();
                    let ghost old_out = out@;
                    out.push(e);
                    i = i + 1;
                    proof {
                        lemma_exprs_view_push(old_out, e);
                        assert(v@.take(i as int) =~= v@.take(i - 1).push(v@[i - 1]));
                        lemma_exprs_view_push(v@.take(i - 1), v@[i - 1]);
                    }
                }
                assert(v@.take(i as int) =~= v@);
                Expr::Rec(*k, out, Box::new((**l).deep_clone()))
            },
            Expr::Index(i) => Expr::Index(*i),
            Expr::Func(b) => Expr::Func(b.deep_clone()),
            Expr::Lambda(a, b, l) => Expr::Lambda(
                *a,
                Box::new((**b).deep_clone()),
                Box::new((**l).deep_clone()),
            ),
            Expr::Macro(ps, b) => Expr::Macro(clone_strings(ps), Box::new((**b).deep_clone())),
            Expr::Path(b, l) => Expr::Path(Box::new((**b).deep_clone()), Box::new((**l).deep_clone())),
            Expr::Pi(d, c, l) => Expr::Pi(
                Box::new((**d).deep_clone()),
                Box::new((**c).deep_clone()),
                Box::new((**l).deep_clone()),
            ),
            Expr::Sigma(d, c, l) => Expr::Sigma(
                Box::new((**d).deep_clone()),
                Box::new((**c).deep_clone()),
                Box::new((**l).deep_clone()),
            ),
            Expr::GlueType(a, f) => Expr::GlueType(
                Box::new((**a).deep_clone()),
                Box::new((**f).deep_clone()),
            ),
            Expr::Glue(v, f) => Expr::Glue(Box::new((**v).deep_clone()), Box::new((**f).deep_clone())),
        }
    }
}

impl LexEnv {
    pub fn deep_clone(&self) -> (r: Self)
        ensures r@ == self@,
        decreases self,
    {
        match self {
            LexEnv::Empty => LexEnv::Empty,
            LexEnv::Node(e, rest) => LexEnv::Node(
                Box::new((**e).deep_clone()),
                Box::new((**rest).deep_clone()),
            ),
        }
    }

    /// The value at De Bruijn index `i`, if any.
    pub fn get(&self, i: usize) -> (r: Option<Expr>)
        ensures
            i < self@.len() ==> r is Some && r->0@ == self@[i as int],
            i >= self@.len() ==> r is None,
        decreases self,
    {
        match self {
            LexEnv::Empty => None,
            LexEnv::Node(e, rest) => {
                if i == 0 {
                    Some((**e).deep_clone())
                } else {
                    (**rest).get(i - 1)
                }
            }
        }
    }
}

/// Copies a slice of expressions into a vector.
pub fn clone_exprs(v: &[Expr]) -> (r: Vec<Expr>)
    ensures exprs_view(r@) == exprs_view(v@),
{
    let mut out: Vec<Expr> = Vec::new();
    let mut i: usize = 0;
    while i < v.len()
        invariant
            i <= v.len(),
            exprs_view(out@) == exprs_view(v@.take(i as int)),
        decreases v.len() - i,
    {
        let e = v[i].deep_clone();
        let ghost old_out = out@;
        out.push(e);
        i = i + 1;
        proof {
            lemma_exprs_view_push(old_out, e);
            assert(v@.take(i as int) =~= v@.take(i - 1).push(v@[i - 1]));
            lemma_exprs_view_push(v@.take(i - 1), v@[i - 1]);
        }
    }
    assert(v@.take(i as int) =~= v@);
    out
}

/// Truthiness: zero (of either sign) and the empty list are false,
/// everything else is true.
pub open spec fn truthy(e: SExpr) -> bool {
    match e {
        SExpr::Number(b) => !num::is_zero(b),
        SExpr::List(l) => l.len() != 0,
        _ => true,
    }
}

pub fn is_truthy(e: &Expr) -> (r: bool)
    ensures r == truthy(e@),
{
    match e {
        Expr::Number(b) => !num::is_zero_bits(*b),
        Expr::List(l) => {
            proof { lemma_exprs_view(l@); }
            l.len() != 0
        },
        _ => true,
    }
}

/// Symbols that evaluate to themselves.
pub open spec fn is_sentinel(s: Seq<char>) -> bool {
    s == "__letrec_placeholder__"@ || s == "__Path__"@ || s == "__Glue__"@
}

pub fn is_sentinel_symbol(s: &String) -> (r: bool)
    ensures r == is_sentinel(s@),
{
    crate::text::str_eq(s.as_str(), "__letrec_placeholder__") || crate::text::str_eq(s.as_str(), "__Path__")
        || crate::text::str_eq(s.as_str(), "__Glue__")
}

/// A symbol expression.
pub fn sym(s: &str) -> (r: Expr)
    ensures r@ == SExpr::Symbol(s@),
{
    Expr::Symbol(crate::text::owned(s))
}

} // verus!
