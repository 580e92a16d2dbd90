//! The evaluator over the core syntax.

use vstd::prelude::*;
use crate::builtins::{Outcome, apply_prim};
use crate::compiler::{compile, compile_spec, head_is, list2, depth_limit};
use crate::expr::{Expr, SExpr, Builtin, SBuiltin, LexEnv, exprs_view, strings_view, lemma_exprs_view,
    lemma_exprs_view_push, lemma_exprs_view_add, truthy, is_truthy, is_sentinel, is_sentinel_symbol, sym, clone_strings, clone_exprs};
use crate::gc::{Heap, GcHandle, env_get, env_set, lemma_bind_wf};
use crate::host::{Host, Answers, consistent};
use crate::num;
use crate::reader::params_checked;
use crate::semantics::{Outs, HeapV, eval_spec, list_spec, papply_spec, instantiate_spec, pair_spec,
    macro_spec, app_spec, args_spec, seq_spec, let_spec, letrec_vals, qq_spec, qq_items, apply_spec,
    subst, subst_items, member, group_env, placeholder, nil, prepend_outs};
use crate::text::{str_eq, owned, chars_of, string_of, push_decimal};
use crate::render::{fail_message, fail_message_around};

verus! {

/// `r` and the frames `h` after the call are what the model `s` gives.
pub open spec fn agrees(r: Result<Expr, String>, h: HeapV, s: (Outcome, HeapV)) -> bool {
    match s.0 {
        Outcome::Value(v) => r is Ok && r->Ok_0@ == v && h == s.1,
        Outcome::Error(m) => r is Err && r->Err_0@ == m && h == s.1,
    }
}

pub open spec fn agrees_outs(r: Result<Vec<Expr>, String>, h: HeapV, s: (Outs, HeapV)) -> bool {
    match s.0 {
        Outs::Values(vs) => r is Ok && exprs_view(r->Ok_0@) == vs && h == s.1,
        Outs::Error(m) => r is Err && r->Err_0@ == m && h == s.1,
    }
}

/// The heap is well formed and `g` is one of its frames.
pub open spec fn ready(heap: Heap, g: GcHandle) -> bool {
    heap.wf() && g < heap@.len()
}

/// The message for an index past the lexical environment.
pub(crate) fn index_message(i: usize) -> (r: String)
    ensures r@ == crate::semantics::index_error(i as nat),
{
    let mut m = chars_of("unbound index ");
    push_decimal(&mut m, i);
    string_of(m.as_slice())
}

/// The message for a lambda applied to the wrong number of arguments.
fn arity_message(expected: usize, got: usize) -> (r: String)
    ensures r@ == crate::semantics::arity_error(expected as nat, got as nat),
{
    let mut m = chars_of("lambda expected ");
    push_decimal(&mut m, expected);
    let mut part = chars_of(" args, got ");
    m.append(&mut part);
    push_decimal(&mut m, got);
    string_of(m.as_slice())
}

pub(crate) fn nil_expr() -> (r: Expr)
    ensures r@ == nil(),
{
    let v: Vec<Expr> = Vec::new();
    assert(exprs_view(v@) =~= Seq::<SExpr>::empty());
    Expr::List(v)
}

fn push_lex(v: Expr, lex: &LexEnv) -> (r: LexEnv)
    ensures r@ == seq![v@] + lex@,
{
    LexEnv::Node(Box::new(v), Box::new(lex.deep_clone()))
}

/// Evaluates `e` with at most `fuel` levels of nesting.
pub fn eval_fuel<H: Host>(e: &Expr, g: GcHandle, lex: &LexEnv, heap: &mut Heap, host: &H, fuel: u64) -> (r: Result<Expr, String>)
    requires ready(*old(heap), g),
    ensures
        final(heap).wf(),
        final(heap)@.len() == old(heap)@.len(),
        forall|o: Answers| #[trigger] consistent(final(heap).calls(), o) ==>
            consistent(old(heap).calls(), o) && agrees(r, final(heap)@, eval_spec(fuel as nat, e@, g as nat, lex@, old(heap)@, o)),
    decreases fuel, 0nat,
{
    if fuel == 0 {
        return Err(owned("evaluation too deep"));
    }
    match e {
        Expr::Symbol(s) => {
            if is_sentinel_symbol(s) {
                Ok(e.deep_clone())
            } else {
                env_get(heap, g, s.as_str())
            }
        },
        Expr::Index(i) => {
            match lex.get(*i) {
                Some(v) => Ok(v),
                None => Err(index_message(*i)),
            }
        },
        Expr::List(l) => eval_list(l, g, lex, heap, host, fuel - 1),
        _ => Ok(e.deep_clone()),
    }
}


/// `op` names the special form `k`.
fn is_op(op: &String, k: &str) -> (r: bool)
    ensures r == (op@ == k@),
{
    str_eq(op.as_str(), k)
}

/// Evaluates a list expression: special forms, macro calls, applications.
#[verifier::rlimit(60)]
#[verifier::spinoff_prover]
fn eval_list<H: Host>(l: &Vec<Expr>, g: GcHandle, lex: &LexEnv, heap: &mut Heap, host: &H, fuel: u64) -> (r: Result<Expr, String>)
    requires ready(*old(heap), g),
    ensures
        final(heap).wf(),
        final(heap)@.len() == old(heap)@.len(),
        forall|o: Answers| #[trigger] consistent(final(heap).calls(), o) ==>
            consistent(old(heap).calls(), o) && agrees(r, final(heap)@, list_spec(fuel as nat, exprs_view(l@), g as nat, lex@, old(heap)@, o)),
    decreases fuel, 0nat,
{
    proof { lemma_exprs_view(l@); }
    let ghost lv = exprs_view(l@);
    let ghost h0 = heap@;
    if fuel == 0 {
        return Err(owned("evaluation too deep"));
    }
    if l.len() == 0 {
        return Ok(nil_expr());
    }
    let f = fuel - 1;
    let n = l.len();
    match &l[0] {
        Expr::Symbol(op) => {
            if is_op(op, "quote") {
                if n >= 2 { Ok(l[1].deep_clone()) } else { Err(owned("quote: expected an argument")) }
            } else if is_op(op, "quasiquote") {
                if n >= 2 {
                    eval_quasiquote(&l[1], g, lex, heap, host, f, 1)
                } else {
                    Err(owned("quasiquote: expected an argument"))
                }
            } else if is_op(op, "unquote") {
                Err(owned("unquote outside quasiquote"))
            } else if is_op(op, "if") {
                if n < 3 {
                    return Err(owned("if: expected (if cond then [else])"));
                }
                let c = eval_fuel(&l[1], g, lex, heap, host, f);
                match c {
                    Ok(cv) => {
                        if is_truthy(&cv) {
                            eval_fuel(&l[2], g, lex, heap, host, f)
                        } else if n > 3 {
                            eval_fuel(&l[3], g, lex, heap, host, f)
                        } else {
                            Ok(nil_expr())
                        }
                    },
                    Err(m) => Err(m),
                }
            } else if is_op(op, "define") {
                if n >= 3 {
                    match &l[1] {
                        Expr::Symbol(name) => {
                            let v = eval_fuel(&l[2], g, lex, heap, host, f)?;
                            let ghost h1 = heap@;
                            proof { lemma_bind_wf(h1, g as nat, name@, v@); }
                            env_set(heap, g, name.clone(), v.deep_clone());
                            Ok(v)
                        },
                        _ => Err(owned("invalid define: expected (define <symbol> <expr>)")),
                    }
                } else {
                    Err(owned("invalid define: expected (define <symbol> <expr>)"))
                }
            } else if is_op(op, "lambda") {
                if n >= 3 {
                    match &l[1] {
                        Expr::Number(b) => {
                            let arity = num::to_index(*b);
                            Ok(Expr::Lambda(arity, Box::new(l[2].deep_clone()), Box::new(lex.deep_clone())))
                        },
                        _ => Err(owned("lambda core: expected arity")),
                    }
                } else {
                    Err(owned("lambda core: expected arity"))
                }
            } else if is_op(op, "defmacro") {
                if n >= 4 {
                    match &l[1] {
                        Expr::Symbol(name) => {
                            let ps = match params_checked(&l[2]) {
                                Ok(ps) => ps,
                                Err(v) => {
                                    let msg = fail_message("parse_params: expected symbol in parameter list, got ", &v, heap, host);
                                    proof { crate::gc::lemma_wf_frames(h0, heap@); }
                                    return Err(msg);
                                },
                            };
                            let m = Expr::Macro(ps, Box::new(l[3].deep_clone()));
                            proof { lemma_bind_wf(h0, g as nat, name@, m@); }
                            env_set(heap, g, name.clone(), m.deep_clone());
                            Ok(m)
                        },
                        _ => Err(owned("invalid defmacro: expected <symbol>")),
                    }
                } else {
                    Err(owned("invalid defmacro: expected <symbol>"))
                }
            } else if is_op(op, "begin") {
                proof { crate::expr::lemma_exprs_view_skip(l@, 1); }
                eval_seq(l, 1, g, lex, heap, host, f)
            } else if is_op(op, "let") {
                eval_let(l, g, lex, heap, host, f)
            } else if is_op(op, "letrec") {
                eval_letrec(l, g, lex, heap, host, f)
            } else if is_op(op, "funext") {
                if n != 4 {
                    return Err(owned("funext: expected (funext f g p)"));
                }
                let p = eval_fuel(&l[3], g, lex, heap, host, f)?;
                let ghost pv = p@;
                let line = Expr::Func(Builtin::FunextLine(Box::new(p), g));
                assert(line@ == SExpr::Func(SBuiltin::FunextLine(Box::new(pv), g as nat))) by {
                    reveal_with_fuel(crate::expr::expr_view, 2);
                    reveal_with_fuel(crate::expr::builtin_view, 2);
                }
                let ghost lv = line@;
                let v = vec![line, Expr::Index(0)];
                proof {
                    lemma_exprs_view(v@);
                    assert(exprs_view(v@) =~= seq![lv, SExpr::Index(0)]);
                }
                let body = Expr::List(v);
                assert(body@ == crate::semantics::funext_body(pv, g as nat));
                Ok(Expr::Path(Box::new(body), Box::new(lex.deep_clone())))
            } else if is_op(op, "path") {
                if n >= 3 {
                    Ok(Expr::Path(Box::new(l[2].deep_clone()), Box::new(lex.deep_clone())))
                } else {
                    Err(owned("path: expected (path 1 body)"))
                }
            } else if is_op(op, "papply") {
                eval_papply(l, g, lex, heap, host, f)
            } else if is_op(op, "pi") {
                if n >= 3 {
                    Ok(Expr::Pi(Box::new(l[1].deep_clone()), Box::new(l[2].deep_clone()), Box::new(lex.deep_clone())))
                } else {
                    Err(owned("pi: expected (pi dom cod)"))
                }
            } else if is_op(op, "piapply") || is_op(op, "sigmacod") {
                eval_instantiate(is_op(op, "piapply"), l, g, lex, heap, host, f)
            } else if is_op(op, "sigma") {
                if n >= 3 {
                    Ok(Expr::Sigma(Box::new(l[1].deep_clone()), Box::new(l[2].deep_clone()), Box::new(lex.deep_clone())))
                } else {
                    Err(owned("sigma: expected (sigma dom cod)"))
                }
            } else if is_op(op, "glue-type") || is_op(op, "glue") {
                eval_pair(is_op(op, "glue"), l, g, lex, heap, host, f)
            } else if is_op(op, "unglue") {
                if n != 2 {
                    return Err(owned("unglue: expected (unglue <glue-term>)"));
                }
                let gv = eval_fuel(&l[1], g, lex, heap, host, f)?;
                match gv {
                    Expr::Glue(v, eq) => {
                        let args = vec![*v];
                        proof {
                            lemma_exprs_view(args@);
                            assert(exprs_view(args@) =~= seq![args@[0]@]);
                        }
                        apply_fuel(&*eq, args.as_slice(), g, heap, host, f)
                    },
                    other => {
                        let ghost hb = heap@;
                        let m = fail_message("unglue: not a glue term: ", &other, heap, host);
                        proof { crate::gc::lemma_wf_frames(hb, heap@); }
                        Err(m)
                    },
                }
            } else if is_op(op, "__Path__") || is_op(op, "__Glue__") {
                if n != 2 {
                    let mut m = chars_of(op.as_str());
                    let mut tail = chars_of(": expected 1 argument");
                    m.append(&mut tail);
                    return Err(string_of(m.as_slice()));
                }
                let v = eval_fuel(&l[1], g, lex, heap, host, f)?;
                Ok(list2(Expr::Symbol(op.clone()), v))
            } else {
                let found = env_get(heap, g, op.as_str());
                match found {
                    Ok(Expr::Macro(ps, body)) => eval_macro(&ps, &*body, l, g, lex, heap, host, f),
                    _ => eval_app(l, g, lex, heap, host, f),
                }
            }
        },
        _ => eval_app(l, g, lex, heap, host, f),
    }
}


/// Evaluates `l[start..]` in turn, giving the last value.
fn eval_seq<H: Host>(l: &Vec<Expr>, start: usize, g: GcHandle, lex: &LexEnv, heap: &mut Heap, host: &H, fuel: u64) -> (r: Result<Expr, String>)
    requires ready(*old(heap), g), start <= l@.len(),
    ensures
        final(heap).wf(),
        final(heap)@.len() == old(heap)@.len(),
        forall|o: Answers| #[trigger] consistent(final(heap).calls(), o) ==>
            consistent(old(heap).calls(), o) && agrees(r, final(heap)@, seq_spec(fuel as nat, exprs_view(l@).skip(start as int), g as nat, lex@, old(heap)@, nil(), o)),
    decreases fuel, 0nat,
{
    proof { lemma_exprs_view(l@); }
    let ghost lv = exprs_view(l@);
    let ghost h0 = heap@;
    let mut last = nil_expr();
    let mut i: usize = start;
    while i < l.len()
        invariant
            start <= i <= l@.len(),
            lv == exprs_view(l@),
            lv.len() == l@.len(),
            forall|j: int| 0 <= j < l@.len() ==> lv[j] == crate::expr::expr_view(#[trigger] l@[j]),
            ready(*heap, g),
            heap@.len() == old(heap)@.len(),
            h0 == old(heap)@,
            forall|o: Answers| #[trigger] consistent(heap.calls(), o) ==> consistent(old(heap).calls(), o)
                && seq_spec(fuel as nat, lv.skip(start as int), g as nat, lex@, h0, nil(), o)
                    == seq_spec(fuel as nat, lv.skip(i as int), g as nat, lex@, heap@, last@, o),
        decreases l@.len() - i,
    {
        if fuel == 0 {
            return Err(owned("evaluation too deep"));
        }
        proof {
            assert(lv.skip(i as int)[0] == lv[i as int]);
            assert(lv.skip(i as int).skip(1) =~= lv.skip(i + 1));
        }
        let ghost hb = heap@;
        let ghost cb = heap.calls();
        let ghost lastb = last@;
        let r = eval_fuel(&l[i], g, lex, heap, host, fuel - 1);
        match r {
            Ok(v) => {
                last = v;
            },
            Err(m) => {
                return Err(m);
            },
        }
        i = i + 1;
        proof {
            assert forall|o: Answers| #[trigger] consistent(heap.calls(), o) implies consistent(old(heap).calls(), o)
                && seq_spec(fuel as nat, lv.skip(start as int), g as nat, lex@, h0, nil(), o)
                    == seq_spec(fuel as nat, lv.skip(i as int), g as nat, lex@, heap@, last@, o) by {
                assert(consistent(cb, o));
                assert(seq_spec(fuel as nat, lv.skip(i - 1), g as nat, lex@, hb, lastb, o)
                    == seq_spec(fuel as nat, lv.skip(i as int), g as nat, lex@, heap@, last@, o));
            }
        }
    }
    proof {
        assert(lv.skip(i as int) =~= Seq::<SExpr>::empty());
    }
    Ok(last)
}

/// Evaluates `l[start..]` left to right, giving the values.
fn eval_args<H: Host>(l: &Vec<Expr>, start: usize, g: GcHandle, lex: &LexEnv, heap: &mut Heap, host: &H, fuel: u64) -> (r: Result<Vec<Expr>, String>)
    requires ready(*old(heap), g), start <= l@.len(),
    ensures
        final(heap).wf(),
        final(heap)@.len() == old(heap)@.len(),
        forall|o: Answers| #[trigger] consistent(final(heap).calls(), o) ==>
            consistent(old(heap).calls(), o) && agrees_outs(r, final(heap)@, args_spec(fuel as nat, exprs_view(l@).skip(start as int), g as nat, lex@, old(heap)@, o)),
    decreases fuel, 0nat,
{
    proof { lemma_exprs_view(l@); }
    let ghost lv = exprs_view(l@);
    let ghost h0 = heap@;
    let mut vals: Vec<Expr> = Vec::new();
    let mut i: usize = start;
    proof {
        assert(exprs_view(vals@) =~= Seq::<SExpr>::empty());
        assert forall|o: Answers| #[trigger] consistent(heap.calls(), o) implies consistent(old(heap).calls(), o)
            && args_spec(fuel as nat, lv.skip(start as int), g as nat, lex@, h0, o)
                == prepend_outs(exprs_view(vals@), args_spec(fuel as nat, lv.skip(i as int), g as nat, lex@, heap@, o)) by {
            let w = args_spec(fuel as nat, lv.skip(start as int), g as nat, lex@, h0, o);
            if let Outs::Values(vs) = w.0 {
                assert(Seq::<SExpr>::empty() + vs =~= vs);
            }
        }
    }
    while i < l.len()
        invariant
            start <= i <= l@.len(),
            lv == exprs_view(l@),
            lv.len() == l@.len(),
            forall|j: int| 0 <= j < l@.len() ==> lv[j] == crate::expr::expr_view(#[trigger] l@[j]),
            ready(*heap, g),
            heap@.len() == old(heap)@.len(),
            h0 == old(heap)@,
            forall|o: Answers| #[trigger] consistent(heap.calls(), o) ==> consistent(old(heap).calls(), o)
                && args_spec(fuel as nat, lv.skip(start as int), g as nat, lex@, h0, o)
                    == prepend_outs(exprs_view(vals@), args_spec(fuel as nat, lv.skip(i as int), g as nat, lex@, heap@, o)),
        decreases l@.len() - i,
    {
        if fuel == 0 {
            return Err(owned("evaluation too deep"));
        }
        proof {
            assert(lv.skip(i as int)[0] == lv[i as int]);
            assert(lv.skip(i as int).skip(1) =~= lv.skip(i + 1));
        }
        let ghost hb = heap@;
        let ghost cb = heap.calls();
        let ghost v0 = vals@;
        let ghost mut vv: SExpr = nil();
        let r = eval_fuel(&l[i], g, lex, heap, host, fuel - 1);
        match r {
            Ok(v) => {
                proof { vv = v@; }
                vals.push(v);
                proof { lemma_exprs_view_push(v0, v); }
            },
            Err(m) => {
                return Err(m);
            },
        }
        i = i + 1;
        proof {
            assert forall|o: Answers| #[trigger] consistent(heap.calls(), o) implies consistent(old(heap).calls(), o)
                && args_spec(fuel as nat, lv.skip(start as int), g as nat, lex@, h0, o)
                    == prepend_outs(exprs_view(vals@), args_spec(fuel as nat, lv.skip(i as int), g as nat, lex@, heap@, o)) by {
                assert(consistent(cb, o));
                let rest = args_spec(fuel as nat, lv.skip(i as int), g as nat, lex@, heap@, o);
                if let Outs::Values(vs) = rest.0 {
                    assert(exprs_view(v0) + (seq![vv] + vs) =~= exprs_view(vals@) + vs);
                }
            }
        }
    }
    proof {
        assert(lv.skip(i as int) =~= Seq::<SExpr>::empty());
        assert(exprs_view(vals@) + Seq::<SExpr>::empty() =~= exprs_view(vals@));
    }
    Ok(vals)
}


/// The rest of a `let` form once bindings `bs` remain to be made over the
/// lexical environment `env`.
pub open spec fn let_tail(f: nat, l: Seq<SExpr>, bs: Seq<SExpr>, g: nat, env: Seq<SExpr>, h: HeapV, o: Answers) -> (Outcome, HeapV) {
    let (lr, h1) = let_spec(f, bs, g, env, h, o);
    match lr {
        Outs::Values(lex2) => seq_spec(f, l.skip(2), g, lex2, h1, nil(), o),
        Outs::Error(m) => (Outcome::Error(m), h1),
    }
}

/// `(let ((name expr)...) body...)`.
fn eval_let<H: Host>(l: &Vec<Expr>, g: GcHandle, lex: &LexEnv, heap: &mut Heap, host: &H, f: u64) -> (r: Result<Expr, String>)
    requires ready(*old(heap), g),
    ensures
        final(heap).wf(),
        final(heap)@.len() == old(heap)@.len(),
        forall|o: Answers| #[trigger] consistent(final(heap).calls(), o) ==>
            consistent(old(heap).calls(), o) && agrees(r, final(heap)@, crate::semantics::let_form(f as nat, exprs_view(l@), g as nat, lex@, old(heap)@, o)),
    decreases f, 1nat,
{
    proof { lemma_exprs_view(l@); }
    let ghost lv = exprs_view(l@);
    let ghost h0 = heap@;
    if l.len() < 2 {
        return Err(owned("let: expected bindings"));
    }
    let mut cur = lex.deep_clone();
    let empty: Vec<Expr> = Vec::new();
    let bs = match &l[1] {
        Expr::List(bs) => bs,
        _ => &empty,
    };
    proof { lemma_exprs_view(bs@); }
    let ghost bv = exprs_view(bs@);
    assert(bv.skip(0) =~= bv);
    proof {
        assert forall|o: Answers| #[trigger] consistent(heap.calls(), o) implies consistent(old(heap).calls(), o)
            && crate::semantics::let_form(f as nat, lv, g as nat, lex@, h0, o)
                == let_tail(f as nat, lv, bv.skip(0), g as nat, cur@, heap@, o) by {
            if !(lv[1] is List) {
                assert(bv =~= Seq::<SExpr>::empty());
            }
        }
    }
    let mut i: usize = 0;
    while i < bs.len()
        invariant
            i <= bs@.len(),
            lv == exprs_view(l@),
            bv == exprs_view(bs@),
            bv.len() == bs@.len(),
            forall|j: int| 0 <= j < bs@.len() ==> bv[j] == crate::expr::expr_view(#[trigger] bs@[j]),
            ready(*heap, g),
            heap@.len() == old(heap)@.len(),
            h0 == old(heap)@,
            forall|o: Answers| #[trigger] consistent(heap.calls(), o) ==> consistent(old(heap).calls(), o)
                && crate::semantics::let_form(f as nat, lv, g as nat, lex@, h0, o)
                    == let_tail(f as nat, lv, bv.skip(i as int), g as nat, cur@, heap@, o),
        decreases bs@.len() - i,
    {
        proof {
            assert(bv.skip(i as int)[0] == bv[i as int]);
            assert(bv.skip(i as int).skip(1) =~= bv.skip(i + 1));
        }
        if f == 0 {
            return Err(owned("evaluation too deep"));
        }
        match &bs[i] {
            Expr::List(pair) => {
                proof { lemma_exprs_view(pair@); }
                if pair.len() < 2 {
                    return Err(owned("let: each binding must be (name expr)"));
                }
                let ghost hb = heap@;
                let ghost cb = heap.calls();
                let ghost envb = cur@;
                match eval_fuel(&pair[1], g, &cur, heap, host, f - 1) {
                    Ok(v) => {
                        let ghost vv = v@;
                        cur = push_lex(v, &cur);
                        proof {
                            assert forall|o: Answers| #[trigger] consistent(heap.calls(), o) implies consistent(old(heap).calls(), o)
                                && crate::semantics::let_form(f as nat, lv, g as nat, lex@, h0, o)
                                    == let_tail(f as nat, lv, bv.skip(i + 1), g as nat, cur@, heap@, o) by {
                                assert(consistent(cb, o));
                                assert(let_spec(f as nat, bv.skip(i as int), g as nat, envb, hb, o)
                                    == let_spec(f as nat, bv.skip(i + 1), g as nat, seq![vv] + envb, heap@, o));
                            }
                        }
                    },
                    Err(m) => {
                        proof {
                            assert forall|o: Answers| #[trigger] consistent(heap.calls(), o) implies consistent(old(heap).calls(), o)
                                && crate::semantics::let_form(f as nat, lv, g as nat, lex@, h0, o) == (Outcome::Error(m@), heap@) by {
                                assert(consistent(cb, o));
                            }
                        }
                        return Err(m);
                    },
                }
            },
            _ => {},
        }
        i = i + 1;
    }
    proof {
        assert(bv.skip(i as int) =~= Seq::<SExpr>::empty());
        crate::expr::lemma_exprs_view_skip(l@, 2);
    }
    eval_seq(l, 2, g, &cur, heap, host, f)
}

/// A lexical environment of `n` letrec placeholders over `lex`.
fn placeholders(n: usize, lex: &LexEnv) -> (r: LexEnv)
    ensures r@ == Seq::new(n as nat, |i: int| placeholder()) + lex@,
{
    let mut cur = lex.deep_clone();
    let mut k: usize = 0;
    while k < n
        invariant k <= n, cur@ == Seq::new(k as nat, |i: int| placeholder()) + lex@,
        decreases n - k,
    {
        cur = push_lex(sym("__letrec_placeholder__"), &cur);
        k = k + 1;
        assert(cur@ =~= Seq::new(k as nat, |i: int| placeholder()) + lex@);
    }
    cur
}

/// `vals[k]` pushed onto `base` for each `k` in turn: `vals` reversed, then
/// `base`.
fn push_all(vals: &[Expr], base: &LexEnv) -> (r: LexEnv)
    ensures r@ == exprs_view(vals@).reverse() + base@,
{
    proof { lemma_exprs_view(vals@); }
    let mut cur = base.deep_clone();
    let mut k: usize = 0;
    assert(exprs_view(vals@).take(0).reverse() + base@ =~= base@);
    while k < vals.len()
        invariant
            k <= vals@.len(),
            exprs_view(vals@).len() == vals@.len(),
            forall|j: int| 0 <= j < vals@.len() ==> exprs_view(vals@)[j] == crate::expr::expr_view(#[trigger] vals@[j]),
            cur@ == exprs_view(vals@).take(k as int).reverse() + base@,
        decreases vals@.len() - k,
    {
        cur = push_lex(vals[k].deep_clone(), &cur);
        k = k + 1;
        assert(cur@ =~= exprs_view(vals@).take(k as int).reverse() + base@);
    }
    assert(exprs_view(vals@).take(k as int) =~= exprs_view(vals@));
    cur
}

/// The environment of a `letrec` body over `lex`, the group's values being
/// `vals`.
fn group_env_exec(vals: &Vec<Expr>, lex: &LexEnv) -> (r: LexEnv)
    ensures r@ == group_env(exprs_view(vals@), lex@),
{
    proof { lemma_exprs_view(vals@); }
    let ghost vv = exprs_view(vals@);
    let ghost ms = Seq::new(vv.len(), |j: int| member(vv[j], j as nat, vv, lex@));
    let mut cur = lex.deep_clone();
    let mut k: usize = 0;
    assert(ms.take(0).reverse() + lex@ =~= lex@);
    while k < vals.len()
        invariant
            k <= vals@.len(),
            vv == exprs_view(vals@),
            vv.len() == vals@.len(),
            forall|j: int| 0 <= j < vals@.len() ==> vv[j] == crate::expr::expr_view(#[trigger] vals@[j]),
            ms == Seq::new(vv.len(), |j: int| member(vv[j], j as nat, vv, lex@)),
            cur@ == ms.take(k as int).reverse() + lex@,
        decreases vals@.len() - k,
    {
        let m = match &vals[k] {
            Expr::Lambda(..) => Expr::Rec(k, clone_exprs(vals.as_slice()), Box::new(lex.deep_clone())),
            other => other.deep_clone(),
        };
        assert(m@ == ms[k as int]);
        cur = push_lex(m, &cur);
        k = k + 1;
        assert(cur@ =~= ms.take(k as int).reverse() + lex@);
    }
    assert(ms.take(k as int) =~= ms);
    cur
}

/// The rest of a `letrec` form once the values `done` are computed and
/// bindings `bs` remain, in the environment `ph` of placeholders.
pub open spec fn letrec_tail(f: nat, l: Seq<SExpr>, done: Seq<SExpr>, bs: Seq<SExpr>, g: nat, ph: Seq<SExpr>, lex: Seq<SExpr>, h: HeapV, o: Answers) -> (Outcome, HeapV) {
    let (vr, h1) = letrec_vals(f, bs, g, ph, h, o);
    match vr {
        Outs::Values(vals) => seq_spec(f, l.skip(2), g, group_env(done + vals, lex), h1, nil(), o),
        Outs::Error(m) => (Outcome::Error(m), h1),
    }
}

/// `(letrec ((name expr)...) body...)`: every right-hand side sees every
/// name (bound to a placeholder); the body sees each name bound to its
/// value, a lambda becoming a member of the recursive group.
fn eval_letrec<H: Host>(l: &Vec<Expr>, g: GcHandle, lex: &LexEnv, heap: &mut Heap, host: &H, f: u64) -> (r: Result<Expr, String>)
    requires ready(*old(heap), g),
    ensures
        final(heap).wf(),
        final(heap)@.len() == old(heap)@.len(),
        forall|o: Answers| #[trigger] consistent(final(heap).calls(), o) ==>
            consistent(old(heap).calls(), o) && agrees(r, final(heap)@, crate::semantics::letrec_form(f as nat, exprs_view(l@), g as nat, lex@, old(heap)@, o)),
    decreases f, 1nat,
{
    proof { lemma_exprs_view(l@); }
    let ghost lv = exprs_view(l@);
    let ghost h0 = heap@;
    if l.len() < 3 {
        return Err(owned("letrec: expected bindings and a body"));
    }
    let bs = match &l[1] {
        Expr::List(bs) => bs,
        _ => { return Err(owned("letrec: bindings must be a list")); },
    };
    proof { lemma_exprs_view(bs@); }
    let ghost bv = exprs_view(bs@);
    let ph = placeholders(bs.len(), lex);
    let mut vals: Vec<Expr> = Vec::new();
    let mut i: usize = 0;
    proof {
        assert(bv.skip(0) =~= bv);
        assert(exprs_view(vals@) =~= Seq::<SExpr>::empty());
        assert(lv[1] == SExpr::List(bv));
        assert forall|o: Answers| #[trigger] consistent(heap.calls(), o) implies consistent(old(heap).calls(), o)
            && crate::semantics::letrec_form(f as nat, lv, g as nat, lex@, h0, o)
                == letrec_tail(f as nat, lv, exprs_view(vals@), bv.skip(0), g as nat, ph@, lex@, heap@, o) by {
            let w = letrec_vals(f as nat, bv, g as nat, ph@, h0, o);
            if let Outs::Values(vs) = w.0 {
                assert(Seq::<SExpr>::empty() + vs =~= vs);
            }
        }
    }
    while i < bs.len()
        invariant
            i <= bs@.len(),
            lv == exprs_view(l@),
            bv == exprs_view(bs@),
            bv.len() == bs@.len(),
            forall|j: int| 0 <= j < bs@.len() ==> bv[j] == crate::expr::expr_view(#[trigger] bs@[j]),
            ready(*heap, g),
            heap@.len() == old(heap)@.len(),
            h0 == old(heap)@,
            forall|o: Answers| #[trigger] consistent(heap.calls(), o) ==> consistent(old(heap).calls(), o)
                && crate::semantics::letrec_form(f as nat, lv, g as nat, lex@, h0, o)
                    == letrec_tail(f as nat, lv, exprs_view(vals@), bv.skip(i as int), g as nat, ph@, lex@, heap@, o),
        decreases bs@.len() - i,
    {
        proof {
            assert(bv.skip(i as int)[0] == bv[i as int]);
            assert(bv.skip(i as int).skip(1) =~= bv.skip(i + 1));
        }
        if f == 0 {
            return Err(owned("evaluation too deep"));
        }
        match &bs[i] {
            Expr::List(pair) => {
                proof { lemma_exprs_view(pair@); }
                if pair.len() < 2 {
                    return Err(owned("letrec: each binding must be (name expr)"));
                }
                let ghost hb = heap@;
                let ghost cb = heap.calls();
                let ghost v0 = vals@;
                match eval_fuel(&pair[1], g, &ph, heap, host, f - 1) {
                    Ok(v) => {
                        let ghost vv = v@;
                        vals.push(v);
                        proof {
                            lemma_exprs_view_push(v0, v);
                            assert forall|o: Answers| #[trigger] consistent(heap.calls(), o) implies consistent(old(heap).calls(), o)
                                && crate::semantics::letrec_form(f as nat, lv, g as nat, lex@, h0, o)
                                    == letrec_tail(f as nat, lv, exprs_view(vals@), bv.skip(i + 1), g as nat, ph@, lex@, heap@, o) by {
                                assert(consistent(cb, o));
                                let rest = letrec_vals(f as nat, bv.skip(i + 1), g as nat, ph@, heap@, o);
                                if let Outs::Values(vs) = rest.0 {
                                    assert(exprs_view(v0) + (seq![vv] + vs) =~= exprs_view(vals@) + vs);
                                }
                            }
                        }
                    },
                    Err(m) => {
                        proof {
                            assert forall|o: Answers| #[trigger] consistent(heap.calls(), o) implies consistent(old(heap).calls(), o)
                                && crate::semantics::letrec_form(f as nat, lv, g as nat, lex@, h0, o) == (Outcome::Error(m@), heap@) by {
                                assert(consistent(cb, o));
                            }
                        }
                        return Err(m);
                    },
                }
            },
            _ => {
                return Err(owned("letrec: each binding must be a list"));
            },
        }
        i = i + 1;
    }
    proof {
        assert(bv.skip(i as int) =~= Seq::<SExpr>::empty());
        assert(exprs_view(vals@) + Seq::<SExpr>::empty() =~= exprs_view(vals@));
        crate::expr::lemma_exprs_view_skip(l@, 2);
    }
    let fin = group_env_exec(&vals, lex);
    eval_seq(l, 2, g, &fin, heap, host, f)
}

/// Evaluates the quasiquoted template `e` at nesting `depth`.
fn eval_quasiquote<H: Host>(e: &Expr, g: GcHandle, lex: &LexEnv, heap: &mut Heap, host: &H, fuel: u64, depth: u64) -> (r: Result<Expr, String>)
    requires ready(*old(heap), g), 1 <= depth <= depth_limit(),
    ensures
        final(heap).wf(),
        final(heap)@.len() == old(heap)@.len(),
        forall|o: Answers| #[trigger] consistent(final(heap).calls(), o) ==>
            consistent(old(heap).calls(), o) && agrees(r, final(heap)@, qq_spec(fuel as nat, e@, g as nat, lex@, old(heap)@, depth as nat, o)),
    decreases fuel, 0nat,
{
    if fuel == 0 {
        return Err(owned("evaluation too deep"));
    }
    let f = fuel - 1;
    match e {
        Expr::List(l) => {
            proof { lemma_exprs_view(l@); }
            if l.len() == 0 {
                return Ok(e.deep_clone());
            }
            if head_is(l, "unquote") {
                if l.len() < 2 {
                    return Err(owned("unquote: expected an argument"));
                }
                if depth == 1 {
                    eval_fuel(&l[1], g, lex, heap, host, f)
                } else {
                    let c = eval_quasiquote(&l[1], g, lex, heap, host, f, depth - 1)?;
                    Ok(list2(sym("unquote"), c))
                }
            } else if head_is(l, "quasiquote") {
                if l.len() < 2 || depth == u64::MAX {
                    return Err(owned("quasiquote: malformed or too deeply nested"));
                }
                let c = eval_quasiquote(&l[1], g, lex, heap, host, f, depth + 1)?;
                Ok(list2(sym("quasiquote"), c))
            } else {
                let vs = eval_qq_items(l, g, lex, heap, host, f, depth)?;
                Ok(Expr::List(vs))
            }
        },
        _ => Ok(e.deep_clone()),
    }
}

/// The items of a quasiquoted list; `unquote-splicing` at depth one splices
/// the list it evaluates to.
fn eval_qq_items<H: Host>(l: &Vec<Expr>, g: GcHandle, lex: &LexEnv, heap: &mut Heap, host: &H, fuel: u64, depth: u64) -> (r: Result<Vec<Expr>, String>)
    requires ready(*old(heap), g), 1 <= depth <= depth_limit(),
    ensures
        final(heap).wf(),
        final(heap)@.len() == old(heap)@.len(),
        forall|o: Answers| #[trigger] consistent(final(heap).calls(), o) ==>
            consistent(old(heap).calls(), o) && agrees_outs(r, final(heap)@, qq_items(fuel as nat, exprs_view(l@), g as nat, lex@, old(heap)@, depth as nat, o)),
    decreases fuel, 0nat,
{
    proof { lemma_exprs_view(l@); }
    let ghost lv = exprs_view(l@);
    let ghost h0 = heap@;
    let mut vals: Vec<Expr> = Vec::new();
    let mut i: usize = 0;
    proof {
        assert(lv.skip(0) =~= lv);
        assert(exprs_view(vals@) =~= Seq::<SExpr>::empty());
        assert forall|o: Answers| #[trigger] consistent(heap.calls(), o) implies consistent(old(heap).calls(), o)
            && qq_items(fuel as nat, lv, g as nat, lex@, h0, depth as nat, o)
                == prepend_outs(exprs_view(vals@), qq_items(fuel as nat, lv.skip(i as int), g as nat, lex@, heap@, depth as nat, o)) by {
            let w = qq_items(fuel as nat, lv, g as nat, lex@, h0, depth as nat, o);
            if let Outs::Values(vs) = w.0 {
                assert(Seq::<SExpr>::empty() + vs =~= vs);
            }
        }
    }
    while i < l.len()
        invariant
            i <= l@.len(),
            1 <= depth <= depth_limit(),
            lv == exprs_view(l@),
            lv.len() == l@.len(),
            forall|j: int| 0 <= j < l@.len() ==> lv[j] == crate::expr::expr_view(#[trigger] l@[j]),
            ready(*heap, g),
            heap@.len() == old(heap)@.len(),
            h0 == old(heap)@,
            forall|o: Answers| #[trigger] consistent(heap.calls(), o) ==> consistent(old(heap).calls(), o)
                && qq_items(fuel as nat, lv, g as nat, lex@, h0, depth as nat, o)
                    == prepend_outs(exprs_view(vals@), qq_items(fuel as nat, lv.skip(i as int), g as nat, lex@, heap@, depth as nat, o)),
        decreases l@.len() - i,
    {
        if fuel == 0 {
            return Err(owned("evaluation too deep"));
        }
        proof {
            assert(lv.skip(i as int)[0] == lv[i as int]);
            assert(lv.skip(i as int).skip(1) =~= lv.skip(i + 1));
        }
        let ghost hb = heap@;
        let ghost cb = heap.calls();
        let ghost v0 = vals@;
        let item = &l[i];
        let mut done = false;
        if depth == 1 {
            if let Expr::List(inner) = item {
                proof { lemma_exprs_view(inner@); }
                if inner.len() == 2 && head_is(inner, "unquote-splicing") {
                    match eval_fuel(&inner[1], g, lex, heap, host, fuel - 1) {
                        Ok(Expr::List(mut vs)) => {
                            let ghost vs0 = vs@;
                            vals.append(&mut vs);
                            proof {
                                lemma_exprs_view_add(v0, vs0);
                                assert forall|o: Answers| #[trigger] consistent(heap.calls(), o) implies consistent(old(heap).calls(), o)
                                    && qq_items(fuel as nat, lv, g as nat, lex@, h0, depth as nat, o)
                                        == prepend_outs(exprs_view(vals@), qq_items(fuel as nat, lv.skip(i + 1), g as nat, lex@, heap@, depth as nat, o)) by {
                                    assert(consistent(cb, o));
                                    let rest = qq_items(fuel as nat, lv.skip(i + 1), g as nat, lex@, heap@, depth as nat, o);
                                    if let Outs::Values(rv) = rest.0 {
                                        assert(exprs_view(v0) + (exprs_view(vs0) + rv) =~= exprs_view(vals@) + rv);
                                    }
                                }
                            }
                        },
                        Ok(_) => {
                            proof {
                                assert forall|o: Answers| #[trigger] consistent(heap.calls(), o) implies consistent(old(heap).calls(), o)
                                    && qq_items(fuel as nat, lv, g as nat, lex@, h0, depth as nat, o) == (Outs::Error("unquote-splicing: expected a list"@), heap@) by {
                                    assert(consistent(cb, o));
                                }
                            }
                            return Err(owned("unquote-splicing: expected a list"));
                        },
                        Err(m) => {
                            proof {
                                assert forall|o: Answers| #[trigger] consistent(heap.calls(), o) implies consistent(old(heap).calls(), o)
                                    && qq_items(fuel as nat, lv, g as nat, lex@, h0, depth as nat, o) == (Outs::Error(m@), heap@) by {
                                    assert(consistent(cb, o));
                                }
                            }
                            return Err(m);
                        },
                    }
                    done = true;
                }
            }
        }
        if !done {
            match eval_quasiquote(item, g, lex, heap, host, fuel - 1, depth) {
                Ok(c) => {
                    let ghost cv = c@;
                    vals.push(c);
                    proof {
                        lemma_exprs_view_push(v0, c);
                        assert forall|o: Answers| #[trigger] consistent(heap.calls(), o) implies consistent(old(heap).calls(), o)
                            && qq_items(fuel as nat, lv, g as nat, lex@, h0, depth as nat, o)
                                == prepend_outs(exprs_view(vals@), qq_items(fuel as nat, lv.skip(i + 1), g as nat, lex@, heap@, depth as nat, o)) by {
                            assert(consistent(cb, o));
                            let rest = qq_items(fuel as nat, lv.skip(i + 1), g as nat, lex@, heap@, depth as nat, o);
                            if let Outs::Values(rv) = rest.0 {
                                assert(exprs_view(v0) + (seq![cv] + rv) =~= exprs_view(vals@) + rv);
                            }
                        }
                    }
                },
                Err(m) => {
                    proof {
                        assert forall|o: Answers| #[trigger] consistent(heap.calls(), o) implies consistent(old(heap).calls(), o)
                            && qq_items(fuel as nat, lv, g as nat, lex@, h0, depth as nat, o) == (Outs::Error(m@), heap@) by {
                            assert(consistent(cb, o));
                        }
                    }
                    return Err(m);
                },
            }
        }
        i = i + 1;
    }
    proof {
        assert(lv.skip(i as int) =~= Seq::<SExpr>::empty());
        assert(exprs_view(vals@) + Seq::<SExpr>::empty() =~= exprs_view(vals@));
    }
    Ok(vals)
}

/// `(papply p t)`.
fn eval_papply<H: Host>(l: &Vec<Expr>, g: GcHandle, lex: &LexEnv, heap: &mut Heap, host: &H, fuel: u64) -> (r: Result<Expr, String>)
    requires ready(*old(heap), g),
    ensures
        final(heap).wf(),
        final(heap)@.len() == old(heap)@.len(),
        forall|o: Answers| #[trigger] consistent(final(heap).calls(), o) ==>
            consistent(old(heap).calls(), o) && agrees(r, final(heap)@, papply_spec(fuel as nat, exprs_view(l@), g as nat, lex@, old(heap)@, o)),
    decreases fuel, 0nat,
{
    proof { lemma_exprs_view(l@); }
    if fuel == 0 || l.len() != 3 {
        return Err(owned("papply: expected (papply <path> <interval-point>)"));
    }
    let f = fuel - 1;
    let p = eval_fuel(&l[1], g, lex, heap, host, f)?;
    let t = eval_fuel(&l[2], g, lex, heap, host, f)?;
    let ghost hb = heap@;
    let b = match &t {
        Expr::Number(b) => *b,
        _ => {
            let m = fail_message("papply: interval point must be a number, got ", &t, heap, host);
            proof { crate::gc::lemma_wf_frames(hb, heap@); }
            return Err(m);
        },
    };
    if !num::in_unit_interval_bits(b) {
        let m = fail_message_around("papply: interval point ", &t, " out of bounds, expected [0,1]", heap, host);
        proof { crate::gc::lemma_wf_frames(hb, heap@); }
        return Err(m);
    }
    match p {
        Expr::Path(body, penv) => {
            let env2 = LexEnv::Node(Box::new(t), penv);
            eval_fuel(&*body, g, &env2, heap, host, f)
        },
        other => {
            let m = fail_message("papply: not a path: ", &other, heap, host);
            proof { crate::gc::lemma_wf_frames(hb, heap@); }
            Err(m)
        },
    }
}

/// `(piapply p v)` when `is_pi`, else `(sigmacod s v)`.
fn eval_instantiate<H: Host>(is_pi: bool, l: &Vec<Expr>, g: GcHandle, lex: &LexEnv, heap: &mut Heap, host: &H, fuel: u64) -> (r: Result<Expr, String>)
    requires ready(*old(heap), g),
    ensures
        final(heap).wf(),
        final(heap)@.len() == old(heap)@.len(),
        forall|o: Answers| #[trigger] consistent(final(heap).calls(), o) ==>
            consistent(old(heap).calls(), o) && agrees(r, final(heap)@, instantiate_spec(fuel as nat, is_pi, exprs_view(l@), g as nat, lex@, old(heap)@, o)),
    decreases fuel, 0nat,
{
    proof { lemma_exprs_view(l@); }
    if fuel == 0 || l.len() != 3 {
        return Err(owned(if is_pi {
            "piapply: expected (piapply <pi-type> <value>)"
        } else {
            "sigmacod: expected (sigmacod <sigma-type> <value>)"
        }));
    }
    let f = fuel - 1;
    let p = eval_fuel(&l[1], g, lex, heap, host, f)?;
    let v = eval_fuel(&l[2], g, lex, heap, host, f)?;
    let ghost hb = heap@;
    match p {
        Expr::Pi(_, cod, penv) if is_pi => {
            let env2 = LexEnv::Node(Box::new(v), penv);
            eval_fuel(&*cod, g, &env2, heap, host, f)
        },
        Expr::Sigma(_, cod, penv) if !is_pi => {
            let env2 = LexEnv::Node(Box::new(v), penv);
            eval_fuel(&*cod, g, &env2, heap, host, f)
        },
        other => {
            let m = if is_pi {
                fail_message("piapply: not a pi-type: ", &other, heap, host)
            } else {
                fail_message("sigmacod: not a sigma-type: ", &other, heap, host)
            };
            proof { crate::gc::lemma_wf_frames(hb, heap@); }
            Err(m)
        },
    }
}

/// `(glue val equiv)` when `is_glue`, else `(glue-type base equiv)`.
fn eval_pair<H: Host>(is_glue: bool, l: &Vec<Expr>, g: GcHandle, lex: &LexEnv, heap: &mut Heap, host: &H, fuel: u64) -> (r: Result<Expr, String>)
    requires ready(*old(heap), g),
    ensures
        final(heap).wf(),
        final(heap)@.len() == old(heap)@.len(),
        forall|o: Answers| #[trigger] consistent(final(heap).calls(), o) ==>
            consistent(old(heap).calls(), o) && agrees(r, final(heap)@, pair_spec(fuel as nat, is_glue, exprs_view(l@), g as nat, lex@, old(heap)@, o)),
    decreases fuel, 0nat,
{
    proof { lemma_exprs_view(l@); }
    if fuel == 0 || l.len() != 3 {
        return Err(owned(if is_glue {
            "glue: expected (glue <val> <equiv>)"
        } else {
            "glue-type: expected (glue-type <base-type> <equiv>)"
        }));
    }
    let f = fuel - 1;
    let a = eval_fuel(&l[1], g, lex, heap, host, f)?;
    let b = eval_fuel(&l[2], g, lex, heap, host, f)?;
    if is_glue {
        Ok(Expr::Glue(Box::new(a), Box::new(b)))
    } else {
        Ok(Expr::GlueType(Box::new(a), Box::new(b)))
    }
}

/// Replaces the macro parameters `ps` in `e` by the quoted arguments.
fn subst_exec(e: &Expr, ps: &Vec<String>, args: &[Expr]) -> (r: Expr)
    ensures r@ == subst(e@, strings_view(ps@), exprs_view(args@)),
    decreases e,
{
    proof { lemma_exprs_view(args@); }
    match e {
        Expr::Symbol(s) => match crate::gc::find_in(ps, s.as_str()) {
            Some(i) => {
                if i < args.len() {
                    list2(sym("quote"), args[i].deep_clone())
                } else {
                    e.deep_clone()
                }
            },
            None => e.deep_clone(),
        },
        Expr::List(l) => {
            proof { lemma_exprs_view(l@); }
            if head_is(l, "quote") {
                return e.deep_clone();
            }
            let ghost lv = exprs_view(l@);
            let ghost pv = strings_view(ps@);
            let ghost av = exprs_view(args@);
            let mut out: Vec<Expr> = Vec::new();
            let mut k: usize = 0;
            while k < l.len()
                invariant
                    k <= l@.len(),
                    *e == Expr::List(*l),
                    lv == exprs_view(l@),
                    lv.len() == l@.len(),
                    forall|j: int| 0 <= j < l@.len() ==> lv[j] == crate::expr::expr_view(#[trigger] l@[j]),
                    pv == strings_view(ps@),
                    av == exprs_view(args@),
                    out@.len() == k,
                    forall|j: int| 0 <= j < k ==> (#[trigger] out@[j])@ == subst(lv[j], pv, av),
                decreases l@.len() - k,
            {
                proof {
                    assert(decreases_to!(*l => l@));
                    assert(decreases_to!(l@ => l@[k as int]));
                    assert(decreases_to!(*e => (*e)->List_0));
                    assert(decreases_to!(*e => l@[k as int]));
                }
                let c = subst_exec(&l[k], ps, args);
                out.push(c);
                k = k + 1;
            }
            proof {
                lemma_exprs_view(out@);
                crate::semantics::lemma_subst_items(lv, pv, av);
                assert(exprs_view(out@) =~= subst_items(lv, pv, av));
            }
            Expr::List(out)
        },
        _ => e.deep_clone(),
    }
}

/// A call of the macro `(ps, body)`: the expansion is evaluated, then its
/// value is compiled and evaluated in place of the call.
pub(crate) fn eval_macro<H: Host>(ps: &Vec<String>, body: &Expr, l: &Vec<Expr>, g: GcHandle, lex: &LexEnv, heap: &mut Heap, host: &H, fuel: u64) -> (r: Result<Expr, String>)
    requires ready(*old(heap), g), l@.len() > 0,
    ensures
        final(heap).wf(),
        final(heap)@.len() == old(heap)@.len(),
        forall|o: Answers| #[trigger] consistent(final(heap).calls(), o) ==>
            consistent(old(heap).calls(), o) && agrees(r, final(heap)@, macro_spec(fuel as nat, strings_view(ps@), body@, exprs_view(l@), g as nat, lex@, old(heap)@, o)),
    decreases fuel, 0nat,
{
    proof { lemma_exprs_view(l@); }
    if fuel == 0 || ps.len() != l.len() - 1 {
        return Err(owned("macro: wrong number of arguments"));
    }
    let f = fuel - 1;
    let args = vstd::slice::slice_subrange(l.as_slice(), 1, l.len());
    proof {
        assert(l@.subrange(1, l@.len() as int) =~= l@.skip(1));
        crate::expr::lemma_exprs_view_skip(l@, 1);
    }
    let expanded = subst_exec(body, ps, args);
    let empty = LexEnv::Empty;
    let ex = eval_fuel(&expanded, g, &empty, heap, host, f)?;
    let mut names: Vec<String> = Vec::new();
    assert(strings_view(names@) =~= Seq::<Seq<char>>::empty());
    let ghost h1 = heap@;
    let c = compile(&ex, &mut names, heap, host);
    proof { crate::gc::lemma_wf_frames(h1, heap@); }
    let c = c?;
    eval_fuel(&c, g, lex, heap, host, f)
}

/// `(f a...)`: the operator, then the operands left to right, then the call.
fn eval_app<H: Host>(l: &Vec<Expr>, g: GcHandle, lex: &LexEnv, heap: &mut Heap, host: &H, fuel: u64) -> (r: Result<Expr, String>)
    requires ready(*old(heap), g),
    ensures
        final(heap).wf(),
        final(heap)@.len() == old(heap)@.len(),
        forall|o: Answers| #[trigger] consistent(final(heap).calls(), o) ==>
            consistent(old(heap).calls(), o) && agrees(r, final(heap)@, app_spec(fuel as nat, exprs_view(l@), g as nat, lex@, old(heap)@, o)),
    decreases fuel, 0nat,
{
    proof { lemma_exprs_view(l@); }
    if fuel == 0 || l.len() == 0 {
        return Err(owned("evaluation too deep"));
    }
    let f = fuel - 1;
    let fv = eval_fuel(&l[0], g, lex, heap, host, f)?;
    let args = eval_args(l, 1, g, lex, heap, host, f)?;
    apply_fuel(&fv, args.as_slice(), g, heap, host, f)
}

/// Applies a function value to evaluated arguments.
pub(crate) fn apply_fuel<H: Host>(fv: &Expr, args: &[Expr], g: GcHandle, heap: &mut Heap, host: &H, fuel: u64) -> (r: Result<Expr, String>)
    requires ready(*old(heap), g),
    ensures
        final(heap).wf(),
        final(heap)@.len() == old(heap)@.len(),
        forall|o: Answers| #[trigger] consistent(final(heap).calls(), o) ==>
            consistent(old(heap).calls(), o) && agrees(r, final(heap)@, apply_spec(fuel as nat, fv@, exprs_view(args@), g as nat, old(heap)@, o)),
    decreases fuel, 0nat,
{
    proof { lemma_exprs_view(args@); }
    if fuel == 0 {
        return Err(owned("evaluation too deep"));
    }
    let f = fuel - 1;
    match fv {
        Expr::Func(Builtin::Prim(p)) => {
            assert(fv@ == SExpr::Func(SBuiltin::Prim(*p))) by {
                reveal_with_fuel(crate::expr::expr_view, 2);
                reveal_with_fuel(crate::expr::builtin_view, 2);
            }
            apply_prim(*p, args, heap, host)
        },
        Expr::Func(Builtin::Native(name)) => {
            assert(fv@ == SExpr::Func(SBuiltin::Native(name@))) by {
                reveal_with_fuel(crate::expr::expr_view, 2);
                reveal_with_fuel(crate::expr::builtin_view, 2);
            }
            let ghost k = heap@.log.len();
            let r = heap.ask_native(host, name.as_str(), args);
            assert(heap@.frames == old(heap)@.frames);
            r
        },
        Expr::Func(Builtin::FunextLine(p, ge)) => {
            assert(fv@ == SExpr::Func(SBuiltin::FunextLine(Box::new((**p)@), *ge as nat))) by {
                reveal_with_fuel(crate::expr::expr_view, 2);
                reveal_with_fuel(crate::expr::builtin_view, 2);
            }
            if args.len() == 0 {
                return Err(owned("funext: expected an interval point"));
            }
            let pc = (**p).deep_clone();
            let ic = args[0].deep_clone();
            let ghost pv = pc@;
            let ghost iv = ic@;
            let res = Expr::Func(Builtin::FunextPoint(Box::new(pc), Box::new(ic), *ge));
            assert(res@ == SExpr::Func(SBuiltin::FunextPoint(Box::new(pv), Box::new(iv), *ge as nat))) by {
                reveal_with_fuel(crate::expr::expr_view, 2);
                reveal_with_fuel(crate::expr::builtin_view, 2);
            }
            Ok(res)
        },
        Expr::Func(Builtin::FunextPoint(p, i, ge)) => {
            assert(fv@ == SExpr::Func(SBuiltin::FunextPoint(Box::new((**p)@), Box::new((**i)@), *ge as nat))) by {
                reveal_with_fuel(crate::expr::expr_view, 2);
                reveal_with_fuel(crate::expr::builtin_view, 2);
            }
            if args.len() == 0 || *ge >= heap.len() {
                return Err(owned("funext: expected an argument"));
            }
            let a = vec![args[0].deep_clone()];
            proof {
                lemma_exprs_view(a@);
                assert(exprs_view(a@) =~= seq![args@[0]@]);
            }
            let px = apply_fuel(&**p, a.as_slice(), *ge, heap, host, f)?;
            let ghost hb = heap@;
            match px {
                Expr::Path(body, penv) => {
                    let env2 = LexEnv::Node(Box::new((**i).deep_clone()), penv);
                    eval_fuel(&*body, *ge, &env2, heap, host, f)
                },
                other => {
                    let m = fail_message("funext: pointwise homotopy did not return a path, got ", &other, heap, host);
                    proof { crate::gc::lemma_wf_frames(hb, heap@); }
                    Err(m)
                },
            }
        },
        Expr::Lambda(arity, body, penv) => {
            if args.len() != *arity {
                return Err(arity_message(*arity, args.len()));
            }
            let env2 = push_all(args, &**penv);
            eval_fuel(&**body, g, &env2, heap, host, f)
        },
        Expr::Rec(k, vals, penv) => {
            proof { lemma_exprs_view(vals@); }
            if *k >= vals.len() {
                let m = fail_message("not a function: ", fv, heap, host);
                proof { crate::gc::lemma_wf_frames(old(heap)@, heap@); }
                return Err(m);
            }
            match &vals[*k] {
                Expr::Lambda(arity, body, _) => {
                    if args.len() != *arity {
                        return Err(arity_message(*arity, args.len()));
                    }
                    let genv = group_env_exec(vals, &**penv);
                    let env2 = push_all(args, &genv);
                    eval_fuel(&**body, g, &env2, heap, host, f)
                },
                _ => {
                    let m = fail_message("not a function: ", fv, heap, host);
                    proof { crate::gc::lemma_wf_frames(old(heap)@, heap@); }
                    Err(m)
                },
            }
        },
        _ => {
            let m = fail_message("not a function: ", fv, heap, host);
            proof { crate::gc::lemma_wf_frames(old(heap)@, heap@); }
            Err(m)
        },
    }
}


/// How deeply evaluations may nest in the public entry points.
pub const MAX_DEPTH: u64 = 1_000_000u64;

/// Compiling `e` (no names bound) and evaluating the result in the empty
/// lexical environment.
pub open spec fn tree_spec(e: SExpr, g: nat, h: HeapV, o: Answers) -> (Outcome, HeapV) {
    match compile_spec(e, Seq::empty()).0 {
        Ok(c) => eval_spec(MAX_DEPTH as nat, c, g, Seq::empty(), h, o),
        Err(e) => crate::compiler::compile_failure(e, h, o),
    }
}

/// Evaluating top-level expressions in turn: the value of the last one
/// (`last` if there are none); the first failure stops the run.
pub open spec fn run_spec(es: Seq<SExpr>, g: nat, h: HeapV, last: SExpr, o: Answers) -> (Outcome, HeapV)
    decreases es.len(),
{
    if es.len() == 0 {
        (Outcome::Value(last), h)
    } else {
        let (r, h1) = tree_spec(es[0], g, h, o);
        match r {
            Outcome::Value(v) => run_spec(es.skip(1), g, h1, v, o),
            other => (other, h1),
        }
    }
}

/// Evaluates the core expression `expr` in the global environment `env`
/// and the lexical environment `lex`.
pub fn eval<H: Host>(expr: &Expr, env: GcHandle, lex: &LexEnv, heap: &mut Heap, host: &H) -> (r: Result<Expr, String>)
    requires old(heap).wf(),
    ensures
        final(heap).wf(),
        final(heap)@.len() == old(heap)@.len(),
        env >= old(heap)@.len() ==> r is Err && r->Err_0@ == "invalid environment"@ && final(heap)@ == old(heap)@,
        env < old(heap)@.len() ==> forall|o: Answers| #[trigger] consistent(final(heap).calls(), o) ==>
            consistent(old(heap).calls(), o) && agrees(r, final(heap)@, eval_spec(MAX_DEPTH as nat, expr@, env as nat, lex@, old(heap)@, o)),
{
    if env >= heap.len() {
        return Err(owned("invalid environment"));
    }
    eval_fuel(expr, env, lex, heap, host, MAX_DEPTH)
}

/// Applies a function value (primitive, host primitive, `funext` line or
/// lambda) to evaluated arguments.
pub fn apply<H: Host>(func: Expr, args: &[Expr], env: GcHandle, heap: &mut Heap, host: &H) -> (r: Result<Expr, String>)
    requires old(heap).wf(),
    ensures
        final(heap).wf(),
        final(heap)@.len() == old(heap)@.len(),
        env >= old(heap)@.len() ==> r is Err && r->Err_0@ == "invalid environment"@ && final(heap)@ == old(heap)@,
        env < old(heap)@.len() ==> forall|o: Answers| #[trigger] consistent(final(heap).calls(), o) ==>
            consistent(old(heap).calls(), o) && agrees(r, final(heap)@, apply_spec(MAX_DEPTH as nat, func@, exprs_view(args@), env as nat, old(heap)@, o)),
{
    if env >= heap.len() {
        return Err(owned("invalid environment"));
    }
    apply_fuel(&func, args, env, heap, host, MAX_DEPTH)
}

/// Compiles the surface expression `expr` and evaluates the result: the
/// tree-walking evaluator.
pub fn eval_tree<H: Host>(expr: &Expr, env: GcHandle, heap: &mut Heap, host: &H) -> (r: Result<Expr, String>)
    requires old(heap).wf(),
    ensures
        final(heap).wf(),
        final(heap)@.len() == old(heap)@.len(),
        env >= old(heap)@.len() ==> r is Err && r->Err_0@ == "invalid environment"@ && final(heap)@ == old(heap)@,
        env < old(heap)@.len() ==> forall|o: Answers| #[trigger] consistent(final(heap).calls(), o) ==>
            consistent(old(heap).calls(), o) && agrees(r, final(heap)@, tree_spec(expr@, env as nat, old(heap)@, o)),
{
    if env >= heap.len() {
        return Err(owned("invalid environment"));
    }
    let mut names: Vec<String> = Vec::new();
    assert(strings_view(names@) =~= Seq::<Seq<char>>::empty());
    let ghost h0 = heap@;
    let c = compile(expr, &mut names, heap, host);
    proof { crate::gc::lemma_wf_frames(h0, heap@); }
    let c = c?;
    let empty = LexEnv::Empty;
    eval_fuel(&c, env, &empty, heap, host, MAX_DEPTH)
}

} // verus!
