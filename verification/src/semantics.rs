//! The meaning of evaluation, as functions on the mathematical model.
//!
//! Every function here takes a `fuel` bound on the depth of nested
//! evaluation, an evaluation that needs more failing, and the answers `o`
//! of the host to the requests that evaluation makes of it.

use vstd::prelude::*;
use crate::builtins::{Outcome, prim_step, ask};
use crate::render::{fail_with, fail_around};
use crate::host::{Answers, Request};
use crate::compiler::{compile_spec, is_splice, depth_limit};
use crate::expr::{SExpr, SBuiltin, truthy, is_sentinel};
use crate::gc::{lookup, bind, find_name};
use crate::num;
use crate::reader::params_of;

verus! {

/// Outcome of evaluating a sequence of expressions.
pub enum Outs {
    Values(Seq<SExpr>),
    Error(Seq<char>),
}

/// The message for an index past the lexical environment.
pub open spec fn index_error(i: nat) -> Seq<char> {
    "unbound index "@ + crate::text::decimal(i)
}

/// The message for a lambda of `arity` parameters applied to `got`
/// arguments.
pub open spec fn arity_error(arity: nat, got: nat) -> Seq<char> {
    "lambda expected "@ + crate::text::decimal(arity) + " args, got "@ + crate::text::decimal(got)
}

pub use crate::gc::HeapV;

/// `macro` parameters replaced by the (unevaluated, quoted) arguments;
/// quoted data is left alone.
pub open spec fn subst(e: SExpr, ps: Seq<Seq<char>>, args: Seq<SExpr>) -> SExpr
    decreases e, 0nat,
{
    match e {
        SExpr::Symbol(s) => match find_name(ps, s) {
            Some(i) => if i < args.len() {
                SExpr::List(seq![SExpr::Symbol("quote"@), args[i as int]])
            } else {
                e
            },
            None => e,
        },
        SExpr::List(l) => if l.len() > 0 && l[0] == SExpr::Symbol("quote"@) {
            e
        } else {
            SExpr::List(subst_items(l, ps, args))
        },
        _ => e,
    }
}

pub open spec fn subst_items(l: Seq<SExpr>, ps: Seq<Seq<char>>, args: Seq<SExpr>) -> Seq<SExpr>
    decreases l, 1nat,
{
    if l.len() == 0 {
        Seq::empty()
    } else {
        seq![subst(l[0], ps, args)] + subst_items(l.skip(1), ps, args)
    }
}

/// A `letrec` value as the body sees it: a lambda becomes member `j` of the
/// recursive group; other values stay as they are.
pub open spec fn member(v: SExpr, j: nat, vals: Seq<SExpr>, lex: Seq<SExpr>) -> SExpr {
    match v {
        SExpr::Lambda(..) => SExpr::Rec(j, vals, lex),
        _ => v,
    }
}

/// The environment of a `letrec` body: the members of the group (the last
/// binding at index 0) above `lex`.
pub open spec fn group_env(vals: Seq<SExpr>, lex: Seq<SExpr>) -> Seq<SExpr> {
    Seq::new(vals.len(), |j: int| member(vals[j], j as nat, vals, lex)).reverse() + lex
}

/// The body of the path `(funext f g p)` makes: at the point `i` (index 0)
/// it applies the line of `p` to `i`, which gives `λ x. (papply (p x) i)`.
pub open spec fn funext_body(p: SExpr, g: nat) -> SExpr {
    SExpr::List(seq![SExpr::Func(SBuiltin::FunextLine(Box::new(p), g)), SExpr::Index(0)])
}

pub open spec fn placeholder() -> SExpr {
    SExpr::Symbol("__letrec_placeholder__"@)
}

pub open spec fn nil() -> SExpr {
    SExpr::List(Seq::empty())
}

/// Evaluates `e` in global frame `g` and lexical environment `lex`.
pub open spec fn eval_spec(fuel: nat, e: SExpr, g: nat, lex: Seq<SExpr>, h: HeapV, o: Answers) -> (Outcome, HeapV)
    decreases fuel, 0nat,
{
    if fuel == 0 {
        (Outcome::Error("evaluation too deep"@), h)
    } else {
        match e {
            SExpr::Symbol(s) => if is_sentinel(s) {
                (Outcome::Value(e), h)
            } else {
                match lookup(h, g, s) {
                    Some(v) => (Outcome::Value(v), h),
                    None => (Outcome::Error("unbound symbol"@), h),
                }
            },
            SExpr::Index(i) => if i < lex.len() {
                (Outcome::Value(lex[i as int]), h)
            } else {
                (Outcome::Error(index_error(i)), h)
            },
            SExpr::List(l) => list_spec((fuel - 1) as nat, l, g, lex, h, o),
            _ => (Outcome::Value(e), h),
        }
    }
}

/// Evaluates the forms of a list expression.
pub open spec fn list_spec(fuel: nat, l: Seq<SExpr>, g: nat, lex: Seq<SExpr>, h: HeapV, o: Answers) -> (Outcome, HeapV)
    decreases fuel, 0nat,
{
    if fuel == 0 {
        (Outcome::Error("evaluation too deep"@), h)
    } else if l.len() == 0 {
        (Outcome::Value(nil()), h)
    } else {
        let f = (fuel - 1) as nat;
        match l[0] {
            SExpr::Symbol(op) => if op == "quote"@ {
                if l.len() >= 2 { (Outcome::Value(l[1]), h) } else { (Outcome::Error("quote: expected an argument"@), h) }
            } else if op == "quasiquote"@ {
                if l.len() >= 2 { qq_spec(f, l[1], g, lex, h, 1, o) } else { (Outcome::Error("quasiquote: expected an argument"@), h) }
            } else if op == "unquote"@ {
                (Outcome::Error("unquote outside quasiquote"@), h)
            } else if op == "if"@ {
                if l.len() < 3 {
                    (Outcome::Error("if: expected (if cond then [else])"@), h)
                } else {
                    let (c, h1) = eval_spec(f, l[1], g, lex, h, o);
                    match c {
                        Outcome::Value(cv) => if truthy(cv) {
                            eval_spec(f, l[2], g, lex, h1, o)
                        } else if l.len() > 3 {
                            eval_spec(f, l[3], g, lex, h1, o)
                        } else {
                            (Outcome::Value(nil()), h1)
                        },
                        other => (other, h1),
                    }
                }
            } else if op == "define"@ {
                if l.len() >= 3 && l[1] is Symbol {
                    let (r, h1) = eval_spec(f, l[2], g, lex, h, o);
                    match r {
                        Outcome::Value(v) => (Outcome::Value(v), bind(h1, g, l[1]->Symbol_0, v)),
                        other => (other, h1),
                    }
                } else {
                    (Outcome::Error("invalid define: expected (define <symbol> <expr>)"@), h)
                }
            } else if op == "lambda"@ {
                if l.len() >= 3 && l[1] is Number {
                    (Outcome::Value(SExpr::Lambda(num::to_index_spec(l[1]->Number_0) as nat, Box::new(l[2]), lex)), h)
                } else {
                    (Outcome::Error("lambda core: expected arity"@), h)
                }
            } else if op == "defmacro"@ {
                if l.len() >= 4 && l[1] is Symbol {
                    match params_of(l[2]) {
                        Ok(ps) => {
                            let m = SExpr::Macro(ps, Box::new(l[3]));
                            (Outcome::Value(m), bind(h, g, l[1]->Symbol_0, m))
                        },
                        Err(v) => fail_with(crate::reader::param_error_prefix(), v, h, o),
                    }
                } else {
                    (Outcome::Error("invalid defmacro: expected <symbol>"@), h)
                }
            } else if op == "begin"@ {
                seq_spec(f, l.skip(1), g, lex, h, nil(), o)
            } else if op == "let"@ {
                if l.len() < 2 {
                    (Outcome::Error("let: expected bindings"@), h)
                } else {
                    let (lr, h1) = if l[1] is List { let_spec(f, l[1]->List_0, g, lex, h, o) } else { (Outs::Values(lex), h) };
                    match lr {
                        Outs::Values(lex2) => seq_spec(f, l.skip(2), g, lex2, h1, nil(), o),
                        Outs::Error(m) => (Outcome::Error(m), h1),
                    }
                }
            } else if op == "letrec"@ {
                if l.len() < 3 {
                    (Outcome::Error("letrec: expected bindings and a body"@), h)
                } else if !(l[1] is List) {
                    (Outcome::Error("letrec: bindings must be a list"@), h)
                } else {
                    let bs = l[1]->List_0;
                    let ph = Seq::new(bs.len(), |i: int| placeholder()) + lex;
                    let (vr, h1) = letrec_vals(f, bs, g, ph, h, o);
                    match vr {
                        Outs::Values(vals) => seq_spec(f, l.skip(2), g, group_env(vals, lex), h1, nil(), o),
                        Outs::Error(m) => (Outcome::Error(m), h1),
                    }
                }
            } else if op == "funext"@ {
                if l.len() != 4 {
                    (Outcome::Error("funext: expected (funext f g p)"@), h)
                } else {
                    let (r, h1) = eval_spec(f, l[3], g, lex, h, o);
                    match r {
                        Outcome::Value(p) => (Outcome::Value(SExpr::Path(Box::new(funext_body(p, g)), lex)), h1),
                        other => (other, h1),
                    }
                }
            } else if op == "path"@ {
                if l.len() >= 3 { (Outcome::Value(SExpr::Path(Box::new(l[2]), lex)), h) } else { (Outcome::Error("path: expected (path 1 body)"@), h) }
            } else if op == "papply"@ {
                papply_spec(f, l, g, lex, h, o)
            } else if op == "pi"@ {
                if l.len() >= 3 {
                    (Outcome::Value(SExpr::Pi(Box::new(l[1]), Box::new(l[2]), lex)), h)
                } else {
                    (Outcome::Error("pi: expected (pi dom cod)"@), h)
                }
            } else if op == "piapply"@ || op == "sigmacod"@ {
                instantiate_spec(f, op == "piapply"@, l, g, lex, h, o)
            } else if op == "sigma"@ {
                if l.len() >= 3 {
                    (Outcome::Value(SExpr::Sigma(Box::new(l[1]), Box::new(l[2]), lex)), h)
                } else {
                    (Outcome::Error("sigma: expected (sigma dom cod)"@), h)
                }
            } else if op == "glue-type"@ || op == "glue"@ {
                pair_spec(f, op == "glue"@, l, g, lex, h, o)
            } else if op == "unglue"@ {
                if l.len() != 2 {
                    (Outcome::Error("unglue: expected (unglue <glue-term>)"@), h)
                } else {
                    let (r, h1) = eval_spec(f, l[1], g, lex, h, o);
                    match r {
                        Outcome::Value(SExpr::Glue(v, eq)) => apply_spec(f, *eq, seq![*v], g, h1, o),
                        Outcome::Value(w) => fail_with("unglue: not a glue term: "@, w, h1, o),
                        other => (other, h1),
                    }
                }
            } else if op == "__Path__"@ || op == "__Glue__"@ {
                if l.len() != 2 {
                    (Outcome::Error(op + ": expected 1 argument"@), h)
                } else {
                    let (r, h1) = eval_spec(f, l[1], g, lex, h, o);
                    match r {
                        Outcome::Value(v) => (Outcome::Value(SExpr::List(seq![SExpr::Symbol(op), v])), h1),
                        other => (other, h1),
                    }
                }
            } else {
                match lookup(h, g, op) {
                    Some(SExpr::Macro(ps, body)) => macro_spec(f, ps, *body, l, g, lex, h, o),
                    _ => app_spec(f, l, g, lex, h, o),
                }
            },
            _ => app_spec(f, l, g, lex, h, o),
        }
    }
}

/// `(papply p t)`: the path `p` at the interval point `t`, `0 <= t <= 1`.
pub open spec fn papply_spec(fuel: nat, l: Seq<SExpr>, g: nat, lex: Seq<SExpr>, h: HeapV, o: Answers) -> (Outcome, HeapV)
    decreases fuel, 0nat,
{
    if fuel == 0 || l.len() != 3 {
        (Outcome::Error("papply: expected (papply <path> <interval-point>)"@), h)
    } else {
        let f = (fuel - 1) as nat;
        let (pr, h1) = eval_spec(f, l[1], g, lex, h, o);
        match pr {
            Outcome::Value(p) => {
                let (tr, h2) = eval_spec(f, l[2], g, lex, h1, o);
                match tr {
                    Outcome::Value(t) => match t {
                        SExpr::Number(b) => if !num::in_unit_interval(b) {
                            fail_around("papply: interval point "@, t, " out of bounds, expected [0,1]"@, h2, o)
                        } else {
                            match p {
                                SExpr::Path(body, penv) => eval_spec(f, *body, g, seq![t] + penv, h2, o),
                                _ => fail_with("papply: not a path: "@, p, h2, o),
                            }
                        },
                        _ => fail_with("papply: interval point must be a number, got "@, t, h2, o),
                    },
                    other => (other, h2),
                }
            },
            other => (other, h1),
        }
    }
}

/// `(piapply p v)` / `(sigmacod s v)`: the codomain of a Pi (Sigma) type at
/// the value `v`.
pub open spec fn instantiate_spec(fuel: nat, is_pi: bool, l: Seq<SExpr>, g: nat, lex: Seq<SExpr>, h: HeapV, o: Answers) -> (Outcome, HeapV)
    decreases fuel, 0nat,
{
    if fuel == 0 || l.len() != 3 {
        (Outcome::Error(if is_pi {
            "piapply: expected (piapply <pi-type> <value>)"@
        } else {
            "sigmacod: expected (sigmacod <sigma-type> <value>)"@
        }), h)
    } else {
        let f = (fuel - 1) as nat;
        let (pr, h1) = eval_spec(f, l[1], g, lex, h, o);
        match pr {
            Outcome::Value(p) => {
                let (vr, h2) = eval_spec(f, l[2], g, lex, h1, o);
                match vr {
                    Outcome::Value(v) => if is_pi {
                        match p {
                            SExpr::Pi(_, cod, penv) => eval_spec(f, *cod, g, seq![v] + penv, h2, o),
                            _ => fail_with("piapply: not a pi-type: "@, p, h2, o),
                        }
                    } else {
                        match p {
                            SExpr::Sigma(_, cod, penv) => eval_spec(f, *cod, g, seq![v] + penv, h2, o),
                            _ => fail_with("sigmacod: not a sigma-type: "@, p, h2, o),
                        }
                    },
                    other => (other, h2),
                }
            },
            other => (other, h1),
        }
    }
}

/// `(glue-type base equiv)` / `(glue val equiv)`.
pub open spec fn pair_spec(fuel: nat, is_glue: bool, l: Seq<SExpr>, g: nat, lex: Seq<SExpr>, h: HeapV, o: Answers) -> (Outcome, HeapV)
    decreases fuel, 0nat,
{
    if fuel == 0 || l.len() != 3 {
        (Outcome::Error(if is_glue {
            "glue: expected (glue <val> <equiv>)"@
        } else {
            "glue-type: expected (glue-type <base-type> <equiv>)"@
        }), h)
    } else {
        let f = (fuel - 1) as nat;
        let (ar, h1) = eval_spec(f, l[1], g, lex, h, o);
        match ar {
            Outcome::Value(a) => {
                let (br, h2) = eval_spec(f, l[2], g, lex, h1, o);
                match br {
                    Outcome::Value(b) => (
                        Outcome::Value(if is_glue {
                            SExpr::Glue(Box::new(a), Box::new(b))
                        } else {
                            SExpr::GlueType(Box::new(a), Box::new(b))
                        }),
                        h2,
                    ),
                    other => (other, h2),
                }
            },
            other => (other, h1),
        }
    }
}

/// A macro call: the body with the parameters replaced by the unevaluated
/// arguments is evaluated, and its value, compiled, is evaluated in place
/// of the call.
pub open spec fn macro_spec(fuel: nat, ps: Seq<Seq<char>>, body: SExpr, l: Seq<SExpr>, g: nat, lex: Seq<SExpr>, h: HeapV, o: Answers) -> (Outcome, HeapV)
    decreases fuel, 0nat,
{
    if fuel == 0 || ps.len() != l.len() - 1 {
        (Outcome::Error("macro: wrong number of arguments"@), h)
    } else {
        let f = (fuel - 1) as nat;
        let (er, h1) = eval_spec(f, subst(body, ps, l.skip(1)), g, Seq::empty(), h, o);
        match er {
            Outcome::Value(ex) => match compile_spec(ex, Seq::empty()).0 {
                Ok(c) => eval_spec(f, c, g, lex, h1, o),
                Err(e) => crate::compiler::compile_failure(e, h1, o),
            },
            other => (other, h1),
        }
    }
}

/// Function application: operator, then operands left to right.
pub open spec fn app_spec(fuel: nat, l: Seq<SExpr>, g: nat, lex: Seq<SExpr>, h: HeapV, o: Answers) -> (Outcome, HeapV)
    decreases fuel, 0nat,
{
    if fuel == 0 || l.len() == 0 {
        (Outcome::Error("evaluation too deep"@), h)
    } else {
        let f = (fuel - 1) as nat;
        let (fr, h1) = eval_spec(f, l[0], g, lex, h, o);
        match fr {
            Outcome::Value(fv) => {
                let (ar, h2) = args_spec(f, l.skip(1), g, lex, h1, o);
                match ar {
                    Outs::Values(vs) => apply_spec(f, fv, vs, g, h2, o),
                    Outs::Error(m) => (Outcome::Error(m), h2),
                }
            },
            other => (other, h1),
        }
    }
}

/// Evaluates `es` left to right.
pub open spec fn args_spec(fuel: nat, es: Seq<SExpr>, g: nat, lex: Seq<SExpr>, h: HeapV, o: Answers) -> (Outs, HeapV)
    decreases fuel, es.len(),
{
    if es.len() == 0 {
        (Outs::Values(Seq::empty()), h)
    } else if fuel == 0 {
        (Outs::Error("evaluation too deep"@), h)
    } else {
        let (r, h1) = eval_spec((fuel - 1) as nat, es[0], g, lex, h, o);
        match r {
            Outcome::Value(v) => {
                let (rs, h2) = args_spec(fuel, es.skip(1), g, lex, h1, o);
                match rs {
                    Outs::Values(vs) => (Outs::Values(seq![v] + vs), h2),
                    other => (other, h2),
                }
            },
            Outcome::Error(m) => (Outs::Error(m), h1),
        }
    }
}

/// Evaluates `es` in turn; the value of the last one (`last` if none).
pub open spec fn seq_spec(fuel: nat, es: Seq<SExpr>, g: nat, lex: Seq<SExpr>, h: HeapV, last: SExpr, o: Answers) -> (Outcome, HeapV)
    decreases fuel, es.len(),
{
    if es.len() == 0 {
        (Outcome::Value(last), h)
    } else if fuel == 0 {
        (Outcome::Error("evaluation too deep"@), h)
    } else {
        let (r, h1) = eval_spec((fuel - 1) as nat, es[0], g, lex, h, o);
        match r {
            Outcome::Value(v) => seq_spec(fuel, es.skip(1), g, lex, h1, v, o),
            other => (other, h1),
        }
    }
}

/// `let` bindings: each right-hand side is evaluated with the bindings
/// before it in scope; bindings that are not lists are skipped.  Gives the
/// extended lexical environment.
pub open spec fn let_spec(fuel: nat, bs: Seq<SExpr>, g: nat, lex: Seq<SExpr>, h: HeapV, o: Answers) -> (Outs, HeapV)
    decreases fuel, bs.len(),
{
    if bs.len() == 0 {
        (Outs::Values(lex), h)
    } else if fuel == 0 {
        (Outs::Error("evaluation too deep"@), h)
    } else {
        match bs[0] {
            SExpr::List(pair) => if pair.len() < 2 {
                (Outs::Error("let: each binding must be (name expr)"@), h)
            } else {
                let (r, h1) = eval_spec((fuel - 1) as nat, pair[1], g, lex, h, o);
                match r {
                    Outcome::Value(v) => let_spec(fuel, bs.skip(1), g, seq![v] + lex, h1, o),
                    Outcome::Error(m) => (Outs::Error(m), h1),
                }
            },
            _ => let_spec(fuel, bs.skip(1), g, lex, h, o),
        }
    }
}

/// The right-hand sides of a `letrec`, each evaluated in `env`.
pub open spec fn letrec_vals(fuel: nat, bs: Seq<SExpr>, g: nat, env: Seq<SExpr>, h: HeapV, o: Answers) -> (Outs, HeapV)
    decreases fuel, bs.len(),
{
    if bs.len() == 0 {
        (Outs::Values(Seq::empty()), h)
    } else if fuel == 0 {
        (Outs::Error("evaluation too deep"@), h)
    } else {
        match bs[0] {
            SExpr::List(pair) => if pair.len() < 2 {
                (Outs::Error("letrec: each binding must be (name expr)"@), h)
            } else {
                let (r, h1) = eval_spec((fuel - 1) as nat, pair[1], g, env, h, o);
                match r {
                    Outcome::Value(v) => {
                        let (rs, h2) = letrec_vals(fuel, bs.skip(1), g, env, h1, o);
                        match rs {
                            Outs::Values(vs) => (Outs::Values(seq![v] + vs), h2),
                            other => (other, h2),
                        }
                    },
                    Outcome::Error(m) => (Outs::Error(m), h1),
                }
            },
            _ => (Outs::Error("letrec: each binding must be a list"@), h),
        }
    }
}

/// Quasiquote: the template `e` at nesting `depth`; `unquote` at depth one
/// is evaluated, `unquote-splicing` at depth one splices a list.
pub open spec fn qq_spec(fuel: nat, e: SExpr, g: nat, lex: Seq<SExpr>, h: HeapV, depth: nat, o: Answers) -> (Outcome, HeapV)
    decreases fuel, 0nat,
{
    if fuel == 0 {
        (Outcome::Error("evaluation too deep"@), h)
    } else {
        let f = (fuel - 1) as nat;
        match e {
            SExpr::List(l) => if l.len() == 0 {
                (Outcome::Value(e), h)
            } else if l[0] == SExpr::Symbol("unquote"@) {
                if l.len() < 2 {
                    (Outcome::Error("unquote: expected an argument"@), h)
                } else if depth == 1 {
                    eval_spec(f, l[1], g, lex, h, o)
                } else {
                    let (r, h1) = qq_spec(f, l[1], g, lex, h, (depth - 1) as nat, o);
                    match r {
                        Outcome::Value(c) => (Outcome::Value(SExpr::List(seq![SExpr::Symbol("unquote"@), c])), h1),
                        other => (other, h1),
                    }
                }
            } else if l[0] == SExpr::Symbol("quasiquote"@) {
                if l.len() < 2 || depth >= depth_limit() {
                    (Outcome::Error("quasiquote: malformed or too deeply nested"@), h)
                } else {
                    let (r, h1) = qq_spec(f, l[1], g, lex, h, depth + 1, o);
                    match r {
                        Outcome::Value(c) => (Outcome::Value(SExpr::List(seq![SExpr::Symbol("quasiquote"@), c])), h1),
                        other => (other, h1),
                    }
                }
            } else {
                let (rs, h1) = qq_items(f, l, g, lex, h, depth, o);
                match rs {
                    Outs::Values(vs) => (Outcome::Value(SExpr::List(vs)), h1),
                    Outs::Error(m) => (Outcome::Error(m), h1),
                }
            },
            _ => (Outcome::Value(e), h),
        }
    }
}

pub open spec fn qq_items(fuel: nat, es: Seq<SExpr>, g: nat, lex: Seq<SExpr>, h: HeapV, depth: nat, o: Answers) -> (Outs, HeapV)
    decreases fuel, es.len(),
{
    if es.len() == 0 {
        (Outs::Values(Seq::empty()), h)
    } else if fuel == 0 {
        (Outs::Error("evaluation too deep"@), h)
    } else {
        let f = (fuel - 1) as nat;
        if is_splice(es[0]) && depth == 1 {
            let (r, h1) = eval_spec(f, es[0]->List_0[1], g, lex, h, o);
            match r {
                Outcome::Value(SExpr::List(vs)) => {
                    let (rs, h2) = qq_items(fuel, es.skip(1), g, lex, h1, depth, o);
                    match rs {
                        Outs::Values(rest) => (Outs::Values(vs + rest), h2),
                        other => (other, h2),
                    }
                },
                Outcome::Value(_) => (Outs::Error("unquote-splicing: expected a list"@), h1),
                Outcome::Error(m) => (Outs::Error(m), h1),
            }
        } else {
            let (r, h1) = qq_spec(f, es[0], g, lex, h, depth, o);
            match r {
                Outcome::Value(c) => {
                    let (rs, h2) = qq_items(fuel, es.skip(1), g, lex, h1, depth, o);
                    match rs {
                        Outs::Values(rest) => (Outs::Values(seq![c] + rest), h2),
                        other => (other, h2),
                    }
                },
                Outcome::Error(m) => (Outs::Error(m), h1),
            }
        }
    }
}

/// Applies the function value `fv` to evaluated arguments.
pub open spec fn apply_spec(fuel: nat, fv: SExpr, args: Seq<SExpr>, g: nat, h: HeapV, o: Answers) -> (Outcome, HeapV)
    decreases fuel, 0nat,
{
    if fuel == 0 {
        (Outcome::Error("evaluation too deep"@), h)
    } else {
        let f = (fuel - 1) as nat;
        match fv {
            SExpr::Func(SBuiltin::Prim(p)) => prim_step(p, args, h, o),
            SExpr::Func(SBuiltin::Native(n)) => ask(h, Request::Native(n, args), o),
            SExpr::Func(SBuiltin::FunextLine(p, ge)) => if args.len() == 0 {
                (Outcome::Error("funext: expected an interval point"@), h)
            } else {
                (Outcome::Value(SExpr::Func(SBuiltin::FunextPoint(p, Box::new(args[0]), ge))), h)
            },
            SExpr::Func(SBuiltin::FunextPoint(p, i, ge)) => if args.len() == 0 || ge >= h.len() {
                (Outcome::Error("funext: expected an argument"@), h)
            } else {
                let (r, h1) = apply_spec(f, *p, seq![args[0]], ge, h, o);
                match r {
                    Outcome::Value(SExpr::Path(body, penv)) => eval_spec(f, *body, ge, seq![*i] + penv, h1, o),
                    Outcome::Value(w) => fail_with("funext: pointwise homotopy did not return a path, got "@, w, h1, o),
                    other => (other, h1),
                }
            },
            SExpr::Lambda(arity, body, penv) => if args.len() != arity {
                (Outcome::Error(arity_error(arity, args.len())), h)
            } else {
                eval_spec(f, *body, g, args.reverse() + penv, h, o)
            },
            SExpr::Rec(k, vals, lex) => if k < vals.len() && vals[k as int] is Lambda {
                if args.len() == vals[k as int]->Lambda_0 {
                    eval_spec(f, *vals[k as int]->Lambda_1, g, args.reverse() + group_env(vals, lex), h, o)
                } else {
                    (Outcome::Error(arity_error(vals[k as int]->Lambda_0, args.len())), h)
                }
            } else {
                fail_with("not a function: "@, fv, h, o)
            },
            _ => fail_with("not a function: "@, fv, h, o),
        }
    }
}

} // verus!

verus! {

/// `(pre + vs, h)` for a successful `(vs, h)`.
pub open spec fn prepend_outs(pre: Seq<SExpr>, r: (Outs, HeapV)) -> (Outs, HeapV) {
    match r.0 {
        Outs::Values(vs) => (Outs::Values(pre + vs), r.1),
        _ => r,
    }
}

} // verus!

verus! {

/// The `let` case of [`list_spec`], with the fuel for the nested
/// evaluations.
pub open spec fn let_form(f: nat, l: Seq<SExpr>, g: nat, lex: Seq<SExpr>, h: HeapV, o: Answers) -> (Outcome, HeapV) {
    if l.len() < 2 {
        (Outcome::Error("let: expected bindings"@), h)
    } else {
        let (lr, h1) = if l[1] is List { let_spec(f, l[1]->List_0, g, lex, h, o) } else { (Outs::Values(lex), h) };
        match lr {
            Outs::Values(lex2) => seq_spec(f, l.skip(2), g, lex2, h1, nil(), o),
            Outs::Error(m) => (Outcome::Error(m), h1),
        }
    }
}

/// The `letrec` case of [`list_spec`], with the fuel for the nested
/// evaluations.
pub open spec fn letrec_form(f: nat, l: Seq<SExpr>, g: nat, lex: Seq<SExpr>, h: HeapV, o: Answers) -> (Outcome, HeapV) {
    if l.len() < 3 {
        (Outcome::Error("letrec: expected bindings and a body"@), h)
    } else if !(l[1] is List) {
        (Outcome::Error("letrec: bindings must be a list"@), h)
    } else {
        let bs = l[1]->List_0;
        let ph = Seq::new(bs.len(), |i: int| placeholder()) + lex;
        let (vr, h1) = letrec_vals(f, bs, g, ph, h, o);
        match vr {
            Outs::Values(vals) => seq_spec(f, l.skip(2), g, group_env(vals, lex), h1, nil(), o),
            Outs::Error(m) => (Outcome::Error(m), h1),
        }
    }
}

} // verus!

verus! {

/// `subst_items` replaces in each item separately.
pub proof fn lemma_subst_items(l: Seq<SExpr>, ps: Seq<Seq<char>>, args: Seq<SExpr>)
    ensures
        subst_items(l, ps, args).len() == l.len(),
        forall|j: int| 0 <= j < l.len() ==> #[trigger] subst_items(l, ps, args)[j] == subst(l[j], ps, args),
    decreases l.len(),
{
    if l.len() > 0 {
        lemma_subst_items(l.skip(1), ps, args);
        assert forall|j: int| 0 <= j < l.len() implies #[trigger] subst_items(l, ps, args)[j] == subst(l[j], ps, args) by {
            if j > 0 {
                assert(l.skip(1)[j - 1] == l[j]);
            }
        }
    }
}

} // verus!
