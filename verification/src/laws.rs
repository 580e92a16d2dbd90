//! Properties of evaluation that relate several forms or several steps.

use vstd::prelude::*;
use crate::builtins::{Outcome, prim_spec, prim_step, flag, lex_order, concat_strs};
use crate::compiler::compile_spec;
use crate::expr::{Prim, SExpr, SBuiltin};
use crate::gc::{heap_wf, lookup, bind, lemma_bind_wf, lemma_lookup_bind};
use crate::reader::{params_of, parse_seq, readings, tokens_of, lemma_tokens_concat, lemma_readings_concat,
    lemma_parse_seq_prefix, lemma_parse_seq_shift, lemma_parse_seq_acc};
use crate::semantics::{Outs, HeapV, eval_spec, list_spec, papply_spec, instantiate_spec, pair_spec,
    macro_spec, app_spec, args_spec, seq_spec, let_spec, letrec_vals, qq_spec, qq_items, apply_spec,
    subst, group_env, member, placeholder, nil, funext_body};
use crate::num;
use crate::host::{Answers, Exchange};
use crate::render::{render, render_items, fail_with, fail_around};
use crate::compiler::is_splice;

verus! {

/// `log` is `prefix` followed by more exchanges.
pub open spec fn grows(prefix: Seq<Exchange>, log: Seq<Exchange>) -> bool {
    prefix.len() <= log.len() && forall|i: int| 0 <= i < prefix.len() ==> #[trigger] log[i] == prefix[i]
}

/// Evaluation keeps the heap well formed, never adds or removes frames, and
/// only adds to the record of exchanges with the host.
pub proof fn law_eval_keeps_heap(fuel: nat, e: SExpr, g: nat, lex: Seq<SExpr>, h: HeapV, o: Answers)
    requires heap_wf(h),
    ensures
        heap_wf(eval_spec(fuel, e, g, lex, h, o).1),
        eval_spec(fuel, e, g, lex, h, o).1.len() == h.len(),
        grows(h.log, eval_spec(fuel, e, g, lex, h, o).1.log),
    decreases fuel, 0nat,
{
    if fuel > 0 {
        if let SExpr::List(l) = e {
            lemma_list_heap((fuel - 1) as nat, l, g, lex, h, o);
        }
    }
}

proof fn lemma_list_heap(fuel: nat, l: Seq<SExpr>, g: nat, lex: Seq<SExpr>, h: HeapV, o: Answers)
    requires heap_wf(h),
    ensures
        heap_wf(list_spec(fuel, l, g, lex, h, o).1),
        list_spec(fuel, l, g, lex, h, o).1.len() == h.len(),
        grows(h.log, list_spec(fuel, l, g, lex, h, o).1.log),
    decreases fuel, 0nat,
{
    if fuel == 0 || l.len() == 0 {
        return;
    }
    let f = (fuel - 1) as nat;
    match l[0] {
        SExpr::Symbol(op) => {
            if op == "quote"@ {
            } else if op == "quasiquote"@ {
                if l.len() >= 2 {
                    lemma_qq_heap(f, l[1], g, lex, h, 1, o);
                }
            } else if op == "unquote"@ {
            } else if op == "if"@ {
                if l.len() >= 3 {
                    law_eval_keeps_heap(f, l[1], g, lex, h, o);
                    let (c, h1) = eval_spec(f, l[1], g, lex, h, o);
                    law_eval_keeps_heap(f, l[2], g, lex, h1, o);
                    if l.len() > 3 {
                        law_eval_keeps_heap(f, l[3], g, lex, h1, o);
                    }
                }
            } else if op == "define"@ {
                if l.len() >= 3 && l[1] is Symbol {
                    law_eval_keeps_heap(f, l[2], g, lex, h, o);
                    let (r, h1) = eval_spec(f, l[2], g, lex, h, o);
                    if let Outcome::Value(v) = r {
                        lemma_bind_wf(h1, g, l[1]->Symbol_0, v);
                    }
                }
            } else if op == "lambda"@ {
            } else if op == "defmacro"@ {
                if l.len() >= 4 && l[1] is Symbol {
                    match params_of(l[2]) {
                        Ok(ps) => { lemma_bind_wf(h, g, l[1]->Symbol_0, SExpr::Macro(ps, Box::new(l[3]))); },
                        Err(v) => { lemma_render_keeps_heap(v, h, o); },
                    }
                }
            } else if op == "begin"@ {
                lemma_seq_heap(f, l.skip(1), g, lex, h, nil(), o);
            } else if op == "let"@ {
                if l.len() >= 2 {
                    if l[1] is List {
                        lemma_let_heap(f, l[1]->List_0, g, lex, h, o);
                        let (lr, h1) = let_spec(f, l[1]->List_0, g, lex, h, o);
                        if let Outs::Values(lex2) = lr {
                            lemma_seq_heap(f, l.skip(2), g, lex2, h1, nil(), o);
                        }
                    } else {
                        lemma_seq_heap(f, l.skip(2), g, lex, h, nil(), o);
                    }
                }
            } else if op == "letrec"@ {
                if l.len() >= 3 && l[1] is List {
                    let bs = l[1]->List_0;
                    let ph = Seq::new(bs.len(), |i: int| placeholder()) + lex;
                    lemma_letrec_heap(f, bs, g, ph, h, o);
                    let (vr, h1) = letrec_vals(f, bs, g, ph, h, o);
                    if let Outs::Values(vals) = vr {
                        lemma_seq_heap(f, l.skip(2), g, group_env(vals, lex), h1, nil(), o);
                    }
                }
            } else if op == "funext"@ {
                if l.len() == 4 {
                    law_eval_keeps_heap(f, l[3], g, lex, h, o);
                }
            } else if op == "path"@ {
            } else if op == "papply"@ {
                lemma_papply_heap(f, l, g, lex, h, o);
            } else if op == "pi"@ {
            } else if op == "piapply"@ || op == "sigmacod"@ {
                lemma_instantiate_heap(f, op == "piapply"@, l, g, lex, h, o);
            } else if op == "sigma"@ {
            } else if op == "glue-type"@ || op == "glue"@ {
                lemma_pair_heap(f, op == "glue"@, l, g, lex, h, o);
            } else if op == "unglue"@ {
                if l.len() == 2 {
                    law_eval_keeps_heap(f, l[1], g, lex, h, o);
                    let (r, h1) = eval_spec(f, l[1], g, lex, h, o);
                    if let Outcome::Value(SExpr::Glue(v, eq)) = r {
                        lemma_apply_heap(f, *eq, seq![*v], g, h1, o);
                    } else if let Outcome::Value(w) = r {
                        lemma_render_keeps_heap(w, h1, o);
                    }
                }
            } else if op == "__Path__"@ || op == "__Glue__"@ {
                if l.len() == 2 {
                    law_eval_keeps_heap(f, l[1], g, lex, h, o);
                }
            } else {
                match lookup(h, g, op) {
                    Some(SExpr::Macro(ps, body)) => lemma_macro_heap(f, ps, *body, l, g, lex, h, o),
                    _ => lemma_app_heap(f, l, g, lex, h, o),
                }
            }
        },
        _ => lemma_app_heap(f, l, g, lex, h, o),
    }
}

proof fn lemma_papply_heap(fuel: nat, l: Seq<SExpr>, g: nat, lex: Seq<SExpr>, h: HeapV, o: Answers)
    requires heap_wf(h),
    ensures
        heap_wf(papply_spec(fuel, l, g, lex, h, o).1),
        papply_spec(fuel, l, g, lex, h, o).1.len() == h.len(),
        grows(h.log, papply_spec(fuel, l, g, lex, h, o).1.log),
    decreases fuel, 0nat,
{
    if fuel > 0 && l.len() == 3 {
        let f = (fuel - 1) as nat;
        law_eval_keeps_heap(f, l[1], g, lex, h, o);
        let (pr, h1) = eval_spec(f, l[1], g, lex, h, o);
        law_eval_keeps_heap(f, l[2], g, lex, h1, o);
        let (tr, h2) = eval_spec(f, l[2], g, lex, h1, o);
        if let (Outcome::Value(SExpr::Path(body, penv)), Outcome::Value(t)) = (pr, tr) {
            law_eval_keeps_heap(f, *body, g, seq![t] + penv, h2, o);
        }
        if let (Outcome::Value(p), Outcome::Value(t)) = (pr, tr) {
            lemma_render_keeps_heap(p, h2, o);
            lemma_render_keeps_heap(t, h2, o);
        }
    }
}

proof fn lemma_instantiate_heap(fuel: nat, is_pi: bool, l: Seq<SExpr>, g: nat, lex: Seq<SExpr>, h: HeapV, o: Answers)
    requires heap_wf(h),
    ensures
        heap_wf(instantiate_spec(fuel, is_pi, l, g, lex, h, o).1),
        instantiate_spec(fuel, is_pi, l, g, lex, h, o).1.len() == h.len(),
        grows(h.log, instantiate_spec(fuel, is_pi, l, g, lex, h, o).1.log),
    decreases fuel, 0nat,
{
    if fuel > 0 && l.len() == 3 {
        let f = (fuel - 1) as nat;
        law_eval_keeps_heap(f, l[1], g, lex, h, o);
        let (pr, h1) = eval_spec(f, l[1], g, lex, h, o);
        law_eval_keeps_heap(f, l[2], g, lex, h1, o);
        let (vr, h2) = eval_spec(f, l[2], g, lex, h1, o);
        if let Outcome::Value(v) = vr {
            match pr {
                Outcome::Value(SExpr::Pi(_, cod, penv)) => { law_eval_keeps_heap(f, *cod, g, seq![v] + penv, h2, o); },
                Outcome::Value(SExpr::Sigma(_, cod, penv)) => { law_eval_keeps_heap(f, *cod, g, seq![v] + penv, h2, o); },
                _ => {},
            }
            if let Outcome::Value(p) = pr {
                lemma_render_keeps_heap(p, h2, o);
            }
        }
    }
}

proof fn lemma_pair_heap(fuel: nat, is_glue: bool, l: Seq<SExpr>, g: nat, lex: Seq<SExpr>, h: HeapV, o: Answers)
    requires heap_wf(h),
    ensures
        heap_wf(pair_spec(fuel, is_glue, l, g, lex, h, o).1),
        pair_spec(fuel, is_glue, l, g, lex, h, o).1.len() == h.len(),
        grows(h.log, pair_spec(fuel, is_glue, l, g, lex, h, o).1.log),
    decreases fuel, 0nat,
{
    if fuel > 0 && l.len() == 3 {
        let f = (fuel - 1) as nat;
        law_eval_keeps_heap(f, l[1], g, lex, h, o);
        let (ar, h1) = eval_spec(f, l[1], g, lex, h, o);
        law_eval_keeps_heap(f, l[2], g, lex, h1, o);
    }
}

proof fn lemma_macro_heap(fuel: nat, ps: Seq<Seq<char>>, body: SExpr, l: Seq<SExpr>, g: nat, lex: Seq<SExpr>, h: HeapV, o: Answers)
    requires heap_wf(h),
    ensures
        heap_wf(macro_spec(fuel, ps, body, l, g, lex, h, o).1),
        macro_spec(fuel, ps, body, l, g, lex, h, o).1.len() == h.len(),
        grows(h.log, macro_spec(fuel, ps, body, l, g, lex, h, o).1.log),
    decreases fuel, 0nat,
{
    if fuel > 0 && ps.len() == l.len() - 1 {
        let f = (fuel - 1) as nat;
        law_eval_keeps_heap(f, subst(body, ps, l.skip(1)), g, Seq::empty(), h, o);
        let (er, h1) = eval_spec(f, subst(body, ps, l.skip(1)), g, Seq::empty(), h, o);
        if let Outcome::Value(ex) = er {
            match compile_spec(ex, Seq::empty()).0 {
                Ok(c) => { law_eval_keeps_heap(f, c, g, lex, h1, o); },
                Err(crate::compiler::CompileError::Param(v)) => { lemma_render_keeps_heap(v, h1, o); },
                Err(_) => {},
            }
        }
    }
}

proof fn lemma_app_heap(fuel: nat, l: Seq<SExpr>, g: nat, lex: Seq<SExpr>, h: HeapV, o: Answers)
    requires heap_wf(h),
    ensures
        heap_wf(app_spec(fuel, l, g, lex, h, o).1),
        app_spec(fuel, l, g, lex, h, o).1.len() == h.len(),
        grows(h.log, app_spec(fuel, l, g, lex, h, o).1.log),
    decreases fuel, 0nat,
{
    if fuel > 0 && l.len() > 0 {
        let f = (fuel - 1) as nat;
        law_eval_keeps_heap(f, l[0], g, lex, h, o);
        let (fr, h1) = eval_spec(f, l[0], g, lex, h, o);
        lemma_args_heap(f, l.skip(1), g, lex, h1, o);
        let (ar, h2) = args_spec(f, l.skip(1), g, lex, h1, o);
        if let (Outcome::Value(fv), Outs::Values(vs)) = (fr, ar) {
            lemma_apply_heap(f, fv, vs, g, h2, o);
        }
    }
}

proof fn lemma_args_heap(fuel: nat, es: Seq<SExpr>, g: nat, lex: Seq<SExpr>, h: HeapV, o: Answers)
    requires heap_wf(h),
    ensures
        heap_wf(args_spec(fuel, es, g, lex, h, o).1),
        args_spec(fuel, es, g, lex, h, o).1.len() == h.len(),
        grows(h.log, args_spec(fuel, es, g, lex, h, o).1.log),
    decreases fuel, es.len(),
{
    if es.len() > 0 && fuel > 0 {
        law_eval_keeps_heap((fuel - 1) as nat, es[0], g, lex, h, o);
        let (r, h1) = eval_spec((fuel - 1) as nat, es[0], g, lex, h, o);
        lemma_args_heap(fuel, es.skip(1), g, lex, h1, o);
    }
}

proof fn lemma_seq_heap(fuel: nat, es: Seq<SExpr>, g: nat, lex: Seq<SExpr>, h: HeapV, last: SExpr, o: Answers)
    requires heap_wf(h),
    ensures
        heap_wf(seq_spec(fuel, es, g, lex, h, last, o).1),
        seq_spec(fuel, es, g, lex, h, last, o).1.len() == h.len(),
        grows(h.log, seq_spec(fuel, es, g, lex, h, last, o).1.log),
    decreases fuel, es.len(),
{
    if es.len() > 0 && fuel > 0 {
        law_eval_keeps_heap((fuel - 1) as nat, es[0], g, lex, h, o);
        let (r, h1) = eval_spec((fuel - 1) as nat, es[0], g, lex, h, o);
        if let Outcome::Value(v) = r {
            lemma_seq_heap(fuel, es.skip(1), g, lex, h1, v, o);
        }
    }
}

proof fn lemma_let_heap(fuel: nat, bs: Seq<SExpr>, g: nat, lex: Seq<SExpr>, h: HeapV, o: Answers)
    requires heap_wf(h),
    ensures
        heap_wf(let_spec(fuel, bs, g, lex, h, o).1),
        let_spec(fuel, bs, g, lex, h, o).1.len() == h.len(),
        grows(h.log, let_spec(fuel, bs, g, lex, h, o).1.log),
    decreases fuel, bs.len(),
{
    if bs.len() > 0 && fuel > 0 {
        match bs[0] {
            SExpr::List(pair) => if pair.len() >= 2 {
                law_eval_keeps_heap((fuel - 1) as nat, pair[1], g, lex, h, o);
                let (r, h1) = eval_spec((fuel - 1) as nat, pair[1], g, lex, h, o);
                if let Outcome::Value(v) = r {
                    lemma_let_heap(fuel, bs.skip(1), g, seq![v] + lex, h1, o);
                }
            },
            _ => { lemma_let_heap(fuel, bs.skip(1), g, lex, h, o); },
        }
    }
}

proof fn lemma_letrec_heap(fuel: nat, bs: Seq<SExpr>, g: nat, env: Seq<SExpr>, h: HeapV, o: Answers)
    requires heap_wf(h),
    ensures
        heap_wf(letrec_vals(fuel, bs, g, env, h, o).1),
        letrec_vals(fuel, bs, g, env, h, o).1.len() == h.len(),
        grows(h.log, letrec_vals(fuel, bs, g, env, h, o).1.log),
    decreases fuel, bs.len(),
{
    if bs.len() > 0 && fuel > 0 {
        if let SExpr::List(pair) = bs[0] {
            if pair.len() >= 2 {
                law_eval_keeps_heap((fuel - 1) as nat, pair[1], g, env, h, o);
                let (r, h1) = eval_spec((fuel - 1) as nat, pair[1], g, env, h, o);
                lemma_letrec_heap(fuel, bs.skip(1), g, env, h1, o);
            }
        }
    }
}

proof fn lemma_qq_heap(fuel: nat, e: SExpr, g: nat, lex: Seq<SExpr>, h: HeapV, depth: nat, o: Answers)
    requires heap_wf(h),
    ensures
        heap_wf(qq_spec(fuel, e, g, lex, h, depth, o).1),
        qq_spec(fuel, e, g, lex, h, depth, o).1.len() == h.len(),
        grows(h.log, qq_spec(fuel, e, g, lex, h, depth, o).1.log),
    decreases fuel, 0nat,
{
    if fuel > 0 {
        let f = (fuel - 1) as nat;
        if let SExpr::List(l) = e {
            if l.len() > 0 {
                if l[0] == SExpr::Symbol("unquote"@) {
                    if l.len() >= 2 {
                        if depth == 1 {
                            law_eval_keeps_heap(f, l[1], g, lex, h, o);
                        } else {
                            lemma_qq_heap(f, l[1], g, lex, h, (depth - 1) as nat, o);
                        }
                    }
                } else if l[0] == SExpr::Symbol("quasiquote"@) {
                    if l.len() >= 2 {
                        lemma_qq_heap(f, l[1], g, lex, h, depth + 1, o);
                    }
                } else {
                    lemma_qq_items_heap(f, l, g, lex, h, depth, o);
                }
            }
        }
    }
}

proof fn lemma_qq_items_heap(fuel: nat, es: Seq<SExpr>, g: nat, lex: Seq<SExpr>, h: HeapV, depth: nat, o: Answers)
    requires heap_wf(h),
    ensures
        heap_wf(qq_items(fuel, es, g, lex, h, depth, o).1),
        qq_items(fuel, es, g, lex, h, depth, o).1.len() == h.len(),
        grows(h.log, qq_items(fuel, es, g, lex, h, depth, o).1.log),
    decreases fuel, es.len(),
{
    if es.len() > 0 && fuel > 0 {
        let f = (fuel - 1) as nat;
        if is_splice(es[0]) && depth == 1 {
            law_eval_keeps_heap(f, es[0]->List_0[1], g, lex, h, o);
            let (r, h1) = eval_spec(f, es[0]->List_0[1], g, lex, h, o);
            lemma_qq_items_heap(fuel, es.skip(1), g, lex, h1, depth, o);
        } else {
            lemma_qq_heap(f, es[0], g, lex, h, depth, o);
            let (r, h1) = qq_spec(f, es[0], g, lex, h, depth, o);
            lemma_qq_items_heap(fuel, es.skip(1), g, lex, h1, depth, o);
        }
    }
}

proof fn lemma_apply_heap(fuel: nat, fv: SExpr, args: Seq<SExpr>, g: nat, h: HeapV, o: Answers)
    requires heap_wf(h),
    ensures
        heap_wf(apply_spec(fuel, fv, args, g, h, o).1),
        apply_spec(fuel, fv, args, g, h, o).1.len() == h.len(),
        grows(h.log, apply_spec(fuel, fv, args, g, h, o).1.log),
    decreases fuel, 0nat,
{
    if fuel > 0 {
        let f = (fuel - 1) as nat;
        match fv {
            SExpr::Func(SBuiltin::Prim(p)) => {
                if args.len() == 1 {
                    lemma_render_frames(args[0], h, o);
                }
                crate::gc::lemma_wf_frames(h, apply_spec(fuel, fv, args, g, h, o).1);
            },
            SExpr::Func(SBuiltin::Native(n)) => {
                crate::gc::lemma_wf_frames(h, apply_spec(fuel, fv, args, g, h, o).1);
            },
            SExpr::Func(SBuiltin::FunextPoint(p, i, ge)) => {
                if args.len() > 0 && ge < h.len() {
                    lemma_apply_heap(f, *p, seq![args[0]], ge, h, o);
                    let (r, h1) = apply_spec(f, *p, seq![args[0]], ge, h, o);
                    if let Outcome::Value(SExpr::Path(body, penv)) = r {
                        law_eval_keeps_heap(f, *body, ge, seq![*i] + penv, h1, o);
                    } else if let Outcome::Value(w) = r {
                        lemma_render_keeps_heap(w, h1, o);
                    }
                }
            },
            SExpr::Lambda(arity, body, penv) => {
                law_eval_keeps_heap(f, *body, g, args.reverse() + penv, h, o);
            },
            SExpr::Rec(k, vals, lex) => {
                if k < vals.len() && vals[k as int] is Lambda {
                    law_eval_keeps_heap(f, *vals[k as int]->Lambda_1, g, args.reverse() + group_env(vals, lex), h, o);
                }
                lemma_render_keeps_heap(fv, h, o);
            },
            _ => {
                lemma_render_keeps_heap(fv, h, o);
            },
        }
    }
}


/// Printing a value leaves the frames alone and only adds to the record of
/// exchanges with the host.
proof fn lemma_render_keeps_heap(e: SExpr, h: HeapV, o: Answers)
    requires heap_wf(h),
    ensures
        heap_wf(render(e, h, o).1),
        render(e, h, o).1.frames == h.frames,
        grows(h.log, render(e, h, o).1.log),
{
    lemma_render_frames(e, h, o);
    crate::gc::lemma_wf_frames(h, render(e, h, o).1);
}

proof fn lemma_render_frames(e: SExpr, h: HeapV, o: Answers)
    ensures
        render(e, h, o).1.frames == h.frames,
        grows(h.log, render(e, h, o).1.log),
    decreases e, 1nat,
{
    if let SExpr::List(items) = e {
        lemma_render_items_frames(items, true, h, o);
    }
}

proof fn lemma_render_items_frames(es: Seq<SExpr>, first: bool, h: HeapV, o: Answers)
    ensures
        render_items(es, first, h, o).1.frames == h.frames,
        grows(h.log, render_items(es, first, h, o).1.log),
    decreases es, 1nat,
{
    if es.len() > 0 {
        lemma_render_frames(es[0], h, o);
        let (a, h1) = render(es[0], h, o);
        lemma_render_items_frames(es.skip(1), false, h1, o);
    }
}

/// `(define name e)` evaluates to the value of `e`, after which `name` is
/// bound to it in the global environment and every other name keeps the
/// binding it had once `e` was evaluated.
pub proof fn law_define_binds(fuel: nat, name: Seq<char>, e: SExpr, g: nat, lex: Seq<SExpr>, h: HeapV, o: Answers)
    requires heap_wf(h), g < h.len(), fuel >= 2,
    ensures ({
        let (r, h1) = eval_spec((fuel - 2) as nat, e, g, lex, h, o);
        let (d, h2) = eval_spec(fuel, SExpr::List(seq![SExpr::Symbol("define"@), SExpr::Symbol(name), e]), g, lex, h, o);
        r is Value ==> {
            &&& d == r
            &&& lookup(h2, g, name) == Some(r->Value_0)
            &&& forall|k: Seq<char>| k != name ==> #[trigger] lookup(h2, g, k) == lookup(h1, g, k)
        }
    }),
{
    reveal_strlit("define");
    reveal_strlit("quote");
    reveal_strlit("quasiquote");
    reveal_strlit("unquote");
    reveal_strlit("if");
    let l = seq![SExpr::Symbol("define"@), SExpr::Symbol(name), e];
    assert(l[0] == SExpr::Symbol("define"@));
    assert("define"@.len() == 6);
    assert("quote"@.len() == 5);
    assert("define"@ != "quote"@);
    assert("define"@ != "quasiquote"@);
    assert("define"@ != "unquote"@);
    assert("define"@ != "if"@);
    law_eval_keeps_heap((fuel - 2) as nat, e, g, lex, h, o);
    let (r, h1) = eval_spec((fuel - 2) as nat, e, g, lex, h, o);
    if let Outcome::Value(v) = r {
        assert(eval_spec(fuel, SExpr::List(l), g, lex, h, o) == (Outcome::Value(v), bind(h1, g, name, v)));
        assert forall|k: Seq<char>| k != name implies #[trigger] lookup(bind(h1, g, name, v), g, k) == lookup(h1, g, k) by {
            lemma_lookup_bind(h1, g, name, v, k);
        }
        lemma_lookup_bind(h1, g, name, v, name);
    }
}

/// `(unglue (glue a b))` applies the value of `b` to the value of `a`.
pub proof fn law_unglue_of_glue(fuel: nat, a: SExpr, b: SExpr, g: nat, lex: Seq<SExpr>, h: HeapV, o: Answers)
    requires fuel >= 5,
    ensures ({
        let (ra, h1) = eval_spec((fuel - 5) as nat, a, g, lex, h, o);
        let (rb, h2) = eval_spec((fuel - 5) as nat, b, g, lex, h1, o);
        let form = SExpr::List(seq![SExpr::Symbol("unglue"@),
            SExpr::List(seq![SExpr::Symbol("glue"@), a, b])]);
        ra is Value && rb is Value ==>
            eval_spec(fuel, form, g, lex, h, o) == apply_spec((fuel - 2) as nat, rb->Value_0, seq![ra->Value_0], g, h2, o)
    }),
{
    reveal_strlit("unglue");
    reveal_strlit("glue");
    reveal_strlit("glue-type");
    reveal_strlit("quote");
    reveal_strlit("quasiquote");
    reveal_strlit("unquote");
    reveal_strlit("if");
    reveal_strlit("define");
    reveal_strlit("lambda");
    reveal_strlit("defmacro");
    reveal_strlit("begin");
    reveal_strlit("let");
    reveal_strlit("letrec");
    reveal_strlit("funext");
    reveal_strlit("path");
    reveal_strlit("papply");
    reveal_strlit("pi");
    reveal_strlit("piapply");
    reveal_strlit("sigmacod");
    reveal_strlit("sigma");
    assert("unglue"@.len() == 6 && "unglue"@[0] == 'u');
    assert("glue"@.len() == 4 && "glue"@[0] == 'g');
    assert("glue-type"@.len() == 9 && "glue-type"@[0] == 'g');
    assert("quote"@.len() == 5 && "quote"@[0] == 'q');
    assert("quasiquote"@.len() == 10 && "quasiquote"@[0] == 'q');
    assert("unquote"@.len() == 7 && "unquote"@[0] == 'u');
    assert("if"@.len() == 2 && "if"@[0] == 'i');
    assert("define"@.len() == 6 && "define"@[0] == 'd');
    assert("lambda"@.len() == 6 && "lambda"@[0] == 'l');
    assert("defmacro"@.len() == 8 && "defmacro"@[0] == 'd');
    assert("begin"@.len() == 5 && "begin"@[0] == 'b');
    assert("let"@.len() == 3 && "let"@[0] == 'l');
    assert("letrec"@.len() == 6 && "letrec"@[0] == 'l');
    assert("funext"@.len() == 6 && "funext"@[0] == 'f');
    assert("path"@.len() == 4 && "path"@[0] == 'p');
    assert("papply"@.len() == 6 && "papply"@[0] == 'p');
    assert("pi"@.len() == 2 && "pi"@[0] == 'p');
    assert("piapply"@.len() == 7 && "piapply"@[0] == 'p');
    assert("sigmacod"@.len() == 8 && "sigmacod"@[0] == 's');
    assert("sigma"@.len() == 5 && "sigma"@[0] == 's');
    let inner = seq![SExpr::Symbol("glue"@), a, b];
    let outer = seq![SExpr::Symbol("unglue"@), SExpr::List(inner)];
    let (ra, h1) = eval_spec((fuel - 5) as nat, a, g, lex, h, o);
    let (rb, h2) = eval_spec((fuel - 5) as nat, b, g, lex, h1, o);
    if ra is Value && rb is Value {
        assert(inner[1] == a && inner[2] == b);
        assert(pair_spec((fuel - 4) as nat, true, inner, g, lex, h, o)
            == (Outcome::Value(SExpr::Glue(Box::new(ra->Value_0), Box::new(rb->Value_0))), h2));
        assert(list_spec((fuel - 3) as nat, inner, g, lex, h, o) == pair_spec((fuel - 4) as nat, true, inner, g, lex, h, o));
        assert(eval_spec((fuel - 2) as nat, SExpr::List(inner), g, lex, h, o) == list_spec((fuel - 3) as nat, inner, g, lex, h, o));
        assert(outer[1] == SExpr::List(inner));
    }
}

/// The path `refl` makes of a value is constant: at every point its body
/// evaluates to that value and leaves the heap alone.
pub proof fn law_refl_is_constant(fuel: nat, v: SExpr, t: u64, g: nat, h: HeapV, o: Answers)
    requires fuel >= 2,
    ensures
        match prim_spec(Prim::Refl, seq![v]) {
            Outcome::Value(SExpr::Path(body, penv)) =>
                eval_spec(fuel, *body, g, seq![SExpr::Number(t)] + penv, h, o) == (Outcome::Value(v), h),
            _ => false,
        },
{
    let l = seq![SExpr::Symbol("quote"@), v];
    assert(l[0] == SExpr::Symbol("quote"@));
    assert(l[1] == v);
}

/// `papply` evaluates the path, then the point; a point that is not a
/// number in `[0, 1]` is an error, and a point in it is bound at index 0
/// while the path's body is evaluated.
pub proof fn law_papply_point(fuel: nat, pe: SExpr, te: SExpr, g: nat, lex: Seq<SExpr>, h: HeapV, o: Answers)
    requires fuel >= 1,
    ensures ({
        let l = seq![SExpr::Symbol("papply"@), pe, te];
        let f = (fuel - 1) as nat;
        let (pr, h1) = eval_spec(f, pe, g, lex, h, o);
        let (tr, h2) = eval_spec(f, te, g, lex, h1, o);
        pr is Value && tr is Value ==> {
            &&& !(tr->Value_0 is Number) ==>
                papply_spec(fuel, l, g, lex, h, o) == fail_with("papply: interval point must be a number, got "@, tr->Value_0, h2, o)
            &&& (tr->Value_0 is Number && !num::in_unit_interval(tr->Value_0->Number_0)) ==>
                papply_spec(fuel, l, g, lex, h, o) == fail_around("papply: interval point "@, tr->Value_0, " out of bounds, expected [0,1]"@, h2, o)
            &&& (tr->Value_0 is Number && num::in_unit_interval(tr->Value_0->Number_0) && pr->Value_0 is Path) ==>
                papply_spec(fuel, l, g, lex, h, o) == eval_spec(f, *pr->Value_0->Path_0, g, seq![tr->Value_0] + pr->Value_0->Path_1, h2, o)
        }
    }),
{
    let l = seq![SExpr::Symbol("papply"@), pe, te];
    assert(l[1] == pe && l[2] == te);
}

/// Inside `letrec`, the name of binding `j` whose value is a lambda stands
/// for a function that, applied, evaluates the lambda's body in the very
/// environment the `letrec` body sees (extended by the arguments), so that
/// recursive and mutually recursive calls find every binding of the group;
/// a binding whose value is not a lambda stands for that value.
pub proof fn law_letrec_members(fuel: nat, vals: Seq<SExpr>, lex: Seq<SExpr>, j: int, args: Seq<SExpr>, g: nat, h: HeapV, o: Answers)
    requires fuel >= 1, 0 <= j < vals.len(),
    ensures ({
        let env = group_env(vals, lex);
        let bound = env[vals.len() - 1 - j];
        &&& vals[j] is Lambda && args.len() == vals[j]->Lambda_0 ==>
            apply_spec(fuel, bound, args, g, h, o) == eval_spec((fuel - 1) as nat, *vals[j]->Lambda_1, g, args.reverse() + env, h, o)
        &&& !(vals[j] is Lambda) ==> bound == vals[j]
    }),
{
    let ms = Seq::new(vals.len(), |i: int| member(vals[i], i as nat, vals, lex));
    let env = group_env(vals, lex);
    assert(env == ms.reverse() + lex);
    assert(ms.reverse()[vals.len() - 1 - j] == ms[j]);
    assert(env[vals.len() - 1 - j] == member(vals[j], j as nat, vals, lex));
}

/// `(funext f g p)` is the path that is, at every point `t`, the function
/// `λ x. (papply (p x) t)`: its body evaluated with `t` bound at index 0
/// gives a function which, applied to `x`, applies `p` to `x` and evaluates
/// the body of the resulting path with `t` bound at index 0.  So `papply`
/// of that path at a point `t` of the unit interval, in any context, is
/// that function.
pub proof fn law_funext_point(fuel: nat, p: SExpr, gf: nat, t: SExpr, lex: Seq<SExpr>, g: nat, x: SExpr, ctx: Seq<SExpr>, h: HeapV, o: Answers)
    requires fuel >= 5,
    ensures ({
        let pt = SExpr::Func(SBuiltin::FunextPoint(Box::new(p), Box::new(t), gf));
        let path = SExpr::Path(Box::new(funext_body(p, gf)), lex);
        &&& eval_spec(fuel, funext_body(p, gf), g, seq![t] + lex, h, o) == (Outcome::Value(pt), h)
        &&& t is Number && num::in_unit_interval(t->Number_0) ==>
                papply_spec(fuel + 1, seq![SExpr::Symbol("papply"@), path, t], g, ctx, h, o) == (Outcome::Value(pt), h)
        &&& gf < h.len() ==> apply_spec(fuel, pt, seq![x], g, h, o) == {
                let (r, h1) = apply_spec((fuel - 1) as nat, p, seq![x], gf, h, o);
                match r {
                    Outcome::Value(SExpr::Path(b, pe)) => eval_spec((fuel - 1) as nat, *b, gf, seq![t] + pe, h1, o),
                    Outcome::Value(w) => fail_with("funext: pointwise homotopy did not return a path, got "@, w, h1, o),
                    Outcome::Error(m) => (Outcome::Error(m), h1),
                }
            }
    }),
{
    let l = seq![SExpr::Func(SBuiltin::FunextLine(Box::new(p), gf)), SExpr::Index(0)];
    let env = seq![t] + lex;
    assert(env[0] == t);
    assert(l.skip(1) =~= seq![SExpr::Index(0)]);
    assert(seq![SExpr::Index(0)].skip(1) =~= Seq::<SExpr>::empty());
    assert(seq![t] + Seq::<SExpr>::empty() =~= seq![t]);
    let f3 = (fuel - 3) as nat;
    assert(eval_spec((f3 - 1) as nat, SExpr::Index(0), g, env, h, o) == (Outcome::Value(t), h));
    assert(args_spec(f3, Seq::<SExpr>::empty(), g, env, h, o) == (Outs::Values(Seq::<SExpr>::empty()), h));
    assert(args_spec(f3, seq![SExpr::Index(0)], g, env, h, o) == (Outs::Values(seq![t]), h));
    assert(app_spec((fuel - 2) as nat, l, g, env, h, o)
        == (Outcome::Value(SExpr::Func(SBuiltin::FunextPoint(Box::new(p), Box::new(t), gf))), h));
}

/// Reading a source text gives its top-level expressions in order, each read
/// on its own: two texts joined by a space read as the expressions of the
/// first followed by those of the second, the host being asked about the
/// tokens of the first and then those of the second, as if each text were
/// read in turn.  An empty text reads as no expressions.
pub proof fn law_read_in_order(a: Seq<char>, b: Seq<char>, k0: nat, o: Answers)
    ensures
        tokens_of(a + seq![' '] + b) == tokens_of(a) + tokens_of(b),
        parse_seq(tokens_of(Seq::empty()), readings(tokens_of(Seq::empty()), k0, o), 0, Seq::empty())
            == Ok::<Seq<SExpr>, Seq<char>>(Seq::empty()),
        ({
            let ta = tokens_of(a);
            let tb = tokens_of(b);
            let xs = parse_seq(ta, readings(ta, k0, o), 0, Seq::empty());
            let ys = parse_seq(tb, readings(tb, k0 + ta.len(), o), 0, Seq::empty());
            let t = tokens_of(a + seq![' '] + b);
            xs is Ok && ys is Ok ==>
                parse_seq(t, readings(t, k0, o), 0, Seq::empty()) == Ok::<Seq<SExpr>, Seq<char>>(xs->Ok_0 + ys->Ok_0)
        }),
{
    lemma_tokens_concat(a, b);
    assert(tokens_of(Seq::empty()) =~= Seq::<Seq<char>>::empty());
    let ta = tokens_of(a);
    let tb = tokens_of(b);
    let na = readings(ta, k0, o);
    let nb = readings(tb, k0 + ta.len(), o);
    lemma_readings_concat(ta, tb, k0, o);
    let xs = parse_seq(ta, na, 0, Seq::empty());
    let ys = parse_seq(tb, nb, 0, Seq::empty());
    if xs is Ok && ys is Ok {
        lemma_parse_seq_prefix(ta, na, tb, nb, 0, Seq::empty());
        lemma_parse_seq_shift(ta, na, tb, nb, 0, xs->Ok_0);
        assert(ta.len() + 0nat == ta.len());
        lemma_parse_seq_acc(tb, nb, 0, xs->Ok_0, Seq::empty());
        assert(xs->Ok_0 + Seq::<SExpr>::empty() =~= xs->Ok_0);
    }
}

/// `a` comes before `b` in dictionary order: they agree up to some position
/// `k`, and there either `a` has ended while `b` goes on, or `a` has the
/// smaller character.
pub open spec fn precedes(a: Seq<char>, b: Seq<char>) -> bool {
    exists|k: int| 0 <= k <= a.len() && k < b.len() && #[trigger] a.take(k) == b.take(k)
        && (k == a.len() || (a[k] as u32) < (b[k] as u32))
}

proof fn lemma_precedes_step(a: Seq<char>, b: Seq<char>)
    requires a.len() > 0, b.len() > 0, a[0] == b[0],
    ensures precedes(a, b) == precedes(a.skip(1), b.skip(1)),
{
    let a1 = a.skip(1);
    let b1 = b.skip(1);
    if precedes(a, b) {
        let k = choose|k: int| 0 <= k <= a.len() && k < b.len() && #[trigger] a.take(k) == b.take(k)
            && (k == a.len() || (a[k] as u32) < (b[k] as u32));
        if k == 0 {
            assert((a[0] as u32) < (b[0] as u32));
        }
        assert(k >= 1);
        assert(a1.take(k - 1) =~= a.take(k).skip(1));
        assert(b1.take(k - 1) =~= b.take(k).skip(1));
        assert(a1.take(k - 1) == b1.take(k - 1));
        if k < a.len() {
            assert(a1[k - 1] == a[k] && b1[k - 1] == b[k]);
        }
    }
    if precedes(a1, b1) {
        let k = choose|k: int| 0 <= k <= a1.len() && k < b1.len() && #[trigger] a1.take(k) == b1.take(k)
            && (k == a1.len() || (a1[k] as u32) < (b1[k] as u32));
        assert(a.take(k + 1) =~= seq![a[0]] + a1.take(k));
        assert(b.take(k + 1) =~= seq![b[0]] + b1.take(k));
        assert(a.take(k + 1) == b.take(k + 1));
        if k < a1.len() {
            assert(a1[k] == a[k + 1] && b1[k] == b[k + 1]);
        }
    }
}

/// The three-way order of strings: `0` exactly for equal strings, negative
/// exactly when the first precedes the second, and reversed by swapping.
proof fn lemma_lex_order(a: Seq<char>, b: Seq<char>)
    ensures
        -1 <= lex_order(a, b) <= 1,
        (lex_order(a, b) == 0) == (a == b),
        (lex_order(a, b) < 0) == precedes(a, b),
        lex_order(b, a) == -lex_order(a, b),
    decreases a.len(),
{
    if a.len() == 0 {
        if b.len() > 0 {
            assert(a.take(0) =~= b.take(0));
            assert(precedes(a, b));
        } else {
            assert(a =~= b);
        }
    } else if b.len() == 0 {
        assert(a != b);
    } else if (a[0] as u32) < (b[0] as u32) {
        assert(a.take(0) =~= b.take(0));
        assert(precedes(a, b));
        assert(a != b);
    } else if (a[0] as u32) > (b[0] as u32) {
        assert(a != b);
        if precedes(a, b) {
            let k = choose|k: int| 0 <= k <= a.len() && k < b.len() && #[trigger] a.take(k) == b.take(k)
                && (k == a.len() || (a[k] as u32) < (b[k] as u32));
            if k > 0 {
                assert(a.take(k)[0] == b.take(k)[0]);
            }
        }
    } else {
        vstd::utf8::char_u32_cast(a[0], a[0] as u32);
        vstd::utf8::char_u32_cast(b[0], b[0] as u32);
        assert(a[0] == b[0]);
        lemma_lex_order(a.skip(1), b.skip(1));
        lemma_precedes_step(a, b);
        assert(a =~= seq![a[0]] + a.skip(1));
        assert(b =~= seq![b[0]] + b.skip(1));
        if a == b {
            assert(a.skip(1) =~= b.skip(1));
        }
    }
}

/// The string comparisons order strings as `str` does, by dictionary order
/// of their characters: `string=?` holds of equal strings only, `string<?`
/// exactly when the first precedes the second (a proper prefix precedes the
/// longer string), `string>?` is `string<?` with the arguments swapped, and
/// `string<=?` / `string>=?` are the negations of `string>?` / `string<?`.
pub proof fn law_string_order(a: Seq<char>, b: Seq<char>)
    ensures ({
        let ab = seq![SExpr::Str(a), SExpr::Str(b)];
        let ba = seq![SExpr::Str(b), SExpr::Str(a)];
        &&& prim_spec(Prim::StringEq, ab) == Outcome::Value(flag(a == b))
        &&& prim_spec(Prim::StringLt, ab) == Outcome::Value(flag(
                exists|k: int| 0 <= k <= a.len() && k < b.len() && #[trigger] a.take(k) == b.take(k)
                    && (k == a.len() || (a[k] as u32) < (b[k] as u32))))
        &&& prim_spec(Prim::StringGt, ab) == prim_spec(Prim::StringLt, ba)
        &&& prim_spec(Prim::StringLe, ab) == Outcome::Value(flag(prim_spec(Prim::StringGt, ab) == Outcome::Value(flag(false))))
        &&& prim_spec(Prim::StringGe, ab) == Outcome::Value(flag(prim_spec(Prim::StringLt, ab) == Outcome::Value(flag(false))))
        &&& a.len() < b.len() && b.take(a.len() as int) == a ==>
                prim_spec(Prim::StringLt, ab) == Outcome::Value(flag(true))
                && prim_spec(Prim::StringGt, ab) == Outcome::Value(flag(false))
    }),
{
    lemma_lex_order(a, b);
    assert(flag(true) != flag(false));
    if a.len() < b.len() && b.take(a.len() as int) == a {
        assert(a.take(a.len() as int) =~= a);
        assert(a.take(a.len() as int) == b.take(a.len() as int));
        assert(precedes(a, b));
    }
}

/// The type predicates `pi?`, `path?`, `sigma?`, `glue?`, `glue-type?` and
/// `string?` each answer `1` for the values of their own kind and `0` for
/// every other value, so no value is recognised by two of them; applying
/// one asks nothing of the host and leaves the heap as it was.
pub proof fn law_type_predicates(v: SExpr, h: HeapV, o: Answers)
    ensures ({
        let yes = |p: Prim| prim_spec(p, seq![v]) == Outcome::Value(flag(true));
        let no = |p: Prim| prim_spec(p, seq![v]) == Outcome::Value(flag(false));
        &&& yes(Prim::IsPath) <==> v is Path
        &&& yes(Prim::IsPi) <==> v is Pi
        &&& yes(Prim::IsSigma) <==> v is Sigma
        &&& yes(Prim::IsGlue) <==> v is Glue
        &&& yes(Prim::IsGlueType) <==> v is GlueType
        &&& yes(Prim::IsString) <==> v is Str
        &&& yes(Prim::IsPath) || no(Prim::IsPath)
        &&& yes(Prim::IsPath) ==> no(Prim::IsPi) && no(Prim::IsSigma) && no(Prim::IsGlue)
                && no(Prim::IsGlueType) && no(Prim::IsString)
        &&& yes(Prim::IsPi) ==> no(Prim::IsPath) && no(Prim::IsSigma)
        &&& prim_step(Prim::IsPath, seq![v], h, o) == (prim_spec(Prim::IsPath, seq![v]), h)
    }),
{
    assert(flag(true) != flag(false));
}

/// `car` and `cdr` take a non-empty list apart: `cdr` gives the list without
/// its first element, one shorter, and `cons` of the two gives the list back.
/// Neither applies to the empty list.
pub proof fn law_car_cdr(l: Seq<SExpr>)
    ensures
        l.len() > 0 ==> match prim_spec(Prim::Cdr, seq![SExpr::List(l)]) {
            Outcome::Value(SExpr::List(r)) => r.len() + 1 == l.len()
                && forall|i: int| 0 <= i < r.len() ==> #[trigger] r[i] == l[i + 1],
            _ => false,
        },
        l.len() > 0 ==> match (prim_spec(Prim::Car, seq![SExpr::List(l)]), prim_spec(Prim::Cdr, seq![SExpr::List(l)])) {
            (Outcome::Value(x), Outcome::Value(rest)) =>
                prim_spec(Prim::Cons, seq![x, rest]) == Outcome::Value(SExpr::List(l)) && x == l[0],
            _ => false,
        },
        l.len() == 0 ==> prim_spec(Prim::Car, seq![SExpr::List(l)]) is Error
            && prim_spec(Prim::Cdr, seq![SExpr::List(l)]) is Error,
{
    if l.len() > 0 {
        assert(seq![l[0]] + l.skip(1) =~= l);
    }
}

/// A variable compiles to the index of its innermost binding: counting from
/// the most recent name, the first one equal to it.  A variable bound
/// nowhere stays a (global) symbol.
pub proof fn law_innermost_binding(names: Seq<Seq<char>>, s: Seq<char>)
    ensures
        match compile_spec(SExpr::Symbol(s), names).0 {
            Ok(SExpr::Index(i)) => i < names.len()
                && names[names.len() - 1 - i] == s
                && forall|j: int| names.len() - 1 - i < j < names.len() ==> #[trigger] names[j] != s,
            Ok(e) => e == SExpr::Symbol(s) && !names.contains(s),
            Err(_) => false,
        },
        names.len() > 0 && names.last() == s ==> compile_spec(SExpr::Symbol(s), names).0 == Ok::<SExpr, crate::compiler::CompileError>(SExpr::Index(0)),
    decreases names.len(),
{
    if names.len() > 0 && names.last() != s {
        let d = names.drop_last();
        law_innermost_binding(d, s);
        if names.contains(s) {
            let j = choose|j: int| 0 <= j < names.len() && names[j] == s;
            assert(j < names.len() - 1);
            assert(d[j] == s);
        }
        match compile_spec(SExpr::Symbol(s), d).0 {
            Ok(SExpr::Index(i)) => {
                assert(names[names.len() - 1 - (i + 1)] == d[d.len() - 1 - i]);
                assert forall|j: int| names.len() - 1 - (i + 1) < j < names.len() implies #[trigger] names[j] != s by {
                    if j < names.len() - 1 { assert(d[j] == names[j]); }
                }
            },
            _ => {},
        }
        if !d.contains(s) {
            assert forall|j: int| 0 <= j < names.len() implies names[j] != s by {
                if j < names.len() - 1 { assert(d[j] == names[j]); }
            }
        }
    }
}

/// `string-append` joins its strings in order, keeping every character;
/// `string->symbol` and `symbol->string` undo each other; `substring` gives
/// the characters from `start` up to `end`.
pub proof fn law_string_prims(a: Seq<char>, b: Seq<char>, start: u64, end: u64)
    ensures
        match prim_spec(Prim::StringAppend, seq![SExpr::Str(a), SExpr::Str(b)]) {
            Outcome::Value(SExpr::Str(c)) => c.len() == a.len() + b.len()
                && c.take(a.len() as int) == a && c.skip(a.len() as int) == b,
            _ => false,
        },
        prim_spec(Prim::StringAppend, Seq::empty()) == Outcome::Value(SExpr::Str(Seq::empty())),
        match prim_spec(Prim::StringToSymbol, seq![SExpr::Str(a)]) {
            Outcome::Value(y) => y is Symbol && prim_spec(Prim::SymbolToString, seq![y]) == Outcome::Value(SExpr::Str(a)),
            _ => false,
        },
        ({
            let i = num::to_index_spec(start);
            let j = num::to_index_spec(end);
            i <= j <= a.len() ==> match prim_spec(Prim::Substring, seq![SExpr::Str(a), SExpr::Number(start), SExpr::Number(end)]) {
                Outcome::Value(SExpr::Str(r)) => r.len() == j - i
                    && forall|k: int| 0 <= k < r.len() ==> #[trigger] r[k] == a[i + k],
                _ => false,
            }
        }),
{
    let args = seq![SExpr::Str(a), SExpr::Str(b)];
    assert(args.skip(1) =~= seq![SExpr::Str(b)]);
    assert(seq![SExpr::Str(b)].skip(1) =~= Seq::<SExpr>::empty());
    assert(b + Seq::<char>::empty() =~= b);
    assert(concat_strs(Seq::<SExpr>::empty()) == Some(Seq::<char>::empty()));
    assert(concat_strs(seq![SExpr::Str(b)]) == Some(b));
    assert(concat_strs(args) == Some(a + b));
    let c = a + b;
    assert(c.take(a.len() as int) =~= a);
    assert(c.skip(a.len() as int) =~= b);
}

/// `list` gives its arguments as a list; `cons` puts a value in front of a
/// list, one longer; `null?` answers `1` exactly for the empty list, so
/// never for a `cons`; `not` answers `1` exactly for false values (zero and
/// the empty list).
pub proof fn law_list_prims(xs: Seq<SExpr>, x: SExpr, v: SExpr)
    ensures
        prim_spec(Prim::List, xs) == Outcome::Value(SExpr::List(xs)),
        match prim_spec(Prim::Cons, seq![x, SExpr::List(xs)]) {
            Outcome::Value(SExpr::List(r)) => r.len() == xs.len() + 1 && r[0] == x
                && forall|i: int| 0 <= i < xs.len() ==> #[trigger] r[i + 1] == xs[i],
            _ => false,
        },
        (prim_spec(Prim::IsNull, seq![v]) == Outcome::Value(flag(true))) <==> v == SExpr::List(Seq::empty()),
        match prim_spec(Prim::Cons, seq![x, SExpr::List(xs)]) {
            Outcome::Value(c) => prim_spec(Prim::IsNull, seq![c]) == Outcome::Value(flag(false)),
            _ => false,
        },
        (prim_spec(Prim::Not, seq![v]) == Outcome::Value(flag(true))) <==> (
            v == SExpr::List(Seq::empty()) || (v is Number && num::is_zero(v->Number_0))),
{
    assert(flag(true) != flag(false));
    if v is List && v->List_0.len() == 0 {
        assert(v->List_0 =~= Seq::<SExpr>::empty());
    }
}

} // verus!
