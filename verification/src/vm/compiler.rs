//! Which expressions the stack machine takes, and the code generator for
//! them, with the proof that running the generated code gives what the
//! tree-walking evaluator gives.

use vstd::prelude::*;
use crate::builtins::Outcome;
use crate::expr::{Expr, SExpr, exprs_view, lemma_exprs_view, is_sentinel};
use crate::semantics::{Outs, HeapV, eval_spec, list_spec, app_spec, args_spec, seq_spec, nil};
use crate::text::{str_eq, owned};
use super::bytecode::{Instr, InstrV, run, instr_view, code_view};
use crate::host::Answers;

verus! {

/// Forms that only the tree-walking evaluator handles: binders and
/// definitions, and the cubical and dependent-type forms.
pub open spec fn tree_only(op: Seq<char>) -> bool {
    ||| op == "let"@
    ||| op == "letrec"@
    ||| op == "define"@
    ||| op == "lambda"@
    ||| op == "defmacro"@
    ||| op == "funext"@
    ||| op == "path"@
    ||| op == "papply"@
    ||| op == "pi"@
    ||| op == "piapply"@
    ||| op == "sigma"@
    ||| op == "sigmacod"@
    ||| op == "glue-type"@
    ||| op == "glue"@
    ||| op == "unglue"@
    ||| op == "unquote"@
    ||| op == "unquote-splicing"@
    ||| op == "__Path__"@
    ||| op == "__Glue__"@
}

/// A list headed by `unquote` or `unquote-splicing`.
pub open spec fn is_unquote(l: Seq<SExpr>) -> bool {
    l.len() > 0 && (l[0] == SExpr::Symbol("unquote"@) || l[0] == SExpr::Symbol("unquote-splicing"@))
}

/// No list inside `e` is headed by `unquote` or `unquote-splicing`.
pub open spec fn unquote_free(e: SExpr) -> bool
    decreases e, 0nat,
{
    match e {
        SExpr::List(l) => !is_unquote(l) && all_unquote_free(l),
        _ => true,
    }
}

pub open spec fn all_unquote_free(l: Seq<SExpr>) -> bool
    decreases l, 1nat,
{
    if l.len() == 0 {
        true
    } else {
        unquote_free(l[0]) && all_unquote_free(l.skip(1))
    }
}

/// Expressions without binders, definitions, cubical forms or unquoted
/// parts of quasiquote templates.
pub open spec fn compilable(e: SExpr) -> bool
    decreases e, 0nat,
{
    match e {
        SExpr::List(l) => if l.len() > 0 && l[0] == SExpr::Symbol("quote"@) {
            true
        } else if l.len() > 0 && l[0] == SExpr::Symbol("quasiquote"@) {
            all_unquote_free(l)
        } else if l.len() > 0 && l[0] is Symbol && tree_only(l[0]->Symbol_0) {
            false
        } else {
            all_compilable(l)
        },
        _ => true,
    }
}

pub open spec fn all_compilable(l: Seq<SExpr>) -> bool
    decreases l, 1nat,
{
    if l.len() == 0 {
        true
    } else {
        compilable(l[0]) && all_compilable(l.skip(1))
    }
}

proof fn lemma_all_unquote_free(l: Seq<SExpr>)
    ensures
        all_unquote_free(l) ==> forall|i: int| 0 <= i < l.len() ==> #[trigger] unquote_free(l[i]),
        (forall|i: int| 0 <= i < l.len() ==> #[trigger] unquote_free(l[i])) ==> all_unquote_free(l),
    decreases l.len(),
{
    if l.len() > 0 {
        let t = l.skip(1);
        lemma_all_unquote_free(t);
        assert forall|i: int| 0 <= i < t.len() implies #[trigger] t[i] == l[i + 1] by {}
        if all_unquote_free(l) {
            assert forall|i: int| 0 <= i < l.len() implies #[trigger] unquote_free(l[i]) by {
                if i > 0 {
                    assert(t[i - 1] == l[i]);
                }
            }
        }
        if forall|i: int| 0 <= i < l.len() ==> #[trigger] unquote_free(l[i]) {
            assert forall|i: int| 0 <= i < t.len() implies #[trigger] unquote_free(t[i]) by {
                assert(unquote_free(l[i + 1]));
            }
            assert(unquote_free(l[0]));
        }
    }
}

proof fn lemma_all_compilable(l: Seq<SExpr>)
    ensures
        all_compilable(l) ==> forall|i: int| 0 <= i < l.len() ==> #[trigger] compilable(l[i]),
        (forall|i: int| 0 <= i < l.len() ==> #[trigger] compilable(l[i])) ==> all_compilable(l),
    decreases l.len(),
{
    if l.len() > 0 {
        let t = l.skip(1);
        lemma_all_compilable(t);
        assert forall|i: int| 0 <= i < t.len() implies #[trigger] t[i] == l[i + 1] by {}
        if all_compilable(l) {
            assert forall|i: int| 0 <= i < l.len() implies #[trigger] compilable(l[i]) by {
                if i > 0 {
                    assert(t[i - 1] == l[i]);
                }
            }
        }
        if forall|i: int| 0 <= i < l.len() ==> #[trigger] compilable(l[i]) {
            assert forall|i: int| 0 <= i < t.len() implies #[trigger] compilable(t[i]) by {
                assert(compilable(l[i + 1]));
            }
            assert(compilable(l[0]));
        }
    }
}

/// `l` is non-empty and headed by the symbol `k`.
fn headed_by(l: &Vec<Expr>, k: &str) -> (r: bool)
    ensures r == (exprs_view(l@).len() > 0 && exprs_view(l@)[0] == SExpr::Symbol(k@)),
{
    proof { lemma_exprs_view(l@); }
    if l.len() == 0 {
        return false;
    }
    match &l[0] {
        Expr::Symbol(s) => str_eq(s.as_str(), k),
        _ => false,
    }
}

/// Whether `e` has no list headed by `unquote` or `unquote-splicing`.
fn is_unquote_free(e: &Expr) -> (r: bool)
    ensures r == unquote_free(e@),
    decreases e,
{
    match e {
        Expr::List(l) => {
            proof { lemma_exprs_view(l@); }
            let ghost lv = exprs_view(l@);
            if headed_by(l, "unquote") || headed_by(l, "unquote-splicing") {
                return false;
            }
            let mut i: usize = 0;
            while i < l.len()
                invariant
                    i <= l@.len(),
                    *e == Expr::List(*l),
                    lv == exprs_view(l@),
                    lv.len() == l@.len(),
                    forall|j: int| 0 <= j < l@.len() ==> lv[j] == crate::expr::expr_view(#[trigger] l@[j]),
                    forall|j: int| 0 <= j < i ==> #[trigger] unquote_free(lv[j]),
                decreases l@.len() - i,
            {
                proof {
                    assert(decreases_to!(*l => l@));
                    assert(decreases_to!(l@ => l@[i as int]));
                    assert(decreases_to!(*e => (*e)->List_0));
                    lemma_item_smaller(*e, *l, i as int);
                }
                if !is_unquote_free(&l[i]) {
                    proof { lemma_all_unquote_free(lv); }
                    return false;
                }
                i = i + 1;
            }
            proof { lemma_all_unquote_free(lv); }
            true
        },
        _ => true,
    }
}

/// Whether the compiled path can take `e`: it has no binders, definitions,
/// cubical forms, or unquoted parts in quasiquote templates.
pub fn is_compilable(e: &Expr) -> (r: bool)
    ensures r == compilable(e@),
    decreases e,
{
    match e {
        Expr::List(l) => {
            proof { lemma_exprs_view(l@); }
            let ghost lv = exprs_view(l@);
            if headed_by(l, "quote") {
                return true;
            }
            if headed_by(l, "quasiquote") {
                assert(compilable(e@) == all_unquote_free(lv));
                proof { lemma_all_unquote_free(lv); }
                let mut i: usize = 0;
                while i < l.len()
                    invariant
                        compilable(e@) == all_unquote_free(lv),
                        i <= l@.len(),
                        lv == exprs_view(l@),
                        lv.len() == l@.len(),
                        forall|j: int| 0 <= j < l@.len() ==> lv[j] == crate::expr::expr_view(#[trigger] l@[j]),
                        forall|j: int| 0 <= j < i ==> #[trigger] unquote_free(lv[j]),
                    decreases l@.len() - i,
                {
                    if !is_unquote_free(&l[i]) {
                        proof { lemma_all_unquote_free(lv); }
                        return false;
                    }
                    i = i + 1;
                }
                proof { lemma_all_unquote_free(lv); }
                return true;
            }
            let special = l.len() > 0 && match &l[0] {
                Expr::Symbol(op) => {
                    let o = op.as_str();
                    str_eq(o, "let") || str_eq(o, "letrec") || str_eq(o, "define") || str_eq(o, "lambda")
                        || str_eq(o, "defmacro") || str_eq(o, "funext") || str_eq(o, "path")
                        || str_eq(o, "papply") || str_eq(o, "pi") || str_eq(o, "piapply")
                        || str_eq(o, "sigma") || str_eq(o, "sigmacod") || str_eq(o, "glue-type")
                        || str_eq(o, "glue") || str_eq(o, "unglue") || str_eq(o, "unquote")
                        || str_eq(o, "unquote-splicing") || str_eq(o, "__Path__") || str_eq(o, "__Glue__")
                },
                _ => false,
            };
            if special {
                return false;
            }
            assert(compilable(e@) == all_compilable(lv));
            proof { lemma_all_compilable(lv); }
            let mut i: usize = 0;
            while i < l.len()
                invariant
                    compilable(e@) == all_compilable(lv),
                    i <= l@.len(),
                    *e == Expr::List(*l),
                    lv == exprs_view(l@),
                    lv.len() == l@.len(),
                    forall|j: int| 0 <= j < l@.len() ==> lv[j] == crate::expr::expr_view(#[trigger] l@[j]),
                    forall|j: int| 0 <= j < i ==> #[trigger] compilable(lv[j]),
                decreases l@.len() - i,
            {
                proof {
                    assert(decreases_to!(*l => l@));
                    assert(decreases_to!(l@ => l@[i as int]));
                    assert(decreases_to!(*e => (*e)->List_0));
                    lemma_item_smaller(*e, *l, i as int);
                }
                if !is_compilable(&l[i]) {
                    proof { lemma_all_compilable(lv); }
                    return false;
                }
                i = i + 1;
            }
            proof { lemma_all_compilable(lv); }
            true
        },
        _ => true,
    }
}

} // verus!

verus! {

/// Special forms that the code generator leaves to the tree-walking
/// evaluator, besides `quasiquote`, `unquote`, `define`, `lambda` and
/// `defmacro`.
pub open spec fn tree_form(op: Seq<char>) -> bool {
    ||| op == "let"@
    ||| op == "letrec"@
    ||| op == "funext"@
    ||| op == "path"@
    ||| op == "papply"@
    ||| op == "pi"@
    ||| op == "piapply"@
    ||| op == "sigmacod"@
    ||| op == "sigma"@
    ||| op == "glue-type"@
    ||| op == "glue"@
    ||| op == "unglue"@
    ||| op == "__Path__"@
    ||| op == "__Glue__"@
}

/// Code that evaluates `e` with nesting bound `fuel` in the empty lexical
/// environment and pushes its value; `None` when `e` holds a form that the
/// generator leaves to the tree-walking evaluator.
pub open spec fn gen(e: SExpr, fuel: nat) -> Option<Seq<InstrV>>
    decreases e, 0nat,
{
    if fuel == 0 {
        Some(seq![InstrV::Fail("evaluation too deep"@)])
    } else {
        match e {
            SExpr::Symbol(s) => if is_sentinel(s) {
                Some(seq![InstrV::Const(e)])
            } else {
                Some(seq![InstrV::Global(s)])
            },
            SExpr::Index(i) => Some(seq![InstrV::Fail(crate::semantics::index_error(i))]),
            SExpr::List(l) => gen_list((fuel - 1) as nat, l),
            _ => Some(seq![InstrV::Const(e)]),
        }
    }
}

/// Code for the list form `l`, following the dispatch of the evaluator.
pub open spec fn gen_list(fuel: nat, l: Seq<SExpr>) -> Option<Seq<InstrV>>
    decreases l, 2nat,
{
    if fuel == 0 {
        Some(seq![InstrV::Fail("evaluation too deep"@)])
    } else if l.len() == 0 {
        Some(seq![InstrV::Const(nil())])
    } else {
        let f = (fuel - 1) as nat;
        match l[0] {
            SExpr::Symbol(op) => if op == "quote"@ {
                if l.len() >= 2 { Some(seq![InstrV::Const(l[1])]) } else { Some(seq![InstrV::Fail("quote: expected an argument"@)]) }
            } else if op == "quasiquote"@ || op == "unquote"@ {
                None
            } else if op == "if"@ {
                if l.len() < 3 { Some(seq![InstrV::Fail("if: expected (if cond then [else])"@)]) } else { gen_if(f, l) }
            } else if op == "define"@ || op == "lambda"@ || op == "defmacro"@ {
                None
            } else if op == "begin"@ {
                gen_seq(f, l.skip(1))
            } else if tree_form(op) {
                None
            } else {
                match gen_app(f, l) {
                    Some(a) => Some(seq![InstrV::MacroCall(op, l, f, a.len())] + a),
                    None => None,
                }
            },
            _ => gen_app(f, l),
        }
    }
}

/// `(if c t e)`: the condition, a conditional jump over the `then` branch
/// and the jump after it, the `then` branch, a jump over the `else` branch,
/// and the `else` branch (the empty list when there is none).  A `then`
/// branch too long for a jump distance is left to the tree-walking
/// evaluator.
pub open spec fn gen_if(f: nat, l: Seq<SExpr>) -> Option<Seq<InstrV>>
    decreases l, 1nat,
{
    if l.len() < 3 {
        None
    } else {
        let els = if l.len() > 3 { gen(l[3], f) } else { Some(seq![InstrV::Const(nil())]) };
        match (gen(l[1], f), gen(l[2], f), els) {
            (Some(c), Some(t), Some(e)) => if t.len() < usize::MAX {
                Some(c + seq![InstrV::JumpIfFalse(t.len() + 1)] + t + seq![InstrV::Jump(e.len())] + e)
            } else {
                None
            },
            _ => None,
        }
    }
}

/// `(begin e...)`.
pub open spec fn gen_seq(fuel: nat, es: Seq<SExpr>) -> Option<Seq<InstrV>>
    decreases es, 1nat,
{
    if es.len() == 0 {
        Some(seq![InstrV::Const(nil())])
    } else if fuel == 0 {
        Some(seq![InstrV::Fail("evaluation too deep"@)])
    } else {
        gen_body((fuel - 1) as nat, es)
    }
}

/// The expressions of a body in turn, each value but the last dropped.
pub open spec fn gen_body(f: nat, es: Seq<SExpr>) -> Option<Seq<InstrV>>
    decreases es, 0nat,
{
    if es.len() == 0 {
        Some(Seq::empty())
    } else if es.len() == 1 {
        gen(es[0], f)
    } else {
        match (gen(es[0], f), gen_body(f, es.skip(1))) {
            (Some(a), Some(b)) => Some(a + seq![InstrV::Pop] + b),
            _ => None,
        }
    }
}

/// An application: operator, operands, call.
pub open spec fn gen_app(fuel: nat, l: Seq<SExpr>) -> Option<Seq<InstrV>>
    decreases l, 1nat,
{
    if l.len() == 0 {
        None
    } else if fuel == 0 {
        Some(seq![InstrV::Fail("evaluation too deep"@)])
    } else {
        let f = (fuel - 1) as nat;
        match (gen(l[0], f), gen_args(f, l.skip(1))) {
            (Some(a), Some(b)) => Some(a + b + seq![InstrV::Call((l.len() - 1) as nat, f)]),
            _ => None,
        }
    }
}

/// Operands, left to right.
pub open spec fn gen_args(fuel: nat, es: Seq<SExpr>) -> Option<Seq<InstrV>>
    decreases es, 0nat,
{
    if es.len() == 0 {
        Some(Seq::empty())
    } else if fuel == 0 {
        Some(seq![InstrV::Fail("evaluation too deep"@)])
    } else {
        match (gen(es[0], (fuel - 1) as nat), gen_args(fuel, es.skip(1))) {
            (Some(a), Some(b)) => Some(a + b),
            _ => None,
        }
    }
}

/// `c` stands in `code` from position `start`.
pub open spec fn seg(code: Seq<InstrV>, start: nat, c: Seq<InstrV>) -> bool {
    start + c.len() <= code.len() && code.subrange(start as int, (start + c.len()) as int) == c
}

/// Going on from `pc` after an evaluation: its value pushed, or its error.
pub open spec fn cont(r: (Outcome, HeapV), code: Seq<InstrV>, pc: nat, st: Seq<SExpr>, g: nat, o: Answers) -> (crate::vm::bytecode::VmOut, HeapV) {
    match r.0 {
        Outcome::Value(v) => run(code, pc, st.push(v), g, r.1, o),
        Outcome::Error(m) => (crate::vm::bytecode::VmOut::Error(m), r.1),
    }
}

/// Going on from `pc` after evaluating operands: their values pushed in
/// order, or the error.
pub open spec fn cont_outs(r: (Outs, HeapV), code: Seq<InstrV>, pc: nat, st: Seq<SExpr>, g: nat, o: Answers) -> (crate::vm::bytecode::VmOut, HeapV) {
    match r.0 {
        Outs::Values(vs) => run(code, pc, st + vs, g, r.1, o),
        Outs::Error(m) => (crate::vm::bytecode::VmOut::Error(m), r.1),
    }
}

/// The `if` case of the evaluator.
pub open spec fn if_form(f: nat, l: Seq<SExpr>, g: nat, h: HeapV, o: Answers) -> (Outcome, HeapV) {
    let (c, h1) = eval_spec(f, l[1], g, Seq::empty(), h, o);
    match c {
        Outcome::Value(cv) => if crate::expr::truthy(cv) {
            eval_spec(f, l[2], g, Seq::empty(), h1, o)
        } else if l.len() > 3 {
            eval_spec(f, l[3], g, Seq::empty(), h1, o)
        } else {
            (Outcome::Value(nil()), h1)
        },
        other => (other, h1),
    }
}

proof fn lemma_seg(code: Seq<InstrV>, start: nat, a: Seq<InstrV>, b: Seq<InstrV>)
    requires seg(code, start, a + b),
    ensures seg(code, start, a), seg(code, start + a.len(), b),
{
    let w = code.subrange(start as int, (start + (a + b).len()) as int);
    assert(code.subrange(start as int, (start + a.len()) as int) =~= w.subrange(0, a.len() as int));
    assert(w.subrange(0, a.len() as int) =~= a);
    assert(code.subrange((start + a.len()) as int, (start + a.len() + b.len()) as int) =~= w.subrange(a.len() as int, (a + b).len() as int));
    assert(w.subrange(a.len() as int, (a + b).len() as int) =~= b);
}

proof fn lemma_seg_at(code: Seq<InstrV>, start: nat, c: Seq<InstrV>, i: int)
    requires seg(code, start, c), 0 <= i < c.len(),
    ensures code[start + i] == c[i],
{
    assert(code.subrange(start as int, (start + c.len()) as int)[i] == code[start + i]);
}

proof fn lemma_args_len(fuel: nat, es: Seq<SExpr>, g: nat, h: HeapV, o: Answers)
    ensures args_spec(fuel, es, g, Seq::empty(), h, o).0 matches Outs::Values(vs) ==> vs.len() == es.len(),
    decreases es.len(),
{
    if es.len() > 0 && fuel > 0 {
        let (r, h1) = eval_spec((fuel - 1) as nat, es[0], g, Seq::empty(), h, o);
        lemma_args_len(fuel, es.skip(1), g, h1, o);
    }
}

/// Running the code for `e` pushes what evaluating `e` gives.
pub proof fn lemma_gen(e: SExpr, fuel: nat, code: Seq<InstrV>, start: nat, st: Seq<SExpr>, g: nat, h: HeapV, o: Answers)
    requires gen(e, fuel) is Some, seg(code, start, gen(e, fuel)->0),
    ensures
        run(code, start, st, g, h, o)
            == cont(eval_spec(fuel, e, g, Seq::empty(), h, o), code, start + gen(e, fuel)->0.len(), st, g, o),
    decreases e, 0nat,
{
    let c = gen(e, fuel)->0;
    if fuel == 0 {
        lemma_seg_at(code, start, c, 0);
    } else {
        match e {
            SExpr::List(l) => {
                lemma_gen_list((fuel - 1) as nat, l, code, start, st, g, h, o);
            },
            _ => {
                lemma_seg_at(code, start, c, 0);
            },
        }
    }
}

proof fn lemma_gen_list(fuel: nat, l: Seq<SExpr>, code: Seq<InstrV>, start: nat, st: Seq<SExpr>, g: nat, h: HeapV, o: Answers)
    requires gen_list(fuel, l) is Some, seg(code, start, gen_list(fuel, l)->0),
    ensures
        run(code, start, st, g, h, o)
            == cont(list_spec(fuel, l, g, Seq::empty(), h, o), code, start + gen_list(fuel, l)->0.len(), st, g, o),
    decreases l, 2nat,
{
    let c = gen_list(fuel, l)->0;
    if fuel == 0 || l.len() == 0 {
        lemma_seg_at(code, start, c, 0);
    } else {
        let f = (fuel - 1) as nat;
        match l[0] {
            SExpr::Symbol(op) => {
                if op == "quote"@ {
                    lemma_seg_at(code, start, c, 0);
                } else if op == "quasiquote"@ || op == "unquote"@ {
                } else if op == "if"@ {
                    if l.len() < 3 {
                        lemma_seg_at(code, start, c, 0);
                    } else {
                        lemma_gen_if(f, l, code, start, st, g, h, o);
                        assert(list_spec(fuel, l, g, Seq::empty(), h, o) == if_form(f, l, g, h, o));
                    }
                } else if op == "define"@ || op == "lambda"@ || op == "defmacro"@ {
                } else if op == "begin"@ {
                    lemma_gen_seq(f, l.skip(1), code, start, st, g, h, o);
                } else if tree_form(op) {
                } else {
                    let a = gen_app(f, l)->0;
                    let m = seq![InstrV::MacroCall(op, l, f, a.len())];
                    assert(c == m + a);
                    lemma_seg(code, start, m, a);
                    lemma_seg_at(code, start, m, 0);
                    lemma_gen_app(f, l, code, start + 1, st, g, h, o);
                }
            },
            _ => {
                lemma_gen_app(f, l, code, start, st, g, h, o);
            },
        }
    }
}

#[verifier::rlimit(40)]
proof fn lemma_gen_if(f: nat, l: Seq<SExpr>, code: Seq<InstrV>, start: nat, st: Seq<SExpr>, g: nat, h: HeapV, o: Answers)
    requires l.len() >= 3, gen_if(f, l) is Some, seg(code, start, gen_if(f, l)->0),
    ensures
        run(code, start, st, g, h, o) == cont(if_form(f, l, g, h, o), code, start + gen_if(f, l)->0.len(), st, g, o),
    decreases l, 1nat,
{
    let cc = gen(l[1], f)->0;
    let t = gen(l[2], f)->0;
    let els = if l.len() > 3 { gen(l[3], f)->0 } else { seq![InstrV::Const(nil())] };
    let jf = seq![InstrV::JumpIfFalse(t.len() + 1)];
    let jp = seq![InstrV::Jump(els.len())];
    let c = gen_if(f, l)->0;
    assert(c == cc + jf + t + jp + els);
    lemma_seg(code, start, cc + jf + t + jp, els);
    lemma_seg(code, start, cc + jf + t, jp);
    lemma_seg(code, start, cc + jf, t);
    lemma_seg(code, start, cc, jf);
    let p1 = start + cc.len();
    let p2 = p1 + 1;
    let p3 = p2 + t.len();
    let p4 = p3 + 1;
    let end = p4 + els.len();
    assert(end == start + c.len());
    assert(end <= code.len());
    lemma_seg_at(code, p1, jf, 0);
    lemma_seg_at(code, p3, jp, 0);
    assert(code[p1 as int] == InstrV::JumpIfFalse(t.len() + 1));
    assert(code[p3 as int] == InstrV::Jump(els.len()));
    lemma_gen(l[1], f, code, start, st, g, h, o);
    let (cr, h1) = eval_spec(f, l[1], g, Seq::empty(), h, o);
    assert(run(code, start, st, g, h, o) == cont((cr, h1), code, p1, st, g, o));
    if let Outcome::Value(cv) = cr {
        assert(st.push(cv).drop_last() =~= st);
        assert(st.push(cv).last() == cv);
        if crate::expr::truthy(cv) {
            assert(run(code, p1, st.push(cv), g, h1, o) == run(code, p2, st, g, h1, o));
            lemma_then(f, l, code, p2, p3, end, st, g, h1, o);
        } else {
            assert(p1 + 1 + (t.len() + 1) == p4);
            assert(p4 < code.len() || p4 == code.len());
            lemma_else(f, l, els, code, p4, st, g, h1, o);
            assert(run(code, p1, st.push(cv), g, h1, o) == run(code, p4, st, g, h1, o));
        }
    }
}

proof fn lemma_then(f: nat, l: Seq<SExpr>, code: Seq<InstrV>, p2: nat, p3: nat, end: nat, st: Seq<SExpr>, g: nat, h1: HeapV, o: Answers)
    requires
        l.len() >= 3,
        gen(l[2], f) is Some,
        seg(code, p2, gen(l[2], f)->0),
        p3 == p2 + gen(l[2], f)->0.len(),
        p3 < end <= code.len(),
        code[p3 as int] == InstrV::Jump((end - p3 - 1) as nat),
    ensures
        run(code, p2, st, g, h1, o) == cont(eval_spec(f, l[2], g, Seq::empty(), h1, o), code, end, st, g, o),
    decreases l, 0nat,
{
    lemma_gen(l[2], f, code, p2, st, g, h1, o);
    let (tr, h2) = eval_spec(f, l[2], g, Seq::empty(), h1, o);
    if let Outcome::Value(tv) = tr {
        assert(run(code, p3, st.push(tv), g, h2, o) == run(code, end, st.push(tv), g, h2, o));
    }
}

proof fn lemma_else(f: nat, l: Seq<SExpr>, els: Seq<InstrV>, code: Seq<InstrV>, p4: nat, st: Seq<SExpr>, g: nat, h1: HeapV, o: Answers)
    requires
        l.len() >= 3,
        els == if l.len() > 3 { gen(l[3], f)->0 } else { seq![InstrV::Const(nil())] },
        l.len() > 3 ==> gen(l[3], f) is Some,
        seg(code, p4, els),
    ensures
        run(code, p4, st, g, h1, o) == cont(
            if l.len() > 3 { eval_spec(f, l[3], g, Seq::empty(), h1, o) } else { (Outcome::Value(nil()), h1) },
            code, p4 + els.len(), st, g, o),
    decreases l, 0nat,
{
    if l.len() > 3 {
        lemma_gen(l[3], f, code, p4, st, g, h1, o);
    } else {
        lemma_seg_at(code, p4, els, 0);
    }
}

proof fn lemma_gen_seq(fuel: nat, es: Seq<SExpr>, code: Seq<InstrV>, start: nat, st: Seq<SExpr>, g: nat, h: HeapV, o: Answers)
    requires gen_seq(fuel, es) is Some, seg(code, start, gen_seq(fuel, es)->0),
    ensures
        run(code, start, st, g, h, o)
            == cont(seq_spec(fuel, es, g, Seq::empty(), h, nil(), o), code, start + gen_seq(fuel, es)->0.len(), st, g, o),
    decreases es, 1nat,
{
    let c = gen_seq(fuel, es)->0;
    if es.len() == 0 || fuel == 0 {
        lemma_seg_at(code, start, c, 0);
    } else {
        lemma_gen_body((fuel - 1) as nat, es, code, start, st, g, h, nil(), o);
    }
}

proof fn lemma_gen_body(f: nat, es: Seq<SExpr>, code: Seq<InstrV>, start: nat, st: Seq<SExpr>, g: nat, h: HeapV, last: SExpr, o: Answers)
    requires es.len() >= 1, gen_body(f, es) is Some, seg(code, start, gen_body(f, es)->0),
    ensures
        run(code, start, st, g, h, o)
            == cont(seq_spec(f + 1, es, g, Seq::empty(), h, last, o), code, start + gen_body(f, es)->0.len(), st, g, o),
    decreases es, 0nat,
{
    let c = gen_body(f, es)->0;
    let end = start + c.len();
    let (r, h1) = eval_spec(f, es[0], g, Seq::empty(), h, o);
    if es.len() == 1 {
        lemma_gen(es[0], f, code, start, st, g, h, o);
        assert(es.skip(1).len() == 0);
        if let Outcome::Value(v) = r {
            assert(seq_spec(f + 1, es.skip(1), g, Seq::empty(), h1, v, o) == (Outcome::Value(v), h1));
            assert(seq_spec(f + 1, es, g, Seq::empty(), h, last, o) == (Outcome::Value(v), h1));
        } else {
            assert(seq_spec(f + 1, es, g, Seq::empty(), h, last, o) == (r, h1));
        }
    } else {
        let a = gen(es[0], f)->0;
        let b = gen_body(f, es.skip(1))->0;
        let pp = seq![InstrV::Pop];
        assert(c == a + pp + b);
        lemma_seg(code, start, a + pp, b);
        lemma_seg(code, start, a, pp);
        let p1 = start + a.len();
        lemma_seg_at(code, p1, pp, 0);
        assert(code[p1 as int] == InstrV::Pop);
        lemma_gen(es[0], f, code, start, st, g, h, o);
        if let Outcome::Value(v) = r {
            assert(st.push(v).drop_last() =~= st);
            assert(run(code, p1, st.push(v), g, h1, o) == run(code, p1 + 1, st, g, h1, o));
            lemma_gen_body(f, es.skip(1), code, p1 + 1, st, g, h1, v, o);
            assert(seq_spec(f + 1, es, g, Seq::empty(), h, last, o) == seq_spec(f + 1, es.skip(1), g, Seq::empty(), h1, v, o));
        } else {
            assert(seq_spec(f + 1, es, g, Seq::empty(), h, last, o) == (r, h1));
        }
    }
}

proof fn lemma_gen_app(fuel: nat, l: Seq<SExpr>, code: Seq<InstrV>, start: nat, st: Seq<SExpr>, g: nat, h: HeapV, o: Answers)
    requires gen_app(fuel, l) is Some, seg(code, start, gen_app(fuel, l)->0),
    ensures
        run(code, start, st, g, h, o)
            == cont(app_spec(fuel, l, g, Seq::empty(), h, o), code, start + gen_app(fuel, l)->0.len(), st, g, o),
    decreases l, 1nat,
{
    let c = gen_app(fuel, l)->0;
    if fuel == 0 {
        lemma_seg_at(code, start, c, 0);
    } else {
        let f = (fuel - 1) as nat;
        let a = gen(l[0], f)->0;
        let b = gen_args(f, l.skip(1))->0;
        let n = (l.len() - 1) as nat;
        let call = seq![InstrV::Call(n, f)];
        assert(c == a + b + call);
        lemma_seg(code, start, a + b, call);
        lemma_seg(code, start, a, b);
        let p1 = start + a.len();
        let p2 = p1 + b.len();
        lemma_seg_at(code, p2, call, 0);
        lemma_gen(l[0], f, code, start, st, g, h, o);
        let (fr, h1) = eval_spec(f, l[0], g, Seq::empty(), h, o);
        if let Outcome::Value(fv) = fr {
            lemma_gen_args(f, l.skip(1), code, p1, st.push(fv), g, h1, o);
            lemma_args_len(f, l.skip(1), g, h1, o);
            let (ar, h2) = args_spec(f, l.skip(1), g, Seq::empty(), h1, o);
            if let Outs::Values(vs) = ar {
                let stk = st.push(fv) + vs;
                assert(vs.len() == n);
                let k = stk.len() - n;
                assert(k == st.len() + 1);
                assert(stk[k - 1] == fv);
                assert(stk.subrange(k, stk.len() as int) =~= vs);
                assert(stk.take(k - 1) =~= st);
            }
        }
    }
}

proof fn lemma_gen_args(fuel: nat, es: Seq<SExpr>, code: Seq<InstrV>, start: nat, st: Seq<SExpr>, g: nat, h: HeapV, o: Answers)
    requires gen_args(fuel, es) is Some, seg(code, start, gen_args(fuel, es)->0),
    ensures
        run(code, start, st, g, h, o)
            == cont_outs(args_spec(fuel, es, g, Seq::empty(), h, o), code, start + gen_args(fuel, es)->0.len(), st, g, o),
    decreases es, 0nat,
{
    let c = gen_args(fuel, es)->0;
    if es.len() == 0 {
        assert(st + Seq::<SExpr>::empty() =~= st);
    } else if fuel == 0 {
        lemma_seg_at(code, start, c, 0);
    } else {
        let a = gen(es[0], (fuel - 1) as nat)->0;
        let b = gen_args(fuel, es.skip(1))->0;
        assert(c == a + b);
        lemma_seg(code, start, a, b);
        lemma_gen(es[0], (fuel - 1) as nat, code, start, st, g, h, o);
        let (r, h1) = eval_spec((fuel - 1) as nat, es[0], g, Seq::empty(), h, o);
        if let Outcome::Value(v) = r {
            lemma_gen_args(fuel, es.skip(1), code, start + a.len(), st.push(v), g, h1, o);
            let (rs, h2) = args_spec(fuel, es.skip(1), g, Seq::empty(), h1, o);
            if let Outs::Values(vs) = rs {
                assert(st.push(v) + vs =~= st + (seq![v] + vs));
            }
        }
    }
}

} // verus!

verus! {

/// `pre` in front of the code `r`, if there is code.
pub open spec fn prepend_code(pre: Seq<InstrV>, r: Option<Seq<InstrV>>) -> Option<Seq<InstrV>> {
    match r {
        Some(b) => Some(pre + b),
        None => None,
    }
}

proof fn lemma_code_view_add(a: Seq<Instr>, b: Seq<Instr>)
    ensures code_view(a + b) == code_view(a) + code_view(b),
{
    assert(code_view(a + b) =~= code_view(a) + code_view(b));
}

proof fn lemma_item_smaller(e: Expr, l: Vec<Expr>, i: int)
    requires e == Expr::List(l), 0 <= i < l@.len(),
    ensures decreases_to!(e => l@[i]),
{
    assert(decreases_to!(l => l@));
    assert(decreases_to!(l@ => l@[i]));
    assert(decreases_to!(e => e->List_0));
}

/// Appends `b` to `a`.
fn append_code(a: &mut Vec<Instr>, b: Vec<Instr>)
    ensures code_view(final(a)@) == code_view(old(a)@) + code_view(b@),
{
    let mut b = b;
    let ghost a0 = a@;
    let ghost b0 = b@;
    a.append(&mut b);
    proof { lemma_code_view_add(a0, b0); }
}

fn one(i: Instr) -> (r: Vec<Instr>)
    ensures code_view(r@) == seq![instr_view(i)],
{
    let v = vec![i];
    assert(code_view(v@) =~= seq![instr_view(v@[0])]);
    v
}

/// Generates the code for `e` with nesting bound `fuel`; `None` when `e`
/// holds a form left to the tree-walking evaluator.
pub fn gen_code(e: &Expr, fuel: u64) -> (r: Option<Vec<Instr>>)
    ensures
        match gen(e@, fuel as nat) {
            Some(c) => r is Some && code_view(r->0@) == c,
            None => r is None,
        },
    decreases e, 2nat,
{
    if fuel == 0 {
        return Some(one(Instr::Fail(owned("evaluation too deep"))));
    }
    match e {
        Expr::Symbol(s) => {
            if crate::expr::is_sentinel_symbol(s) {
                Some(one(Instr::Const(e.deep_clone())))
            } else {
                Some(one(Instr::Global(s.clone())))
            }
        },
        Expr::Index(i) => Some(one(Instr::Fail(crate::eval::index_message(*i)))),
        Expr::List(l) => gen_list_code(e, l, fuel - 1),
        _ => Some(one(Instr::Const(e.deep_clone()))),
    }
}

fn gen_list_code(e: &Expr, l: &Vec<Expr>, fuel: u64) -> (r: Option<Vec<Instr>>)
    requires *e == Expr::List(*l),
    ensures
        match gen_list(fuel as nat, exprs_view(l@)) {
            Some(c) => r is Some && code_view(r->0@) == c,
            None => r is None,
        },
    decreases e, 1nat,
{
    proof { lemma_exprs_view(l@); }
    let ghost lv = exprs_view(l@);
    if fuel == 0 {
        return Some(one(Instr::Fail(owned("evaluation too deep"))));
    }
    if l.len() == 0 {
        return Some(one(Instr::Const(crate::eval::nil_expr())));
    }
    let f = fuel - 1;
    match &l[0] {
        Expr::Symbol(op) => {
            let o = op.as_str();
            if str_eq(o, "quote") {
                if l.len() >= 2 {
                    Some(one(Instr::Const(l[1].deep_clone())))
                } else {
                    Some(one(Instr::Fail(owned("quote: expected an argument"))))
                }
            } else if str_eq(o, "quasiquote") || str_eq(o, "unquote") {
                None
            } else if str_eq(o, "if") {
                if l.len() < 3 {
                    Some(one(Instr::Fail(owned("if: expected (if cond then [else])"))))
                } else {
                    gen_if_code(e, l, f)
                }
            } else if str_eq(o, "define") || str_eq(o, "lambda") || str_eq(o, "defmacro") {
                None
            } else if str_eq(o, "begin") {
                gen_seq_code(e, l, f)
            } else if str_eq(o, "let") || str_eq(o, "letrec") || str_eq(o, "funext") || str_eq(o, "path")
                || str_eq(o, "papply") || str_eq(o, "pi") || str_eq(o, "piapply") || str_eq(o, "sigmacod")
                || str_eq(o, "sigma") || str_eq(o, "glue-type") || str_eq(o, "glue") || str_eq(o, "unglue")
                || str_eq(o, "__Path__") || str_eq(o, "__Glue__") {
                None
            } else {
                match gen_app_code(e, l, f) {
                    Some(a) => {
                        let mut code = one(Instr::MacroCall(op.clone(), crate::expr::clone_exprs(l.as_slice()), f, a.len()));
                        append_code(&mut code, a);
                        Some(code)
                    },
                    None => None,
                }
            }
        },
        _ => gen_app_code(e, l, f),
    }
}

fn gen_if_code(e: &Expr, l: &Vec<Expr>, f: u64) -> (r: Option<Vec<Instr>>)
    requires *e == Expr::List(*l), l@.len() >= 3,
    ensures
        match gen_if(f as nat, exprs_view(l@)) {
            Some(c) => r is Some && code_view(r->0@) == c,
            None => r is None,
        },
    decreases e, 0nat,
{
    proof {
        lemma_exprs_view(l@);
        lemma_item_smaller(*e, *l, 1);
        lemma_item_smaller(*e, *l, 2);
    }
    let c = match gen_code(&l[1], f) {
        Some(c) => c,
        None => { return None; },
    };
    let t = match gen_code(&l[2], f) {
        Some(t) => t,
        None => { return None; },
    };
    let els = if l.len() > 3 {
        proof { lemma_item_smaller(*e, *l, 3); }
        match gen_code(&l[3], f) {
            Some(x) => x,
            None => { return None; },
        }
    } else {
        one(Instr::Const(crate::eval::nil_expr()))
    };
    let tl = t.len();
    let el = els.len();
    if tl == usize::MAX {
        return None;
    }
    let mut code = c;
    append_code(&mut code, one(Instr::JumpIfFalse(tl + 1)));
    append_code(&mut code, t);
    append_code(&mut code, one(Instr::Jump(el)));
    append_code(&mut code, els);
    Some(code)
}

fn gen_seq_code(e: &Expr, l: &Vec<Expr>, fuel: u64) -> (r: Option<Vec<Instr>>)
    requires *e == Expr::List(*l), l@.len() >= 1,
    ensures
        match gen_seq(fuel as nat, exprs_view(l@).skip(1)) {
            Some(c) => r is Some && code_view(r->0@) == c,
            None => r is None,
        },
    decreases e, 0nat,
{
    proof { lemma_exprs_view(l@); }
    let ghost es = exprs_view(l@).skip(1);
    if l.len() == 1 {
        return Some(one(Instr::Const(crate::eval::nil_expr())));
    }
    if fuel == 0 {
        return Some(one(Instr::Fail(owned("evaluation too deep"))));
    }
    let f = fuel - 1;
    let ghost whole = gen_body(f as nat, es);
    let mut acc: Vec<Instr> = Vec::new();
    let mut i: usize = 1;
    assert(es.skip(0) =~= es);
    assert(Seq::<InstrV>::empty() + whole->0 =~= whole->0);
    while i < l.len()
        invariant
            *e == Expr::List(*l),
            1 <= i <= l@.len(),
            es == exprs_view(l@).skip(1),
            exprs_view(l@).len() == l@.len(),
            forall|j: int| 0 <= j < l@.len() ==> exprs_view(l@)[j] == crate::expr::expr_view(#[trigger] l@[j]),
            whole == gen_body(f as nat, es),
            gen_seq(fuel as nat, es) == whole,
            i < l@.len() ==> whole == prepend_code(code_view(acc@), gen_body(f as nat, es.skip(i - 1))),
            i == l@.len() ==> whole == Some(code_view(acc@)),
        decreases l@.len() - i,
    {
        proof {
            lemma_item_smaller(*e, *l, i as int);
            assert(es.skip(i - 1)[0] == exprs_view(l@)[i as int]);
            assert(es.skip(i - 1).skip(1) =~= es.skip(i as int));
        }
        let c = match gen_code(&l[i], f) {
            Some(c) => c,
            None => { return None; },
        };
        let ghost acc0 = code_view(acc@);
        let ghost cv = code_view(c@);
        append_code(&mut acc, c);
        if i + 1 < l.len() {
            append_code(&mut acc, one(Instr::Pop));
            proof {
                let rest = gen_body(f as nat, es.skip(i as int));
                if let Some(b) = rest {
                    assert(acc0 + (cv + seq![InstrV::Pop] + b) =~= code_view(acc@) + b);
                }
            }
        } else {
            proof { assert(es.skip(i - 1).len() == 1); }
        }
        i = i + 1;
    }
    Some(acc)
}

fn gen_app_code(e: &Expr, l: &Vec<Expr>, fuel: u64) -> (r: Option<Vec<Instr>>)
    requires *e == Expr::List(*l),
    ensures
        match gen_app(fuel as nat, exprs_view(l@)) {
            Some(c) => r is Some && code_view(r->0@) == c,
            None => r is None,
        },
    decreases e, 0nat,
{
    proof { lemma_exprs_view(l@); }
    let ghost lv = exprs_view(l@);
    if l.len() == 0 {
        return None;
    }
    if fuel == 0 {
        return Some(one(Instr::Fail(owned("evaluation too deep"))));
    }
    let f = fuel - 1;
    proof { lemma_item_smaller(*e, *l, 0); }
    let mut acc = match gen_code(&l[0], f) {
        Some(a) => a,
        None => { return None; },
    };
    let ghost a0 = code_view(acc@);
    let ghost args_whole = gen_args(f as nat, lv.skip(1));
    if f == 0 && l.len() > 1 {
        append_code(&mut acc, one(Instr::Fail(owned("evaluation too deep"))));
        append_code(&mut acc, one(Instr::Call(l.len() - 1, f)));
        return Some(acc);
    }
    let mut i: usize = 1;
    proof {
        assert(lv.skip(1) =~= lv.skip(1).skip(0));
        if let Some(b) = args_whole {
            assert(a0 + b =~= code_view(acc@) + b);
        }
    }
    while i < l.len()
        invariant
            *e == Expr::List(*l),
            1 <= i <= l@.len(),
            i < l@.len() ==> f > 0,
            fuel == f + 1,
            gen(lv[0], f as nat) == Some(a0),
            lv == exprs_view(l@),
            lv.len() == l@.len(),
            forall|j: int| 0 <= j < l@.len() ==> lv[j] == crate::expr::expr_view(#[trigger] l@[j]),
            args_whole == gen_args(f as nat, lv.skip(1)),
            prepend_code(a0, args_whole) == prepend_code(code_view(acc@), gen_args(f as nat, lv.skip(i as int))),
        decreases l@.len() - i,
    {
        proof {
            lemma_item_smaller(*e, *l, i as int);
            assert(lv.skip(i as int)[0] == lv[i as int]);
            assert(lv.skip(i as int).skip(1) =~= lv.skip(i + 1));
        }
        let c = match gen_code(&l[i], f - 1) {
            Some(c) => c,
            None => { return None; },
        };
        let ghost acc0 = code_view(acc@);
        let ghost cv = code_view(c@);
        append_code(&mut acc, c);
        proof {
            if let Some(b) = gen_args(f as nat, lv.skip(i + 1)) {
                assert(acc0 + (cv + b) =~= code_view(acc@) + b);
            }
        }
        i = i + 1;
    }
    proof {
        assert(lv.skip(i as int).len() == 0);
    }
    append_code(&mut acc, one(Instr::Call(l.len() - 1, f)));
    Some(acc)
}

} // verus!

verus! {

/// Running the code generated for `e` from an empty stack gives exactly what
/// the tree-walking evaluator gives for `e` in the empty lexical
/// environment: the same value, error or host dependence, and the same heap.
pub proof fn law_machine_agrees_with_tree(e: SExpr, fuel: nat, g: nat, h: HeapV, o: Answers)
    requires gen(e, fuel) is Some,
    ensures
        crate::vm::bytecode::vm_outcome(run(gen(e, fuel)->0, 0, Seq::empty(), g, h, o))
            == eval_spec(fuel, e, g, Seq::empty(), h, o),
{
    let c = gen(e, fuel)->0;
    assert(c.subrange(0, c.len() as int) =~= c);
    lemma_gen(e, fuel, c, 0, Seq::empty(), g, h, o);
    let (r, h1) = eval_spec(fuel, e, g, Seq::empty(), h, o);
    if let Outcome::Value(v) = r {
        assert(Seq::<SExpr>::empty().push(v) =~= seq![v]);
    }
}

} // verus!
