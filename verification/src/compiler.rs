//! Compilation of the surface syntax (named variables) into the core syntax,
//! where lexically bound variables are De Bruijn indices.

use vstd::prelude::*;
use crate::expr::{Expr, SExpr, exprs_view, strings_view, lemma_exprs_view, lemma_exprs_view_push, sym};
use crate::num;
use crate::reader::{params_of, params_checked};
use crate::text::{str_eq, owned};
use crate::builtins::Outcome;
use crate::gc::{Heap, HeapV};
use crate::host::{Host, Answers, consistent};
use crate::render::{fail_with, fail_message};

verus! {

/// Distance from the end of `names` to the last occurrence of `s`.
pub open spec fn rfind(names: Seq<Seq<char>>, s: Seq<char>) -> Option<nat>
    decreases names.len(),
{
    if names.len() == 0 {
        None
    } else if names.last() == s {
        Some(0)
    } else {
        match rfind(names.drop_last(), s) {
            Some(i) => Some(i + 1),
            None => None,
        }
    }
}

/// `Vec::truncate`.
pub open spec fn trunc(names: Seq<Seq<char>>, len: nat) -> Seq<Seq<char>> {
    if names.len() > len { names.take(len as int) } else { names }
}

pub open spec fn is_head(l: Seq<SExpr>, k: Seq<char>) -> bool {
    l.len() > 0 && l[0] == SExpr::Symbol(k)
}

/// The bound on quasiquote nesting.
pub open spec fn depth_limit() -> nat {
    u64::MAX as nat
}

/// Compiles `e` with `names` lexically bound (the last name is index 0).
/// Gives the result and the names as left afterwards: unchanged on success,
/// possibly with names of an unfinished binder on failure.
pub open spec fn compile_spec(e: SExpr, names: Seq<Seq<char>>) -> (Result<SExpr, CompileError>, Seq<Seq<char>>)
    decreases e, 1nat,
{
    match e {
        SExpr::Symbol(s) => match rfind(names, s) {
            Some(i) => (Ok(SExpr::Index(i)), names),
            None => (Ok(e), names),
        },
        SExpr::List(l) => if l.len() == 0 {
            (Ok(e), names)
        } else if is_head(l, "quote"@) {
            (Ok(e), names)
        } else if is_head(l, "quasiquote"@) {
            if l.len() < 2 {
                (Err(CompileError::Msg("quasiquote: expected an argument"@)), names)
            } else {
                let (r, n1) = compile_qq_spec(l[1], names, 1);
                match r {
                    Ok(c) => (Ok(SExpr::List(seq![SExpr::Symbol("quasiquote"@), c])), n1),
                    Err(m) => (Err(m), n1),
                }
            }
        } else if is_head(l, "lambda"@) {
            if l.len() < 3 {
                (Err(CompileError::Msg("lambda: expected (lambda (params...) body)"@)), names)
            } else {
                match params_of(l[1]) {
                    Err(v) => (Err(CompileError::Param(v)), names),
                    Ok(ps) => if ps.len() >= num::EXACT_LIMIT {
                        (Err(CompileError::Msg("lambda: too many parameters"@)), names)
                    } else {
                        let (rb, n2) = compile_spec(l[2], names + ps);
                        match rb {
                            Ok(b) => (
                                Ok(SExpr::List(seq![SExpr::Symbol("lambda"@), SExpr::Number(num::count_bits(ps.len() as u64)), b])),
                                trunc(n2, names.len()),
                            ),
                            Err(m) => (Err(m), n2),
                        }
                    },
                }
            }
        } else if is_head(l, "path"@) {
            if l.len() < 3 {
                (Err(CompileError::Msg("path: expected (path (i) body)"@)), names)
            } else {
                match params_of(l[1]) {
                    Ok(ps) => if ps.len() != 1 {
                        (Err(CompileError::Msg("path: expected exactly one interval variable"@)), names)
                    } else {
                        let (rb, n2) = compile_spec(l[2], names.push(ps[0]));
                        match rb {
                            Ok(b) => (
                                Ok(SExpr::List(seq![SExpr::Symbol("path"@), SExpr::Number(num::ONE_BITS), b])),
                                trunc(n2, names.len()),
                            ),
                            Err(m) => (Err(m), n2),
                        }
                    },
                    Err(v) => (Err(CompileError::Param(v)), names),
                }
            }
        } else if is_head(l, "pi"@) || is_head(l, "sigma"@) {
            if l.len() < 4 {
                (Err(CompileError::Msg(if is_head(l, "pi"@) { "pi: expected (pi (x) dom cod)"@ } else { "sigma: expected (sigma (x) dom cod)"@ })), names)
            } else {
                match params_of(l[1]) {
                    Ok(ps) => if ps.len() != 1 {
                        (Err(CompileError::Msg(if is_head(l, "pi"@) { "pi: expected exactly one bound variable"@ } else { "sigma: expected exactly one bound variable"@ })), names)
                    } else {
                        let (rd, n1) = compile_spec(l[2], names);
                        match rd {
                            Err(m) => (Err(m), n1),
                            Ok(d) => {
                                let (rc, n2) = compile_spec(l[3], n1.push(ps[0]));
                                match rc {
                                    Ok(c) => (Ok(SExpr::List(seq![l[0], d, c])), trunc(n2, n1.len())),
                                    Err(m) => (Err(m), n2),
                                }
                            },
                        }
                    },
                    Err(v) => (Err(CompileError::Param(v)), names),
                }
            }
        } else if is_head(l, "let"@) {
            let_result(l, names)
        } else if is_head(l, "letrec"@) {
            letrec_result(l, names)
        } else if is_head(l, "define"@) || is_head(l, "defmacro"@) {
            if l.len() < 2 {
                (Err(CompileError::Msg("define: expected a name"@)), names)
            } else {
                let (rs, n1) = compile_items_spec(l.skip(2), names);
                match rs {
                    Ok(rest) => (Ok(SExpr::List(seq![l[0], l[1]] + rest)), n1),
                    Err(m) => (Err(m), n1),
                }
            }
        } else if is_head(l, "funext"@) {
            if l.len() != 4 {
                (Err(CompileError::Msg("funext: expected (funext f g p)"@)), names)
            } else {
                let (rs, n1) = compile_items_spec(l.skip(1), names);
                match rs {
                    Ok(rest) => (Ok(SExpr::List(seq![SExpr::Symbol("funext"@)] + rest)), n1),
                    Err(m) => (Err(m), n1),
                }
            }
        } else {
            let (rs, n1) = compile_items_spec(l, names);
            match rs {
                Ok(items) => (Ok(SExpr::List(items)), n1),
                Err(m) => (Err(m), n1),
            }
        },
        _ => (Ok(e), names),
    }
}


/// The `let` case of [`compile_spec`].
pub open spec fn let_result(l: Seq<SExpr>, names: Seq<Seq<char>>) -> (Result<SExpr, CompileError>, Seq<Seq<char>>)
    decreases l, 0nat,
{
    if l.len() < 3 {
        (Err(CompileError::Msg("let: expected (let ((name expr)...) body...)"@)), names)
    } else {
        let (rb, n1) = if l[1] is List {
            compile_let_spec(l[1]->List_0, names)
        } else {
            (Ok(Seq::empty()), names)
        };
        match rb {
            Err(m) => (Err(m), n1),
            Ok(cbs) => {
                let (rbody, n2) = compile_items_spec(l.skip(2), n1);
                match rbody {
                    Ok(body) => (
                        Ok(SExpr::List(seq![SExpr::Symbol("let"@), SExpr::List(cbs)] + body)),
                        trunc(n2, names.len()),
                    ),
                    Err(m) => (Err(m), n2),
                }
            },
        }
    }
}

/// The `letrec` case of [`compile_spec`].
pub open spec fn letrec_result(l: Seq<SExpr>, names: Seq<Seq<char>>) -> (Result<SExpr, CompileError>, Seq<Seq<char>>)
    decreases l, 0nat,
{
    if l.len() < 3 {
        (Err(CompileError::Msg("letrec: expected (letrec ((name expr)...) body...)"@)), names)
    } else {
        let bs = if l[1] is List { l[1]->List_0 } else { Seq::<SExpr>::empty() };
        match letrec_names(bs) {
            Err(m) => (Err(m), names),
            Ok(ns) => {
                let (rb, n1) = if l[1] is List {
                    compile_letrec_spec(l[1]->List_0, names + ns)
                } else {
                    (Ok(Seq::empty()), names + ns)
                };
                match rb {
                    Err(m) => (Err(m), n1),
                    Ok(cbs) => {
                        let (rbody, n2) = compile_items_spec(l.skip(2), n1);
                        match rbody {
                            Ok(body) => (
                                Ok(SExpr::List(seq![SExpr::Symbol("letrec"@), SExpr::List(cbs)] + body)),
                                trunc(n2, names.len()),
                            ),
                            Err(m) => (Err(m), n2),
                        }
                    },
                }
            },
        }
    }
}

/// Compiles each element in turn.
pub open spec fn compile_items_spec(es: Seq<SExpr>, names: Seq<Seq<char>>) -> (Result<Seq<SExpr>, CompileError>, Seq<Seq<char>>)
    decreases es, 1nat,
{
    if es.len() == 0 {
        (Ok(Seq::empty()), names)
    } else {
        let (r, n1) = compile_spec(es[0], names);
        match r {
            Err(m) => (Err(m), n1),
            Ok(c) => {
                let (rs, n2) = compile_items_spec(es.skip(1), n1);
                match rs {
                    Ok(cs) => (Ok(seq![c] + cs), n2),
                    Err(m) => (Err(m), n2),
                }
            },
        }
    }
}

/// `let` bindings: each right-hand side sees the names bound before it.
pub open spec fn compile_let_spec(bs: Seq<SExpr>, names: Seq<Seq<char>>) -> (Result<Seq<SExpr>, CompileError>, Seq<Seq<char>>)
    decreases bs, 1nat,
{
    if bs.len() == 0 {
        (Ok(Seq::empty()), names)
    } else {
        match bs[0] {
            SExpr::List(pair) => if pair.len() != 2 {
                (Err(CompileError::Msg("let: each binding must be (name expr)"@)), names)
            } else {
                match pair[0] {
                    SExpr::Symbol(name) => {
                        let (r, n1) = compile_spec(pair[1], names);
                        match r {
                            Err(m) => (Err(m), n1),
                            Ok(v) => {
                                let (rs, n2) = compile_let_spec(bs.skip(1), n1.push(name));
                                match rs {
                                    Ok(cbs) => (Ok(seq![SExpr::List(seq![SExpr::Symbol(name), v])] + cbs), n2),
                                    Err(m) => (Err(m), n2),
                                }
                            },
                        }
                    },
                    _ => (Err(CompileError::Msg("let: binding name must be a symbol"@)), names),
                }
            },
            _ => (Err(CompileError::Msg("let: each binding must be a list (name expr)"@)), names),
        }
    }
}

/// The names a `letrec` binds; bindings that are not lists are skipped.
pub open spec fn letrec_names(bs: Seq<SExpr>) -> Result<Seq<Seq<char>>, CompileError>
    decreases bs.len(),
{
    if bs.len() == 0 {
        Ok(Seq::empty())
    } else {
        match bs[0] {
            SExpr::List(pair) => if pair.len() > 0 && pair[0] is Symbol {
                match letrec_names(bs.skip(1)) {
                    Ok(ns) => Ok(seq![pair[0]->Symbol_0] + ns),
                    Err(m) => Err(m),
                }
            } else {
                Err(CompileError::Msg("letrec: binding name must be a symbol"@))
            },
            _ => letrec_names(bs.skip(1)),
        }
    }
}

/// `letrec` right-hand sides, all compiled with every name bound.
pub open spec fn compile_letrec_spec(bs: Seq<SExpr>, names: Seq<Seq<char>>) -> (Result<Seq<SExpr>, CompileError>, Seq<Seq<char>>)
    decreases bs, 1nat,
{
    if bs.len() == 0 {
        (Ok(Seq::empty()), names)
    } else {
        match bs[0] {
            SExpr::List(pair) => if pair.len() > 0 && pair[0] is Symbol {
                if pair.len() < 2 {
                    (Err(CompileError::Msg("letrec: each binding must be (name expr)"@)), names)
                } else {
                    let (r, n1) = compile_spec(pair[1], names);
                    match r {
                        Err(m) => (Err(m), n1),
                        Ok(v) => {
                            let (rs, n2) = compile_letrec_spec(bs.skip(1), n1);
                            match rs {
                                Ok(cbs) => (Ok(seq![SExpr::List(seq![pair[0], v])] + cbs), n2),
                                Err(m) => (Err(m), n2),
                            }
                        },
                    }
                }
            } else {
                compile_letrec_spec(bs.skip(1), names)
            },
            _ => compile_letrec_spec(bs.skip(1), names),
        }
    }
}

/// Why compiling fails: a message, or an element of a parameter list that
/// is not a symbol (its message shows the element).
pub enum CompileError {
    Msg(Seq<char>),
    Param(SExpr),
}

/// Quasiquote templates: only the parts under `unquote` (at nesting depth
/// one) are compiled.
pub open spec fn compile_qq_spec(e: SExpr, names: Seq<Seq<char>>, depth: nat) -> (Result<SExpr, CompileError>, Seq<Seq<char>>)
    decreases e, 0nat,
{
    match e {
        SExpr::List(l) => if l.len() == 0 {
            (Ok(e), names)
        } else if is_head(l, "unquote"@) {
            if l.len() < 2 {
                (Err(CompileError::Msg("unquote: expected an argument"@)), names)
            } else if depth == 1 {
                let (r, n1) = compile_spec(l[1], names);
                match r {
                    Ok(c) => (Ok(SExpr::List(seq![SExpr::Symbol("unquote"@), c])), n1),
                    Err(m) => (Err(m), n1),
                }
            } else {
                let (r, n1) = compile_qq_spec(l[1], names, (depth - 1) as nat);
                match r {
                    Ok(c) => (Ok(SExpr::List(seq![SExpr::Symbol("unquote"@), c])), n1),
                    Err(m) => (Err(m), n1),
                }
            }
        } else if is_head(l, "quasiquote"@) {
            if l.len() < 2 || depth >= depth_limit() {
                (Err(CompileError::Msg("quasiquote: expected an argument"@)), names)
            } else {
                let (r, n1) = compile_qq_spec(l[1], names, depth + 1);
                match r {
                    Ok(c) => (Ok(SExpr::List(seq![SExpr::Symbol("quasiquote"@), c])), n1),
                    Err(m) => (Err(m), n1),
                }
            }
        } else {
            let (rs, n1) = compile_qq_items_spec(l, names, depth);
            match rs {
                Ok(items) => (Ok(SExpr::List(items)), n1),
                Err(m) => (Err(m), n1),
            }
        },
        _ => (Ok(e), names),
    }
}

pub open spec fn is_splice(e: SExpr) -> bool {
    e matches SExpr::List(inner) && inner.len() == 2 && inner[0] == SExpr::Symbol("unquote-splicing"@)
}

pub open spec fn compile_qq_items_spec(es: Seq<SExpr>, names: Seq<Seq<char>>, depth: nat) -> (Result<Seq<SExpr>, CompileError>, Seq<Seq<char>>)
    decreases es, 0nat,
{
    if es.len() == 0 {
        (Ok(Seq::empty()), names)
    } else {
        let (r, n1) = if is_splice(es[0]) && depth == 1 {
            let inner = es[0]->List_0;
            let (ri, ni) = compile_spec(inner[1], names);
            match ri {
                Ok(c) => (Ok(SExpr::List(seq![SExpr::Symbol("unquote-splicing"@), c])), ni),
                Err(m) => (Err(m), ni),
            }
        } else {
            compile_qq_spec(es[0], names, depth)
        };
        match r {
            Err(m) => (Err(m), n1),
            Ok(c) => {
                let (rs, n2) = compile_qq_items_spec(es.skip(1), n1, depth);
                match rs {
                    Ok(cs) => (Ok(seq![c] + cs), n2),
                    Err(m) => (Err(m), n2),
                }
            },
        }
    }
}

} // verus!

verus! {

/// The list starts with none of the heads tested before `let`.
pub open spec fn not_binder_head(l: Seq<SExpr>) -> bool {
    &&& !is_head(l, "quote"@)
    &&& !is_head(l, "quasiquote"@)
    &&& !is_head(l, "lambda"@)
    &&& !is_head(l, "path"@)
    &&& !is_head(l, "pi"@)
    &&& !is_head(l, "sigma"@)
}

/// `(prefix + r, n)` for a successful result `r`.
pub open spec fn prepend(pre: Seq<SExpr>, res: (Result<Seq<SExpr>, CompileError>, Seq<Seq<char>>)) -> (Result<Seq<SExpr>, CompileError>, Seq<Seq<char>>) {
    match res.0 {
        Ok(cs) => (Ok(pre + cs), res.1),
        Err(_) => res,
    }
}

pub proof fn lemma_prepend_empty(x: (Result<Seq<SExpr>, CompileError>, Seq<Seq<char>>))
    ensures prepend(Seq::empty(), x) == x,
{
    match x.0 {
        Ok(cs) => {
            assert(Seq::<SExpr>::empty() + cs =~= cs);
            assert(prepend(Seq::empty(), x) == (x.0, x.1));
        },
        Err(_) => {},
    }
}

/// Compiling restores the lexically bound names when it succeeds: binders
/// push their names while their scope is compiled and take them off after.
pub proof fn law_compile_restores_names(e: SExpr, names: Seq<Seq<char>>)
    ensures compile_spec(e, names).0 is Ok ==> compile_spec(e, names).1 == names,
    decreases e, 1nat,
{
    if let SExpr::List(l) = e {
        if l.len() == 0 || is_head(l, "quote"@) {
        } else if is_head(l, "quasiquote"@) {
            if l.len() >= 2 {
                lemma_qq_names(l[1], names, 1);
            }
        } else if is_head(l, "lambda"@) {
            if l.len() >= 3 {
                if let Ok(ps) = params_of(l[1]) {
                    law_compile_restores_names(l[2], names + ps);
                    assert((names + ps).take(names.len() as int) =~= names);
                }
            }
        } else if is_head(l, "path"@) {
            if l.len() >= 3 {
                if let Ok(ps) = params_of(l[1]) {
                    if ps.len() == 1 {
                        law_compile_restores_names(l[2], names.push(ps[0]));
                        assert(names.push(ps[0]).take(names.len() as int) =~= names);
                    }
                }
            }
        } else if is_head(l, "pi"@) || is_head(l, "sigma"@) {
            if l.len() >= 4 {
                if let Ok(ps) = params_of(l[1]) {
                    if ps.len() == 1 {
                        law_compile_restores_names(l[2], names);
                        let n1 = compile_spec(l[2], names).1;
                        law_compile_restores_names(l[3], n1.push(ps[0]));
                        assert(n1.push(ps[0]).take(n1.len() as int) =~= n1);
                    }
                }
            }
        } else if is_head(l, "let"@) {
            lemma_let_result_names(l, names);
        } else if is_head(l, "letrec"@) {
            lemma_letrec_result_names(l, names);
        } else if is_head(l, "define"@) || is_head(l, "defmacro"@) {
            if l.len() >= 2 {
                lemma_items_names(l.skip(2), names);
            }
        } else if is_head(l, "funext"@) {
            if l.len() == 4 {
                lemma_items_names(l.skip(1), names);
            }
        } else {
            lemma_items_names(l, names);
        }
    }
}

proof fn lemma_let_result_names(l: Seq<SExpr>, names: Seq<Seq<char>>)
    ensures let_result(l, names).0 is Ok ==> let_result(l, names).1 == names,
    decreases l, 0nat,
{
    if l.len() >= 3 {
        if l[1] is List {
            lemma_let_names(l[1]->List_0, names);
        }
        let (rb, n1) = if l[1] is List {
            compile_let_spec(l[1]->List_0, names)
        } else {
            (Ok(Seq::empty()), names)
        };
        if rb is Ok {
            lemma_items_names(l.skip(2), n1);
            assert(n1.len() > names.len() ==> n1.take(names.len() as int) == names);
            assert(n1.len() == names.len() ==> n1 =~= names);
        }
    }
}

proof fn lemma_letrec_result_names(l: Seq<SExpr>, names: Seq<Seq<char>>)
    ensures letrec_result(l, names).0 is Ok ==> letrec_result(l, names).1 == names,
    decreases l, 0nat,
{
    if l.len() >= 3 {
        let bs = if l[1] is List { l[1]->List_0 } else { Seq::<SExpr>::empty() };
        if let Ok(ns) = letrec_names(bs) {
            if l[1] is List {
                lemma_letrec_names(l[1]->List_0, names + ns);
            }
            let n1 = names + ns;
            lemma_items_names(l.skip(2), n1);
            assert(n1.take(names.len() as int) =~= names);
            assert(n1.len() == names.len() ==> n1 =~= names);
        }
    }
}

proof fn lemma_items_names(es: Seq<SExpr>, names: Seq<Seq<char>>)
    ensures compile_items_spec(es, names).0 is Ok ==> compile_items_spec(es, names).1 == names,
    decreases es, 1nat,
{
    if es.len() > 0 {
        law_compile_restores_names(es[0], names);
        let (r, n1) = compile_spec(es[0], names);
        if r is Ok {
            lemma_items_names(es.skip(1), n1);
        }
    }
}

proof fn lemma_let_names(bs: Seq<SExpr>, names: Seq<Seq<char>>)
    ensures
        compile_let_spec(bs, names).0 is Ok ==> {
            let n = compile_let_spec(bs, names).1;
            n.len() >= names.len() && n.take(names.len() as int) == names
        },
    decreases bs, 1nat,
{
    if bs.len() > 0 {
        if let SExpr::List(pair) = bs[0] {
            if pair.len() == 2 {
                if let SExpr::Symbol(name) = pair[0] {
                    law_compile_restores_names(pair[1], names);
                    let (r, n1) = compile_spec(pair[1], names);
                    if r is Ok {
                        lemma_let_names(bs.skip(1), n1.push(name));
                        let (r2, n2) = compile_let_spec(bs.skip(1), n1.push(name));
                        if r2 is Ok {
                            assert(n2.take(names.len() as int) =~= n2.take(names.len() + 1int).take(names.len() as int));
                            assert(names.push(name).take(names.len() as int) =~= names);
                        }
                    }
                }
            }
        }
    } else {
        assert(names.take(names.len() as int) =~= names);
    }
}

proof fn lemma_letrec_names(bs: Seq<SExpr>, names: Seq<Seq<char>>)
    ensures compile_letrec_spec(bs, names).0 is Ok ==> compile_letrec_spec(bs, names).1 == names,
    decreases bs, 1nat,
{
    if bs.len() > 0 {
        if let SExpr::List(pair) = bs[0] {
            if pair.len() > 0 && pair[0] is Symbol {
                if pair.len() >= 2 {
                    law_compile_restores_names(pair[1], names);
                    let (r, n1) = compile_spec(pair[1], names);
                    if r is Ok {
                        lemma_letrec_names(bs.skip(1), n1);
                    }
                }
            } else {
                lemma_letrec_names(bs.skip(1), names);
            }
        } else {
            lemma_letrec_names(bs.skip(1), names);
        }
    }
}

proof fn lemma_qq_names(e: SExpr, names: Seq<Seq<char>>, depth: nat)
    ensures compile_qq_spec(e, names, depth).0 is Ok ==> compile_qq_spec(e, names, depth).1 == names,
    decreases e, 0nat,
{
    if let SExpr::List(l) = e {
        if l.len() == 0 {
        } else if is_head(l, "unquote"@) {
            if l.len() >= 2 {
                if depth == 1 {
                    law_compile_restores_names(l[1], names);
                } else {
                    lemma_qq_names(l[1], names, (depth - 1) as nat);
                }
            }
        } else if is_head(l, "quasiquote"@) {
            if l.len() >= 2 && depth < depth_limit() {
                lemma_qq_names(l[1], names, depth + 1);
            }
        } else {
            lemma_qq_items_names(l, names, depth);
        }
    }
}

proof fn lemma_qq_items_names(es: Seq<SExpr>, names: Seq<Seq<char>>, depth: nat)
    ensures compile_qq_items_spec(es, names, depth).0 is Ok ==> compile_qq_items_spec(es, names, depth).1 == names,
    decreases es, 0nat,
{
    if es.len() > 0 {
        if is_splice(es[0]) && depth == 1 {
            let inner = es[0]->List_0;
            law_compile_restores_names(inner[1], names);
        } else {
            lemma_qq_names(es[0], names, depth);
        }
        let (r, n1) = if is_splice(es[0]) && depth == 1 {
            let inner = es[0]->List_0;
            let (ri, ni) = compile_spec(inner[1], names);
            match ri {
                Ok(c) => (Ok(SExpr::List(seq![SExpr::Symbol("unquote-splicing"@), c])), ni),
                Err(m) => (Err(m), ni),
            }
        } else {
            compile_qq_spec(es[0], names, depth)
        };
        if r is Ok {
            lemma_qq_items_names(es.skip(1), n1, depth);
        }
    }
}

/// Why compiling failed: a message, or an element of a parameter list that
/// is not a symbol.
pub enum CompileFailure {
    Msg(String),
    Param(Expr),
}

pub open spec fn failure_view(f: CompileFailure) -> CompileError {
    match f {
        CompileFailure::Msg(m) => CompileError::Msg(m@),
        CompileFailure::Param(v) => CompileError::Param(v@),
    }
}

/// What a failure to compile gives from heap state `h`: its message, for a
/// parameter that is not a symbol with the element shown.
pub open spec fn compile_failure(e: CompileError, h: HeapV, o: Answers) -> (Outcome, HeapV) {
    match e {
        CompileError::Msg(m) => (Outcome::Error(m), h),
        CompileError::Param(v) => fail_with(crate::reader::param_error_prefix(), v, h, o),
    }
}

/// The message of a failure to compile.
fn failure_message<H: Host>(f: CompileFailure, heap: &mut Heap, host: &H) -> (r: String)
    ensures
        final(heap)@.frames == old(heap)@.frames,
        forall|o: Answers| #[trigger] consistent(final(heap).calls(), o) ==>
            consistent(old(heap).calls(), o)
            && (Outcome::Error(r@), final(heap)@) == compile_failure(failure_view(f), old(heap)@, o),
{
    match f {
        CompileFailure::Msg(m) => m,
        CompileFailure::Param(v) => fail_message("parse_params: expected symbol in parameter list, got ", &v, heap, host),
    }
}

/// Compiles a "surface" expression (named variables) into a "core" one
/// (De Bruijn indices), `env` holding the lexically bound names.  A failure
/// for a parameter that is not a symbol shows the element, numbers in it
/// shown by the host.
pub fn compile<H: Host>(expr: &Expr, env: &mut Vec<String>, heap: &mut Heap, host: &H) -> (r: Result<Expr, String>)
    ensures
        ({
            let (sr, sn) = compile_spec(expr@, strings_view(old(env)@));
            &&& strings_view(final(env)@) == sn
            &&& final(heap)@.frames == old(heap)@.frames
            &&& forall|o: Answers| #[trigger] consistent(final(heap).calls(), o) ==> {
                &&& consistent(old(heap).calls(), o)
                &&& match sr {
                    Ok(c) => r is Ok && r->Ok_0@ == c && final(heap)@ == old(heap)@,
                    Err(e) => r is Err && (Outcome::Error(r->Err_0@), final(heap)@) == compile_failure(e, old(heap)@, o),
                }
            }
        }),
{
    match compile_core(expr, env) {
        Ok(c) => Ok(c),
        Err(f) => Err(failure_message(f, heap, host)),
    }
}

/// The names of a parameter list, or the failure naming its first
/// element that is not a symbol.
fn params_or_fail(e: &Expr) -> (r: Result<Vec<String>, CompileFailure>)
    ensures
        match params_of(e@) {
            Ok(ps) => r is Ok && strings_view(r->Ok_0@) == ps,
            Err(v) => r is Err && failure_view(r->Err_0) == CompileError::Param(v),
        },
{
    match params_checked(e) {
        Ok(ps) => Ok(ps),
        Err(v) => Err(CompileFailure::Param(v)),
    }
}

fn rfind_name(names: &Vec<String>, s: &String) -> (r: Option<usize>)
    ensures
        match rfind(strings_view(names@), s@) {
            Some(i) => r matches Some(p) && p as nat == i,
            None => r is None,
        },
{
    let ghost ns = strings_view(names@);
    let mut k: usize = names.len();
    assert(ns.take(k as int) =~= ns);
    while k > 0
        invariant
            k <= names@.len(),
            ns == strings_view(names@),
            rfind(ns, s@) == match rfind(ns.take(k as int), s@) {
                Some(i) => Some((i + (names@.len() - k)) as nat),
                None => None,
            },
        decreases k,
    {
        let ghost t = ns.take(k as int);
        assert(t.last() == names@[k - 1]@);
        if names[k - 1] == *s {
            return Some(names.len() - k);
        }
        assert(t.drop_last() =~= ns.take(k - 1));
        k = k - 1;
    }
    None
}

/// `l` is non-empty and starts with the symbol `k`.
pub fn head_is(l: &Vec<Expr>, k: &str) -> (r: bool)
    ensures r == is_head(exprs_view(l@), k@),
{
    proof { lemma_exprs_view(l@); }
    if l.len() == 0 {
        return false;
    }
    match &l[0] {
        Expr::Symbol(s) => str_eq(s.as_str(), k),
        _ => false,
    }
}

pub fn list3(a: Expr, b: Expr, c: Expr) -> (r: Expr)
    ensures r@ == SExpr::List(seq![a@, b@, c@]),
{
    let v = vec![a, b, c];
    proof {
        lemma_exprs_view(v@);
        assert(exprs_view(v@) =~= seq![a@, b@, c@]);
    }
    Expr::List(v)
}

pub fn list2(a: Expr, b: Expr) -> (r: Expr)
    ensures r@ == SExpr::List(seq![a@, b@]),
{
    let v = vec![a, b];
    proof {
        lemma_exprs_view(v@);
        assert(exprs_view(v@) =~= seq![a@, b@]);
    }
    Expr::List(v)
}

/// Compiles `es[start..]`, appending the results to `out`.
fn compile_items(es: &Vec<Expr>, start: usize, out: &mut Vec<Expr>, names: &mut Vec<String>) -> (r: Result<(), CompileFailure>)
    requires start <= es@.len(),
    ensures
        ({
            let (sr, sn) = compile_items_spec(exprs_view(es@).skip(start as int), strings_view(old(names)@));
            &&& strings_view(final(names)@) == sn
            &&& match sr {
                Ok(cs) => r is Ok && exprs_view(final(out)@) == exprs_view(old(out)@) + cs,
                Err(m) => r is Err && failure_view(r->Err_0) == m,
            }
        }),
    decreases es@, 0nat,
{
    let ghost ev = exprs_view(es@);
    let ghost out0 = exprs_view(out@);
    proof { lemma_exprs_view(es@); }
    let mut i: usize = start;
    assert(out0 + Seq::<SExpr>::empty() =~= out0);
    while i < es.len()
        invariant
            start <= i <= es@.len(),
            ev == exprs_view(es@),
            ev.len() == es@.len(),
            forall|j: int| 0 <= j < es@.len() ==> ev[j] == crate::expr::expr_view(#[trigger] es@[j]),
            exprs_view(out@).len() >= out0.len(),
            exprs_view(out@).take(out0.len() as int) == out0,
            compile_items_spec(ev.skip(start as int), strings_view(old(names)@)) == prepend(
                exprs_view(out@).skip(out0.len() as int),
                compile_items_spec(ev.skip(i as int), strings_view(names@)),
            ),
        decreases es@.len() - i,
    {
        proof {
            assert(decreases_to!(es@ => es@[i as int]));
            assert(ev.skip(i as int)[0] == ev[i as int]);
            assert(ev.skip(i as int).skip(1) =~= ev.skip(i + 1));
        }
        let c = compile_core(&es[i], names);
        match c {
            Ok(c) => {
                let ghost o1 = out@;
                out.push(c);
                proof {
                    lemma_exprs_view_push(o1, c);
                    lemma_exprs_view(o1);
                    assert(exprs_view(out@).take(out0.len() as int) =~= out0);
                    assert(exprs_view(out@).skip(out0.len() as int) =~= exprs_view(o1).skip(out0.len() as int).push(c@));
                    assert(exprs_view(o1).skip(out0.len() as int) + (seq![c@] + Seq::<SExpr>::empty()) =~= exprs_view(out@).skip(out0.len() as int));
                }
                i = i + 1;
                proof {
                    let tail = compile_items_spec(ev.skip(i as int), strings_view(names@));
                    match tail.0 {
                        Ok(cs) => {
                            assert(exprs_view(o1).skip(out0.len() as int) + (seq![c@] + cs) =~= exprs_view(out@).skip(out0.len() as int) + cs);
                        },
                        Err(_) => {},
                    }
                }
            },
            Err(m) => {
                return Err(m);
            },
        }
    }
    proof {
        assert(ev.skip(i as int) =~= Seq::<SExpr>::empty());
        assert(exprs_view(out@) =~= out0 + exprs_view(out@).skip(out0.len() as int));
        assert(exprs_view(out@).skip(out0.len() as int) + Seq::<SExpr>::empty() =~= exprs_view(out@).skip(out0.len() as int));
    }
    Ok(())
}

/// [`compile`], with the failure not yet turned into a message.
pub(crate) fn compile_core(expr: &Expr, env: &mut Vec<String>) -> (r: Result<Expr, CompileFailure>)
    ensures
        ({
            let (sr, sn) = compile_spec(expr@, strings_view(old(env)@));
            &&& strings_view(final(env)@) == sn
            &&& match sr {
                Ok(c) => r is Ok && r->Ok_0@ == c,
                Err(m) => r is Err && failure_view(r->Err_0) == m,
            }
        }),
    decreases expr, 1nat,
{
    match expr {
        Expr::Symbol(s) => {
            match rfind_name(env, s) {
                Some(pos) => Ok(Expr::Index(pos)),
                None => Ok(expr.deep_clone()),
            }
        },
        Expr::List(list) => {
            proof {
                lemma_exprs_view(list@);
                assert(decreases_to!(*expr => (*expr)->List_0));
                assert(decreases_to!(*list => list@));
            }
            let ghost l = exprs_view(list@);
            let ghost n0 = strings_view(env@);
            if list.len() == 0 {
                return Ok(expr.deep_clone());
            }
            if head_is(list, "quote") {
                return Ok(expr.deep_clone());
            }
            if head_is(list, "quasiquote") {
                if list.len() < 2 {
                    return Err(CompileFailure::Msg(owned("quasiquote: expected an argument")));
                }
                proof { assert(decreases_to!(list@ => list@[1])); }
                let c = compile_quasiquote(&list[1], env, 1)?;
                return Ok(list2(sym("quasiquote"), c));
            }
            if head_is(list, "lambda") {
                if list.len() < 3 {
                    return Err(CompileFailure::Msg(owned("lambda: expected (lambda (params...) body)")));
                }
                proof { assert(decreases_to!(list@ => list@[2])); }
                let params = params_or_fail(&list[1])?;
                if params.len() as u64 >= num::EXACT_LIMIT {
                    return Err(CompileFailure::Msg(owned("lambda: too many parameters")));
                }
                let old_len = env.len();
                let mut k: usize = 0;
                while k < params.len()
                    invariant
                        k <= params@.len(),
                        old_len == n0.len(),
                        strings_view(env@) == n0 + strings_view(params@).take(k as int),
                    decreases params@.len() - k,
                {
                    let ghost e0 = env@;
                    env.push(params[k].clone());
                    proof {
                        assert(strings_view(env@) =~= strings_view(e0).push(params@[k as int]@));
                        assert(strings_view(params@).take(k + 1) =~= strings_view(params@).take(k as int).push(params@[k as int]@));
                    }
                    k = k + 1;
                }
                assert(strings_view(params@).take(k as int) =~= strings_view(params@));
                let body = compile_core(&list[2], env)?;
                let ghost n2 = strings_view(env@);
                env.truncate(old_len);
                let n = num::count_to_bits(params.len() as u64);
                let r = list3(sym("lambda"), Expr::Number(n), body);
                assert(strings_view(env@) =~= trunc(n2, n0.len()));
                return Ok(r);
            }
            if head_is(list, "path") {
                if list.len() < 3 {
                    return Err(CompileFailure::Msg(owned("path: expected (path (i) body)")));
                }
                proof { assert(decreases_to!(list@ => list@[2])); }
                let params = params_or_fail(&list[1])?;
                if params.len() != 1 {
                    return Err(CompileFailure::Msg(owned("path: expected exactly one interval variable")));
                }
                let old_len = env.len();
                env.push(params[0].clone());
                assert(strings_view(env@) =~= n0.push(strings_view(params@)[0]));
                let body = compile_core(&list[2], env)?;
                let ghost n2 = strings_view(env@);
                env.truncate(old_len);
                assert(strings_view(env@) =~= trunc(n2, n0.len()));
                return Ok(list3(sym("path"), Expr::Number(num::ONE_BITS), body));
            }
            if head_is(list, "pi") || head_is(list, "sigma") {
                if list.len() < 4 {
                    return Err(CompileFailure::Msg(owned(if head_is(list, "pi") { "pi: expected (pi (x) dom cod)" } else { "sigma: expected (sigma (x) dom cod)" })));
                }
                proof {
                    assert(decreases_to!(list@ => list@[2]));
                    assert(decreases_to!(list@ => list@[3]));
                }
                let params = params_or_fail(&list[1])?;
                if params.len() != 1 {
                    return Err(CompileFailure::Msg(owned(if head_is(list, "pi") { "pi: expected exactly one bound variable" } else { "sigma: expected exactly one bound variable" })));
                }
                let dom = compile_core(&list[2], env)?;
                let ghost n1 = strings_view(env@);
                let old_len = env.len();
                env.push(params[0].clone());
                assert(strings_view(env@) =~= n1.push(strings_view(params@)[0]));
                let cod = compile_core(&list[3], env)?;
                let ghost n2 = strings_view(env@);
                env.truncate(old_len);
                assert(strings_view(env@) =~= trunc(n2, n1.len()));
                return Ok(list3(list[0].deep_clone(), dom, cod));
            }
            if head_is(list, "let") {
                return compile_let(expr, list, env);
            }
            if head_is(list, "letrec") {
                return compile_letrec(expr, list, env);
            }
            if head_is(list, "define") || head_is(list, "defmacro") {
                if list.len() < 2 {
                    return Err(CompileFailure::Msg(owned("define: expected a name")));
                }
                let mut out: Vec<Expr> = Vec::new();
                out.push(list[0].deep_clone());
                out.push(list[1].deep_clone());
                proof {
                    lemma_exprs_view(out@);
                    assert(exprs_view(out@) =~= seq![l[0], l[1]]);
                }
                compile_items(list, 2, &mut out, env)?;
                return Ok(Expr::List(out));
            }
            if head_is(list, "funext") {
                if list.len() != 4 {
                    return Err(CompileFailure::Msg(owned("funext: expected (funext f g p)")));
                }
                let mut out: Vec<Expr> = Vec::new();
                out.push(sym("funext"));
                proof {
                    lemma_exprs_view(out@);
                    assert(exprs_view(out@) =~= seq![SExpr::Symbol("funext"@)]);
                }
                compile_items(list, 1, &mut out, env)?;
                return Ok(Expr::List(out));
            }
            let mut out: Vec<Expr> = Vec::new();
            assert(exprs_view(out@) =~= Seq::<SExpr>::empty());
            assert(l.skip(0) =~= l);
            compile_items(list, 0, &mut out, env)?;
            proof {
                match compile_items_spec(l, n0).0 {
                    Ok(cs) => { assert(Seq::<SExpr>::empty() + cs =~= cs); },
                    Err(_) => {},
                }
            }
            Ok(Expr::List(out))
        },
        _ => Ok(expr.deep_clone()),
    }
}


#[verifier::spinoff_prover]
fn compile_let(expr: &Expr, list: &Vec<Expr>, env: &mut Vec<String>) -> (r: Result<Expr, CompileFailure>)
    requires
        *expr == Expr::List(*list),
        is_head(exprs_view(list@), "let"@),
        not_binder_head(exprs_view(list@)),
    ensures
        ({
            let (sr, sn) = compile_spec(expr@, strings_view(old(env)@));
            &&& strings_view(final(env)@) == sn
            &&& match sr {
                Ok(c) => r is Ok && r->Ok_0@ == c,
                Err(m) => r is Err && failure_view(r->Err_0) == m,
            }
        }),
    decreases expr, 0nat,
{
    proof {
        lemma_exprs_view(list@);
        assert(decreases_to!(*expr => (*expr)->List_0));
        assert(decreases_to!(*list => list@));
    }
    let ghost l = exprs_view(list@);
    let ghost n0 = strings_view(env@);
    assert(compile_spec(expr@, n0) == let_result(l, n0));
    if list.len() < 3 {
        return Err(CompileFailure::Msg(owned("let: expected (let ((name expr)...) body...)")));
    }
    let old_len = env.len();
    let mut cbs: Vec<Expr> = Vec::new();
    match &list[1] {
        Expr::List(bindings) => {
            proof {
                lemma_exprs_view(bindings@);
                assert(decreases_to!(list@ => list@[1]));
                assert(decreases_to!(list@[1] => (list@[1])->List_0));
                assert(decreases_to!(*bindings => bindings@));
            }
            let ghost bv = exprs_view(bindings@);
            assert(bv.skip(0) =~= bv);
            assert(exprs_view(cbs@) =~= Seq::<SExpr>::empty());
            proof { lemma_prepend_empty(compile_let_spec(bv, n0)); }
            let mut i: usize = 0;
            while i < bindings.len()
                invariant
                    i <= bindings@.len(),
                    bv == exprs_view(bindings@),
                    bv.len() == bindings@.len(),
                    forall|j: int| 0 <= j < bindings@.len() ==> bv[j] == crate::expr::expr_view(#[trigger] bindings@[j]),
                    decreases_to!(*expr => bindings@),
                    *expr == Expr::List(*list),
                    l == exprs_view(list@),
                    l.len() >= 3,
                    l[1] == SExpr::List(bv),
                    n0 == strings_view(old(env)@),
                    compile_spec(expr@, n0) == let_result(l, n0),
                    old_len == n0.len(),
                    compile_let_spec(bv, n0) == prepend(exprs_view(cbs@), compile_let_spec(bv.skip(i as int), strings_view(env@))),
                decreases bindings@.len() - i,
            {
                proof {
                    assert(bv.skip(i as int)[0] == bv[i as int]);
                    assert(bv.skip(i as int).skip(1) =~= bv.skip(i + 1));
                    assert(decreases_to!(bindings@ => bindings@[i as int]));
                }
                match &bindings[i] {
                    Expr::List(pair) => {
                        proof {
                            lemma_exprs_view(pair@);
                            assert(decreases_to!(bindings@[i as int] => (bindings@[i as int])->List_0));
                            assert(decreases_to!(*pair => pair@));
                        }
                        if pair.len() != 2 {
                            return Err(CompileFailure::Msg(owned("let: each binding must be (name expr)")));
                        }
                        match &pair[0] {
                            Expr::Symbol(name) => {
                                proof { assert(decreases_to!(pair@ => pair@[1])); }
                                let v = compile_core(&pair[1], env)?;
                                let ghost c0 = cbs@;
                                let b = list2(Expr::Symbol(name.clone()), v);
                                cbs.push(b);
                                let ghost e0 = env@;
                                env.push(name.clone());
                                proof {
                                    lemma_exprs_view_push(c0, b);
                                    assert(strings_view(env@) =~= strings_view(e0).push(name@));
                                    let tail = compile_let_spec(bv.skip(i + 1), strings_view(env@));
                                    match tail.0 {
                                        Ok(rest) => {
                                            assert(exprs_view(c0) + (seq![b@] + rest) =~= exprs_view(cbs@) + rest);
                                        },
                                        Err(_) => {},
                                    }
                                }
                            },
                            _ => {
                                return Err(CompileFailure::Msg(owned("let: binding name must be a symbol")));
                            },
                        }
                    },
                    _ => {
                        return Err(CompileFailure::Msg(owned("let: each binding must be a list (name expr)")));
                    },
                }
                i = i + 1;
            }
            proof {
                assert(bv.skip(i as int) =~= Seq::<SExpr>::empty());
                assert(exprs_view(cbs@) + Seq::<SExpr>::empty() =~= exprs_view(cbs@));
            }
        },
        _ => {
            assert(exprs_view(cbs@) =~= Seq::<SExpr>::empty());
        },
    }
    let mut out: Vec<Expr> = Vec::new();
    out.push(sym("let"));
    out.push(Expr::List(cbs));
    proof {
        lemma_exprs_view(out@);
        assert(exprs_view(out@) =~= seq![SExpr::Symbol("let"@), SExpr::List(exprs_view(cbs@))]);
    }
    compile_items(list, 2, &mut out, env)?;
    let ghost n2 = strings_view(env@);
    env.truncate(old_len);
    assert(strings_view(env@) =~= trunc(n2, n0.len()));
    Ok(Expr::List(out))
}

#[verifier::spinoff_prover]
fn compile_letrec(expr: &Expr, list: &Vec<Expr>, env: &mut Vec<String>) -> (r: Result<Expr, CompileFailure>)
    requires
        *expr == Expr::List(*list),
        is_head(exprs_view(list@), "letrec"@),
        not_binder_head(exprs_view(list@)),
        !is_head(exprs_view(list@), "let"@),
    ensures
        ({
            let (sr, sn) = compile_spec(expr@, strings_view(old(env)@));
            &&& strings_view(final(env)@) == sn
            &&& match sr {
                Ok(c) => r is Ok && r->Ok_0@ == c,
                Err(m) => r is Err && failure_view(r->Err_0) == m,
            }
        }),
    decreases expr, 0nat,
{
    proof {
        lemma_exprs_view(list@);
        assert(decreases_to!(*expr => (*expr)->List_0));
        assert(decreases_to!(*list => list@));
    }
    let ghost l = exprs_view(list@);
    let ghost n0 = strings_view(env@);
    assert(compile_spec(expr@, n0) == letrec_result(l, n0));
    if list.len() < 3 {
        return Err(CompileFailure::Msg(owned("letrec: expected (letrec ((name expr)...) body...)")));
    }
    let old_len = env.len();
    let mut cbs: Vec<Expr> = Vec::new();
    match &list[1] {
        Expr::List(bindings) => {
            proof {
                lemma_exprs_view(bindings@);
                assert(decreases_to!(list@ => list@[1]));
                assert(decreases_to!(list@[1] => (list@[1])->List_0));
                assert(decreases_to!(*bindings => bindings@));
                assert(decreases_to!(*expr => bindings@));
            }
            let ghost bv = exprs_view(bindings@);
            assert(l[1] == SExpr::List(bv));
            // Collect the names.
            let mut ns: Vec<String> = Vec::new();
            let mut i: usize = 0;
            assert(bv.skip(0) =~= bv);
            proof {
                match letrec_names(bv) {
                    Ok(rest) => { assert(strings_view(ns@) + rest =~= rest); },
                    Err(_) => {},
                }
            }
            while i < bindings.len()
                invariant
                    i <= bindings@.len(),
                    bv == exprs_view(bindings@),
                    bv.len() == bindings@.len(),
                    forall|j: int| 0 <= j < bindings@.len() ==> bv[j] == crate::expr::expr_view(#[trigger] bindings@[j]),
                    n0 == strings_view(env@),
                    n0 == strings_view(old(env)@),
                    l == exprs_view(list@),
                    l.len() >= 3,
                    l[1] == SExpr::List(bv),
                    compile_spec(expr@, n0) == letrec_result(l, n0),
                    match letrec_names(bv.skip(i as int)) {
                        Ok(rest) => letrec_names(bv) == Ok::<Seq<Seq<char>>, CompileError>(strings_view(ns@) + rest),
                        Err(m) => letrec_names(bv) == Err::<Seq<Seq<char>>, CompileError>(m),
                    },
                decreases bindings@.len() - i,
            {
                proof {
                    assert(bv.skip(i as int)[0] == bv[i as int]);
                    assert(bv.skip(i as int).skip(1) =~= bv.skip(i + 1));
                }
                match &bindings[i] {
                    Expr::List(pair) => {
                        proof { lemma_exprs_view(pair@); }
                        if pair.len() == 0 {
                            return Err(CompileFailure::Msg(owned("letrec: binding name must be a symbol")));
                        }
                        match &pair[0] {
                            Expr::Symbol(name) => {
                                let ghost n_old = ns@;
                                ns.push(name.clone());
                                proof {
                                    assert(strings_view(ns@) =~= strings_view(n_old).push(name@));
                                    match letrec_names(bv.skip(i + 1)) {
                                        Ok(rest) => {
                                            assert(strings_view(n_old) + (seq![name@] + rest) =~= strings_view(ns@) + rest);
                                        },
                                        Err(_) => {},
                                    }
                                }
                            },
                            _ => {
                                return Err(CompileFailure::Msg(owned("letrec: binding name must be a symbol")));
                            },
                        }
                    },
                    _ => {},
                }
                i = i + 1;
            }
            proof {
                assert(bv.skip(i as int) =~= Seq::<SExpr>::empty());
                assert(strings_view(ns@) + Seq::<Seq<char>>::empty() =~= strings_view(ns@));
            }
            // Bind all names.
            let mut k: usize = 0;
            while k < ns.len()
                invariant
                    k <= ns@.len(),
                    strings_view(env@) == n0 + strings_view(ns@).take(k as int),
                decreases ns@.len() - k,
            {
                let ghost e0 = env@;
                env.push(ns[k].clone());
                proof {
                    assert(strings_view(env@) =~= strings_view(e0).push(ns@[k as int]@));
                    assert(strings_view(ns@).take(k + 1) =~= strings_view(ns@).take(k as int).push(ns@[k as int]@));
                }
                k = k + 1;
            }
            assert(strings_view(ns@).take(k as int) =~= strings_view(ns@));
            // Compile the right-hand sides.
            let ghost nb = strings_view(env@);
            let mut i: usize = 0;
            assert(exprs_view(cbs@) =~= Seq::<SExpr>::empty());
            proof {
                assert(bv.skip(0) =~= bv);
                lemma_prepend_empty(compile_letrec_spec(bv, nb));
            }
            while i < bindings.len()
                invariant
                    i <= bindings@.len(),
                    bv == exprs_view(bindings@),
                    bv.len() == bindings@.len(),
                    forall|j: int| 0 <= j < bindings@.len() ==> bv[j] == crate::expr::expr_view(#[trigger] bindings@[j]),
                    decreases_to!(*expr => bindings@),
                    l == exprs_view(list@),
                    l.len() >= 3,
                    l[1] == SExpr::List(bv),
                    letrec_names(bv) == Ok::<Seq<Seq<char>>, CompileError>(strings_view(ns@)),
                    nb == n0 + strings_view(ns@),
                    n0 == strings_view(old(env)@),
                    old_len == n0.len(),
                    compile_spec(expr@, n0) == letrec_result(l, n0),
                    compile_letrec_spec(bv, nb) == prepend(exprs_view(cbs@), compile_letrec_spec(bv.skip(i as int), strings_view(env@))),
                decreases bindings@.len() - i,
            {
                proof {
                    assert(bv.skip(i as int)[0] == bv[i as int]);
                    assert(bv.skip(i as int).skip(1) =~= bv.skip(i + 1));
                    assert(decreases_to!(bindings@ => bindings@[i as int]));
                }
                let ghost e_before = strings_view(env@);
                let ghost c_before = exprs_view(cbs@);
                match &bindings[i] {
                    Expr::List(pair) => {
                        proof {
                            lemma_exprs_view(pair@);
                            assert(decreases_to!(bindings@[i as int] => (bindings@[i as int])->List_0));
                            assert(decreases_to!(*pair => pair@));
                            let pv = exprs_view(pair@);
                            assert(bv[i as int] == SExpr::List(pv));
                            if !(pv.len() > 0 && pv[0] is Symbol) {
                                assert(compile_letrec_spec(bv.skip(i as int), e_before) == compile_letrec_spec(bv.skip(i + 1), e_before));
                            }
                        }
                        if pair.len() > 0 {
                            match &pair[0] {
                                Expr::Symbol(name) => {
                                    if pair.len() < 2 {
                                        return Err(CompileFailure::Msg(owned("letrec: each binding must be (name expr)")));
                                    }
                                    proof { assert(decreases_to!(pair@ => pair@[1])); }
                                    let v = compile_core(&pair[1], env)?;
                                    let ghost c0 = cbs@;
                                    let b = list2(Expr::Symbol(name.clone()), v);
                                    cbs.push(b);
                                    proof {
                                        let pv = exprs_view(pair@);
                                        assert(pv[0] == SExpr::Symbol(name@));
                                        assert(compile_spec(pv[1], e_before) == (Ok::<SExpr, CompileError>(v@), strings_view(env@)));
                                        let tail = compile_letrec_spec(bv.skip(i + 1), strings_view(env@));
                                        assert(compile_letrec_spec(bv.skip(i as int), e_before) == (match tail.0 {
                                            Ok(cs) => Ok(seq![SExpr::List(seq![pv[0], v@])] + cs),
                                            Err(m) => Err(m),
                                        }, tail.1));
                                        lemma_exprs_view_push(c0, b);
                                        match tail.0 {
                                            Ok(rest) => {
                                                assert(exprs_view(c0) + (seq![b@] + rest) =~= exprs_view(cbs@) + rest);
                                            },
                                            Err(_) => {},
                                        }
                                    }
                                },
                                _ => {},
                            }
                        }
                    },
                    _ => {
                        assert(!(bv[i as int] is List));
                        assert(compile_letrec_spec(bv.skip(i as int), e_before) == compile_letrec_spec(bv.skip(i + 1), e_before));
                    },
                }
                i = i + 1;
            }
            proof {
                assert(bv.skip(i as int) =~= Seq::<SExpr>::empty());
                assert(exprs_view(cbs@) + Seq::<SExpr>::empty() =~= exprs_view(cbs@));
            }
        },
        _ => {
            assert(exprs_view(cbs@) =~= Seq::<SExpr>::empty());
            assert(letrec_names(Seq::<SExpr>::empty()) == Ok::<Seq<Seq<char>>, CompileError>(Seq::empty()));
            assert(n0 + Seq::<Seq<char>>::empty() =~= n0);
        },
    }
    let mut out: Vec<Expr> = Vec::new();
    out.push(sym("letrec"));
    out.push(Expr::List(cbs));
    proof {
        lemma_exprs_view(out@);
        assert(exprs_view(out@) =~= seq![SExpr::Symbol("letrec"@), SExpr::List(exprs_view(cbs@))]);
    }
    compile_items(list, 2, &mut out, env)?;
    let ghost n2 = strings_view(env@);
    env.truncate(old_len);
    assert(strings_view(env@) =~= trunc(n2, n0.len()));
    Ok(Expr::List(out))
}

/// Compiles a quasiquote template at nesting `depth`.
fn compile_quasiquote(expr: &Expr, env: &mut Vec<String>, depth: u64) -> (r: Result<Expr, CompileFailure>)
    requires depth >= 1,
    ensures
        ({
            let (sr, sn) = compile_qq_spec(expr@, strings_view(old(env)@), depth as nat);
            &&& strings_view(final(env)@) == sn
            &&& match sr {
                Ok(c) => r is Ok && r->Ok_0@ == c,
                Err(m) => r is Err && failure_view(r->Err_0) == m,
            }
        }),
    decreases expr, 0nat,
{
    match expr {
        Expr::List(list) => {
            proof {
                lemma_exprs_view(list@);
                assert(decreases_to!(*expr => (*expr)->List_0));
                assert(decreases_to!(*list => list@));
            }
            let ghost l = exprs_view(list@);
            if list.len() == 0 {
                return Ok(expr.deep_clone());
            }
            if head_is(list, "unquote") {
                if list.len() < 2 {
                    return Err(CompileFailure::Msg(owned("unquote: expected an argument")));
                }
                proof { assert(decreases_to!(list@ => list@[1])); }
                if depth == 1 {
                    let c = compile_core(&list[1], env)?;
                    return Ok(list2(sym("unquote"), c));
                } else {
                    let c = compile_quasiquote(&list[1], env, depth - 1)?;
                    return Ok(list2(sym("unquote"), c));
                }
            }
            if head_is(list, "quasiquote") {
                if list.len() < 2 || depth == u64::MAX {
                    return Err(CompileFailure::Msg(owned("quasiquote: expected an argument")));
                }
                proof { assert(decreases_to!(list@ => list@[1])); }
                let c = compile_quasiquote(&list[1], env, depth + 1)?;
                return Ok(list2(sym("quasiquote"), c));
            }
            let ghost n0 = strings_view(env@);
            let mut out: Vec<Expr> = Vec::new();
            let mut i: usize = 0;
            assert(l.skip(0) =~= l);
            assert(exprs_view(out@) =~= Seq::<SExpr>::empty());
            proof { lemma_prepend_empty(compile_qq_items_spec(l, n0, depth as nat)); }
            assert(compile_qq_spec(expr@, n0, depth as nat) == (match compile_qq_items_spec(l, n0, depth as nat).0 {
                Ok(items) => Ok(SExpr::List(items)),
                Err(m) => Err(m),
            }, compile_qq_items_spec(l, n0, depth as nat).1));
            while i < list.len()
                invariant
                    i <= list@.len(),
                    depth >= 1,
                    l == exprs_view(list@),
                    l.len() == list@.len(),
                    forall|j: int| 0 <= j < list@.len() ==> l[j] == crate::expr::expr_view(#[trigger] list@[j]),
                    decreases_to!(*expr => list@),
                    n0 == strings_view(old(env)@),
                    compile_qq_spec(expr@, n0, depth as nat) == (match compile_qq_items_spec(l, n0, depth as nat).0 {
                        Ok(items) => Ok(SExpr::List(items)),
                        Err(m) => Err(m),
                    }, compile_qq_items_spec(l, n0, depth as nat).1),
                    compile_qq_items_spec(l, n0, depth as nat) == prepend(exprs_view(out@), compile_qq_items_spec(l.skip(i as int), strings_view(env@), depth as nat)),
                decreases list@.len() - i,
            {
                proof {
                    assert(l.skip(i as int)[0] == l[i as int]);
                    assert(l.skip(i as int).skip(1) =~= l.skip(i + 1));
                    assert(decreases_to!(list@ => list@[i as int]));
                }
                let item = &list[i];
                let mut spliced = false;
                let mut done: Option<Expr> = None;
                if depth == 1 {
                    match item {
                        Expr::List(inner) => {
                            proof {
                                lemma_exprs_view(inner@);
                                assert(decreases_to!(list@[i as int] => (list@[i as int])->List_0));
                                assert(decreases_to!(*inner => inner@));
                            }
                            if inner.len() == 2 && head_is(inner, "unquote-splicing") {
                                proof { assert(decreases_to!(inner@ => inner@[1])); }
                                let c = compile_core(&inner[1], env)?;
                                done = Some(list2(sym("unquote-splicing"), c));
                            }
                        },
                        _ => {},
                    }
                }
                let c = match done {
                    Some(c) => c,
                    None => compile_quasiquote(item, env, depth)?,
                };
                let ghost o1 = out@;
                out.push(c);
                proof {
                    lemma_exprs_view_push(o1, c);
                    let tail = compile_qq_items_spec(l.skip(i + 1), strings_view(env@), depth as nat);
                    match tail.0 {
                        Ok(rest) => {
                            assert(exprs_view(o1) + (seq![c@] + rest) =~= exprs_view(out@) + rest);
                        },
                        Err(_) => {},
                    }
                }
                i = i + 1;
            }
            proof {
                assert(l.skip(i as int) =~= Seq::<SExpr>::empty());
                assert(exprs_view(out@) + Seq::<SExpr>::empty() =~= exprs_view(out@));
            }
            Ok(Expr::List(out))
        },
        _ => Ok(expr.deep_clone()),
    }
}

} // verus!
