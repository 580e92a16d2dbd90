//! Primitive functions: what each computes, and the global environment that
//! holds them.

pub mod cubical;
pub mod utils;

use vstd::prelude::*;
use crate::expr::{Expr, SExpr, SBuiltin, Prim, Builtin, exprs_view, strings_view, lemma_exprs_view, truthy, is_truthy, sym};
use crate::gc::{Heap, HeapV, GcHandle, FrameV, bind, env_set, new_env, heap_wf};
use crate::host::{Host, Request, Answers, consistent, names_of};
use crate::num;
use crate::text::owned;

verus! {

/// What an evaluation gives: a value, or an error with its message.
pub enum Outcome {
    Value(SExpr),
    Error(Seq<char>),
}

/// The number `1` for true and `0` for false.
pub open spec fn flag(b: bool) -> SExpr {
    SExpr::Number(if b { num::ONE_BITS } else { num::ZERO_BITS })
}

pub fn flag_expr(b: bool) -> (r: Expr)
    ensures r@ == flag(b),
{
    Expr::Number(if b { num::ONE_BITS } else { num::ZERO_BITS })
}

/// Lexicographic order of strings (which for UTF-8 text is the byte order
/// that `str`'s comparison uses): `-1`, `0` or `1`.
pub open spec fn lex_order(a: Seq<char>, b: Seq<char>) -> int
    decreases a.len(),
{
    if a.len() == 0 {
        if b.len() == 0 { 0 } else { -1 }
    } else if b.len() == 0 {
        1
    } else if (a[0] as u32) < (b[0] as u32) {
        -1
    } else if (a[0] as u32) > (b[0] as u32) {
        1
    } else {
        lex_order(a.skip(1), b.skip(1))
    }
}

/// Concatenation of the strings `args`, if they are all strings.
pub open spec fn concat_strs(args: Seq<SExpr>) -> Option<Seq<char>>
    decreases args.len(),
{
    if args.len() == 0 {
        Some(Seq::empty())
    } else {
        match args[0] {
            SExpr::Str(s) => match concat_strs(args.skip(1)) {
                Some(rest) => Some(s + rest),
                None => None,
            },
            _ => None,
        }
    }
}

/// The result of applying the primitive `p` to `args` when it asks
/// nothing of the host (see [`prim_step`]).
pub open spec fn prim_spec(p: Prim, args: Seq<SExpr>) -> Outcome {
    let one = args.len() == 1;
    match p {
        Prim::Refl => if one {
            Outcome::Value(SExpr::Path(
                Box::new(SExpr::List(seq![SExpr::Symbol("quote"@), args[0]])),
                Seq::empty(),
            ))
        } else { Outcome::Error(prim_error(p, args)) },
        Prim::IsPi => if one { Outcome::Value(flag(args[0] is Pi)) } else { Outcome::Error(prim_error(p, args)) },
        Prim::IsPath => if one { Outcome::Value(flag(args[0] is Path)) } else { Outcome::Error(prim_error(p, args)) },
        Prim::IsSigma => if one { Outcome::Value(flag(args[0] is Sigma)) } else { Outcome::Error(prim_error(p, args)) },
        Prim::IsGlue => if one { Outcome::Value(flag(args[0] is Glue)) } else { Outcome::Error(prim_error(p, args)) },
        Prim::IsGlueType => if one { Outcome::Value(flag(args[0] is GlueType)) } else { Outcome::Error(prim_error(p, args)) },
        Prim::IsString => if one { Outcome::Value(flag(args[0] is Str)) } else { Outcome::Error(prim_error(p, args)) },
        Prim::StringAppend => match concat_strs(args) {
            Some(s) => Outcome::Value(SExpr::Str(s)),
            None => Outcome::Error(prim_error(p, args)),
        },
        Prim::StringLength => if one && args[0] is Str && args[0]->Str_0.len() < num::EXACT_LIMIT {
            Outcome::Value(SExpr::Number(num::count_bits(args[0]->Str_0.len() as u64)))
        } else { Outcome::Error(prim_error(p, args)) },
        Prim::StringEq | Prim::StringLt | Prim::StringGt | Prim::StringLe | Prim::StringGe =>
            if args.len() == 2 && args[0] is Str && args[1] is Str {
                let c = lex_order(args[0]->Str_0, args[1]->Str_0);
                Outcome::Value(flag(match p {
                    Prim::StringEq => c == 0,
                    Prim::StringLt => c < 0,
                    Prim::StringGt => c > 0,
                    Prim::StringLe => c <= 0,
                    _ => c >= 0,
                }))
            } else { Outcome::Error(prim_error(p, args)) },
        // With a valid argument these ask the host (see `host_request`).
        Prim::StringToNumber | Prim::NumberToString => Outcome::Error(prim_error(p, args)),
        Prim::StringToSymbol => if one && args[0] is Str {
            Outcome::Value(SExpr::Symbol(args[0]->Str_0))
        } else { Outcome::Error(prim_error(p, args)) },
        Prim::SymbolToString => if one && args[0] is Symbol {
            Outcome::Value(SExpr::Str(args[0]->Symbol_0))
        } else { Outcome::Error(prim_error(p, args)) },
        Prim::StringUpcase => if one && args[0] is Str {
            Outcome::Value(SExpr::Str(crate::text::upper(args[0]->Str_0)))
        } else { Outcome::Error(prim_error(p, args)) },
        Prim::StringDowncase => if one && args[0] is Str {
            Outcome::Value(SExpr::Str(crate::text::lower(args[0]->Str_0)))
        } else { Outcome::Error(prim_error(p, args)) },
        Prim::Substring => if args.len() == 3 && args[0] is Str && args[1] is Number && args[2] is Number {
            let s = args[0]->Str_0;
            let start = num::to_index_spec(args[1]->Number_0);
            let end = num::to_index_spec(args[2]->Number_0);
            if start > end || end > s.len() {
                Outcome::Error(prim_error(p, args))
            } else {
                Outcome::Value(SExpr::Str(s.subrange(start as int, end as int)))
            }
        } else { Outcome::Error(prim_error(p, args)) },
        Prim::List => Outcome::Value(SExpr::List(args)),
        Prim::Car => if one && args[0] is List && args[0]->List_0.len() > 0 {
            Outcome::Value(args[0]->List_0[0])
        } else { Outcome::Error(prim_error(p, args)) },
        Prim::Cdr => if one && args[0] is List && args[0]->List_0.len() > 0 {
            Outcome::Value(SExpr::List(args[0]->List_0.skip(1)))
        } else { Outcome::Error(prim_error(p, args)) },
        Prim::Cons => if args.len() == 2 && args[1] is List {
            Outcome::Value(SExpr::List(seq![args[0]] + args[1]->List_0))
        } else { Outcome::Error(prim_error(p, args)) },
        Prim::IsNull => if one {
            Outcome::Value(flag(args[0] is List && args[0]->List_0.len() == 0))
        } else { Outcome::Error(prim_error(p, args)) },
        Prim::Not => if one { Outcome::Value(flag(!truthy(args[0]))) } else { Outcome::Error(prim_error(p, args)) },
    }
}

/// The outcome of a host's answer.
pub open spec fn answer(a: Result<SExpr, Seq<char>>) -> Outcome {
    match a {
        Ok(v) => Outcome::Value(v),
        Err(m) => Outcome::Error(m),
    }
}

/// `r` is what the outcome `o` says: the value or an error.
pub open spec fn matches_outcome(r: Result<Expr, String>, o: Outcome) -> bool {
    match o {
        Outcome::Value(v) => r is Ok && r->Ok_0@ == v,
        Outcome::Error(m) => r is Err && r->Err_0@ == m,
    }
}

/// What a primitive asks of the host, if anything: `string->number` of a
/// string and `number->string` of a number.
pub open spec fn host_request(p: Prim, args: Seq<SExpr>) -> Option<Request> {
    if p == Prim::StringToNumber && args.len() == 1 && args[0] is Str {
        Some(Request::ReadNumber(args[0]->Str_0))
    } else if p == Prim::NumberToString && args.len() == 1 && args[0] is Number {
        Some(Request::ShowNumber(args[0]->Number_0))
    } else {
        None
    }
}

/// Asks the host `q` in heap state `h`: the answer is the next one of `o`,
/// and the exchange is added to the record.
pub open spec fn ask(h: HeapV, q: Request, o: Answers) -> (Outcome, HeapV) {
    let a = o(h.log.len());
    (answer(a), HeapV { log: h.log.push((q, a)), ..h })
}

/// Applying the primitive `p` to `args` in heap state `h`.
pub open spec fn prim_step(p: Prim, args: Seq<SExpr>, h: HeapV, o: Answers) -> (Outcome, HeapV) {
    match host_request(p, args) {
        Some(q) => {
            // A number the host cannot read fails with the primitive's message.
            let (r, h1) = ask(h, q, o);
            match r {
                Outcome::Error(_) => (Outcome::Error(prim_error(p, args)), h1),
                other => (other, h1),
            }
        },
        None => if p == Prim::SymbolToString && args.len() == 1 && !(args[0] is Symbol) {
            crate::render::fail_with("symbol->string: expected symbol, got "@, args[0], h, o)
        } else {
            (prim_spec(p, args), h)
        },
    }
}

/// The message of `substring` for indices out of range.
pub open spec fn range_error(start: nat, end: nat, len: nat) -> Seq<char> {
    "substring: index out of range (start="@ + crate::text::decimal(start) + ", end="@
        + crate::text::decimal(end) + ", len="@ + crate::text::decimal(len) + ")"@
}

/// The message a primitive fails with.
pub open spec fn prim_error(p: Prim, args: Seq<SExpr>) -> Seq<char> {
    let one = args.len() == 1;
    match p {
        Prim::Refl => "refl: expects exactly 1 argument"@,
        Prim::IsPi => "pi?: expects exactly 1 argument"@,
        Prim::IsPath => "path?: expects exactly 1 argument"@,
        Prim::IsSigma => "sigma?: expects exactly 1 argument"@,
        Prim::IsGlue => "glue?: expects exactly 1 argument"@,
        Prim::IsGlueType => "glue-type?: expects exactly 1 argument"@,
        Prim::IsString => "string?: expects exactly 1 argument"@,
        Prim::StringAppend => "string-append: expected strings"@,
        Prim::StringLength => if !one {
            "string-length: expects exactly 1 argument"@
        } else if args[0] is Str {
            "string-length: string too long"@
        } else {
            "string-length: expected a string"@
        },
        Prim::StringEq | Prim::StringLt | Prim::StringGt | Prim::StringLe | Prim::StringGe => if args.len() != 2 {
            "string comparison expects exactly 2 arguments"@
        } else {
            "string comparison: expected strings"@
        },
        Prim::StringToNumber => if !one {
            "string->number: expects exactly 1 argument"@
        } else if args[0] is Str {
            "string->number: not a valid number: "@ + crate::render::quoted(args[0]->Str_0)
        } else {
            "string->number: expected a string"@
        },
        Prim::NumberToString => if !one {
            "number->string: expects exactly 1 argument"@
        } else {
            "number->string: expected a number"@
        },
        Prim::StringToSymbol => if !one {
            "string->symbol: expects exactly 1 argument"@
        } else {
            "string->symbol: expected a string"@
        },
        Prim::SymbolToString => if !one {
            "symbol->string: expects exactly 1 argument"@
        } else {
            "symbol->string: expected symbol"@
        },
        Prim::StringUpcase => if !one {
            "string-upcase: expects exactly 1 argument"@
        } else {
            "string-upcase: expected a string"@
        },
        Prim::StringDowncase => if !one {
            "string-downcase: expects exactly 1 argument"@
        } else {
            "string-downcase: expected a string"@
        },
        Prim::Substring => if args.len() != 3 {
            "substring: expects (substring s start end)"@
        } else if args[0] is Str && args[1] is Number && args[2] is Number {
            range_error(
                num::to_index_spec(args[1]->Number_0) as nat,
                num::to_index_spec(args[2]->Number_0) as nat,
                args[0]->Str_0.len(),
            )
        } else {
            "substring: expected a string and two numbers"@
        },
        Prim::List => Seq::empty(),
        Prim::Car | Prim::Cdr => if !one {
            "car/cdr: expects exactly 1 argument"@
        } else if args[0] is List {
            "car/cdr: empty list"@
        } else {
            "car/cdr: expected a list"@
        },
        Prim::Cons => if args.len() != 2 {
            "cons: expects exactly 2 arguments"@
        } else {
            "cons: expected a list"@
        },
        Prim::IsNull => "null?: expects exactly 1 argument"@,
        Prim::Not => "not: expects exactly 1 argument"@,
    }
}

/// For every host whose answers agree with the record of exchanges, the
/// result and the new heap state are what `prim_step` gives.
pub open spec fn prim_done(p: Prim, args: Seq<SExpr>, r: Result<Expr, String>, old_heap: Heap, new_heap: Heap) -> bool {
    &&& new_heap@.frames == old_heap@.frames
    &&& forall|o: Answers| #[trigger] consistent(new_heap.calls(), o) ==>
        consistent(old_heap.calls(), o)
        && matches_outcome(r, prim_step(p, args, old_heap@, o).0)
        && new_heap@ == prim_step(p, args, old_heap@, o).1
}

/// Applies the primitive `p` to evaluated arguments; exchanges with the
/// host are recorded in `heap`.
pub fn apply_prim<H: Host>(p: Prim, args: &[Expr], heap: &mut Heap, host: &H) -> (r: Result<Expr, String>)
    ensures prim_done(p, exprs_view(args@), r, *old(heap), *final(heap)),
{
    proof { lemma_exprs_view(args@); }
    let ghost a = exprs_view(args@);
    let n = args.len();
    match p {
        Prim::Refl => {
            if n != 1 {
                return Err(owned("refl: expects exactly 1 argument"));
            }
            let body = crate::compiler::list2(sym("quote"), args[0].deep_clone());
            let r = Expr::Path(Box::new(body), Box::new(crate::expr::LexEnv::Empty));
            assert(crate::expr::lex_view(crate::expr::LexEnv::Empty) =~= Seq::<SExpr>::empty());
            Ok(r)
        },
        Prim::IsPi | Prim::IsPath | Prim::IsSigma | Prim::IsGlue | Prim::IsGlueType | Prim::IsString => {
            if n != 1 {
                return Err(owned(match p {
                    Prim::IsPi => "pi?: expects exactly 1 argument",
                    Prim::IsPath => "path?: expects exactly 1 argument",
                    Prim::IsSigma => "sigma?: expects exactly 1 argument",
                    Prim::IsGlue => "glue?: expects exactly 1 argument",
                    Prim::IsGlueType => "glue-type?: expects exactly 1 argument",
                    _ => "string?: expects exactly 1 argument",
                }));
            }
            let b = match (&args[0], p) {
                (Expr::Pi(..), Prim::IsPi) => true,
                (Expr::Path(..), Prim::IsPath) => true,
                (Expr::Sigma(..), Prim::IsSigma) => true,
                (Expr::Glue(..), Prim::IsGlue) => true,
                (Expr::GlueType(..), Prim::IsGlueType) => true,
                (Expr::Str(..), Prim::IsString) => true,
                _ => false,
            };
            Ok(flag_expr(b))
        },
        Prim::StringAppend
        | Prim::StringLength
        | Prim::StringEq
        | Prim::StringLt
        | Prim::StringGt
        | Prim::StringLe
        | Prim::StringGe
        | Prim::StringToNumber
        | Prim::NumberToString
        | Prim::StringToSymbol
        | Prim::SymbolToString
        | Prim::StringUpcase
        | Prim::StringDowncase
        | Prim::Substring => utils::apply_string_prim(p, args, heap, host),
        Prim::List => Ok(Expr::List(crate::expr::clone_exprs(args))),
        Prim::Car | Prim::Cdr => {
            if n != 1 {
                return Err(owned("car/cdr: expects exactly 1 argument"));
            }
            match &args[0] {
                Expr::List(l) => {
                    proof { lemma_exprs_view(l@); }
                    if l.len() == 0 {
                        return Err(owned("car/cdr: empty list"));
                    }
                    if p == Prim::Car {
                        Ok(l[0].deep_clone())
                    } else {
                        let rest = crate::expr::clone_exprs(vstd::slice::slice_subrange(l.as_slice(), 1, l.len()));
                        proof {
                            crate::expr::lemma_exprs_view_skip(l@, 1);
                        }
                        Ok(Expr::List(rest))
                    }
                },
                _ => Err(owned("car/cdr: expected a list")),
            }
        },
        Prim::Cons => {
            if n != 2 {
                return Err(owned("cons: expects exactly 2 arguments"));
            }
            match &args[1] {
                Expr::List(l) => {
                    let mut out: Vec<Expr> = Vec::new();
                    out.push(args[0].deep_clone());
                    let rest = crate::expr::clone_exprs(l.as_slice());
                    let ghost o1 = out@;
                    let ghost r1 = rest@;
                    let mut rest = rest;
                    out.append(&mut rest);
                    proof {
                        lemma_exprs_view(o1);
                        lemma_exprs_view(out@);
                        lemma_exprs_view(l@);
                        lemma_exprs_view(r1);
                        assert(out@ == o1 + r1);
                        assert forall|j: int| 0 <= j < out@.len() implies exprs_view(out@)[j] == (seq![a[0]] + exprs_view(l@))[j] by {
                            if j > 0 {
                                assert(out@[j] == r1[j - 1]);
                                assert(exprs_view(r1)[j - 1] == exprs_view(l@)[j - 1]);
                            }
                        }
                        assert(exprs_view(out@) =~= seq![a[0]] + exprs_view(l@));
                    }
                    Ok(Expr::List(out))
                },
                _ => Err(owned("cons: expected a list")),
            }
        },
        Prim::IsNull => {
            if n != 1 {
                return Err(owned("null?: expects exactly 1 argument"));
            }
            let b = match &args[0] {
                Expr::List(l) => {
                    proof { lemma_exprs_view(l@); }
                    l.len() == 0
                },
                _ => false,
            };
            Ok(flag_expr(b))
        },
        Prim::Not => {
            if n != 1 {
                return Err(owned("not: expects exactly 1 argument"));
            }
            Ok(flag_expr(!is_truthy(&args[0])))
        },
    }
}

} // verus!

verus! {

/// Binds each `(name, primitive)` pair in turn in frame `env`.
pub open spec fn bind_prims(h: HeapV, env: nat, ps: Seq<(Seq<char>, Prim)>) -> HeapV
    decreases ps.len(),
{
    if ps.len() == 0 {
        h
    } else {
        bind_prims(bind(h, env, ps[0].0, SExpr::Func(SBuiltin::Prim(ps[0].1))), env, ps.skip(1))
    }
}

/// Binds each host primitive name to itself in frame `env`.
pub open spec fn bind_natives(h: HeapV, env: nat, ns: Seq<Seq<char>>) -> HeapV
    decreases ns.len(),
{
    if ns.len() == 0 {
        h
    } else {
        bind_natives(bind(h, env, ns[0], SExpr::Func(SBuiltin::Native(ns[0]))), env, ns.skip(1))
    }
}

/// Binds `name` to the primitive `p` in frame `env`.
pub fn def_prim(heap: &mut Heap, env: GcHandle, name: &str, p: Prim)
    requires old(heap).wf(), env < old(heap)@.len(),
    ensures
        final(heap).wf(),
        final(heap)@ == bind(old(heap)@, env as nat, name@, SExpr::Func(SBuiltin::Prim(p))),
        final(heap)@.len() == old(heap)@.len(),
        final(heap).calls() == old(heap).calls(),
{
    let e = Expr::Func(Builtin::Prim(p));
    assert(crate::expr::builtin_view(Builtin::Prim(p)) == SBuiltin::Prim(p));
    assert(e@ == SExpr::Func(SBuiltin::Prim(p)));
    env_set(heap, env, owned(name), e);
}

/// Binding a sequence of primitives keeps the heap well formed and its size.
pub proof fn lemma_bind_prims_wf(h: HeapV, env: nat, ps: Seq<(Seq<char>, Prim)>)
    requires heap_wf(h),
    ensures heap_wf(bind_prims(h, env, ps)), bind_prims(h, env, ps).len() == h.len(),
    decreases ps.len(),
{
    if ps.len() > 0 {
        crate::gc::lemma_bind_wf(h, env, ps[0].0, SExpr::Func(SBuiltin::Prim(ps[0].1)));
        lemma_bind_prims_wf(bind(h, env, ps[0].0, SExpr::Func(SBuiltin::Prim(ps[0].1))), env, ps.skip(1));
    }
}

/// The list primitives.
pub open spec fn list_prims() -> Seq<(Seq<char>, Prim)> {
    seq![
        ("list"@, Prim::List),
        ("car"@, Prim::Car),
        ("cdr"@, Prim::Cdr),
        ("cons"@, Prim::Cons),
        ("null?"@, Prim::IsNull),
        ("not"@, Prim::Not),
    ]
}

/// Registers the list primitives.
pub fn register_lists(heap: &mut Heap, env: GcHandle)
    requires old(heap).wf(), env < old(heap)@.len(),
    ensures final(heap).wf(), final(heap)@ == bind_prims(old(heap)@, env as nat, list_prims()),
        final(heap)@.len() == old(heap)@.len(),
        final(heap).calls() == old(heap).calls(),
{
    let ghost h0 = heap@;
    def_prim(heap, env, "list", Prim::List);
    proof { crate::gc::lemma_bind_wf(h0, env as nat, "list"@, SExpr::Func(SBuiltin::Prim(Prim::List))); }
    def_prim(heap, env, "car", Prim::Car);
    def_prim(heap, env, "cdr", Prim::Cdr);
    def_prim(heap, env, "cons", Prim::Cons);
    def_prim(heap, env, "null?", Prim::IsNull);
    def_prim(heap, env, "not", Prim::Not);
    proof {
        let ps = list_prims();
        reveal_with_fuel(bind_prims, 7);
        assert(ps.skip(1).skip(1).skip(1).skip(1).skip(1).skip(1) =~= Seq::<(Seq<char>, Prim)>::empty());
        assert(ps.skip(1)[0] == ps[1]);
    }
}

} // verus!

verus! {

pub open spec fn table_view(t: Seq<(String, Prim)>) -> Seq<(Seq<char>, Prim)> {
    t.map_values(|x: (String, Prim)| (x.0@, x.1))
}

pub proof fn lemma_bind_prims_push(h: HeapV, env: nat, ps: Seq<(Seq<char>, Prim)>, x: (Seq<char>, Prim))
    ensures
        bind_prims(h, env, ps.push(x)) == bind(bind_prims(h, env, ps), env, x.0, SExpr::Func(SBuiltin::Prim(x.1))),
    decreases ps.len(),
{
    if ps.len() > 0 {
        let h1 = bind(h, env, ps[0].0, SExpr::Func(SBuiltin::Prim(ps[0].1)));
        assert(ps.push(x).skip(1) =~= ps.skip(1).push(x));
        assert(ps.push(x)[0] == ps[0]);
        lemma_bind_prims_push(h1, env, ps.skip(1), x);
    } else {
        assert(ps.push(x).skip(1) =~= Seq::<(Seq<char>, Prim)>::empty());
        assert(ps.push(x)[0] == x);
        let h1 = bind(h, env, x.0, SExpr::Func(SBuiltin::Prim(x.1)));
        assert(bind_prims(h1, env, Seq::empty()) == h1);
    }
}

/// Binds every `(name, primitive)` of `table` in frame `env`, in order.
pub fn register_table(heap: &mut Heap, env: GcHandle, table: &Vec<(String, Prim)>)
    requires old(heap).wf(), env < old(heap)@.len(),
    ensures final(heap).wf(), final(heap)@ == bind_prims(old(heap)@, env as nat, table_view(table@)),
        final(heap)@.len() == old(heap)@.len(),
        final(heap).calls() == old(heap).calls(),
{
    let ghost h0 = heap@;
    let ghost tv = table_view(table@);
    let mut i: usize = 0;
    assert(tv.take(0) =~= Seq::<(Seq<char>, Prim)>::empty());
    while i < table.len()
        invariant
            i <= table@.len(),
            tv == table_view(table@),
            heap.wf(),
            env < heap@.len(),
            heap@.len() == h0.len(),
            heap.calls() == old(heap).calls(),
            heap@ == bind_prims(h0, env as nat, tv.take(i as int)),
        decreases table@.len() - i,
    {
        let ghost h1 = heap@;
        let (name, p) = &table[i];
        def_prim(heap, env, name.as_str(), *p);
        proof {
            crate::gc::lemma_bind_wf(h1, env as nat, name@, SExpr::Func(SBuiltin::Prim(*p)));
            assert(tv.take(i + 1) =~= tv.take(i as int).push(tv[i as int]));
            lemma_bind_prims_push(h0, env as nat, tv.take(i as int), tv[i as int]);
        }
        i = i + 1;
    }
    assert(tv.take(i as int) =~= tv);
}

/// A table entry.
pub fn entry(name: &str, p: Prim) -> (r: (String, Prim))
    ensures r.0@ == name@, r.1 == p,
{
    (owned(name), p)
}

} // verus!

verus! {

pub proof fn lemma_bind_natives_push(h: HeapV, env: nat, ns: Seq<Seq<char>>, x: Seq<char>)
    ensures
        bind_natives(h, env, ns.push(x)) == bind(bind_natives(h, env, ns), env, x, SExpr::Func(SBuiltin::Native(x))),
    decreases ns.len(),
{
    if ns.len() > 0 {
        let h1 = bind(h, env, ns[0], SExpr::Func(SBuiltin::Native(ns[0])));
        assert(ns.push(x).skip(1) =~= ns.skip(1).push(x));
        assert(ns.push(x)[0] == ns[0]);
        lemma_bind_natives_push(h1, env, ns.skip(1), x);
    } else {
        assert(ns.push(x).skip(1) =~= Seq::<Seq<char>>::empty());
        assert(ns.push(x)[0] == x);
        let h1 = bind(h, env, x, SExpr::Func(SBuiltin::Native(x)));
        assert(bind_natives(h1, env, Seq::empty()) == h1);
    }
}

/// Everything the library binds in a global environment.
pub open spec fn library_bound(h: HeapV, env: nat) -> HeapV {
    let h1 = cubical::intervals_bound(h, env);
    let h2 = bind_prims(h1, env, cubical::pi_prims());
    let h3 = bind_prims(h2, env, cubical::sigma_prims());
    let h4 = bind_prims(h3, env, cubical::glue_prims());
    let h5 = bind_prims(h4, env, utils::string_prims());
    bind_prims(h5, env, list_prims())
}

/// The heap of one empty frame and no exchanges with the host.
pub open spec fn initial_heap() -> HeapV {
    HeapV { frames: seq![empty_frame()], log: Seq::empty() }
}

/// The empty frame without a parent.
pub open spec fn empty_frame() -> FrameV {
    FrameV { names: Seq::empty(), values: Seq::empty(), parent: None }
}

/// Binds each of `names` to the host primitive of that name in frame
/// `env`, in order.
pub fn register_natives(heap: &mut Heap, env: GcHandle, names: &Vec<String>)
    requires old(heap).wf(), env < old(heap)@.len(),
    ensures
        final(heap).wf(),
        final(heap)@ == bind_natives(old(heap)@, env as nat, strings_view(names@)),
        final(heap)@.len() == old(heap)@.len(),
        final(heap).calls() == old(heap).calls(),
{
    let ghost h0 = heap@;
    let ghost ns = strings_view(names@);
    let mut i: usize = 0;
    assert(ns.take(0) =~= Seq::<Seq<char>>::empty());
    while i < names.len()
        invariant
            i <= names@.len(),
            ns == strings_view(names@),
            heap.wf(),
            env < heap@.len(),
            heap@.len() == h0.len(),
            h0 == old(heap)@,
            heap.calls() == old(heap).calls(),
            heap@ == bind_natives(h0, env as nat, ns.take(i as int)),
        decreases names@.len() - i,
    {
        let ghost h1 = heap@;
        let name = names[i].clone();
        let nm = names[i].clone();
        let b = Builtin::Native(nm);
        assert(crate::expr::builtin_view(b) == SBuiltin::Native(nm@));
        let e = Expr::Func(b);
        assert(ns[i as int] == names@[i as int]@);
        assert(e@ == SExpr::Func(SBuiltin::Native(ns[i as int])));
        env_set(heap, env, name, e);
        proof {
            crate::gc::lemma_bind_wf(h1, env as nat, ns[i as int], e@);
            assert(ns.take(i + 1) =~= ns.take(i as int).push(ns[i as int]));
            lemma_bind_natives_push(h0, env as nat, ns.take(i as int), ns[i as int]);
        }
        i = i + 1;
    }
    assert(ns.take(i as int) =~= ns);
}

/// Heap state `h` after asking the host for the names of its primitives,
/// the answer being the next one of `o`.
pub open spec fn asked_names(h: HeapV, o: Answers) -> HeapV {
    HeapV { log: h.log.push((Request::NativeNames, o(h.log.len()))), ..h }
}

/// Creates the global environment: the primitives the host names, then
/// the library's primitives and constants.
pub fn global_env<H: Host>(heap: &mut Heap, host: &H) -> (env: GcHandle)
    requires old(heap).wf(),
    ensures
        final(heap).wf(),
        env == old(heap)@.len(),
        final(heap)@.len() == old(heap)@.len() + 1,
        forall|o: Answers| #[trigger] consistent(final(heap).calls(), o) ==> {
            let h1 = asked_names(old(heap)@.push(empty_frame()), o);
            &&& consistent(old(heap).calls(), o)
            &&& final(heap)@ == library_bound(bind_natives(h1, env as nat, names_of(o(old(heap)@.log.len()))), env as nat)
        },
{
    let env = new_env(heap, None);
    let ghost h0 = heap@;
    assert(h0 == old(heap)@.push(empty_frame()));
    let names = heap.ask_native_names(host);
    proof { crate::gc::lemma_wf_frames(h0, heap@); }
    let ghost ha = heap@;
    let ghost ca = heap.calls();
    register_natives(heap, env, &names);
    let ghost hn = heap@;
    cubical::register_intervals(heap, env);
    cubical::register_pi_types(heap, env);
    cubical::register_sigma_types(heap, env);
    cubical::register_glue_types(heap, env);
    utils::register_strings(heap, env);
    register_lists(heap, env);
    proof {
        lemma_bind_prims_wf(hn, env as nat, Seq::empty());
        crate::host::lemma_names_round_trip(strings_view(names@));
        assert forall|o: Answers| #[trigger] consistent(heap.calls(), o) implies {
            let h1 = asked_names(old(heap)@.push(empty_frame()), o);
            &&& consistent(old(heap).calls(), o)
            &&& heap@ == library_bound(bind_natives(h1, env as nat, names_of(o(old(heap)@.log.len()))), env as nat)
        } by {
            assert(heap.calls() == ca);
            assert(o(h0.log.len()) == ca.last().1);
            assert(asked_names(h0, o) == ha);
        }
    }
    env
}

} // verus!
