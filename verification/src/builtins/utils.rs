//! String primitives.

use vstd::prelude::*;
use crate::builtins::{prim_done, flag_expr, lex_order, concat_strs};
use crate::expr::{Expr, SExpr, Prim, exprs_view, lemma_exprs_view};
use crate::gc::{Heap, GcHandle};
use crate::host::Host;
use crate::num;
use crate::text::{owned, chars_of, string_of, str_upper, str_lower};

verus! {

fn order_strs(a: &String, b: &String) -> (r: i8)
    ensures r as int == lex_order(a@, b@),
{
    let x = chars_of(a.as_str());
    let y = chars_of(b.as_str());
    let mut i: usize = 0;
    assert(x@.skip(0) =~= x@);
    assert(y@.skip(0) =~= y@);
    while i < x.len() && i < y.len()
        invariant
            i <= x@.len(), i <= y@.len(),
            lex_order(a@, b@) == lex_order(x@.skip(i as int), y@.skip(i as int)),
            x@ == a@, y@ == b@,
        decreases x@.len() - i,
    {
        let c = x[i];
        let d = y[i];
        assert(x@.skip(i as int)[0] == c && y@.skip(i as int)[0] == d);
        if (c as u32) < (d as u32) {
            return -1;
        }
        if (c as u32) > (d as u32) {
            return 1;
        }
        assert(x@.skip(i as int).skip(1) =~= x@.skip(i + 1));
        assert(y@.skip(i as int).skip(1) =~= y@.skip(i + 1));
        i = i + 1;
    }
    if i < x.len() {
        1
    } else if i < y.len() {
        -1
    } else {
        0
    }
}

fn str_of(e: &Expr) -> (r: Option<&String>)
    ensures
        e@ is Str ==> (r matches Some(s) && s@ == e@->Str_0),
        !(e@ is Str) ==> r is None,
{
    match e {
        Expr::Str(s) => Some(s),
        _ => None,
    }
}

/// Applies a string primitive.
pub fn apply_string_prim<H: Host>(p: Prim, args: &[Expr], heap: &mut Heap, host: &H) -> (r: Result<Expr, String>)
    requires
        p == Prim::StringAppend || p == Prim::StringLength || p == Prim::StringEq || p == Prim::StringLt
            || p == Prim::StringGt || p == Prim::StringLe || p == Prim::StringGe || p == Prim::StringToNumber
            || p == Prim::NumberToString || p == Prim::StringToSymbol || p == Prim::SymbolToString
            || p == Prim::StringUpcase || p == Prim::StringDowncase || p == Prim::Substring,
    ensures prim_done(p, exprs_view(args@), r, *old(heap), *final(heap)),
{
    proof {
        lemma_exprs_view(args@);
        assert(heap.calls().take(heap.calls().len() as int) =~= heap.calls());
    }
    let ghost a = exprs_view(args@);
    let n = args.len();
    match p {
        Prim::StringAppend => {
            let mut out: Vec<char> = Vec::new();
            let mut i: usize = 0;
            assert(a.skip(0) =~= a);
            while i < n
                invariant
                    *heap == *old(heap),
                    heap.calls().take(heap.calls().len() as int) == heap.calls(),
                    p == Prim::StringAppend,
                    n == args@.len(), a == exprs_view(args@), a.len() == n,
                    forall|j: int| 0 <= j < n ==> a[j] == crate::expr::expr_view(#[trigger] args@[j]),
                    i <= n,
                    concat_strs(a) == match concat_strs(a.skip(i as int)) {
                        Some(rest) => Some(out@ + rest),
                        None => None::<Seq<char>>,
                    },
                decreases n - i,
            {
                assert(a.skip(i as int)[0] == a[i as int]);
                assert(a.skip(i as int).skip(1) =~= a.skip(i + 1));
                match &args[i] {
                    Expr::Str(s) => {
                        let cs = chars_of(s.as_str());
                        let ghost o1 = out@;
                        let mut cs = cs;
                        out.append(&mut cs);
                        proof {
                            match concat_strs(a.skip(i + 1)) {
                                Some(rest) => { assert(o1 + (s@ + rest) =~= out@ + rest); },
                                None => {},
                            }
                        }
                    },
                    _ => {
                        assert(!(a[i as int] is Str));
                        return Err(owned("string-append: expected strings"));
                    },
                }
                i = i + 1;
            }
            assert(a.skip(i as int) =~= Seq::<SExpr>::empty());
            assert(out@ + Seq::<char>::empty() =~= out@);
            assert(heap@ == old(heap)@);
            Ok(Expr::Str(string_of(out.as_slice())))
        },
        Prim::StringLength => {
            if n != 1 {
                return Err(owned("string-length: expects exactly 1 argument"));
            }
            match str_of(&args[0]) {
                Some(s) => {
                    let cs = chars_of(s.as_str());
                    if cs.len() as u64 >= num::EXACT_LIMIT {
                        return Err(owned("string-length: string too long"));
                    }
                    Ok(Expr::Number(num::count_to_bits(cs.len() as u64)))
                },
                None => Err(owned("string-length: expected a string")),
            }
        },
        Prim::StringEq | Prim::StringLt | Prim::StringGt | Prim::StringLe | Prim::StringGe => {
            if n != 2 {
                return Err(owned("string comparison expects exactly 2 arguments"));
            }
            match (str_of(&args[0]), str_of(&args[1])) {
                (Some(x), Some(y)) => {
                    let c = order_strs(x, y);
                    let b = match p {
                        Prim::StringEq => c == 0,
                        Prim::StringLt => c < 0,
                        Prim::StringGt => c > 0,
                        Prim::StringLe => c <= 0,
                        _ => c >= 0,
                    };
                    Ok(flag_expr(b))
                },
                _ => Err(owned("string comparison: expected strings")),
            }
        },
        Prim::StringToNumber => {
            if n != 1 {
                return Err(owned("string->number: expects exactly 1 argument"));
            }
            match str_of(&args[0]) {
                Some(s) => {
                    let ghost k = heap@.log.len();
                    let ans = heap.ask_read_number(host, s.as_str());
                    proof { assert(heap.calls()[k as int].1 == heap@.log[k as int].1); }
                    match ans {
                        Some(b) => Ok(Expr::Number(b)),
                        None => {
                            let mut m = chars_of("string->number: not a valid number: ");
                            crate::render::push_quoted(&mut m, s.as_str());
                            Err(string_of(m.as_slice()))
                        },
                    }
                },
                None => Err(owned("string->number: expected a string")),
            }
        },
        Prim::NumberToString => {
            if n != 1 {
                return Err(owned("number->string: expects exactly 1 argument"));
            }
            match &args[0] {
                Expr::Number(b) => {
                    let shown = heap.ask_show_number(host, *b);
                    Ok(Expr::Str(shown))
                },
                _ => Err(owned("number->string: expected a number")),
            }
        },
        Prim::StringToSymbol => {
            if n != 1 {
                return Err(owned("string->symbol: expects exactly 1 argument"));
            }
            match str_of(&args[0]) {
                Some(s) => Ok(Expr::Symbol(s.clone())),
                None => Err(owned("string->symbol: expected a string")),
            }
        },
        Prim::SymbolToString => {
            if n != 1 {
                return Err(owned("symbol->string: expects exactly 1 argument"));
            }
            match &args[0] {
                Expr::Symbol(s) => Ok(Expr::Str(s.clone())),
                other => {
                    let m = crate::render::fail_message("symbol->string: expected symbol, got ", other, heap, host);
                    Err(m)
                },
            }
        },
        Prim::StringUpcase | Prim::StringDowncase => {
            if n != 1 {
                return Err(owned(if p == Prim::StringUpcase {
                    "string-upcase: expects exactly 1 argument"
                } else {
                    "string-downcase: expects exactly 1 argument"
                }));
            }
            match str_of(&args[0]) {
                Some(s) => {
                    if p == Prim::StringUpcase {
                        Ok(Expr::Str(str_upper(s.as_str())))
                    } else {
                        Ok(Expr::Str(str_lower(s.as_str())))
                    }
                },
                None => Err(owned(if p == Prim::StringUpcase {
                    "string-upcase: expected a string"
                } else {
                    "string-downcase: expected a string"
                })),
            }
        },
        _ => {
            // substring
            if n != 3 {
                return Err(owned("substring: expects (substring s start end)"));
            }
            match (str_of(&args[0]), &args[1], &args[2]) {
                (Some(s), Expr::Number(x), Expr::Number(y)) => {
                    let start = num::to_index(*x);
                    let end = num::to_index(*y);
                    let cs = chars_of(s.as_str());
                    if start > end || end > cs.len() {
                        let mut m = chars_of("substring: index out of range (start=");
                        crate::text::push_decimal(&mut m, start);
                        let mut part = chars_of(", end=");
                        m.append(&mut part);
                        crate::text::push_decimal(&mut m, end);
                        let mut part = chars_of(", len=");
                        m.append(&mut part);
                        crate::text::push_decimal(&mut m, cs.len());
                        let mut part = chars_of(")");
                        m.append(&mut part);
                        return Err(string_of(m.as_slice()));
                    }
                    let mut out: Vec<char> = Vec::new();
                    let mut k: usize = start;
                    while k < end
                        invariant
                            start <= k <= end, end <= cs@.len(),
                            out@ == cs@.subrange(start as int, k as int),
                        decreases end - k,
                    {
                        out.push(cs[k]);
                        k = k + 1;
                        assert(out@ =~= cs@.subrange(start as int, k as int));
                    }
                    Ok(Expr::Str(string_of(out.as_slice())))
                },
                _ => Err(owned("substring: expected a string and two numbers")),
            }
        },
    }
}

} // verus!

verus! {

pub open spec fn string_prims() -> Seq<(Seq<char>, Prim)> {
    seq![
        ("string?"@, Prim::IsString),
        ("string-append"@, Prim::StringAppend),
        ("string-length"@, Prim::StringLength),
        ("string=?"@, Prim::StringEq),
        ("string<?"@, Prim::StringLt),
        ("string>?"@, Prim::StringGt),
        ("string<=?"@, Prim::StringLe),
        ("string>=?"@, Prim::StringGe),
        ("string->number"@, Prim::StringToNumber),
        ("number->string"@, Prim::NumberToString),
        ("string->symbol"@, Prim::StringToSymbol),
        ("symbol->string"@, Prim::SymbolToString),
        ("string-upcase"@, Prim::StringUpcase),
        ("string-downcase"@, Prim::StringDowncase),
        ("substring"@, Prim::Substring),
    ]
}

/// Registers the string primitives.
pub fn register_strings(heap: &mut Heap, env: GcHandle)
    requires old(heap).wf(), env < old(heap)@.len(),
    ensures final(heap).wf(), final(heap)@ == crate::builtins::bind_prims(old(heap)@, env as nat, string_prims()),
        final(heap)@.len() == old(heap)@.len(),
        final(heap).calls() == old(heap).calls(),
{
    let t = vec![
        crate::builtins::entry("string?", Prim::IsString),
        crate::builtins::entry("string-append", Prim::StringAppend),
        crate::builtins::entry("string-length", Prim::StringLength),
        crate::builtins::entry("string=?", Prim::StringEq),
        crate::builtins::entry("string<?", Prim::StringLt),
        crate::builtins::entry("string>?", Prim::StringGt),
        crate::builtins::entry("string<=?", Prim::StringLe),
        crate::builtins::entry("string>=?", Prim::StringGe),
        crate::builtins::entry("string->number", Prim::StringToNumber),
        crate::builtins::entry("number->string", Prim::NumberToString),
        crate::builtins::entry("string->symbol", Prim::StringToSymbol),
        crate::builtins::entry("symbol->string", Prim::SymbolToString),
        crate::builtins::entry("string-upcase", Prim::StringUpcase),
        crate::builtins::entry("string-downcase", Prim::StringDowncase),
        crate::builtins::entry("substring", Prim::Substring),
    ];
    assert(crate::builtins::table_view(t@) =~= string_prims());
    crate::builtins::register_table(heap, env, &t);
}

} // verus!
