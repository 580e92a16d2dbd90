//! Printing values into error messages.  Numbers are shown by the host;
//! everything else is printed by the library, in the syntax of the reader
//! where there is one.

use vstd::prelude::*;
use crate::builtins::{Outcome, ask};
use crate::expr::{Expr, SExpr, exprs_view, lemma_exprs_view};
use crate::gc::{Heap, HeapV};
use crate::host::{Host, Answers, Request, consistent};
use crate::text::{chars_of, string_of, decimal, push_decimal};

verus! {

/// The text of a host's answer to a request to show a number.
pub open spec fn shown(r: Outcome) -> Seq<char> {
    match r {
        Outcome::Value(SExpr::Str(s)) => s,
        _ => Seq::empty(),
    }
}

/// A character as it stands inside a quoted string: `"`, `\`, newline, tab
/// and carriage return are escaped with a backslash.
pub open spec fn escaped(c: char) -> Seq<char> {
    if c == '"' { seq!['\\', '"'] }
    else if c == '\\' { seq!['\\', '\\'] }
    else if c == '\n' { seq!['\\', 'n'] }
    else if c == '\t' { seq!['\\', 't'] }
    else if c == '\r' { seq!['\\', 'r'] }
    else { seq![c] }
}

/// The characters of `s`, each escaped.
pub open spec fn escape(s: Seq<char>) -> Seq<char>
    decreases s.len(),
{
    if s.len() == 0 { Seq::empty() } else { escape(s.drop_last()) + escaped(s.last()) }
}

/// A string in double quotes.
pub open spec fn quoted(s: Seq<char>) -> Seq<char> {
    seq!['"'] + escape(s) + seq!['"']
}

/// The text of `e`, the host showing each number in turn (from heap state
/// `h`, answers `o`), and the heap state after.
pub open spec fn render(e: SExpr, h: HeapV, o: Answers) -> (Seq<char>, HeapV)
    decreases e, 1nat,
{
    match e {
        SExpr::Number(b) => {
            let (r, h1) = ask(h, Request::ShowNumber(b), o);
            (shown(r), h1)
        },
        SExpr::Symbol(s) => (s, h),
        SExpr::Str(s) => (quoted(s), h),
        SExpr::List(items) => {
            let (t, h1) = render_items(items, true, h, o);
            (seq!['('] + t + seq![')'], h1)
        },
        SExpr::Index(i) => (seq!['#'] + decimal(i), h),
        SExpr::Func(_) => ("#<builtin>"@, h),
        SExpr::Lambda(..) => ("#<lambda>"@, h),
        SExpr::Rec(..) => ("#<lambda>"@, h),
        SExpr::Macro(..) => ("#<macro>"@, h),
        SExpr::Path(..) => ("#<path>"@, h),
        SExpr::Pi(..) => ("#<pi>"@, h),
        SExpr::Sigma(..) => ("#<sigma>"@, h),
        SExpr::GlueType(..) => ("#<glue-type>"@, h),
        SExpr::Glue(..) => ("#<glue>"@, h),
    }
}

/// The items `es`, separated by spaces (`first`: no space before the first).
pub open spec fn render_items(es: Seq<SExpr>, first: bool, h: HeapV, o: Answers) -> (Seq<char>, HeapV)
    decreases es, 1nat,
{
    if es.len() == 0 {
        (Seq::empty(), h)
    } else {
        let (a, h1) = render(es[0], h, o);
        let (b, h2) = render_items(es.skip(1), false, h1, o);
        ((if first { a } else { seq![' '] + a }) + b, h2)
    }
}

/// An error whose message is `prefix` followed by the text of `v`.
pub open spec fn fail_with(prefix: Seq<char>, v: SExpr, h: HeapV, o: Answers) -> (Outcome, HeapV) {
    let (t, h1) = render(v, h, o);
    (Outcome::Error(prefix + t), h1)
}

/// An error whose message is `prefix`, the text of `v`, then `suffix`.
pub open spec fn fail_around(prefix: Seq<char>, v: SExpr, suffix: Seq<char>, h: HeapV, o: Answers) -> (Outcome, HeapV) {
    let (t, h1) = render(v, h, o);
    (Outcome::Error(prefix + t + suffix), h1)
}

/// Appends `s` in double quotes to `out`.
pub fn push_quoted(out: &mut Vec<char>, s: &str)
    ensures final(out)@ == old(out)@ + quoted(s@),
{
    let cs = chars_of(s);
    out.push('"');
    let ghost base = out@;
    let mut i: usize = 0;
    while i < cs.len()
        invariant
            i <= cs@.len(),
            cs@ == s@,
            base == old(out)@.push('"'),
            out@ == base + escape(cs@.take(i as int)),
        decreases cs@.len() - i,
    {
        let c = cs[i];
        let ghost o1 = out@;
        if c == '"' {
            out.push('\\');
            out.push('"');
        } else if c == '\\' {
            out.push('\\');
            out.push('\\');
        } else if c == '\n' {
            out.push('\\');
            out.push('n');
        } else if c == '\t' {
            out.push('\\');
            out.push('t');
        } else if c == '\r' {
            out.push('\\');
            out.push('r');
        } else {
            out.push(c);
        }
        proof {
            assert(cs@.take(i + 1).drop_last() =~= cs@.take(i as int));
            assert(cs@.take(i + 1).last() == c);
            assert(out@ =~= o1 + escaped(c));
            assert(base + escape(cs@.take(i + 1)) =~= (base + escape(cs@.take(i as int))) + escaped(c));
        }
        i = i + 1;
    }
    out.push('"');
    proof {
        assert(cs@.take(i as int) =~= s@);
        assert(out@ =~= old(out)@ + quoted(s@));
    }
}

proof fn lemma_item_smaller(e: Expr, l: Vec<Expr>, i: int)
    requires e == Expr::List(l), 0 <= i < l@.len(),
    ensures decreases_to!(e => l@[i]),
{
    assert(decreases_to!(l => l@));
    assert(decreases_to!(l@ => l@[i]));
    assert(decreases_to!(e => e->List_0));
}

/// Appends the text of `e` to `out`, asking the host to show each number.
pub fn push_render<H: Host>(e: &Expr, out: &mut Vec<char>, heap: &mut Heap, host: &H)
    ensures
        final(heap)@.frames == old(heap)@.frames,
        forall|o: Answers| #[trigger] consistent(final(heap).calls(), o) ==>
            consistent(old(heap).calls(), o)
            && final(out)@ == old(out)@ + render(e@, old(heap)@, o).0
            && final(heap)@ == render(e@, old(heap)@, o).1,
    decreases e,
{
    let ghost o0 = out@;
    match e {
        Expr::Number(b) => {
            let s = heap.ask_show_number(host, *b);
            let mut cs = chars_of(s.as_str());
            out.append(&mut cs);
        },
        Expr::Symbol(s) => {
            let mut cs = chars_of(s.as_str());
            out.append(&mut cs);
        },
        Expr::Str(s) => {
            push_quoted(out, s.as_str());
        },
        Expr::List(items) => {
            proof { lemma_exprs_view(items@); }
            let ghost lv = exprs_view(items@);
            let ghost h0 = heap@;
            out.push('(');
            let ghost base = out@;
            let ghost mut acc: Seq<char> = Seq::empty();
            let mut i: usize = 0;
            assert(lv.skip(0) =~= lv);
            assert(base + acc =~= base);
            while i < items.len()
                invariant
                    i <= items@.len(),
                    lv == exprs_view(items@),
                    lv.len() == items@.len(),
                    forall|j: int| 0 <= j < items@.len() ==> lv[j] == crate::expr::expr_view(#[trigger] items@[j]),
                    *e == Expr::List(*items),
                    h0 == old(heap)@,
                    base == o0.push('('),
                    o0 == old(out)@,
                    out@ == base + acc,
                    heap@.frames == h0.frames,
                    forall|o: Answers| #[trigger] consistent(heap.calls(), o) ==>
                        consistent(old(heap).calls(), o)
                        && render_items(lv, true, h0, o)
                            == (acc + render_items(lv.skip(i as int), i == 0, heap@, o).0,
                                render_items(lv.skip(i as int), i == 0, heap@, o).1),
                decreases items@.len() - i,
            {
                proof {
                    lemma_item_smaller(*e, *items, i as int);
                    assert(lv.skip(i as int)[0] == lv[i as int]);
                    assert(lv.skip(i as int).skip(1) =~= lv.skip(i + 1));
                }
                let ghost hb = heap@;
                let ghost cb = heap.calls();
                let ghost ob = out@;
                if i > 0 {
                    out.push(' ');
                }
                let ghost os = out@;
                push_render(&items[i], out, heap, host);
                proof {
                    let sep: Seq<char> = if i == 0 { Seq::empty() } else { seq![' '] };
                    assert(os == ob + sep);
                    crate::host::law_log_answerable(heap.calls());
                    let o1 = crate::host::answers_of(heap.calls());
                    assert(consistent(heap.calls(), o1));
                    assert(out@ == os + render(lv[i as int], hb, o1).0);
                    assert(out@.subrange(0, os.len() as int) =~= os);
                    let accn = acc + sep + (out@.subrange(os.len() as int, out@.len() as int));
                    assert forall|o: Answers| #[trigger] consistent(heap.calls(), o) implies
                        consistent(old(heap).calls(), o)
                        && out@ == base + accn
                        && render_items(lv, true, h0, o)
                            == (accn + render_items(lv.skip(i + 1), false, heap@, o).0,
                                render_items(lv.skip(i + 1), false, heap@, o).1) by {
                        assert(consistent(cb, o));
                        let (a, h1) = render(lv[i as int], hb, o);
                        assert(out@ == os + a);
                        assert(h1 == heap@);
                        assert(out@.subrange(os.len() as int, out@.len() as int) =~= a);
                        assert(out@ =~= base + accn);
                        let (b, h2) = render_items(lv.skip(i + 1), false, heap@, o);
                        assert(render_items(lv.skip(i as int), i == 0, hb, o)
                            == ((if i == 0 { a } else { seq![' '] + a }) + b, h2));
                        assert((if i == 0 { a } else { seq![' '] + a }) =~= sep + a);
                        assert(acc + ((sep + a) + b) =~= accn + b);
                    }
                    assert(out@ =~= base + accn);
                    acc = accn;
                }
                i = i + 1;
            }
            out.push(')');
            proof {
                assert(lv.skip(i as int) =~= Seq::<SExpr>::empty());
                assert forall|o: Answers| #[trigger] consistent(heap.calls(), o) implies
                    consistent(old(heap).calls(), o)
                    && out@ == old(out)@ + render(e@, old(heap)@, o).0
                    && heap@ == render(e@, old(heap)@, o).1 by {
                    assert(e@ == SExpr::List(lv));
                    assert(acc + Seq::<char>::empty() =~= acc);
                    assert(out@ =~= o0 + (seq!['('] + acc + seq![')']));
                }
            }
        },
        Expr::Index(n) => {
            out.push('#');
            push_decimal(out, *n);
            assert(out@ =~= o0 + (seq!['#'] + decimal(*n as nat)));
        },
        Expr::Func(_) => { let mut cs = chars_of("#<builtin>"); out.append(&mut cs); },
        Expr::Lambda(..) | Expr::Rec(..) => { let mut cs = chars_of("#<lambda>"); out.append(&mut cs); },
        Expr::Macro(..) => { let mut cs = chars_of("#<macro>"); out.append(&mut cs); },
        Expr::Path(..) => { let mut cs = chars_of("#<path>"); out.append(&mut cs); },
        Expr::Pi(..) => { let mut cs = chars_of("#<pi>"); out.append(&mut cs); },
        Expr::Sigma(..) => { let mut cs = chars_of("#<sigma>"); out.append(&mut cs); },
        Expr::GlueType(..) => { let mut cs = chars_of("#<glue-type>"); out.append(&mut cs); },
        Expr::Glue(..) => { let mut cs = chars_of("#<glue>"); out.append(&mut cs); },
    }
}

/// The message `prefix`, the text of `v`, then `suffix`.
pub fn fail_message_around<H: Host>(prefix: &str, v: &Expr, suffix: &str, heap: &mut Heap, host: &H) -> (r: String)
    ensures
        final(heap)@.frames == old(heap)@.frames,
        forall|o: Answers| #[trigger] consistent(final(heap).calls(), o) ==>
            consistent(old(heap).calls(), o)
            && (Outcome::Error(r@), final(heap)@) == fail_around(prefix@, v@, suffix@, old(heap)@, o),
{
    let mut out = chars_of(prefix);
    let ghost o0 = out@;
    push_render(v, &mut out, heap, host);
    let ghost o1 = out@;
    let mut tail = chars_of(suffix);
    out.append(&mut tail);
    proof {
        assert forall|o: Answers| #[trigger] consistent(heap.calls(), o) implies
            out@ == prefix@ + render(v@, old(heap)@, o).0 + suffix@ by {
            assert(out@ =~= o1 + suffix@);
        }
    }
    string_of(out.as_slice())
}

/// The message `prefix` followed by the text of `v`.
pub fn fail_message<H: Host>(prefix: &str, v: &Expr, heap: &mut Heap, host: &H) -> (r: String)
    ensures
        final(heap)@.frames == old(heap)@.frames,
        forall|o: Answers| #[trigger] consistent(final(heap).calls(), o) ==>
            consistent(old(heap).calls(), o)
            && (Outcome::Error(r@), final(heap)@) == fail_with(prefix@, v@, old(heap)@, o),
{
    let mut out = chars_of(prefix);
    push_render(v, &mut out, heap, host);
    string_of(out.as_slice())
}

} // verus!
