//! The reader: source text to tokens, tokens to expressions.

use vstd::prelude::*;
use crate::expr::{Expr, SExpr, exprs_view, strings_view, lemma_exprs_view, lemma_exprs_view_push, sym};
use crate::host::{Host, Request, Exchange, Answers, consistent};
use crate::gc::{Heap, HeapV};
use crate::text::{is_space, char_is_space, str_eq, chars_of, string_of, owned};

verus! {

/// Characters that always stand alone as a token.
pub open spec fn is_delim(c: char) -> bool {
    c == '(' || c == ')' || c == '\'' || c == '`' || c == ','
}

/// Surrounds every delimiter (and the two-character `,@`) with spaces.
pub open spec fn pad(cs: Seq<char>) -> Seq<char>
    decreases cs.len(),
{
    if cs.len() == 0 {
        Seq::empty()
    } else if cs.len() >= 2 && cs[0] == ',' && cs[1] == '@' {
        seq![' ', ',', '@', ' '] + pad(cs.skip(2))
    } else if is_delim(cs[0]) {
        seq![' ', cs[0], ' '] + pad(cs.skip(1))
    } else {
        seq![cs[0]] + pad(cs.skip(1))
    }
}

/// Length of the run of non-whitespace characters at the start of `cs`.
pub open spec fn word_len(cs: Seq<char>) -> nat
    decreases cs.len(),
{
    if cs.len() == 0 || is_space(cs[0]) {
        0
    } else {
        1 + word_len(cs.skip(1))
    }
}

/// `str::split_whitespace`: the maximal runs of non-whitespace characters.
pub open spec fn split_ws(cs: Seq<char>) -> Seq<Seq<char>>
    decreases cs.len(),
{
    if cs.len() == 0 {
        Seq::empty()
    } else if is_space(cs[0]) {
        split_ws(cs.skip(1))
    } else {
        let n = word_len(cs);
        if n == 0 || n > cs.len() {
            Seq::empty()
        } else {
            seq![cs.take(n as int)] + split_ws(cs.skip(n as int))
        }
    }
}

pub open spec fn tokens_of(src: Seq<char>) -> Seq<Seq<char>> {
    split_ws(pad(src))
}

proof fn lemma_word_len(cs: Seq<char>)
    ensures
        word_len(cs) <= cs.len(),
        forall|i: int| 0 <= i < word_len(cs) ==> !is_space(#[trigger] cs[i]),
        word_len(cs) < cs.len() ==> is_space(cs[word_len(cs) as int]),
    decreases cs.len(),
{
    if cs.len() > 0 && !is_space(cs[0]) {
        lemma_word_len(cs.skip(1));
        assert forall|i: int| 0 <= i < word_len(cs) implies !is_space(#[trigger] cs[i]) by {
            if i > 0 { assert(cs[i] == cs.skip(1)[i - 1]); }
        }
    }
}

/// A token: non-empty, without whitespace.
pub open spec fn token_ok(w: Seq<char>) -> bool {
    w.len() > 0 && forall|i: int| 0 <= i < w.len() ==> !is_space(#[trigger] w[i])
}

/// Every token that `split_ws` produces is non-empty and holds no whitespace.
pub proof fn lemma_split_ws_tokens(cs: Seq<char>)
    ensures forall|t: int| 0 <= t < split_ws(cs).len() ==> token_ok(#[trigger] split_ws(cs)[t]),
    decreases cs.len(),
{
    if cs.len() == 0 {
    } else if is_space(cs[0]) {
        lemma_split_ws_tokens(cs.skip(1));
        assert(split_ws(cs) == split_ws(cs.skip(1)));
    } else {
        let n = word_len(cs);
        lemma_word_len(cs);
        if n > 0 && n <= cs.len() {
            lemma_split_ws_tokens(cs.skip(n as int));
            let r = split_ws(cs);
            assert(r == seq![cs.take(n as int)] + split_ws(cs.skip(n as int)));
            assert forall|t: int| 0 <= t < r.len() implies token_ok(#[trigger] r[t]) by {
                if t == 0 {
                    assert(r[0] == cs.take(n as int));
                    assert forall|i: int| 0 <= i < r[0].len() implies !is_space(#[trigger] r[0][i]) by {
                        assert(r[0][i] == cs[i]);
                    }
                } else {
                    assert(r[t] == split_ws(cs.skip(n as int))[t - 1]);
                }
            }
        }
    }
}

/// Tokenizes `src`: delimiters `(`, `)`, `'`, `` ` ``, `,` and `,@` stand
/// alone, everything else is split at whitespace.
pub fn tokenize(src: &str) -> (r: Vec<String>)
    ensures strings_view(r@) == tokens_of(src@),
{
    let cs = chars_of(src);
    // Pad delimiters with spaces.
    let mut padded: Vec<char> = Vec::new();
    let mut i: usize = 0;
    assert(cs@.skip(0) =~= cs@);
    while i < cs.len()
        invariant
            i <= cs.len(),
            padded@ + pad(cs@.skip(i as int)) == pad(cs@),
        decreases cs.len() - i,
    {
        let c = cs[i];
        let ghost rest = cs@.skip(i as int);
        if c == ',' && i + 1 < cs.len() && cs[i + 1] == '@' {
            padded.push(' ');
            padded.push(',');
            padded.push('@');
            padded.push(' ');
            proof {
                assert(rest.skip(2) =~= cs@.skip(i + 2));
                assert(padded@ + pad(cs@.skip(i + 2)) =~= (padded@.take(padded@.len() - 4) + seq![' ', ',', '@', ' ']) + pad(rest.skip(2)));
            }
            i = i + 2;
        } else if c == '(' || c == ')' || c == '\'' || c == '`' || c == ',' {
            padded.push(' ');
            padded.push(c);
            padded.push(' ');
            proof {
                assert(rest.skip(1) =~= cs@.skip(i + 1));
                assert(padded@ + pad(cs@.skip(i + 1)) =~= (padded@.take(padded@.len() - 3) + seq![' ', c, ' ']) + pad(rest.skip(1)));
            }
            i = i + 1;
        } else {
            padded.push(c);
            proof {
                assert(rest.skip(1) =~= cs@.skip(i + 1));
                assert(padded@ + pad(cs@.skip(i + 1)) =~= (padded@.take(padded@.len() - 1) + seq![c]) + pad(rest.skip(1)));
            }
            i = i + 1;
        }
    }
    assert(cs@.skip(i as int) =~= Seq::<char>::empty());
    assert(padded@ =~= pad(cs@));
    // Split at whitespace.
    let ghost p = padded@;
    let mut out: Vec<String> = Vec::new();
    let mut j: usize = 0;
    assert(p.skip(0) =~= p);
    while j < padded.len()
        invariant
            p == padded@,
            j <= padded.len(),
            strings_view(out@) + split_ws(p.skip(j as int)) == split_ws(p),
        decreases padded.len() - j,
    {
        if char_is_space(padded[j]) {
            assert(p.skip(j as int).skip(1) =~= p.skip(j + 1));
            j = j + 1;
        } else {
            let ghost s = p.skip(j as int);
            let mut word: Vec<char> = Vec::new();
            let mut k: usize = j;
            proof { lemma_word_len(s); }
            while k < padded.len() && !char_is_space(padded[k])
                invariant
                    p == padded@,
                    j <= k <= padded.len(),
                    s == p.skip(j as int),
                    word@ == p.subrange(j as int, k as int),
                    word_len(s) == (k - j) + word_len(p.skip(k as int)),
                decreases padded.len() - k,
            {
                assert(p.skip(k as int).skip(1) =~= p.skip(k + 1));
                word.push(padded[k]);
                k = k + 1;
                assert(word@ =~= p.subrange(j as int, k as int));
            }
            proof {
                if k < padded.len() {
                    assert(is_space(p.skip(k as int)[0]));
                }
                assert(word_len(s) == k - j);
                assert(s.take((k - j) as int) =~= word@);
                assert(s.skip((k - j) as int) =~= p.skip(k as int));
            }
            let w = string_of(word.as_slice());
            let ghost old_out = out@;
            out.push(w);
            proof {
                assert(strings_view(out@) =~= strings_view(old_out).push(w@));
                assert(strings_view(out@) + split_ws(p.skip(k as int)) =~= strings_view(old_out) + (seq![word@] + split_ws(p.skip(k as int))));
            }
            j = k;
        }
    }
    assert(p.skip(j as int) =~= Seq::<char>::empty());
    assert(strings_view(out@) =~= split_ws(p));
    out
}

/// The expression an atom token stands for, given what reading it as a
/// number gave.
pub open spec fn atom(t: Seq<char>, n: Option<u64>) -> SExpr {
    match n {
        Some(b) => SExpr::Number(b),
        None => SExpr::Symbol(t),
    }
}

/// Tokens that introduce a quoting form, and the form's head symbol.
pub open spec fn quote_head(t: Seq<char>) -> Option<Seq<char>> {
    if t == "'"@ {
        Some("quote"@)
    } else if t == "`"@ {
        Some("quasiquote"@)
    } else if t == ","@ {
        Some("unquote"@)
    } else if t == ",@"@ {
        Some("unquote-splicing"@)
    } else {
        None
    }
}

/// Parses one expression starting at token `pos`; gives the result and the
/// position after what was consumed.  `nums[i]` is what reading token `i`
/// as a number gave.
pub open spec fn parse_one(toks: Seq<Seq<char>>, nums: Seq<Option<u64>>, pos: nat) -> (Result<SExpr, Seq<char>>, nat)
    decreases toks.len() - pos, 0nat,
{
    if pos >= toks.len() {
        (Err("unexpected EOF"@), pos)
    } else {
        let t = toks[pos as int];
        if t == "("@ {
            parse_items(toks, nums, pos + 1, Seq::empty())
        } else if t == ")"@ {
            (Err("unexpected )"@), pos + 1)
        } else if quote_head(t) is Some {
            let (r, p) = parse_one(toks, nums, pos + 1);
            match r {
                Ok(e) => (Ok(SExpr::List(seq![SExpr::Symbol(quote_head(t)->0), e])), p),
                Err(m) => (Err(m), p),
            }
        } else {
            (Ok(atom(t, nums[pos as int])), pos + 1)
        }
    }
}

/// Parses list items from `pos` up to the closing `)`, after `acc`.
pub open spec fn parse_items(toks: Seq<Seq<char>>, nums: Seq<Option<u64>>, pos: nat, acc: Seq<SExpr>) -> (Result<SExpr, Seq<char>>, nat)
    decreases toks.len() - pos, 1nat,
{
    if pos < toks.len() && toks[pos as int] == ")"@ {
        (Ok(SExpr::List(acc)), pos + 1)
    } else if pos >= toks.len() {
        (Err("unexpected EOF in list"@), pos)
    } else {
        let (r, p) = parse_one(toks, nums, pos);
        match r {
            Ok(e) => if pos < p <= toks.len() {
                parse_items(toks, nums, p, acc.push(e))
            } else {
                (Err("unexpected EOF in list"@), p)
            },
            Err(m) => (Err(m), p),
        }
    }
}

/// Parses all expressions from `pos` to the end, after `acc`.
pub open spec fn parse_seq(toks: Seq<Seq<char>>, nums: Seq<Option<u64>>, pos: nat, acc: Seq<SExpr>) -> Result<Seq<SExpr>, Seq<char>>
    decreases toks.len() - pos,
{
    if pos >= toks.len() {
        Ok(acc)
    } else {
        let (r, p) = parse_one(toks, nums, pos);
        match r {
            Ok(e) => if pos < p <= toks.len() { parse_seq(toks, nums, p, acc.push(e)) } else { Err("unexpected EOF"@) },
            Err(m) => Err(m),
        }
    }
}

/// `parse_one` consumes at least one token and never runs past the end.
pub proof fn lemma_parse_progress(toks: Seq<Seq<char>>, nums: Seq<Option<u64>>, pos: nat)
    requires pos < toks.len(),
    ensures pos < parse_one(toks, nums, pos).1 <= toks.len(),
    decreases toks.len() - pos, 0nat,
{
    let t = toks[pos as int];
    if t == "("@ {
        lemma_items_progress(toks, nums, pos + 1, Seq::empty());
    } else if t == ")"@ {
    } else if quote_head(t) is Some {
        if pos + 1 < toks.len() {
            lemma_parse_progress(toks, nums, pos + 1);
        }
        let (r, p) = parse_one(toks, nums, pos + 1);
        assert(parse_one(toks, nums, pos).1 == p);
    }
}

proof fn lemma_items_progress(toks: Seq<Seq<char>>, nums: Seq<Option<u64>>, pos: nat, acc: Seq<SExpr>)
    requires pos <= toks.len(),
    ensures pos <= parse_items(toks, nums, pos, acc).1 <= toks.len(),
    decreases toks.len() - pos, 1nat,
{
    if pos < toks.len() && toks[pos as int] == ")"@ {
    } else if pos >= toks.len() {
    } else {
        lemma_parse_progress(toks, nums, pos);
        let (r, p) = parse_one(toks, nums, pos);
        if r is Ok {
            lemma_items_progress(toks, nums, p, acc.push(r->Ok_0));
        }
    }
}

/// Parses one expression at `*pos`, advancing `*pos` past it, where
/// `nums[i]` is what token `i` reads as a number (`None` for a symbol).
pub fn parse_at(toks: &[String], nums: &Vec<Option<u64>>, pos: &mut usize) -> (r: Result<Expr, String>)
    requires nums@.len() == toks@.len(), *old(pos) <= toks@.len(),
    ensures
        ({
            let (sr, sp) = parse_one(strings_view(toks@), nums@, *old(pos) as nat);
            &&& *final(pos) == sp
            &&& match sr {
                Ok(e) => r is Ok && r->Ok_0@ == e,
                Err(m) => r is Err && r->Err_0@ == m,
            }
        }),
        *final(pos) <= toks@.len(),
    decreases toks@.len() - *old(pos), 0nat,
{
    let ghost ts = strings_view(toks@);
    let ghost p0 = *pos as nat;
    if *pos >= toks.len() {
        return Err(owned("unexpected EOF"));
    }
    let tok = &toks[*pos];
    assert(tok@ == ts[p0 as int]);
    *pos = *pos + 1;
    if str_eq(tok.as_str(), "(") {
        let mut list: Vec<Expr> = Vec::new();
        loop
            invariant
                nums@.len() == toks@.len(),
                ts == strings_view(toks@),
                p0 < *pos <= toks@.len(),
                p0 == *old(pos) as nat,
                parse_one(ts, nums@, p0) == parse_items(ts, nums@, *pos as nat, exprs_view(list@)),
            decreases toks@.len() - *pos,
        {
            proof {
                if *pos < toks@.len() {
                    assert(ts[*pos as int] == toks@[*pos as int]@);
                }
            }
            if *pos < toks.len() && str_eq(toks[*pos].as_str(), ")") {
                *pos = *pos + 1;
                return Ok(Expr::List(list));
            }
            if *pos >= toks.len() {
                return Err(owned("unexpected EOF in list"));
            }
            let ghost before = *pos as nat;
            proof { lemma_parse_progress(ts, nums@, before); }
            let e = parse_at(toks, nums, pos);
            match e {
                Ok(e) => {
                    let ghost old_list = list@;
                    list.push(e);
                    proof { lemma_exprs_view_push(old_list, e); }
                },
                Err(m) => { return Err(m); },
            }
        }
    } else if str_eq(tok.as_str(), ")") {
        Err(owned("unexpected )"))
    } else if str_eq(tok.as_str(), "'") || str_eq(tok.as_str(), "`") || str_eq(tok.as_str(), ",")
        || str_eq(tok.as_str(), ",@") {
        let head = if str_eq(tok.as_str(), "'") {
            sym("quote")
        } else if str_eq(tok.as_str(), "`") {
            sym("quasiquote")
        } else if str_eq(tok.as_str(), ",") {
            sym("unquote")
        } else {
            sym("unquote-splicing")
        };
        let inner = parse_at(toks, nums, pos)?;
        let v = vec![head, inner];
        proof {
            lemma_exprs_view(v@);
            assert(exprs_view(v@) =~= seq![head@, inner@]);
        }
        Ok(Expr::List(v))
    } else {
        let n = nums[*pos - 1];
        match n {
            Some(b) => Ok(Expr::Number(b)),
            None => Ok(Expr::Symbol(tok.clone())),
        }
    }
}

/// The number a host's answer to a reading request gives.
pub open spec fn number_of(a: Result<SExpr, Seq<char>>) -> Option<u64> {
    match a {
        Ok(SExpr::Number(b)) => Some(b),
        _ => None,
    }
}

/// Readings of the tokens `ts`, asked of the host from position `k0` of
/// its answers `o` on.
pub open spec fn readings(ts: Seq<Seq<char>>, k0: nat, o: Answers) -> Seq<Option<u64>> {
    Seq::new(ts.len(), |i: int| number_of(o((k0 + i) as nat)))
}

/// The exchanges of reading each of `ts`, from position `k0` of `o` on.
pub open spec fn read_log(ts: Seq<Seq<char>>, k0: nat, o: Answers) -> Seq<Exchange> {
    Seq::new(ts.len(), |i: int| (Request::ReadNumber(ts[i]), o((k0 + i) as nat)))
}

/// Heap state `h` after asking the host to read each of `ts`.
pub open spec fn read_all(h: HeapV, ts: Seq<Seq<char>>, o: Answers) -> HeapV {
    HeapV { log: h.log + read_log(ts, h.log.len(), o), ..h }
}

/// Asks the host to read each token as a number, in order.
fn read_numbers<H: Host>(toks: &[String], heap: &mut Heap, host: &H) -> (r: Vec<Option<u64>>)
    ensures
        r@.len() == toks@.len(),
        final(heap)@.frames == old(heap)@.frames,
        forall|o: Answers| #[trigger] consistent(final(heap).calls(), o) ==>
            consistent(old(heap).calls(), o)
            && final(heap)@ == read_all(old(heap)@, strings_view(toks@), o)
            && r@ == readings(strings_view(toks@), old(heap)@.log.len(), o),
{
    let ghost ts = strings_view(toks@);
    let ghost h0 = heap@;
    let ghost k0 = heap@.log.len();
    let mut out: Vec<Option<u64>> = Vec::new();
    let mut i: usize = 0;
    proof {
        assert forall|o: Answers| #[trigger] consistent(heap.calls(), o) implies
            consistent(old(heap).calls(), o)
            && heap@ == read_all(h0, ts.take(0), o)
            && out@ == readings(ts.take(0), k0, o) by {
            assert(read_log(ts.take(0), k0, o) =~= Seq::<Exchange>::empty());
            assert(h0.log + Seq::<Exchange>::empty() =~= h0.log);
            assert(readings(ts.take(0), k0, o) =~= Seq::<Option<u64>>::empty());
        }
    }
    while i < toks.len()
        invariant
            i <= toks@.len(),
            ts == strings_view(toks@),
            h0 == old(heap)@,
            k0 == h0.log.len(),
            out@.len() == i,
            heap@.frames == h0.frames,
            heap@.log.len() == k0 + i,
            forall|o: Answers| #[trigger] consistent(heap.calls(), o) ==>
                consistent(old(heap).calls(), o)
                && heap@ == read_all(h0, ts.take(i as int), o)
                && out@ == readings(ts.take(i as int), k0, o),
        decreases toks@.len() - i,
    {
        let ghost hb = heap@;
        let ghost ob = out@;
        let x = heap.ask_read_number(host, toks[i].as_str());
        out.push(x);
        proof {
            assert forall|o: Answers| #[trigger] consistent(heap.calls(), o) implies
                consistent(old(heap).calls(), o)
                && heap@ == read_all(h0, ts.take(i + 1), o)
                && out@ == readings(ts.take(i + 1), k0, o) by {
                assert(consistent(hb.log, o));
                assert(o(hb.log.len()) == heap.calls().last().1);
                assert(ts[i as int] == toks@[i as int]@);
                assert(read_log(ts.take(i + 1), k0, o) =~= read_log(ts.take(i as int), k0, o).push((Request::ReadNumber(ts[i as int]), o((k0 + i) as nat))));
                assert(heap@.log =~= h0.log + read_log(ts.take(i + 1), k0, o));
                assert(out@ =~= readings(ts.take(i + 1), k0, o));
            }
        }
        i = i + 1;
    }
    assert(ts.take(i as int) =~= ts);
    out
}

/// Parses a single expression starting at `*pos`, advancing `*pos` past it.
/// Every token is first read as a number by the host (the answers recorded
/// in `heap`); atoms it reads as numbers become numbers, the others symbols.
pub fn parse<H: Host>(tokens: &[String], pos: &mut usize, heap: &mut Heap, host: &H) -> (r: Result<Expr, String>)
    ensures
        final(heap)@.frames == old(heap)@.frames,
        *old(pos) > tokens@.len() ==> r is Err && r->Err_0@ == "unexpected EOF"@ && *final(pos) == *old(pos) && final(heap)@ == old(heap)@,
        *old(pos) <= tokens@.len() ==> forall|o: Answers| #[trigger] consistent(final(heap).calls(), o) ==> {
            let (sr, sp) = parse_one(strings_view(tokens@), readings(strings_view(tokens@), old(heap)@.log.len(), o), *old(pos) as nat);
            &&& consistent(old(heap).calls(), o)
            &&& final(heap)@ == read_all(old(heap)@, strings_view(tokens@), o)
            &&& *final(pos) == sp
            &&& match sr {
                Ok(e) => r is Ok && r->Ok_0@ == e,
                Err(m) => r is Err && r->Err_0@ == m,
            }
        },
{
    if *pos > tokens.len() {
        return Err(owned("unexpected EOF"));
    }
    let nums = read_numbers(tokens, heap, host);
    let r = parse_at(tokens, &nums, pos);
    r
}

/// Parses a whole token sequence, where `nums[i]` is what token `i` reads
/// as a number (`None` for a symbol).
pub fn parse_tokens(toks: &[String], nums: &Vec<Option<u64>>) -> (r: Result<Vec<Expr>, String>)
    requires nums@.len() == toks@.len(),
    ensures
        match parse_seq(strings_view(toks@), nums@, 0, Seq::empty()) {
            Ok(es) => r is Ok && exprs_view(r->Ok_0@) == es,
            Err(m) => r is Err && r->Err_0@ == m,
        },
{
    let ghost ts = strings_view(toks@);
    let mut pos: usize = 0;
    let mut exprs: Vec<Expr> = Vec::new();
    while pos < toks.len()
        invariant
            nums@.len() == toks@.len(),
            ts == strings_view(toks@),
            pos <= toks@.len(),
            parse_seq(ts, nums@, 0, Seq::empty()) == parse_seq(ts, nums@, pos as nat, exprs_view(exprs@)),
        decreases toks@.len() - pos,
    {
        proof { lemma_parse_progress(ts, nums@, pos as nat); }
        let e = parse_at(toks, nums, &mut pos)?;
        let ghost old_exprs = exprs@;
        exprs.push(e);
        proof { lemma_exprs_view_push(old_exprs, e); }
    }
    Ok(exprs)
}

/// Parses an entire source string into its top-level expressions.  Every
/// token is first read as a number by the host (see [`parse`]).
pub fn parse_all<H: Host>(src: &str, heap: &mut Heap, host: &H) -> (r: Result<Vec<Expr>, String>)
    ensures
        final(heap)@.frames == old(heap)@.frames,
        forall|o: Answers| #[trigger] consistent(final(heap).calls(), o) ==> {
            &&& consistent(old(heap).calls(), o)
            &&& final(heap)@ == read_all(old(heap)@, tokens_of(src@), o)
            &&& match parse_seq(tokens_of(src@), readings(tokens_of(src@), old(heap)@.log.len(), o), 0, Seq::empty()) {
                Ok(es) => r is Ok && exprs_view(r->Ok_0@) == es,
                Err(m) => r is Err && r->Err_0@ == m,
            }
        },
{
    let toks = tokenize(src);
    let nums = read_numbers(toks.as_slice(), heap, host);
    let r = parse_tokens(toks.as_slice(), &nums);
    r
}

/// Position of the first element of `ps` that is not a symbol (its length
/// when there is none).
pub open spec fn first_non_symbol(ps: Seq<SExpr>) -> nat
    decreases ps.len(),
{
    if ps.len() == 0 {
        0
    } else if !(ps[0] is Symbol) {
        0
    } else {
        1 + first_non_symbol(ps.skip(1))
    }
}

proof fn lemma_first_non_symbol(ps: Seq<SExpr>, i: int)
    requires
        0 <= i < ps.len(),
        !(ps[i] is Symbol),
        forall|j: int| 0 <= j < i ==> #[trigger] ps[j] is Symbol,
    ensures first_non_symbol(ps) == i,
    decreases i,
{
    if i > 0 {
        assert(ps[0] is Symbol);
        assert forall|j: int| 0 <= j < i - 1 implies #[trigger] ps.skip(1)[j] is Symbol by {
            assert(ps.skip(1)[j] == ps[j + 1]);
        }
        lemma_first_non_symbol(ps.skip(1), i - 1);
    }
}

/// Parameter lists: a list of symbols, a bare symbol (one parameter), or
/// anything else (no parameters).  A list with an element that is not a
/// symbol gives the first such element.
pub open spec fn params_of(e: SExpr) -> Result<Seq<Seq<char>>, SExpr> {
    match e {
        SExpr::List(ps) => if forall|i: int| 0 <= i < ps.len() ==> #[trigger] ps[i] is Symbol {
            Ok(ps.map_values(|p: SExpr| p->Symbol_0))
        } else {
            Err(ps[first_non_symbol(ps) as int])
        },
        SExpr::Symbol(s) => Ok(seq![s]),
        _ => Ok(Seq::empty()),
    }
}

/// The names of a parameter list `(a b c)`, or its first element that is
/// not a symbol.
pub fn params_checked(e: &Expr) -> (r: Result<Vec<String>, Expr>)
    ensures
        match params_of(e@) {
            Ok(ps) => r is Ok && strings_view(r->Ok_0@) == ps,
            Err(v) => r is Err && r->Err_0@ == v,
        },
{
    match e {
        Expr::List(p) => {
            proof { lemma_exprs_view(p@); }
            let ghost ps = exprs_view(p@);
            assert(e@ == SExpr::List(ps));
            let mut out: Vec<String> = Vec::new();
            let mut i: usize = 0;
            while i < p.len()
                invariant
                    ps == exprs_view(p@),
                    e@ == SExpr::List(ps),
                    ps.len() == p@.len(),
                    forall|j: int| 0 <= j < p@.len() ==> ps[j] == crate::expr::expr_view(#[trigger] p@[j]),
                    i <= p.len(),
                    out@.len() == i,
                    forall|j: int| 0 <= j < i ==> #[trigger] ps[j] is Symbol && out@[j]@ == ps[j]->Symbol_0,
                decreases p.len() - i,
            {
                match &p[i] {
                    Expr::Symbol(s) => {
                        out.push(s.clone());
                    },
                    other => {
                        assert(!(ps[i as int] is Symbol));
                        assert(!(forall|j: int| 0 <= j < ps.len() ==> #[trigger] ps[j] is Symbol));
                        proof { lemma_first_non_symbol(ps, i as int); }
                        return Err(other.deep_clone());
                    },
                }
                i = i + 1;
            }
            assert(strings_view(out@) =~= ps.map_values(|q: SExpr| q->Symbol_0));
            Ok(out)
        },
        Expr::Symbol(s) => {
            let v = vec![s.clone()];
            assert(strings_view(v@) =~= seq![s@]);
            Ok(v)
        },
        _ => {
            let v: Vec<String> = Vec::new();
            assert(strings_view(v@) =~= Seq::<Seq<char>>::empty());
            Ok(v)
        },
    }
}

/// The message for a parameter list with an element that is not a symbol,
/// before the element.
pub open spec fn param_error_prefix() -> Seq<char> {
    "parse_params: expected symbol in parameter list, got "@
}

/// Parses a parameter list `(a b c)` into names; fails, naming the first
/// element that is not a symbol (numbers in it shown by the host).
pub fn parse_params<H: Host>(e: &Expr, heap: &mut Heap, host: &H) -> (r: Result<Vec<String>, String>)
    ensures
        final(heap)@.frames == old(heap)@.frames,
        forall|o: Answers| #[trigger] consistent(final(heap).calls(), o) ==> {
            &&& consistent(old(heap).calls(), o)
            &&& match params_of(e@) {
                Ok(ps) => r is Ok && strings_view(r->Ok_0@) == ps && final(heap)@ == old(heap)@,
                Err(v) => r is Err
                    && (crate::builtins::Outcome::Error(r->Err_0@), final(heap)@)
                        == crate::render::fail_with(param_error_prefix(), v, old(heap)@, o),
            }
        },
{
    match params_checked(e) {
        Ok(ps) => Ok(ps),
        Err(v) => Err(crate::render::fail_message("parse_params: expected symbol in parameter list, got ", &v, heap, host)),
    }
}

/// Padding a text followed by one starting with a space pads each part.
pub proof fn lemma_pad_concat(a: Seq<char>, c: Seq<char>)
    requires c.len() > 0, c[0] == ' ',
    ensures pad(a + c) == pad(a) + pad(c),
    decreases a.len(),
{
    if a.len() == 0 {
        assert(a + c =~= c);
        assert(Seq::<char>::empty() + pad(c) =~= pad(c));
    } else {
        let x = a + c;
        assert(x[0] == a[0]);
        if a.len() >= 2 && a[0] == ',' && a[1] == '@' {
            assert(x[1] == a[1]);
            assert(x.skip(2) =~= a.skip(2) + c);
            lemma_pad_concat(a.skip(2), c);
            assert(pad(x) =~= pad(a) + pad(c));
        } else {
            assert(!(x.len() >= 2 && x[0] == ',' && x[1] == '@')) by {
                if a.len() == 1 { assert(x[1] == c[0]); } else { assert(x[1] == a[1]); }
            }
            assert(x.skip(1) =~= a.skip(1) + c);
            lemma_pad_concat(a.skip(1), c);
            assert(pad(x) =~= pad(a) + pad(c));
        }
    }
}

/// A word stops at the space that follows it.
proof fn lemma_word_len_concat(x: Seq<char>, r: Seq<char>)
    requires r.len() > 0, is_space(r[0]),
    ensures word_len(x + r) == word_len(x),
    decreases x.len(),
{
    if x.len() == 0 {
        assert(x + r =~= r);
    } else {
        assert((x + r)[0] == x[0]);
        if !is_space(x[0]) {
            assert((x + r).skip(1) =~= x.skip(1) + r);
            lemma_word_len_concat(x.skip(1), r);
        }
    }
}

/// Splitting at whitespace a text, a space and another text splits each.
pub proof fn lemma_split_ws_concat(x: Seq<char>, y: Seq<char>)
    ensures split_ws(x + seq![' '] + y) == split_ws(x) + split_ws(y),
    decreases x.len(),
{
    let s = x + seq![' '] + y;
    if x.len() == 0 {
        assert(s =~= seq![' '] + y);
        assert(s.skip(1) =~= y);
        assert(Seq::<Seq<char>>::empty() + split_ws(y) =~= split_ws(y));
    } else if is_space(x[0]) {
        assert(s[0] == x[0]);
        assert(s.skip(1) =~= x.skip(1) + seq![' '] + y);
        lemma_split_ws_concat(x.skip(1), y);
    } else {
        assert(s[0] == x[0]);
        let r = seq![' '] + y;
        assert(s =~= x + r);
        lemma_word_len_concat(x, r);
        lemma_word_len(x);
        let n = word_len(x);
        assert(n > 0);
        assert(s.take(n as int) =~= x.take(n as int));
        assert(s.skip(n as int) =~= x.skip(n as int) + seq![' '] + y);
        lemma_split_ws_concat(x.skip(n as int), y);
        assert(split_ws(s) =~= split_ws(x) + split_ws(y));
    }
}

/// Tokens of two texts joined by a space are the tokens of each, in order.
pub proof fn lemma_tokens_concat(a: Seq<char>, b: Seq<char>)
    ensures tokens_of(a + seq![' '] + b) == tokens_of(a) + tokens_of(b),
{
    let c = seq![' '] + b;
    assert(a + seq![' '] + b =~= a + c);
    lemma_pad_concat(a, c);
    assert(c[0] == ' ');
    assert(c.skip(1) =~= b);
    assert(pad(c) =~= seq![' '] + pad(b));
    assert(pad(a) + pad(c) =~= pad(a) + seq![' '] + pad(b));
    lemma_split_ws_concat(pad(a), pad(b));
}

/// An expression read whole from the first tokens reads the same with more
/// tokens after them.
pub proof fn lemma_parse_one_prefix(t1: Seq<Seq<char>>, n1: Seq<Option<u64>>, t2: Seq<Seq<char>>, n2: Seq<Option<u64>>, pos: nat)
    requires n1.len() == t1.len(), parse_one(t1, n1, pos).0 is Ok,
    ensures parse_one(t1 + t2, n1 + n2, pos) == parse_one(t1, n1, pos),
    decreases t1.len() - pos, 0nat,
{
    let t = t1 + t2;
    let n = n1 + n2;
    assert(pos < t1.len());
    assert(t[pos as int] == t1[pos as int]);
    let w = t1[pos as int];
    if w == "("@ {
        lemma_parse_items_prefix(t1, n1, t2, n2, pos + 1, Seq::empty());
    } else if w == ")"@ {
    } else if quote_head(w) is Some {
        lemma_parse_one_prefix(t1, n1, t2, n2, pos + 1);
    } else {
        assert(n[pos as int] == n1[pos as int]);
    }
}

/// The same for the items of a list.
pub proof fn lemma_parse_items_prefix(t1: Seq<Seq<char>>, n1: Seq<Option<u64>>, t2: Seq<Seq<char>>, n2: Seq<Option<u64>>, pos: nat, acc: Seq<SExpr>)
    requires n1.len() == t1.len(), parse_items(t1, n1, pos, acc).0 is Ok,
    ensures parse_items(t1 + t2, n1 + n2, pos, acc) == parse_items(t1, n1, pos, acc),
    decreases t1.len() - pos, 1nat,
{
    let t = t1 + t2;
    assert(pos < t1.len());
    assert(t[pos as int] == t1[pos as int]);
    if t1[pos as int] == ")"@ {
    } else {
        lemma_parse_one_prefix(t1, n1, t2, n2, pos);
        let (r, p) = parse_one(t1, n1, pos);
        lemma_parse_progress(t1, n1, pos);
        lemma_parse_items_prefix(t1, n1, t2, n2, p, acc.push(r->Ok_0));
    }
}

/// Reading from a position in the second part of a token sequence reads
/// that part alone, shifted.
pub proof fn lemma_parse_one_shift(t1: Seq<Seq<char>>, n1: Seq<Option<u64>>, t2: Seq<Seq<char>>, n2: Seq<Option<u64>>, q: nat)
    requires n1.len() == t1.len(), n2.len() == t2.len(),
    ensures ({
        let (r, p) = parse_one(t2, n2, q);
        parse_one(t1 + t2, n1 + n2, t1.len() + q) == (r, t1.len() + p)
    }),
    decreases t2.len() - q, 0nat,
{
    let t = t1 + t2;
    let n = n1 + n2;
    let l = t1.len();
    if q < t2.len() {
        assert(t[(l + q) as int] == t2[q as int]);
        assert(n[(l + q) as int] == n2[q as int]);
        let w = t2[q as int];
        if w == "("@ {
            lemma_parse_items_shift(t1, n1, t2, n2, q + 1, Seq::empty());
        } else if w == ")"@ {
        } else if quote_head(w) is Some {
            lemma_parse_one_shift(t1, n1, t2, n2, q + 1);
        }
    }
}

/// The same for the items of a list.
pub proof fn lemma_parse_items_shift(t1: Seq<Seq<char>>, n1: Seq<Option<u64>>, t2: Seq<Seq<char>>, n2: Seq<Option<u64>>, q: nat, acc: Seq<SExpr>)
    requires n1.len() == t1.len(), n2.len() == t2.len(),
    ensures ({
        let (r, p) = parse_items(t2, n2, q, acc);
        parse_items(t1 + t2, n1 + n2, t1.len() + q, acc) == (r, t1.len() + p)
    }),
    decreases t2.len() - q, 1nat,
{
    let t = t1 + t2;
    let l = t1.len();
    if q < t2.len() {
        assert(t[(l + q) as int] == t2[q as int]);
        if t2[q as int] != ")"@ {
            lemma_parse_one_shift(t1, n1, t2, n2, q);
            lemma_parse_progress(t2, n2, q);
            let (r, p) = parse_one(t2, n2, q);
            if r is Ok {
                lemma_parse_items_shift(t1, n1, t2, n2, p, acc.push(r->Ok_0));
            }
        }
    }
}

/// Reading all of the second part of a token sequence from its position on.
pub proof fn lemma_parse_seq_shift(t1: Seq<Seq<char>>, n1: Seq<Option<u64>>, t2: Seq<Seq<char>>, n2: Seq<Option<u64>>, q: nat, acc: Seq<SExpr>)
    requires n1.len() == t1.len(), n2.len() == t2.len(),
    ensures parse_seq(t1 + t2, n1 + n2, t1.len() + q, acc) == parse_seq(t2, n2, q, acc),
    decreases t2.len() - q,
{
    if q < t2.len() {
        lemma_parse_one_shift(t1, n1, t2, n2, q);
        lemma_parse_progress(t2, n2, q);
        let (r, p) = parse_one(t2, n2, q);
        if r is Ok {
            lemma_parse_seq_shift(t1, n1, t2, n2, p, acc.push(r->Ok_0));
        }
    }
}

/// What was read before is kept, in front.
pub proof fn lemma_parse_seq_acc(ts: Seq<Seq<char>>, ns: Seq<Option<u64>>, pos: nat, a: Seq<SExpr>, acc: Seq<SExpr>)
    requires ns.len() == ts.len(),
    ensures
        match parse_seq(ts, ns, pos, acc) {
            Ok(xs) => parse_seq(ts, ns, pos, a + acc) == Ok::<Seq<SExpr>, Seq<char>>(a + xs),
            Err(m) => parse_seq(ts, ns, pos, a + acc) == Err::<Seq<SExpr>, Seq<char>>(m),
        },
    decreases ts.len() - pos,
{
    if pos < ts.len() {
        lemma_parse_progress(ts, ns, pos);
        let (r, p) = parse_one(ts, ns, pos);
        if r is Ok {
            assert((a + acc).push(r->Ok_0) =~= a + acc.push(r->Ok_0));
            lemma_parse_seq_acc(ts, ns, p, a, acc.push(r->Ok_0));
        }
    }
}

/// Reading the first part to its end, then going on into the second.
pub proof fn lemma_parse_seq_prefix(t1: Seq<Seq<char>>, n1: Seq<Option<u64>>, t2: Seq<Seq<char>>, n2: Seq<Option<u64>>, pos: nat, acc: Seq<SExpr>)
    requires n1.len() == t1.len(), pos <= t1.len(), parse_seq(t1, n1, pos, acc) is Ok,
    ensures parse_seq(t1 + t2, n1 + n2, pos, acc) == parse_seq(t1 + t2, n1 + n2, t1.len(), parse_seq(t1, n1, pos, acc)->Ok_0),
    decreases t1.len() - pos,
{
    if pos < t1.len() {
        lemma_parse_progress(t1, n1, pos);
        let (r, p) = parse_one(t1, n1, pos);
        lemma_parse_one_prefix(t1, n1, t2, n2, pos);
        lemma_parse_seq_prefix(t1, n1, t2, n2, p, acc.push(r->Ok_0));
    }
}

/// The host's readings of two token sequences in a row.
pub proof fn lemma_readings_concat(t1: Seq<Seq<char>>, t2: Seq<Seq<char>>, k0: nat, o: Answers)
    ensures readings(t1 + t2, k0, o) == readings(t1, k0, o) + readings(t2, k0 + t1.len(), o),
{
    assert(readings(t1 + t2, k0, o) =~= readings(t1, k0, o) + readings(t2, k0 + t1.len(), o));
}

} // verus!
