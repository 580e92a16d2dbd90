//! A small Lisp with a cubical flavour: reader, De Bruijn compiler,
//! tree-walking evaluator and cubical/dependent-type primitives.

pub mod builtins;
pub mod compiler;
pub mod cubical;
pub mod eval;
pub mod expr;
pub mod gc;
pub mod host;
pub mod laws;
pub mod num;
pub mod reader;
pub mod render;
pub mod semantics;
pub mod text;
pub mod vm;

use vstd::prelude::*;
use crate::builtins::{global_env, library_bound, bind_natives, empty_frame, initial_heap, asked_names};
use crate::eval::{agrees, eval_tree, run_spec, tree_spec};
use crate::expr::{Expr, SExpr, exprs_view, lemma_exprs_view};
use crate::gc::{GcHandle, Heap};
use crate::host::{Host, Answers, Exchange, consistent, names_of};
use crate::reader::{parse_all, parse_seq, tokens_of, readings, read_all};
use crate::semantics::{HeapV, nil};

verus! {

/// An interpreter: a heap holding the global environment, and the host
/// that supplies numbers and I/O.
pub struct PiLisp<H: Host> {
    heap: Heap,
    env: GcHandle,
    host: H,
}

impl<H: Host> PiLisp<H> {
    /// The frames of the heap.
    pub closed spec fn heap_view(&self) -> HeapV {
        self.heap@
    }

    /// The exchanges with the host recorded so far.
    pub closed spec fn calls(&self) -> Seq<Exchange> {
        self.heap.calls()
    }

    /// The global environment.
    pub closed spec fn env_view(&self) -> nat {
        self.env as nat
    }

    /// The heap is well formed and holds the global environment.
    pub closed spec fn wf(&self) -> bool {
        self.heap.wf() && self.env < self.heap@.len()
    }

    /// A fresh interpreter whose global environment holds the host's
    /// primitives and then the library's.
    pub fn new(host: H) -> (s: Self)
        ensures
            s.wf(),
            s.env_view() == 0,
            forall|o: Answers| #[trigger] consistent(s.calls(), o) ==>
                s.heap_view() == library_bound(bind_natives(asked_names(initial_heap(), o), 0, names_of(o(0))), 0),
    {
        let mut heap = Heap::new();
        let ghost h0 = heap@;
        let env = global_env(&mut heap, &host);
        assert(h0.push(empty_frame()).frames =~= initial_heap().frames);
        assert(h0.push(empty_frame()) == initial_heap());
        PiLisp { heap, env, host }
    }

    /// Checks that the heap is well formed and holds the global environment
    /// (which direct changes through [`PiLisp::heap`] may undo).
    pub fn ready(&self) -> (b: bool)
        ensures b == self.wf(),
    {
        self.heap.check_wf() && self.env < self.heap.len()
    }

    /// The global environment's handle.
    pub fn env(&self) -> (r: GcHandle)
        ensures r as nat == self.env_view(),
    {
        self.env
    }

    /// The heap, for direct use.
    pub fn heap(&mut self) -> (r: &mut Heap)
        ensures
            r@ == old(self).heap_view(),
            final(self).heap_view() == final(r)@,
            r.calls() == old(self).calls(),
            final(self).calls() == final(r).calls(),
            final(self).env_view() == old(self).env_view(),
            final(self).wf() == (final(r).wf() && old(self).env_view() < final(r)@.len()),
    {
        &mut self.heap
    }

    /// Reads `src` and evaluates its expressions in turn, giving the value
    /// of the last one (the empty list if there is none).  For every host
    /// whose answers agree with the exchanges recorded during the call, the
    /// result and the heap are what the semantics gives: first each token is
    /// read as a number, then the expressions are evaluated.
    pub fn eval(&mut self, src: &str) -> (r: Result<Expr, String>)
        requires old(self).wf(),
        ensures
            final(self).wf(),
            final(self).env_view() == old(self).env_view(),
            forall|o: Answers| #[trigger] consistent(final(self).calls(), o) ==> {
                let h1 = read_all(old(self).heap_view(), tokens_of(src@), o);
                &&& consistent(old(self).calls(), o)
                &&& match parse_seq(tokens_of(src@), readings(tokens_of(src@), old(self).heap_view().log.len(), o), 0, Seq::empty()) {
                    Ok(es) => agrees(r, final(self).heap_view(), run_spec(es, old(self).env_view(), h1, nil(), o)),
                    Err(m) => r is Err && r->Err_0@ == m && final(self).heap_view() == h1,
                }
            },
    {
        let ghost hs = self.heap@;
        let parsed = parse_all(src, &mut self.heap, &self.host);
        proof { crate::gc::lemma_wf_frames(hs, self.heap@); }
        let ghost hp = self.heap@;
        let ghost cp = self.heap.calls();
        let exprs = match parsed {
            Ok(es) => es,
            Err(m) => {
                return Err(m);
            },
        };
        proof { lemma_exprs_view(exprs@); }
        let ghost ev = exprs_view(exprs@);
        let ghost toks = tokens_of(src@);
        let ghost k0 = hs.log.len();
        let v: Vec<Expr> = Vec::new();
        assert(exprs_view(v@) =~= Seq::<SExpr>::empty());
        let mut last = Expr::List(v);
        let mut i: usize = 0;
        assert(ev.skip(0) =~= ev);
        while i < exprs.len()
            invariant
                hs == old(self).heap@,
                cp == hp.log,
                forall|o: Answers| #[trigger] consistent(cp, o) ==>
                    consistent(old(self).heap.calls(), o)
                    && hp == read_all(hs, toks, o)
                    && parse_seq(toks, readings(toks, k0, o), 0, Seq::empty()) == Ok::<Seq<SExpr>, Seq<char>>(ev),
                toks == tokens_of(src@),
                k0 == hs.log.len(),
                i <= exprs@.len(),
                ev == exprs_view(exprs@),
                ev.len() == exprs@.len(),
                forall|j: int| 0 <= j < exprs@.len() ==> ev[j] == crate::expr::expr_view(#[trigger] exprs@[j]),
                self.heap.wf(),
                self.env < self.heap@.len(),
                self.env == old(self).env,
                forall|o: Answers| #[trigger] consistent(self.heap.calls(), o) ==> consistent(cp, o)
                    && run_spec(ev, self.env as nat, hp, nil(), o)
                        == run_spec(ev.skip(i as int), self.env as nat, self.heap@, last@, o),
            decreases exprs@.len() - i,
        {
            proof {
                assert(ev.skip(i as int)[0] == ev[i as int]);
                assert(ev.skip(i as int).skip(1) =~= ev.skip(i + 1));
            }
            let ghost hb = self.heap@;
            let ghost cb = self.heap.calls();
            let ghost lastb = last@;
            let r = eval_tree(&exprs[i], self.env, &mut self.heap, &self.host);
            match r {
                Ok(x) => {
                    last = x;
                },
                Err(m) => {
                    let r: Result<Expr, String> = Err(m);
                    proof {
                        assert forall|o: Answers| #[trigger] consistent(self.heap.calls(), o) implies {
                            let h1 = read_all(old(self).heap_view(), tokens_of(src@), o);
                            &&& consistent(old(self).calls(), o)
                            &&& match parse_seq(tokens_of(src@), readings(tokens_of(src@), old(self).heap_view().log.len(), o), 0, Seq::empty()) {
                                Ok(es) => agrees(r, self.heap_view(), run_spec(es, old(self).env_view(), h1, nil(), o)),
                                Err(m) => r is Err && r->Err_0@ == m && self.heap_view() == h1,
                            }
                        } by {
                            assert(consistent(cb, o));
                            assert(consistent(cp, o));
                        }
                    }
                    return r;
                },
            }
            i = i + 1;
            proof {
                assert forall|o: Answers| #[trigger] consistent(self.heap.calls(), o) implies consistent(cp, o)
                    && run_spec(ev, self.env as nat, hp, nil(), o)
                        == run_spec(ev.skip(i as int), self.env as nat, self.heap@, last@, o) by {
                    assert(consistent(cb, o));
                    assert(run_spec(ev.skip(i - 1), self.env as nat, hb, lastb, o)
                        == run_spec(ev.skip(i as int), self.env as nat, self.heap@, last@, o));
                }
            }
        }
        assert(ev.skip(i as int) =~= Seq::<SExpr>::empty());
        proof {
            assert forall|o: Answers| #[trigger] consistent(self.heap.calls(), o) implies consistent(cp, o) by {}
        }
        Ok(last)
    }

    /// Evaluates one surface expression.
    pub fn eval_expr(&mut self, expr: &Expr) -> (r: Result<Expr, String>)
        requires old(self).wf(),
        ensures
            final(self).wf(),
            final(self).env_view() == old(self).env_view(),
            forall|o: Answers| #[trigger] consistent(final(self).calls(), o) ==> consistent(old(self).calls(), o)
                && agrees(r, final(self).heap_view(), tree_spec(expr@, old(self).env_view(), old(self).heap_view(), o)),
    {
        eval_tree(expr, self.env, &mut self.heap, &self.host)
    }

    /// Reads the top-level expressions of `src`; every token is first read
    /// as a number by the host (see [`parse_all`]).
    pub fn parse(&mut self, src: &str) -> (r: Result<Vec<Expr>, String>)
        requires old(self).wf(),
        ensures
            final(self).wf(),
            final(self).env_view() == old(self).env_view(),
            forall|o: Answers| #[trigger] consistent(final(self).calls(), o) ==> {
                &&& consistent(old(self).calls(), o)
                &&& final(self).heap_view() == read_all(old(self).heap_view(), tokens_of(src@), o)
                &&& match parse_seq(tokens_of(src@), readings(tokens_of(src@), old(self).heap_view().log.len(), o), 0, Seq::empty()) {
                    Ok(es) => r is Ok && exprs_view(r->Ok_0@) == es,
                    Err(m) => r is Err && r->Err_0@ == m,
                }
            },
    {
        let ghost hs = self.heap@;
        let r = parse_all(src, &mut self.heap, &self.host);
        proof { crate::gc::lemma_wf_frames(hs, self.heap@); }
        r
    }
}


impl<H: Host + Default> Default for PiLisp<H> {
    /// A fresh interpreter on the host's default value.
    fn default() -> (s: Self)
        ensures
            s.wf(),
            s.env_view() == 0,
            forall|o: Answers| #[trigger] consistent(s.calls(), o) ==>
                s.heap_view() == library_bound(bind_natives(asked_names(initial_heap(), o), 0, names_of(o(0))), 0),
    {
        PiLisp::new(H::default())
    }
}

} // verus!
