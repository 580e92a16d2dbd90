//! The interpreter of the stack machine.

use vstd::prelude::*;
use crate::eval::{agrees, apply_fuel, eval_macro, ready};
use crate::expr::{Expr, LexEnv, SExpr, exprs_view, lemma_exprs_view, lemma_exprs_view_push, is_truthy};
use crate::gc::{GcHandle, Heap, env_get};
use crate::host::Host;
use crate::text::owned;
use super::bytecode::{Instr, VmOut, run, vm_outcome, code_view, instr_view};
use crate::host::{Answers, consistent};

verus! {

proof fn lemma_exprs_view_subrange(s: Seq<Expr>, a: int, b: int)
    requires 0 <= a <= b <= s.len(),
    ensures exprs_view(s.subrange(a, b)) == exprs_view(s).subrange(a, b),
{
    lemma_exprs_view(s);
    lemma_exprs_view(s.subrange(a, b));
    assert(exprs_view(s.subrange(a, b)) =~= exprs_view(s).subrange(a, b));
}

/// Runs `code` from its first instruction with an empty stack in global
/// frame `g`; the result is the single value left on the stack.
pub fn run_code<H: Host>(code: &Vec<Instr>, g: GcHandle, heap: &mut Heap, host: &H) -> (r: Result<Expr, String>)
    requires ready(*old(heap), g),
    ensures
        final(heap).wf(),
        final(heap)@.len() == old(heap)@.len(),
        forall|o: Answers| #[trigger] consistent(final(heap).calls(), o) ==> consistent(old(heap).calls(), o)
            && agrees(r, final(heap)@, vm_outcome(run(code_view(code@), 0, Seq::empty(), g as nat, old(heap)@, o))),
{
    let ghost cv = code_view(code@);
    let ghost h0 = heap@;
    let mut pc: usize = 0;
    let mut stack: Vec<Expr> = Vec::new();
    assert(exprs_view(stack@) =~= Seq::<SExpr>::empty());
    while pc < code.len()
        invariant
            cv == code_view(code@),
            cv.len() == code@.len(),
            pc <= code@.len(),
            ready(*heap, g),
            heap@.len() == old(heap)@.len(),
            h0 == old(heap)@,
            forall|o: Answers| #[trigger] consistent(heap.calls(), o) ==> consistent(old(heap).calls(), o)
                && run(cv, 0, Seq::empty(), g as nat, h0, o) == run(cv, pc as nat, exprs_view(stack@), g as nat, heap@, o),
        decreases code@.len() - pc,
    {
        proof { lemma_exprs_view(stack@); }
        let ghost st = exprs_view(stack@);
        let ghost hb = heap@;
        let ghost cb = heap.calls();
        let ghost pcb = pc as nat;
        assert(cv[pc as int] == instr_view(code@[pc as int]));
        match &code[pc] {
            Instr::Const(v) => {
                let x = v.deep_clone();
                let ghost s0 = stack@;
                stack.push(x);
                proof { lemma_exprs_view_push(s0, x); }
                pc = pc + 1;
            },
            Instr::Global(s) => {
                match env_get(heap, g, s.as_str()) {
                    Ok(x) => {
                        let ghost s0 = stack@;
                        stack.push(x);
                        proof { lemma_exprs_view_push(s0, x); }
                        pc = pc + 1;
                    },
                    Err(m) => {
                        return Err(m);
                    },
                }
            },
            Instr::Fail(m) => {
                return Err(m.clone());
            },
            Instr::Pop => {
                if stack.len() == 0 {
                    return Err(owned("stack underflow"));
                }
                let ghost s0 = stack@;
                stack.pop();
                proof {
                    lemma_exprs_view_subrange(s0, 0, s0.len() - 1);
                    assert(st.subrange(0, st.len() - 1) =~= st.drop_last());
                }
                pc = pc + 1;
            },
            Instr::JumpIfFalse(n) => {
                if stack.len() == 0 {
                    return Err(owned("stack underflow"));
                }
                let ghost s0 = stack@;
                let c = match stack.pop() {
                    Some(c) => c,
                    None => { return Err(owned("stack underflow")); },
                };
                proof {
                    lemma_exprs_view_subrange(s0, 0, s0.len() - 1);
                    assert(st.subrange(0, st.len() - 1) =~= st.drop_last());
                    assert(st.last() == c@);
                }
                if is_truthy(&c) {
                    pc = pc + 1;
                } else if *n >= code.len() - pc - 1 {
                    pc = code.len();
                } else {
                    pc = pc + 1 + *n;
                }
            },
            Instr::Jump(n) => {
                if *n >= code.len() - pc - 1 {
                    pc = code.len();
                } else {
                    pc = pc + 1 + *n;
                }
            },
            Instr::Call(n, fuel) => {
                if stack.len() <= *n {
                    return Err(owned("stack underflow"));
                }
                let k = stack.len() - *n;
                let ghost s0 = stack@;
                let args = stack.split_off(k);
                let ghost s1 = stack@;
                let f = match stack.pop() {
                    Some(f) => f,
                    None => { return Err(owned("stack underflow")); },
                };
                proof {
                    lemma_exprs_view_subrange(s0, k as int, s0.len() as int);
                    lemma_exprs_view_subrange(s0, 0, k as int);
                    lemma_exprs_view_subrange(s1, 0, k - 1);
                    assert(s1 =~= s0.subrange(0, k as int));
                    assert(s1.subrange(0, k - 1) =~= s0.subrange(0, k - 1));
                    lemma_exprs_view_subrange(s0, 0, k - 1);
                    assert(st.take(k - 1) =~= st.subrange(0, k - 1));
                    assert(f@ == st[k - 1]);
                }
                let x = match apply_fuel(&f, args.as_slice(), g, heap, host, *fuel) {
                    Ok(x) => x,
                    Err(m) => {
                        proof {
                            assert forall|o: Answers| #[trigger] consistent(heap.calls(), o) implies consistent(old(heap).calls(), o)
                                && run(cv, 0, Seq::empty(), g as nat, h0, o) == (VmOut::Error(m@), heap@) by {
                                assert(consistent(cb, o));
                            }
                        }
                        return Err(m);
                    },
                };
                let ghost s2 = stack@;
                stack.push(x);
                proof {
                    lemma_exprs_view_push(s2, x);
                    assert forall|o: Answers| #[trigger] consistent(heap.calls(), o) implies consistent(old(heap).calls(), o)
                        && run(cv, 0, Seq::empty(), g as nat, h0, o) == run(cv, pcb + 1, exprs_view(stack@), g as nat, heap@, o) by {
                        assert(consistent(cb, o));
                    }
                }
                pc = pc + 1;
            },
            Instr::MacroCall(op, form, fuel, n) => {
                match env_get(heap, g, op.as_str()) {
                    Ok(Expr::Macro(ps, body)) => {
                        if form.len() == 0 {
                            return Err(owned("macro: wrong number of arguments"));
                        }
                        let empty = LexEnv::Empty;
                        let x = match eval_macro(&ps, &*body, form, g, &empty, heap, host, *fuel) {
                            Ok(x) => x,
                            Err(m) => {
                                proof {
                                    assert forall|o: Answers| #[trigger] consistent(heap.calls(), o) implies consistent(old(heap).calls(), o)
                                        && run(cv, 0, Seq::empty(), g as nat, h0, o) == (VmOut::Error(m@), heap@) by {
                                        assert(consistent(cb, o));
                                    }
                                }
                                return Err(m);
                            },
                        };
                        let ghost s0 = stack@;
                        stack.push(x);
                        proof {
                            lemma_exprs_view_push(s0, x);
                            assert forall|o: Answers| #[trigger] consistent(heap.calls(), o) implies consistent(old(heap).calls(), o)
                                && run(cv, 0, Seq::empty(), g as nat, h0, o)
                                    == run(cv, pcb, st, g as nat, hb, o) by {
                                assert(consistent(cb, o));
                            }
                        }
                        if *n >= code.len() - pc - 1 {
                            pc = code.len();
                        } else {
                            pc = pc + 1 + *n;
                        }
                    },
                    _ => {
                        pc = pc + 1;
                    },
                }
            },
        }
    }
    proof { lemma_exprs_view(stack@); }
    if stack.len() == 1 {
        match stack.pop() {
            Some(x) => Ok(x),
            None => Err(owned("stack underflow")),
        }
    } else {
        Err(owned("ill-formed code"))
    }
}

} // verus!
