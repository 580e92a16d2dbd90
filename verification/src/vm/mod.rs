//! The stack machine: bytecode, its code generator and its interpreter, and
//! the entry point that chooses between it and the tree-walking evaluator.

pub mod bytecode;
pub mod compiler;
pub mod machine;

use vstd::prelude::*;
use crate::compiler::compile;
use crate::eval::{agrees, eval_tree, tree_spec, MAX_DEPTH};
use crate::expr::{Expr, SExpr, strings_view};
use crate::gc::{GcHandle, Heap, env_get};
use crate::host::{Host, Answers, consistent};
use crate::semantics::eval_spec;
use self::bytecode::{code_view, run, vm_outcome};
use self::compiler::{gen_code, is_compilable, lemma_gen};
use self::machine::run_code;

verus! {

/// Evaluates a surface expression.  A call of a macro, and an expression
/// the stack machine does not take, go to the tree-walking evaluator;
/// otherwise the expression is compiled, code is generated for it and run
/// on the machine.  Either way the result is the tree-walking evaluator's.
pub fn vm_eval<H: Host>(expr: &Expr, env: GcHandle, heap: &mut Heap, host: &H) -> (r: Result<Expr, String>)
    requires old(heap).wf(),
    ensures
        final(heap).wf(),
        final(heap)@.len() == old(heap)@.len(),
        env >= old(heap)@.len() ==> r is Err && r->Err_0@ == "invalid environment"@ && final(heap)@ == old(heap)@,
        env < old(heap)@.len() ==> forall|o: Answers| #[trigger] consistent(final(heap).calls(), o) ==>
            consistent(old(heap).calls(), o) && agrees(r, final(heap)@, tree_spec(expr@, env as nat, old(heap)@, o)),
{
    if env >= heap.len() {
        return eval_tree(expr, env, heap, host);
    }
    if let Expr::List(items) = expr {
        if items.len() > 0 {
            if let Expr::Symbol(head) = &items[0] {
                if let Ok(Expr::Macro(_, _)) = env_get(heap, env, head.as_str()) {
                    return eval_tree(expr, env, heap, host);
                }
            }
        }
    }
    if !is_compilable(expr) {
        return eval_tree(expr, env, heap, host);
    }
    let mut names: Vec<String> = Vec::new();
    assert(strings_view(names@) =~= Seq::<Seq<char>>::empty());
    let ghost h0 = heap@;
    let c = compile(expr, &mut names, heap, host);
    proof { crate::gc::lemma_wf_frames(h0, heap@); }
    let c = c?;
    match gen_code(&c, MAX_DEPTH) {
        Some(code) => {
            proof {
                let cv = code_view(code@);
                let h0 = heap@;
                assert(cv.subrange(0, cv.len() as int) =~= cv);
                assert forall|o: Answers| vm_outcome(#[trigger] run(cv, 0, Seq::empty(), env as nat, h0, o))
                    == eval_spec(MAX_DEPTH as nat, c@, env as nat, Seq::empty(), h0, o) by {
                    lemma_gen(c@, MAX_DEPTH as nat, cv, 0, Seq::empty(), env as nat, h0, o);
                    let (er, h1) = eval_spec(MAX_DEPTH as nat, c@, env as nat, Seq::empty(), h0, o);
                    if let crate::builtins::Outcome::Value(v) = er {
                        assert(Seq::<SExpr>::empty().push(v) =~= seq![v]);
                    }
                }
            }
            run_code(&code, env, heap, host)
        },
        None => eval_tree(expr, env, heap, host),
    }
}

} // verus!
