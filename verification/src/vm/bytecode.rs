//! The instructions of the stack machine and what running them does.

use vstd::prelude::*;
use crate::builtins::Outcome;
use crate::expr::{Expr, SExpr, exprs_view, truthy};
use crate::gc::lookup;
use crate::semantics::{HeapV, apply_spec, macro_spec};
use crate::host::Answers;

verus! {

/// One instruction.  Jump distances count the instructions skipped after
/// the jump itself, so that code is position independent.
pub enum Instr {
    /// Push a value.
    Const(Expr),
    /// Push the value of a global name.
    Global(String),
    /// Stop with an error, with its message.
    Fail(String),
    /// Drop the top value.
    Pop,
    /// Pop a value; if it is false, skip the next `n` instructions.
    JumpIfFalse(usize),
    /// Skip the next `n` instructions.
    Jump(usize),
    /// Apply the function below the top `n` values to them (pushed first
    /// to last), with the given nesting bound, and push the result.
    Call(usize, u64),
    /// If the global `name` holds a macro, expand and evaluate the call
    /// `form` with the given nesting bound, push the result and skip the
    /// next `n` instructions; otherwise go on.
    MacroCall(String, Vec<Expr>, u64, usize),
}

/// Model of [`Instr`].
pub enum InstrV {
    Const(SExpr),
    Global(Seq<char>),
    Fail(Seq<char>),
    Pop,
    JumpIfFalse(nat),
    Jump(nat),
    Call(nat, nat),
    MacroCall(Seq<char>, Seq<SExpr>, nat, nat),
}

pub open spec fn instr_view(i: Instr) -> InstrV {
    match i {
        Instr::Const(v) => InstrV::Const(v@),
        Instr::Global(s) => InstrV::Global(s@),
        Instr::Fail(m) => InstrV::Fail(m@),
        Instr::Pop => InstrV::Pop,
        Instr::JumpIfFalse(n) => InstrV::JumpIfFalse(n as nat),
        Instr::Jump(n) => InstrV::Jump(n as nat),
        Instr::Call(n, f) => InstrV::Call(n as nat, f as nat),
        Instr::MacroCall(s, form, f, n) => InstrV::MacroCall(s@, exprs_view(form@), f as nat, n as nat),
    }
}

pub open spec fn code_view(c: Seq<Instr>) -> Seq<InstrV> {
    c.map_values(|i: Instr| instr_view(i))
}

/// How a run of the machine ends: with the final stack or with an error.
pub enum VmOut {
    Done(Seq<SExpr>),
    Error(Seq<char>),
}

/// Runs `code` from instruction `pc` with stack `st` (top last) in global
/// frame `g`; the lexical environment is empty throughout.
pub open spec fn run(code: Seq<InstrV>, pc: nat, st: Seq<SExpr>, g: nat, h: HeapV, o: Answers) -> (VmOut, HeapV)
    decreases code.len() - pc,
{
    if pc >= code.len() {
        (VmOut::Done(st), h)
    } else {
        match code[pc as int] {
            InstrV::Const(v) => run(code, pc + 1, st.push(v), g, h, o),
            InstrV::Global(s) => match lookup(h, g, s) {
                Some(v) => run(code, pc + 1, st.push(v), g, h, o),
                None => (VmOut::Error("unbound symbol"@), h),
            },
            InstrV::Fail(m) => (VmOut::Error(m), h),
            InstrV::Pop => if st.len() > 0 { run(code, pc + 1, st.drop_last(), g, h, o) } else { (VmOut::Error("stack underflow"@), h) },
            InstrV::JumpIfFalse(n) => if st.len() > 0 {
                if truthy(st.last()) {
                    run(code, pc + 1, st.drop_last(), g, h, o)
                } else if pc + 1 + n >= code.len() {
                    (VmOut::Done(st.drop_last()), h)
                } else {
                    run(code, pc + 1 + n, st.drop_last(), g, h, o)
                }
            } else {
                (VmOut::Error("stack underflow"@), h)
            },
            InstrV::Jump(n) => if pc + 1 + n >= code.len() {
                (VmOut::Done(st), h)
            } else {
                run(code, pc + 1 + n, st, g, h, o)
            },
            InstrV::Call(n, fuel) => if st.len() > n {
                let k = st.len() - n;
                let (r, h1) = apply_spec(fuel, st[k - 1], st.subrange(k, st.len() as int), g, h, o);
                match r {
                    Outcome::Value(v) => run(code, pc + 1, st.take(k - 1).push(v), g, h1, o),
                    Outcome::Error(m) => (VmOut::Error(m), h1),
                }
            } else {
                (VmOut::Error("stack underflow"@), h)
            },
            InstrV::MacroCall(op, form, fuel, n) => match lookup(h, g, op) {
                Some(SExpr::Macro(ps, body)) => {
                    let (r, h1) = macro_spec(fuel, ps, *body, form, g, Seq::empty(), h, o);
                    match r {
                        Outcome::Value(v) => if pc + 1 + n >= code.len() {
                            (VmOut::Done(st.push(v)), h1)
                        } else {
                            run(code, pc + 1 + n, st.push(v), g, h1, o)
                        },
                        Outcome::Error(m) => (VmOut::Error(m), h1),
                    }
                },
                _ => run(code, pc + 1, st, g, h, o),
            },
        }
    }
}

/// The value a run gives: the single value left on the stack.
pub open spec fn vm_outcome(r: (VmOut, HeapV)) -> (Outcome, HeapV) {
    match r.0 {
        VmOut::Done(st) => if st.len() == 1 { (Outcome::Value(st[0]), r.1) } else { (Outcome::Error("ill-formed code"@), r.1) },
        VmOut::Error(m) => (Outcome::Error(m), r.1),
    }
}

} // verus!
