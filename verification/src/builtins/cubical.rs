//! The interval endpoints, reflexivity paths and the cubical type
//! predicates.

use vstd::prelude::*;
use crate::builtins::{bind_prims, table_view, register_table, entry};
use crate::expr::{Expr, SExpr, Prim};
use crate::gc::{Heap, HeapV, GcHandle, bind, env_set, lemma_bind_wf};
use crate::num;
use crate::text::owned;

verus! {

/// `i0` and `i1`, the endpoints 0 and 1 of the interval, and `refl`.
pub open spec fn intervals_bound(h: HeapV, env: nat) -> HeapV {
    bind_prims(
        bind(bind(h, env, "i0"@, SExpr::Number(num::ZERO_BITS)), env, "i1"@, SExpr::Number(num::ONE_BITS)),
        env,
        seq![("refl"@, Prim::Refl)],
    )
}

/// Registers the interval endpoints `i0` (0) and `i1` (1) and `refl`, which
/// makes the constant path at its argument.
pub fn register_intervals(heap: &mut Heap, env: GcHandle)
    requires old(heap).wf(), env < old(heap)@.len(),
    ensures final(heap).wf(), final(heap)@ == intervals_bound(old(heap)@, env as nat),
        final(heap)@.len() == old(heap)@.len(),
        final(heap).calls() == old(heap).calls(),
{
    let ghost h0 = heap@;
    env_set(heap, env, owned("i0"), Expr::Number(num::ZERO_BITS));
    proof { lemma_bind_wf(h0, env as nat, "i0"@, SExpr::Number(num::ZERO_BITS)); }
    let ghost h1 = heap@;
    env_set(heap, env, owned("i1"), Expr::Number(num::ONE_BITS));
    proof { lemma_bind_wf(h1, env as nat, "i1"@, SExpr::Number(num::ONE_BITS)); }
    let t = vec![entry("refl", Prim::Refl)];
    assert(table_view(t@) =~= seq![("refl"@, Prim::Refl)]);
    register_table(heap, env, &t);
}

pub open spec fn pi_prims() -> Seq<(Seq<char>, Prim)> {
    seq![("pi?"@, Prim::IsPi), ("path?"@, Prim::IsPath)]
}

/// Registers `pi?` and `path?`, which give 1 for a Pi type (a path) and 0
/// for anything else.
pub fn register_pi_types(heap: &mut Heap, env: GcHandle)
    requires old(heap).wf(), env < old(heap)@.len(),
    ensures final(heap).wf(), final(heap)@ == bind_prims(old(heap)@, env as nat, pi_prims()),
        final(heap)@.len() == old(heap)@.len(),
        final(heap).calls() == old(heap).calls(),
{
    let t = vec![entry("pi?", Prim::IsPi), entry("path?", Prim::IsPath)];
    assert(table_view(t@) =~= pi_prims());
    register_table(heap, env, &t);
}

pub open spec fn sigma_prims() -> Seq<(Seq<char>, Prim)> {
    seq![("sigma?"@, Prim::IsSigma)]
}

/// Registers `sigma?`, which gives 1 for a Sigma type and 0 otherwise.
pub fn register_sigma_types(heap: &mut Heap, env: GcHandle)
    requires old(heap).wf(), env < old(heap)@.len(),
    ensures final(heap).wf(), final(heap)@ == bind_prims(old(heap)@, env as nat, sigma_prims()),
        final(heap)@.len() == old(heap)@.len(),
        final(heap).calls() == old(heap).calls(),
{
    let t = vec![entry("sigma?", Prim::IsSigma)];
    assert(table_view(t@) =~= sigma_prims());
    register_table(heap, env, &t);
}

pub open spec fn glue_prims() -> Seq<(Seq<char>, Prim)> {
    seq![("glue?"@, Prim::IsGlue), ("glue-type?"@, Prim::IsGlueType)]
}

/// Registers `glue?` and `glue-type?`, which recognise Glue terms and Glue
/// types.
pub fn register_glue_types(heap: &mut Heap, env: GcHandle)
    requires old(heap).wf(), env < old(heap)@.len(),
    ensures final(heap).wf(), final(heap)@ == bind_prims(old(heap)@, env as nat, glue_prims()),
        final(heap)@.len() == old(heap)@.len(),
        final(heap).calls() == old(heap).calls(),
{
    let t = vec![entry("glue?", Prim::IsGlue), entry("glue-type?", Prim::IsGlueType)];
    assert(table_view(t@) =~= glue_prims());
    register_table(heap, env, &t);
}

} // verus!
