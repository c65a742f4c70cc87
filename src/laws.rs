use vstd::prelude::*;
use crate::graph::Factor;
use crate::kernels::{all_full, sole_uniform, taken, unary, Message, UnaryOp};
use crate::schedule::{factor_msg, plan_clears};

verus! {

/// Every incoming belief is uniform.
pub open spec fn all_uniform(full: Seq<bool>) -> bool {
    forall|i: int| 0 <= i < full.len() ==> !full[i]
}

/// A factor update without clearing leaves every incoming belief of the
/// factor as it was, those on the destination edges included.
pub proof fn lemma_incoming_kept_without_clear(f: &Factor, full: Seq<bool>, dest: Seq<usize>, q: int)
    ensures
        !plan_clears(f, full, dest, false, q),
{
}

/// A factor update with clearing resets the belief coming in on the edge of
/// every destination to uniform.
pub proof fn lemma_destinations_cleared(f: &Factor, full: Seq<bool>, dest: Seq<usize>, q: int)
    requires
        f.wf(),
        0 <= q < f.vars@.len(),
        dest.contains(f.vars@[q]),
    ensures
        plan_clears(f, full, dest, true, q),
{
    assert(taken(f, dest)[q]);
}

/// Uniform incoming beliefs are a fixed point of the XOR, NOT and ADD
/// updates: with three edges or more every message is uniform without any
/// computation; with two, each message is the other side's uniform belief
/// pushed through a permutation of the classes (`x ^ c`, `x + c`, `x - c`),
/// which is uniform again.
pub proof fn lemma_uniform_fixed_point(f: &Factor, full: Seq<bool>, dest: Seq<usize>, i: int)
    requires
        f.wf(),
        f.kind is Xor || f.kind is Not || f.kind is Add,
        full.len() == f.vars@.len(),
        all_uniform(full),
        0 <= i < f.vars@.len(),
    ensures
        f.vars@.len() > 2 ==> factor_msg(f, full, dest, i) == Message::Uniform,
        f.vars@.len() == 2 ==> factor_msg(f, full, dest, i) == unary(1 - i, UnaryOp::XorCst)
            || factor_msg(f, full, dest, i) == unary(1 - i, UnaryOp::AddCst { negate: i != 0 }),
{
    if f.vars@.len() > 2 {
        let j = if i == 0 { 1int } else { 0int };
        assert(!full[i] && !full[j] && i != j);
        assert(!all_full(full));
        assert forall|p: int| !sole_uniform(full, p) by {
            if 0 <= p < full.len() {
                if p != i {
                    assert(!full[i]);
                } else {
                    assert(!full[j]);
                }
            }
        }
    }
}

} // verus!
