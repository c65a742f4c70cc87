use vstd::prelude::*;
use crate::error::BPError;
use itertools::Itertools;
use crate::graph::{distinct, pos_of, Factor, FactorGraph, FactorKind, PublicValue};
use crate::kernels::{
    add_msg, and_cleared, and_msg, dest_ok, factor_add, factor_gen_and, factor_lookup, factor_mul,
    factor_not, factor_xor, lookup_msg, same_public, taken, two_edge_cleared, xor_cleared, xor_msg,
    FactorPlan, Message,
};

verus! {

/// The message that the update of factor `f` sends to its position `i`, given
/// which incoming beliefs are materialised.
pub open spec fn factor_msg(f: &Factor, full: Seq<bool>, dest: Seq<usize>, i: int) -> Message {
    match f.kind {
        FactorKind::And { vars_neg } => and_msg(f, vars_neg@, i),
        FactorKind::Xor => xor_msg(f, full, dest, i),
        FactorKind::Not => xor_msg(f, full, dest, i),
        FactorKind::Add => add_msg(f, full, dest, i),
        FactorKind::Mul => Message::Product { except: i as usize },
        FactorKind::Lookup { .. } => lookup_msg(i),
    }
}

/// Whether the update of factor `f` clears the belief coming in at position
/// `q`, when clearing is asked.
pub open spec fn factor_cleared(f: &Factor, full: Seq<bool>, dest: Seq<usize>, q: int) -> bool {
    match f.kind {
        FactorKind::And { .. } => and_cleared(f, dest, q),
        FactorKind::Xor => xor_cleared(f, full, dest, q),
        FactorKind::Not => xor_cleared(f, full, dest, q),
        FactorKind::Add => xor_cleared(f, full, dest, q),
        FactorKind::Mul => true,
        FactorKind::Lookup { .. } => two_edge_cleared(taken(f, dest), q),
    }
}

/// Whether an update of `f`, with clearing asked or not, resets the belief
/// coming in at position `q` to uniform.
pub open spec fn plan_clears(f: &Factor, full: Seq<bool>, dest: Seq<usize>, clear_incoming: bool, q: int) -> bool {
    clear_incoming && factor_cleared(f, full, dest, q)
}

/// For each position of factor `f`, whether the belief on its edge, read
/// from `from_var_full` (one flag per edge of the graph), is materialised.
pub open spec fn incoming_full(f: &Factor, from_var_full: Seq<bool>) -> Seq<bool> {
    Seq::new(f.edges@.len(), |p: int| from_var_full[f.edges@[p] as int])
}

/// The constant that the update of factor `f` works with: the all-ones class
/// for NOT, none for LOOKUP, its reduced public value otherwise.
pub open spec fn factor_constant(f: &Factor, nc: usize, pub_red: &PublicValue, c: &PublicValue) -> bool {
    match f.kind {
        FactorKind::Not => *c == PublicValue::Single((nc - 1) as u32),
        FactorKind::Lookup { .. } => *c == PublicValue::Single(0),
        _ => same_public(c, pub_red),
    }
}

/// The update of factor `factor_id` towards the variables `dest`: which
/// message each gets, and which incoming beliefs it clears.
/// `from_var_full[e]` tells whether the variable-to-factor belief on edge `e`
/// is materialised; `pub_reduced` holds the reduced public value of each
/// factor.
pub fn propagate_factor(
    graph: &FactorGraph,
    factor_id: usize,
    from_var_full: &Vec<bool>,
    dest: &Vec<usize>,
    clear_incoming: bool,
    pub_reduced: &Vec<PublicValue>,
) -> (r: FactorPlan)
    requires
        graph.wf(),
        factor_id < graph.factors@.len(),
        from_var_full@.len() == graph.edges@.len(),
        pub_reduced@.len() == graph.factors@.len(),
        0 < graph.nc <= u32::MAX as usize + 1,
        dest_ok(&graph.factors@[factor_id as int], dest@),
    ensures
        ({
            let f = &graph.factors@[factor_id as int];
            let full = incoming_full(f, from_var_full@);
            &&& factor_constant(f, graph.nc, &pub_reduced@[factor_id as int], &r.constant)
            &&& r.outputs@.len() == dest@.len()
            &&& forall|k: int| 0 <= k < dest@.len() ==> r.outputs@[k] == factor_msg(f, full, dest@, f.pos(dest@[k]))
            &&& r.cleared@.len() == f.vars@.len()
            &&& forall|q: int| 0 <= q < f.vars@.len() ==> r.cleared@[q] == plan_clears(f, full, dest@, clear_incoming, q)
        }),
{
    let factor = &graph.factors[factor_id];
    assert(factor.wf());
    let mut full: Vec<bool> = Vec::new();
    let mut p: usize = 0;
    while p < factor.edges.len()
        invariant
            graph.wf(),
            factor_id < graph.factors@.len(),
            *factor == graph.factors@[factor_id as int],
            from_var_full@.len() == graph.edges@.len(),
            p <= factor.edges@.len(),
            full@.len() == p,
            forall|q: int| 0 <= q < p ==> full@[q] == from_var_full@[factor.edges@[q] as int],
        decreases factor.edges@.len() - p,
    {
        assert(factor.edges@[p as int] < graph.edges@.len());
        full.push(from_var_full[factor.edges[p]]);
        p += 1;
    }
    assert(full@ =~= incoming_full(factor, from_var_full@));
    let pub_red = &pub_reduced[factor_id];
    match &factor.kind {
        FactorKind::And { .. } => factor_gen_and(factor, &full, dest, clear_incoming, pub_red),
        FactorKind::Xor => factor_xor(factor, &full, dest, clear_incoming, pub_red),
        FactorKind::Not => factor_not(factor, &full, dest, clear_incoming, (graph.nc - 1) as u32),
        FactorKind::Add => factor_add(factor, &full, dest, clear_incoming, pub_red),
        FactorKind::Mul => factor_mul(factor, dest, clear_incoming, pub_red),
        FactorKind::Lookup { .. } => factor_lookup(factor, dest, clear_incoming),
    }
}


/// One item of a merge of two sorted lists: only in the left one, in both, or
/// only in the right one.
#[derive(Clone, Copy, Debug, PartialEq, Eq, Structural)]
pub enum Merged {
    Left(usize),
    Both(usize, usize),
    Right(usize),
}

pub open spec fn sorted(s: Seq<usize>) -> bool {
    forall|i: int, j: int| 0 <= i < j < s.len() ==> s[i] <= s[j]
}

pub open spec fn strictly_sorted(s: Seq<usize>) -> bool {
    forall|i: int, j: int| 0 <= i < j < s.len() ==> s[i] < s[j]
}

/// The items that a merge found in its left list alone, in order.
pub open spec fn lefts(m: Seq<Merged>) -> Seq<usize>
    decreases m.len(),
{
    if m.len() == 0 {
        Seq::empty()
    } else {
        let rest = lefts(m.drop_last());
        match m.last() {
            Merged::Left(e) => rest.push(e),
            _ => rest,
        }
    }
}

/// The items of `a` that are not in `b`, in the order of `a`.
pub open spec fn set_minus(a: Seq<usize>, b: Seq<usize>) -> Seq<usize> {
    a.filter(|e: usize| !b.contains(e))
}

/// Relies on `slice::sort_unstable`: the result holds the same items, in
/// ascending order.
#[verifier::external_body]
fn sort_edges(v: &mut Vec<usize>)
    ensures
        sorted(final(v)@),
        final(v)@.to_multiset() == old(v)@.to_multiset(),
{
    v.sort_unstable();
}

/// Relies on `itertools::Itertools::merge_join_by`: on a strictly ascending
/// `a` and an ascending `b`, compared by `cmp`, the items reported as found
/// in `a` alone are those of `a` that `b` lacks, in their order.
#[verifier::external_body]
fn merge_join(a: &Vec<usize>, b: &Vec<usize>) -> (r: Vec<Merged>)
    requires
        strictly_sorted(a@),
        sorted(b@),
    ensures
        lefts(r@) == set_minus(a@, b@),
{
    a.iter()
        .merge_join_by(b.iter(), |x, y| x.cmp(y))
        .map(|m| match m {
            itertools::EitherOrBoth::Left(x) => Merged::Left(*x),
            itertools::EitherOrBoth::Both(x, y) => Merged::Both(*x, *y),
            itertools::EitherOrBoth::Right(y) => Merged::Right(*y),
        })
        .collect()
}

/// The items of a merge that were found in its left list alone.
fn collect_lefts(m: &Vec<Merged>) -> (r: Vec<usize>)
    ensures
        r@ == lefts(m@),
{
    let mut r: Vec<usize> = Vec::new();
    let mut i: usize = 0;
    while i < m.len()
        invariant
            i <= m@.len(),
            r@ == lefts(m@.subrange(0, i as int)),
        decreases m@.len() - i,
    {
        proof {
            let s = m@.subrange(0, i as int + 1);
            assert(s.drop_last() =~= m@.subrange(0, i as int));
            assert(s.last() == m@[i as int]);
        }
        match m[i] {
            Merged::Left(e) => r.push(e),
            _ => {},
        }
        i += 1;
    }
    assert(m@.subrange(0, m@.len() as int) =~= m@);
    r
}

/// The edges of a variable, ascending.
fn sorted_var_edges(graph: &FactorGraph, var_id: usize) -> (r: Vec<usize>)
    requires
        graph.wf(),
        var_id < graph.vars@.len(),
    ensures
        strictly_sorted(r@),
        r@.to_multiset() == graph.vars@[var_id as int].edges@.to_multiset(),
{
    let mut all = graph.vars[var_id].edges.clone();
    assert(all@ == graph.vars@[var_id as int].edges@);
    assert(graph.vars@[var_id as int].wf(graph.edges@.len()));
    sort_edges(&mut all);
    proof {
        let orig = graph.vars@[var_id as int].edges@;
        assert(distinct(orig));
        assert(orig.no_duplicates());
        lemma_multiset_no_dup(orig, all@);
        assert forall|i: int, j: int| 0 <= i < j < all@.len() implies all@[i] < all@[j] by {
            assert(all@[i] <= all@[j]);
            assert(all@[i] != all@[j]);
        }
    }
    all
}

proof fn lemma_multiset_no_dup(a: Seq<usize>, b: Seq<usize>)
    requires
        a.no_duplicates(),
        a.to_multiset() == b.to_multiset(),
    ensures
        b.no_duplicates(),
{
    a.lemma_multiset_has_no_duplicates();
    b.lemma_multiset_has_no_duplicates_conv();
}

/// What a variable update does: the edges that get a new outgoing message,
/// ascending; all the other edges of the variable, ascending, whose incoming
/// beliefs are folded into the base product; and whether the variable takes
/// the per-trace (multi) path or the shared (single) one; and the edges
/// whose factor-to-variable belief is reset to uniform once read.
pub struct VarPlan {
    pub to_edges: Vec<usize>,
    pub other_edges: Vec<usize>,
    pub multi: bool,
    pub cleared: Vec<usize>,
}

/// The update of variable `var_id` towards the edges `to_edges`: the other
/// edges are the ascending set difference of all its edges and `to_edges`.
/// With `clear_beliefs`, every belief read (on all those edges) is cleared;
/// without it, none is.
pub fn propagate_var_to(graph: &FactorGraph, var_id: usize, to_edges: Vec<usize>, clear_beliefs: bool) -> (r: VarPlan)
    requires
        graph.wf(),
        var_id < graph.vars@.len(),
    ensures
        r.multi == graph.vars@[var_id as int].multi,
        forall|e: usize| #[trigger] r.cleared@.contains(e) <==> (clear_beliefs && (
            graph.vars@[var_id as int].edges@.contains(e) || to_edges@.contains(e))),
        sorted(r.to_edges@),
        r.to_edges@.to_multiset() == to_edges@.to_multiset(),
        strictly_sorted(r.other_edges@),
        forall|e: usize| #[trigger] r.other_edges@.contains(e) <==> (graph.vars@[var_id as int].edges@.contains(e) && !to_edges@.contains(e)),
{
    let all = sorted_var_edges(graph, var_id);
    let mut to = to_edges;
    sort_edges(&mut to);
    let merged = merge_join(&all, &to);
    let other = collect_lefts(&merged);
    proof {
        let orig = graph.vars@[var_id as int].edges@;
        assert(other@ == set_minus(all@, to@));
        assert forall|e: usize| #[trigger] other@.contains(e) <==> (orig.contains(e) && !to_edges@.contains(e)) by {
            lemma_same_items(all@, orig, e);
            lemma_same_items(to@, to_edges@, e);
            lemma_set_minus_contains(all@, to@, e);
        }
        assert forall|i: int, j: int| 0 <= i < j < other@.len() implies other@[i] < other@[j] by {
            lemma_filter_keeps_order(all@, |x: usize| !to@.contains(x), i, j);
        }
    }
    let mut cleared: Vec<usize> = Vec::new();
    if clear_beliefs {
        cleared = other.clone();
        let mut rest = to.clone();
        cleared.append(&mut rest);
        proof {
            let orig = graph.vars@[var_id as int].edges@;
            assert(cleared@ == other@ + to@);
            assert forall|e: usize| #[trigger] cleared@.contains(e) <==> (orig.contains(e) || to_edges@.contains(e)) by {
                lemma_same_items(to@, to_edges@, e);
                lemma_concat_contains(other@, to@, e);
                assert(other@.contains(e) <==> (orig.contains(e) && !to_edges@.contains(e)));
            }
        }
    }
    VarPlan { to_edges: to, other_edges: other, multi: graph.vars[var_id].multi, cleared }
}

proof fn lemma_concat_contains(a: Seq<usize>, b: Seq<usize>, e: usize)
    ensures
        (a + b).contains(e) <==> (a.contains(e) || b.contains(e)),
{
    if (a + b).contains(e) {
        let k = choose|k: int| 0 <= k < (a + b).len() && (a + b)[k] == e;
        if k < a.len() {
            assert(a[k] == e);
        } else {
            assert(b[k - a.len()] == e);
        }
    }
    if a.contains(e) {
        let k = choose|k: int| 0 <= k < a.len() && a[k] == e;
        assert((a + b)[k] == e);
    }
    if b.contains(e) {
        let k = choose|k: int| 0 <= k < b.len() && b[k] == e;
        assert((a + b)[k + a.len()] == e);
    }
}

proof fn lemma_same_items(a: Seq<usize>, b: Seq<usize>, e: usize)
    requires
        a.to_multiset() == b.to_multiset(),
    ensures
        a.contains(e) == b.contains(e),
{
    vstd::seq_lib::to_multiset_contains(a, e);
    vstd::seq_lib::to_multiset_contains(b, e);
}

proof fn lemma_set_minus_contains(a: Seq<usize>, b: Seq<usize>, e: usize)
    ensures
        set_minus(a, b).contains(e) <==> (a.contains(e) && !b.contains(e)),
{
    let pred = |x: usize| !b.contains(x);
    if set_minus(a, b).contains(e) {
        a.lemma_filter_contains_rev(pred, e);
        let k = choose|k: int| 0 <= k < a.filter(pred).len() && a.filter(pred)[k] == e;
        a.lemma_filter_pred(pred, k);
    }
    if a.contains(e) && !b.contains(e) {
        let i = choose|i: int| 0 <= i < a.len() && a[i] == e;
        a.lemma_filter_contains(pred, i);
    }
}

proof fn lemma_filter_keeps_order(s: Seq<usize>, pred: spec_fn(usize) -> bool, i: int, j: int)
    requires
        strictly_sorted(s),
        0 <= i < j < s.filter(pred).len(),
    ensures
        s.filter(pred)[i] < s.filter(pred)[j],
    decreases s.len(),
{
    reveal(Seq::filter);
    let d = s.drop_last();
    let fd = d.filter(pred);
    assert(strictly_sorted(d));
    if pred(s.last()) {
        assert(s.filter(pred) == fd.push(s.last()));
        if j == fd.len() {
            let x = fd[i];
            d.lemma_filter_contains_rev(pred, x);
            assert(fd.contains(x));
            assert(d.contains(x));
            let k = choose|k: int| 0 <= k < d.len() && d[k] == x;
            assert(s[k] == x);
            assert(s[k] < s[s.len() - 1]);
        } else {
            lemma_filter_keeps_order(d, pred, i, j);
        }
    } else {
        assert(s.filter(pred) == fd);
        lemma_filter_keeps_order(d, pred, i, j);
    }
}


/// The update of variable `var_id` towards all its edges.
pub fn propagate_var(graph: &FactorGraph, var_id: usize, clear_beliefs: bool) -> (r: VarPlan)
    requires
        graph.wf(),
        var_id < graph.vars@.len(),
    ensures
        r.multi == graph.vars@[var_id as int].multi,
        forall|e: usize| #[trigger] r.cleared@.contains(e) <==> (clear_beliefs && graph.vars@[var_id as int].edges@.contains(e)),
        r.to_edges@.to_multiset() == graph.vars@[var_id as int].edges@.to_multiset(),
        sorted(r.to_edges@),
        r.other_edges@.len() == 0,
{
    let to_edges = graph.vars[var_id].edges.clone();
    assert(to_edges@ == graph.vars@[var_id as int].edges@);
    let r = propagate_var_to(graph, var_id, to_edges, clear_beliefs);
    if r.other_edges.len() > 0 {
        assert(r.other_edges@.contains(r.other_edges@[0]));
    }
    r
}

/// The destinations of an update of factor `factor_id` towards all its
/// variables: its variables, in order.
pub fn factor_all_dest(graph: &FactorGraph, factor_id: usize) -> (r: Vec<usize>)
    requires
        graph.wf(),
        factor_id < graph.factors@.len(),
    ensures
        r@ == graph.factors@[factor_id as int].vars@,
        dest_ok(&graph.factors@[factor_id as int], r@),
{
    let r = graph.factors[factor_id].vars.clone();
    assert(r@ == graph.factors@[factor_id as int].vars@);
    assert forall|k: int| 0 <= k < r@.len() implies graph.factors@[factor_id as int].vars@.contains(#[trigger] r@[k]) by {
        assert(graph.factors@[factor_id as int].vars@[k] == r@[k]);
    }
    r
}

/// A node of the factor graph.
#[derive(Clone, Copy, Debug, PartialEq, Eq, Structural)]
pub enum Node {
    Var(usize),
    Factor(usize),
}

/// One step of acyclic propagation.
#[derive(Clone, Debug)]
pub enum Step {
    /// Update the variable towards these edges.
    Var { var: usize, to_edges: Vec<usize> },
    /// Update the factor towards these variables.
    Factor { factor: usize, dest: Vec<usize> },
}

/// An entry `(node, parent)` of a propagation order is well formed: a
/// variable's parent is a factor it touches (or none, at the root), and a
/// factor's parent is one of its variables.
pub open spec fn order_entry_ok(graph: &FactorGraph, node: Node, parent: Option<Node>) -> bool {
    match node {
        Node::Var(v) => v < graph.vars@.len() && match parent {
            None => true,
            Some(Node::Factor(f)) => graph.vars@[v as int].factors@.contains(f),
            Some(Node::Var(_)) => false,
        },
        Node::Factor(f) => f < graph.factors@.len() && match parent {
            Some(Node::Var(v)) => graph.factors@[f as int].vars@.contains(v),
            _ => false,
        },
    }
}

/// The edge of variable `v` that leads to factor `f`.
pub open spec fn edge_to(graph: &FactorGraph, v: usize, f: usize) -> usize {
    graph.vars@[v as int].edges@[pos_of(graph.vars@[v as int].factors@, f)]
}

/// The step that an entry of a propagation order asks for.
pub open spec fn step_ok(graph: &FactorGraph, node: Node, parent: Option<Node>, s: Step) -> bool {
    match (node, s) {
        (Node::Var(v), Step::Var { var, to_edges }) => var == v && match parent {
            Some(Node::Factor(f)) => to_edges@ == seq![edge_to(graph, v, f)],
            _ => to_edges@.len() == 0,
        },
        (Node::Factor(f), Step::Factor { factor, dest }) => factor == f && match parent {
            Some(Node::Var(v)) => dest@ == seq![v],
            _ => false,
        },
        _ => false,
    }
}

/// The position of factor `f` among the factors of variable `v`.
fn var_factor_index(graph: &FactorGraph, v: usize, f: usize) -> (r: usize)
    requires
        graph.wf(),
        v < graph.vars@.len(),
        graph.vars@[v as int].factors@.contains(f),
    ensures
        r < graph.vars@[v as int].edges@.len(),
        r == pos_of(graph.vars@[v as int].factors@, f),
{
    let var = &graph.vars[v];
    assert(var.wf(graph.edges@.len()));
    let mut i: usize = 0;
    while i < var.factors.len()
        invariant
            *var == graph.vars@[v as int],
            var.wf(graph.edges@.len()),
            i <= var.factors@.len(),
            forall|j: int| 0 <= j < i ==> var.factors@[j] != f,
            var.factors@.contains(f),
        decreases var.factors@.len() - i,
    {
        if var.factors[i] == f {
            proof {
                let ii = i as int;
                assert(0 <= ii < var.factors@.len() && var.factors@[ii] == f);
                let c = pos_of(var.factors@, f);
                assert(0 <= c < var.factors@.len() && var.factors@[c] == f);
            }
            return i;
        }
        i += 1;
    }
    proof {
        let k = choose|k: int| 0 <= k < var.factors@.len() && var.factors@[k] == f;
        assert(var.factors@[k] == f);
    }
    0
}

/// The steps of acyclic propagation along `order`, bottom-up `(node, parent)`
/// pairs: each variable is updated towards the edge that leads to its parent
/// (towards none at the root), each factor towards its parent variable.
/// Refused on a cyclic graph.
pub fn acyclic_steps(graph: &FactorGraph, cyclic: bool, order: &Vec<(Node, Option<Node>)>) -> (r: Result<Vec<Step>, BPError>)
    requires
        graph.wf(),
        forall|i: int| 0 <= i < order@.len() ==> order_entry_ok(graph, #[trigger] order@[i].0, order@[i].1),
    ensures
        cyclic <==> r is Err,
        r is Err ==> r->Err_0 == BPError::NotAcyclic,
        r is Ok ==> r->Ok_0@.len() == order@.len() && forall|i: int| 0 <= i < order@.len() ==> step_ok(graph, #[trigger] order@[i].0, order@[i].1, r->Ok_0@[i]),
{
    if cyclic {
        return Err(BPError::NotAcyclic);
    }
    let mut steps: Vec<Step> = Vec::new();
    let mut i: usize = 0;
    while i < order.len()
        invariant
            graph.wf(),
            forall|j: int| 0 <= j < order@.len() ==> order_entry_ok(graph, #[trigger] order@[j].0, order@[j].1),
            i <= order@.len(),
            steps@.len() == i,
            forall|j: int| 0 <= j < i ==> step_ok(graph, #[trigger] order@[j].0, order@[j].1, steps@[j]),
        decreases order@.len() - i,
    {
        let (node, parent) = order[i];
        assert(order_entry_ok(graph, order@[i as int].0, order@[i as int].1));
        let step = match node {
            Node::Var(v) => {
                let to_edges: Vec<usize> = match parent {
                    Some(Node::Factor(f)) => {
                        let k = var_factor_index(graph, v, f);
                        let e = graph.vars[v].edges[k];
                        assert(e == edge_to(graph, v, f));
                        let t: Vec<usize> = vec![e];
                        assert(t@ =~= seq![edge_to(graph, v, f)]);
                        t
                    },
                    _ => Vec::new(),
                };
                Step::Var { var: v, to_edges }
            },
            Node::Factor(f) => {
                let dest: Vec<usize> = match parent {
                    Some(Node::Var(v)) => {
                        let t: Vec<usize> = vec![v];
                        assert(t@ =~= seq![v]);
                        t
                    },
                    _ => Vec::new(),
                };
                Step::Factor { factor: f, dest }
            },
        };
        assert(step_ok(graph, order@[i as int].0, order@[i as int].1, step));
        steps.push(step);
        i += 1;
    }
    Ok(steps)
}


/// Number of `false` flags: the nodes not yet visited.
pub open spec fn count_false(s: Seq<bool>) -> nat
    decreases s.len(),
{
    if s.len() == 0 {
        0
    } else {
        count_false(s.drop_last()) + if s.last() { 0nat } else { 1nat }
    }
}

proof fn lemma_count_false_mark(s: Seq<bool>, i: int)
    requires
        0 <= i < s.len(),
        !s[i],
    ensures
        count_false(s.update(i, true)) + 1 == count_false(s),
    decreases s.len(),
{
    let t = s.update(i, true);
    if i == s.len() - 1 {
        assert(t.drop_last() =~= s.drop_last());
    } else {
        assert(t.drop_last() =~= s.drop_last().update(i, true));
        lemma_count_false_mark(s.drop_last(), i);
    }
}

/// The entry at `i` names a parent, which stands as a node further on.
pub open spec fn resolved(s: Seq<(Node, Option<Node>)>, i: int) -> bool {
    &&& s[i].1 is Some
    &&& exists|j: int| i < j < s.len() && #[trigger] s[j].0 == s[i].1->0
}

proof fn lemma_resolved_extend(s: Seq<(Node, Option<Node>)>, t: Seq<(Node, Option<Node>)>, i: int)
    requires
        s.len() <= t.len(),
        forall|k: int| 0 <= k < s.len() ==> t[k] == s[k],
        0 <= i < s.len(),
        resolved(s, i),
    ensures
        resolved(t, i),
{
    let j = choose|j: int| i < j < s.len() && #[trigger] s[j].0 == s[i].1->0;
    assert(t[j].0 == t[i].1->0);
}

/// An order in which every node but the last one names as parent a node
/// that comes after it, and every entry is well formed.
pub open spec fn bottom_up(graph: &FactorGraph, s: Seq<(Node, Option<Node>)>, lo: int) -> bool {
    &&& forall|i: int| 0 <= i < s.len() ==> order_entry_ok(graph, #[trigger] s[i].0, s[i].1)
    &&& forall|i: int| lo <= i < s.len() - 1 ==> resolved(s, i)
}

/// The node names a variable or factor of the graph.
pub open spec fn node_ok(graph: &FactorGraph, n: Node) -> bool {
    match n {
        Node::Var(v) => v < graph.vars@.len(),
        Node::Factor(f) => f < graph.factors@.len(),
    }
}

/// The node is flagged as visited.
pub open spec fn flagged(vv: Seq<bool>, fv: Seq<bool>, n: Node) -> bool {
    match n {
        Node::Var(v) => vv[v as int],
        Node::Factor(f) => fv[f as int],
    }
}

/// The node stands in the order.
pub open spec fn listed(s: Seq<(Node, Option<Node>)>, n: Node) -> bool {
    exists|i: int| 0 <= i < s.len() && #[trigger] s[i].0 == n
}

/// No node stands twice in the order.
pub open spec fn distinct_nodes(s: Seq<(Node, Option<Node>)>) -> bool {
    forall|i: int, j: int| 0 <= i < s.len() && 0 <= j < s.len() && i != j ==> s[i].0 != s[j].0
}

/// Every neighbour of `n` is flagged.
pub open spec fn neighbors_flagged(graph: &FactorGraph, vv: Seq<bool>, fv: Seq<bool>, n: Node) -> bool {
    match n {
        Node::Var(v) => forall|i: int| 0 <= i < graph.vars@[v as int].factors@.len()
            ==> fv[#[trigger] graph.vars@[v as int].factors@[i] as int],
        Node::Factor(f) => forall|p: int| 0 <= p < graph.factors@[f as int].vars@.len()
            ==> vv[#[trigger] graph.factors@[f as int].vars@[p] as int],
    }
}

/// Every neighbour of `n` stands in the order.
pub open spec fn neighbors_listed(graph: &FactorGraph, s: Seq<(Node, Option<Node>)>, n: Node) -> bool {
    match n {
        Node::Var(v) => forall|i: int| 0 <= i < graph.vars@[v as int].factors@.len()
            ==> listed(s, Node::Factor(#[trigger] graph.vars@[v as int].factors@[i])),
        Node::Factor(f) => forall|p: int| 0 <= p < graph.factors@[f as int].vars@.len()
            ==> listed(s, Node::Var(#[trigger] graph.factors@[f as int].vars@[p])),
    }
}

/// The flags mark exactly the nodes of the order and those of `stack`.
pub open spec fn flags_match(graph: &FactorGraph, vv: Seq<bool>, fv: Seq<bool>, s: Seq<(Node, Option<Node>)>, stack: Seq<Node>) -> bool {
    forall|n: Node| node_ok(graph, n) ==> (#[trigger] flagged(vv, fv, n) <==> (listed(s, n) || stack.contains(n)))
}

/// Flags only get added.
pub open spec fn flags_grow(graph: &FactorGraph, vv: Seq<bool>, fv: Seq<bool>, vv2: Seq<bool>, fv2: Seq<bool>) -> bool {
    forall|n: Node| node_ok(graph, n) && flagged(vv, fv, n) ==> #[trigger] flagged(vv2, fv2, n)
}

proof fn lemma_neighbors_grow(graph: &FactorGraph, vv: Seq<bool>, fv: Seq<bool>, vv2: Seq<bool>, fv2: Seq<bool>, n: Node)
    requires
        graph.wf(),
        node_ok(graph, n),
        flags_grow(graph, vv, fv, vv2, fv2),
        neighbors_flagged(graph, vv, fv, n),
    ensures
        neighbors_flagged(graph, vv2, fv2, n),
{
    match n {
        Node::Var(v) => {
            assert forall|i: int| 0 <= i < graph.vars@[v as int].factors@.len()
                implies fv2[#[trigger] graph.vars@[v as int].factors@[i] as int] by {
                let f = graph.vars@[v as int].factors@[i];
                assert(flagged(vv, fv, Node::Factor(f)));
                assert(flagged(vv2, fv2, Node::Factor(f)));
            }
        },
        Node::Factor(f) => {
            assert forall|p: int| 0 <= p < graph.factors@[f as int].vars@.len()
                implies vv2[#[trigger] graph.factors@[f as int].vars@[p] as int] by {
                let v = graph.factors@[f as int].vars@[p];
                assert(flagged(vv, fv, Node::Var(v)));
                assert(flagged(vv2, fv2, Node::Var(v)));
            }
        },
    }
}

proof fn lemma_listed_extend(s: Seq<(Node, Option<Node>)>, t: Seq<(Node, Option<Node>)>, n: Node)
    requires
        s.len() <= t.len(),
        forall|k: int| 0 <= k < s.len() ==> t[k] == s[k],
        listed(s, n),
    ensures
        listed(t, n),
{
    let i = choose|i: int| 0 <= i < s.len() && #[trigger] s[i].0 == n;
    assert(t[i].0 == n);
}

proof fn lemma_listed_push(s: Seq<(Node, Option<Node>)>, x: (Node, Option<Node>), n: Node)
    ensures
        listed(s.push(x), n) <==> (listed(s, n) || x.0 == n),
{
    let t = s.push(x);
    if listed(t, n) {
        let i = choose|i: int| 0 <= i < t.len() && #[trigger] t[i].0 == n;
        if i < s.len() {
            assert(s[i].0 == n);
        }
    }
    if listed(s, n) {
        lemma_listed_extend(s, t, n);
    }
    if x.0 == n {
        assert(t[s.len() as int].0 == n);
    }
}

/// Flags a node.
fn flag(vv: &mut Vec<bool>, fv: &mut Vec<bool>, n: Node)
    requires
        match n {
            Node::Var(v) => v < old(vv)@.len(),
            Node::Factor(f) => f < old(fv)@.len(),
        },
    ensures
        final(vv)@ == match n {
            Node::Var(v) => old(vv)@.update(v as int, true),
            Node::Factor(_) => old(vv)@,
        },
        final(fv)@ == match n {
            Node::Var(_) => old(fv)@,
            Node::Factor(f) => old(fv)@.update(f as int, true),
        },
{
    match n {
        Node::Var(v) => vv.set(v, true),
        Node::Factor(f) => fv.set(f, true),
    }
}

/// Appends to `out` the part of the graph reached from `node` through nodes
/// not yet flagged, bottom-up, ending with `(node, parent)`. The flags mark
/// the nodes of `out` and of `stack` (the nodes whose walk is under way),
/// and `node`.
fn visit(
    graph: &FactorGraph,
    node: Node,
    parent: Option<Node>,
    vv: &mut Vec<bool>,
    fv: &mut Vec<bool>,
    out: &mut Vec<(Node, Option<Node>)>,
    Ghost(stack): Ghost<Seq<Node>>,
)
    requires
        graph.wf(),
        old(vv)@.len() == graph.vars@.len(),
        old(fv)@.len() == graph.factors@.len(),
        order_entry_ok(graph, node, parent),
        forall|i: int| 0 <= i < old(out)@.len() ==> order_entry_ok(graph, #[trigger] old(out)@[i].0, old(out)@[i].1),
        flags_match(graph, old(vv)@, old(fv)@, old(out)@, stack.push(node)),
        forall|i: int| 0 <= i < old(out)@.len() ==> neighbors_flagged(graph, old(vv)@, old(fv)@, #[trigger] old(out)@[i].0),
        distinct_nodes(old(out)@),
        forall|n: Node| stack.push(node).contains(n) ==> !#[trigger] listed(old(out)@, n),
        !stack.contains(node),
        forall|n: Node| #[trigger] stack.contains(n) ==> node_ok(graph, n),
        parent matches Some(p) ==> stack.contains(p),
    ensures
        final(vv)@.len() == graph.vars@.len(),
        final(fv)@.len() == graph.factors@.len(),
        count_false(final(vv)@) + count_false(final(fv)@) <= count_false(old(vv)@) + count_false(old(fv)@),
        final(out)@.len() > old(out)@.len(),
        forall|k: int| 0 <= k < old(out)@.len() ==> final(out)@[k] == old(out)@[k],
        final(out)@.last() == (node, parent),
        forall|i: int| 0 <= i < final(out)@.len() ==> order_entry_ok(graph, #[trigger] final(out)@[i].0, final(out)@[i].1),
        forall|i: int| old(out)@.len() <= i < final(out)@.len() - 1 ==> resolved(final(out)@, i),
        flags_grow(graph, old(vv)@, old(fv)@, final(vv)@, final(fv)@),
        flags_match(graph, final(vv)@, final(fv)@, final(out)@, stack),
        forall|i: int| 0 <= i < final(out)@.len() ==> neighbors_flagged(graph, final(vv)@, final(fv)@, #[trigger] final(out)@[i].0),
        distinct_nodes(final(out)@),
        forall|n: Node| stack.contains(n) ==> !#[trigger] listed(final(out)@, n),
    decreases count_false(old(vv)@) + count_false(old(fv)@),
{
    let start = out.len();
    let ghost measure = count_false(vv@) + count_false(fv@);
    let ghost vv0 = vv@;
    let ghost fv0 = fv@;
    let ghost stack1 = stack.push(node);
    proof {
        assert(stack1.contains(node)) by {
            assert(stack1[stack.len() as int] == node);
        }
        assert(node_ok(graph, node));
        assert(flagged(vv@, fv@, node));
        assert forall|n: Node| #[trigger] stack1.contains(n) <==> (stack.contains(n) || n == node) by {
            if stack1.contains(n) {
                let k = choose|k: int| 0 <= k < stack1.len() && stack1[k] == n;
                if k < stack.len() {
                    assert(stack[k] == n);
                }
            }
            if stack.contains(n) {
                let k = choose|k: int| 0 <= k < stack.len() && stack[k] == n;
                assert(stack1[k] == n);
            }
        }
        match parent {
            Some(p) => {
                assert(stack1.contains(p));
            },
            None => {},
        }
    }
    let n: usize = match node {
        Node::Var(v) => graph.vars[v].factors.len(),
        Node::Factor(f) => graph.factors[f].vars.len(),
    };
    let mut i: usize = 0;
    while i < n
        invariant
            graph.wf(),
            node_ok(graph, node),
            n == match node {
                Node::Var(v) => graph.vars@[v as int].factors@.len(),
                Node::Factor(f) => graph.factors@[f as int].vars@.len(),
            },
            i <= n,
            vv@.len() == graph.vars@.len(),
            fv@.len() == graph.factors@.len(),
            count_false(vv@) + count_false(fv@) <= measure,
            measure == count_false(old(vv)@) + count_false(old(fv)@),
            vv0 == old(vv)@,
            fv0 == old(fv)@,
            out@.len() >= start,
            forall|k: int| 0 <= k < start ==> out@[k] == old(out)@[k],
            start == old(out)@.len(),
            forall|j: int| 0 <= j < out@.len() ==> order_entry_ok(graph, #[trigger] out@[j].0, out@[j].1),
            forall|j: int| start <= j < out@.len() ==> resolved(out@, j) || out@[j].1 == Some(node),
            stack1 == stack.push(node),
            forall|m: Node| #[trigger] stack1.contains(m) <==> (stack.contains(m) || m == node),
            forall|m: Node| #[trigger] stack.contains(m) ==> node_ok(graph, m),
            !stack.contains(node),
            flags_grow(graph, vv0, fv0, vv@, fv@),
            flags_match(graph, vv@, fv@, out@, stack1),
            forall|j: int| 0 <= j < out@.len() ==> neighbors_flagged(graph, vv@, fv@, #[trigger] out@[j].0),
            distinct_nodes(out@),
            forall|m: Node| stack1.contains(m) ==> !#[trigger] listed(out@, m),
            parent matches Some(p) ==> stack1.contains(p),
            order_entry_ok(graph, node, parent),
            match node {
                Node::Var(v) => forall|j: int| 0 <= j < i ==> fv@[#[trigger] graph.vars@[v as int].factors@[j] as int],
                Node::Factor(f) => forall|j: int| 0 <= j < i ==> vv@[#[trigger] graph.factors@[f as int].vars@[j] as int],
            },
        decreases n - i,
    {
        let child: Node = match node {
            Node::Var(v) => Node::Factor(graph.vars[v].factors[i]),
            Node::Factor(f) => Node::Var(graph.factors[f].vars[i]),
        };
        proof {
            match node {
                Node::Var(v) => {
                    assert(graph.vars@[v as int].factors@[i as int] < graph.factors@.len());
                    assert(graph.factors@[graph.vars@[v as int].factors@[i as int] as int].vars@.contains(v));
                },
                Node::Factor(f) => {
                    assert(graph.factors@[f as int].vars@[i as int] < graph.vars@.len());
                    assert(graph.vars@[graph.factors@[f as int].vars@[i as int] as int].factors@.contains(f));
                },
            }
            assert(node_ok(graph, child));
        }
        let is_parent = match (parent, child) {
            (Some(Node::Factor(pf)), Node::Factor(cf)) => pf == cf,
            (Some(Node::Var(pv)), Node::Var(cv)) => pv == cv,
            _ => false,
        };
        let seen = match child {
            Node::Var(cv) => vv[cv],
            Node::Factor(cf) => fv[cf],
        };
        proof {
            if is_parent {
                let p = parent->0;
                assert(p == child);
                assert(stack1.contains(p));
                assert(flagged(vv@, fv@, child));
            }
            assert(seen == flagged(vv@, fv@, child));
        }
        if !is_parent && !seen {
            let ghost vv1 = vv@;
            let ghost fv1 = fv@;
            let ghost before = out@;
            proof {
                match child {
                    Node::Var(cv) => lemma_count_false_mark(vv@, cv as int),
                    Node::Factor(cf) => lemma_count_false_mark(fv@, cf as int),
                }
            }
            flag(vv, fv, child);
            proof {
                let stack2 = stack1.push(child);
                assert forall|m: Node| #[trigger] stack2.contains(m) <==> (stack1.contains(m) || m == child) by {
                    if stack2.contains(m) {
                        let k = choose|k: int| 0 <= k < stack2.len() && stack2[k] == m;
                        if k < stack1.len() {
                            assert(stack1[k] == m);
                        }
                    }
                    if stack1.contains(m) {
                        let k = choose|k: int| 0 <= k < stack1.len() && stack1[k] == m;
                        assert(stack2[k] == m);
                    }
                    if m == child {
                        assert(stack2[stack1.len() as int] == m);
                    }
                }
                assert forall|m: Node| node_ok(graph, m) implies (#[trigger] flagged(vv@, fv@, m) <==> (listed(out@, m) || stack2.contains(m))) by {
                    assert(flagged(vv@, fv@, m) == (flagged(vv1, fv1, m) || m == child));
                    assert(flagged(vv1, fv1, m) <==> (listed(out@, m) || stack1.contains(m)));
                }
                assert(flags_grow(graph, vv1, fv1, vv@, fv@)) by {
                    assert forall|m: Node| node_ok(graph, m) && flagged(vv1, fv1, m) implies #[trigger] flagged(vv@, fv@, m) by {
                        assert(flagged(vv@, fv@, m) == (flagged(vv1, fv1, m) || m == child));
                    }
                }
                assert forall|j: int| 0 <= j < out@.len() implies neighbors_flagged(graph, vv@, fv@, #[trigger] out@[j].0) by {
                    assert(order_entry_ok(graph, out@[j].0, out@[j].1));
                    lemma_neighbors_grow(graph, vv1, fv1, vv@, fv@, out@[j].0);
                }
                assert(!listed(out@, child)) by {
                    assert(!flagged(vv1, fv1, child));
                }
                assert(!stack1.contains(child)) by {
                    assert(!flagged(vv1, fv1, child));
                }
                assert forall|m: Node| stack2.contains(m) implies !#[trigger] listed(out@, m) by {
                    if m != child {
                        assert(stack1.contains(m));
                    }
                }
                assert forall|m: Node| #[trigger] stack1.contains(m) implies node_ok(graph, m) by {
                    if m != node {
                        assert(stack.contains(m));
                    }
                }
                assert(stack1.contains(node));
                assert(order_entry_ok(graph, child, Some(node)));
            }
            let ghost vv2 = vv@;
            let ghost fv2 = fv@;
            visit(graph, child, Some(node), vv, fv, out, Ghost(stack1));
            proof {
                assert forall|j: int| start <= j < out@.len() implies resolved(out@, j) || out@[j].1 == Some(node) by {
                    if j < before.len() {
                        if resolved(before, j) {
                            lemma_resolved_extend(before, out@, j);
                        }
                    }
                }
                assert(flags_grow(graph, vv0, fv0, vv@, fv@)) by {
                    assert forall|m: Node| node_ok(graph, m) && flagged(vv0, fv0, m) implies #[trigger] flagged(vv@, fv@, m) by {
                        assert(flagged(vv1, fv1, m));
                        assert(flagged(vv2, fv2, m));
                    }
                }
                assert(flagged(vv2, fv2, child));
                assert(flagged(vv@, fv@, child));
                match node {
                    Node::Var(v) => {
                        assert forall|j: int| 0 <= j < i + 1 implies fv@[#[trigger] graph.vars@[v as int].factors@[j] as int] by {
                            let m = Node::Factor(graph.vars@[v as int].factors@[j]);
                            if j < i {
                                assert(flagged(vv1, fv1, m));
                                assert(flagged(vv2, fv2, m));
                                assert(flagged(vv@, fv@, m));
                            }
                        }
                    },
                    Node::Factor(f) => {
                        assert forall|j: int| 0 <= j < i + 1 implies vv@[#[trigger] graph.factors@[f as int].vars@[j] as int] by {
                            let m = Node::Var(graph.factors@[f as int].vars@[j]);
                            if j < i {
                                assert(flagged(vv1, fv1, m));
                                assert(flagged(vv2, fv2, m));
                                assert(flagged(vv@, fv@, m));
                            }
                        }
                    },
                }
            }
        } else {
            proof {
                assert(flagged(vv@, fv@, child));
            }
        }
        i += 1;
    }
    let ghost before = out@;
    proof {
        match node {
            Node::Var(v) => {
                assert(neighbors_flagged(graph, vv@, fv@, node));
            },
            Node::Factor(f) => {
                assert(neighbors_flagged(graph, vv@, fv@, node));
            },
        }
        assert(!listed(before, node));
    }
    out.push((node, parent));
    proof {
        let last = out@.len() - 1;
        assert(out@[last].0 == node);
        assert forall|j: int| start <= j < out@.len() - 1 implies resolved(out@, j) by {
            if resolved(before, j) {
                lemma_resolved_extend(before, out@, j);
            } else {
                assert(out@[last].0 == out@[j].1->0);
            }
        }
        assert forall|m: Node| node_ok(graph, m) implies (#[trigger] flagged(vv@, fv@, m) <==> (listed(out@, m) || stack.contains(m))) by {
            lemma_listed_push(before, (node, parent), m);
        }
        assert forall|j: int| 0 <= j < out@.len() implies neighbors_flagged(graph, vv@, fv@, #[trigger] out@[j].0) by {
            if j < last {
                assert(out@[j] == before[j]);
            }
        }
        assert forall|a: int, b: int| 0 <= a < out@.len() && 0 <= b < out@.len() && a != b implies out@[a].0 != out@[b].0 by {
            if a == last {
                assert(before[b].0 == out@[b].0);
            } else if b == last {
                assert(before[a].0 == out@[a].0);
            } else {
                assert(before[a].0 != before[b].0);
            }
        }
        assert forall|m: Node| stack.contains(m) implies !#[trigger] listed(out@, m) by {
            lemma_listed_push(before, (node, parent), m);
            assert(stack1.contains(m));
        }
    }
}

/// The order in which acyclic propagation towards `dest` visits the graph:
/// `(node, parent)` pairs found by a depth-first walk from `dest`, each node
/// after everything under it, ending with `dest` itself. No node stands twice,
/// and every neighbour of a node of the order is in the order, so the order
/// covers everything connected to `dest`.
pub fn propagation_order(graph: &FactorGraph, dest: usize) -> (r: Vec<(Node, Option<Node>)>)
    requires
        graph.wf(),
        dest < graph.vars@.len(),
    ensures
        r@.len() > 0,
        r@.last() == (Node::Var(dest), None::<Node>),
        bottom_up(graph, r@, 0),
        distinct_nodes(r@),
        forall|i: int| 0 <= i < r@.len() ==> neighbors_listed(graph, r@, #[trigger] r@[i].0),
{
    let mut vv: Vec<bool> = Vec::new();
    let mut k: usize = 0;
    while k < graph.vars.len()
        invariant
            k <= graph.vars@.len(),
            vv@.len() == k,
            forall|j: int| 0 <= j < k ==> !vv@[j],
        decreases graph.vars@.len() - k,
    {
        vv.push(false);
        k += 1;
    }
    let mut fv: Vec<bool> = Vec::new();
    let mut k: usize = 0;
    while k < graph.factors.len()
        invariant
            k <= graph.factors@.len(),
            fv@.len() == k,
            forall|j: int| 0 <= j < k ==> !fv@[j],
        decreases graph.factors@.len() - k,
    {
        fv.push(false);
        k += 1;
    }
    vv.set(dest, true);
    let mut out: Vec<(Node, Option<Node>)> = Vec::new();
    let root = Node::Var(dest);
    proof {
        let st = Seq::<Node>::empty().push(root);
        assert forall|n: Node| node_ok(graph, n) implies (#[trigger] flagged(vv@, fv@, n) <==> (listed(out@, n) || st.contains(n))) by {
            if st.contains(n) {
                let k = choose|k: int| 0 <= k < st.len() && st[k] == n;
                assert(n == root);
            }
            if n == root {
                assert(st[0] == n);
            }
        }
        assert forall|n: Node| st.contains(n) implies !#[trigger] listed(out@, n) by {}
    }
    visit(graph, root, None, &mut vv, &mut fv, &mut out, Ghost(Seq::empty()));
    proof {
        assert forall|i: int| 0 <= i < out@.len() implies neighbors_listed(graph, out@, #[trigger] out@[i].0) by {
            let n = out@[i].0;
            assert(neighbors_flagged(graph, vv@, fv@, n));
            assert(order_entry_ok(graph, n, out@[i].1));
            match n {
                Node::Var(v) => {
                    assert forall|j: int| 0 <= j < graph.vars@[v as int].factors@.len()
                        implies listed(out@, Node::Factor(#[trigger] graph.vars@[v as int].factors@[j])) by {
                        let m = Node::Factor(graph.vars@[v as int].factors@[j]);
                        assert(flagged(vv@, fv@, m));
                    }
                },
                Node::Factor(f) => {
                    assert forall|p: int| 0 <= p < graph.factors@[f as int].vars@.len()
                        implies listed(out@, Node::Var(#[trigger] graph.factors@[f as int].vars@[p])) by {
                        let m = Node::Var(graph.factors@[f as int].vars@[p]);
                        assert(flagged(vv@, fv@, m));
                    }
                },
            }
        }
    }
    out
}

/// Acyclic propagation towards variable `var`: the propagation order from
/// `var`, which covers once each node connected to `var`, and the step that
/// each of its entries asks for. Refused on a cyclic
/// graph.
pub fn propagate_acyclic(graph: &FactorGraph, cyclic: bool, var: usize) -> (r: Result<(Vec<(Node, Option<Node>)>, Vec<Step>), BPError>)
    requires
        graph.wf(),
        var < graph.vars@.len(),
    ensures
        cyclic <==> r is Err,
        r is Err ==> r->Err_0 == BPError::NotAcyclic,
        r is Ok ==> ({
            let (order, steps) = r->Ok_0;
            &&& order@.len() > 0
            &&& order@.last() == (Node::Var(var), None::<Node>)
            &&& bottom_up(graph, order@, 0)
            &&& distinct_nodes(order@)
            &&& forall|i: int| 0 <= i < order@.len() ==> neighbors_listed(graph, order@, #[trigger] order@[i].0)
            &&& steps@.len() == order@.len()
            &&& forall|i: int| 0 <= i < order@.len() ==> step_ok(graph, #[trigger] order@[i].0, order@[i].1, steps@[i])
        }),
{
    if cyclic {
        return Err(BPError::NotAcyclic);
    }
    let order = propagation_order(graph, var);
    match acyclic_steps(graph, cyclic, &order) {
        Ok(steps) => Ok((order, steps)),
        Err(e) => Err(e),
    }
}


/// One step of loopy propagation: every factor towards all its variables,
/// in graph order, then every variable towards all its edges, in graph order.
pub fn loopy_step_plan(graph: &FactorGraph) -> (r: Vec<Step>)
    requires
        graph.wf(),
    ensures
        r@.len() == graph.factors@.len() + graph.vars@.len(),
        forall|i: int| 0 <= i < graph.factors@.len() ==> (#[trigger] r@[i] matches Step::Factor { factor, dest }
            && factor == i && dest@ == graph.factors@[i].vars@),
        forall|v: int| 0 <= v < graph.vars@.len() ==> (#[trigger] r@[graph.factors@.len() + v] matches Step::Var { var, to_edges }
            && var == v && to_edges@ == graph.vars@[v].edges@),
{
    let mut steps: Vec<Step> = Vec::new();
    let mut f: usize = 0;
    while f < graph.factors.len()
        invariant
            graph.wf(),
            f <= graph.factors@.len(),
            steps@.len() == f,
            forall|i: int| 0 <= i < f ==> (#[trigger] steps@[i] matches Step::Factor { factor, dest }
                && factor == i && dest@ == graph.factors@[i].vars@),
        decreases graph.factors@.len() - f,
    {
        let dest = factor_all_dest(graph, f);
        steps.push(Step::Factor { factor: f, dest });
        f += 1;
    }
    let nf = graph.factors.len();
    let mut v: usize = 0;
    while v < graph.vars.len()
        invariant
            graph.wf(),
            nf == graph.factors@.len(),
            v <= graph.vars@.len(),
            steps@.len() == nf + v,
            forall|i: int| 0 <= i < nf ==> (#[trigger] steps@[i] matches Step::Factor { factor, dest }
                && factor == i && dest@ == graph.factors@[i].vars@),
            forall|w: int| 0 <= w < v ==> (#[trigger] steps@[nf + w] matches Step::Var { var, to_edges }
                && var == w && to_edges@ == graph.vars@[w].edges@),
        decreases graph.vars@.len() - v,
    {
        let to_edges = graph.vars[v].edges.clone();
        assert(to_edges@ == graph.vars@[v as int].edges@);
        steps.push(Step::Var { var: v, to_edges });
        proof {
            assert(steps@[nf + v as int] matches Step::Var { var, to_edges } && var == v);
        }
        v += 1;
    }
    steps
}

} // verus!
