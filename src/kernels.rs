use vstd::prelude::*;
use crate::graph::{check_contains, ClassVal, Factor, FactorKind, PublicValue};

verus! {

/// A constant operator applied to one incoming belief on the two-edge fast
/// paths.
#[derive(Clone, Copy, Debug, PartialEq, Eq, Structural)]
pub enum UnaryOp {
    /// `y = x ^ c`
    XorCst,
    /// `y = x & c`, sent to the result
    AndCst,
    /// `y = x & c`, sent back to the operand
    InvAndCst,
    /// `y = x + c`; with `negate`, sent back to the operand (`x = y - c`)
    AddCst { negate: bool },
    /// `y = table[x]`, sent to the result
    MapTable,
    /// `y = table[x]`, sent back to the operand
    MapTableInv,
}

/// How the outgoing message to one destination is formed.
#[derive(Clone, Copy, Debug, PartialEq, Eq, Structural)]
pub enum Message {
    /// The message is uniform; nothing is computed.
    Uniform,
    /// The belief coming in at position `src`, optionally inverted before and
    /// after, pushed through a constant operator.
    Unary { src: usize, pre_not: bool, op: UnaryOp, post_not: bool },
    /// The product, in the factor's transform domain, of the public constant
    /// and of the beliefs coming in at every position but `except`, brought
    /// back by the inverse transform of the destination's role.
    Product { except: usize },
}

/// What one factor update does: the message to each destination, in the
/// order of the destinations; for each position of the factor whether the
/// belief coming in there is cleared (reset to uniform); and the public
/// constant that the constant operators and products use.
pub struct FactorPlan {
    pub outputs: Vec<Message>,
    pub cleared: Vec<bool>,
    pub constant: PublicValue,
}

/// How many incoming beliefs are uniform.
#[derive(Clone, Copy, Debug, PartialEq, Eq, Structural)]
pub enum Uniformity {
    AllFull,
    /// Exactly one, at this position.
    Sole(usize),
    /// At least two.
    Several,
}

pub open spec fn all_full(full: Seq<bool>) -> bool {
    forall|i: int| 0 <= i < full.len() ==> full[i]
}

pub open spec fn sole_uniform(full: Seq<bool>, p: int) -> bool {
    &&& 0 <= p < full.len()
    &&& !full[p]
    &&& forall|i: int| 0 <= i < full.len() && i != p ==> full[i]
}

pub open spec fn several_uniform(full: Seq<bool>) -> bool {
    exists|i: int, j: int| 0 <= i < full.len() && 0 <= j < full.len() && i != j && !full[i] && !full[j]
}

/// For each position of `f`, whether its variable is among `dest`.
pub open spec fn taken(f: &Factor, dest: Seq<usize>) -> Seq<bool> {
    Seq::new(f.vars@.len(), |p: int| dest.contains(f.vars@[p]))
}

pub open spec fn unary(src: int, op: UnaryOp) -> Message {
    Message::Unary { src: src as usize, pre_not: false, op, post_not: false }
}

/// XOR and ADD with three edges or more: at least two uniform beliefs, or a
/// single one that is not a destination, make every message uniform; a single
/// uniform destination is the only one that gets a computed message.
pub open spec fn shortcut_msg(full: Seq<bool>, tk: Seq<bool>, i: int) -> Message {
    if all_full(full) {
        Message::Product { except: i as usize }
    } else if exists|p: int| sole_uniform(full, p) && tk[p] {
        if !full[i] {
            Message::Product { except: i as usize }
        } else {
            Message::Uniform
        }
    } else {
        Message::Uniform
    }
}

/// Which incoming beliefs a shortcut update clears (when clearing is asked):
/// all of them when something is computed (a uniform belief stays uniform),
/// those of the destinations when every message is uniform.
pub open spec fn shortcut_cleared(full: Seq<bool>, tk: Seq<bool>, q: int) -> bool {
    if all_full(full) || exists|p: int| sole_uniform(full, p) && tk[p] {
        true
    } else {
        tk[q]
    }
}

/// On a two-edge factor, the message to one side is made from the other
/// side's belief. When clearing is asked, both the belief read and the
/// belief coming in on the destination's own edge are cleared.
pub open spec fn two_edge_cleared(tk: Seq<bool>, q: int) -> bool {
    tk[q] || tk[1 - q]
}

pub open spec fn xor_msg(f: &Factor, full: Seq<bool>, dest: Seq<usize>, i: int) -> Message {
    if f.arity() == 2 {
        unary(1 - i, UnaryOp::XorCst)
    } else {
        shortcut_msg(full, taken(f, dest), i)
    }
}

pub open spec fn xor_cleared(f: &Factor, full: Seq<bool>, dest: Seq<usize>, q: int) -> bool {
    if f.arity() == 2 {
        two_edge_cleared(taken(f, dest), q)
    } else {
        shortcut_cleared(full, taken(f, dest), q)
    }
}

pub open spec fn add_msg(f: &Factor, full: Seq<bool>, dest: Seq<usize>, i: int) -> Message {
    if f.arity() == 2 {
        unary(1 - i, UnaryOp::AddCst { negate: i != 0 })
    } else {
        shortcut_msg(full, taken(f, dest), i)
    }
}

pub open spec fn and_msg(f: &Factor, neg: Seq<bool>, i: int) -> Message {
    if f.has_res && f.arity() == 2 {
        Message::Unary {
            src: (1 - i) as usize,
            pre_not: neg[1 - i],
            op: if i == 0 { UnaryOp::AndCst } else { UnaryOp::InvAndCst },
            post_not: neg[i],
        }
    } else {
        Message::Product { except: i as usize }
    }
}

pub open spec fn and_cleared(f: &Factor, dest: Seq<usize>, q: int) -> bool {
    if f.has_res && f.arity() == 2 {
        two_edge_cleared(taken(f, dest), q)
    } else {
        true
    }
}

pub open spec fn lookup_msg(i: int) -> Message {
    unary(1 - i, if i == 0 { UnaryOp::MapTable } else { UnaryOp::MapTableInv })
}

/// The two public values are the same constant(s).
pub open spec fn same_public(a: &PublicValue, b: &PublicValue) -> bool {
    match (a, b) {
        (PublicValue::Single(x), PublicValue::Single(y)) => x == y,
        (PublicValue::Multi(x), PublicValue::Multi(y)) => x@ == y@,
        _ => false,
    }
}

/// Every destination is a variable of the factor.
pub open spec fn dest_ok(f: &Factor, dest: Seq<usize>) -> bool {
    forall|k: int| 0 <= k < dest.len() ==> f.vars@.contains(#[trigger] dest[k])
}

proof fn lemma_sole_unique(full: Seq<bool>, p: int, q: int)
    requires
        sole_uniform(full, p),
        sole_uniform(full, q),
    ensures
        p == q,
{
    if p != q {
        assert(full[q]);
    }
}

/// Counts the uniform (not materialised) incoming beliefs, up to two.
pub fn classify_uniform(full: &Vec<bool>) -> (r: Uniformity)
    ensures
        r == Uniformity::AllFull <==> all_full(full@),
        r matches Uniformity::Sole(p) ==> sole_uniform(full@, p as int),
        r == Uniformity::Several ==> several_uniform(full@),
{
    let mut first: Option<usize> = None;
    let mut i: usize = 0;
    while i < full.len()
        invariant
            i <= full@.len(),
            first matches None ==> forall|j: int| 0 <= j < i ==> full@[j],
            first matches Some(p) ==> p < i && !full@[p as int] && forall|j: int|
                0 <= j < i && j != p ==> full@[j],
        decreases full@.len() - i,
    {
        if !full[i] {
            match first {
                None => {
                    first = Some(i);
                },
                Some(p) => {
                    assert(!full@[p as int] && !full@[i as int]);
                    return Uniformity::Several;
                },
            }
        }
        i += 1;
    }
    match first {
        None => Uniformity::AllFull,
        Some(p) => Uniformity::Sole(p),
    }
}

/// For each position of the factor, whether its variable is a destination.
pub fn taken_dest(factor: &Factor, dest: &Vec<usize>) -> (r: Vec<bool>)
    requires
        factor.wf(),
    ensures
        r@ == taken(factor, dest@),
{
    let mut r: Vec<bool> = Vec::new();
    let mut p: usize = 0;
    while p < factor.vars.len()
        invariant
            factor.wf(),
            p <= factor.vars@.len(),
            r@.len() == p,
            forall|q: int| 0 <= q < p ==> r@[q] == dest@.contains(factor.vars@[q]),
        decreases factor.vars@.len() - p,
    {
        let t = check_contains(dest, factor.vars[p]);
        r.push(t);
        p += 1;
    }
    assert(r@ =~= taken(factor, dest@));
    r
}

/// Clears, when asked, the incoming beliefs at the destination positions;
/// used where every outgoing message is uniform.
pub fn reset_incoming(factor: &Factor, dest_taken: &Vec<bool>, clear_incoming: bool) -> (r: Vec<bool>)
    requires
        factor.wf(),
        dest_taken@.len() == factor.vars@.len(),
    ensures
        r@.len() == factor.vars@.len(),
        forall|q: int| 0 <= q < r@.len() ==> r@[q] == (clear_incoming && dest_taken@[q]),
{
    let mut r: Vec<bool> = Vec::new();
    let mut q: usize = 0;
    while q < dest_taken.len()
        invariant
            q <= dest_taken@.len(),
            r@.len() == q,
            forall|j: int| 0 <= j < q ==> r@[j] == (clear_incoming && dest_taken@[j]),
        decreases dest_taken@.len() - q,
    {
        r.push(clear_incoming && dest_taken[q]);
        q += 1;
    }
    r
}

/// The message of each destination, taken from the message of its position.
fn route(factor: &Factor, dest: &Vec<usize>, by_pos: &Vec<Message>) -> (r: Vec<Message>)
    requires
        factor.wf(),
        dest_ok(factor, dest@),
        by_pos@.len() == factor.vars@.len(),
    ensures
        r@.len() == dest@.len(),
        forall|k: int| 0 <= k < dest@.len() ==> r@[k] == by_pos@[factor.pos(dest@[k])],
{
    let mut r: Vec<Message> = Vec::new();
    let mut k: usize = 0;
    while k < dest.len()
        invariant
            factor.wf(),
            dest_ok(factor, dest@),
            by_pos@.len() == factor.vars@.len(),
            k <= dest@.len(),
            r@.len() == k,
            forall|j: int| 0 <= j < k ==> r@[j] == by_pos@[factor.pos(dest@[j])],
        decreases dest@.len() - k,
    {
        assert(factor.vars@.contains(dest@[k as int]));
        let i = factor.get_index_of(dest[k]);
        r.push(by_pos[i]);
        k += 1;
    }
    r
}

/// A copy of a public value.
pub fn copy_public(p: &PublicValue) -> (r: PublicValue)
    ensures
        same_public(&r, p),
{
    match p {
        PublicValue::Single(c) => PublicValue::Single(*c),
        PublicValue::Multi(v) => {
            let mut w: Vec<ClassVal> = Vec::new();
            let mut i: usize = 0;
            while i < v.len()
                invariant
                    i <= v@.len(),
                    w@ == v@.subrange(0, i as int),
                decreases v@.len() - i,
            {
                w.push(v[i]);
                i += 1;
                assert(w@ =~= v@.subrange(0, i as int));
            }
            assert(w@ =~= v@);
            PublicValue::Multi(w)
        },
    }
}


/// The messages and clearings of XOR and ADD with three edges or more, by
/// position.
fn shortcut_plan(factor: &Factor, full: &Vec<bool>, tk: &Vec<bool>, clear_incoming: bool) -> (r: (Vec<Message>, Vec<bool>))
    requires
        factor.wf(),
        full@.len() == factor.vars@.len(),
        tk@.len() == full@.len(),
    ensures
        r.0@.len() == full@.len(),
        r.1@.len() == full@.len(),
        forall|i: int| 0 <= i < full@.len() ==> r.0@[i] == shortcut_msg(full@, tk@, i),
        forall|q: int| 0 <= q < full@.len() ==> r.1@[q] == (clear_incoming && shortcut_cleared(full@, tk@, q)),
{
    let u = classify_uniform(full);
    let sole_dest: bool = match u {
        Uniformity::Sole(p) => tk[p],
        _ => false,
    };
    proof {
        if sole_dest {
            let p = choose|p: int| sole_uniform(full@, p) && tk@[p];
            assert(sole_uniform(full@, p) && tk@[p]);
        }
        if exists|p: int| sole_uniform(full@, p) && tk@[p] {
            let p = choose|p: int| sole_uniform(full@, p) && tk@[p];
            match u {
                Uniformity::Sole(p2) => {
                    lemma_sole_unique(full@, p, p2 as int);
                },
                Uniformity::AllFull => {
                    assert(full@[p]);
                },
                Uniformity::Several => {
                    let (i, j) = choose|i: int, j: int| 0 <= i < full@.len() && 0 <= j < full@.len() && i != j && !full@[i] && !full@[j];
                    if i != p {
                        assert(full@[i]);
                    } else {
                        assert(full@[j]);
                    }
                },
            }
        }
        assert(sole_dest <==> exists|p: int| sole_uniform(full@, p) && tk@[p]);
    }
    let everything = match u {
        Uniformity::AllFull => true,
        _ => sole_dest,
    };
    if !everything {
        let cleared = reset_incoming(factor, tk, clear_incoming);
        let mut msgs: Vec<Message> = Vec::new();
        let mut i: usize = 0;
        while i < full.len()
            invariant
                i <= full@.len(),
                msgs@.len() == i,
                !all_full(full@),
                !(exists|p: int| sole_uniform(full@, p) && tk@[p]),
                forall|j: int| 0 <= j < i ==> msgs@[j] == shortcut_msg(full@, tk@, j),
            decreases full@.len() - i,
        {
            msgs.push(Message::Uniform);
            i += 1;
        }
        return (msgs, cleared);
    }
    let mut msgs: Vec<Message> = Vec::new();
    let mut cleared: Vec<bool> = Vec::new();
    let mut i: usize = 0;
    while i < full.len()
        invariant
            i <= full@.len(),
            msgs@.len() == i,
            cleared@.len() == i,
            u == Uniformity::AllFull <==> all_full(full@),
            sole_dest <==> exists|p: int| sole_uniform(full@, p) && tk@[p],
            all_full(full@) || sole_dest,
            forall|j: int| 0 <= j < i ==> msgs@[j] == shortcut_msg(full@, tk@, j),
            forall|j: int| 0 <= j < i ==> cleared@[j] == (clear_incoming && shortcut_cleared(full@, tk@, j)),
        decreases full@.len() - i,
    {
        let m = if u == Uniformity::AllFull || !full[i] {
            Message::Product { except: i }
        } else {
            Message::Uniform
        };
        msgs.push(m);
        cleared.push(clear_incoming);
        i += 1;
    }
    (msgs, cleared)
}

/// The messages and clearings of a two-edge factor, by position: the message
/// to position `i` is built from the belief at `1 - i` by `op0` (to position 0)
/// or `op1` (to position 1).
fn two_edge_plan(tk: &Vec<bool>, clear_incoming: bool, op0: UnaryOp, op1: UnaryOp) -> (r: (Vec<Message>, Vec<bool>))
    requires
        tk@.len() == 2,
    ensures
        r.0@.len() == 2,
        r.1@.len() == 2,
        r.0@[0] == unary(1, op0),
        r.0@[1] == unary(0, op1),
        r.1@[0] == (clear_incoming && two_edge_cleared(tk@, 0)),
        r.1@[1] == (clear_incoming && two_edge_cleared(tk@, 1)),
{
    let msgs: Vec<Message> = vec![
        Message::Unary { src: 1, pre_not: false, op: op0, post_not: false },
        Message::Unary { src: 0, pre_not: false, op: op1, post_not: false },
    ];
    let either = tk[0] || tk[1];
    let cleared: Vec<bool> = vec![clear_incoming && either, clear_incoming && either];
    (msgs, cleared)
}

/// The XOR factor update: `x_0 ^ x_1 ^ ... = c` for the reduced public value
/// `c`. `full[i]` tells whether the belief coming in at position `i` is
/// materialised (not uniform).
pub fn factor_xor(
    factor: &Factor,
    full: &Vec<bool>,
    dest: &Vec<usize>,
    clear_incoming: bool,
    pub_red: &PublicValue,
) -> (r: FactorPlan)
    requires
        factor.wf(),
        full@.len() == factor.vars@.len(),
        dest_ok(factor, dest@),
    ensures
        same_public(&r.constant, pub_red),
        r.outputs@.len() == dest@.len(),
        forall|k: int| 0 <= k < dest@.len() ==> r.outputs@[k] == xor_msg(factor, full@, dest@, factor.pos(dest@[k])),
        r.cleared@.len() == factor.vars@.len(),
        forall|q: int| 0 <= q < factor.vars@.len() ==> r.cleared@[q] == (clear_incoming && xor_cleared(factor, full@, dest@, q)),
{
    let tk = taken_dest(factor, dest);
    let (by_pos, cleared) = if factor.vars.len() == 2 {
        two_edge_plan(&tk, clear_incoming, UnaryOp::XorCst, UnaryOp::XorCst)
    } else {
        shortcut_plan(factor, full, &tk, clear_incoming)
    };
    assert forall|i: int| 0 <= i < factor.vars@.len() implies by_pos@[i] == xor_msg(factor, full@, dest@, i) by {
        if factor.vars@.len() == 2 {
            assert(i == 0 || i == 1);
        }
    }
    assert forall|q: int| 0 <= q < factor.vars@.len() implies cleared@[q] == (clear_incoming && xor_cleared(factor, full@, dest@, q)) by {
        if factor.vars@.len() == 2 {
            assert(q == 0 || q == 1);
            assert(cleared@[q] == (clear_incoming && two_edge_cleared(tk@, q)));
        } else {
            assert(cleared@[q] == (clear_incoming && shortcut_cleared(full@, tk@, q)));
        }
    }
    let outputs = route(factor, dest, &by_pos);
    FactorPlan { outputs, cleared, constant: copy_public(pub_red) }
}


/// The NOT factor update: an XOR with the all-ones constant `inv_cst`.
pub fn factor_not(
    factor: &Factor,
    full: &Vec<bool>,
    dest: &Vec<usize>,
    clear_incoming: bool,
    inv_cst: u32,
) -> (r: FactorPlan)
    requires
        factor.wf(),
        full@.len() == factor.vars@.len(),
        dest_ok(factor, dest@),
    ensures
        r.constant == PublicValue::Single(inv_cst),
        r.outputs@.len() == dest@.len(),
        forall|k: int| 0 <= k < dest@.len() ==> r.outputs@[k] == xor_msg(factor, full@, dest@, factor.pos(dest@[k])),
        r.cleared@.len() == factor.vars@.len(),
        forall|q: int| 0 <= q < factor.vars@.len() ==> r.cleared@[q] == (clear_incoming && xor_cleared(factor, full@, dest@, q)),
{
    let r = factor_xor(factor, full, dest, clear_incoming, &PublicValue::Single(inv_cst));
    FactorPlan { outputs: r.outputs, cleared: r.cleared, constant: PublicValue::Single(inv_cst) }
}

/// The ADD factor update: `x_0 = x_1 + x_2 + ... + c (mod nc)`. Position 0
/// holds the sum, so its belief enters the product negated.
pub fn factor_add(
    factor: &Factor,
    full: &Vec<bool>,
    dest: &Vec<usize>,
    clear_incoming: bool,
    pub_red: &PublicValue,
) -> (r: FactorPlan)
    requires
        factor.wf(),
        full@.len() == factor.vars@.len(),
        dest_ok(factor, dest@),
    ensures
        same_public(&r.constant, pub_red),
        r.outputs@.len() == dest@.len(),
        forall|k: int| 0 <= k < dest@.len() ==> r.outputs@[k] == add_msg(factor, full@, dest@, factor.pos(dest@[k])),
        r.cleared@.len() == factor.vars@.len(),
        forall|q: int| 0 <= q < factor.vars@.len() ==> r.cleared@[q] == (clear_incoming && xor_cleared(factor, full@, dest@, q)),
{
    let tk = taken_dest(factor, dest);
    let (by_pos, cleared) = if factor.vars.len() == 2 {
        two_edge_plan(&tk, clear_incoming, UnaryOp::AddCst { negate: false }, UnaryOp::AddCst { negate: true })
    } else {
        shortcut_plan(factor, full, &tk, clear_incoming)
    };
    assert forall|i: int| 0 <= i < factor.vars@.len() implies by_pos@[i] == add_msg(factor, full@, dest@, i) by {
        if factor.vars@.len() == 2 {
            assert(i == 0 || i == 1);
        }
    }
    assert forall|q: int| 0 <= q < factor.vars@.len() implies cleared@[q] == (clear_incoming && xor_cleared(factor, full@, dest@, q)) by {
        if factor.vars@.len() == 2 {
            assert(q == 0 || q == 1);
        }
    }
    let outputs = route(factor, dest, &by_pos);
    FactorPlan { outputs, cleared, constant: copy_public(pub_red) }
}

/// Every position maps to the leave-one-out product.
fn product_plan(n: usize, clear_incoming: bool) -> (r: (Vec<Message>, Vec<bool>))
    ensures
        r.0@.len() == n,
        r.1@.len() == n,
        forall|i: int| 0 <= i < n ==> r.0@[i] == (Message::Product { except: i as usize }),
        forall|q: int| 0 <= q < n ==> r.1@[q] == clear_incoming,
{
    let mut msgs: Vec<Message> = Vec::new();
    let mut cleared: Vec<bool> = Vec::new();
    let mut i: usize = 0;
    while i < n
        invariant
            i <= n,
            msgs@.len() == i,
            cleared@.len() == i,
            forall|j: int| 0 <= j < i ==> msgs@[j] == (Message::Product { except: j as usize }),
            forall|j: int| 0 <= j < i ==> cleared@[j] == clear_incoming,
        decreases n - i,
    {
        msgs.push(Message::Product { except: i });
        cleared.push(clear_incoming);
        i += 1;
    }
    (msgs, cleared)
}

/// The AND factor update: `x_0 = x_1 & x_2 & ... & c` when the factor has a
/// result, `c = x_0 & x_1 & ...` when it has none; operands flagged in
/// `vars_neg` enter inverted.
pub fn factor_gen_and(
    factor: &Factor,
    full: &Vec<bool>,
    dest: &Vec<usize>,
    clear_incoming: bool,
    pub_red: &PublicValue,
) -> (r: FactorPlan)
    requires
        factor.wf(),
        (factor.kind is And),
        full@.len() == factor.vars@.len(),
        dest_ok(factor, dest@),
    ensures
        same_public(&r.constant, pub_red),
        r.outputs@.len() == dest@.len(),
        forall|k: int| 0 <= k < dest@.len() ==> r.outputs@[k] == and_msg(factor, factor.kind->vars_neg@, factor.pos(dest@[k])),
        r.cleared@.len() == factor.vars@.len(),
        forall|q: int| 0 <= q < factor.vars@.len() ==> r.cleared@[q] == (clear_incoming && and_cleared(factor, dest@, q)),
{
    let vars_neg = match &factor.kind {
        FactorKind::And { vars_neg } => vars_neg,
        _ => {
            proof {
                assert(false);
            }
            return FactorPlan { outputs: Vec::new(), cleared: Vec::new(), constant: copy_public(pub_red) };
        },
    };
    let tk = taken_dest(factor, dest);
    let (by_pos, cleared) = if factor.has_res && factor.vars.len() == 2 {
        let (_, c) = two_edge_plan(&tk, clear_incoming, UnaryOp::AndCst, UnaryOp::InvAndCst);
        let msgs: Vec<Message> = vec![
            Message::Unary { src: 1, pre_not: vars_neg[1], op: UnaryOp::AndCst, post_not: vars_neg[0] },
            Message::Unary { src: 0, pre_not: vars_neg[0], op: UnaryOp::InvAndCst, post_not: vars_neg[1] },
        ];
        (msgs, c)
    } else {
        product_plan(factor.vars.len(), clear_incoming)
    };
    assert forall|i: int| 0 <= i < factor.vars@.len() implies by_pos@[i] == and_msg(factor, vars_neg@, i) by {
        if factor.has_res && factor.vars@.len() == 2 {
            assert(i == 0 || i == 1);
        }
    }
    assert forall|q: int| 0 <= q < factor.vars@.len() implies cleared@[q] == (clear_incoming && and_cleared(factor, dest@, q)) by {
        if factor.has_res && factor.vars@.len() == 2 {
            assert(q == 0 || q == 1);
        }
    }
    let outputs = route(factor, dest, &by_pos);
    FactorPlan { outputs, cleared, constant: copy_public(pub_red) }
}

/// The MUL factor update: `x_0 = x_1 * x_2 * ... * c (mod nc)`, a direct
/// sum-product with no transform. Position 0 is the product; every incoming
/// belief is cleared when clearing is asked.
pub fn factor_mul(
    factor: &Factor,
    dest: &Vec<usize>,
    clear_incoming: bool,
    pub_red: &PublicValue,
) -> (r: FactorPlan)
    requires
        factor.wf(),
        dest_ok(factor, dest@),
    ensures
        same_public(&r.constant, pub_red),
        r.outputs@.len() == dest@.len(),
        forall|k: int| 0 <= k < dest@.len() ==> r.outputs@[k] == (Message::Product { except: factor.pos(dest@[k]) as usize }),
        r.cleared@.len() == factor.vars@.len(),
        forall|q: int| 0 <= q < factor.vars@.len() ==> r.cleared@[q] == clear_incoming,
{
    let (by_pos, cleared) = product_plan(factor.vars.len(), clear_incoming);
    let outputs = route(factor, dest, &by_pos);
    FactorPlan { outputs, cleared, constant: copy_public(pub_red) }
}

/// The LOOKUP factor update: `x_0 = table[x_1]`.
pub fn factor_lookup(
    factor: &Factor,
    dest: &Vec<usize>,
    clear_incoming: bool,
) -> (r: FactorPlan)
    requires
        factor.wf(),
        factor.vars@.len() == 2,
        dest_ok(factor, dest@),
    ensures
        r.constant == PublicValue::Single(0),
        r.outputs@.len() == dest@.len(),
        forall|k: int| 0 <= k < dest@.len() ==> r.outputs@[k] == lookup_msg(factor.pos(dest@[k])),
        r.cleared@.len() == 2,
        forall|q: int| 0 <= q < 2 ==> r.cleared@[q] == (clear_incoming && two_edge_cleared(taken(factor, dest@), q)),
{
    let tk = taken_dest(factor, dest);
    let (by_pos, cleared) = two_edge_plan(&tk, clear_incoming, UnaryOp::MapTable, UnaryOp::MapTableInv);
    assert forall|i: int| 0 <= i < 2 implies by_pos@[i] == lookup_msg(i) by {
        assert(i == 0 || i == 1);
    }
    assert forall|q: int| 0 <= q < 2 implies cleared@[q] == (clear_incoming && two_edge_cleared(tk@, q)) by {
        assert(q == 0 || q == 1);
    }
    let outputs = route(factor, dest, &by_pos);
    FactorPlan { outputs, cleared, constant: PublicValue::Single(0) }
}

} // verus!
