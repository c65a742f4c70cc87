use vstd::prelude::*;

verus! {

/// A value of the finite domain `0..nc`.
pub type ClassVal = u32;

/// A constant attached to a factor: shared by all traces, or one per trace.
#[derive(Clone, Debug, PartialEq, Eq)]
pub enum PublicValue {
    Single(ClassVal),
    Multi(Vec<ClassVal>),
}

/// The operation that a factor encodes.
#[derive(Clone, Debug)]
pub enum FactorKind {
    /// Bitwise AND; `vars_neg[i]` tells whether the operand at position `i` is inverted.
    And { vars_neg: Vec<bool> },
    Xor,
    Not,
    Add,
    Mul,
    /// `y = table[x]`, the table given by its index in the graph.
    Lookup { table: usize },
}

/// A factor as the propagation kernels see it: the variables it touches, in
/// order, and the edge that links it to each of them. When `has_res` holds,
/// position 0 is the result variable.
#[derive(Clone, Debug)]
pub struct Factor {
    pub kind: FactorKind,
    pub vars: Vec<usize>,
    pub edges: Vec<usize>,
    pub has_res: bool,
    pub multi: bool,
}

/// The positions of a sequence hold pairwise distinct values.
pub open spec fn distinct(s: Seq<usize>) -> bool {
    forall|i: int, j: int| 0 <= i < s.len() && 0 <= j < s.len() && i != j ==> s[i] != s[j]
}

/// The position of `v` in `s` (meaningful when `v` occurs in `s`).
pub open spec fn pos_of(s: Seq<usize>, v: usize) -> int {
    choose|i: int| 0 <= i < s.len() && s[i] == v
}

impl Factor {
    /// One edge per variable, each variable once, and one negation flag per
    /// operand of an AND.
    pub open spec fn wf(&self) -> bool {
        &&& self.vars@.len() == self.edges@.len()
        &&& distinct(self.vars@)
        &&& match self.kind {
            FactorKind::And { vars_neg } => vars_neg@.len() == self.vars@.len(),
            _ => true,
        }
    }

    /// Number of variables (and edges) of the factor.
    pub open spec fn arity(&self) -> nat {
        self.vars@.len()
    }

    /// Position of variable `v` in the factor.
    pub open spec fn pos(&self, v: usize) -> int {
        pos_of(self.vars@, v)
    }

    /// Whether the position `p` is one of the destinations in `dest`.
    pub open spec fn is_dest(&self, dest: Seq<usize>, p: int) -> bool {
        dest.contains(self.vars@[p])
    }

    /// Position of variable `var` among the factor's variables.
    pub fn get_index_of(&self, var: usize) -> (r: usize)
        requires
            self.wf(),
            self.vars@.contains(var),
        ensures
            r < self.vars@.len(),
            self.vars@[r as int] == var,
            r == self.pos(var),
    {
        let mut i: usize = 0;
        while i < self.vars.len()
            invariant
                self.wf(),
                i <= self.vars@.len(),
                forall|j: int| 0 <= j < i ==> self.vars@[j] != var,
                self.vars@.contains(var),
            decreases self.vars@.len() - i,
        {
            if self.vars[i] == var {
                proof {
                    let ii = i as int;
                    assert(0 <= ii < self.vars@.len() && self.vars@[ii] == var);
                    let c = pos_of(self.vars@, var);
                    assert(0 <= c < self.vars@.len() && self.vars@[c] == var);
                }
                return i;
            }
            i += 1;
        }
        proof {
            let k = choose|k: int| 0 <= k < self.vars@.len() && self.vars@[k] == var;
            assert(self.vars@[k] == var);
        }
        0
    }

    /// The result variable, when the factor has one.
    pub fn res_id(&self) -> (r: Option<usize>)
        requires
            self.wf(),
        ensures
            r == (if self.has_res && self.vars@.len() > 0 {
                Some(self.vars@[0])
            } else {
                None::<usize>
            }),
    {
        if self.has_res && self.vars.len() > 0 {
            Some(self.vars[0])
        } else {
            None
        }
    }
}


/// A variable: whether it holds one distribution per trace, and its edges,
/// `edges[i]` linking it to `factors[i]`.
#[derive(Clone, Debug)]
pub struct Var {
    pub multi: bool,
    pub factors: Vec<usize>,
    pub edges: Vec<usize>,
}

/// An edge links one variable and one factor.
#[derive(Clone, Copy, Debug, PartialEq, Eq, Structural)]
pub struct Edge {
    pub var: usize,
    pub factor: usize,
}

/// The factor graph that propagation runs on; it is read, never changed.
#[derive(Clone, Debug)]
pub struct FactorGraph {
    pub nc: usize,
    pub vars: Vec<Var>,
    pub factors: Vec<Factor>,
    pub edges: Vec<Edge>,
    pub tables: Vec<Vec<ClassVal>>,
}

impl Var {
    pub open spec fn wf(&self, n_edges: nat) -> bool {
        &&& self.factors@.len() == self.edges@.len()
        &&& distinct(self.factors@)
        &&& distinct(self.edges@)
        &&& forall|i: int| 0 <= i < self.edges@.len() ==> self.edges@[i] < n_edges
    }
}

impl FactorGraph {
    /// Every index is in range and each edge is seen the same way from its
    /// variable, from its factor and from the edge list.
    pub open spec fn wf(&self) -> bool {
        &&& forall|v: int| 0 <= v < self.vars@.len() ==> (#[trigger] self.vars@[v]).wf(self.edges@.len())
        &&& forall|f: int| 0 <= f < self.factors@.len() ==> (#[trigger] self.factors@[f]).wf()
        &&& forall|f: int, p: int| 0 <= f < self.factors@.len() && 0 <= p < self.factors@[f].edges@.len()
            ==> #[trigger] self.factors@[f].edges@[p] < self.edges@.len()
        &&& forall|f: int, p: int| 0 <= f < self.factors@.len() && 0 <= p < self.factors@[f].vars@.len()
            ==> #[trigger] self.factors@[f].vars@[p] < self.vars@.len()
        &&& forall|v: int, i: int| 0 <= v < self.vars@.len() && 0 <= i < self.vars@[v].factors@.len()
            ==> #[trigger] self.vars@[v].factors@[i] < self.factors@.len()
        &&& forall|f: int| 0 <= f < self.factors@.len() ==> match (#[trigger] self.factors@[f]).kind {
            FactorKind::Lookup { table } => table < self.tables@.len() && self.factors@[f].vars@.len() == 2,
            _ => true,
        }
        &&& self.linked()
    }

    /// A variable lists a factor exactly when the factor lists the variable.
    pub open spec fn linked(&self) -> bool {
        &&& forall|v: int, i: int| 0 <= v < self.vars@.len() && 0 <= i < self.vars@[v].factors@.len()
            ==> self.factors@[#[trigger] self.vars@[v].factors@[i] as int].vars@.contains(v as usize)
        &&& forall|f: int, p: int| 0 <= f < self.factors@.len() && 0 <= p < self.factors@[f].vars@.len()
            ==> self.vars@[#[trigger] self.factors@[f].vars@[p] as int].factors@.contains(f as usize)
    }
}

/// Whether the values of `s` are pairwise distinct.
pub fn check_distinct(s: &Vec<usize>) -> (r: bool)
    ensures
        r == distinct(s@),
{
    let mut i: usize = 0;
    while i < s.len()
        invariant
            i <= s@.len(),
            forall|a: int, b: int| 0 <= a < i && 0 <= b < s@.len() && a != b ==> s@[a] != s@[b],
        decreases s@.len() - i,
    {
        let mut j: usize = 0;
        while j < s.len()
            invariant
                i < s@.len(),
                j <= s@.len(),
                forall|a: int, b: int| 0 <= a < i && 0 <= b < s@.len() && a != b ==> s@[a] != s@[b],
                forall|b: int| 0 <= b < j && b != i ==> s@[i as int] != s@[b],
            decreases s@.len() - j,
        {
            if j != i && s[i] == s[j] {
                assert(!distinct(s@)) by {
                    assert(s@[i as int] == s@[j as int]);
                }
                return false;
            }
            j += 1;
        }
        i += 1;
    }
    true
}

/// Whether every value of `s` is below `n`.
pub fn check_below(s: &Vec<usize>, n: usize) -> (r: bool)
    ensures
        r == forall|i: int| 0 <= i < s@.len() ==> s@[i] < n,
{
    let mut i: usize = 0;
    while i < s.len()
        invariant
            i <= s@.len(),
            forall|j: int| 0 <= j < i ==> s@[j] < n,
        decreases s@.len() - i,
    {
        if s[i] >= n {
            return false;
        }
        i += 1;
    }
    true
}

/// Whether a factor is well formed and its indices are in range in `graph`.
fn check_factor(graph: &FactorGraph, f: usize) -> (r: bool)
    requires
        f < graph.factors@.len(),
    ensures
        r == ({
            let fa = graph.factors@[f as int];
            &&& fa.wf()
            &&& forall|p: int| 0 <= p < fa.edges@.len() ==> fa.edges@[p] < graph.edges@.len()
            &&& forall|p: int| 0 <= p < fa.vars@.len() ==> fa.vars@[p] < graph.vars@.len()
            &&& match fa.kind {
                FactorKind::Lookup { table } => table < graph.tables@.len() && fa.vars@.len() == 2,
                _ => true,
            }
        }),
{
    let fa = &graph.factors[f];
    if fa.vars.len() != fa.edges.len() {
        return false;
    }
    let kind_ok = match &fa.kind {
        FactorKind::And { vars_neg } => vars_neg.len() == fa.vars.len(),
        FactorKind::Lookup { table } => *table < graph.tables.len() && fa.vars.len() == 2,
        _ => true,
    };
    kind_ok && check_distinct(&fa.vars) && check_below(&fa.edges, graph.edges.len()) && check_below(
        &fa.vars,
        graph.vars.len(),
    )
}

/// Whether a variable is well formed and its indices are in range in `graph`.
fn check_var(graph: &FactorGraph, v: usize) -> (r: bool)
    requires
        v < graph.vars@.len(),
    ensures
        r == ({
            let va = graph.vars@[v as int];
            &&& va.wf(graph.edges@.len())
            &&& forall|i: int| 0 <= i < va.factors@.len() ==> va.factors@[i] < graph.factors@.len()
        }),
{
    let va = &graph.vars[v];
    va.factors.len() == va.edges.len() && check_distinct(&va.factors) && check_distinct(&va.edges)
        && check_below(&va.edges, graph.edges.len()) && check_below(&va.factors, graph.factors.len())
}

/// Whether `x` is among `s`.
pub fn check_contains(s: &Vec<usize>, x: usize) -> (r: bool)
    ensures
        r == s@.contains(x),
{
    let mut i: usize = 0;
    while i < s.len()
        invariant
            i <= s@.len(),
            forall|j: int| 0 <= j < i ==> s@[j] != x,
        decreases s@.len() - i,
    {
        if s[i] == x {
            assert(s@[i as int] == x);
            return true;
        }
        i += 1;
    }
    false
}

/// Whether the variables and factors of a graph whose indices are in range
/// list each other.
fn check_linked(graph: &FactorGraph) -> (r: bool)
    requires
        forall|f: int, p: int| 0 <= f < graph.factors@.len() && 0 <= p < graph.factors@[f].vars@.len()
            ==> #[trigger] graph.factors@[f].vars@[p] < graph.vars@.len(),
        forall|v: int, i: int| 0 <= v < graph.vars@.len() && 0 <= i < graph.vars@[v].factors@.len()
            ==> #[trigger] graph.vars@[v].factors@[i] < graph.factors@.len(),
    ensures
        r == graph.linked(),
{
    let mut v: usize = 0;
    while v < graph.vars.len()
        invariant
            v <= graph.vars@.len(),
            forall|v: int, i: int| 0 <= v < graph.vars@.len() && 0 <= i < graph.vars@[v].factors@.len()
                ==> #[trigger] graph.vars@[v].factors@[i] < graph.factors@.len(),
            forall|w: int, i: int| 0 <= w < v && 0 <= i < graph.vars@[w].factors@.len()
                ==> graph.factors@[#[trigger] graph.vars@[w].factors@[i] as int].vars@.contains(w as usize),
        decreases graph.vars@.len() - v,
    {
        let fs = &graph.vars[v].factors;
        let mut i: usize = 0;
        while i < fs.len()
            invariant
                v < graph.vars@.len(),
                *fs == graph.vars@[v as int].factors,
                i <= fs@.len(),
                forall|v: int, i: int| 0 <= v < graph.vars@.len() && 0 <= i < graph.vars@[v].factors@.len()
                    ==> #[trigger] graph.vars@[v].factors@[i] < graph.factors@.len(),
                forall|w: int, i: int| 0 <= w < v && 0 <= i < graph.vars@[w].factors@.len()
                    ==> graph.factors@[#[trigger] graph.vars@[w].factors@[i] as int].vars@.contains(w as usize),
                forall|j: int| 0 <= j < i ==> graph.factors@[#[trigger] fs@[j] as int].vars@.contains(v),
            decreases fs@.len() - i,
        {
            assert(fs@[i as int] < graph.factors@.len());
            if !check_contains(&graph.factors[fs[i]].vars, v) {
                return false;
            }
            i += 1;
        }
        v += 1;
    }
    let mut f: usize = 0;
    while f < graph.factors.len()
        invariant
            f <= graph.factors@.len(),
            forall|f: int, p: int| 0 <= f < graph.factors@.len() && 0 <= p < graph.factors@[f].vars@.len()
                ==> #[trigger] graph.factors@[f].vars@[p] < graph.vars@.len(),
            forall|w: int, i: int| 0 <= w < graph.vars@.len() && 0 <= i < graph.vars@[w].factors@.len()
                ==> graph.factors@[#[trigger] graph.vars@[w].factors@[i] as int].vars@.contains(w as usize),
            forall|g: int, p: int| 0 <= g < f && 0 <= p < graph.factors@[g].vars@.len()
                ==> graph.vars@[#[trigger] graph.factors@[g].vars@[p] as int].factors@.contains(g as usize),
        decreases graph.factors@.len() - f,
    {
        let vs = &graph.factors[f].vars;
        let mut p: usize = 0;
        while p < vs.len()
            invariant
                f < graph.factors@.len(),
                *vs == graph.factors@[f as int].vars,
                p <= vs@.len(),
                forall|f: int, p: int| 0 <= f < graph.factors@.len() && 0 <= p < graph.factors@[f].vars@.len()
                    ==> #[trigger] graph.factors@[f].vars@[p] < graph.vars@.len(),
                forall|w: int, i: int| 0 <= w < graph.vars@.len() && 0 <= i < graph.vars@[w].factors@.len()
                    ==> graph.factors@[#[trigger] graph.vars@[w].factors@[i] as int].vars@.contains(w as usize),
                forall|g: int, p: int| 0 <= g < f && 0 <= p < graph.factors@[g].vars@.len()
                    ==> graph.vars@[#[trigger] graph.factors@[g].vars@[p] as int].factors@.contains(g as usize),
                forall|j: int| 0 <= j < p ==> graph.vars@[#[trigger] vs@[j] as int].factors@.contains(f),
            decreases vs@.len() - p,
        {
            assert(vs@[p as int] < graph.vars@.len());
            if !check_contains(&graph.vars[vs[p]].factors, f) {
                return false;
            }
            p += 1;
        }
        f += 1;
    }
    true
}

/// Whether the graph is well formed, as propagation needs it.
pub fn check_graph(graph: &FactorGraph) -> (r: bool)
    ensures
        r == graph.wf(),
{
    let mut v: usize = 0;
    while v < graph.vars.len()
        invariant
            v <= graph.vars@.len(),
            forall|w: int| 0 <= w < v ==> (#[trigger] graph.vars@[w]).wf(graph.edges@.len()),
            forall|w: int, i: int| 0 <= w < v && 0 <= i < graph.vars@[w].factors@.len()
                ==> #[trigger] graph.vars@[w].factors@[i] < graph.factors@.len(),
        decreases graph.vars@.len() - v,
    {
        if !check_var(graph, v) {
            return false;
        }
        v += 1;
    }
    let mut f: usize = 0;
    while f < graph.factors.len()
        invariant
            f <= graph.factors@.len(),
            forall|w: int| 0 <= w < graph.vars@.len() ==> (#[trigger] graph.vars@[w]).wf(graph.edges@.len()),
            forall|w: int, i: int| 0 <= w < graph.vars@.len() && 0 <= i < graph.vars@[w].factors@.len()
                ==> #[trigger] graph.vars@[w].factors@[i] < graph.factors@.len(),
            forall|g: int| 0 <= g < f ==> (#[trigger] graph.factors@[g]).wf(),
            forall|g: int, p: int| 0 <= g < f && 0 <= p < graph.factors@[g].edges@.len()
                ==> #[trigger] graph.factors@[g].edges@[p] < graph.edges@.len(),
            forall|g: int, p: int| 0 <= g < f && 0 <= p < graph.factors@[g].vars@.len()
                ==> #[trigger] graph.factors@[g].vars@[p] < graph.vars@.len(),
            forall|g: int| 0 <= g < f ==> match (#[trigger] graph.factors@[g]).kind {
                FactorKind::Lookup { table } => table < graph.tables@.len() && graph.factors@[g].vars@.len() == 2,
                _ => true,
            },
        decreases graph.factors@.len() - f,
    {
        if !check_factor(graph, f) {
            return false;
        }
        f += 1;
    }
    check_linked(graph)
}

} // verus!
