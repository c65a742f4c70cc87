use vstd::prelude::*;

verus! {

/// `nc` is a positive power of two, so that the bitwise operators stay in
/// the domain `0..nc`.
pub open spec fn pow2_domain(nc: u32) -> bool {
    nc > 0 && nc & ((nc - 1) as u32) == 0
}

/// Class reached from `x` by the constant operator of an ADD factor:
/// `x + c` forward, `x - c` when `negate` (both modulo `nc`).
pub open spec fn add_class(nc: int, x: int, c: int, negate: bool) -> int {
    if negate {
        (x - c) % nc
    } else {
        (x + c) % nc
    }
}

proof fn lemma_xor_in_domain(nc: u32, x: u32, c: u32)
    requires
        pow2_domain(nc),
        x < nc,
        c < nc,
    ensures
        x ^ c < nc,
{
    assert(nc > 0 && nc & ((nc - 1) as u32) == 0 && x < nc && c < nc ==> x ^ c < nc) by (bit_vector);
}

proof fn lemma_and_in_domain(x: u32, c: u32)
    ensures
        x & c <= x,
{
    assert(x & c <= x) by (bit_vector);
}

/// For every class `x`, the class `x ^ c`: where the constant operator of a
/// XOR factor sends the mass of `x`.
pub fn xor_cst_map(nc: u32, c: u32) -> (r: Vec<u32>)
    requires
        pow2_domain(nc),
        c < nc,
    ensures
        r@.len() == nc,
        forall|x: int| 0 <= x < nc ==> #[trigger] r@[x] == (x as u32 ^ c) && r@[x] < nc,
{
    let mut r: Vec<u32> = Vec::new();
    let mut x: u32 = 0;
    while x < nc
        invariant
            pow2_domain(nc),
            c < nc,
            x <= nc,
            r@.len() == x,
            forall|y: int| 0 <= y < x ==> #[trigger] r@[y] == (y as u32 ^ c) && r@[y] < nc,
        decreases nc - x,
    {
        proof {
            lemma_xor_in_domain(nc, x, c);
        }
        r.push(x ^ c);
        x += 1;
    }
    r
}

/// For every class `x`, the class `x & c`: where the constant operator of an
/// AND factor sends the mass of `x`.
pub fn and_cst_map(nc: u32, c: u32) -> (r: Vec<u32>)
    ensures
        r@.len() == nc,
        forall|x: int| 0 <= x < nc ==> #[trigger] r@[x] == (x as u32 & c) && r@[x] < nc,
{
    let mut r: Vec<u32> = Vec::new();
    let mut x: u32 = 0;
    while x < nc
        invariant
            x <= nc,
            r@.len() == x,
            forall|y: int| 0 <= y < x ==> #[trigger] r@[y] == (y as u32 & c) && r@[y] < nc,
        decreases nc - x,
    {
        proof {
            lemma_and_in_domain(x, c);
        }
        r.push(x & c);
        x += 1;
    }
    r
}

/// For every class `x`, the class `x + c` (or `x - c` when `negate`) modulo
/// `nc`: where the constant operator of an ADD factor sends the mass of `x`.
pub fn add_cst_map(nc: u32, c: u32, negate: bool) -> (r: Vec<u32>)
    requires
        nc > 0,
        c < nc,
    ensures
        r@.len() == nc,
        forall|x: int| 0 <= x < nc ==> #[trigger] r@[x] == add_class(nc as int, x, c as int, negate),
{
    let mut r: Vec<u32> = Vec::new();
    let mut x: u32 = 0;
    while x < nc
        invariant
            nc > 0,
            c < nc,
            x <= nc,
            r@.len() == x,
            forall|y: int| 0 <= y < x ==> #[trigger] r@[y] == add_class(nc as int, y, c as int, negate),
        decreases nc - x,
    {
        let y: u32 = if negate {
            if x >= c {
                x - c
            } else {
                (nc - c) + x
            }
        } else {
            if x < nc - c {
                x + c
            } else {
                x - (nc - c)
            }
        };
        proof {
            let (n, xi, ci) = (nc as int, x as int, c as int);
            if negate {
                if xi >= ci {
                    vstd::arithmetic::div_mod::lemma_small_mod((xi - ci) as nat, n as nat);
                } else {
                    vstd::arithmetic::div_mod::lemma_mod_add_multiples_vanish(xi - ci, n);
                    vstd::arithmetic::div_mod::lemma_small_mod((xi - ci + n) as nat, n as nat);
                }
            } else {
                if xi < n - ci {
                    vstd::arithmetic::div_mod::lemma_small_mod((xi + ci) as nat, n as nat);
                } else {
                    vstd::arithmetic::div_mod::lemma_mod_sub_multiples_vanish(xi + ci, n);
                    vstd::arithmetic::div_mod::lemma_small_mod((xi + ci - n) as nat, n as nat);
                }
            }
        }
        r.push(y);
        x += 1;
    }
    r
}

/// For every class `x`, the class `x * c` modulo `nc`: where the constant
/// operator of a MUL factor sends the mass of `x`.
pub fn mul_cst_map(nc: u32, c: u32) -> (r: Vec<u32>)
    requires
        nc > 0,
    ensures
        r@.len() == nc,
        forall|x: int| 0 <= x < nc ==> #[trigger] r@[x] == (x * c) % (nc as int),
{
    let mut r: Vec<u32> = Vec::new();
    let mut x: u32 = 0;
    while x < nc
        invariant
            nc > 0,
            x <= nc,
            r@.len() == x,
            forall|y: int| 0 <= y < x ==> #[trigger] r@[y] == (y * c) % (nc as int),
        decreases nc - x,
    {
        proof {
            vstd::arithmetic::mul::lemma_mul_upper_bound(x as int, u32::MAX as int, c as int, u32::MAX as int);
        }
        let p: u64 = (x as u64) * (c as u64);
        let y: u64 = p % (nc as u64);
        r.push(y as u32);
        x += 1;
    }
    r
}

/// Every entry of a lookup table is a class of the domain `0..nc`.
pub open spec fn table_ok(table: Seq<u32>, nc: u32) -> bool {
    table.len() == nc && forall|x: int| 0 <= x < table.len() ==> table[x] < nc
}

/// Whether `table` can serve as the table of a LOOKUP factor over `nc` classes.
pub fn check_table(table: &Vec<u32>, nc: u32) -> (r: bool)
    ensures
        r == table_ok(table@, nc),
{
    if table.len() != nc as usize {
        return false;
    }
    let mut x: usize = 0;
    while x < table.len()
        invariant
            x <= table@.len(),
            table@.len() == nc,
            forall|y: int| 0 <= y < x ==> table@[y] < nc,
        decreases table@.len() - x,
    {
        if table[x] >= nc {
            return false;
        }
        x += 1;
    }
    true
}

/// Applying the XOR constant operator twice gives back every class: the
/// operator is an involution, so `xor_cst(c)` twice leaves a distribution
/// unchanged.
pub proof fn lemma_xor_cst_round_trip(nc: u32, c: u32, x: u32)
    requires
        pow2_domain(nc),
        c < nc,
        x < nc,
    ensures
        (x ^ c) ^ c == x,
        x ^ c < nc,
{
    lemma_xor_in_domain(nc, x, c);
    assert((x ^ c) ^ c == x) by (bit_vector);
}

/// The ADD constant operator followed by its negated form gives back every
/// class: `add_cst(c, false)` then `add_cst(c, true)` leaves a distribution
/// unchanged.
pub proof fn lemma_add_cst_round_trip(nc: int, c: int, x: int)
    requires
        nc > 0,
        0 <= c < nc,
        0 <= x < nc,
    ensures
        add_class(nc, add_class(nc, x, c, false), c, true) == x,
        add_class(nc, add_class(nc, x, c, true), c, false) == x,
{
    vstd::arithmetic::div_mod::lemma_small_mod(x as nat, nc as nat);
    vstd::arithmetic::div_mod::lemma_small_mod(c as nat, nc as nat);
    vstd::arithmetic::div_mod::lemma_mod_twice(x + c, nc);
    vstd::arithmetic::div_mod::lemma_mod_twice(x - c, nc);
    // ((x + c) % nc - c) % nc == ((x + c) - c) % nc
    vstd::arithmetic::div_mod::lemma_sub_mod_noop(x + c, c, nc);
    assert(((x + c) % nc - c) % nc == x % nc);
    // ((x - c) % nc + c) % nc == ((x - c) + c) % nc
    vstd::arithmetic::div_mod::lemma_add_mod_noop(x - c, c, nc);
    assert(((x - c) % nc + c) % nc == x % nc);
}

} // verus!
