//! Population-count model for bitboards, with the lemmas the board
//! invariants rely on: decomposition over disjoint unions, removal of the
//! lowest set bit, and splitting a word at a power-of-two boundary.

use vstd::prelude::*;

verus! {

use vstd::arithmetic::div_mod::{lemma_mod_breakdown, lemma_div_denominator};
use vstd::arithmetic::power2::{pow2, lemma_pow2_unfold, lemma_pow2_pos};

/// The number of set bits in `x`.
pub open spec fn pop(x: u64) -> nat
    decreases x,
{
    if x == 0 {
        0
    } else {
        ((x % 2) + pop((x / 2) as u64)) as nat
    }
}

/// Returns the number of set bits in `x`.
pub fn popcount(x: u64) -> (r: u32)
    ensures
        r == pop(x),
{
    proof {
        lemma_pop_le_64(x);
    }
    let mut v: u64 = x;
    let mut count: u32 = 0;
    while v != 0
        invariant
            count + pop(v) == pop(x),
            pop(x) <= 64,
        decreases v,
    {
        proof {
            lemma_pop_zero(v);
        }
        count = count + (v % 2) as u32;
        v = v / 2;
    }
    count
}

/// A word has no set bits exactly when it is zero.
pub proof fn lemma_pop_zero(x: u64)
    ensures
        (pop(x) == 0) <==> (x == 0),
    decreases x,
{
    if x != 0 {
        if x % 2 == 0 {
            lemma_pop_zero((x / 2) as u64);
        }
    }
}

/// A word below `pow2(n)` has at most `n` set bits.
pub proof fn lemma_pop_bound(x: u64, n: nat)
    requires
        x < pow2(n),
    ensures
        pop(x) <= n,
    decreases n,
{
    if x != 0 {
        lemma_pow2_pos(n);
        if n == 0 {
            // x < pow2(0) == 1 forces x == 0, contradicting x != 0
            assert(pow2(0) == 1) by {
                vstd::arithmetic::power2::lemma2_to64();
            }
        } else {
            lemma_pow2_unfold(n);
            lemma_pop_bound((x / 2) as u64, (n - 1) as nat);
        }
    }
}

/// Any 64-bit word has at most 64 set bits.
pub proof fn lemma_pop_le_64(x: u64)
    ensures
        pop(x) <= 64,
{
    assert(pow2(64) == 0x10000000000000000) by {
        vstd::arithmetic::power2::lemma2_to64_rest();
    }
    lemma_pop_bound(x, 64);
}

/// `d` is a power of two.
pub open spec fn is_bin_pow(d: u64) -> bool
    decreases d,
{
    if d == 0 {
        false
    } else if d == 1 {
        true
    } else {
        d % 2 == 0 && is_bin_pow((d / 2) as u64)
    }
}

/// Set bits split across a power-of-two boundary: those below `d` and those at or above.
pub proof fn lemma_pop_mod_div(x: u64, d: u64)
    requires
        is_bin_pow(d),
    ensures
        pop(x) == pop((x % d) as u64) + pop((x / d) as u64),
    decreases d,
{
    if d == 1 {
        assert(x % 1 == 0);
        assert(x / 1 == x);
    } else if x == 0 {
        assert(0u64 % d == 0);
        assert(0u64 / d == 0);
    } else {
        let h: u64 = (d / 2) as u64;
        lemma_pop_mod_div((x / 2) as u64, h);
        lemma_div_denominator(x as int, 2, h as int);
        lemma_mod_breakdown(x as int, 2, h as int);
        let xi: int = x as int;
        let hi: int = h as int;
        let w: int = xi % (d as int);
        assert(w == 2 * ((xi / 2) % hi) + xi % 2);
        assert(w % 2 == xi % 2) by (nonlinear_arith)
            requires
                w == 2 * ((xi / 2) % hi) + xi % 2,
                0 <= xi % 2 < 2,
                0 <= (xi / 2) % hi,
        ;
        assert(w / 2 == (xi / 2) % hi) by (nonlinear_arith)
            requires
                w == 2 * ((xi / 2) % hi) + xi % 2,
                0 <= xi % 2 < 2,
                0 <= (xi / 2) % hi,
        ;
    }
}

proof fn lemma_bv_or_facts(x: u64, y: u64)
    by (bit_vector)
    requires
        x & y == 0,
    ensures
        x | y == x + y,
        (x | y) % 2 == x % 2 + y % 2,
        ((x | y) / 2) as u64 == (x / 2) | (y / 2),
        (x / 2) & (y / 2) == 0,
{
}

/// Set bits of a disjoint union add up.
pub proof fn lemma_pop_or_disjoint(x: u64, y: u64)
    requires
        x & y == 0,
    ensures
        pop((x | y) as u64) == pop(x) + pop(y),
        x | y == x + y,
    decreases x + y,
{
    lemma_bv_or_facts(x, y);
    if x == 0 && y == 0 {
    } else {
        lemma_pop_or_disjoint((x / 2) as u64, (y / 2) as u64);
    }
}

proof fn lemma_bv_subset_facts(x: u64, y: u64)
    by (bit_vector)
    requires
        x & y == x,
    ensures
        (y ^ x) & x == 0,
        (y ^ x) | x == y,
        (y ^ x) & y == y ^ x,
        y ^ x == y - x,
        x <= y,
{
}

/// Removing a subset of a word's bits removes exactly their count.
pub proof fn lemma_pop_xor_subset(x: u64, y: u64)
    requires
        x & y == x,
    ensures
        pop((y ^ x) as u64) == pop(y) - pop(x),
        (y ^ x) & y == y ^ x,
        (y ^ x) & x == 0,
        y ^ x == y - x,
{
    lemma_bv_subset_facts(x, y);
    lemma_pop_or_disjoint((y ^ x) as u64, x);
}

proof fn lemma_bv_and_m1(x: u64)
    by (bit_vector)
    requires
        x != 0,
    ensures
        x % 2 == 1 ==> x & ((x - 1) as u64) == x - 1,
        x % 2 == 0 ==> x & ((x - 1) as u64) == 2 * ((x / 2) & ((x / 2 - 1) as u64)),
        x % 2 == 0 ==> (x & ((x - 1) as u64)) / 2 == (x / 2) & ((x / 2 - 1) as u64),
        x % 2 == 0 ==> (x & ((x - 1) as u64)) % 2 == 0,
{
}

/// `x & (x - 1)` clears exactly the lowest set bit.
pub proof fn lemma_pop_remove_lowest(x: u64)
    requires
        x != 0,
    ensures
        pop((x & ((x - 1) as u64)) as u64) == pop(x) - 1,
    decreases x,
{
    lemma_bv_and_m1(x);
    if x % 2 == 1 {
        // the lowest set bit is bit 0; x - 1 clears it and keeps the rest
        assert(((x - 1) as u64) / 2 == x / 2);
        assert(((x - 1) as u64) % 2 == 0);
    } else {
        lemma_pop_remove_lowest((x / 2) as u64);
        lemma_pop_zero((x / 2) as u64);
        let y: u64 = x & ((x - 1) as u64);
        assert(pop(y) == (y % 2) + pop((y / 2) as u64));
    }
}

/// A word consists of a single set bit exactly when the lowest-bit test leaves nothing.
pub proof fn lemma_pop_single(x: u64)
    requires
        x != 0,
    ensures
        (x & ((x - 1) as u64) == 0) <==> pop(x) == 1,
{
    lemma_pop_remove_lowest(x);
    lemma_pop_zero((x & ((x - 1) as u64)) as u64);
    lemma_pop_zero(x);
}

/// A word keeps a set bit after the lowest-bit test exactly when it has two or more.
pub proof fn lemma_pop_multi(x: u64)
    requires
        x != 0,
    ensures
        (x & ((x - 1) as u64) != 0) <==> pop(x) >= 2,
{
    lemma_pop_remove_lowest(x);
    lemma_pop_zero((x & ((x - 1) as u64)) as u64);
    lemma_pop_zero(x);
}

} // verus!
