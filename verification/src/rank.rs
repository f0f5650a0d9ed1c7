//! Which sorted values a percentile and a median read.
use vstd::prelude::*;

verus! {

/// The nearest rank of the 95th percentile of `n` sorted values: `ceil(95 n / 100)`, at least 1.
pub open spec fn rank_95(n: nat) -> nat {
    let r = (95 * n + 99) / 100;
    if r < 1 {
        1
    } else {
        r
    }
}

/// The 1-based rank of the value that is the 95th percentile of `n` sorted values by the
/// nearest-rank method.
pub fn p95_rank(n: usize) -> (r: usize)
    ensures
        r == rank_95(n as nat),
{
    proof {
        lemma_ceil_95(n as nat);
    }
    let r = n - n / 20;
    if r < 1 {
        1
    } else {
        r
    }
}

/// `ceil(95 n / 100)` is `n` less its twentieths: `n - floor(n / 20)`.
proof fn lemma_ceil_95(n: nat)
    ensures
        (95 * n + 99) / 100 == n - n / 20,
{
    let q = n / 20;
    let r = n % 20;
    vstd::arithmetic::div_mod::lemma_fundamental_div_mod(n as int, 20);
    assert(95 * n + 99 == 100 * (19 * q) + (95 * r + 99)) by (nonlinear_arith)
        requires n == 20 * q + r;
    assert(100 * r <= 95 * r + 99 < 100 * r + 100) by (nonlinear_arith)
        requires 0 <= r < 20;
    vstd::arithmetic::div_mod::lemma_fundamental_div_mod_converse(
        (95 * n + 99) as int, 100, (19 * q + r) as int, (95 * r + 99 - 100 * r) as int);
}

/// The rank reads one of the values: for at least one value it lies in `1..=n`.
pub proof fn p95_rank_reads_a_value(n: nat)
    requires
        n >= 1,
    ensures
        1 <= rank_95(n) <= n,
{
    assert((95 * n + 99) / 100 <= n) by (nonlinear_arith)
        requires n >= 1;
}

/// The positions the median of `n` sorted values averages: the middle one twice for odd `n`,
/// the two middle ones for even `n`.
pub open spec fn middle(n: nat) -> (nat, nat) {
    if n % 2 == 1 {
        (n / 2, n / 2)
    } else {
        ((n / 2 - 1) as nat, n / 2)
    }
}

/// The 0-based positions whose values the median of `n` sorted values averages.
pub fn median_positions(n: usize) -> (p: (usize, usize))
    requires
        n >= 1,
    ensures
        p.0 == middle(n as nat).0,
        p.1 == middle(n as nat).1,
        p.0 <= p.1 < n,
        p.0 + p.1 + 1 == n || p.0 + p.1 + 2 == n,
{
    if n % 2 == 1 {
        (n / 2, n / 2)
    } else {
        (n / 2 - 1, n / 2)
    }
}

} // verus!
