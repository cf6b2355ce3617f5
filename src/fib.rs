//! The Fibonacci numbers, counted from one: the first two are both 1.
use vstd::prelude::*;

verus! {

/// The `n`th Fibonacci number; every index up to 2 gives 1.
pub open spec fn spec_fib(n: nat) -> nat
    decreases n,
{
    if n <= 2 {
        1
    } else {
        spec_fib((n - 1) as nat) + spec_fib((n - 2) as nat)
    }
}

/// The sequence never falls.
pub proof fn lemma_fib_monotonic(i: nat, j: nat)
    requires
        i <= j,
    ensures
        spec_fib(i) <= spec_fib(j),
    decreases j,
{
    if i < j {
        lemma_fib_monotonic(i, (j - 1) as nat);
    }
}

/// Two consecutive Fibonacci numbers, `spec_fib(n)` and `spec_fib(n + 1)`,
/// computed from the front in `n` steps.
pub open spec fn fib_pair(n: nat) -> (nat, nat)
    decreases n,
{
    if n <= 1 {
        (1, 1)
    } else {
        let p = fib_pair((n - 1) as nat);
        (p.1, p.0 + p.1)
    }
}

/// The pair computed from the front agrees with the recursion.
pub proof fn lemma_fib_pair(n: nat)
    ensures
        fib_pair(n) == (spec_fib(n), spec_fib(n + 1)),
    decreases n,
{
    if n > 1 {
        lemma_fib_pair((n - 1) as nat);
    }
}

/// The largest index whose Fibonacci number fits in a `u32`.
pub const FIB_MAX_INDEX: u32 = 47;

/// Every index up to `FIB_MAX_INDEX` has a Fibonacci number that fits in a
/// `u32`, and the next one does not.
pub proof fn lemma_fib_fits(n: nat)
    requires
        n <= FIB_MAX_INDEX,
    ensures
        spec_fib(n) <= u32::MAX,
        spec_fib((FIB_MAX_INDEX + 1) as nat) > u32::MAX,
{
    reveal_with_fuel(fib_pair, 48);
    lemma_fib_pair(47);
    assert(fib_pair(47) == (2971215073nat, 4807526976nat));
    lemma_fib_monotonic(n, 47);
}

/// The `n`th Fibonacci number, computed by the defining recursion.
pub fn fib(n: u32) -> (r: u32)
    requires
        n <= FIB_MAX_INDEX,
    ensures
        r == spec_fib(n as nat),
    decreases n,
{
    if n <= 2 {
        1
    } else {
        proof {
            lemma_fib_fits(n as nat);
        }
        fib(n - 1) + fib(n - 2)
    }
}

} // verus!
