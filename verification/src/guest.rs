//! A small guest workload for trying out a backend.

use vstd::prelude::*;

verus! {

/// The Fibonacci numbers: 0, 1, 1, 2, 3, 5, ...
pub open spec fn fibonacci(n: nat) -> nat
    decreases n,
{
    if n == 0 {
        0
    } else if n == 1 {
        1
    } else {
        fibonacci((n - 1) as nat) + fibonacci((n - 2) as nat)
    }
}

/// The Fibonacci numbers never decrease.
pub proof fn lemma_fibonacci_monotonic(i: nat, j: nat)
    requires
        i <= j,
    ensures
        fibonacci(i) <= fibonacci(j),
    decreases j,
{
    if i < j {
        lemma_fibonacci_monotonic(i, (j - 1) as nat);
    }
}

/// The `n`-th Fibonacci number, counted from `fib(1) == fib(2) == 1`. For 0
/// the answer is 1 as well.
pub fn fib(n: u32) -> (r: u128)
    requires
        fibonacci(n as nat) <= u128::MAX,
    ensures
        r == if n == 0 {
            1
        } else {
            fibonacci(n as nat)
        },
{
    let mut a: u128 = 0;
    let mut b: u128 = 1;
    let mut i: u32 = 1;
    while i < n
        invariant
            1 <= i,
            i <= n || i == 1,
            a == fibonacci((i - 1) as nat),
            b == fibonacci(i as nat),
            fibonacci(n as nat) <= u128::MAX,
        decreases n - i,
    {
        proof {
            lemma_fibonacci_monotonic((i + 1) as nat, n as nat);
        }
        let sum = a + b;
        a = b;
        b = sum;
        i += 1;
    }
    assert(fibonacci(1) == 1);
    b
}

} // verus!
