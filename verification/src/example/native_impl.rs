//! The functions of the example programs, computed natively.

use vstd::prelude::*;

verus! {

/// The Fibonacci numbers: 0, 1, 1, 2, 3, 5, ...
pub open spec fn fibonacci(n: nat) -> nat
    decreases n,
{
    if n < 2 {
        n
    } else {
        fibonacci((n - 1) as nat) + fibonacci((n - 2) as nat)
    }
}

/// The Fibonacci numbers do not fall.
pub proof fn lemma_fibonacci_is_monotone(smaller: nat, larger: nat)
    requires
        smaller <= larger,
    ensures
        fibonacci(smaller) <= fibonacci(larger),
    decreases larger,
{
    if smaller < larger {
        if larger >= 2 {
            lemma_fibonacci_is_monotone(smaller, (larger - 1) as nat);
        }
    }
}

/// The product of the numbers from `n` down to 1 or 2 in steps of two; 0 for
/// 0.
pub open spec fn double_factorial(n: nat) -> nat
    decreases n,
{
    if n <= 2 {
        n
    } else {
        n * double_factorial((n - 2) as nat)
    }
}

/// A double factorial is at least its argument.
pub proof fn lemma_double_factorial_is_large(n: nat)
    ensures
        double_factorial(n) >= n,
    decreases n,
{
    if n > 2 {
        lemma_double_factorial_is_large((n - 2) as nat);
        assert(n * double_factorial((n - 2) as nat) >= n) by (nonlinear_arith)
            requires
                double_factorial((n - 2) as nat) >= 1,
        ;
    }
}

pub fn fib4(n: u32) -> (result: u32)
    requires
        fibonacci(n as nat) <= u32::MAX,
    ensures
        result == fibonacci(n as nat),
    decreases n,
{
    if n == 0 {
        0
    } else {
        if n == 1 {
            1
        } else {
            proof {
                lemma_fibonacci_is_monotone((n - 1) as nat, n as nat);
                lemma_fibonacci_is_monotone((n - 2) as nat, n as nat);
            }
            fib4(n - 1) + fib4(n - 2)
        }
    }
}

pub fn fib8(n: u32) -> (result: u64)
    requires
        fibonacci(n as nat) <= u64::MAX,
    ensures
        result == fibonacci(n as nat),
    decreases n,
{
    if n == 0 {
        0
    } else {
        if n == 1 {
            1
        } else {
            proof {
                lemma_fibonacci_is_monotone((n - 1) as nat, n as nat);
                lemma_fibonacci_is_monotone((n - 2) as nat, n as nat);
            }
            fib8(n - 1) + fib8(n - 2)
        }
    }
}

pub fn ffact4(n: u32) -> (result: u32)
    requires
        double_factorial(n as nat) <= u32::MAX,
    ensures
        result == double_factorial(n as nat),
{
    let mut i: u32 = n;
    let mut ans: u32 = 1;
    while i > 2
        invariant
            ans * double_factorial(i as nat) == double_factorial(n as nat),
            double_factorial(n as nat) <= u32::MAX,
        decreases i,
    {
        proof {
            lemma_double_factorial_is_large((i - 2) as nat);
            let rest = double_factorial((i - 2) as nat);
            assert(ans * (i * rest) == (ans * i) * rest) by (nonlinear_arith);
            assert(ans * i <= (ans * i) * rest) by (nonlinear_arith)
                requires
                    rest >= 1,
            ;
        }
        ans *= i;
        i -= 2;
    }
    ans * i
}

pub fn ffact8(n: u32) -> (result: u64)
    requires
        double_factorial(n as nat) <= u64::MAX,
    ensures
        result == double_factorial(n as nat),
{
    let mut i: u64 = n as u64;
    let mut ans: u64 = 1;
    while i > 2
        invariant
            ans * double_factorial(i as nat) == double_factorial(n as nat),
            double_factorial(n as nat) <= u64::MAX,
        decreases i,
    {
        proof {
            lemma_double_factorial_is_large((i - 2) as nat);
            let rest = double_factorial((i - 2) as nat);
            assert(ans * (i * rest) == (ans * i) * rest) by (nonlinear_arith);
            assert(ans * i <= (ans * i) * rest) by (nonlinear_arith)
                requires
                    rest >= 1,
            ;
        }
        ans *= i;
        i -= 2;
    }
    ans * i
}

} // verus!
