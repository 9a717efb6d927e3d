use vstd::prelude::*;

verus! {

/// The Fibonacci numbers: 0, 1, and then each the sum of the two before it.
pub open spec fn fib(n: nat) -> nat
    decreases n,
{
    if n == 0 {
        0
    } else if n == 1 {
        1
    } else {
        fib((n - 2) as nat) + fib((n - 1) as nat)
    }
}

/// The sequence never decreases.
pub proof fn lemma_fib_monotonic(i: nat, j: nat)
    requires
        i <= j,
    ensures
        fib(i) <= fib(j),
    decreases j - i,
{
    if i < j {
        lemma_fib_monotonic(i, (j - 1) as nat);
        if j >= 2 {
            assert(fib(j) == fib((j - 2) as nat) + fib((j - 1) as nat));
        }
    }
}

/// The `n`-th Fibonacci number, computed with a `while` loop.
pub fn fib_while(n: u64) -> (r: u64)
    requires
        fib(n as nat) <= u64::MAX,
    ensures
        r == fib(n as nat),
{
    if n == 0 {
        return 0;
    }
    let mut prev: u64 = 0;
    let mut cur: u64 = 1;
    let mut i: u64 = 1;
    while i < n
        invariant
            1 <= i <= n,
            fib(n as nat) <= u64::MAX,
            prev == fib((i - 1) as nat),
            cur == fib(i as nat),
        decreases n - i,
    {
        proof {
            lemma_fib_monotonic((i + 1) as nat, n as nat);
        }
        let next = prev + cur;
        prev = cur;
        cur = next;
        i = i + 1;
    }
    cur
}

/// The `n`-th Fibonacci number, computed with `loop` and `break`.
pub fn fib_loop(n: u64) -> (r: u64)
    requires
        fib(n as nat) <= u64::MAX,
    ensures
        r == fib(n as nat),
{
    if n == 0 {
        return 0;
    }
    let mut prev: u64 = 0;
    let mut cur: u64 = 1;
    let mut i: u64 = 1;
    loop
        invariant
            1 <= i <= n,
            fib(n as nat) <= u64::MAX,
            prev == fib((i - 1) as nat),
            cur == fib(i as nat),
        ensures
            cur == fib(n as nat),
        decreases n - i,
    {
        if i == n {
            break;
        }
        proof {
            lemma_fib_monotonic((i + 1) as nat, n as nat);
        }
        let next = prev + cur;
        prev = cur;
        cur = next;
        i = i + 1;
    }
    cur
}

/// The `n`-th Fibonacci number, computed with a `for` loop over a range.
pub fn fib_for(n: u64) -> (r: u64)
    requires
        fib(n as nat) <= u64::MAX,
    ensures
        r == fib(n as nat),
{
    if n == 0 {
        return 0;
    }
    let mut prev: u64 = 0;
    let mut cur: u64 = 1;
    for i in 1..n
        invariant
            fib(n as nat) <= u64::MAX,
            prev == fib((i - 1) as nat),
            cur == fib(i as nat),
    {
        proof {
            lemma_fib_monotonic((i + 1) as nat, n as nat);
        }
        let next = prev + cur;
        prev = cur;
        cur = next;
    }
    cur
}

/// The `n`-th Fibonacci number, computed by tail recursion.
pub fn fib_rec(n: u64) -> (r: u64)
    requires
        fib(n as nat) <= u64::MAX,
    ensures
        r == fib(n as nat),
{
    if n == 0 {
        0
    } else {
        fib_rec_from(n, 1, 0, 1)
    }
}

/// Steps from `prev` and `cur`, the Fibonacci numbers before and at `i`, up to
/// the one at `n`.
fn fib_rec_from(n: u64, i: u64, prev: u64, cur: u64) -> (r: u64)
    requires
        1 <= i <= n,
        fib(n as nat) <= u64::MAX,
        prev == fib((i - 1) as nat),
        cur == fib(i as nat),
    ensures
        r == fib(n as nat),
    decreases n - i,
{
    if i == n {
        cur
    } else {
        proof {
            lemma_fib_monotonic((i + 1) as nat, n as nat);
        }
        fib_rec_from(n, i + 1, cur, prev + cur)
    }
}

} // verus!
