//! CPU benchmarks with hard input caps: every entry point checks its
//! inputs against a cap before doing any work, so an oversized request fails
//! with an error code instead of exhausting the host's budget.

use vstd::prelude::*;
use vstd::arithmetic::div_mod::lemma_add_mod_noop;
use vstd::relations::{total_ordering, sorted_by};

verus! {

broadcast use vstd::seq_lib::group_to_multiset_ensures, vstd::multiset::group_multiset_axioms;

#[derive(Copy, Clone, Debug, PartialEq, Eq, Structural)]
pub enum Error {
    /// `n` exceeded `MAX_FIB`.
    FibonacciInputTooLarge,
    /// The input list was longer than `MAX_SORT`.
    SortInputTooLarge,
    /// `limit` exceeded `MAX_PRIME`.
    PrimeLimitTooLarge,
    /// `outer * inner` exceeded `MAX_LOOP_OPS`.
    LoopOpsTooLarge,
    /// One of the combined-benchmark arguments exceeded its sub-cap.
    CombinedInputTooLarge,
}

impl Error {
    /// The contract error code.
    pub fn code(&self) -> (r: u32)
        ensures
            r == match self {
                Error::FibonacciInputTooLarge => 1u32,
                Error::SortInputTooLarge => 2,
                Error::PrimeLimitTooLarge => 3,
                Error::LoopOpsTooLarge => 4,
                Error::CombinedInputTooLarge => 5,
            },
    {
        match self {
            Error::FibonacciInputTooLarge => 1,
            Error::SortInputTooLarge => 2,
            Error::PrimeLimitTooLarge => 3,
            Error::LoopOpsTooLarge => 4,
            Error::CombinedInputTooLarge => 5,
        }
    }
}

/// Largest `n` accepted by `fibonacci_iterative`.
pub const MAX_FIB: u32 = 50_000;
/// Longest list accepted by `bubble_sort`.
pub const MAX_SORT: u32 = 100;
/// Largest `limit` accepted by `count_primes`.
pub const MAX_PRIME: u32 = 20_000;
/// Largest `outer * inner` product accepted by `nested_loop_burn`.
pub const MAX_LOOP_OPS: u32 = 500_000;
/// Largest `fib_n` accepted by `combined_benchmark`.
pub const MAX_COMBINED_FIB: u32 = 10_000;
/// Largest `sort_size` accepted by `combined_benchmark`.
pub const MAX_COMBINED_SORT: u32 = 50;
/// Largest `prime_limit` accepted by `combined_benchmark`.
pub const MAX_COMBINED_PRIME: u32 = 5_000;

/// The Fibonacci numbers: fib(0) = 0, fib(1) = 1.
pub open spec fn fib(n: nat) -> nat
    decreases n,
{
    if n == 0 {
        0
    } else if n == 1 {
        1
    } else {
        fib((n - 2) as nat) + fib((n - 1) as nat)
    }
}

pub open spec fn two64() -> nat {
    0x1_0000_0000_0000_0000
}

/// Whether `n` is prime.
pub open spec fn is_prime(n: int) -> bool {
    n >= 2 && forall|d: int| 2 <= d < n ==> #[trigger] (n % d) != 0
}

/// The number of primes in `2..=n`.
pub open spec fn prime_count(n: int) -> nat
    decreases n,
{
    if n < 2 {
        0
    } else {
        prime_count(n - 1) + if is_prime(n) { 1nat } else { 0nat }
    }
}

/// Σ_{i < outer} Σ_{j < inner} (i + j).
pub open spec fn burn_sum(outer: int, inner: int) -> int {
    inner * (outer * (outer - 1) / 2) + outer * (inner * (inner - 1) / 2)
}

pub open spec fn ascending(s: Seq<u32>) -> bool {
    forall|i: int, j: int| 0 <= i < j < s.len() ==> s[i] <= s[j]
}

pub open spec fn leq() -> spec_fn(u32, u32) -> bool {
    |x: u32, y: u32| x <= y
}

/// The list in ascending order.
pub open spec fn sorted_spec(s: Seq<u32>) -> Seq<u32> {
    s.sort_by(leq())
}

proof fn lemma_sorted_is_sort(r: Seq<u32>, s: Seq<u32>)
    requires
        ascending(r),
        r.to_multiset() == s.to_multiset(),
    ensures
        r == sorted_spec(s),
{
    assert(total_ordering(leq()));
    s.lemma_sort_by_ensures(leq());
    assert(sorted_by(r, leq())) by {
        assert forall|i: int, j: int| 0 <= i < j < r.len() implies #[trigger] (leq())(r[i], r[j]) by {}
    }
    vstd::seq_lib::lemma_sorted_unique(r, s.sort_by(leq()), leq());
}

proof fn lemma_swap_multiset(s: Seq<u32>, j: int)
    requires
        0 <= j < s.len() - 1,
    ensures
        s.update(j, s[j + 1]).update(j + 1, s[j]).to_multiset() == s.to_multiset(),
{
    let a = s[j];
    let b = s[j + 1];
    let t = s.update(j, b);
    vstd::seq_lib::to_multiset_update(s, j, b);
    vstd::seq_lib::to_multiset_update(t, j + 1, a);
    assert(t[j + 1] == b);
    assert(s.to_multiset().insert(b).remove(a).insert(a).remove(b) =~= s.to_multiset());
}

/// A number without a divisor `i` with `i * i <= n` has no divisor below it.
proof fn lemma_trial_division(n: int)
    requires
        n >= 2,
        forall|i: int| 2 <= i && i * i <= n ==> #[trigger] (n % i) != 0,
    ensures
        is_prime(n),
{
    assert forall|d: int| 2 <= d < n implies #[trigger] (n % d) != 0 by {
        if n % d == 0 {
            let q = n / d;
            assert(n == d * q) by (nonlinear_arith)
                requires n % d == 0, d > 0, q == n / d;
            if d * d <= n {
                assert(n % d != 0);
            } else {
                assert(2 <= q && q * q <= n && q < d) by (nonlinear_arith)
                    requires n == d * q, d * d > n, 2 <= d < n;
                assert(n % q == 0) by (nonlinear_arith)
                    requires n == d * q, q >= 2;
                assert(n % q != 0);
            }
        }
    }
}

/// The contract's entry points; it keeps no state.
pub struct CpuHeavyContract;

impl CpuHeavyContract {
    /// The `n`-th Fibonacci number, wrapping on `u64` overflow.
    pub fn fibonacci_iterative(n: u32) -> (r: Result<u64, Error>)
        ensures
            r == (if n > MAX_FIB {
                Err(Error::FibonacciInputTooLarge)
            } else {
                Ok((fib(n as nat) % two64()) as u64)
            }),
    {
        if n > 50_000 {
            return Err(Error::FibonacciInputTooLarge);
        }
        let mut a: u64 = 0;
        let mut b: u64 = 1;
        let mut k: u32 = 0;
        while k < n
            invariant
                k <= n,
                a == fib(k as nat) % two64(),
                b == fib(k as nat + 1) % two64(),
            decreases n - k,
        {
            let temp = a.wrapping_add(b);
            proof {
                lemma_add_mod_noop(fib(k as nat) as int, fib(k as nat + 1) as int, two64() as int);
                assert(fib(k as nat + 2) == fib(k as nat) + fib(k as nat + 1));
            }
            a = b;
            b = temp;
            k += 1;
        }
        Ok(a)
    }

    /// Bubble-sorts the list, ascending.
    pub fn bubble_sort(values: Vec<u32>) -> (r: Result<Vec<u32>, Error>)
        ensures
            match r {
                Err(e) => values@.len() > MAX_SORT && e == Error::SortInputTooLarge,
                Ok(v) => values@.len() <= MAX_SORT && v@ == sorted_spec(values@),
            },
    {
        if values.len() > 100 {
            return Err(Error::SortInputTooLarge);
        }
        let mut arr = values;
        let ghost orig = arr@;
        let n = arr.len();
        let mut i: usize = 0;
        while i < n
            invariant
                n == arr.len(),
                i <= n,
                arr@.to_multiset() == orig.to_multiset(),
                forall|a: int, b: int| n - i <= a < b < n ==> arr@[a] <= arr@[b],
                forall|a: int, b: int| 0 <= a < n - i && n - i <= b < n ==> arr@[a] <= arr@[b],
            decreases n - i,
        {
            let mut j: usize = 0;
            while j < n - i - 1
                invariant
                    n == arr.len(),
                    i < n,
                    j <= n - i - 1,
                    arr@.to_multiset() == orig.to_multiset(),
                    forall|a: int, b: int| n - i <= a < b < n ==> arr@[a] <= arr@[b],
                    forall|a: int, b: int| 0 <= a < n - i && n - i <= b < n ==> arr@[a] <= arr@[b],
                    forall|a: int| 0 <= a <= j ==> arr@[a] <= arr@[j as int],
                decreases n - i - 1 - j,
            {
                let val_j = arr[j];
                let val_next = arr[j + 1];
                if val_j > val_next {
                    proof {
                        lemma_swap_multiset(arr@, j as int);
                    }
                    arr.set(j, val_next);
                    arr.set(j + 1, val_j);
                }
                j += 1;
            }
            i += 1;
        }
        proof {
            lemma_sorted_is_sort(arr@, orig);
        }
        Ok(arr)
    }

    /// The number of primes in `2..=limit`, by trial division.
    pub fn count_primes(limit: u32) -> (r: Result<u32, Error>)
        ensures
            r == (if limit > MAX_PRIME {
                Err(Error::PrimeLimitTooLarge)
            } else {
                Ok(prime_count(limit as int) as u32)
            }),
    {
        if limit > 20_000 {
            return Err(Error::PrimeLimitTooLarge);
        }
        let mut count: u32 = 0;
        let mut num: u32 = 2;
        proof {
            assert(prime_count(1) == 0);
        }
        while num <= limit
            invariant
                2 <= num,
                num <= limit + 1 || num == 2,
                limit <= MAX_PRIME,
                count == prime_count(num - 1),
                count <= num,
            decreases limit + 1 - num,
        {
            let mut prime = true;
            let mut i: u32 = 2;
            while i * i <= num
                invariant_except_break
                    2 <= i <= num,
                    num <= MAX_PRIME,
                    forall|d: int| 2 <= d < i ==> #[trigger] (num as int % d) != 0,
                invariant
                    2 <= i <= 200,
                    i * i <= 40_000,
                    num <= MAX_PRIME,
                    prime ==> forall|d: int| 2 <= d < i ==> #[trigger] (num as int % d) != 0,
                    !prime ==> !is_prime(num as int),
                ensures
                    prime ==> i * i > num && forall|d: int| 2 <= d < i ==> #[trigger] (num as int % d) != 0,
                    !prime ==> !is_prime(num as int),
                decreases num - i,
            {
                if num % i == 0 {
                    prime = false;
                    assert(!is_prime(num as int)) by {
                        assert(num as int % i as int == 0);
                        assert(i < num) by (nonlinear_arith)
                            requires i * i <= num, i >= 2;
                    }
                    break;
                }
                assert(i < 200 && i < num && (i + 1) * (i + 1) <= 40_000) by (nonlinear_arith)
                    requires i * i <= num, num <= 20_000, i >= 2;
                i += 1;
            }
            if prime {
                proof {
                    assert forall|d: int| 2 <= d && d * d <= num implies #[trigger] (num as int % d) != 0 by {
                        if d >= i {
                            assert(d * d >= i * i) by (nonlinear_arith)
                                requires d >= i, i >= 2;
                        }
                    }
                    lemma_trial_division(num as int);
                }
                count += 1;
            }
            num += 1;
        }
        Ok(count)
    }

    /// Σ_{i < outer} Σ_{j < inner} (i + j), computed by `outer * inner`
    /// iterations (wrapping on `u64` overflow, which the cap rules out).
    pub fn nested_loop_burn(outer: u32, inner: u32) -> (r: Result<u64, Error>)
        ensures
            r == (if outer * inner > MAX_LOOP_OPS {
                Err(Error::LoopOpsTooLarge)
            } else {
                Ok(burn_sum(outer as int, inner as int) as u64)
            }),
    {
        let ops: u32 = match outer.checked_mul(inner) {
            Some(p) => p,
            None => u32::MAX,
        };
        if ops > 500_000 {
            return Err(Error::LoopOpsTooLarge);
        }
        proof {
            assert(outer * inner <= 500_000);
        }
        let mut sum: u64 = 0;
        let mut i: u32 = 0;
        while i < outer
            invariant
                i <= outer,
                outer * inner <= 500_000,
                sum == burn_sum(i as int, inner as int),
            decreases outer - i,
        {
            let mut j: u32 = 0;
            proof {
                lemma_burn_bound(i as int, inner as int, outer as int);
            }
            while j < inner
                invariant
                    j <= inner,
                    i < outer,
                    outer * inner <= 500_000,
                    sum == burn_sum(i as int, inner as int) + i * j + j * (j - 1) / 2,
                decreases inner - j,
            {
                proof {
                    lemma_burn_row(i as int, j as int, inner as int, outer as int);
                }
                sum = sum.wrapping_add(i as u64).wrapping_add(j as u64);
                j += 1;
            }
            proof {
                lemma_burn_step(i as int, inner as int);
            }
            i += 1;
        }
        Ok(sum)
    }

    /// Runs all three workloads and returns `[fibonacci(fib_n),
    /// prime_count(prime_limit)]`; each argument must be within its sub-cap.
    pub fn combined_benchmark(fib_n: u32, sort_size: u32, prime_limit: u32) -> (r: Result<Vec<u64>, Error>)
        ensures
            match r {
                Err(e) => e == Error::CombinedInputTooLarge
                    && (fib_n > MAX_COMBINED_FIB || sort_size > MAX_COMBINED_SORT || prime_limit > MAX_COMBINED_PRIME),
                Ok(v) => fib_n <= MAX_COMBINED_FIB && sort_size <= MAX_COMBINED_SORT && prime_limit <= MAX_COMBINED_PRIME
                    && v@ == seq![(fib(fib_n as nat) % two64()) as u64, prime_count(prime_limit as int) as u64],
            },
    {
        if fib_n > 10_000 || sort_size > 50 || prime_limit > 5_000 {
            return Err(Error::CombinedInputTooLarge);
        }
        let mut results: Vec<u64> = Vec::new();
        let f = match Self::fibonacci_iterative(fib_n) {
            Ok(f) => f,
            Err(e) => return Err(e),
        };
        results.push(f);
        let mut to_sort: Vec<u32> = Vec::new();
        let mut k: u32 = sort_size;
        while k > 0
            invariant
                k <= sort_size,
                to_sort@.len() == sort_size - k,
            decreases k,
        {
            k -= 1;
            to_sort.push(k);
        }
        match Self::bubble_sort(to_sort) {
            Ok(_) => {},
            Err(e) => return Err(e),
        }
        let p = match Self::count_primes(prime_limit) {
            Ok(p) => p,
            Err(e) => return Err(e),
        };
        results.push(p as u64);
        proof {
            lemma_prime_count_bound(prime_limit as int);
        }
        assert(results@ =~= seq![(fib(fib_n as nat) % two64()) as u64, prime_count(prime_limit as int) as u64]);
        Ok(results)
    }
}

proof fn lemma_prime_count_bound(n: int)
    ensures
        prime_count(n) <= if n < 0 { 0 } else { n },
    decreases n,
{
    if n >= 2 {
        lemma_prime_count_bound(n - 1);
    }
}

proof fn lemma_burn_bound(i: int, inner: int, outer: int)
    requires
        0 <= i < outer,
        0 <= inner,
        outer * inner <= 500_000,
    ensures
        0 <= burn_sum(i + 1, inner) <= 0x1_0000_0000_0000,
{
    assert(0 <= burn_sum(i + 1, inner) <= 0x1_0000_0000_0000) by (nonlinear_arith)
        requires 0 <= i < outer, 0 <= inner, outer * inner <= 500_000;
}

proof fn lemma_burn_row(i: int, j: int, inner: int, outer: int)
    requires
        0 <= i < outer,
        0 <= j < inner,
        outer * inner <= 500_000,
    ensures
        0 <= burn_sum(i, inner) + i * j + j * (j - 1) / 2,
        burn_sum(i, inner) + i * (j + 1) + (j + 1) * j / 2
            == burn_sum(i, inner) + i * j + j * (j - 1) / 2 + i + j,
        burn_sum(i, inner) + i * (j + 1) + (j + 1) * j / 2 <= burn_sum(i + 1, inner),
        burn_sum(i + 1, inner) <= 0x1_0000_0000_0000,
        i + j < 0x1_0000_0000,
{
    lemma_burn_bound(i, inner, outer);
    assert(j * (j - 1) / 2 + j == (j + 1) * j / 2) by (nonlinear_arith)
        requires j >= 0;
    assert(i * (j + 1) == i * j + i) by (nonlinear_arith);
    assert(0 <= burn_sum(i, inner) + i * j + j * (j - 1) / 2) by (nonlinear_arith)
        requires i >= 0, j >= 0, inner >= 0;
    lemma_burn_step(i, inner);
    assert(i * (j + 1) + (j + 1) * j / 2 <= i * inner + inner * (inner - 1) / 2) by (nonlinear_arith)
        requires 0 <= j < inner, i >= 0;
    assert(i + j < 0x1_0000_0000) by (nonlinear_arith)
        requires 0 <= i < outer, 0 <= j < inner, outer * inner <= 500_000;
}

proof fn lemma_burn_step(i: int, inner: int)
    requires
        i >= 0,
        inner >= 0,
    ensures
        burn_sum(i + 1, inner) == burn_sum(i, inner) + i * inner + inner * (inner - 1) / 2,
{
    assert((i + 1) * i / 2 == i * (i - 1) / 2 + i) by (nonlinear_arith)
        requires i >= 0;
    assert(inner * ((i + 1) * i / 2) == inner * (i * (i - 1) / 2) + inner * i) by (nonlinear_arith)
        requires (i + 1) * i / 2 == i * (i - 1) / 2 + i;
    assert((i + 1) * (inner * (inner - 1) / 2) == i * (inner * (inner - 1) / 2) + inner * (inner - 1) / 2) by (nonlinear_arith);
    assert(inner * i == i * inner) by (nonlinear_arith);
}

} // verus!
