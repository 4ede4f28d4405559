use soroscope::cpu_heavy::{
    CpuHeavyContract, Error, MAX_COMBINED_FIB, MAX_COMBINED_PRIME, MAX_COMBINED_SORT, MAX_FIB,
    MAX_LOOP_OPS, MAX_PRIME, MAX_SORT,
};

/// Builds a descending `[n-1, ..., 0]` list, the worst case for bubble sort.
fn descending(n: u32) -> Vec<u32> {
    let mut v = Vec::new();
    for i in (0..n).rev() {
        v.push(i);
    }
    v
}

// ── Happy paths ──────────────────────────────────────────────────────────────

#[test]
fn test_benchmarks_run_successfully() {
    assert_eq!(CpuHeavyContract::fibonacci_iterative(20), Ok(6765));
    assert_eq!(CpuHeavyContract::count_primes(100), Ok(25));
    assert_eq!(CpuHeavyContract::bubble_sort(vec![5, 3, 8, 1]), Ok(vec![1, 3, 5, 8]));
    assert!(CpuHeavyContract::nested_loop_burn(10, 10).unwrap() > 0);
}

#[test]
fn test_combined_benchmark() {
    let results = CpuHeavyContract::combined_benchmark(100, 20, 50).unwrap();
    // Combined returns results for Fibonacci and prime counting.
    assert_eq!(results.len(), 2);
    assert_eq!(results[1], 15);
}

#[test]
fn test_bubble_sort_handles_degenerate_lengths() {
    assert_eq!(CpuHeavyContract::bubble_sort(Vec::new()), Ok(Vec::new()));
    assert_eq!(CpuHeavyContract::bubble_sort(vec![7]), Ok(vec![7]));
}

// ── Guards accept inputs exactly at the cap ──────────────────────────────────

#[test]
fn test_inputs_at_the_cap_are_accepted() {
    // Each of these is the largest value the contract promises to serve.
    CpuHeavyContract::fibonacci_iterative(MAX_FIB).unwrap();
    CpuHeavyContract::count_primes(MAX_PRIME).unwrap();
    CpuHeavyContract::bubble_sort(descending(MAX_SORT)).unwrap();
    CpuHeavyContract::nested_loop_burn(MAX_LOOP_OPS, 1).unwrap();
    CpuHeavyContract::combined_benchmark(MAX_COMBINED_FIB, MAX_COMBINED_SORT, MAX_COMBINED_PRIME).unwrap();
}

// ── Guards reject inputs past the cap with a clean error code ────────────────

#[test]
fn test_fibonacci_rejects_oversized_input() {
    assert_eq!(CpuHeavyContract::fibonacci_iterative(MAX_FIB + 1), Err(Error::FibonacciInputTooLarge));
    assert_eq!(CpuHeavyContract::fibonacci_iterative(u32::MAX), Err(Error::FibonacciInputTooLarge));
}

#[test]
fn test_bubble_sort_rejects_oversized_input() {
    assert_eq!(CpuHeavyContract::bubble_sort(descending(MAX_SORT + 1)), Err(Error::SortInputTooLarge));
}

#[test]
fn test_count_primes_rejects_oversized_input() {
    assert_eq!(CpuHeavyContract::count_primes(MAX_PRIME + 1), Err(Error::PrimeLimitTooLarge));
}

#[test]
fn test_nested_loop_burn_rejects_oversized_input() {
    assert_eq!(CpuHeavyContract::nested_loop_burn(MAX_LOOP_OPS + 1, 1), Err(Error::LoopOpsTooLarge));
    // Neither factor is individually huge, but the product is.
    assert_eq!(CpuHeavyContract::nested_loop_burn(1_000, 1_000), Err(Error::LoopOpsTooLarge));
}

/// `outer * inner` overflows `u32`; the guard must not wrap.
#[test]
fn test_nested_loop_burn_guard_survives_multiplication_overflow() {
    assert_eq!(CpuHeavyContract::nested_loop_burn(65_536, 65_536), Err(Error::LoopOpsTooLarge));
    assert_eq!(CpuHeavyContract::nested_loop_burn(u32::MAX, u32::MAX), Err(Error::LoopOpsTooLarge));
}

#[test]
fn test_combined_benchmark_rejects_each_oversized_argument() {
    let over = [
        (MAX_COMBINED_FIB + 1, 10, 100),
        (100, MAX_COMBINED_SORT + 1, 100),
        (100, 10, MAX_COMBINED_PRIME + 1),
    ];
    for (fib_n, sort_size, prime_limit) in over {
        assert_eq!(
            CpuHeavyContract::combined_benchmark(fib_n, sort_size, prime_limit),
            Err(Error::CombinedInputTooLarge)
        );
    }
}

/// Error discriminants are part of the contract's public surface.
#[test]
fn test_error_codes_are_stable() {
    assert_eq!(Error::FibonacciInputTooLarge.code(), 1);
    assert_eq!(Error::SortInputTooLarge.code(), 2);
    assert_eq!(Error::PrimeLimitTooLarge.code(), 3);
    assert_eq!(Error::LoopOpsTooLarge.code(), 4);
    assert_eq!(Error::CombinedInputTooLarge.code(), 5);
}

// ── Exact values of the verified formulas ────────────────────────────────────

#[test]
fn test_fibonacci_exact_values_and_wrapping() {
    assert_eq!(CpuHeavyContract::fibonacci_iterative(0), Ok(0));
    assert_eq!(CpuHeavyContract::fibonacci_iterative(1), Ok(1));
    assert_eq!(CpuHeavyContract::fibonacci_iterative(93), Ok(12_200_160_415_121_876_738));
    // fib(94) exceeds u64 and wraps modulo 2^64.
    let f92: u64 = 7_540_113_804_746_346_429;
    let f93: u64 = 12_200_160_415_121_876_738;
    assert_eq!(CpuHeavyContract::fibonacci_iterative(94), Ok(f92.wrapping_add(f93)));
}

#[test]
fn test_prime_counts_and_burn_sum() {
    assert_eq!(CpuHeavyContract::count_primes(0), Ok(0));
    assert_eq!(CpuHeavyContract::count_primes(1), Ok(0));
    assert_eq!(CpuHeavyContract::count_primes(2), Ok(1));
    assert_eq!(CpuHeavyContract::count_primes(50), Ok(15));
    assert_eq!(CpuHeavyContract::count_primes(1_000), Ok(168));
    // Σ_{i<10} Σ_{j<10} (i + j) = 10*45 + 10*45 = 900.
    assert_eq!(CpuHeavyContract::nested_loop_burn(10, 10), Ok(900));
    assert_eq!(CpuHeavyContract::nested_loop_burn(3, 4), Ok(4 * 3 + 3 * 6));
    assert_eq!(CpuHeavyContract::nested_loop_burn(u32::MAX, 0), Ok(0));
}
