use prime_bench::bench::{
    count_probable_primes, judge_candidate, plan_benchmark, run_trial, run_trials, summarize,
    throughput_hundredths, ExecutionMode, NUM_BITS, NUM_ITERATIONS,
};
use prime_bench::bignat::BigNat;

#[test]
fn both_modes_plan_the_same_workload() {
    for (t, c) in [(1024usize, 8usize), (0, 4), (3072, 1), (7, 13)] {
        let single = plan_benchmark(ExecutionMode::Single, t, c).unwrap();
        let multi = plan_benchmark(ExecutionMode::Multi, t, c).unwrap();
        assert_eq!(single.total_tries, multi.total_tries);
        assert_eq!(single.total_tries, t * c);
        assert_eq!(single.bits, multi.bits);
        assert_eq!(single.iterations, multi.iterations);
        assert_eq!(single.mode, ExecutionMode::Single);
        assert_eq!(multi.mode, ExecutionMode::Multi);
    }
}

#[test]
fn plan_uses_fixed_shape() {
    let plan = plan_benchmark(ExecutionMode::Multi, 1024, 8).unwrap();
    assert_eq!(plan.bits, 2048);
    assert_eq!(plan.iterations, 128);
    assert_eq!(NUM_BITS, 2048);
    assert_eq!(NUM_ITERATIONS, 128);
    assert_eq!(plan.total_tries, 8192);
}

#[test]
fn plan_overflow_is_refused() {
    assert!(plan_benchmark(ExecutionMode::Single, usize::MAX, 2).is_none());
    assert!(plan_benchmark(ExecutionMode::Single, usize::MAX, 1).is_some());
}

#[test]
fn count_over_batches_equals_count_over_whole() {
    let verdicts: Vec<bool> = (0..100).map(|i| i % 3 == 0 || i % 7 == 2).collect();
    let whole = count_probable_primes(&verdicts);
    for split in [0usize, 1, 33, 50, 99, 100] {
        let a = verdicts[..split].to_vec();
        let b = verdicts[split..].to_vec();
        assert_eq!(count_probable_primes(&a) + count_probable_primes(&b), whole);
    }
    let mut parts = 0;
    for chunk in verdicts.chunks(9) {
        parts += count_probable_primes(&chunk.to_vec());
    }
    assert_eq!(parts, whole);
    assert_eq!(whole, verdicts.iter().filter(|v| **v).count());
}

#[test]
fn all_probable_primes_are_counted() {
    let plan = plan_benchmark(ExecutionMode::Single, 10, 1).unwrap();
    let verdicts = vec![true; 10];
    let report = summarize(&plan, &verdicts, 2_000_000_000);
    assert_eq!(report.probable_primes, 10);
    assert_eq!(report.bits, 2048);
    assert_eq!(report.total_tries, 10);
    assert_eq!(report.throughput_hundredths, 500);
    assert_eq!(
        report.text(),
        "Found 10 2048 bit prime numbers in 10 attempts and 2.0000s\nScore: 5.00 tries/s"
    );
}

#[test]
fn no_trials_gives_zero_throughput() {
    let plan = plan_benchmark(ExecutionMode::Multi, 0, 16).unwrap();
    let report = summarize(&plan, &Vec::new(), 1_234_567);
    assert_eq!(report.total_tries, 0);
    assert_eq!(report.probable_primes, 0);
    assert_eq!(report.throughput_hundredths, 0);
    assert_eq!(
        report.text(),
        "Found 0 2048 bit prime numbers in 0 attempts and 0.0012s\nScore: 0.00 tries/s"
    );
}

#[test]
fn zero_elapsed_gives_zero_throughput() {
    assert_eq!(throughput_hundredths(10, 0), 0);
    assert_eq!(throughput_hundredths(0, 0), 0);
}

#[test]
fn throughput_formula() {
    assert_eq!(throughput_hundredths(3, 1_000_000_000), 300);
    assert_eq!(throughput_hundredths(8192, 4_096_000_000), 200_000);
    assert_eq!(throughput_hundredths(1, 3_000_000_000), 33);
}

#[test]
fn report_text_of_fractional_figures() {
    let plan = plan_benchmark(ExecutionMode::Single, 3, 1).unwrap();
    let report = summarize(&plan, &vec![false, true, false], 1_500_012_345);
    assert_eq!(report.probable_primes, 1);
    assert_eq!(report.throughput_hundredths, 199);
    assert_eq!(
        report.text(),
        "Found 1 2048 bit prime numbers in 3 attempts and 1.5000s\nScore: 1.99 tries/s"
    );
}

#[test]
fn candidates_outside_the_test_are_not_counted() {
    assert!(!judge_candidate(&BigNat::from_u32(1), 8));
    assert!(!judge_candidate(&BigNat::from_u32(4), 8));
    assert!(judge_candidate(&BigNat::from_u32(2), 8));
    assert!(judge_candidate(&BigNat::from_u32(97), 8));
    assert!(!judge_candidate(&BigNat::from_u32(561), 128));
}

#[test]
fn trials_on_small_candidates() {
    let verdicts = run_trials(16, 16, 40);
    assert_eq!(verdicts.len(), 40);
    let _ = run_trial(2, 4);
    // 2-bit odd candidates are 3 only, which is prime.
    assert!(run_trial(2, 4));
    assert_eq!(count_probable_primes(&run_trials(2, 4, 5)), 5);
}
