use std::time::Duration;

use slimes::benchmark::{
    calculate_primes, calculate_score, collect_multithread_results, is_number_prime,
    job_is_pending, run_benchmark_singlethread, score_from_micros, MULTI_THREAD_LOAD_FACTOR,
};

#[test]
fn small_numbers_are_classified() {
    assert!(!is_number_prime(0));
    assert!(!is_number_prime(1));
    assert!(is_number_prime(2));
    assert!(is_number_prime(3));
    assert!(!is_number_prime(4));
    assert!(is_number_prime(5));
    assert!(!is_number_prime(9));
    assert!(!is_number_prime(15));
    assert!(!is_number_prime(25));
    assert!(!is_number_prime(49));
    assert!(is_number_prime(97));
}

#[test]
fn larger_numbers_are_classified() {
    assert!(is_number_prime(7919));
    assert!(!is_number_prime(7917));
    assert!(is_number_prime(1_000_000_007));
    assert!(!is_number_prime(1_000_000_007 * 3));
    assert!(!is_number_prime(65_521 * 65_521));
    assert!(is_number_prime(4_294_967_291));
}

#[test]
fn primes_up_to_a_limit_are_counted() {
    assert_eq!(calculate_primes(1, 10), 4);
    assert_eq!(calculate_primes(1, 100), 25);
    assert_eq!(calculate_primes(1, 1000), 168);
    assert_eq!(calculate_primes(1, 500_000), 41_538);
}

#[test]
fn range_edges_are_counted() {
    assert_eq!(calculate_primes(0, 0), 0);
    assert_eq!(calculate_primes(0, 1), 0);
    assert_eq!(calculate_primes(0, 2), 1);
    assert_eq!(calculate_primes(2, 2), 1);
    assert_eq!(calculate_primes(3, 3), 1);
    assert_eq!(calculate_primes(4, 4), 0);
    assert_eq!(calculate_primes(14, 16), 0);
    assert_eq!(calculate_primes(10, 20), 4);
    assert_eq!(calculate_primes(20, 10), 0);
}

#[test]
fn ranges_split_into_parts_add_up() {
    assert_eq!(calculate_primes(1, 50) + calculate_primes(51, 100), calculate_primes(1, 100));
    assert_eq!(calculate_primes(1, 2) + calculate_primes(3, 1000), calculate_primes(1, 1000));
    assert!(calculate_primes(1, 100) <= calculate_primes(1, 1000));
}

#[test]
fn score_is_work_over_time() {
    assert_eq!(score_from_micros(1000, 1, 500_000), 5_000_000);
    assert_eq!(score_from_micros(3, 1, 1), 3333);
    assert_eq!(score_from_micros(0, 1, 500_000), 0);
    assert_eq!(score_from_micros(1_000_000, 32, 1000), 320);
}

#[test]
fn score_reads_the_duration_in_microseconds() {
    assert_eq!(calculate_score(Duration::from_micros(1000), 1, 500_000), 5_000_000);
    assert_eq!(calculate_score(Duration::from_secs(2), 32, 500_000), 80_000);
    assert_eq!(calculate_score(Duration::from_nanos(999), 1, 500_000), 0);
}

#[test]
fn longer_runs_score_lower() {
    let fast = score_from_micros(1000, 1, 10_000);
    let slow = score_from_micros(4000, 1, 10_000);
    assert!(slow <= fast);
    assert_eq!(fast, 100_000);
    assert_eq!(slow, 25_000);
}

#[test]
fn single_thread_run_counts_and_scores() {
    let results = run_benchmark_singlethread(1000);
    assert_eq!(results.primes_found, 168);
    assert_eq!(results.batch_count, 1);
    assert_eq!(results.score, calculate_score(results.duration, 1, 1000));
}

#[test]
fn jobs_are_handed_out_up_to_the_load_factor() {
    assert_eq!(MULTI_THREAD_LOAD_FACTOR, 32);
    assert!(job_is_pending(0));
    assert!(job_is_pending(31));
    assert!(!job_is_pending(32));
    assert!(!job_is_pending(usize::MAX));
}

#[test]
fn multithread_results_add_the_threads_counts() {
    let counts = vec![168 * 10, 168 * 22];
    let results = collect_multithread_results(Duration::from_secs(1), &counts, 1000);
    assert_eq!(results.primes_found, 168 * 32);
    assert_eq!(results.batch_count, 32);
    assert_eq!(results.score, 320);
    assert_eq!(results.duration, Duration::from_secs(1));
}

#[test]
fn multithread_results_without_threads() {
    let results = collect_multithread_results(Duration::from_nanos(10), &Vec::new(), 1000);
    assert_eq!(results.primes_found, 0);
    assert_eq!(results.score, 0);
    assert_eq!(results.batch_count, 32);
}

#[test]
fn more_work_in_the_same_time_scores_higher() {
    let one = score_from_micros(1000, 1, 100);
    let two = score_from_micros(1000, 2, 100);
    assert!(one <= two);
    assert_eq!(one, 1000);
    assert_eq!(two, 2000);
}
