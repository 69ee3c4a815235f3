use std::time::Duration;

use slimes::application_header;
use slimes::benchmark::BenchmarkResults;
use slimes::report::{
    batch_suffix, confirms_upload, leaderboard_score, parallel_speedup, section_title,
    BenchmarkReport, Pagination,
};

fn results(score: u64) -> BenchmarkResults {
    BenchmarkResults { duration: Duration::from_millis(5), primes_found: 10, score, batch_count: 1 }
}

#[test]
fn reports_are_ranked_by_the_multithread_score() {
    let report = BenchmarkReport { prime_limit: 500_000, logical_cores: 8, single_thread: results(7), multi_thread: results(51) };
    assert_eq!(leaderboard_score(&Some(report)), 51);
    assert_eq!(leaderboard_score(&None), 0);
}

#[test]
fn pagination_defaults() {
    let none = Pagination { limit: None, offset: None };
    assert_eq!(none.limit_or_default(), 10);
    assert_eq!(none.offset_or_default(), 0);
    let given = Pagination { limit: Some(25), offset: Some(50) };
    assert_eq!(given.limit_or_default(), 25);
    assert_eq!(given.offset_or_default(), 50);
}

#[test]
fn speedup_is_a_whole_ratio() {
    assert_eq!(parallel_speedup(900, 100), 9);
    assert_eq!(parallel_speedup(950, 100), 9);
    assert_eq!(parallel_speedup(950, 0), 0);
    assert_eq!(parallel_speedup(0, 7), 0);
}

#[test]
fn upload_answers() {
    assert!(confirms_upload("\n"));
    assert!(confirms_upload(""));
    assert!(confirms_upload("y\n"));
    assert!(confirms_upload("  Yes please\n"));
    assert!(confirms_upload("YES"));
    assert!(!confirms_upload("n\n"));
    assert!(!confirms_upload("no"));
    assert!(!confirms_upload(" sure"));
}

#[test]
fn section_titles_and_plurals() {
    assert_eq!(section_title("Single Threaded CPU Benchmark"), "[ Single Threaded CPU Benchmark ]");
    assert_eq!(batch_suffix(1), "");
    assert_eq!(batch_suffix(0), "");
    assert_eq!(batch_suffix(32), "es");
}

#[test]
fn header_shows_the_slime() {
    let header = application_header();
    assert!(header.contains("< CPU SLIME >"));
    assert!(header.contains("(Benchmarking)"));
    assert!(header.starts_with("\n      .---."));
}
