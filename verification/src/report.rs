//! The benchmark report, and the rules the program and the leaderboard server apply to it.
use crate::benchmark::BenchmarkResults;
use crate::text::{append_chars, chars_of, string_from_chars, trim, trim_chars};
use vstd::prelude::*;

verus! {

broadcast use vstd::string::group_string_axioms;

/// The benchmark part of a report: both runs, with the limit and the thread count they used.
#[derive(Clone, Copy, Debug)]
pub struct BenchmarkReport {
    pub prime_limit: u64,
    pub logical_cores: usize,
    pub single_thread: BenchmarkResults,
    pub multi_thread: BenchmarkResults,
}

/// The score a report is ranked by on the leaderboard: that of its multi-threaded
/// run, 0 for a report without a benchmark.
pub open spec fn ranking_score(benchmark: Option<BenchmarkReport>) -> u64 {
    match benchmark {
        Some(b) => b.multi_thread.score,
        None => 0,
    }
}

/// The score a submitted report is ranked by.
pub fn leaderboard_score(benchmark: &Option<BenchmarkReport>) -> (score: u64)
    ensures
        score == ranking_score(*benchmark),
{
    match benchmark {
        Some(b) => b.multi_thread.score,
        None => 0,
    }
}

/// A page of the leaderboard, as asked for.
pub struct Pagination {
    pub limit: Option<i64>,
    pub offset: Option<i64>,
}

impl Pagination {
    /// The number of reports on the page: 10 unless asked otherwise.
    pub fn limit_or_default(&self) -> (limit: i64)
        ensures
            limit == match self.limit {
                Some(l) => l,
                None => 10,
            },
    {
        match self.limit {
            Some(l) => l,
            None => 10,
        }
    }

    /// How many of the best reports come before the page: 0 unless asked otherwise.
    pub fn offset_or_default(&self) -> (offset: i64)
        ensures
            offset == match self.offset {
                Some(o) => o,
                None => 0,
            },
    {
        match self.offset {
            Some(o) => o,
            None => 0,
        }
    }
}

/// How many times the multi-threaded score is the single-threaded one, in whole
/// times; 0 when the single-threaded run scored 0.
pub fn parallel_speedup(multi_thread_score: u64, single_thread_score: u64) -> (ratio: u64)
    ensures
        single_thread_score > 0 ==> ratio == multi_thread_score / single_thread_score,
        single_thread_score == 0 ==> ratio == 0,
{
    if single_thread_score > 0 {
        multi_thread_score / single_thread_score
    } else {
        0
    }
}

/// An answer that agrees to the upload: nothing but whitespace, or, once trimmed,
/// starting with a "y" in either case.
pub open spec fn agrees(answer: Seq<char>) -> bool {
    let t = trim(answer);
    t.len() == 0 || t[0] == 'y' || t[0] == 'Y'
}

/// Whether the answer to "Send data to leaderboard server? [Y/n]" agrees: an empty
/// answer takes the default, yes.
pub fn confirms_upload(answer: &str) -> (agreed: bool)
    ensures
        agreed == agrees(answer@),
{
    let trimmed = trim_chars(&chars_of(answer));
    trimmed.len() == 0 || trimmed[0] == 'y' || trimmed[0] == 'Y'
}

/// The title of a section of the output, in brackets.
pub fn section_title(title: &str) -> (heading: String)
    ensures
        heading@ == "[ "@ + title@ + " ]"@,
{
    let mut heading = chars_of("[ ");
    append_chars(&mut heading, &chars_of(title));
    append_chars(&mut heading, &chars_of(" ]"));
    string_from_chars(&heading)
}

/// The plural ending of "batch" for a number of batches.
pub fn batch_suffix(batch_count: u64) -> (suffix: &'static str)
    ensures
        suffix@ == if batch_count > 1 {
            "es"@
        } else {
            ""@
        },
{
    if batch_count > 1 {
        "es"
    } else {
        ""
    }
}

} // verus!
