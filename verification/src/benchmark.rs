//! The CPU benchmark: counting primes, and turning the time that took into a score.
use vstd::arithmetic::div_mod::*;
use vstd::prelude::*;

verus! {

// ---------------------------------------------------------------------------
// Primes
// ---------------------------------------------------------------------------

/// `n` is a prime: at least 2, with no divisor strictly between 1 and itself.
pub open spec fn is_prime(n: nat) -> bool {
    &&& n >= 2
    &&& forall|d: nat| 2 <= d < n ==> #[trigger] (n % d) != 0
}

/// The number of primes `p` with `lo <= p <= hi` (zero when the range is empty).
pub open spec fn count_primes(lo: int, hi: int) -> nat
    decreases hi - lo + 1,
{
    if hi < lo {
        0
    } else {
        count_primes(lo, hi - 1) + if hi >= 0 && is_prime(hi as nat) {
            1nat
        } else {
            0nat
        }
    }
}

/// An odd number has no even divisor.
proof fn lemma_odd_has_no_even_divisor(n: nat, d: nat)
    requires
        n % 2 == 1,
        d % 2 == 0,
        d > 0,
    ensures
        n % d != 0,
{
    if n % d == 0 {
        let q = n / d;
        let h = d / 2;
        lemma_fundamental_div_mod(n as int, d as int);
        lemma_fundamental_div_mod(d as int, 2);
        assert(n == (h * q) * 2) by (nonlinear_arith)
            requires
                n == d * q,
                d == 2 * h,
        ;
        lemma_mod_multiples_basic((h * q) as int, 2);
    }
}

/// An even number above 2 is not a prime.
proof fn lemma_even_not_prime(n: nat)
    requires
        n % 2 == 0,
        n > 2,
    ensures
        !is_prime(n),
{
    assert(n % 2nat == 0);
}

/// A number with a proper divisor also has one whose square is at most the number.
proof fn lemma_small_factor(n: nat, d: nat) -> (m: nat)
    requires
        2 <= d < n,
        n % d == 0,
    ensures
        2 <= m,
        m * m <= n,
        n % m == 0,
{
    let q = n / d;
    lemma_fundamental_div_mod(n as int, d as int);
    assert(n == d * q);
    assert(q >= 2) by (nonlinear_arith)
        requires
            n == d * q,
            d < n,
            d >= 2,
    ;
    if d * d <= n {
        d
    } else {
        assert(q * q <= n) by (nonlinear_arith)
            requires
                n == d * q,
                d * d > n,
                q >= 2,
        ;
        assert(n == d * q);
        lemma_mod_multiples_basic(d as int, q as int);
        assert((d * q) % q == 0);
        q
    }
}

/// Whether `number` is a prime, by trial division with odd divisors up to its square root.
pub fn is_number_prime(number: u64) -> (prime: bool)
    ensures
        prime == is_prime(number as nat),
{
    if number <= 1 {
        return false;
    }
    if number % 2 == 0 {
        if number == 2 {
            return true;
        }
        proof {
            lemma_even_not_prime(number as nat);
        }
        return false;
    }
    let mut i: u64 = 3;
    while i <= number / i
        invariant
            3 <= i <= number,
            i % 2 == 1,
            number % 2 == 1,
            forall|d: nat| 3 <= d < i && d % 2 == 1 ==> #[trigger] ((number as nat) % d) != 0,
        decreases number - i,
    {
        proof {
            lemma_fundamental_div_mod(number as int, i as int);
            assert(i * i <= number) by (nonlinear_arith)
                requires
                    i <= number / i,
                    number == i * (number / i) + number % i,
                    number % i >= 0,
                    i >= 3,
            ;
            assert(i + 2 <= number) by (nonlinear_arith)
                requires
                    i * i <= number,
                    i >= 3,
            ;
        }
        if number % i == 0 {
            assert((number as nat) % (i as nat) == 0);
            return false;
        }
        i = i + 2;
    }
    proof {
        lemma_fundamental_div_mod(number as int, i as int);
        assert(number < i * i) by (nonlinear_arith)
            requires
                number / i < i,
                number == i * (number / i) + number % i,
                number % i < i,
                i >= 3,
        ;
        assert forall|d: nat| 2 <= d < number implies #[trigger] ((number as nat) % d) != 0 by {
            if (number as nat) % d == 0 {
                let m = lemma_small_factor(number as nat, d);
                if m % 2 == 0 {
                    lemma_odd_has_no_even_divisor(number as nat, m);
                }
                assert(m < i) by (nonlinear_arith)
                    requires
                        m * m <= number,
                        number < i * i,
                        i >= 3,
                ;
                assert((number as nat) % m != 0);
            }
        }
    }
    true
}

/// The smaller of two integers.
pub open spec fn min_int(a: int, b: int) -> int {
    if a <= b {
        a
    } else {
        b
    }
}

/// One more number at the top of a non-empty range adds one exactly when it is a prime.
pub proof fn lemma_count_primes_step(lo: int, hi: int)
    requires
        lo <= hi,
    ensures
        count_primes(lo, hi) == count_primes(lo, hi - 1) + if hi >= 0 && is_prime(hi as nat) {
            1nat
        } else {
            0nat
        },
{
}

/// The CPU-intensive work of the benchmark: the number of primes in
/// `range_start ..= range_end`.
///
/// 2 is counted on its own; the odd numbers of the range are then tested one by one.
pub fn calculate_primes(range_start: u64, range_end: u64) -> (prime_count: u64)
    requires
        range_end < u64::MAX,
    ensures
        prime_count == count_primes(range_start as int, range_end as int),
{
    let mut prime_count: u64 = 0;
    let mut current_number = range_start;
    let ghost lo = range_start as int;

    if current_number <= 2 {
        if range_end >= 2 {
            prime_count += 1;
        }
        current_number = 3;
        proof {
            assert(!is_prime(0nat));
            assert(!is_prime(1nat));
            assert(is_prime(2nat));
            assert(count_primes(lo, -1) == 0);
            if lo <= 0 {
                lemma_count_primes_step(lo, 0);
            }
            if lo <= 1 {
                lemma_count_primes_step(lo, 1);
            }
            if range_end >= 2 {
                lemma_count_primes_step(lo, 2);
            }
        }
    } else {
        proof {
            assert(count_primes(lo, lo - 1) == 0);
        }
    }

    if current_number % 2 == 0 {
        proof {
            lemma_even_not_prime(current_number as nat);
            if range_end >= current_number {
                lemma_count_primes_step(lo, lo);
            }
        }
        current_number += 1;
    }

    while current_number <= range_end
        invariant
            range_end < u64::MAX,
            lo == range_start,
            current_number % 2 == 1,
            current_number >= 3,
            current_number >= range_start,
            prime_count <= current_number,
            prime_count == count_primes(lo, min_int(current_number - 1, range_end as int)),
        decreases range_end + 2 - current_number,
    {
        let found = is_number_prime(current_number);
        proof {
            lemma_count_primes_step(lo, current_number as int);
            if current_number < range_end {
                lemma_even_not_prime((current_number + 1) as nat);
                lemma_count_primes_step(lo, current_number + 1);
            }
        }
        if found {
            prime_count += 1;
        }
        current_number += 2;
    }
    prime_count
}

// ---------------------------------------------------------------------------
// Laws of the prime count
// ---------------------------------------------------------------------------

/// Splitting a range in two: the primes of `a ..= c` are those of `a ..= b`
/// and those of `b + 1 ..= c`.  (This is what lets the benchmark's work be
/// shared out in pieces.)
pub proof fn lemma_count_primes_split(a: int, b: int, c: int)
    requires
        a <= b + 1,
        b <= c,
    ensures
        count_primes(a, c) == count_primes(a, b) + count_primes(b + 1, c),
    decreases c - b,
{
    if c == b {
        assert(count_primes(b + 1, c) == 0);
    } else {
        lemma_count_primes_split(a, b, c - 1);
        lemma_count_primes_step(a, c);
        lemma_count_primes_step(b + 1, c);
    }
}

/// A range never holds more primes than numbers, and a range of one number holds
/// one prime exactly when that number is a prime.
pub proof fn lemma_count_primes_bounds(lo: int, hi: int)
    requires
        0 <= lo,
    ensures
        count_primes(lo, hi) <= if hi >= lo {
            hi - lo + 1
        } else {
            0
        },
        count_primes(lo, lo) == if is_prime(lo as nat) {
            1nat
        } else {
            0nat
        },
    decreases hi - lo + 1,
{
    if hi >= lo {
        lemma_count_primes_bounds(lo, hi - 1);
        lemma_count_primes_step(lo, hi);
    }
    lemma_count_primes_step(lo, lo);
}

/// 2 is a prime, and no even number above it is; a prime has no divisor between
/// 1 and itself.
pub proof fn lemma_primes_basics(n: nat, d: nat)
    ensures
        is_prime(2),
        n % 2 == 0 && n > 2 ==> !is_prime(n),
        is_prime(n) && 2 <= d < n ==> n % d != 0,
        n < 2 ==> !is_prime(n),
{
    if n % 2 == 0 && n > 2 {
        lemma_even_not_prime(n);
    }
}

/// A larger upper end never finds fewer primes.
pub proof fn lemma_count_primes_monotone(a: int, b: int, c: int)
    requires
        b <= c,
    ensures
        count_primes(a, b) <= count_primes(a, c),
{
    if a <= b + 1 {
        lemma_count_primes_split(a, b, c);
    } else {
        assert(count_primes(a, b) == 0);
    }
}

// ---------------------------------------------------------------------------
// The clock
// ---------------------------------------------------------------------------

#[verifier::external_type_specification]
#[verifier::external_body]
pub struct ExInstant(std::time::Instant);

/// Calls `std::time::Instant::now`: a reading of the monotonic clock.
/// Nothing is claimed of the instant returned.
#[verifier::external_body]
fn clock_now() -> std::time::Instant {
    std::time::Instant::now()
}

/// Calls `std::time::Instant::elapsed`: the time passed since `start`.
/// It depends on the clock, so nothing is claimed of it.
#[verifier::external_body]
fn clock_elapsed(start: &std::time::Instant) -> std::time::Duration {
    start.elapsed()
}

/// The whole number of microseconds in a duration, as `Duration::as_micros` gives it.
pub uninterp spec fn duration_micros(duration: std::time::Duration) -> u128;

/// Calls `std::time::Duration::as_micros`; its result is `duration_micros` of the duration.
#[verifier::external_body]
fn duration_as_micros(duration: std::time::Duration) -> (micros: u128)
    ensures
        micros == duration_micros(duration),
{
    duration.as_micros()
}

// ---------------------------------------------------------------------------
// The score
// ---------------------------------------------------------------------------

/// The score of a run: the work done (`prime_limit` times the number of batches,
/// times 10 000) divided by the microseconds taken; a run that took no measurable
/// time scores 0.
pub open spec fn benchmark_score(micros: u64, batch_multiplier: u64, prime_limit: u64) -> int {
    if micros == 0 {
        0
    } else {
        (prime_limit * batch_multiplier * 10000) / (micros as int)
    }
}

/// The score for a run that took `micros` microseconds.
pub fn score_from_micros(micros: u64, batch_multiplier: u64, prime_limit: u64) -> (score: u64)
    requires
        micros != 0 ==> prime_limit * batch_multiplier * 10000 <= u64::MAX,
    ensures
        score == benchmark_score(micros, batch_multiplier, prime_limit),
{
    if micros == 0 {
        return 0;
    }
    proof {
        assert(prime_limit * batch_multiplier <= u64::MAX) by (nonlinear_arith)
            requires
                prime_limit * batch_multiplier * 10000 <= u64::MAX,
        ;
    }
    (prime_limit * batch_multiplier * 10_000) / micros
}

/// Calculates a score based on work done divided by time taken.
pub fn calculate_score(
    duration: std::time::Duration,
    batch_multiplier: u64,
    prime_limit: u64,
) -> (score: u64)
    requires
        duration_micros(duration) as u64 != 0 ==> prime_limit * batch_multiplier * 10000
            <= u64::MAX,
    ensures
        score == benchmark_score(duration_micros(duration) as u64, batch_multiplier, prime_limit),
{
    let microseconds = duration_as_micros(duration) as u64;
    score_from_micros(microseconds, batch_multiplier, prime_limit)
}

/// A run that took longer never scores higher, for the same work.
pub proof fn lemma_score_falls_with_time(
    faster: u64,
    slower: u64,
    batch_multiplier: u64,
    prime_limit: u64,
)
    requires
        0 < faster <= slower,
    ensures
        benchmark_score(slower, batch_multiplier, prime_limit) <= benchmark_score(
            faster,
            batch_multiplier,
            prime_limit,
        ),
{
    assert(prime_limit * batch_multiplier * 10000 >= 0) by (nonlinear_arith)
        requires
            prime_limit >= 0,
            batch_multiplier >= 0,
    ;
    lemma_div_is_ordered_by_denominator(
        prime_limit * batch_multiplier * 10000,
        faster as int,
        slower as int,
    );
}

/// More work in the same time never scores lower.
pub proof fn lemma_score_grows_with_work(
    micros: u64,
    batches_a: u64,
    limit_a: u64,
    batches_b: u64,
    limit_b: u64,
)
    requires
        limit_a * batches_a <= limit_b * batches_b,
    ensures
        benchmark_score(micros, batches_a, limit_a) <= benchmark_score(micros, batches_b, limit_b),
{
    if micros != 0 {
        assert(limit_a * batches_a * 10000 <= limit_b * batches_b * 10000) by (nonlinear_arith)
            requires
                limit_a * batches_a <= limit_b * batches_b,
        ;
        lemma_div_is_ordered(
            limit_a * batches_a * 10000,
            limit_b * batches_b * 10000,
            micros as int,
        );
    }
}

// ---------------------------------------------------------------------------
// Runs
// ---------------------------------------------------------------------------

/// How many times the calculation runs in the multi-threaded test.
pub const MULTI_THREAD_LOAD_FACTOR: usize = 32;

/// The outcome of one benchmark run.
#[derive(Clone, Copy, Debug)]
pub struct BenchmarkResults {
    pub duration: std::time::Duration,
    pub primes_found: u64,
    pub score: u64,
    pub batch_count: u64,
}

/// Times one count of the primes up to `prime_limit` on the calling thread, and scores it.
pub fn run_benchmark_singlethread(prime_limit: u64) -> (results: BenchmarkResults)
    requires
        prime_limit * 10000 <= u64::MAX,
    ensures
        results.primes_found == count_primes(1, prime_limit as int),
        results.batch_count == 1,
        results.score == benchmark_score(duration_micros(results.duration) as u64, 1, prime_limit),
{
    let start_time = clock_now();
    let primes_found = calculate_primes(1, prime_limit);
    let duration = clock_elapsed(&start_time);
    let score = calculate_score(duration, 1, prime_limit);
    BenchmarkResults { duration, primes_found, score, batch_count: 1 }
}

/// Whether the job with this index, as handed out by the shared job counter of the
/// multi-threaded test, is still to be done.
pub fn job_is_pending(job_index: usize) -> (pending: bool)
    ensures
        pending == (job_index < MULTI_THREAD_LOAD_FACTOR),
{
    job_index < MULTI_THREAD_LOAD_FACTOR
}

/// The sum of a sequence of counts.
pub open spec fn sum_counts(counts: Seq<u64>) -> nat
    decreases counts.len(),
{
    if counts.len() == 0 {
        0
    } else {
        sum_counts(counts.drop_last()) + (counts.last() as nat)
    }
}

/// The results of the multi-threaded test, from the time it took and the number of
/// primes each worker thread found.
pub fn collect_multithread_results(
    duration: std::time::Duration,
    thread_prime_counts: &Vec<u64>,
    prime_limit: u64,
) -> (results: BenchmarkResults)
    requires
        sum_counts(thread_prime_counts@) <= u64::MAX,
        duration_micros(duration) as u64 != 0 ==> prime_limit * (MULTI_THREAD_LOAD_FACTOR as u64)
            * 10000 <= u64::MAX,
    ensures
        results.duration == duration,
        results.primes_found == sum_counts(thread_prime_counts@),
        results.score == benchmark_score(
            duration_micros(duration) as u64,
            MULTI_THREAD_LOAD_FACTOR as u64,
            prime_limit,
        ),
        results.batch_count == MULTI_THREAD_LOAD_FACTOR,
{
    let mut total: u64 = 0;
    let mut i: usize = 0;
    while i < thread_prime_counts.len()
        invariant
            i <= thread_prime_counts.len(),
            sum_counts(thread_prime_counts@) <= u64::MAX,
            total == sum_counts(thread_prime_counts@.take(i as int)),
        decreases thread_prime_counts.len() - i,
    {
        proof {
            assert(thread_prime_counts@.take(i + 1).drop_last() =~= thread_prime_counts@.take(
                i as int,
            ));
            lemma_sum_counts_prefix(thread_prime_counts@, i + 1);
        }
        total = total + thread_prime_counts[i];
        i = i + 1;
    }
    assert(thread_prime_counts@.take(i as int) =~= thread_prime_counts@);
    let score = calculate_score(duration, MULTI_THREAD_LOAD_FACTOR as u64, prime_limit);
    BenchmarkResults {
        duration,
        score,
        primes_found: total,
        batch_count: MULTI_THREAD_LOAD_FACTOR as u64,
    }
}

/// The sum of a prefix is at most the sum of the whole.
proof fn lemma_sum_counts_prefix(counts: Seq<u64>, n: int)
    requires
        0 <= n <= counts.len(),
    ensures
        sum_counts(counts.take(n)) <= sum_counts(counts),
    decreases counts.len() - n,
{
    if n < counts.len() {
        lemma_sum_counts_prefix(counts, n + 1);
        assert(counts.take(n + 1).drop_last() =~= counts.take(n));
    } else {
        assert(counts.take(n) =~= counts);
    }
}

/// The multi-threaded test does `MULTI_THREAD_LOAD_FACTOR` times the work of the
/// single-threaded one: when the jobs, each a count of the primes up to the same
/// limit, are shared out among threads however the threads pick them up, the
/// threads' counts add up to that factor times the single count.
pub proof fn lemma_multithread_total(jobs_per_thread: Seq<nat>, thread_counts: Seq<u64>, prime_limit: u64)
    requires
        jobs_per_thread.len() == thread_counts.len(),
        forall|i: int|
            0 <= i < thread_counts.len() ==> #[trigger] thread_counts[i] == jobs_per_thread[i]
                * count_primes(1, prime_limit as int),
        sum_jobs(jobs_per_thread) == MULTI_THREAD_LOAD_FACTOR,
    ensures
        sum_counts(thread_counts) == MULTI_THREAD_LOAD_FACTOR * count_primes(1, prime_limit as int),
{
    lemma_sum_scaled(jobs_per_thread, thread_counts, count_primes(1, prime_limit as int));
}

/// The sum of a sequence of job numbers.
pub open spec fn sum_jobs(jobs: Seq<nat>) -> nat
    decreases jobs.len(),
{
    if jobs.len() == 0 {
        0
    } else {
        sum_jobs(jobs.drop_last()) + jobs.last()
    }
}

proof fn lemma_sum_scaled(jobs: Seq<nat>, counts: Seq<u64>, per_job: nat)
    requires
        jobs.len() == counts.len(),
        forall|i: int| 0 <= i < counts.len() ==> #[trigger] counts[i] == jobs[i] * per_job,
    ensures
        sum_counts(counts) == sum_jobs(jobs) * per_job,
    decreases jobs.len(),
{
    if jobs.len() > 0 {
        let j2 = jobs.drop_last();
        let c2 = counts.drop_last();
        assert forall|i: int| 0 <= i < c2.len() implies #[trigger] c2[i] == j2[i] * per_job by {
            assert(counts[i] == jobs[i] * per_job);
        }
        lemma_sum_scaled(j2, c2, per_job);
        assert(counts[counts.len() - 1] == jobs[jobs.len() - 1] * per_job);
        assert(sum_counts(counts) == sum_counts(c2) + counts.last());
        assert(sum_jobs(jobs) == sum_jobs(j2) + jobs.last());
        assert(sum_jobs(jobs) * per_job == sum_jobs(j2) * per_job + jobs.last() * per_job)
            by (nonlinear_arith)
            requires
                sum_jobs(jobs) == sum_jobs(j2) + jobs.last(),
        ;
    } else {
        assert(sum_jobs(jobs) * per_job == 0) by (nonlinear_arith)
            requires
                sum_jobs(jobs) == 0,
        ;
    }
}

} // verus!
