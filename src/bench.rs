//! The benchmark workload: its plan, its trials, and the report of a run.

use crate::primality::{
    euler_passes, generate_odd_random_number, is_testable, solovay_strassen, testable,
    witness_bound,
};
use crate::bignat::BigNat;
use vstd::arithmetic::power2::pow2;
use vstd::prelude::*;

verus! {

/// Bit length of every candidate.
pub const NUM_BITS: u32 = 2048;

/// Rounds of the primality test per candidate.
pub const NUM_ITERATIONS: u32 = 128;

/// Trials per core at scale 1.
pub const TRIES_PER_CORE_AT_UNIT_SCALE: u32 = 1024;

/// How the trials are run: one after another on the calling thread, or
/// spread over a pool with one worker per core.
#[derive(Clone, Copy, Debug, PartialEq, Eq, Structural)]
pub enum ExecutionMode {
    Single,
    Multi,
}

impl Default for ExecutionMode {
    /// One thread.
    fn default() -> (r: ExecutionMode)
        ensures
            r == ExecutionMode::Single,
    {
        ExecutionMode::Single
    }
}

/// The fixed shape of one benchmark run.
#[derive(Clone, Copy, Debug, PartialEq, Eq, Structural)]
pub struct BenchmarkPlan {
    pub mode: ExecutionMode,
    pub bits: u32,
    pub iterations: u32,
    pub total_tries: usize,
}

/// The plan for `mode` with `tries_per_core` trials on each of `cores` cores.
pub open spec fn plan_of(mode: ExecutionMode, tries_per_core: nat, cores: nat) -> BenchmarkPlan {
    BenchmarkPlan {
        mode,
        bits: NUM_BITS,
        iterations: NUM_ITERATIONS,
        total_tries: (tries_per_core * cores) as usize,
    }
}

/// Plans a run of `tries_per_core * cores` trials of `NUM_BITS`-bit candidates
/// at `NUM_ITERATIONS` rounds each; `None` when the total does not fit a `usize`.
pub fn plan_benchmark(mode: ExecutionMode, tries_per_core: usize, cores: usize) -> (r: Option<BenchmarkPlan>)
    ensures
        r.is_some() <==> tries_per_core * cores <= usize::MAX,
        r matches Some(p) ==> p == plan_of(mode, tries_per_core as nat, cores as nat)
            && p.total_tries == tries_per_core * cores,
{
    match tries_per_core.checked_mul(cores) {
        Some(total_tries) => Some(BenchmarkPlan { mode, bits: NUM_BITS, iterations: NUM_ITERATIONS, total_tries }),
        None => None,
    }
}

/// The same scale gives the same workload in both modes: equal trial count,
/// bit length and rounds.
pub proof fn lemma_workload_equivalence(tries_per_core: nat, cores: nat)
    ensures
        plan_of(ExecutionMode::Single, tries_per_core, cores).total_tries == plan_of(
            ExecutionMode::Multi,
            tries_per_core,
            cores,
        ).total_tries,
        plan_of(ExecutionMode::Single, tries_per_core, cores).bits == plan_of(
            ExecutionMode::Multi,
            tries_per_core,
            cores,
        ).bits,
        plan_of(ExecutionMode::Single, tries_per_core, cores).iterations == plan_of(
            ExecutionMode::Multi,
            tries_per_core,
            cores,
        ).iterations,
{
}

/// What the verdict `r` on `candidate` after `iterations` rounds may be: a
/// candidate the test cannot take is not prime; 2 and 3, and any candidate
/// the test takes with no rounds, are; a rejection has a witness in range
/// that fails the Euler criterion, and an acceptance after some rounds one
/// that passes it.
pub open spec fn verdict_ok(candidate: nat, iterations: nat, r: bool) -> bool {
    &&& !testable(candidate) ==> !r
    &&& candidate == 2 || candidate == 3 ==> r
    &&& testable(candidate) && iterations == 0 ==> r
    &&& testable(candidate) && !r ==> exists|a: nat|
        2 <= a < witness_bound(candidate) && !euler_passes(a, candidate)
    &&& r && iterations > 0 && candidate != 2 && candidate != 3 ==> exists|a: nat|
        2 <= a < witness_bound(candidate) && euler_passes(a, candidate)
}

/// `r` is the verdict, after `iterations` rounds, on some odd candidate of
/// exactly `bits` bits.
pub open spec fn trial_ok(bits: nat, iterations: nat, r: bool) -> bool {
    exists|c: nat|
        pow2((bits - 1) as nat) <= c < pow2(bits) && c % 2 == 1 && #[trigger] verdict_ok(
            c,
            iterations,
            r,
        )
}

/// The verdict on one candidate: the test's, where the candidate is one it
/// can take, and "not prime" otherwise.
pub fn judge_candidate(candidate: &BigNat, iterations: u32) -> (r: bool)
    ensures
        verdict_ok(candidate@, iterations as nat, r),
{
    if is_testable(candidate) {
        solovay_strassen(candidate, iterations)
    } else {
        false
    }
}

/// One trial: a fresh random odd `bits`-bit candidate, judged with
/// `iterations` rounds.
pub fn run_trial(bits: u32, iterations: u32) -> (r: bool)
    requires
        bits >= 1,
    ensures
        trial_ok(bits as nat, iterations as nat, r),
{
    let candidate = generate_odd_random_number(bits);
    let r = judge_candidate(&candidate, iterations);
    assert(verdict_ok(candidate@, iterations as nat, r));
    r
}

/// `count` trials run one after another, their verdicts in order.
pub fn run_trials(bits: u32, iterations: u32, count: usize) -> (r: Vec<bool>)
    requires
        bits >= 1,
    ensures
        r.len() == count,
        forall|i: int| 0 <= i < count ==> trial_ok(bits as nat, iterations as nat, #[trigger] r@[i]),
{
    let mut verdicts: Vec<bool> = Vec::new();
    let mut i: usize = 0;
    while i < count
        invariant
            bits >= 1,
            i <= count,
            verdicts.len() == i,
            forall|j: int|
                0 <= j < i ==> trial_ok(bits as nat, iterations as nat, #[trigger] verdicts@[j]),
        decreases count - i,
    {
        verdicts.push(run_trial(bits, iterations));
        i = i + 1;
    }
    verdicts
}

/// The number of `true` entries of `s`.
pub open spec fn count_true(s: Seq<bool>) -> nat
    decreases s.len(),
{
    if s.len() == 0 {
        0
    } else {
        count_true(s.drop_last()) + if s.last() {
            1nat
        } else {
            0nat
        }
    }
}

proof fn lemma_count_true_bound(s: Seq<bool>)
    ensures
        count_true(s) <= s.len(),
    decreases s.len(),
{
    if s.len() > 0 {
        lemma_count_true_bound(s.drop_last());
    }
}

/// Counting probable primes over batches and adding the counts gives the
/// count over the whole: the total does not depend on how trials are split.
pub proof fn lemma_count_true_split(a: Seq<bool>, b: Seq<bool>)
    ensures
        count_true(a + b) == count_true(a) + count_true(b),
    decreases b.len(),
{
    if b.len() == 0 {
        assert(a + b =~= a);
    } else {
        assert((a + b).drop_last() =~= a + b.drop_last());
        lemma_count_true_split(a, b.drop_last());
    }
}

/// The counts of `true` entries of each batch, added up.
pub open spec fn batch_counts_sum(batches: Seq<Seq<bool>>) -> nat
    decreases batches.len(),
{
    if batches.len() == 0 {
        0
    } else {
        count_true(batches.first()) + batch_counts_sum(batches.drop_first())
    }
}

proof fn lemma_count_true_multiset(s: Seq<bool>)
    ensures
        count_true(s) == s.to_multiset().count(true),
    decreases s.len(),
{
    s.to_multiset_ensures();
    if s.len() > 0 {
        let p = s.drop_last();
        assert(s =~= p.push(s.last()));
        p.to_multiset_ensures();
        lemma_count_true_multiset(p);
    } else {
        assert(!s.contains(true));
    }
}

proof fn lemma_batch_counts_flatten(batches: Seq<Seq<bool>>)
    ensures
        batch_counts_sum(batches) == count_true(batches.flatten()),
    decreases batches.len(),
{
    if batches.len() > 0 {
        lemma_batch_counts_flatten(batches.drop_first());
        lemma_count_true_split(batches.first(), batches.drop_first().flatten());
    }
}

/// Counting probable primes batch by batch and adding the counts gives the
/// count over the whole run, however the trials are split into batches and
/// in whatever order the batches hold them.
pub proof fn lemma_count_over_batches(batches: Seq<Seq<bool>>, whole: Seq<bool>)
    requires
        batches.flatten().to_multiset() == whole.to_multiset(),
    ensures
        batch_counts_sum(batches) == count_true(whole),
{
    lemma_batch_counts_flatten(batches);
    lemma_count_true_multiset(batches.flatten());
    lemma_count_true_multiset(whole);
}

/// The number of trials that came out probably prime.
pub fn count_probable_primes(verdicts: &Vec<bool>) -> (r: usize)
    ensures
        r == count_true(verdicts@),
{
    let mut count: usize = 0;
    let mut i: usize = 0;
    while i < verdicts.len()
        invariant
            i <= verdicts.len(),
            count == count_true(verdicts@.subrange(0, i as int)),
        decreases verdicts.len() - i,
    {
        proof {
            assert(verdicts@.subrange(0, i + 1).drop_last() =~= verdicts@.subrange(0, i as int));
            lemma_count_true_bound(verdicts@.subrange(0, i as int));
        }
        if verdicts[i] {
            count = count + 1;
        }
        i = i + 1;
    }
    proof {
        assert(verdicts@.subrange(0, verdicts.len() as int) =~= verdicts@);
    }
    count
}

/// Trials per second, in hundredths: zero when no time or no trial was
/// measured.
pub open spec fn throughput_of(total_tries: nat, elapsed_nanos: nat) -> nat {
    if elapsed_nanos == 0 {
        0
    } else {
        total_tries * 100_000_000_000 / elapsed_nanos
    }
}

/// Trials per second, in hundredths, of `total_tries` trials over
/// `elapsed_nanos` nanoseconds; zero rather than a division by zero.
pub fn throughput_hundredths(total_tries: usize, elapsed_nanos: u64) -> (r: u128)
    ensures
        r == throughput_of(total_tries as nat, elapsed_nanos as nat),
{
    if elapsed_nanos == 0 {
        0
    } else {
        assert(total_tries as u128 * 100_000_000_000 <= u128::MAX) by (nonlinear_arith)
            requires
                total_tries <= usize::MAX,
                usize::MAX <= u64::MAX,
        ;
        (total_tries as u128) * 100_000_000_000 / (elapsed_nanos as u128)
    }
}

/// The outcome of one run.
#[derive(Clone, Copy, Debug, PartialEq, Eq, Structural)]
pub struct BenchmarkReport {
    pub probable_primes: usize,
    pub bits: u32,
    pub total_tries: usize,
    pub elapsed_nanos: u64,
    pub throughput_hundredths: u128,
}

/// The report of a run of `plan` whose trials gave `verdicts` in
/// `elapsed_nanos` nanoseconds.
pub fn summarize(plan: &BenchmarkPlan, verdicts: &Vec<bool>, elapsed_nanos: u64) -> (r: BenchmarkReport)
    requires
        verdicts.len() == plan.total_tries,
    ensures
        r.probable_primes == count_true(verdicts@),
        r.bits == plan.bits,
        r.total_tries == plan.total_tries,
        r.elapsed_nanos == elapsed_nanos,
        r.throughput_hundredths == throughput_of(plan.total_tries as nat, elapsed_nanos as nat),
{
    BenchmarkReport {
        probable_primes: count_probable_primes(verdicts),
        bits: plan.bits,
        total_tries: plan.total_tries,
        elapsed_nanos,
        throughput_hundredths: throughput_hundredths(plan.total_tries, elapsed_nanos),
    }
}

/// The decimal digit `d`, for `d < 10`.
pub open spec fn digit_char(d: nat) -> char {
    seq!['0', '1', '2', '3', '4', '5', '6', '7', '8', '9'][d as int]
}

/// `n` in decimal, with no leading zeros.
pub open spec fn decimal(n: nat) -> Seq<char>
    decreases n,
{
    if n < 10 {
        seq![digit_char(n)]
    } else {
        decimal(n / 10).push(digit_char(n % 10))
    }
}

/// `n` in decimal, zero-padded on the left to at least `width` digits.
pub open spec fn zero_padded(n: nat, width: nat) -> Seq<char> {
    let d = decimal(n);
    if d.len() >= width {
        d
    } else {
        Seq::new((width - d.len()) as nat, |i: int| '0') + d
    }
}

/// The report sentence: elapsed time as `seconds.fraction` with four digits,
/// the score with two.
pub open spec fn report_text(
    primes: nat,
    bits: nat,
    total_tries: nat,
    seconds: nat,
    seconds_fraction: nat,
    score: nat,
    score_fraction: nat,
) -> Seq<char> {
    "Found "@ + decimal(primes) + " "@ + decimal(bits) + " bit prime numbers in "@ + decimal(
        total_tries,
    ) + " attempts and "@ + decimal(seconds) + "."@ + zero_padded(seconds_fraction, 4)
        + "s\nScore: "@ + decimal(score) + "."@ + zero_padded(score_fraction, 2) + " tries/s"@
}

/// Relies on `format!`: `{}` writes an unsigned integer in decimal with no
/// leading zeros, and `{:04}` / `{:02}` pad it with zeros to that width.
#[verifier::external_body]
fn format_report(
    primes: usize,
    bits: u32,
    total_tries: usize,
    seconds: u64,
    seconds_fraction: u64,
    score: u128,
    score_fraction: u128,
) -> (r: String)
    ensures
        r@ == report_text(
            primes as nat,
            bits as nat,
            total_tries as nat,
            seconds as nat,
            seconds_fraction as nat,
            score as nat,
            score_fraction as nat,
        ),
{
    format!(
        "Found {} {} bit prime numbers in {} attempts and {}.{:04}s\nScore: {}.{:02} tries/s",
        primes, bits, total_tries, seconds, seconds_fraction, score, score_fraction
    )
}

impl BenchmarkReport {
    /// The report as text: elapsed seconds to four decimals (truncated) and
    /// the score in trials per second to two.
    pub fn text(&self) -> (r: String)
        ensures
            r@ == report_text(
                self.probable_primes as nat,
                self.bits as nat,
                self.total_tries as nat,
                self.elapsed_nanos as nat / 1_000_000_000,
                (self.elapsed_nanos as nat % 1_000_000_000) / 100_000,
                self.throughput_hundredths as nat / 100,
                self.throughput_hundredths as nat % 100,
            ),
    {
        format_report(
            self.probable_primes,
            self.bits,
            self.total_tries,
            self.elapsed_nanos / 1_000_000_000,
            (self.elapsed_nanos % 1_000_000_000) / 100_000,
            self.throughput_hundredths / 100,
            self.throughput_hundredths % 100,
        )
    }
}

} // verus!
