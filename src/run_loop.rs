use rand::seq::SliceRandom;
use vstd::prelude::*;
use crate::experiment::Experiment;

verus! {

/// What the run loop does after a round.
#[derive(Copy, Clone, Debug, PartialEq, Eq, Structural)]
pub enum Step {
    /// The requested number of successful iterations is reached.
    Finish,
    /// Too few samples to report yet: run another round.
    Continue,
    /// Render the report, then run another round.
    Report,
}

/// The decision after a round, from the fewest successful runs of any
/// experiment and the requested iteration count.
pub open spec fn spec_after_round(min_runs: usize, iterations: Option<u32>) -> Step {
    if iterations matches Some(n) && n == min_runs {
        Step::Finish
    } else if min_runs < 2 {
        Step::Continue
    } else {
        Step::Report
    }
}

pub fn after_round(min_runs: usize, iterations: Option<u32>) -> (r: Step)
    ensures
        r == spec_after_round(min_runs, iterations),
{
    match iterations {
        Some(n) => if n as usize == min_runs {
            return Step::Finish;
        },
        None => {},
    }
    if min_runs < 2 {
        Step::Continue
    } else {
        Step::Report
    }
}

/// The fewest successful runs over all experiments.
pub fn min_runs(exps: &Vec<Experiment>) -> (r: usize)
    requires
        exps@.len() >= 1,
        forall|i: int| 0 <= i < exps@.len() ==> (#[trigger] exps@[i]).wf(),
    ensures
        forall|i: int| 0 <= i < exps@.len() ==> r <= (#[trigger] exps@[i]).measures@[0]@.len(),
        exists|i: int| 0 <= i < exps@.len() && r == (#[trigger] exps@[i]).measures@[0]@.len(),
{
    let mut m = exps[0].runs();
    let mut i: usize = 1;
    while i < exps.len()
        invariant
            1 <= i <= exps@.len(),
            forall|q: int| 0 <= q < exps@.len() ==> (#[trigger] exps@[q]).wf(),
            forall|q: int| 0 <= q < i ==> m <= (#[trigger] exps@[q]).measures@[0]@.len(),
            exists|q: int| 0 <= q < exps@.len() && m == (#[trigger] exps@[q]).measures@[0]@.len(),
        decreases exps@.len() - i,
    {
        let x = exps[i].runs();
        if x < m {
            m = x;
        }
        i = i + 1;
    }
    m
}

/// How a run ended, as far as keeping its samples goes.
#[derive(Copy, Clone, Debug, PartialEq, Eq, Structural)]
pub enum RunOutcome {
    /// The warmup script failed: nothing is recorded.
    WarmupFailed,
    /// The script failed: nothing is recorded.
    ScriptFailed,
    /// The script exceeded the time limit: nothing is recorded.
    TooLong,
    /// The platform gave no peak memory: the whole program stops.
    NoMaxRss,
    /// The samples are recorded.
    Record,
}

/// The outcome of a run from the exit statuses, the elapsed time in
/// nanoseconds, the time limit in seconds and the peak memory in bytes.
pub open spec fn spec_judge_run(
    warmup_ok: bool,
    script_ok: bool,
    elapsed_ns: u64,
    max_time_s: Option<u32>,
    max_rss: u64,
) -> RunOutcome {
    if !warmup_ok {
        RunOutcome::WarmupFailed
    } else if !script_ok {
        RunOutcome::ScriptFailed
    } else if max_time_s matches Some(t) && elapsed_ns > t * 1_000_000_000 {
        RunOutcome::TooLong
    } else if max_rss == 0 {
        RunOutcome::NoMaxRss
    } else {
        RunOutcome::Record
    }
}

pub fn judge_run(
    warmup_ok: bool,
    script_ok: bool,
    elapsed_ns: u64,
    max_time_s: Option<u32>,
    max_rss: u64,
) -> (r: RunOutcome)
    ensures
        r == spec_judge_run(warmup_ok, script_ok, elapsed_ns, max_time_s, max_rss),
{
    if !warmup_ok {
        return RunOutcome::WarmupFailed;
    }
    if !script_ok {
        return RunOutcome::ScriptFailed;
    }
    match max_time_s {
        Some(t) => if elapsed_ns as u128 > (t as u128) * 1_000_000_000 {
            return RunOutcome::TooLong;
        },
        None => {},
    }
    if max_rss == 0 {
        RunOutcome::NoMaxRss
    } else {
        RunOutcome::Record
    }
}

/// Relies on rand's `SliceRandom::shuffle` with the thread-local generator:
/// it only swaps elements, so the result is a permutation of the input.
#[verifier::external_body]
fn shuffled(v: Vec<usize>) -> (r: Vec<usize>)
    ensures
        r@.to_multiset() == v@.to_multiset(),
{
    let mut v = v;
    v.shuffle(&mut rand::thread_rng());
    v
}

/// The positions `0..n` in order.
pub open spec fn in_order(n: usize) -> Seq<usize> {
    Seq::new(n as nat, |i: int| i as usize)
}

/// The order in which the `n` experiments of a round run: in order, or, when
/// `random`, some permutation of it.
pub fn run_order(n: usize, random: bool) -> (r: Vec<usize>)
    ensures
        r@.to_multiset() == in_order(n).to_multiset(),
        !random ==> r@ == in_order(n),
{
    let mut v: Vec<usize> = Vec::new();
    let mut i: usize = 0;
    while i < n
        invariant
            i <= n,
            v@ == in_order(n).take(i as int),
        decreases n - i,
    {
        v.push(i);
        proof {
            assert(v@ =~= in_order(n).take(i + 1));
        }
        i = i + 1;
    }
    proof {
        assert(in_order(n).take(n as int) =~= in_order(n));
    }
    if random {
        shuffled(v)
    } else {
        v
    }
}

} // verus!
