use vstd::arithmetic::div_mod::lemma_div_by_multiple;
use vstd::arithmetic::div_mod::lemma_div_is_ordered;
use vstd::arithmetic::div_mod::lemma_div_is_ordered_by_denominator;
use vstd::prelude::*;

verus! {

/// Sum of the samples.
pub open spec fn seq_sum(s: Seq<u64>) -> int
    decreases s.len(),
{
    if s.len() == 0 {
        0
    } else {
        seq_sum(s.drop_last()) + s.last()
    }
}

/// Arithmetic mean of the samples, rounded down.
pub open spec fn spec_mean(s: Seq<u64>) -> int {
    seq_sum(s) / (s.len() as int)
}

/// Sum of squared deviations of the samples from `m`.
pub open spec fn dev_sq_sum(s: Seq<u64>, m: int) -> int
    decreases s.len(),
{
    if s.len() == 0 {
        0
    } else {
        let d = s.last() - m;
        dev_sq_sum(s.drop_last(), m) + d * d
    }
}

/// Sum of squared deviations from the rounded mean, or `None` when it does
/// not fit in 128 bits.
pub open spec fn spec_dev_sq(s: Seq<u64>) -> Option<int> {
    let d = dev_sq_sum(s, spec_mean(s));
    if d > u128::MAX {
        None
    } else {
        Some(d)
    }
}

/// Sample variance (n - 1 denominator, rounded down) around the rounded mean;
/// zero for a single sample, and `None` when the squared deviations do not
/// fit in 128 bits.
pub open spec fn spec_variance(s: Seq<u64>) -> Option<int> {
    let d = dev_sq_sum(s, spec_mean(s));
    if d > u128::MAX {
        None
    } else if s.len() <= 1 {
        Some(0)
    } else {
        Some(d / (s.len() - 1))
    }
}

/// Whether `r` is the integer square root of `x`.
pub open spec fn is_isqrt(r: int, x: int) -> bool {
    0 <= r && r * r <= x < (r + 1) * (r + 1)
}

/// The largest number not above `k` whose square is at most `x`.
pub open spec fn isqrt_below(x: int, k: nat) -> nat
    decreases k,
{
    if k == 0 || k * k <= x {
        k
    } else {
        isqrt_below(x, (k - 1) as nat)
    }
}

/// Integer square root of `x`, rounded down.
pub open spec fn spec_isqrt(x: int) -> nat {
    isqrt_below(x, if x < 0 { 0 } else { x as nat })
}

proof fn lemma_sum_bound(s: Seq<u64>)
    ensures
        0 <= seq_sum(s) <= s.len() * u64::MAX,
    decreases s.len(),
{
    if s.len() > 0 {
        lemma_sum_bound(s.drop_last());
    }
}

proof fn lemma_dev_sq_prefix(s: Seq<u64>, m: int, i: int, j: int)
    requires
        0 <= i <= j <= s.len(),
    ensures
        0 <= dev_sq_sum(s.take(i), m) <= dev_sq_sum(s.take(j), m),
    decreases j,
{
    if j > i {
        assert(s.take(j).drop_last() =~= s.take(j - 1));
        let d = s[j - 1] - m;
        assert(d * d >= 0) by (nonlinear_arith);
        lemma_dev_sq_prefix(s, m, i, j - 1);
    } else if i > 0 {
        assert(s.take(i).drop_last() =~= s.take(i - 1));
        let d = s[i - 1] - m;
        assert(d * d >= 0) by (nonlinear_arith);
        lemma_dev_sq_prefix(s, m, i - 1, i - 1);
    }
}

proof fn lemma_isqrt_below(x: int, k: nat, r: int)
    requires
        is_isqrt(r, x),
        r <= k,
    ensures
        isqrt_below(x, k) == r,
    decreases k,
{
    if k * k <= x {
        if k > r {
            assert((r + 1) * (r + 1) <= k * k) by (nonlinear_arith)
                requires
                    r + 1 <= k,
                    0 <= r,
            ;
        }
    } else if k > 0 {
        if k == r {
            assert(false);
        }
        lemma_isqrt_below(x, (k - 1) as nat, r);
    }
}

/// An integer square root is unique, so it is the one that `spec_isqrt` gives.
pub proof fn lemma_isqrt_unique(x: int, r: int)
    requires
        is_isqrt(r, x),
    ensures
        spec_isqrt(x) == r,
{
    assert(r <= x) by (nonlinear_arith)
        requires
            0 <= r,
            r * r <= x,
            x < (r + 1) * (r + 1),
    ;
    lemma_isqrt_below(x, x as nat, r);
}

/// Sum of the samples.
pub fn sum(s: &Vec<u64>) -> (r: u128)
    ensures
        r == seq_sum(s@),
{
    let mut acc: u128 = 0;
    let mut i: usize = 0;
    while i < s.len()
        invariant
            i <= s.len(),
            acc == seq_sum(s@.take(i as int)),
            acc <= i * u64::MAX,
        decreases s.len() - i,
    {
        proof {
            assert(s@.take(i + 1).drop_last() =~= s@.take(i as int));
        }
        acc = acc + s[i] as u128;
        i = i + 1;
    }
    proof {
        assert(s@.take(s.len() as int) =~= s@);
    }
    acc
}

/// Arithmetic mean of the samples, rounded down.
pub fn mean(s: &Vec<u64>) -> (r: u64)
    requires
        s.len() >= 1,
    ensures
        r == spec_mean(s@),
{
    let total = sum(s);
    let n = s.len() as u128;
    proof {
        lemma_sum_bound(s@);
        lemma_div_is_ordered(total as int, n * u64::MAX, n as int);
        lemma_div_by_multiple(u64::MAX as int, n as int);
        assert(n * u64::MAX == u64::MAX * n) by (nonlinear_arith);
    }
    (total / n) as u64
}

/// Sum of squared deviations from the rounded mean; `None` when it does not
/// fit in 128 bits.
pub fn squared_deviations(s: &Vec<u64>) -> (r: Option<u128>)
    requires
        s.len() >= 1,
    ensures
        r == (match spec_dev_sq(s@) {
            Some(v) => Some(v as u128),
            None => None::<u128>,
        }),
        spec_dev_sq(s@) matches Some(v) ==> 0 <= v <= u128::MAX,
{
    let m = mean(s);
    let mut acc: u128 = 0;
    let mut i: usize = 0;
    while i < s.len()
        invariant
            i <= s.len(),
            m == spec_mean(s@),
            acc == dev_sq_sum(s@.take(i as int), m as int),
        decreases s.len() - i,
    {
        proof {
            assert(s@.take(i + 1).drop_last() =~= s@.take(i as int));
        }
        let x = s[i];
        let d: u64 = if x >= m { x - m } else { m - x };
        proof {
            assert((d as int) * (d as int) == (x - m) * (x - m)) by (nonlinear_arith)
                requires
                    d == x - m || d == m - x,
            ;
            assert((d as int) * (d as int) <= u64::MAX * u64::MAX) by (nonlinear_arith)
                requires
                    0 <= d <= u64::MAX,
            ;
        }
        let sq = (d as u128) * (d as u128);
        match acc.checked_add(sq) {
            Some(a) => {
                acc = a;
            },
            None => {
                proof {
                    lemma_dev_sq_prefix(s@, m as int, i + 1, s@.len() as int);
                    assert(s@.take(s.len() as int) =~= s@);
                }
                return None;
            },
        }
        i = i + 1;
    }
    proof {
        assert(s@.take(s.len() as int) =~= s@);
    }
    Some(acc)
}

/// Sample variance with the n - 1 denominator, around the rounded mean.
/// A single sample has variance zero; `None` when the squared deviations
/// do not fit in 128 bits.
pub fn variance(s: &Vec<u64>) -> (r: Option<u128>)
    requires
        s.len() >= 1,
    ensures
        r == (match spec_variance(s@) {
            Some(v) => Some(v as u128),
            None => None::<u128>,
        }),
        r is Some <==> spec_variance(s@) is Some,
        spec_variance(s@) matches Some(v) ==> 0 <= v <= u128::MAX,
{
    match squared_deviations(s) {
        None => None,
        Some(acc) => {
            if s.len() == 1 {
                Some(0)
            } else {
                Some(acc / ((s.len() - 1) as u128))
            }
        },
    }
}

/// Integer square root, rounded down.
pub fn isqrt(x: u128) -> (r: u64)
    ensures
        is_isqrt(r as int, x as int),
        r == spec_isqrt(x as int),
{
    let mut lo: u128 = 0;
    let mut hi: u128 = 0x1_0000_0000_0000_0000;
    proof {
        assert(0x1_0000_0000_0000_0000 * 0x1_0000_0000_0000_0000 > u128::MAX) by (nonlinear_arith);
    }
    while hi - lo > 1
        invariant
            lo < hi <= 0x1_0000_0000_0000_0000,
            lo * lo <= x,
            x < hi * hi,
        decreases hi - lo,
    {
        let mid = lo + (hi - lo) / 2;
        proof {
            assert(mid * mid < 0x1_0000_0000_0000_0000 * 0x1_0000_0000_0000_0000) by (nonlinear_arith)
                requires
                    0 <= mid < 0x1_0000_0000_0000_0000,
            ;
        }
        if mid * mid <= x {
            lo = mid;
        } else {
            hi = mid;
        }
    }
    proof {
        lemma_isqrt_unique(x as int, lo as int);
    }
    lo as u64
}

/// Two-tailed 95% Student's t critical values, in thousandths, for 1 to 29
/// degrees of freedom.
pub open spec fn t_table(df: u64) -> int {
    match df {
        1 => 12706,
        2 => 4303,
        3 => 3182,
        4 => 2776,
        5 => 2571,
        6 => 2447,
        7 => 2365,
        8 => 2306,
        9 => 2262,
        10 => 2228,
        11 => 2201,
        12 => 2179,
        13 => 2160,
        14 => 2145,
        15 => 2131,
        16 => 2120,
        17 => 2110,
        18 => 2101,
        19 => 2093,
        20 => 2086,
        21 => 2080,
        22 => 2074,
        23 => 2069,
        24 => 2064,
        25 => 2060,
        26 => 2056,
        27 => 2052,
        28 => 2048,
        29 => 2045,
        _ => 2042,
    }
}

/// Two-tailed 95% Student's t critical value for `df` degrees of freedom,
/// in thousandths, as the fraction `num / den`: tabulated below 30 degrees of
/// freedom, and from 30 on `1960 + 2460 / df`, which meets the table at 30
/// (2042) and approaches the normal quantile 1960 from above.
pub open spec fn t_spec(df: u64) -> (int, int) {
    if df < 30 {
        (t_table(df), 1)
    } else {
        (1960 * df + 2460, df as int)
    }
}

/// The t critical value, in thousandths, as a fraction `(num, den)`.
pub fn t_critical(df: u64) -> (r: (u128, u128))
    requires
        df >= 1,
    ensures
        r.0 == t_spec(df).0,
        r.1 == t_spec(df).1,
        r.1 >= 1,
{
    if df < 30 {
        let t: u128 = match df {
            1 => 12706,
            2 => 4303,
            3 => 3182,
            4 => 2776,
            5 => 2571,
            6 => 2447,
            7 => 2365,
            8 => 2306,
            9 => 2262,
            10 => 2228,
            11 => 2201,
            12 => 2179,
            13 => 2160,
            14 => 2145,
            15 => 2131,
            16 => 2120,
            17 => 2110,
            18 => 2101,
            19 => 2093,
            20 => 2086,
            21 => 2080,
            22 => 2074,
            23 => 2069,
            24 => 2064,
            25 => 2060,
            26 => 2056,
            27 => 2052,
            28 => 2048,
            29 => 2045,
            _ => 2042,
        };
        (t, 1)
    } else {
        (1960 * (df as u128) + 2460, df as u128)
    }
}

/// The t critical value exceeds the normal quantile 1.960 for every
/// positive number of degrees of freedom.
pub proof fn lemma_t_above_normal(df: u64)
    requires
        df >= 1,
    ensures
        t_spec(df).0 > 1960 * t_spec(df).1,
        t_spec(df).1 >= 1,
{
}

/// The t critical value strictly decreases as the degrees of freedom grow.
pub proof fn lemma_t_decreasing(d1: u64, d2: u64)
    requires
        1 <= d1 < d2,
    ensures
        t_spec(d1).0 * t_spec(d2).1 > t_spec(d2).0 * t_spec(d1).1,
{
    let (n1, e1) = t_spec(d1);
    let (n2, e2) = t_spec(d2);
    if d2 < 30 {
    } else if d1 < 30 {
        assert(n2 <= 2042 * d2);
        assert(n1 >= 2045);
        assert(n1 * e2 >= 2045 * d2) by (nonlinear_arith)
            requires
                n1 >= 2045,
                e2 == d2,
                d2 >= 30,
        ;
    } else {
        assert(n1 * e2 == 1960 * d1 * d2 + 2460 * d2) by (nonlinear_arith)
            requires
                n1 == 1960 * d1 + 2460,
                e2 == d2,
        ;
        assert(n2 * e1 == 1960 * d1 * d2 + 2460 * d1) by (nonlinear_arith)
            requires
                n2 == 1960 * d2 + 2460,
                e1 == d1,
        ;
    }
}

/// From 30 degrees of freedom on, the t critical value exceeds 1.960 by
/// exactly 2.460 / df, and so approaches it as df grows.
pub proof fn lemma_t_tail(df: u64)
    requires
        df >= 30,
    ensures
        (t_spec(df).0 - 1960 * t_spec(df).1) * df == 2460 * t_spec(df).1,
{
    assert((1960 * df + 2460 - 1960 * df) * df == 2460 * df) by (nonlinear_arith);
}

/// Smallest sample.
pub open spec fn seq_min(s: Seq<u64>) -> int
    decreases s.len(),
{
    if s.len() <= 1 {
        s[0] as int
    } else if s.last() < seq_min(s.drop_last()) {
        s.last() as int
    } else {
        seq_min(s.drop_last())
    }
}

/// Largest sample.
pub open spec fn seq_max(s: Seq<u64>) -> int
    decreases s.len(),
{
    if s.len() <= 1 {
        s[0] as int
    } else if s.last() > seq_max(s.drop_last()) {
        s.last() as int
    } else {
        seq_max(s.drop_last())
    }
}

/// Standard error of the mean, `sqrt(variance / n)` rounded down.
pub open spec fn spec_std_err(variance: int, n: int) -> int {
    spec_isqrt(variance / n) as int
}

/// The t critical value for `df` degrees of freedom in whole thousandths.
pub open spec fn t_milli(df: u64) -> int {
    t_spec(df).0 / t_spec(df).1
}

proof fn lemma_t_milli_bound(df: u64)
    requires
        df >= 1,
    ensures
        1960 <= t_milli(df) <= 12706,
{
    if df >= 30 {
        let d = df as int;
        assert(1960 <= (1960 * d + 2460) / d <= 12706) by (nonlinear_arith)
            requires
                d >= 30,
        ;
    }
}

/// Margin of the 95% confidence interval of `n` samples whose squared
/// deviations sum to `dev_sq`: `t * sqrt(dev_sq / ((n - 1) * n))` rounded
/// down, with t in whole thousandths; `None` when the intermediate product
/// does not fit in 128 bits.
pub open spec fn spec_margin(dev_sq: int, n: int) -> Option<int> {
    let t = t_milli((n - 1) as u64);
    let p = t * t * dev_sq;
    if p > u128::MAX {
        None
    } else {
        Some(spec_isqrt(p / ((n - 1) * n)) as int / 1000)
    }
}

/// Statistics of one sample sequence.
#[derive(Copy, Clone, Debug, PartialEq, Eq, Structural)]
pub struct Summary {
    pub count: usize,
    pub mean: u64,
    pub min: u64,
    pub max: u64,
    /// `None` when the squared deviations overflow.
    pub variance: Option<u128>,
    /// `None` when the variance is unknown.
    pub std_err: Option<u64>,
    /// Half-width of the 95% confidence interval; `None` (unbounded) for a
    /// single sample or when it cannot be computed.
    pub margin: Option<u128>,
}

/// The statistics of a non-empty sample sequence.
pub open spec fn spec_summary(s: Seq<u64>) -> Summary {
    let n = s.len() as int;
    let variance = spec_variance(s);
    let std_err = match variance {
        Some(v) => Some(spec_std_err(v, n) as u64),
        None => None,
    };
    let margin = match spec_dev_sq(s) {
        Some(d) => if n >= 2 {
            match spec_margin(d, n) {
                Some(m) => Some(m as u128),
                None => None,
            }
        } else {
            None
        },
        None => None,
    };
    Summary {
        count: n as usize,
        mean: spec_mean(s) as u64,
        min: seq_min(s) as u64,
        max: seq_max(s) as u64,
        variance: match variance {
            Some(v) => Some(v as u128),
            None => None,
        },
        std_err,
        margin,
    }
}

/// Standard error of the mean for the given variance and sample count.
pub fn standard_error(variance: u128, n: usize) -> (r: u64)
    requires
        n >= 1,
    ensures
        r == spec_std_err(variance as int, n as int),
{
    isqrt(variance / (n as u128))
}

/// Margin of the 95% confidence interval of `n` samples from the sum of
/// their squared deviations.
pub fn margin(dev_sq: u128, n: usize) -> (r: Option<u128>)
    requires
        n >= 2,
    ensures
        r == (match spec_margin(dev_sq as int, n as int) {
            Some(m) => Some(m as u128),
            None => None::<u128>,
        }),
{
    let (num, den) = t_critical((n - 1) as u64);
    let t = num / den;
    proof {
        lemma_t_milli_bound((n - 1) as u64);
        assert(t * t <= 12706 * 12706) by (nonlinear_arith)
            requires
                0 <= t <= 12706,
        ;
    }
    proof {
        lemma_t_milli_bound((n - 1) as u64);
    }
    let tt = t * t;
    match tt.checked_mul(dev_sq) {
        Some(p) => {
            let df = (n - 1) as u128;
            proof {
                assert(df * (n as u128) <= u64::MAX * u64::MAX) by (nonlinear_arith)
                    requires
                        df < n <= u64::MAX,
                ;
                assert(df * (n as int) >= 1) by (nonlinear_arith)
                    requires
                        df >= 1,
                        n >= 2,
                ;
            }
            let q = p / (df * (n as u128));
            Some((isqrt(q) / 1000) as u128)
        },
        None => None,
    }
}

/// Smallest and largest sample.
pub fn min_max(s: &Vec<u64>) -> (r: (u64, u64))
    requires
        s.len() >= 1,
    ensures
        r.0 == seq_min(s@),
        r.1 == seq_max(s@),
{
    let mut lo = s[0];
    let mut hi = s[0];
    let mut i: usize = 1;
    proof {
        assert(s@.take(1).len() == 1);
    }
    while i < s.len()
        invariant
            1 <= i <= s.len(),
            lo == seq_min(s@.take(i as int)),
            hi == seq_max(s@.take(i as int)),
        decreases s.len() - i,
    {
        proof {
            assert(s@.take(i + 1).drop_last() =~= s@.take(i as int));
        }
        if s[i] < lo {
            lo = s[i];
        }
        if s[i] > hi {
            hi = s[i];
        }
        i = i + 1;
    }
    proof {
        assert(s@.take(s.len() as int) =~= s@);
    }
    (lo, hi)
}

/// Computes the statistics of a non-empty sample sequence.
pub fn summarize(s: &Vec<u64>) -> (r: Summary)
    requires
        s.len() >= 1,
    ensures
        r == spec_summary(s@),
{
    let n = s.len();
    let m = mean(s);
    let (lo, hi) = min_max(s);
    let dev_sq = squared_deviations(s);
    let variance = variance(s);
    let std_err = match variance {
        Some(v) => Some(standard_error(v, n)),
        None => None,
    };
    let margin = match dev_sq {
        Some(d) => if n >= 2 {
            margin(d, n)
        } else {
            None
        },
        None => None,
    };
    Summary { count: n, mean: m, min: lo, max: hi, variance, std_err, margin }
}

/// Direction of a significant difference relative to the baseline.
#[derive(Copy, Clone, Debug, PartialEq, Eq, Structural)]
pub enum Direction {
    Faster,
    Slower,
}

/// Whether two experiments differ for one metric.
#[derive(Copy, Clone, Debug, PartialEq, Eq, Structural)]
pub enum Verdict {
    Inconclusive,
    Significant(Direction),
}

/// The verdict for `other` against `base`: significant when both margins are
/// known and the confidence intervals are disjoint, in the direction of
/// `other`'s mean; inconclusive otherwise.
pub open spec fn spec_verdict(base: Summary, other: Summary) -> Verdict {
    match (base.margin, other.margin) {
        (Some(eb), Some(eo)) => {
            if other.mean + eo < base.mean - eb {
                Verdict::Significant(Direction::Faster)
            } else if base.mean + eb < other.mean - eo {
                Verdict::Significant(Direction::Slower)
            } else {
                Verdict::Inconclusive
            }
        },
        _ => Verdict::Inconclusive,
    }
}

/// Relative change of `other` against `base`, in whole percent rounded
/// toward zero; `None` when the baseline is zero.
pub open spec fn spec_change(base: u64, other: u64) -> Option<int> {
    if base == 0 {
        None
    } else if other >= base {
        Some((other - base) * 100 / (base as int))
    } else {
        Some(-((base - other) * 100 / (base as int)))
    }
}

/// The comparison of one experiment against the baseline.
#[derive(Copy, Clone, Debug, PartialEq, Eq, Structural)]
pub struct Comparison {
    pub verdict: Verdict,
    /// Change of the mean relative to the baseline, in percent.
    pub change_percent: Option<i128>,
}

/// Verdict of `other` against `base`.
pub fn verdict(base: &Summary, other: &Summary) -> (r: Verdict)
    ensures
        r == spec_verdict(*base, *other),
{
    match (base.margin, other.margin) {
        (Some(eb), Some(eo)) => {
            let bm = base.mean as u128;
            let om = other.mean as u128;
            let other_hi = match om.checked_add(eo) {
                Some(x) => x.checked_add(eb),
                None => None,
            };
            let base_hi = match bm.checked_add(eb) {
                Some(x) => x.checked_add(eo),
                None => None,
            };
            if other_hi.is_some() && other_hi.unwrap() < bm {
                Verdict::Significant(Direction::Faster)
            } else if base_hi.is_some() && base_hi.unwrap() < om {
                Verdict::Significant(Direction::Slower)
            } else {
                Verdict::Inconclusive
            }
        },
        _ => Verdict::Inconclusive,
    }
}

/// Relative change of `other` against `base`, in percent.
pub fn relative_change(base: u64, other: u64) -> (r: Option<i128>)
    ensures
        r == (match spec_change(base, other) {
            Some(c) => Some(c as i128),
            None => None::<i128>,
        }),
{
    if base == 0 {
        None
    } else if other >= base {
        let d = (other - base) as u128 * 100 / (base as u128);
        proof {
            assert((other - base) * 100 / (base as int) <= (other - base) * 100) by (nonlinear_arith)
                requires
                    base >= 1,
                    other >= base,
            ;
        }
        Some(d as i128)
    } else {
        let d = (base - other) as u128 * 100 / (base as u128);
        proof {
            assert((base - other) * 100 / (base as int) <= 100) by (nonlinear_arith)
                requires
                    base >= 1,
                    other < base,
            ;
        }
        Some(-(d as i128))
    }
}

/// Compares an experiment's samples against the baseline's.
pub fn compare(base: &Vec<u64>, other: &Vec<u64>) -> (r: Comparison)
    requires
        base.len() >= 1,
        other.len() >= 1,
    ensures
        r.verdict == spec_verdict(spec_summary(base@), spec_summary(other@)),
        r.change_percent == (match spec_change(spec_mean(base@) as u64, spec_mean(other@) as u64) {
            Some(c) => Some(c as i128),
            None => None::<i128>,
        }),
{
    let sb = summarize(base);
    let so = summarize(other);
    Comparison { verdict: verdict(&sb, &so), change_percent: relative_change(sb.mean, so.mean) }
}

/// The mean is the arithmetic average: `mean * n <= sum < (mean + 1) * n`;
/// the variance is never negative.
pub proof fn lemma_mean_variance(s: Seq<u64>)
    requires
        s.len() >= 1,
    ensures
        spec_mean(s) * s.len() <= seq_sum(s) < (spec_mean(s) + 1) * s.len(),
        spec_variance(s) matches Some(v) ==> v >= 0,
{
    let n = s.len() as int;
    let t = seq_sum(s);
    assert(spec_mean(s) * n <= t < (spec_mean(s) + 1) * n) by (nonlinear_arith)
        requires
            n >= 1,
            spec_mean(s) == t / n,
    ;
    lemma_dev_sq_prefix(s, spec_mean(s), 0, n);
    assert(s.take(n) =~= s);
}

/// For a fixed variance the standard error does not grow with the sample count.
pub proof fn lemma_std_err_decreasing(variance: int, n1: int, n2: int)
    requires
        variance >= 0,
        1 <= n1 <= n2,
    ensures
        0 <= spec_std_err(variance, n2) <= spec_std_err(variance, n1),
{
    lemma_div_is_ordered_by_denominator(variance, n1, n2);
    let x1 = variance / n1;
    let x2 = variance / n2;
    lemma_isqrt_exists(x1);
    lemma_isqrt_exists(x2);
    let r1 = spec_isqrt(x1) as int;
    let r2 = spec_isqrt(x2) as int;
    if r2 > r1 {
        assert((r1 + 1) * (r1 + 1) <= r2 * r2) by (nonlinear_arith)
            requires
                r2 >= r1 + 1,
                r1 >= 0,
        ;
    }
}

proof fn lemma_isqrt_exists(x: int)
    requires
        x >= 0,
    ensures
        is_isqrt(spec_isqrt(x) as int, x),
{
    let r = isqrt_search(x, 0);
    lemma_isqrt_unique(x, r);
}

proof fn isqrt_search(x: int, r: int) -> (res: int)
    requires
        0 <= r,
        r * r <= x,
    ensures
        is_isqrt(res, x),
    decreases x - r * r,
{
    if (r + 1) * (r + 1) <= x {
        assert((r + 1) * (r + 1) > r * r) by (nonlinear_arith)
            requires
                r >= 0,
        ;
        isqrt_search(x, r + 1)
    } else {
        r
    }
}

/// Comparing a sample sequence with an identical one is always inconclusive.
pub proof fn lemma_identical_inconclusive(a: Seq<u64>, b: Seq<u64>)
    requires
        a == b,
        a.len() >= 1,
    ensures
        spec_verdict(spec_summary(a), spec_summary(b)) == Verdict::Inconclusive,
{
}

} // verus!
