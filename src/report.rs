use vstd::prelude::*;
use vstd::string::StringExecFns;
use crate::bar::bar_chars;
use crate::bar::render_bar;
use crate::bar::spec_eighths;
use crate::experiment::color_chars;
use crate::experiment::copy_samples;
use crate::experiment::name_chars;
use crate::experiment::Experiment;
use crate::experiment::ExperimentName;
use crate::histogram::global_range;
use crate::histogram::histogram;
use crate::histogram::max_all;
use crate::histogram::max_count;
use crate::histogram::range_all;
use crate::histogram::render_row;
use crate::histogram::row_chars;
use crate::histogram::spec_counts;
use crate::measure_key::key_index;
use crate::measure_key::key_indexable;
use crate::measure_key::MeasureKey;
use crate::stats::compare;
use crate::stats::mean;
use crate::stats::spec_change;
use crate::stats::spec_mean;
use crate::stats::spec_summary;
use crate::stats::spec_verdict;
use crate::stats::summarize;
use crate::stats::Comparison;
use crate::stats::Direction;
use crate::stats::Verdict;
use crate::text::decimal;
use crate::text::decimal3;
use crate::text::decimal3_spec;
use crate::text::decimal_spec;

verus! {

/// Width, in cells, of comparison bars and of histograms.
pub const BAR_WIDTH: u32 = 40;

/// How a metric's values are displayed.
#[derive(Copy, Clone, Debug, PartialEq, Eq, Structural)]
pub enum Unit {
    /// Nanoseconds, shown as seconds with three decimals.
    Seconds,
    /// Bytes, shown as whole mebibytes.
    Mebibytes,
    /// A plain number.
    Raw,
}

/// A metric in the report: which samples, its title and its unit.
pub struct Measure {
    pub key: MeasureKey,
    pub name: String,
    pub unit: Unit,
}

/// A value in its unit.
pub open spec fn value_text(unit: Unit, v: int) -> Seq<char> {
    match unit {
        Unit::Seconds => decimal_spec((v / 1_000_000_000) as nat) + seq!['.'] + decimal3_spec(
            ((v / 1_000_000) % 1000) as nat,
        ) + seq![' ', 's'],
        Unit::Mebibytes => decimal_spec((v / 0x10_0000) as nat) + seq![' ', 'M', 'i', 'B'],
        Unit::Raw => decimal_spec(v as nat),
    }
}

/// A margin in its unit, `?` when it is unbounded.
pub open spec fn margin_text(unit: Unit, m: Option<u128>) -> Seq<char> {
    match m {
        Some(x) => value_text(unit, x as int),
        None => seq!['?'],
    }
}

/// A relative change in percent, with its sign.
pub open spec fn change_text(c: Option<i128>) -> Seq<char> {
    match c {
        Some(p) => if p >= 0 {
            seq![' ', '+'] + decimal_spec(p as nat) + seq!['%']
        } else {
            seq![' ', '-'] + decimal_spec((-p) as nat) + seq!['%']
        },
        None => Seq::empty(),
    }
}

/// Terminal reset sequence.
pub open spec fn reset_chars() -> Seq<char> {
    seq!['\x1b', '[', '0', 'm']
}

/// Green for a significantly faster experiment, red for a slower one.
pub open spec fn open_color(c: Option<Comparison>) -> Seq<char> {
    match c {
        Some(x) => match x.verdict {
            Verdict::Significant(Direction::Faster) => seq!['\x1b', '[', '3', '2', 'm'],
            Verdict::Significant(Direction::Slower) => seq!['\x1b', '[', '3', '1', 'm'],
            Verdict::Inconclusive => Seq::empty(),
        },
        None => Seq::empty(),
    }
}

/// Reset after a colored line.
pub open spec fn close_color(c: Option<Comparison>) -> Seq<char> {
    if open_color(c).len() > 0 {
        reset_chars()
    } else {
        Seq::empty()
    }
}

/// The comparison of `s` against the baseline, when both hold samples.
pub open spec fn comparison_of(base: Seq<u64>, s: Seq<u64>) -> Option<Comparison> {
    if base.len() >= 1 && s.len() >= 1 {
        Some(
            Comparison {
                verdict: spec_verdict(spec_summary(base), spec_summary(s)),
                change_percent: match spec_change(spec_mean(base) as u64, spec_mean(s) as u64) {
                    Some(c) => Some(c as i128),
                    None => None,
                },
            },
        )
    } else {
        None
    }
}

/// One experiment's line: mean, margin and count, with the change against
/// the baseline, colored by the verdict.
pub open spec fn summary_line(
    name: ExperimentName,
    unit: Unit,
    s: Seq<u64>,
    cmp: Option<Comparison>,
) -> Seq<char> {
    if s.len() == 0 {
        name_chars(name) + seq![':', ' ', 'n', 'o', ' ', 's', 'a', 'm', 'p', 'l', 'e', 's', '\n']
    } else {
        let sm = spec_summary(s);
        open_color(cmp) + name_chars(name) + seq![':', ' '] + value_text(unit, sm.mean as int)
            + seq![' ', '\u{b1}', ' '] + margin_text(unit, sm.margin) + seq![' ', '(', 'n', '=']
            + decimal_spec(sm.count as nat) + seq![')'] + change_text(
            match cmp {
                Some(c) => c.change_percent,
                None => None,
            },
        ) + close_color(cmp) + seq!['\n']
    }
}

fn format_value(unit: Unit, v: u128) -> (r: String)
    ensures
        r@ == value_text(unit, v as int),
{
    proof {
        reveal_strlit(".");
        reveal_strlit(" s");
        reveal_strlit(" MiB");
    }
    match unit {
        Unit::Seconds => {
            let mut out = decimal(v / 1_000_000_000);
            out.append(".");
            let frac = decimal3((v / 1_000_000) % 1000);
            out.append(frac.as_str());
            out.append(" s");
            proof {
                assert(out@ =~= value_text(unit, v as int));
            }
            out
        },
        Unit::Mebibytes => {
            let mut out = decimal(v / 0x10_0000);
            out.append(" MiB");
            proof {
                assert(out@ =~= value_text(unit, v as int));
            }
            out
        },
        Unit::Raw => decimal(v),
    }
}

fn format_change(c: Option<i128>) -> (r: String)
    ensures
        r@ == change_text(c),
{
    proof {
        reveal_strlit(" +");
        reveal_strlit(" -");
        reveal_strlit("%");
    }
    match c {
        Some(p) => {
            let mut out = String::new();
            if p >= 0 {
                out.append(" +");
                let d = decimal(p as u128);
                out.append(d.as_str());
            } else {
                out.append(" -");
                let d = decimal((-(p + 1)) as u128 + 1);
                out.append(d.as_str());
            }
            out.append("%");
            proof {
                assert(out@ =~= change_text(c));
            }
            out
        },
        None => String::new(),
    }
}

fn verdict_color(c: &Option<Comparison>) -> (r: &'static str)
    ensures
        r@ == open_color(*c),
{
    proof {
        reveal_strlit("\x1b[32m");
        reveal_strlit("\x1b[31m");
        reveal_strlit("");
    }
    match c {
        Some(x) => match x.verdict {
            Verdict::Significant(Direction::Faster) => "\x1b[32m",
            Verdict::Significant(Direction::Slower) => "\x1b[31m",
            Verdict::Inconclusive => "",
        },
        None => "",
    }
}

fn verdict_reset(c: &Option<Comparison>) -> (r: &'static str)
    ensures
        r@ == close_color(*c),
{
    proof {
        reveal_strlit("\x1b[0m");
        reveal_strlit("");
        reveal_strlit("\x1b[32m");
        reveal_strlit("\x1b[31m");
    }
    match c {
        Some(x) => match x.verdict {
            Verdict::Inconclusive => "",
            _ => "\x1b[0m",
        },
        None => "",
    }
}

/// The comparison of `s` against the baseline, when both hold samples.
pub fn comparison_for(base: &Vec<u64>, s: &Vec<u64>) -> (r: Option<Comparison>)
    ensures
        r == comparison_of(base@, s@),
{
    if base.len() >= 1 && s.len() >= 1 {
        Some(compare(base, s))
    } else {
        None
    }
}

/// Renders one experiment's line of the report.
pub fn render_line(name: ExperimentName, unit: Unit, s: &Vec<u64>, cmp: Option<Comparison>) -> (r: String)
    ensures
        r@ == summary_line(name, unit, s@, cmp),
{
    proof {
        reveal_strlit(": no samples\n");
        reveal_strlit(": ");
        reveal_strlit(" \u{b1} ");
        reveal_strlit(" (n=");
        reveal_strlit(")");
        reveal_strlit("\n");
    }
    let mut out = String::new();
    if s.len() == 0 {
        out.append(name.name());
        out.append(": no samples\n");
        proof {
            assert(out@ =~= summary_line(name, unit, s@, cmp));
        }
        return out;
    }
    let sm = summarize(s);
    out.append(verdict_color(&cmp));
    out.append(name.name());
    out.append(": ");
    let mv = format_value(unit, sm.mean as u128);
    out.append(mv.as_str());
    out.append(" \u{b1} ");
    let mt = match sm.margin {
        Some(x) => format_value(unit, x),
        None => {
            proof {
                reveal_strlit("?");
            }
            String::from_str("?")
        },
    };
    out.append(mt.as_str());
    out.append(" (n=");
    let ct = decimal(sm.count as u128);
    out.append(ct.as_str());
    out.append(")");
    let change = match cmp {
        Some(c) => c.change_percent,
        None => None,
    };
    let ch = format_change(change);
    out.append(ch.as_str());
    out.append(verdict_reset(&cmp));
    out.append("\n");
    proof {
        assert(out@ =~= summary_line(name, unit, s@, cmp));
    }
    out
}

/// Metric `k` can be read in every experiment.
pub open spec fn measurable(exps: Seq<Experiment>, k: MeasureKey) -> bool {
    &&& key_indexable(k)
    &&& forall|i: int| 0 <= i < exps.len() ==> key_index(k) < (#[trigger] exps[i]).measures@.len()
}

/// The comparison shown on the line of experiment `i`: none for the baseline.
pub open spec fn cmp_at(exps: Seq<Experiment>, k: MeasureKey, i: int) -> Option<Comparison> {
    if i == 0 {
        None
    } else {
        comparison_of(exps[0].samples(k), exps[i].samples(k))
    }
}

/// The lines of the first `n` experiments.
pub open spec fn lines_text(exps: Seq<Experiment>, k: MeasureKey, unit: Unit, n: int) -> Seq<char>
    decreases n,
{
    if n <= 0 {
        Seq::empty()
    } else {
        lines_text(exps, k, unit, n - 1) + summary_line(
            exps[n - 1].name,
            unit,
            exps[n - 1].samples(k),
            cmp_at(exps, k, n - 1),
        )
    }
}

/// The title and the experiment lines of a metric.
pub open spec fn short_block(exps: Seq<Experiment>, m: Measure) -> Seq<char> {
    m.name@ + seq![':', '\n'] + lines_text(exps, m.key, m.unit, exps.len() as int)
}

/// The mean of a sequence, zero when it is empty.
pub open spec fn mean_or_zero(s: Seq<u64>) -> int {
    if s.len() == 0 {
        0
    } else {
        spec_mean(s)
    }
}

/// The largest mean among the first `n` experiments.
pub open spec fn max_mean(exps: Seq<Experiment>, k: MeasureKey, n: int) -> int
    decreases n,
{
    if n <= 0 {
        0
    } else {
        let p = max_mean(exps, k, n - 1);
        let x = mean_or_zero(exps[n - 1].samples(k));
        if x > p {
            x
        } else {
            p
        }
    }
}

/// What the comparison bars are scaled against: the largest mean, at least one.
pub open spec fn bar_den(exps: Seq<Experiment>, k: MeasureKey) -> int {
    let m = max_mean(exps, k, exps.len() as int);
    if m == 0 {
        1
    } else {
        m
    }
}

/// The comparison bar of one experiment.
pub open spec fn bar_line(e: Experiment, k: MeasureKey, den: int) -> Seq<char> {
    seq![' ', ' '] + name_chars(e.name) + seq![' '] + color_chars(e.name) + bar_chars(
        spec_eighths(mean_or_zero(e.samples(k)) as u64, den as u64, BAR_WIDTH),
        BAR_WIDTH as int,
    ) + reset_chars() + seq!['\n']
}

/// The comparison bars of the first `n` experiments.
pub open spec fn bars_text(exps: Seq<Experiment>, k: MeasureKey, den: int, n: int) -> Seq<char>
    decreases n,
{
    if n <= 0 {
        Seq::empty()
    } else {
        bars_text(exps, k, den, n - 1) + bar_line(exps[n - 1], k, den)
    }
}

/// The sample sequences of metric `k`, one per experiment.
pub open spec fn seqs_of(exps: Seq<Experiment>, k: MeasureKey) -> Seq<Vec<u64>> {
    Seq::new(exps.len(), |i: int| exps[i].measures@[key_index(k)])
}

/// `rows` are the bucket counts of `seqs` over `[lo, hi]`.
pub open spec fn is_histogram(rows: Seq<Vec<usize>>, seqs: Seq<Vec<u64>>, lo: u64, hi: u64) -> bool {
    &&& rows.len() == seqs.len()
    &&& forall|q: int|
        0 <= q < rows.len() ==> (#[trigger] rows[q])@.len() == BAR_WIDTH && forall|j: int|
            0 <= j < BAR_WIDTH ==> rows[q]@[j] == #[trigger] spec_counts(
                seqs[q]@,
                lo,
                hi,
                BAR_WIDTH as nat,
            )[j]
}

/// What the histogram columns are scaled against: the largest count, at least one.
pub open spec fn plot_den(rows: Seq<Vec<usize>>) -> int {
    if max_all(rows) == 0 {
        1
    } else {
        max_all(rows)
    }
}

/// The histogram rows of the first `n` experiments.
pub open spec fn plot_text(exps: Seq<Experiment>, rows: Seq<Vec<usize>>, den: int, n: int) -> Seq<char>
    decreases n,
{
    if n <= 0 {
        Seq::empty()
    } else {
        plot_text(exps, rows, den, n - 1) + seq![' ', ' '] + name_chars(exps[n - 1].name) + seq![' ']
            + color_chars(exps[n - 1].name) + row_chars(rows[n - 1]@, den) + reset_chars() + seq!['\n']
    }
}

/// `b` is the report block of metric `m`: its title and lines, and in full
/// mode the comparison bars and the histogram.
pub open spec fn block_ok(b: Seq<char>, exps: Seq<Experiment>, m: Measure, full: bool) -> bool {
    let short = short_block(exps, m);
    if !full {
        b == short
    } else {
        let seqs = seqs_of(exps, m.key);
        let bars = bars_text(exps, m.key, bar_den(exps, m.key), exps.len() as int);
        match range_all(seqs) {
            None => b == short + bars,
            Some((lo, hi)) => exists|rows: Seq<Vec<usize>>|
                #[trigger] is_histogram(rows, seqs, lo, hi) && b == short + bars + plot_text(
                    exps,
                    rows,
                    plot_den(rows),
                    exps.len() as int,
                ),
        }
    }
}

proof fn lemma_range_all_views(a: Seq<Vec<u64>>, b: Seq<Vec<u64>>)
    requires
        a.len() == b.len(),
        forall|i: int| 0 <= i < a.len() ==> (#[trigger] a[i])@ == b[i]@,
    ensures
        range_all(a) == range_all(b),
    decreases a.len(),
{
    if a.len() > 0 {
        lemma_range_all_views(a.drop_last(), b.drop_last());
        assert(a.last()@ == b.last()@);
    }
}

/// Renders the report block of one metric.
pub fn render_metric(m: &Measure, exps: &Vec<Experiment>, full: bool) -> (r: String)
    requires
        exps@.len() >= 1,
        measurable(exps@, m.key),
    ensures
        block_ok(r@, exps@, *m, full),
{
    proof {
        reveal_strlit(":\n");
        reveal_strlit("  ");
        reveal_strlit(" ");
        reveal_strlit("\x1b[0m");
        reveal_strlit("\n");
    }
    let k = m.key.index();
    let n = exps.len();
    let mut out = m.name.clone();
    out.append(":\n");
    let mut i: usize = 0;
    while i < n
        invariant
            n == exps@.len(),
            n >= 1,
            measurable(exps@, m.key),
            k == key_index(m.key),
            i <= n,
            out@ == m.name@ + seq![':', '\n'] + lines_text(exps@, m.key, m.unit, i as int),
        decreases n - i,
    {
        proof {
            assert(k < exps@[i as int].measures@.len());
            assert(k < exps@[0].measures@.len());
        }
        let cmp = if i == 0 {
            None
        } else {
            comparison_for(&exps[0].measures[k], &exps[i].measures[k])
        };
        let line = render_line(exps[i].name, m.unit, &exps[i].measures[k], cmp);
        out.append(line.as_str());
        proof {
            assert(out@ =~= m.name@ + seq![':', '\n'] + lines_text(exps@, m.key, m.unit, i + 1));
        }
        i = i + 1;
    }
    if !full {
        return out;
    }
    let ghost short = out@;
    let mut mx: u64 = 0;
    i = 0;
    while i < n
        invariant
            n == exps@.len(),
            measurable(exps@, m.key),
            k == key_index(m.key),
            i <= n,
            mx == max_mean(exps@, m.key, i as int),
        decreases n - i,
    {
        proof {
            assert(k < exps@[i as int].measures@.len());
        }
        let s = &exps[i].measures[k];
        let x = if s.len() == 0 {
            0
        } else {
            mean(s)
        };
        if x > mx {
            mx = x;
        }
        i = i + 1;
    }
    let den: u64 = if mx == 0 {
        1
    } else {
        mx
    };
    i = 0;
    while i < n
        invariant
            n == exps@.len(),
            measurable(exps@, m.key),
            k == key_index(m.key),
            i <= n,
            den == bar_den(exps@, m.key),
            den >= 1,
            out@ == short + bars_text(exps@, m.key, den as int, i as int),
        decreases n - i,
    {
        proof {
            assert(k < exps@[i as int].measures@.len());
        }
        let e = &exps[i];
        let s = &e.measures[k];
        let x = if s.len() == 0 {
            0
        } else {
            mean(s)
        };
        out.append("  ");
        out.append(e.name.name());
        out.append(" ");
        out.append(e.name.color());
        let b = render_bar(x, den, BAR_WIDTH);
        out.append(b.as_str());
        out.append("\x1b[0m");
        out.append("\n");
        proof {
            reveal_strlit("  ");
            reveal_strlit(" ");
            reveal_strlit("\x1b[0m");
            reveal_strlit("\n");
            assert(x == mean_or_zero(exps@[i as int].samples(m.key)));
            assert(b@ == bar_chars(
                spec_eighths(mean_or_zero(exps@[i as int].samples(m.key)) as u64, den, BAR_WIDTH),
                BAR_WIDTH as int,
            ));
            assert(bars_text(exps@, m.key, den as int, i + 1) == bars_text(exps@, m.key, den as int, i as int)
                + bar_line(exps@[i as int], m.key, den as int));
            assert(out@ =~= short + bars_text(exps@, m.key, den as int, i + 1));
        }
        i = i + 1;
    }
    let ghost with_bars = out@;
    let mut seqs: Vec<Vec<u64>> = Vec::new();
    i = 0;
    while i < n
        invariant
            n == exps@.len(),
            measurable(exps@, m.key),
            k == key_index(m.key),
            i <= n,
            seqs@.len() == i,
            forall|q: int| 0 <= q < i ==> (#[trigger] seqs@[q])@ == exps@[q].measures@[k as int]@,
        decreases n - i,
    {
        proof {
            assert(k < exps@[i as int].measures@.len());
        }
        seqs.push(copy_samples(&exps[i].measures[k]));
        i = i + 1;
    }
    proof {
        lemma_range_all_views(seqs@, seqs_of(exps@, m.key));
    }
    let range = global_range(&seqs);
    match range {
        None => out,
        Some((lo, hi)) => {
            let rows = histogram(&seqs, lo, hi, BAR_WIDTH as usize);
            let top = max_count(&rows);
            let pd: usize = if top == 0 {
                1
            } else {
                top
            };
            proof {
                let sq = seqs_of(exps@, m.key);
                assert forall|q: int| 0 <= q < rows@.len() implies (#[trigger] rows@[q])@.len() == BAR_WIDTH
                    && forall|j: int|
                    0 <= j < BAR_WIDTH ==> rows@[q]@[j] == #[trigger] spec_counts(
                        sq[q]@,
                        lo,
                        hi,
                        BAR_WIDTH as nat,
                    )[j] by {
                    assert(seqs@[q]@ == sq[q]@);
                    assert forall|j: int| 0 <= j < BAR_WIDTH implies rows@[q]@[j] == #[trigger] spec_counts(
                        sq[q]@,
                        lo,
                        hi,
                        BAR_WIDTH as nat,
                    )[j] by {
                        assert(rows@[q]@[j] == spec_counts(seqs@[q]@, lo, hi, BAR_WIDTH as nat)[j]);
                    }
                }
                assert(is_histogram(rows@, sq, lo, hi));
            }
            i = 0;
            while i < n
                invariant
                    n == exps@.len(),
                    rows@.len() == n,
                    i <= n,
                    pd == plot_den(rows@),
                    pd >= 1,
                    out@ == with_bars + plot_text(exps@, rows@, pd as int, i as int),
                decreases n - i,
            {
                let e = &exps[i];
                out.append("  ");
                out.append(e.name.name());
                out.append(" ");
                out.append(e.name.color());
                let row = render_row(&rows[i], pd);
                out.append(row.as_str());
                out.append("\x1b[0m");
                out.append("\n");
                proof {
                    reveal_strlit("  ");
                    reveal_strlit(" ");
                    reveal_strlit("\x1b[0m");
                    reveal_strlit("\n");
                    assert(row@ == row_chars(rows@[i as int]@, pd as int));
                    assert(out@ =~= with_bars + plot_text(exps@, rows@, pd as int, i + 1));
                }
                i = i + 1;
            }
            out
        },
    }
}

/// The blocks one after the other.
pub open spec fn concat_blocks(bs: Seq<Seq<char>>) -> Seq<char>
    decreases bs.len(),
{
    if bs.len() == 0 {
        Seq::empty()
    } else {
        concat_blocks(bs.drop_last()) + bs.last()
    }
}

/// Renders the report: one block per metric, in order. The short report
/// holds titles and experiment lines; the full one adds comparison bars and
/// histograms.
pub fn render_stats(measures: &Vec<Measure>, exps: &Vec<Experiment>, full: bool) -> (r: String)
    requires
        exps@.len() >= 1,
        forall|i: int| 0 <= i < measures@.len() ==> measurable(exps@, (#[trigger] measures@[i]).key),
    ensures
        exists|bs: Seq<Seq<char>>|
            bs.len() == measures@.len() && (forall|i: int|
                0 <= i < bs.len() ==> block_ok(#[trigger] bs[i], exps@, measures@[i], full)) && r@
                == concat_blocks(bs),
{
    let mut out = String::new();
    let ghost mut bs: Seq<Seq<char>> = Seq::empty();
    let mut i: usize = 0;
    while i < measures.len()
        invariant
            i <= measures@.len(),
            exps@.len() >= 1,
            forall|q: int| 0 <= q < measures@.len() ==> measurable(exps@, (#[trigger] measures@[q]).key),
            bs.len() == i,
            forall|q: int| 0 <= q < i ==> block_ok(#[trigger] bs[q], exps@, measures@[q], full),
            out@ == concat_blocks(bs),
        decreases measures@.len() - i,
    {
        let b = render_metric(&measures[i], exps, full);
        out.append(b.as_str());
        proof {
            let old_bs = bs;
            bs = bs.push(b@);
            assert(bs.drop_last() =~= old_bs);
            assert forall|q: int| 0 <= q < i + 1 implies block_ok(#[trigger] bs[q], exps@, measures@[q], full) by {
                if q < i {
                    assert(bs[q] == old_bs[q]);
                }
            }
        }
        i = i + 1;
    }
    out
}

/// A comparison involving an experiment with a single sample is always
/// inconclusive: its confidence interval is unbounded.
pub proof fn lemma_single_sample_inconclusive(base: Seq<u64>, s: Seq<u64>)
    requires
        base.len() >= 1,
        s.len() >= 1,
        base.len() == 1 || s.len() == 1,
    ensures
        comparison_of(base, s) matches Some(c) && c.verdict == Verdict::Inconclusive,
{
}

} // verus!
