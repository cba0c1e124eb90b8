use vstd::prelude::*;
use vstd::string::StringExecFns;

verus! {

/// The range `r` widened to take in `x`.
pub open spec fn extend_range(r: Option<(u64, u64)>, x: u64) -> Option<(u64, u64)> {
    match r {
        None => Some((x, x)),
        Some((lo, hi)) => Some((if x < lo { x } else { lo }, if x > hi { x } else { hi })),
    }
}

/// The range `r` widened to take in every sample of `s`.
pub open spec fn range_seq(r: Option<(u64, u64)>, s: Seq<u64>) -> Option<(u64, u64)>
    decreases s.len(),
{
    if s.len() == 0 {
        r
    } else {
        extend_range(range_seq(r, s.drop_last()), s.last())
    }
}

/// Smallest and largest sample over all sequences; `None` when there is none.
pub open spec fn range_all(seqs: Seq<Vec<u64>>) -> Option<(u64, u64)>
    decreases seqs.len(),
{
    if seqs.len() == 0 {
        None
    } else {
        range_seq(range_all(seqs.drop_last()), seqs.last()@)
    }
}

/// The larger of `m` and every count of `row`.
pub open spec fn max_row(m: int, row: Seq<usize>) -> int
    decreases row.len(),
{
    if row.len() == 0 {
        m
    } else {
        let p = max_row(m, row.drop_last());
        if row.last() > p {
            row.last() as int
        } else {
            p
        }
    }
}

/// The largest count over all rows; zero when there is none.
pub open spec fn max_all(rows: Seq<Vec<usize>>) -> int
    decreases rows.len(),
{
    if rows.len() == 0 {
        0
    } else {
        max_row(max_all(rows.drop_last()), rows.last()@)
    }
}

/// The bucket of `x` when `[lo, hi]` is cut into `buckets` equal parts.
pub open spec fn bucket_of(x: int, lo: int, hi: int, buckets: int) -> int {
    (x - lo) * buckets / (hi - lo + 1)
}

/// `n` zero counts.
pub open spec fn zeros(n: nat) -> Seq<int> {
    Seq::new(n, |j: int| 0int)
}

/// Per-bucket sample counts of `s` over `[lo, hi]`.
pub open spec fn spec_counts(s: Seq<u64>, lo: u64, hi: u64, buckets: nat) -> Seq<int>
    decreases s.len(),
{
    if s.len() == 0 {
        zeros(buckets)
    } else {
        let c = spec_counts(s.drop_last(), lo, hi, buckets);
        let b = bucket_of(s.last() as int, lo as int, hi as int, buckets as int);
        c.update(b, c[b] + 1)
    }
}

/// Sum of counts.
pub open spec fn seq_total(c: Seq<int>) -> int
    decreases c.len(),
{
    if c.len() == 0 {
        0
    } else {
        seq_total(c.drop_last()) + c.last()
    }
}

/// Every sample lies in `[lo, hi]`.
pub open spec fn within(s: Seq<u64>, lo: u64, hi: u64) -> bool {
    forall|i: int| 0 <= i < s.len() ==> lo <= #[trigger] s[i] <= hi
}

proof fn lemma_bucket_in_range(x: int, lo: int, hi: int, buckets: int)
    requires
        lo <= x <= hi,
        buckets >= 1,
    ensures
        0 <= bucket_of(x, lo, hi, buckets) < buckets,
{
    assert(0 <= (x - lo) * buckets / (hi - lo + 1) < buckets) by (nonlinear_arith)
        requires
            0 <= x - lo < hi - lo + 1,
            buckets >= 1,
    ;
}

proof fn lemma_counts_len(s: Seq<u64>, lo: u64, hi: u64, buckets: nat)
    requires
        within(s, lo, hi),
        buckets >= 1,
    ensures
        spec_counts(s, lo, hi, buckets).len() == buckets,
    decreases s.len(),
{
    if s.len() > 0 {
        assert(within(s.drop_last(), lo, hi));
        lemma_counts_len(s.drop_last(), lo, hi, buckets);
        assert(lo <= s[s.len() - 1] <= hi);
        lemma_bucket_in_range(s.last() as int, lo as int, hi as int, buckets as int);
    }
}

proof fn lemma_total_update(c: Seq<int>, j: int, v: int)
    requires
        0 <= j < c.len(),
    ensures
        seq_total(c.update(j, v)) == seq_total(c) - c[j] + v,
    decreases c.len(),
{
    if j == c.len() - 1 {
        assert(c.update(j, v).drop_last() =~= c.drop_last());
    } else {
        assert(c.update(j, v).drop_last() =~= c.drop_last().update(j, v));
        lemma_total_update(c.drop_last(), j, v);
    }
}

proof fn lemma_total_zeros(n: nat)
    ensures
        seq_total(zeros(n)) == 0,
    decreases n,
{
    if n > 0 {
        assert(zeros(n).drop_last() =~= zeros((n - 1) as nat));
        lemma_total_zeros((n - 1) as nat);
    }
}

/// The bucket counts of a sequence of `n` samples add up to exactly `n`.
pub proof fn lemma_counts_total(s: Seq<u64>, lo: u64, hi: u64, buckets: nat)
    requires
        within(s, lo, hi),
        buckets >= 1,
    ensures
        seq_total(spec_counts(s, lo, hi, buckets)) == s.len(),
    decreases s.len(),
{
    if s.len() == 0 {
        lemma_total_zeros(buckets);
    } else {
        assert(within(s.drop_last(), lo, hi));
        lemma_counts_total(s.drop_last(), lo, hi, buckets);
        lemma_counts_len(s.drop_last(), lo, hi, buckets);
        assert(lo <= s[s.len() - 1] <= hi);
        lemma_bucket_in_range(s.last() as int, lo as int, hi as int, buckets as int);
        let c = spec_counts(s.drop_last(), lo, hi, buckets);
        let b = bucket_of(s.last() as int, lo as int, hi as int, buckets as int);
        lemma_total_update(c, b, c[b] + 1);
    }
}

/// The bucket of `x` when `[lo, hi]` is cut into `buckets` equal parts.
pub fn bucket_index(x: u64, lo: u64, hi: u64, buckets: usize) -> (r: usize)
    requires
        lo <= x <= hi,
        buckets >= 1,
    ensures
        r == bucket_of(x as int, lo as int, hi as int, buckets as int),
        r < buckets,
{
    proof {
        lemma_bucket_in_range(x as int, lo as int, hi as int, buckets as int);
        assert((x - lo) * buckets <= u64::MAX * usize::MAX) by (nonlinear_arith)
            requires
                0 <= x - lo <= u64::MAX,
                0 <= buckets <= usize::MAX,
        ;
    }
    let span = (hi - lo) as u128 + 1;
    ((x - lo) as u128 * (buckets as u128) / span) as usize
}

/// Counts the samples of `s` that fall in each of `buckets` equal parts of
/// `[lo, hi]`.
pub fn bucket_counts(s: &Vec<u64>, lo: u64, hi: u64, buckets: usize) -> (r: Vec<usize>)
    requires
        within(s@, lo, hi),
        buckets >= 1,
    ensures
        r@.len() == buckets,
        forall|j: int| 0 <= j < buckets ==> r@[j] == #[trigger] spec_counts(s@, lo, hi, buckets as nat)[j],
        forall|j: int| 0 <= j < buckets ==> #[trigger] r@[j] <= s@.len(),
{
    let mut counts: Vec<usize> = Vec::new();
    let mut j: usize = 0;
    while j < buckets
        invariant
            j <= buckets,
            counts@.len() == j,
            forall|k: int| 0 <= k < j ==> #[trigger] counts@[k] == 0,
        decreases buckets - j,
    {
        counts.push(0);
        j = j + 1;
    }
    proof {
        assert(s@.take(0) =~= Seq::<u64>::empty());
    }
    let mut i: usize = 0;
    while i < s.len()
        invariant
            i <= s.len(),
            within(s@, lo, hi),
            buckets >= 1,
            counts@.len() == buckets,
            spec_counts(s@.take(i as int), lo, hi, buckets as nat).len() == buckets,
            forall|k: int|
                0 <= k < buckets ==> counts@[k] == #[trigger] spec_counts(
                    s@.take(i as int),
                    lo,
                    hi,
                    buckets as nat,
                )[k],
            forall|k: int| 0 <= k < buckets ==> #[trigger] counts@[k] <= i,
        decreases s.len() - i,
    {
        proof {
            assert(s@.take(i + 1).drop_last() =~= s@.take(i as int));
            assert(lo <= s@[i as int] <= hi);
        }
        let b = bucket_index(s[i], lo, hi, buckets);
        let c = counts[b];
        counts.set(b, c + 1);
        i = i + 1;
    }
    proof {
        assert(s@.take(s.len() as int) =~= s@);
    }
    counts
}

/// Smallest and largest sample over all the sequences, `None` when they hold
/// no sample at all.
pub fn global_range(seqs: &Vec<Vec<u64>>) -> (r: Option<(u64, u64)>)
    ensures
        r == range_all(seqs@),
        r is None <==> forall|k: int| 0 <= k < seqs@.len() ==> #[trigger] seqs@[k]@.len() == 0,
        r matches Some((lo, hi)) ==> {
            &&& forall|k: int| 0 <= k < seqs@.len() ==> within(#[trigger] seqs@[k]@, lo, hi)
            &&& exists|k: int, i: int|
                0 <= k < seqs@.len() && 0 <= i < seqs@[k]@.len() && #[trigger] seqs@[k]@[i] == lo
            &&& exists|k: int, i: int|
                0 <= k < seqs@.len() && 0 <= i < seqs@[k]@.len() && #[trigger] seqs@[k]@[i] == hi
        },
{
    let mut r: Option<(u64, u64)> = None;
    let mut k: usize = 0;
    while k < seqs.len()
        invariant
            k <= seqs@.len(),
            r == range_all(seqs@.take(k as int)),
            r is None <==> forall|q: int| 0 <= q < k ==> #[trigger] seqs@[q]@.len() == 0,
            r matches Some((lo, hi)) ==> {
                &&& forall|q: int| 0 <= q < k ==> within(#[trigger] seqs@[q]@, lo, hi)
                &&& exists|q: int, i: int|
                    0 <= q < seqs@.len() && 0 <= i < seqs@[q]@.len() && #[trigger] seqs@[q]@[i] == lo
                &&& exists|q: int, i: int|
                    0 <= q < seqs@.len() && 0 <= i < seqs@[q]@.len() && #[trigger] seqs@[q]@[i] == hi
            },
        decreases seqs@.len() - k,
    {
        let s = &seqs[k];
        let mut i: usize = 0;
        while i < s.len()
            invariant
                k < seqs@.len(),
                s@ == seqs@[k as int]@,
                i <= s@.len(),
                r == range_seq(range_all(seqs@.take(k as int)), s@.take(i as int)),
                r is None <==> (forall|q: int| 0 <= q < k ==> #[trigger] seqs@[q]@.len() == 0) && i == 0,
                r matches Some((lo, hi)) ==> {
                    &&& forall|q: int| 0 <= q < k ==> within(#[trigger] seqs@[q]@, lo, hi)
                    &&& forall|j: int| 0 <= j < i ==> lo <= #[trigger] s@[j] <= hi
                    &&& exists|q: int, j: int|
                        0 <= q < seqs@.len() && 0 <= j < seqs@[q]@.len() && #[trigger] seqs@[q]@[j] == lo
                    &&& exists|q: int, j: int|
                        0 <= q < seqs@.len() && 0 <= j < seqs@[q]@.len() && #[trigger] seqs@[q]@[j] == hi
                },
            decreases s@.len() - i,
        {
            let x = s[i];
            proof {
                assert(seqs@[k as int]@[i as int] == x);
                assert(s@.take(i + 1).drop_last() =~= s@.take(i as int));
            }
            r = match r {
                None => Some((x, x)),
                Some((lo, hi)) => Some((if x < lo { x } else { lo }, if x > hi { x } else { hi })),
            };
            i = i + 1;
        }
        proof {
            if let Some((lo, hi)) = r {
                assert(within(seqs@[k as int]@, lo, hi));
            }
            assert(s@.take(s@.len() as int) =~= s@);
            assert(seqs@.take(k + 1).drop_last() =~= seqs@.take(k as int));
        }
        k = k + 1;
    }
    proof {
        assert(seqs@.take(seqs@.len() as int) =~= seqs@);
    }
    r
}

/// Height, in eighths of a cell, of a column holding `c` samples when the
/// fullest column holds `max`; rounded up, so that no occupied bucket is blank.
pub open spec fn level(c: int, max: int) -> int {
    (c * 8 + max - 1) / max
}

/// The glyph of a column `k` eighths high, `0 <= k <= 8`.
pub open spec fn column_glyph(k: int) -> char {
    if k <= 0 {
        ' '
    } else if k == 1 {
        '\u{2581}'
    } else if k == 2 {
        '\u{2582}'
    } else if k == 3 {
        '\u{2583}'
    } else if k == 4 {
        '\u{2584}'
    } else if k == 5 {
        '\u{2585}'
    } else if k == 6 {
        '\u{2586}'
    } else if k == 7 {
        '\u{2587}'
    } else {
        '\u{2588}'
    }
}

/// One histogram row: a column per bucket, scaled against `max`.
pub open spec fn row_chars(counts: Seq<usize>, max: int) -> Seq<char> {
    Seq::new(counts.len(), |j: int| column_glyph(level(counts[j] as int, max)))
}

fn column(k: u128) -> (r: &'static str)
    ensures
        r@ == seq![column_glyph(k as int)],
{
    if k == 0 {
        proof { reveal_strlit(" "); }
        " "
    } else if k == 1 {
        proof { reveal_strlit("\u{2581}"); }
        "\u{2581}"
    } else if k == 2 {
        proof { reveal_strlit("\u{2582}"); }
        "\u{2582}"
    } else if k == 3 {
        proof { reveal_strlit("\u{2583}"); }
        "\u{2583}"
    } else if k == 4 {
        proof { reveal_strlit("\u{2584}"); }
        "\u{2584}"
    } else if k == 5 {
        proof { reveal_strlit("\u{2585}"); }
        "\u{2585}"
    } else if k == 6 {
        proof { reveal_strlit("\u{2586}"); }
        "\u{2586}"
    } else if k == 7 {
        proof { reveal_strlit("\u{2587}"); }
        "\u{2587}"
    } else {
        proof { reveal_strlit("\u{2588}"); }
        "\u{2588}"
    }
}

/// Renders one histogram row, each bucket's column scaled against `max`.
pub fn render_row(counts: &Vec<usize>, max: usize) -> (r: String)
    requires
        max >= 1,
    ensures
        r@ == row_chars(counts@, max as int),
{
    let mut out = String::new();
    let mut j: usize = 0;
    while j < counts.len()
        invariant
            j <= counts@.len(),
            max >= 1,
            out@ == row_chars(counts@, max as int).take(j as int),
        decreases counts@.len() - j,
    {
        let k = ((counts[j] as u128) * 8 + (max as u128) - 1) / (max as u128);
        out.append(column(k));
        proof {
            assert(out@ =~= row_chars(counts@, max as int).take(j + 1));
        }
        j = j + 1;
    }
    proof {
        assert(out@ =~= row_chars(counts@, max as int));
    }
    out
}

/// The largest count over all rows; zero when there is none.
pub fn max_count(rows: &Vec<Vec<usize>>) -> (r: usize)
    ensures
        r == max_all(rows@),
        forall|k: int, j: int|
            0 <= k < rows@.len() && 0 <= j < rows@[k]@.len() ==> #[trigger] rows@[k]@[j] <= r,
        r == 0 || exists|k: int, j: int|
            0 <= k < rows@.len() && 0 <= j < rows@[k]@.len() && #[trigger] rows@[k]@[j] == r,
{
    let mut m: usize = 0;
    let mut k: usize = 0;
    while k < rows.len()
        invariant
            k <= rows@.len(),
            m == max_all(rows@.take(k as int)),
            forall|q: int, j: int|
                0 <= q < k && 0 <= j < rows@[q]@.len() ==> #[trigger] rows@[q]@[j] <= m,
            m == 0 || exists|q: int, j: int|
                0 <= q < rows@.len() && 0 <= j < rows@[q]@.len() && #[trigger] rows@[q]@[j] == m,
        decreases rows@.len() - k,
    {
        let row = &rows[k];
        let mut j: usize = 0;
        while j < row.len()
            invariant
                k < rows@.len(),
                row@ == rows@[k as int]@,
                j <= row@.len(),
                m == max_row(max_all(rows@.take(k as int)), row@.take(j as int)),
                forall|q: int, i: int|
                    0 <= q < k && 0 <= i < rows@[q]@.len() ==> #[trigger] rows@[q]@[i] <= m,
                forall|i: int| 0 <= i < j ==> #[trigger] row@[i] <= m,
                m == 0 || exists|q: int, i: int|
                    0 <= q < rows@.len() && 0 <= i < rows@[q]@.len() && #[trigger] rows@[q]@[i] == m,
            decreases row@.len() - j,
        {
            proof {
                assert(row@.take(j + 1).drop_last() =~= row@.take(j as int));
            }
            if row[j] > m {
                m = row[j];
                proof {
                    assert(rows@[k as int]@[j as int] == m);
                }
            }
            j = j + 1;
        }
        proof {
            assert forall|q: int, i: int|
                0 <= q < k + 1 && 0 <= i < rows@[q]@.len() implies #[trigger] rows@[q]@[i] <= m by {
                if q == k {
                    assert(row@[i] == rows@[q]@[i]);
                }
            }
            assert(row@.take(row@.len() as int) =~= row@);
            assert(rows@.take(k + 1).drop_last() =~= rows@.take(k as int));
        }
        k = k + 1;
    }
    proof {
        assert(rows@.take(rows@.len() as int) =~= rows@);
    }
    m
}

/// Per-sequence bucket counts over the range shared by all sequences.
pub fn histogram(seqs: &Vec<Vec<u64>>, lo: u64, hi: u64, buckets: usize) -> (r: Vec<Vec<usize>>)
    requires
        forall|k: int| 0 <= k < seqs@.len() ==> within(#[trigger] seqs@[k]@, lo, hi),
        buckets >= 1,
    ensures
        r@.len() == seqs@.len(),
        forall|k: int|
            0 <= k < r@.len() ==> (#[trigger] r@[k])@.len() == buckets && forall|j: int|
                0 <= j < buckets ==> r@[k]@[j] == #[trigger] spec_counts(seqs@[k]@, lo, hi, buckets as nat)[j],
{
    let mut rows: Vec<Vec<usize>> = Vec::new();
    let mut k: usize = 0;
    while k < seqs.len()
        invariant
            k <= seqs@.len(),
            buckets >= 1,
            forall|q: int| 0 <= q < seqs@.len() ==> within(#[trigger] seqs@[q]@, lo, hi),
            rows@.len() == k,
            forall|q: int|
                0 <= q < k ==> (#[trigger] rows@[q])@.len() == buckets && forall|j: int|
                    0 <= j < buckets ==> rows@[q]@[j] == #[trigger] spec_counts(seqs@[q]@, lo, hi, buckets as nat)[j],
        decreases seqs@.len() - k,
    {
        proof {
            assert(within(seqs@[k as int]@, lo, hi));
        }
        let c = bucket_counts(&seqs[k], lo, hi, buckets);
        rows.push(c);
        k = k + 1;
    }
    rows
}

} // verus!
