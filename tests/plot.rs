use absh::bar::eighths;
use absh::bar::render_bar;
use absh::histogram::bucket_counts;
use absh::histogram::bucket_index;
use absh::histogram::global_range;
use absh::histogram::histogram;
use absh::histogram::max_count;
use absh::histogram::render_row;

#[test]
fn bar_empty_full_and_partial() {
    assert_eq!(render_bar(0, 1, 4), "    ");
    assert_eq!(render_bar(1, 1, 4), "\u{2588}\u{2588}\u{2588}\u{2588}");
    assert_eq!(render_bar(1, 2, 4), "\u{2588}\u{2588}  ");
    assert_eq!(render_bar(1, 3, 1), "\u{258E}");
    assert_eq!(render_bar(5, 2, 2), "\u{2588}\u{2588}");
    assert_eq!(render_bar(3, 7, 0), "");
}

#[test]
fn bar_is_monotonic() {
    let mut prev = 0;
    for num in 0..=100u64 {
        let e = eighths(num, 100, 10);
        assert!(e >= prev);
        assert_eq!(render_bar(num, 100, 10).chars().count(), 10);
        prev = e;
    }
    assert_eq!(prev, 80);
}

#[test]
fn buckets_split_range() {
    assert_eq!(bucket_index(1, 1, 4, 2), 0);
    assert_eq!(bucket_index(4, 1, 4, 2), 1);
    assert_eq!(bucket_index(5, 5, 5, 40), 0);
    assert_eq!(bucket_counts(&vec![1, 2, 3, 4], 1, 4, 2), vec![2, 2]);
}

#[test]
fn bucket_counts_sum_to_length() {
    let s = vec![3, 9, 27, 81, 243, 3, 3, 100];
    let c = bucket_counts(&s, 3, 243, 40);
    assert_eq!(c.len(), 40);
    assert_eq!(c.iter().sum::<usize>(), s.len());
}

#[test]
fn range_over_all_sequences() {
    assert_eq!(global_range(&vec![vec![3, 1], vec![], vec![7]]), Some((1, 7)));
    assert_eq!(global_range(&vec![vec![], vec![]]), None);
}

#[test]
fn histogram_rows_and_columns() {
    let rows = histogram(&vec![vec![1, 1, 4], vec![4]], 1, 4, 2);
    assert_eq!(rows, vec![vec![2, 1], vec![0, 1]]);
    assert_eq!(max_count(&rows), 2);
    assert_eq!(max_count(&vec![]), 0);
    assert_eq!(render_row(&vec![0, 4, 2, 1], 4), " \u{2588}\u{2584}\u{2582}");
}
