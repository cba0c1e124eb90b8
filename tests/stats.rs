use absh::stats::compare;
use absh::stats::isqrt;
use absh::stats::margin;
use absh::stats::mean;
use absh::stats::min_max;
use absh::stats::relative_change;
use absh::stats::squared_deviations;
use absh::stats::standard_error;
use absh::stats::sum;
use absh::stats::summarize;
use absh::stats::t_critical;
use absh::stats::variance;
use absh::stats::Comparison;
use absh::stats::Direction;
use absh::stats::Verdict;

#[test]
fn mean_is_rounded_down_average() {
    assert_eq!(mean(&vec![10, 12, 11, 13, 9]), 11);
    assert_eq!(mean(&vec![1, 2]), 1);
    assert_eq!(mean(&vec![7]), 7);
    assert_eq!(mean(&vec![u64::MAX, u64::MAX]), u64::MAX);
}

#[test]
fn sum_does_not_overflow() {
    assert_eq!(sum(&vec![u64::MAX, u64::MAX]), 2 * (u64::MAX as u128));
    assert_eq!(sum(&vec![]), 0);
}

#[test]
fn variance_uses_n_minus_one() {
    assert_eq!(variance(&vec![10, 12, 11, 13, 9]), Some(2));
    assert_eq!(variance(&vec![2, 4, 4, 4, 5, 5, 7, 9]), Some(32 / 7));
    assert_eq!(variance(&vec![5]), Some(0));
    assert_eq!(variance(&vec![0, u64::MAX, 0, u64::MAX, 0, u64::MAX]), None);
}

#[test]
fn squared_deviations_from_mean() {
    assert_eq!(squared_deviations(&vec![10, 12, 11, 13, 9]), Some(10));
    assert_eq!(squared_deviations(&vec![4]), Some(0));
}

#[test]
fn integer_square_root() {
    assert_eq!(isqrt(0), 0);
    assert_eq!(isqrt(15), 3);
    assert_eq!(isqrt(16), 4);
    assert_eq!(isqrt(u128::MAX), u64::MAX);
}

#[test]
fn standard_error_shrinks_with_count() {
    assert_eq!(standard_error(100, 4), 5);
    assert_eq!(standard_error(100, 25), 2);
    assert!(standard_error(100, 25) <= standard_error(100, 4));
}

#[test]
fn t_critical_reference_values() {
    assert_eq!(t_critical(1), (12706, 1));
    assert_eq!(t_critical(4), (2776, 1));
    assert_eq!(t_critical(29), (2045, 1));
    assert_eq!(t_critical(30), (61260, 30));
    let mut prev = t_critical(1);
    for df in 2..200u64 {
        let t = t_critical(df);
        assert!(t.0 > 1960 * t.1);
        assert!(prev.0 * t.1 > t.0 * prev.1);
        prev = t;
    }
}

#[test]
fn margin_from_squared_deviations() {
    assert_eq!(margin(10, 5), Some(1));
    assert_eq!(margin(0, 4), Some(0));
    assert_eq!(margin(930_000_000, 31), Some(2042));
    assert_eq!(margin(u128::MAX, 2), None);
}

#[test]
fn close_small_samples_are_inconclusive() {
    let a = vec![1, 2];
    assert_eq!(summarize(&a).margin, Some(8));
    assert_eq!(compare(&a, &vec![2, 3]).verdict, Verdict::Inconclusive);
}

#[test]
fn min_and_max() {
    assert_eq!(min_max(&vec![4, 2, 9, 3]), (2, 9));
}

#[test]
fn summary_of_single_sample_has_no_margin() {
    let s = summarize(&vec![42]);
    assert_eq!(s.count, 1);
    assert_eq!(s.mean, 42);
    assert_eq!(s.variance, Some(0));
    assert_eq!(s.margin, None);
}

#[test]
fn disjoint_intervals_are_significant() {
    let a = vec![10, 12, 11, 13, 9];
    let b = vec![20, 22, 21, 19, 23];
    assert_eq!(
        compare(&a, &b),
        Comparison { verdict: Verdict::Significant(Direction::Slower), change_percent: Some(90) }
    );
    assert_eq!(
        compare(&b, &a),
        Comparison { verdict: Verdict::Significant(Direction::Faster), change_percent: Some(-47) }
    );
}

#[test]
fn equal_constant_samples_are_inconclusive() {
    let a = vec![5, 5, 5, 5];
    let s = summarize(&a);
    assert_eq!(s.variance, Some(0));
    assert_eq!(s.margin, Some(0));
    assert_eq!(
        compare(&a, &a.clone()),
        Comparison { verdict: Verdict::Inconclusive, change_percent: Some(0) }
    );
}

#[test]
fn identical_sequences_are_inconclusive() {
    let a = vec![3, 100, 7, 55, 1000];
    assert_eq!(compare(&a, &a.clone()).verdict, Verdict::Inconclusive);
}

#[test]
fn single_sample_comparison_is_inconclusive() {
    assert_eq!(compare(&vec![10, 12], &vec![1000]).verdict, Verdict::Inconclusive);
    assert_eq!(compare(&vec![1000], &vec![10, 12]).verdict, Verdict::Inconclusive);
}

#[test]
fn relative_change_percent() {
    assert_eq!(relative_change(0, 5), None);
    assert_eq!(relative_change(100, 50), Some(-50));
    assert_eq!(relative_change(100, 150), Some(50));
    assert_eq!(relative_change(3, 3), Some(0));
}
