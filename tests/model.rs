use absh::also_measure::AlsoMeasure;
use absh::experiment::Experiment;
use absh::experiment::ExperimentName;
use absh::run_loop::after_round;
use absh::run_loop::judge_run;
use absh::run_loop::run_order;
use absh::run_loop::RunOutcome;
use absh::run_loop::Step;
use absh::text::decimal;
use absh::text::decimal3;
use absh::MeasureKey;
use absh::MemUsage;

#[test]
fn measure_key_index_round_trip() {
    assert_eq!(MeasureKey::WallTime.index(), 0);
    assert_eq!(MeasureKey::MaxRss.index(), 1);
    assert_eq!(MeasureKey::User(3).index(), 5);
    assert_eq!(MeasureKey::from_index(0), MeasureKey::WallTime);
    assert_eq!(MeasureKey::from_index(1), MeasureKey::MaxRss);
    assert_eq!(MeasureKey::from_index(5), MeasureKey::User(3));
}

#[test]
fn mem_usage_units() {
    let m = MemUsage::from_bytes(3 * 1048576 + 5);
    assert_eq!(m.mib(), 3);
    assert_eq!(m.bytes(), 3 * 1048576 + 5);
    assert_eq!(MemUsage::from_bytes(2_500_000).mb(), 2);
    assert_eq!(m.to_string(), "3MiB");
    assert_eq!(MemUsage::default().bytes(), 0);
}

#[test]
fn mem_usage_arithmetic() {
    let a = MemUsage::from_bytes(10);
    let b = MemUsage::from_bytes(4);
    assert_eq!(a.add(b).bytes(), 14);
    assert_eq!(a.sub(b).bytes(), 6);
    assert_eq!(a.div_usize(3).bytes(), 3);
    assert_eq!(MemUsage::sum(&vec![a, b, b]).map(|m| m.bytes()), Some(18));
    assert_eq!(MemUsage::sum(&vec![MemUsage::from_bytes(u64::MAX), b]), None);
}

#[test]
fn user_metric_spec_round_trip() {
    let s = "rss:1:Resident Set:cat /proc/self/status";
    let m = AlsoMeasure::from_str(s).unwrap();
    assert_eq!(m.id, "rss");
    assert!(m.is_size);
    assert_eq!(m.name, "Resident Set");
    assert_eq!(m.cmd, "cat /proc/self/status");
    assert_eq!(m.to_string(), s);
}

#[test]
fn user_metric_command_keeps_colons() {
    let m = AlsoMeasure::from_str("t:0:time:echo a:b").unwrap();
    assert!(!m.is_size);
    assert_eq!(m.cmd, "echo a:b");
    assert_eq!(m.to_string(), "t:0:time:echo a:b");
}

#[test]
fn user_metric_spec_errors() {
    assert_eq!(AlsoMeasure::from_str("a:2:x:y").unwrap_err(), "a:2:x:y");
    assert_eq!(AlsoMeasure::from_str("a:1:x").unwrap_err(), "a:1:x");
    assert_eq!(AlsoMeasure::from_str("").unwrap_err(), "");
    assert_eq!(AlsoMeasure::from_str("a:11:x:y").unwrap_err(), "a:11:x:y");
}

#[test]
fn decimal_text() {
    assert_eq!(decimal(0), "0");
    assert_eq!(decimal(1234), "1234");
    assert_eq!(decimal(u128::MAX), u128::MAX.to_string());
    assert_eq!(decimal3(7), "007");
    assert_eq!(decimal3(42), "042");
    assert_eq!(decimal3(1234), "1234");
}

#[test]
fn experiment_records_and_clears() {
    let mut e = Experiment::new(ExperimentName::B, String::new(), "true".to_string(), 1);
    assert_eq!(e.measures.len(), 3);
    assert_eq!(e.runs(), 0);
    e.record(&vec![1, 2, 3]);
    e.record(&vec![4, 5, 6]);
    assert_eq!(e.runs(), 2);
    assert_eq!(e.measures[2], vec![3, 6]);
    e.clear();
    assert_eq!(e.runs(), 0);
    assert_eq!(ExperimentName::B.name(), "B");
}

#[test]
fn loop_decisions() {
    assert_eq!(after_round(2, Some(2)), Step::Finish);
    assert_eq!(after_round(1, None), Step::Continue);
    assert_eq!(after_round(3, Some(5)), Step::Report);
    assert_eq!(judge_run(false, true, 0, None, 1), RunOutcome::WarmupFailed);
    assert_eq!(judge_run(true, false, 0, None, 1), RunOutcome::ScriptFailed);
    assert_eq!(judge_run(true, true, 2_000_000_001, Some(2), 1), RunOutcome::TooLong);
    assert_eq!(judge_run(true, true, 2_000_000_000, Some(2), 1), RunOutcome::Record);
    assert_eq!(judge_run(true, true, 5, None, 0), RunOutcome::NoMaxRss);
}

#[test]
fn run_order_is_a_permutation() {
    assert_eq!(run_order(3, false), vec![0, 1, 2]);
    let mut r = run_order(5, true);
    r.sort();
    assert_eq!(r, vec![0, 1, 2, 3, 4]);
}

#[test]
fn duration_display_and_arithmetic() {
    let d = absh::duration::Duration::from_nanos(1_250_000_000);
    assert_eq!(d.to_string(), "1.250");
    assert_eq!(absh::duration::Duration::from_nanos(7_000_000).to_string(), "0.007");
    assert_eq!(d.add(d).nanos(), 2_500_000_000);
    assert_eq!(d.div_usize(2).nanos(), 625_000_000);
}
