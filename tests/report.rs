use absh::experiment::Experiment;
use absh::experiment::ExperimentName;
use absh::report::comparison_for;
use absh::report::render_line;
use absh::report::render_metric;
use absh::report::render_stats;
use absh::report::Measure;
use absh::report::Unit;
use absh::stats::Comparison;
use absh::stats::Direction;
use absh::stats::Verdict;
use absh::MeasureKey;

fn experiment(name: ExperimentName, times: &[u64], mems: &[u64]) -> Experiment {
    let mut e = Experiment::new(name, String::new(), String::new(), 0);
    for (t, m) in times.iter().zip(mems.iter()) {
        e.record(&vec![*t, *m]);
    }
    e
}

fn measures() -> Vec<Measure> {
    vec![
        Measure { key: MeasureKey::WallTime, name: "Time (in seconds)".to_string(), unit: Unit::Seconds },
        Measure { key: MeasureKey::MaxRss, name: "Max RSS (in megabytes)".to_string(), unit: Unit::Mebibytes },
    ]
}

#[test]
fn line_formats() {
    assert_eq!(
        render_line(ExperimentName::A, Unit::Seconds, &vec![1_500_000_000, 1_500_000_000], None),
        "A: 1.500 s \u{b1} 0.000 s (n=2)\n"
    );
    assert_eq!(render_line(ExperimentName::C, Unit::Raw, &vec![], None), "C: no samples\n");
    assert_eq!(render_line(ExperimentName::B, Unit::Raw, &vec![7], None), "B: 7 \u{b1} ? (n=1)\n");
    let slower = Some(Comparison { verdict: Verdict::Significant(Direction::Slower), change_percent: Some(90) });
    assert_eq!(
        render_line(ExperimentName::B, Unit::Raw, &vec![20, 22, 21, 19, 23], slower),
        "\x1b[31mB: 21 \u{b1} 1 (n=5) +90%\x1b[0m\n"
    );
    assert_eq!(
        render_line(ExperimentName::D, Unit::Mebibytes, &vec![3 * 1048576], None),
        "D: 3 MiB \u{b1} ? (n=1)\n"
    );
}

#[test]
fn one_sample_experiment_reports_inconclusive() {
    let exps = vec![
        experiment(ExperimentName::A, &[10, 12, 11], &[1048576, 1048576, 1048576]),
        experiment(ExperimentName::B, &[500], &[2097152]),
    ];
    let c = comparison_for(&exps[0].measures[0], &exps[1].measures[0]).unwrap();
    assert_eq!(c.verdict, Verdict::Inconclusive);
    let short = render_stats(&measures(), &exps, false);
    assert!(short.contains("B: 0.000 s \u{b1} ? (n=1) +4445%\n"));
    let full = render_stats(&measures(), &exps, true);
    assert!(full.starts_with("Time (in seconds):\n"));
}

#[test]
fn short_report_layout() {
    let exps = vec![
        experiment(ExperimentName::A, &[10, 12, 11, 13, 9], &[1, 1, 1, 1, 1]),
        experiment(ExperimentName::B, &[20, 22, 21, 19, 23], &[1, 1, 1, 1, 1]),
    ];
    let m = vec![Measure { key: MeasureKey::WallTime, name: "T".to_string(), unit: Unit::Raw }];
    assert_eq!(
        render_stats(&m, &exps, false),
        "T:\nA: 11 \u{b1} 1 (n=5)\n\x1b[31mB: 21 \u{b1} 1 (n=5) +90%\x1b[0m\n"
    );
}

#[test]
fn full_report_adds_bars_and_histogram() {
    let exps = vec![
        experiment(ExperimentName::A, &[10, 20], &[1, 1]),
        experiment(ExperimentName::B, &[20, 20], &[1, 1]),
    ];
    let m = Measure { key: MeasureKey::WallTime, name: "T".to_string(), unit: Unit::Raw };
    let short = render_metric(&m, &exps, false);
    let full = render_metric(&m, &exps, true);
    assert!(full.starts_with(short.as_str()));
    let rest = &full[short.len()..];
    let lines: Vec<&str> = rest.lines().collect();
    assert_eq!(lines.len(), 4);
    let full_bar: String = std::iter::repeat('\u{2588}').take(40).collect();
    assert_eq!(lines[1], format!("  B \x1b[35m{}\x1b[0m", full_bar));
    let three_quarters: String = std::iter::repeat('\u{2588}').take(30).chain(std::iter::repeat(' ').take(10)).collect();
    assert_eq!(lines[0], format!("  A \x1b[34m{}\x1b[0m", three_quarters));
    let mut a_row = String::from("\u{2584}");
    a_row.push_str(&" ".repeat(35));
    a_row.push('\u{2584}');
    a_row.push_str("   ");
    assert_eq!(lines[2], format!("  A \x1b[34m{}\x1b[0m", a_row));
    assert_eq!(full, render_metric(&m, &exps, true));
}
