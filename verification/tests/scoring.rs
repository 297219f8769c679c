use interop_score::{
    PassCount, Results, RunEntry, ScoreError, ScoreObserver, Status, SubtestResult, score_run,
    score_runs, score_runs_observed, SilentObserver,
};

fn sub(id: &str, status: &str) -> SubtestResult {
    SubtestResult { id: id.to_string(), status: Status::from_label(status) }
}

fn entry(id: &str, status: &str, subtests: Vec<SubtestResult>) -> RunEntry {
    RunEntry {
        test_id: id.to_string(),
        results: Results { status: Status::from_label(status), subtests },
    }
}

fn ids(names: &[&str]) -> Vec<String> {
    let mut v = Vec::new();
    for n in names {
        v.push(n.to_string());
    }
    v
}

#[test]
fn status_parsing_is_lenient() {
    assert_eq!(Status::from_label("PASS"), Status::Pass);
    assert_eq!(Status::from_label("OK"), Status::Okay);
    assert_eq!(Status::from_label("pass"), Status::Other);
    assert_eq!(Status::from_label("FAIL"), Status::Other);
    assert_eq!(Status::from_label("TIMEOUT"), Status::Other);
    assert_eq!(Status::from_label(""), Status::Other);
    assert_eq!(Status::from("PASS"), Status::Pass);
    assert_eq!(Status::from("OK"), Status::Okay);
    assert_eq!(Status::from("ERROR"), Status::Other);
}

#[test]
fn all_interop_pass_scores_full() {
    let runs = vec![vec![entry("a", "PASS", vec![]), entry("b", "PASS", vec![])]];
    let out = score_runs(&runs, &ids(&["a", "b"]), &ids(&[])).unwrap();
    assert_eq!(out.scores, vec![1000]);
    assert!(out.unexpected_not_ok.is_empty());
}

#[test]
fn all_interop_absent_scores_zero() {
    let runs = vec![vec![entry("c", "PASS", vec![])]];
    let out = score_runs(&runs, &ids(&["a", "b"]), &ids(&[])).unwrap();
    assert_eq!(out.scores, vec![0]);
}

#[test]
fn subtest_ratio_truncates() {
    let subtests = vec![sub("s1", "PASS"), sub("s2", "PASS"), sub("s3", "FAIL")];
    let runs = vec![vec![entry("a", "OK", subtests)]];
    let out = score_runs(&runs, &ids(&["a"]), &ids(&[])).unwrap();
    assert_eq!(out.scores, vec![666]);
}

#[test]
fn expected_not_ok_is_not_flagged() {
    let runs = vec![vec![entry("a", "FAIL", vec![sub("s1", "PASS")])]];
    let out = score_runs(&runs, &ids(&["a"]), &ids(&["a"])).unwrap();
    assert!(out.unexpected_not_ok.is_empty());
}

#[test]
fn unexpected_failure_is_flagged() {
    let runs = vec![vec![entry("a", "FAIL", vec![sub("s1", "PASS")])]];
    let out = score_runs(&runs, &ids(&["a"]), &ids(&[])).unwrap();
    assert_eq!(out.unexpected_not_ok, vec!["a".to_string()]);
}

#[test]
fn empty_interop_set_is_rejected() {
    let runs = vec![vec![entry("a", "PASS", vec![])]];
    let err = score_runs(&runs, &ids(&[]), &ids(&[])).unwrap_err();
    assert_eq!(err, ScoreError::EmptyInteropSet);
}

#[test]
fn mixed_pass_fail_halves_score() {
    let runs = vec![vec![entry("a", "PASS", vec![]), entry("b", "FAIL", vec![])]];
    let out = score_runs(&runs, &ids(&["a", "b"]), &ids(&[])).unwrap();
    assert_eq!(out.scores, vec![500]);
}

#[test]
fn missing_interop_test_penalizes() {
    let runs = vec![vec![entry("a", "PASS", vec![])]];
    let out = score_runs(&runs, &ids(&["a", "b"]), &ids(&[])).unwrap();
    assert_eq!(out.scores, vec![500]);
}

#[test]
fn no_subtest_failure_is_not_flagged() {
    let runs = vec![vec![entry("a", "FAIL", vec![])]];
    let out = score_runs(&runs, &ids(&["a"]), &ids(&[])).unwrap();
    assert_eq!(out.scores, vec![0]);
    assert!(out.unexpected_not_ok.is_empty());
}

#[test]
fn overall_status_does_not_affect_subtest_ratio() {
    let runs = vec![vec![entry("a", "FAIL", vec![sub("s1", "PASS"), sub("s2", "PASS")])]];
    let out = score_runs(&runs, &ids(&["a"]), &ids(&[])).unwrap();
    assert_eq!(out.scores, vec![1000]);
    assert_eq!(out.unexpected_not_ok, vec!["a".to_string()]);
}

#[test]
fn ok_status_with_failing_subtests_is_not_flagged() {
    let runs = vec![vec![entry("a", "OK", vec![sub("s1", "FAIL")])]];
    let out = score_runs(&runs, &ids(&["a"]), &ids(&[])).unwrap();
    assert_eq!(out.scores, vec![0]);
    assert!(out.unexpected_not_ok.is_empty());
}

#[test]
fn no_runs_scores_nothing() {
    let runs: Vec<Vec<RunEntry>> = vec![];
    let out = score_runs(&runs, &ids(&["a"]), &ids(&[])).unwrap();
    assert!(out.scores.is_empty());
    assert!(out.unexpected_not_ok.is_empty());
}

#[test]
fn output_order_matches_run_order() {
    let runs = vec![
        vec![entry("a", "PASS", vec![])],
        vec![entry("a", "FAIL", vec![])],
        vec![entry("a", "PASS", vec![])],
    ];
    let out = score_runs(&runs, &ids(&["a"]), &ids(&[])).unwrap();
    assert_eq!(out.scores, vec![1000, 0, 1000]);
}

#[test]
fn runs_scored_independently() {
    let run1 = || vec![entry("a", "PASS", vec![]), entry("b", "FAIL", vec![sub("s", "PASS")])];
    let run2 = || vec![entry("a", "FAIL", vec![]), entry("b", "PASS", vec![])];
    let interop = ids(&["a", "b"]);
    let expected = ids(&[]);
    let together = score_runs(&vec![run1(), run2()], &interop, &expected).unwrap();
    let first = score_runs(&vec![run1()], &interop, &expected).unwrap();
    let second = score_runs(&vec![run2()], &interop, &expected).unwrap();
    assert_eq!(together.scores[0], first.scores[0]);
    assert_eq!(together.scores[1], second.scores[0]);
    let mut merged = first.unexpected_not_ok.clone();
    for id in second.unexpected_not_ok {
        if !merged.contains(&id) {
            merged.push(id);
        }
    }
    assert_eq!(together.unexpected_not_ok, merged);
}

#[test]
fn unexpected_failures_deduplicated_across_runs() {
    let failing = || entry("a", "FAIL", vec![sub("s", "FAIL")]);
    let runs = vec![vec![failing()], vec![failing()]];
    let out = score_runs(&runs, &ids(&["a"]), &ids(&[])).unwrap();
    assert_eq!(out.unexpected_not_ok, vec!["a".to_string()]);
}

struct CollectingObserver {
    records: Vec<(String, Status, usize, usize)>,
}

impl ScoreObserver for CollectingObserver {
    fn on_test_scored(&mut self, test_id: &String, status: Status, run_passes: usize, run_total: usize) {
        self.records.push((test_id.clone(), status, run_passes, run_total));
    }
}

#[test]
fn observer_sees_every_scored_test() {
    let runs = vec![vec![
        entry("a", "OK", vec![sub("s1", "PASS"), sub("s2", "FAIL"), sub("s3", "PASS")]),
        entry("skipped", "PASS", vec![]),
        entry("b", "FAIL", vec![]),
    ]];
    let mut observer = CollectingObserver { records: Vec::new() };
    let out = score_runs_observed(&runs, &ids(&["a", "b"]), &ids(&[]), &mut observer).unwrap();
    assert_eq!(out.scores, vec![333]);
    assert_eq!(
        observer.records,
        vec![
            ("a".to_string(), Status::Okay, 2, 3),
            ("b".to_string(), Status::Other, 0, 1),
        ]
    );
}

#[test]
fn score_run_reports_per_run_delta() {
    let run = vec![
        entry("a", "FAIL", vec![sub("s1", "PASS"), sub("s2", "FAIL")]),
        entry("c", "PASS", vec![]),
    ];
    let mut observer = SilentObserver;
    let delta = score_run(&run, &ids(&["a", "b"]), &ids(&[]), &mut observer);
    assert_eq!(delta.score, 250);
    assert_eq!(delta.unexpected_not_ok, vec!["a".to_string()]);
    assert_eq!(delta.pass_counts.len(), 1);
    assert_eq!(delta.pass_counts[0].test_id, "a".to_string());
    assert_eq!(delta.pass_counts[0].passes, 1);
    assert_eq!(delta.pass_counts[0].total, 2);
}

#[test]
fn pass_count_history_starts_empty() {
    let count = PassCount::new();
    assert!(count.passes.is_empty());
    assert!(count.total.is_empty());
}
