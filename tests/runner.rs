use rastylib::runners::{ReportLine, Step, Style, TestRunner};
use rastylib::suite::{Assertion, AssertionResult, Body, TestSuite};
use rastylib::text::{push_decimal, push_seconds, spaces_string, split_lines};
use rastylib::TestRunResult;

struct Pass;

impl Body for Pass {
    fn check(&self) -> AssertionResult {
        AssertionResult::Success()
    }
}

struct Fail(&'static str);

impl Body for Fail {
    fn check(&self) -> AssertionResult {
        AssertionResult::from_payload(Some(self.0), None)
    }
}

fn passing(name: &str) -> TestSuite {
    TestSuite::Test(name.to_string(), Assertion { f: Box::new(Pass) })
}

fn failing(name: &str, message: &'static str) -> TestSuite {
    TestSuite::Test(name.to_string(), Assertion { f: Box::new(Fail(message)) })
}

fn group(name: &str, children: Vec<TestSuite>) -> TestSuite {
    TestSuite::TestGroup(name.to_string(), children)
}

/// Runs every test of `suite` in plan order, with a fixed elapsed time each.
fn run_all(suite: &TestSuite, elapsed: u128) -> (Vec<Step>, Vec<(AssertionResult, u128)>) {
    let runner = TestRunner::new();
    let plan = runner.plan(suite);
    let mut outcomes = Vec::new();
    let mut k = 0usize;
    for step in &plan {
        if step.is_test {
            let assertion = match suite.leaf_at(k) {
                Ok(a) => a,
                Err(_) => panic!("plan names more tests than the tree holds"),
            };
            outcomes.push((assertion.run(), elapsed));
            k += 1;
        }
    }
    assert!(suite.leaf_at(k).is_err());
    (plan, outcomes)
}

fn texts(lines: &[ReportLine]) -> Vec<String> {
    lines.iter().map(|l| l.text.clone()).collect()
}

#[test]
fn max_offset_of_deepest_leaf() {
    let suite = group("Outer", vec![group("Inner", vec![passing("X")])]);
    assert!(suite.fits_at(0));
    assert_eq!(TestRunner::new().get_max_offset(&suite), 5);
}

#[test]
fn max_offset_of_single_leaf() {
    let suite = passing("LongerName");
    assert_eq!(TestRunner::new().get_max_offset(&suite), 10);
}

#[test]
fn max_offset_of_empty_group_is_zero() {
    let suite = group("Empty", vec![]);
    assert_eq!(TestRunner::new().get_max_offset(&suite), 0);
}

#[test]
fn max_offset_counts_characters() {
    let suite = group("G", vec![passing("héllo"), passing("ab")]);
    assert_eq!(TestRunner::new().get_max_offset(&suite), 7);
}

#[test]
fn math_group_scenario() {
    let suite = group("Math", vec![passing("adds"), failing("divides", "division by zero")]);
    let runner = TestRunner::new();
    let (plan, outcomes) = run_all(&suite, 0);
    let labels: Vec<&str> = plan.iter().map(|s| s.text.as_str()).collect();
    assert_eq!(labels, vec!["Math", "  adds:", "  divides:"]);
    let result = runner.summarize(&outcomes);
    assert_eq!(result.total, 2);
    assert_eq!(result.passed, 1);
    assert_eq!(result.failed, 1);

    let ok = runner.test_report(&plan[1], &outcomes[0].0, outcomes[0].1);
    assert_eq!(texts(&ok), vec!["    OK (0.00s)"]);
    assert_eq!(ok[0].style, Style::Success);

    let fail = runner.test_report(&plan[2], &outcomes[1].0, outcomes[1].1);
    assert_eq!(texts(&fail), vec![" FAIL (0.00s)", "    division by zero"]);
    assert_eq!(fail[0].style, Style::FailureBold);
    assert_eq!(fail[1].style, Style::Failure);

    let summary = result.summary();
    assert_eq!(summary.text, "1 out of 2 tests failed (0.00s)");
    assert_eq!(summary.style, Style::FailureBold);
}

#[test]
fn empty_group_scenario() {
    let suite = group("Empty", vec![]);
    let runner = TestRunner::new();
    let (plan, outcomes) = run_all(&suite, 0);
    assert_eq!(plan.len(), 1);
    assert_eq!(plan[0].text, "Empty");
    assert!(!plan[0].is_test);
    let result = runner.summarize(&outcomes);
    assert_eq!((result.total, result.passed, result.failed, result.duration), (0, 0, 0, 0));
    let summary = result.summary();
    assert_eq!(summary.text, "All 0 tests passed (0.00s)");
    assert_eq!(summary.style, Style::Success);
}

#[test]
fn nesting_order_is_preorder() {
    let suite = group(
        "Top",
        vec![group("A", vec![passing("A1"), passing("A2")]), failing("B", "no")],
    );
    let (plan, outcomes) = run_all(&suite, 0);
    let labels: Vec<&str> = plan.iter().map(|s| s.text.as_str()).collect();
    assert_eq!(labels, vec!["Top", "  A", "    A1:", "    A2:", "  B:"]);
    let indents: Vec<usize> = plan.iter().map(|s| s.indent).collect();
    assert_eq!(indents, vec![0, 2, 4, 4, 2]);
    let pads: Vec<usize> = plan.iter().map(|s| s.pad).collect();
    assert_eq!(pads, vec![0, 0, 1, 1, 4]);
    let kinds: Vec<bool> = outcomes.iter().map(|o| o.0.is_success()).collect();
    assert_eq!(kinds, vec![true, true, false]);
}

#[test]
fn result_columns_line_up() {
    let suite = group("G", vec![passing("short"), group("H", vec![passing("a much longer name")])]);
    let runner = TestRunner::new();
    let max = runner.get_max_offset(&suite);
    assert_eq!(max, 22);
    for step in runner.plan(&suite).iter().filter(|s| s.is_test) {
        assert_eq!(step.text.chars().count() + step.pad, max + 2);
    }
}

#[test]
fn success_counts_as_passed() {
    let r = AssertionResult::Success();
    assert!(r.is_success());
    let runner = TestRunner::new();
    let result = runner.summarize(&vec![(AssertionResult::Success(), 10)]);
    assert_eq!((result.total, result.passed, result.failed), (1, 1, 0));
}

#[test]
fn failure_counts_as_failed() {
    let r = AssertionResult::Failure("bad".to_string());
    assert!(!r.is_success());
    let runner = TestRunner::new();
    let result = runner.summarize(&vec![(r, 10)]);
    assert_eq!((result.total, result.passed, result.failed), (1, 0, 1));
}

#[test]
fn payload_str_message_is_kept() {
    let owned = "other".to_string();
    match AssertionResult::from_payload(Some("division by zero"), Some(&owned)) {
        AssertionResult::Failure(m) => assert_eq!(m, "division by zero"),
        AssertionResult::Success() => panic!("expected a failure"),
    }
}

#[test]
fn payload_string_message_is_kept() {
    let owned = "index out of range".to_string();
    match AssertionResult::from_payload(None, Some(&owned)) {
        AssertionResult::Failure(m) => assert_eq!(m, "index out of range"),
        AssertionResult::Success() => panic!("expected a failure"),
    }
}

#[test]
fn payload_without_message_uses_fallback() {
    match AssertionResult::from_payload(None, None) {
        AssertionResult::Failure(m) => assert_eq!(m, "Something terrible has happened"),
        AssertionResult::Success() => panic!("expected a failure"),
    }
}

#[test]
fn duration_is_sum_of_elapsed() {
    let runner = TestRunner::new();
    let outcomes = vec![
        (AssertionResult::Success(), 1_500_000_000u128),
        (AssertionResult::Success(), 250_000_000u128),
    ];
    let result = runner.summarize(&outcomes);
    assert_eq!(result.duration, 1_750_000_000);
    assert_eq!(result.summary().text, "All 2 tests passed (1.75s)");
}

#[test]
fn counts_repeat_across_runs() {
    let suite = group("Calc", vec![passing("add"), passing("sub"), passing("mul")]);
    let runner = TestRunner::new();
    let (_, first) = run_all(&suite, 3_000_000);
    let (_, second) = run_all(&suite, 9_000_000);
    let a = runner.summarize(&first);
    let b = runner.summarize(&second);
    assert_eq!((a.total, a.passed, a.failed), (b.total, b.passed, b.failed));
    assert_eq!((a.total, a.passed, a.failed), (3, 3, 0));
    assert_ne!(a.duration, b.duration);
}

#[test]
fn total_counts_only_tests() {
    let suite = group(
        "Top",
        vec![group("Empty", vec![]), group("One", vec![failing("f", "x")]), passing("p")],
    );
    let runner = TestRunner::new();
    let (_, outcomes) = run_all(&suite, 0);
    let result = runner.summarize(&outcomes);
    assert_eq!((result.total, result.passed, result.failed), (2, 1, 1));
}

#[test]
fn multi_line_failure_message() {
    let runner = TestRunner::new();
    let step = Step { text: "    t:".to_string(), indent: 4, is_test: true, pad: 2 };
    let result = AssertionResult::Failure("left: 1\nright: 2".to_string());
    let lines = runner.test_report(&step, &result, 1_234_000_000);
    assert_eq!(
        texts(&lines),
        vec!["  FAIL (1.23s)", "      left: 1", "      right: 2"]
    );
}

#[test]
fn leaf_at_past_the_end() {
    let suite = group("G", vec![passing("a"), passing("b")]);
    assert!(suite.leaf_at(1).is_ok());
    match suite.leaf_at(5) {
        Err(rest) => assert_eq!(rest, 3),
        Ok(_) => panic!("expected no test at position 5"),
    }
}

#[test]
fn seconds_are_rounded_to_hundredths() {
    let cases: Vec<(u128, &str)> = vec![
        (0, "0.00s"),
        (4_999_999, "0.00s"),
        (5_000_000, "0.01s"),
        (12_345_678_901, "12.35s"),
        (100_000_000_000, "100.00s"),
    ];
    for (nanos, expected) in cases {
        let mut s = String::new();
        push_seconds(&mut s, nanos);
        assert_eq!(s, expected);
    }
}

#[test]
fn decimal_and_spaces() {
    let mut s = "n=".to_string();
    push_decimal(&mut s, 9071);
    assert_eq!(s, "n=9071");
    assert_eq!(spaces_string(3), "   ");
    assert_eq!(spaces_string(0), "");
}

#[test]
fn split_on_newlines() {
    assert_eq!(split_lines("a\nb"), vec!["a", "b"]);
    assert_eq!(split_lines(""), vec![""]);
    assert_eq!(split_lines("a\n"), vec!["a", ""]);
    assert_eq!(split_lines("\n\nx"), vec!["", "", "x"]);
}
