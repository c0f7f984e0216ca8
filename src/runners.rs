//! Planning, reporting and aggregating a run over a tree of tests.
use vstd::prelude::*;
use vstd::string::*;
use crate::suite::{
    AssertionResult, TestSuite, max_offset, max_offset_all, sized, sized_all, lemma_sized_all,
};
use crate::text::{
    spaces, decimal, seconds_text, lines_of, spaces_string, push_decimal, push_seconds,
    split_lines,
};

verus! {

/// How a line of the report is styled on the console; group headers and
/// test labels are printed unstyled.
#[derive(PartialEq, Eq, Structural, Clone, Copy, Debug)]
pub enum Style {
    Success,
    Failure,
    FailureBold,
}

/// One line of the report, without its line break.
pub struct ReportLine {
    pub text: String,
    pub style: Style,
}

impl View for ReportLine {
    type V = (Seq<char>, Style);

    open spec fn view(&self) -> (Seq<char>, Style) {
        (self.text@, self.style)
    }
}

/// One node of the tree as the report shows it, in pre-order: a group's
/// header line, or a test's label (indent, name and colon), printed before
/// the test runs and followed by `pad` spaces and its result.
pub struct Step {
    pub text: String,
    pub indent: usize,
    pub is_test: bool,
    pub pad: usize,
}

pub struct StepView {
    pub text: Seq<char>,
    pub indent: nat,
    pub is_test: bool,
    pub pad: nat,
}

impl View for Step {
    type V = StepView;

    open spec fn view(&self) -> StepView {
        StepView {
            text: self.text@,
            indent: self.indent as nat,
            is_test: self.is_test,
            pad: self.pad as nat,
        }
    }
}

pub open spec fn step_views(steps: Seq<Step>) -> Seq<StepView> {
    steps.map_values(|t: Step| t@)
}

/// The steps of `s` placed at `indent`, with result columns aligned at `max + 2`.
pub open spec fn steps(s: TestSuite, indent: nat, max: nat) -> Seq<StepView>
    decreases s,
{
    match s {
        TestSuite::Test(name, _) => seq![
            StepView {
                text: spaces(indent) + name@ + seq![':'],
                indent,
                is_test: true,
                pad: (max + 2 - (indent + name@.len() + 1)) as nat,
            },
        ],
        TestSuite::TestGroup(name, children) => seq![
            StepView { text: spaces(indent) + name@, indent, is_test: false, pad: 0 },
        ] + steps_all(children@, indent + 2, max),
    }
}

pub open spec fn steps_all(children: Seq<TestSuite>, indent: nat, max: nat) -> Seq<StepView>
    decreases children,
{
    if children.len() == 0 {
        seq![]
    } else {
        steps_all(children.drop_last(), indent, max) + steps(children.last(), indent, max)
    }
}

pub proof fn lemma_max_offset_all_bound(children: Seq<TestSuite>, indent: int, i: int)
    requires
        0 <= i < children.len(),
    ensures
        max_offset_all(children, indent) >= max_offset(children[i], indent),
    decreases children.len(),
{
    if i < children.len() - 1 {
        lemma_max_offset_all_bound(children.drop_last(), indent, i);
    }
}

/// Text of a test's result: the padding, the verdict and the elapsed time.
pub open spec fn result_text(pad: nat, ok: bool, nanos: nat) -> Seq<char> {
    spaces(pad) + (if ok {
        "OK ("@
    } else {
        "FAIL ("@
    }) + seconds_text(nanos) + ")"@
}

/// The lines printed after a test's label once its outcome is known.
pub open spec fn test_report_lines(step: StepView, result: AssertionResult, nanos: nat) -> Seq<
    (Seq<char>, Style),
> {
    match result {
        AssertionResult::Success() => seq![(result_text(step.pad, true, nanos), Style::Success)],
        AssertionResult::Failure(m) => seq![
            (result_text(step.pad, false, nanos), Style::FailureBold),
        ] + lines_of(m@).map_values(
            |l: Seq<char>| (spaces(step.indent + 2) + l, Style::Failure),
        ),
    }
}

pub open spec fn passed_count(outcomes: Seq<(AssertionResult, u128)>) -> nat
    decreases outcomes.len(),
{
    if outcomes.len() == 0 {
        0
    } else {
        passed_count(outcomes.drop_last()) + if outcomes.last().0 is Success {
            1nat
        } else {
            0nat
        }
    }
}

pub open spec fn failed_count(outcomes: Seq<(AssertionResult, u128)>) -> nat
    decreases outcomes.len(),
{
    if outcomes.len() == 0 {
        0
    } else {
        failed_count(outcomes.drop_last()) + if outcomes.last().0 is Failure {
            1nat
        } else {
            0nat
        }
    }
}

/// Sum of the elapsed nanoseconds of all outcomes.
pub open spec fn elapsed_total(outcomes: Seq<(AssertionResult, u128)>) -> nat
    decreases outcomes.len(),
{
    if outcomes.len() == 0 {
        0
    } else {
        elapsed_total(outcomes.drop_last()) + outcomes.last().1 as nat
    }
}

/// Summary of a run; `duration` is in nanoseconds.
pub struct TestRunResult {
    pub duration: u128,
    pub total: usize,
    pub passed: usize,
    pub failed: usize,
}

/// The closing line of the report.
pub open spec fn summary_line(r: TestRunResult) -> (Seq<char>, Style) {
    if r.failed == 0 {
        (
            "All "@ + decimal(r.total as nat) + " tests passed ("@ + seconds_text(
                r.duration as nat,
            ) + ")"@,
            Style::Success,
        )
    } else {
        (
            decimal(r.failed as nat) + " out of "@ + decimal(r.total as nat) + " tests failed ("@
                + seconds_text(r.duration as nat) + ")"@,
            Style::FailureBold,
        )
    }
}

impl TestRunResult {
    pub fn summary(&self) -> (r: ReportLine)
        ensures
            r@ == summary_line(*self),
    {
        let mut text = String::new();
        if self.failed == 0 {
            text.append("All ");
            push_decimal(&mut text, self.total as u128);
            text.append(" tests passed (");
            push_seconds(&mut text, self.duration);
            text.append(")");
            assert(text@ =~= summary_line(*self).0);
            ReportLine { text, style: Style::Success }
        } else {
            push_decimal(&mut text, self.failed as u128);
            text.append(" out of ");
            push_decimal(&mut text, self.total as u128);
            text.append(" tests failed (");
            push_seconds(&mut text, self.duration);
            text.append(")");
            assert(text@ =~= summary_line(*self).0);
            ReportLine { text, style: Style::FailureBold }
        }
    }
}

/// Plans, reports and aggregates runs; it keeps no state between runs.
pub struct TestRunner {}

impl TestRunner {
    pub fn new() -> TestRunner {
        TestRunner {  }
    }

    /// Widest `indent + name length` over all tests of `suite`, with the
    /// top level at indent 0 and each level of nesting two columns further.
    pub fn get_max_offset(&self, suite: &TestSuite) -> (r: usize)
        requires
            sized(*suite, 0),
        ensures
            r == max_offset(*suite, 0),
            r + 2 <= usize::MAX,
    {
        suite.max_offset_at(0)
    }

    /// The steps of `suite` in pre-order, with every result column at
    /// `get_max_offset(suite) + 2`.
    pub fn plan(&self, suite: &TestSuite) -> (r: Vec<Step>)
        requires
            sized(*suite, 0),
        ensures
            step_views(r@) == steps(*suite, 0, max_offset(*suite, 0) as nat),
    {
        let max = self.get_max_offset(suite);
        let mut out: Vec<Step> = Vec::new();
        plan_into(suite, 0, max, &mut out);
        assert(step_views(out@) =~= steps(*suite, 0, max as nat));
        out
    }

    /// The lines that follow the label of a test of step `step` whose body
    /// gave `result` after `elapsed` nanoseconds.
    pub fn test_report(&self, step: &Step, result: &AssertionResult, elapsed: u128) -> (r: Vec<
        ReportLine,
    >)
        requires
            step.indent + 2 <= usize::MAX,
        ensures
            r@.map_values(|l: ReportLine| l@) == test_report_lines(
                step@,
                *result,
                elapsed as nat,
            ),
    {
        let mut head = spaces_string(step.pad);
        match result {
            AssertionResult::Success() => {
                head.append("OK (");
                push_seconds(&mut head, elapsed);
                head.append(")");
                let mut r: Vec<ReportLine> = Vec::new();
                r.push(ReportLine { text: head, style: Style::Success });
                assert(r@.map_values(|l: ReportLine| l@) =~= test_report_lines(
                    step@,
                    *result,
                    elapsed as nat,
                ));
                r
            },
            AssertionResult::Failure(message) => {
                head.append("FAIL (");
                push_seconds(&mut head, elapsed);
                head.append(")");
                let mut r: Vec<ReportLine> = Vec::new();
                r.push(ReportLine { text: head, style: Style::FailureBold });
                let lines = split_lines(message.as_str());
                let ghost shown = lines_of(message@).map_values(
                    |l: Seq<char>| (spaces(step.indent as nat + 2) + l, Style::Failure),
                );
                let mut i: usize = 0;
                while i < lines.len()
                    invariant
                        i <= lines.len(),
                        step.indent + 2 <= usize::MAX,
                        lines@.map_values(|l: String| l@) == lines_of(message@),
                        shown == lines_of(message@).map_values(
                            |l: Seq<char>| (spaces(step.indent as nat + 2) + l, Style::Failure),
                        ),
                        r@.map_values(|l: ReportLine| l@) == seq![
                            (result_text(step.pad as nat, false, elapsed as nat), Style::FailureBold),
                        ] + shown.take(i as int),
                    decreases lines.len() - i,
                {
                    let mut text = spaces_string(step.indent + 2);
                    text.append(lines[i].as_str());
                    let ghost prev = r@.map_values(|l: ReportLine| l@);
                    proof {
                        assert(lines@.map_values(|l: String| l@)[i as int] == lines@[i as int]@);
                        assert(text@ =~= shown[i as int].0);
                    }
                    let line = ReportLine { text, style: Style::Failure };
                    assert(line@ == shown[i as int]);
                    r.push(line);
                    assert(r@.map_values(|l: ReportLine| l@) =~= prev.push(shown[i as int]));
                    proof {
                        assert(lines@[i as int]@ == lines_of(message@)[i as int]);
                        assert(shown.take(i + 1) =~= shown.take(i as int).push(shown[i as int]));
                    }
                    i += 1;
                    assert(r@.map_values(|l: ReportLine| l@) =~= seq![
                        (result_text(step.pad as nat, false, elapsed as nat), Style::FailureBold),
                    ] + shown.take(i as int));
                }
                assert(shown.take(i as int) =~= shown);
                assert(r@.map_values(|l: ReportLine| l@) =~= test_report_lines(
                    step@,
                    *result,
                    elapsed as nat,
                ));
                r
            },
        }
    }

    /// Reduces the outcome and elapsed nanoseconds of every test of a run.
    pub fn summarize(&self, outcomes: &Vec<(AssertionResult, u128)>) -> (r: TestRunResult)
        requires
            elapsed_total(outcomes@) <= u128::MAX,
        ensures
            r.total == outcomes@.len(),
            r.passed == passed_count(outcomes@),
            r.failed == failed_count(outcomes@),
            r.duration == elapsed_total(outcomes@),
    {
        let mut duration: u128 = 0;
        let mut passed: usize = 0;
        let mut failed: usize = 0;
        let mut i: usize = 0;
        while i < outcomes.len()
            invariant
                i <= outcomes.len(),
                elapsed_total(outcomes@) <= u128::MAX,
                duration == elapsed_total(outcomes@.take(i as int)),
                passed == passed_count(outcomes@.take(i as int)),
                failed == failed_count(outcomes@.take(i as int)),
                passed + failed == i,
            decreases outcomes.len() - i,
        {
            proof {
                let t = outcomes@.take(i + 1);
                assert(t.drop_last() =~= outcomes@.take(i as int));
                lemma_elapsed_prefix(outcomes@, i + 1);
            }
            let (result, elapsed) = &outcomes[i];
            duration = duration + *elapsed;
            if result.is_success() {
                passed = passed + 1;
            } else {
                failed = failed + 1;
            }
            i += 1;
        }
        assert(outcomes@.take(i as int) =~= outcomes@);
        TestRunResult { duration, total: i, passed, failed }
    }
}

pub proof fn lemma_elapsed_prefix(outcomes: Seq<(AssertionResult, u128)>, n: int)
    requires
        0 <= n <= outcomes.len(),
    ensures
        elapsed_total(outcomes.take(n)) <= elapsed_total(outcomes),
    decreases outcomes.len(),
{
    if n < outcomes.len() {
        assert(outcomes.drop_last().take(n) =~= outcomes.take(n));
        lemma_elapsed_prefix(outcomes.drop_last(), n);
    } else {
        assert(outcomes.take(n) =~= outcomes);
    }
}

fn plan_into(s: &TestSuite, indent: usize, max: usize, out: &mut Vec<Step>)
    requires
        sized(*s, indent as int),
        max >= max_offset(*s, indent as int),
        max + 2 <= usize::MAX,
    ensures
        step_views(final(out)@) == step_views(old(out)@) + steps(*s, indent as nat, max as nat),
    decreases s,
{
    match s {
        TestSuite::Test(name, _) => {
            let mut text = spaces_string(indent);
            text.append(name.as_str());
            text.append(":");
            let width = indent + name.as_str().unicode_len();
            let pad = max + 1 - width;
            proof {
                reveal_strlit(":");
                assert(":"@ =~= seq![':']);
                assert(text@ =~= spaces(indent as nat) + name@ + seq![':']);
            }
            let ghost prev = step_views(out@);
            let step = Step { text, indent, is_test: true, pad };
            assert(step@ == steps(*s, indent as nat, max as nat)[0]);
            out.push(step);
            assert(step_views(out@) =~= prev.push(step@));
            assert(step_views(out@) =~= step_views(old(out)@) + steps(
                *s,
                indent as nat,
                max as nat,
            ));
        },
        TestSuite::TestGroup(name, children) => {
            let mut text = spaces_string(indent);
            text.append(name.as_str());
            out.push(Step { text, indent, is_test: false, pad: 0 });
            let ghost head = step_views(out@);
            assert(head =~= step_views(old(out)@) + seq![
                StepView { text: spaces(indent as nat) + name@, indent: indent as nat, is_test: false, pad: 0 },
            ]);
            let mut i: usize = 0;
            while i < children.len()
                invariant
                    i <= children.len(),
                    *s == TestSuite::TestGroup(*name, *children),
                    indent + 2 <= usize::MAX,
                    max + 2 <= usize::MAX,
                    sized_all(children@, indent + 2),
                    max >= max_offset_all(children@, indent + 2),
                    step_views(out@) == head + steps_all(
                        children@.take(i as int),
                        indent as nat + 2,
                        max as nat,
                    ),
                decreases children.len() - i,
            {
                proof {
                    lemma_sized_all(children@, indent + 2, i as int);
                    lemma_max_offset_all_bound(children@, indent + 2, i as int);
                    assert(children@.take(i + 1).drop_last() =~= children@.take(i as int));
                    assert(decreases_to!(*s => s->TestGroup_1));
                    assert(decreases_to!(s->TestGroup_1 => children[i as int]));
                }
                plan_into(&children[i], indent + 2, max, out);
                i += 1;
                assert(step_views(out@) =~= head + steps_all(
                    children@.take(i as int),
                    indent as nat + 2,
                    max as nat,
                ));
            }
            assert(children@.take(children.len() as int) =~= children@);
            assert(step_views(out@) =~= step_views(old(out)@) + steps(
                *s,
                indent as nat,
                max as nat,
            ));
        },
    }
}

} // verus!
