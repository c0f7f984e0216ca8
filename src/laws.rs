//! Laws that relate the plan of a run, the tests of the tree and the
//! aggregated counts.
use vstd::prelude::*;
use crate::suite::{Assertion, AssertionResult, TestSuite, leaves, leaves_all};
use crate::runners::{StepView, steps, steps_all, passed_count, failed_count};

verus! {

/// Number of steps that are tests.
pub open spec fn test_step_count(s: Seq<StepView>) -> nat
    decreases s.len(),
{
    if s.len() == 0 {
        0
    } else {
        test_step_count(s.drop_last()) + if s.last().is_test {
            1nat
        } else {
            0nat
        }
    }
}

pub proof fn lemma_test_step_count_concat(a: Seq<StepView>, b: Seq<StepView>)
    ensures
        test_step_count(a + b) == test_step_count(a) + test_step_count(b),
    decreases b.len(),
{
    if b.len() == 0 {
        assert(a + b =~= a);
    } else {
        lemma_test_step_count_concat(a, b.drop_last());
        assert((a + b).drop_last() =~= a + b.drop_last());
    }
}

pub proof fn lemma_steps_count(s: TestSuite, indent: nat, max: nat)
    ensures
        test_step_count(steps(s, indent, max)) == leaves(s).len(),
    decreases s,
{
    match s {
        TestSuite::Test(_, _) => {
            let v = steps(s, indent, max);
            assert(v.drop_last() =~= Seq::<StepView>::empty());
            assert(test_step_count(v.drop_last()) == 0);
            assert(v.last().is_test);
        },
        TestSuite::TestGroup(name, children) => {
            let head = seq![
                StepView { text: crate::text::spaces(indent) + name@, indent, is_test: false, pad: 0 },
            ];
            assert(head.drop_last() =~= Seq::<StepView>::empty());
            assert(test_step_count(head.drop_last()) == 0);
            lemma_steps_all_count(children@, indent + 2, max);
            lemma_test_step_count_concat(head, steps_all(children@, indent + 2, max));
        },
    }
}

pub proof fn lemma_steps_all_count(children: Seq<TestSuite>, indent: nat, max: nat)
    ensures
        test_step_count(steps_all(children, indent, max)) == leaves_all(children).len(),
    decreases children,
{
    if children.len() > 0 {
        lemma_steps_all_count(children.drop_last(), indent, max);
        lemma_steps_count(children.last(), indent, max);
        lemma_test_step_count_concat(
            steps_all(children.drop_last(), indent, max),
            steps(children.last(), indent, max),
        );
    }
}

/// Each outcome counts as passed or as failed, never both.
pub proof fn lemma_passed_failed(outcomes: Seq<(AssertionResult, u128)>)
    ensures
        passed_count(outcomes) + failed_count(outcomes) == outcomes.len(),
    decreases outcomes.len(),
{
    if outcomes.len() > 0 {
        lemma_passed_failed(outcomes.drop_last());
    }
}

/// A run that records one outcome per test step of the plan counts exactly
/// the tests of the tree, groups never, and each of them once, as passed or
/// as failed.
pub proof fn law_counts(suite: TestSuite, max: nat, outcomes: Seq<(AssertionResult, u128)>)
    requires
        outcomes.len() == test_step_count(steps(suite, 0, max)),
    ensures
        outcomes.len() == leaves(suite).len(),
        passed_count(outcomes) + failed_count(outcomes) == outcomes.len(),
{
    lemma_steps_count(suite, 0, max);
    lemma_passed_failed(outcomes);
}

/// One more test whose body completed adds one to the passed count and
/// leaves the failed count as it was.
pub proof fn law_success_counts(outcomes: Seq<(AssertionResult, u128)>, elapsed: u128)
    ensures
        passed_count(outcomes.push((AssertionResult::Success(), elapsed))) == passed_count(
            outcomes,
        ) + 1,
        failed_count(outcomes.push((AssertionResult::Success(), elapsed))) == failed_count(
            outcomes,
        ),
{
    assert(outcomes.push((AssertionResult::Success(), elapsed)).drop_last() =~= outcomes);
}

/// One more test whose body failed adds one to the failed count and leaves
/// the passed count as it was.
pub proof fn law_failure_counts(
    outcomes: Seq<(AssertionResult, u128)>,
    message: String,
    elapsed: u128,
)
    ensures
        failed_count(outcomes.push((AssertionResult::Failure(message), elapsed))) == failed_count(
            outcomes,
        ) + 1,
        passed_count(outcomes.push((AssertionResult::Failure(message), elapsed))) == passed_count(
            outcomes,
        ),
{
    assert(outcomes.push((AssertionResult::Failure(message), elapsed)).drop_last() =~= outcomes);
}

/// Two runs whose tests pass and fail alike give the same counts, whatever
/// their timings; when no test fails, every test counts as passed.
pub proof fn law_counts_deterministic(
    first: Seq<(AssertionResult, u128)>,
    second: Seq<(AssertionResult, u128)>,
)
    requires
        first.len() == second.len(),
        forall|i: int|
            0 <= i < first.len() ==> (#[trigger] first[i].0 is Success <==> second[i].0 is Success),
    ensures
        passed_count(first) == passed_count(second),
        failed_count(first) == failed_count(second),
        (forall|i: int| 0 <= i < first.len() ==> #[trigger] first[i].0 is Success) ==> (
        passed_count(first) == first.len() && failed_count(first) == 0),
    decreases first.len(),
{
    lemma_passed_failed(first);
    if first.len() > 0 {
        let (a, b) = (first.drop_last(), second.drop_last());
        assert forall|i: int| 0 <= i < a.len() implies (#[trigger] a[i].0 is Success <==> b[i].0
            is Success) by {
            assert(a[i] == first[i] && b[i] == second[i]);
        }
        law_counts_deterministic(a, b);
        assert(first.last() == first[first.len() - 1]);
        assert(second.last() == second[second.len() - 1]);
        if forall|i: int| 0 <= i < first.len() ==> #[trigger] first[i].0 is Success {
            assert forall|i: int| 0 <= i < a.len() implies #[trigger] a[i].0 is Success by {
                assert(a[i] == first[i]);
            }
        }
    }
}

/// Tests are visited in pre-order: in a group `[A, B]` whose first child is
/// a group `[A1, A2]`, the steps are the two group headers, then `A1`,
/// `A2` and `B`, and the test bodies come in the order `A1`, `A2`, `B`.
pub proof fn law_preorder(
    suite: TestSuite,
    outer: Vec<TestSuite>,
    inner: Vec<TestSuite>,
    group: String,
    sub: String,
    first: (String, Assertion),
    second: (String, Assertion),
    last: (String, Assertion),
    max: nat,
)
    requires
        inner@ == seq![
            TestSuite::Test(first.0, first.1),
            TestSuite::Test(second.0, second.1),
        ],
        outer@ == seq![TestSuite::TestGroup(sub, inner), TestSuite::Test(last.0, last.1)],
        suite == TestSuite::TestGroup(group, outer),
    ensures
        leaves(suite) == seq![first.1, second.1, last.1],
        steps(suite, 0, max) == seq![
            StepView { text: crate::text::spaces(0) + group@, indent: 0, is_test: false, pad: 0 },
            StepView { text: crate::text::spaces(2) + sub@, indent: 2, is_test: false, pad: 0 },
        ] + steps(TestSuite::Test(first.0, first.1), 4, max) + steps(
            TestSuite::Test(second.0, second.1),
            4,
            max,
        ) + steps(TestSuite::Test(last.0, last.1), 2, max),
{
    let a1 = TestSuite::Test(first.0, first.1);
    let a2 = TestSuite::Test(second.0, second.1);
    let b = TestSuite::Test(last.0, last.1);
    let a = TestSuite::TestGroup(sub, inner);
    assert(inner@.drop_last() =~= seq![a1]);
    assert(seq![a1].drop_last() =~= Seq::<TestSuite>::empty());
    assert(outer@.drop_last() =~= seq![a]);
    assert(seq![a].drop_last() =~= Seq::<TestSuite>::empty());
    assert(leaves_all(Seq::<TestSuite>::empty()) == Seq::<Assertion>::empty());
    assert(seq![a1].last() == a1);
    assert(leaves(a1) == seq![first.1]);
    assert(leaves(a2) == seq![second.1]);
    assert(leaves(b) == seq![last.1]);
    assert(seq![a].last() == a);
    assert(leaves_all(seq![a1]) =~= seq![first.1]);
    assert(inner@.last() == a2);
    assert(leaves_all(inner@) =~= seq![first.1, second.1]);
    assert(leaves(a) == leaves_all(inner@));
    assert(leaves_all(seq![a]) =~= seq![first.1, second.1]);
    assert(outer@.last() == b);
    assert(leaves(suite) =~= seq![first.1, second.1, last.1]);
    assert(steps_all(Seq::<TestSuite>::empty(), 4, max) == Seq::<StepView>::empty());
    assert(steps_all(Seq::<TestSuite>::empty(), 2, max) == Seq::<StepView>::empty());
    assert(steps_all(seq![a1], 4, max) =~= steps(a1, 4, max));
    assert(steps_all(inner@, 4, max) =~= steps(a1, 4, max) + steps(a2, 4, max));
    assert(steps_all(seq![a], 2, max) =~= steps(a, 2, max));
    assert(steps(suite, 0, max) =~= seq![
        StepView { text: crate::text::spaces(0) + group@, indent: 0, is_test: false, pad: 0 },
        StepView { text: crate::text::spaces(2) + sub@, indent: 2, is_test: false, pad: 0 },
    ] + steps(a1, 4, max) + steps(a2, 4, max) + steps(b, 2, max));
}

} // verus!
