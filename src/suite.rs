//! The tree of tests and groups, and the outcome of a single test.
use vstd::prelude::*;
use vstd::string::*;

verus! {

/// Text of the failure recorded when a test body fails without a message.
pub open spec fn fallback_message() -> Seq<char> {
    "Something terrible has happened"@
}

/// Outcome of running one test body.
#[derive(Debug, Clone)]
pub enum AssertionResult {
    Success(),
    Failure(String),
}

impl AssertionResult {
    pub fn is_success(&self) -> (r: bool)
        ensures
            r == (self is Success),
    {
        match self {
            AssertionResult::Success() => true,
            AssertionResult::Failure(_) => false,
        }
    }

    /// The failure recorded for a test body that stopped abruptly: its
    /// message when the payload was a string slice, else when it was an
    /// owned string, else a fixed fallback text.
    pub fn from_payload(as_str: Option<&str>, as_string: Option<&String>) -> (r: AssertionResult)
        ensures
            r matches AssertionResult::Failure(m) && m@ == match (as_str, as_string) {
                (Some(s), _) => s@,
                (None, Some(t)) => t@,
                (None, None) => fallback_message(),
            },
    {
        match as_str {
            Some(s) => AssertionResult::Failure(String::from_str(s)),
            None => match as_string {
                Some(t) => AssertionResult::Failure(t.clone()),
                None => {
                    let fallback = "Something terrible has happened";
                    AssertionResult::Failure(String::from_str(fallback))
                },
            },
        }
    }
}

/// The body of a test: invoked once per run, it reports its own outcome.
pub trait Body {
    fn check(&self) -> AssertionResult;
}

/// A deferred test body, owned by the test that holds it.
pub struct Assertion {
    pub f: Box<dyn Body>,
}

impl Assertion {
    pub fn run(&self) -> AssertionResult {
        self.f.check()
    }
}

/// A tree node: a named test, or a named group of ordered children.
pub enum TestSuite {
    Test(String, Assertion),
    TestGroup(String, Vec<TestSuite>),
}

pub open spec fn max_int(a: int, b: int) -> int {
    if a >= b { a } else { b }
}

/// Widest `indent + name length` over the leaves of `s`, placed at `indent`;
/// a group without leaves contributes 0.
pub open spec fn max_offset(s: TestSuite, indent: int) -> int
    decreases s,
{
    match s {
        TestSuite::Test(name, _) => indent + name@.len(),
        TestSuite::TestGroup(_, children) => max_offset_all(children@, indent + 2),
    }
}

pub open spec fn max_offset_all(children: Seq<TestSuite>, indent: int) -> int
    decreases children,
{
    if children.len() == 0 {
        0
    } else {
        max_int(
            max_offset_all(children.drop_last(), indent),
            max_offset(children.last(), indent),
        )
    }
}

/// Every offset that a run of `s` at `indent` computes, with room for the
/// two columns that separate a test's name from its result, fits in `usize`.
pub open spec fn sized(s: TestSuite, indent: int) -> bool
    decreases s,
{
    match s {
        TestSuite::Test(name, _) => indent + name@.len() + 2 <= usize::MAX,
        TestSuite::TestGroup(_, children) => indent + 2 <= usize::MAX && sized_all(
            children@,
            indent + 2,
        ),
    }
}

pub open spec fn sized_all(children: Seq<TestSuite>, indent: int) -> bool
    decreases children,
{
    children.len() == 0 || (sized_all(children.drop_last(), indent) && sized(
        children.last(),
        indent,
    ))
}

pub proof fn lemma_sized_all(children: Seq<TestSuite>, indent: int, i: int)
    requires
        sized_all(children, indent),
        0 <= i < children.len(),
    ensures
        sized(children[i], indent),
    decreases children.len(),
{
    if i < children.len() - 1 {
        lemma_sized_all(children.drop_last(), indent, i);
    }
}

/// The test bodies of `s`, in pre-order.
pub open spec fn leaves(s: TestSuite) -> Seq<Assertion>
    decreases s,
{
    match s {
        TestSuite::Test(_, a) => seq![a],
        TestSuite::TestGroup(_, children) => leaves_all(children@),
    }
}

pub open spec fn leaves_all(children: Seq<TestSuite>) -> Seq<Assertion>
    decreases children,
{
    if children.len() == 0 {
        seq![]
    } else {
        leaves_all(children.drop_last()) + leaves(children.last())
    }
}

pub proof fn lemma_leaves_all_concat(a: Seq<TestSuite>, b: Seq<TestSuite>)
    ensures
        leaves_all(a + b) == leaves_all(a) + leaves_all(b),
    decreases b.len(),
{
    if b.len() == 0 {
        assert(a + b =~= a);
        assert(leaves_all(a) + leaves_all(b) =~= leaves_all(a));
    } else {
        lemma_leaves_all_concat(a, b.drop_last());
        assert((a + b).drop_last() =~= a + b.drop_last());
        assert((a + b).last() == b.last());
        assert(leaves_all(a + b) =~= leaves_all(a) + leaves_all(b));
    }
}

pub proof fn lemma_max_offset_take(children: Seq<TestSuite>, i: int, indent: int)
    requires
        0 <= i < children.len(),
    ensures
        max_offset_all(children.take(i + 1), indent) == max_int(
            max_offset_all(children.take(i), indent),
            max_offset(children[i], indent),
        ),
{
    assert(children.take(i + 1).drop_last() =~= children.take(i));
}

pub proof fn lemma_leaves_take(children: Seq<TestSuite>, i: int)
    requires
        0 <= i < children.len(),
    ensures
        leaves_all(children.take(i + 1)) == leaves_all(children.take(i)) + leaves(children[i]),
        leaves_all(children) == leaves_all(children.take(i + 1)) + leaves_all(
            children.skip(i + 1),
        ),
{
    assert(children.take(i + 1).drop_last() =~= children.take(i));
    lemma_leaves_all_concat(children.take(i + 1), children.skip(i + 1));
    assert(children.take(i + 1) + children.skip(i + 1) =~= children);
}

impl TestSuite {
    /// Widest `indent + name length` over the leaves, placed at `indent`.
    pub fn max_offset_at(&self, indent: usize) -> (r: usize)
        requires
            sized(*self, indent as int),
        ensures
            r == max_offset(*self, indent as int),
            r + 2 <= usize::MAX,
        decreases self,
    {
        match self {
            TestSuite::Test(name, _) => indent + name.as_str().unicode_len(),
            TestSuite::TestGroup(name, children) => {
                let mut best: usize = 0;
                let mut i: usize = 0;
                while i < children.len()
                    invariant
                        i <= children.len(),
                        *self == TestSuite::TestGroup(*name, *children),
                        indent + 2 <= usize::MAX,
                        best + 2 <= usize::MAX,
                        best == max_offset_all(children@.take(i as int), indent + 2),
                        sized_all(children@, indent + 2),
                    decreases children.len() - i,
                {
                    proof {
                        lemma_max_offset_take(children@, i as int, indent + 2);
                        lemma_sized_all(children@, indent + 2, i as int);
                        assert(decreases_to!(*self => self->TestGroup_1));
                        assert(decreases_to!(self->TestGroup_1 => children[i as int]));
                    }
                    let w = children[i].max_offset_at(indent + 2);
                    if w > best {
                        best = w;
                    }
                    i += 1;
                }
                assert(children@.take(children.len() as int) =~= children@);
                best
            },
        }
    }

    /// Whether every offset that a run of this tree at `indent` computes fits in `usize`.
    pub fn fits_at(&self, indent: usize) -> (r: bool)
        ensures
            r == sized(*self, indent as int),
        decreases self,
    {
        match self {
            TestSuite::Test(name, _) => {
                let len = name.as_str().unicode_len();
                len <= usize::MAX - 2 && indent <= usize::MAX - 2 - len
            },
            TestSuite::TestGroup(name, children) => {
                if indent > usize::MAX - 2 {
                    return false;
                }
                let mut i: usize = 0;
                while i < children.len()
                    invariant
                        i <= children.len(),
                        *self == TestSuite::TestGroup(*name, *children),
                        indent + 2 <= usize::MAX,
                        sized_all(children@.take(i as int), indent + 2),
                    decreases children.len() - i,
                {
                    proof {
                        assert(children@.take(i + 1).drop_last() =~= children@.take(i as int));
                        assert(decreases_to!(*self => self->TestGroup_1));
                        assert(decreases_to!(self->TestGroup_1 => children[i as int]));
                    }
                    if !children[i].fits_at(indent + 2) {
                        proof {
                            if sized_all(children@, indent + 2) {
                                lemma_sized_all(children@, indent + 2, i as int);
                            }
                        }
                        return false;
                    }
                    i += 1;
                }
                assert(children@.take(children.len() as int) =~= children@);
                true
            },
        }
    }

    /// The test body at position `k` of the pre-order, or, when there are
    /// not that many tests, `k` less the number of tests.
    pub fn leaf_at(&self, k: usize) -> (r: Result<&Assertion, usize>)
        ensures
            k < leaves(*self).len() ==> (r matches Ok(a) && *a == leaves(*self)[k as int]),
            k >= leaves(*self).len() ==> r == Err::<&Assertion, usize>(
                (k - leaves(*self).len()) as usize,
            ),
        decreases self,
    {
        match self {
            TestSuite::Test(_, a) => {
                if k == 0 {
                    Ok(a)
                } else {
                    Err(k - 1)
                }
            },
            TestSuite::TestGroup(name, children) => {
                let mut rest: usize = k;
                let mut i: usize = 0;
                while i < children.len()
                    invariant
                        i <= children.len(),
                        *self == TestSuite::TestGroup(*name, *children),
                        rest + leaves_all(children@.take(i as int)).len() == k,
                    decreases children.len() - i,
                {
                    proof {
                        lemma_leaves_take(children@, i as int);
                        assert(decreases_to!(*self => self->TestGroup_1));
                        assert(decreases_to!(self->TestGroup_1 => children[i as int]));
                    }
                    match children[i].leaf_at(rest) {
                        Ok(a) => {
                            return Ok(a);
                        },
                        Err(r) => {
                            rest = r;
                        },
                    }
                    i += 1;
                }
                assert(children@.take(children.len() as int) =~= children@);
                Err(rest)
            },
        }
    }
}

} // verus!
