//! The report data model: test cases and suites as decoded from report
//! files, the derived summaries, and the failure classification.
//!
//! A suite's summary is always derived by scanning its cases, never taken
//! from counts embedded in the source document.  Scanning walks the cases
//! once: every case counts towards `tests`; a skipped case counts as
//! `skipped` and nothing else; otherwise a failure payload counts as a
//! failure, and an error payload as an error.  A case that carries more than
//! one outcome payload is resolved by the decoder with the fixed precedence
//! failure, then error, then skipped (see `junit::decode`).

pub mod cli;
pub mod decode;
pub mod display;
pub mod fs;
pub mod sorting;

pub use self::decode::read_suites;
pub use self::sorting::sort_testsuites;

use vstd::prelude::*;
use vstd::seq_lib::lemma_fold_left_permutation;
use vstd::seq_lib::commutative_foldl;
use crate::duration::{clamp_u64, Duration};
use crate::github::GithubEvent;

verus! {

broadcast use vstd::seq_lib::group_filter_ensures;

pub type ReportSorting = cli::ReportSorting;

pub type SortingOrder = cli::SortingOrder;

/// Everything that can go wrong while discovering and decoding reports.
#[derive(Debug, PartialEq, Clone)]
pub enum JunitError {
    /// The input was not a well-formed report document.
    UnparsableXML(String),
    /// A file or directory could not be read or written.
    IoErr(String),
    /// A step was reached that the library's own reasoning rules out.
    InternalError(String),
    /// The report directory pattern is not a valid glob pattern.
    InvalidReportDirPattern(String),
}

/// The payload of a `failure` or `error` element: a short message, the
/// failure kind, and the stack trace given as the element's text body.
#[derive(Debug, PartialEq, Clone)]
pub struct TestFailure {
    pub message: Option<String>,
    pub classname: String,
    pub stack_trace: String,
}

/// Mathematical image of a `TestFailure`.
pub struct TestFailureV {
    pub message: Option<Seq<char>>,
    pub classname: Seq<char>,
    pub stack_trace: Seq<char>,
}

impl View for TestFailure {
    type V = TestFailureV;

    open spec fn view(&self) -> TestFailureV {
        TestFailureV {
            message: match self.message {
                Some(m) => Some(m@),
                None => None,
            },
            classname: self.classname@,
            stack_trace: self.stack_trace@,
        }
    }
}

impl TestFailure {
    /// A field-for-field copy, known to equal the original.
    pub fn duplicate(&self) -> (r: TestFailure)
        ensures
            r == *self,
    {
        TestFailure {
            message: match &self.message {
                Some(m) => Some(m.clone()),
                None => None,
            },
            classname: self.classname.clone(),
            stack_trace: self.stack_trace.clone(),
        }
    }
}

/// Marker payload of an empty `skipped` element.
#[derive(Debug, PartialEq, Eq, Clone, Copy, Structural)]
pub struct TestSkipped {}

/// One test's outcome as reported: name, owning class, duration, and at most
/// one of failure, error or skipped.
#[derive(Debug, PartialEq, Clone)]
pub struct TestCase {
    pub name: String,
    pub classname: String,
    pub time: Duration,
    pub failure: Option<TestFailure>,
    pub error: Option<TestFailure>,
    pub skipped: Option<TestSkipped>,
}

/// Mathematical image of a `TestCase`.
pub struct TestCaseV {
    pub name: Seq<char>,
    pub classname: Seq<char>,
    pub time: Duration,
    pub failure: Option<TestFailureV>,
    pub error: Option<TestFailureV>,
    pub skipped: bool,
}

impl View for TestCase {
    type V = TestCaseV;

    open spec fn view(&self) -> TestCaseV {
        TestCaseV {
            name: self.name@,
            classname: self.classname@,
            time: self.time,
            failure: match self.failure {
                Some(f) => Some(f@),
                None => None,
            },
            error: match self.error {
                Some(f) => Some(f@),
                None => None,
            },
            skipped: self.skipped is Some,
        }
    }
}

/// A named group of test cases with the duration the source file reported
/// for the whole suite (not necessarily the sum of its cases' durations).
#[derive(Debug, PartialEq, Clone)]
pub struct TestSuite {
    pub name: String,
    pub time: Duration,
    pub testcases: Vec<TestCase>,
}

/// Mathematical image of a `TestSuite`.
pub struct TestSuiteV {
    pub name: Seq<char>,
    pub time: Duration,
    pub testcases: Seq<TestCaseV>,
}

impl View for TestSuite {
    type V = TestSuiteV;

    open spec fn view(&self) -> TestSuiteV {
        TestSuiteV {
            name: self.name@,
            time: self.time,
            testcases: self.testcases@.map_values(|c: TestCase| c@),
        }
    }
}

/// The derived counters for one suite or for a whole run.
#[derive(Debug, PartialEq, Eq, Clone, Copy, Structural)]
pub struct Summary {
    pub time: Duration,
    pub tests: usize,
    pub failures: usize,
    pub errors: usize,
    pub skipped: usize,
}

/// A value paired with its derived summary.
#[derive(Debug, PartialEq, Clone)]
pub struct SummaryWith<T> {
    pub summary: Summary,
    pub value: T,
}

pub type SuiteWithSummary = SummaryWith<TestSuite>;

/// One failing or erroring case, with its single payload.
#[derive(Debug, PartialEq, Clone)]
pub struct FailedTestCase {
    pub name: String,
    pub classname: String,
    pub time: Duration,
    pub failure: TestFailure,
}

/// Mathematical image of a `FailedTestCase`.
pub struct FailedTestCaseV {
    pub name: Seq<char>,
    pub classname: Seq<char>,
    pub time: Duration,
    pub failure: TestFailureV,
}

impl View for FailedTestCase {
    type V = FailedTestCaseV;

    open spec fn view(&self) -> FailedTestCaseV {
        FailedTestCaseV {
            name: self.name@,
            classname: self.classname@,
            time: self.time,
            failure: self.failure@,
        }
    }
}

/// The reduced projection of a suite: only its failing or erroring cases,
/// in their original order.
#[derive(Debug, PartialEq, Clone)]
pub struct FailedTestSuite {
    pub name: String,
    pub time: Duration,
    pub failed_testcases: Vec<FailedTestCase>,
}

/// Mathematical image of a `FailedTestSuite`.
pub struct FailedTestSuiteV {
    pub name: Seq<char>,
    pub time: Duration,
    pub failed_testcases: Seq<FailedTestCaseV>,
}

impl View for FailedTestSuite {
    type V = FailedTestSuiteV;

    open spec fn view(&self) -> FailedTestSuiteV {
        FailedTestSuiteV {
            name: self.name@,
            time: self.time,
            failed_testcases: self.failed_testcases@.map_values(|c: FailedTestCase| c@),
        }
    }
}

pub type FailedSuiteWithSummary = SummaryWith<FailedTestSuite>;

/// Whether two suites carry the same name, duration and cases.  (Two
/// equal-looking containers need not be one value, so copies are compared
/// field by field.)
pub open spec fn suite_same(a: TestSuite, b: TestSuite) -> bool {
    a.name == b.name && a.time == b.time && a.testcases@ == b.testcases@
}

/// How one case is counted: skipped wins the count, then failure, then error.
pub open spec fn case_counts_skipped(c: TestCaseV) -> bool {
    c.skipped
}

pub open spec fn case_counts_failure(c: TestCaseV) -> bool {
    !c.skipped && c.failure is Some
}

pub open spec fn case_counts_error(c: TestCaseV) -> bool {
    !c.skipped && c.failure is None && c.error is Some
}

/// The summary derived from one scan over a suite's cases, with the suite's
/// own reported duration carried over unchanged.
pub open spec fn spec_summary_of_cases(cases: Seq<TestCaseV>, time: Duration) -> Summary {
    Summary {
        time,
        tests: cases.len() as usize,
        failures: cases.filter(|c: TestCaseV| case_counts_failure(c)).len() as usize,
        errors: cases.filter(|c: TestCaseV| case_counts_error(c)).len() as usize,
        skipped: cases.filter(|c: TestCaseV| case_counts_skipped(c)).len() as usize,
    }
}

pub open spec fn spec_summary(s: TestSuiteV) -> Summary {
    spec_summary_of_cases(s.testcases, s.time)
}

/// What failure classification keeps of one case: its failure payload if it
/// has one, else its error payload, else nothing.
pub open spec fn spec_case_as_failed(c: TestCaseV) -> Option<FailedTestCaseV> {
    match c.failure {
        Some(f) => Some(
            FailedTestCaseV { name: c.name, classname: c.classname, time: c.time, failure: f },
        ),
        None => match c.error {
            Some(f) => Some(
                FailedTestCaseV { name: c.name, classname: c.classname, time: c.time, failure: f },
            ),
            None => None,
        },
    }
}

/// Exactly the failing or erroring cases, in original order.
pub open spec fn spec_failed_cases(cases: Seq<TestCaseV>) -> Seq<FailedTestCaseV> {
    cases.filter_map(|c: TestCaseV| spec_case_as_failed(c))
}

/// The failed-suite view of a suite, or nothing for a clean suite.
pub open spec fn spec_as_failed(s: TestSuiteV) -> Option<FailedTestSuiteV> {
    let failed = spec_failed_cases(s.testcases);
    if failed.len() == 0 {
        None
    } else {
        Some(FailedTestSuiteV { name: s.name, time: s.time, failed_testcases: failed })
    }
}

/// Classification yields nothing exactly for a suite without failing or
/// erroring cases; otherwise the kept list is exactly the failing or
/// erroring cases, in original order (that list is `spec_failed_cases`,
/// which keeps its cases' order by construction).
pub proof fn lemma_as_failed_none_iff(s: TestSuiteV)
    ensures
        spec_as_failed(s) is None <==> (forall|i: int|
            0 <= i < s.testcases.len() ==> spec_case_as_failed(#[trigger] s.testcases[i]) is None),
        spec_as_failed(s) is Some ==> spec_as_failed(s)->Some_0.failed_testcases
            == spec_failed_cases(s.testcases),
{
    lemma_filter_map_none_iff(s.testcases);
}

proof fn lemma_filter_map_none_iff(cases: Seq<TestCaseV>)
    ensures
        spec_failed_cases(cases).len() == 0 <==> (forall|i: int|
            0 <= i < cases.len() ==> spec_case_as_failed(#[trigger] cases[i]) is None),
    decreases cases.len(),
{
    if cases.len() > 0 {
        lemma_filter_map_none_iff(cases.drop_last());
        assert(forall|i: int|
            0 <= i < cases.len() - 1 ==> cases.drop_last()[i] == #[trigger] cases[i]);
        assert(forall|i: int|
            0 <= i < cases.len() - 1 ==> #[trigger] cases.drop_last()[i] == cases[i]);
        assert(cases.last() == cases[cases.len() - 1]);
        match spec_case_as_failed(cases.last()) {
            Some(x) => {
                assert(spec_failed_cases(cases) == spec_failed_cases(cases.drop_last())
                    + seq![x]);
            },
            None => {
                assert(spec_failed_cases(cases) == spec_failed_cases(cases.drop_last()));
            },
        }
    } else {
        assert(cases =~= Seq::<TestCaseV>::empty());
        assert(spec_failed_cases(cases) =~= Seq::<FailedTestCaseV>::empty());
    }
}

/// The outcome shown for a case: skipped, else failing, else passed.  An
/// error payload is a failing outcome, as it is everywhere else in the
/// model: a case is never successful while it carries one.
#[derive(Debug, PartialEq, Eq, Structural)]
pub enum TestOutcome {
    Success,
    Failure,
    Skipped,
}

pub open spec fn spec_outcome(c: TestCaseV) -> TestOutcome {
    if c.skipped {
        TestOutcome::Skipped
    } else if c.failure is Some || c.error is Some {
        TestOutcome::Failure
    } else {
        TestOutcome::Success
    }
}

pub trait HasOutcome {
    fn outcome(&self) -> TestOutcome;
}

impl TestCase {
    pub fn is_skipped(&self) -> (r: bool)
        ensures
            r == self@.skipped,
    {
        self.skipped.is_some()
    }

    pub fn is_successful(&self) -> (r: bool)
        ensures
            r == (self@.failure is None && self@.error is None),
    {
        self.failure.is_none() && self.error.is_none()
    }

    pub fn outcome(&self) -> (r: TestOutcome)
        ensures
            r == spec_outcome(self@),
    {
        if self.skipped.is_some() {
            TestOutcome::Skipped
        } else if self.failure.is_some() || self.error.is_some() {
            TestOutcome::Failure
        } else {
            TestOutcome::Success
        }
    }

    /// The failed-case projection of this case, if it fails or errors.
    fn as_failed(&self) -> (r: Option<FailedTestCase>)
        ensures
            match r {
                Some(f) => spec_case_as_failed(self@) == Some(f@),
                None => spec_case_as_failed(self@) is None,
            },
    {
        let payload = match &self.failure {
            Some(f) => Some(f),
            None => match &self.error {
                Some(f) => Some(f),
                None => None,
            },
        };
        match payload {
            Some(f) => Some(
                FailedTestCase {
                    name: self.name.clone(),
                    classname: self.classname.clone(),
                    time: self.time,
                    failure: f.duplicate(),
                },
            ),
            None => None,
        }
    }

    /// A field-for-field copy, known to equal the original.
    pub fn duplicate(&self) -> (r: TestCase)
        ensures
            r == *self,
    {
        TestCase {
            name: self.name.clone(),
            classname: self.classname.clone(),
            time: self.time,
            failure: match &self.failure {
                Some(f) => Some(f.duplicate()),
                None => None,
            },
            error: match &self.error {
                Some(f) => Some(f.duplicate()),
                None => None,
            },
            skipped: self.skipped,
        }
    }
}

impl HasOutcome for TestCase {
    fn outcome(&self) -> TestOutcome {
        TestCase::outcome(self)
    }
}

impl TestSuite {
    /// A copy whose fields equal the original's, case for case.
    pub fn duplicate(&self) -> (r: TestSuite)
        ensures
            suite_same(r, *self),
    {
        let mut testcases: Vec<TestCase> = Vec::new();
        let n = self.testcases.len();
        let mut i: usize = 0;
        while i < n
            invariant
                i <= n,
                n == self.testcases@.len(),
                testcases@ =~= self.testcases@.take(i as int),
            decreases n - i,
        {
            testcases.push(self.testcases[i].duplicate());
            assert(testcases@ =~= self.testcases@.take(i + 1 as int));
            i = i + 1;
        }
        assert(testcases@ =~= self.testcases@);
        TestSuite { name: self.name.clone(), time: self.time, testcases }
    }

    /// Derive this suite's summary by one scan over its cases.
    pub fn summary(&self) -> (r: Summary)
        ensures
            r == spec_summary(self@),
    {
        let ghost cases = self@.testcases;
        let mut tests: usize = 0;
        let mut failures: usize = 0;
        let mut errors: usize = 0;
        let mut skipped: usize = 0;

        let n = self.testcases.len();
        let mut i: usize = 0;
        while i < n
            invariant
                i <= n,
                n == self.testcases@.len(),
                cases == self@.testcases,
                cases.len() == n,
                tests == i,
                failures == cases.take(i as int).filter(
                    |c: TestCaseV| case_counts_failure(c),
                ).len(),
                errors == cases.take(i as int).filter(|c: TestCaseV| case_counts_error(c)).len(),
                skipped == cases.take(i as int).filter(
                    |c: TestCaseV| case_counts_skipped(c),
                ).len(),
            decreases n - i,
        {
            let test = &self.testcases[i];
            proof {
                assert(cases[i as int] == test@);
                assert(cases.take(i + 1 as int).drop_last() =~= cases.take(i as int));
                reveal(Seq::filter);
            }
            tests = tests + 1;
            if test.skipped.is_some() {
                skipped = skipped + 1;
            } else if test.failure.is_some() {
                failures = failures + 1;
            } else if test.error.is_some() {
                errors = errors + 1;
            }
            i = i + 1;
        }
        assert(cases.take(n as int) =~= cases);
        Summary { time: self.time, tests, failures, errors, skipped }
    }

    /// Pair this suite with its derived summary.
    pub fn with_summary(self) -> (r: SuiteWithSummary)
        ensures
            r.value == self,
            r.summary == spec_summary(self@),
    {
        let summary = self.summary();
        SummaryWith { summary, value: self }
    }

    /// Classify this suite's failures: nothing for a clean suite, else the
    /// failed-suite view (paired with this suite's summary) whose case list
    /// keeps exactly the failing or erroring cases, in original order.
    pub fn as_failed(&self) -> (r: Option<FailedSuiteWithSummary>)
        ensures
            match r {
                Some(ws) => spec_as_failed(self@) == Some(ws.value@) && ws.summary == spec_summary(
                    self@,
                ),
                None => spec_as_failed(self@) is None,
            },
    {
        let ghost cases = self@.testcases;
        let summary = self.summary();
        let mut failed_testcases: Vec<FailedTestCase> = Vec::new();

        let n = self.testcases.len();
        let mut i: usize = 0;
        while i < n
            invariant
                i <= n,
                n == self.testcases@.len(),
                cases == self@.testcases,
                cases.len() == n,
                failed_testcases@.map_values(|c: FailedTestCase| c@) =~= spec_failed_cases(
                    cases.take(i as int),
                ),
            decreases n - i,
        {
            let test = &self.testcases[i];
            proof {
                assert(cases[i as int] == test@);
                assert(cases.take(i + 1 as int).drop_last() =~= cases.take(i as int));
            }
            let ghost before = failed_testcases@;
            match test.as_failed() {
                Some(t) => {
                    failed_testcases.push(t);
                    proof {
                        assert(failed_testcases@.map_values(|c: FailedTestCase| c@) =~= before.map_values(
                            |c: FailedTestCase| c@,
                        ).push(t@));
                    }
                },
                None => {},
            }
            i = i + 1;
        }
        assert(cases.take(n as int) =~= cases);

        if failed_testcases.len() == 0 {
            None
        } else {
            let value = FailedTestSuite {
                name: self.name.clone(),
                time: self.time,
                failed_testcases,
            };
            Some(SummaryWith { summary, value })
        }
    }
}

impl<T> SummaryWith<T> {
    pub fn is_successful(&self) -> (r: bool)
        ensures
            r == (self.summary.errors == 0 && self.summary.failures == 0),
    {
        self.summary.errors == 0 && self.summary.failures == 0
    }
}

/// Saturating addition on a counter.
pub open spec fn sat_add_usize(a: usize, b: usize) -> usize {
    if a + b > usize::MAX {
        usize::MAX
    } else {
        (a + b) as usize
    }
}

/// Component-wise saturating addition of two summaries: the merge step of
/// aggregation.
pub open spec fn spec_merge(a: Summary, b: Summary) -> Summary {
    Summary {
        time: a.time.spec_saturating_add(b.time),
        tests: sat_add_usize(a.tests, b.tests),
        failures: sat_add_usize(a.failures, b.failures),
        errors: sat_add_usize(a.errors, b.errors),
        skipped: sat_add_usize(a.skipped, b.skipped),
    }
}

/// The merge of a whole sequence of summaries, left to right from zero.
pub open spec fn spec_merge_all(s: Seq<Summary>) -> Summary {
    s.fold_left(Summary::spec_zero(), |acc: Summary, x: Summary| spec_merge(acc, x))
}

impl Summary {
    pub open spec fn spec_zero() -> Summary {
        Summary { time: Duration { nanos: 0 }, tests: 0, failures: 0, errors: 0, skipped: 0 }
    }

    pub fn zero() -> (r: Summary)
        ensures
            r == Summary::spec_zero(),
    {
        Summary { time: Duration { nanos: 0 }, tests: 0, failures: 0, errors: 0, skipped: 0 }
    }

    pub fn is_successful(&self) -> (r: bool)
        ensures
            r == (self.failures == 0 && self.errors == 0),
    {
        self.failures == 0 && self.errors == 0
    }

    /// Merge another summary into this one, component-wise.
    pub fn merge(&mut self, rhs: &Summary)
        ensures
            *final(self) == spec_merge(*old(self), *rhs),
    {
        self.time = self.time.saturating_add(rhs.time);
        self.tests = self.tests.saturating_add(rhs.tests);
        self.errors = self.errors.saturating_add(rhs.errors);
        self.failures = self.failures.saturating_add(rhs.failures);
        self.skipped = self.skipped.saturating_add(rhs.skipped);
    }

    /// The aggregate of a suite collection: the merge of each suite's
    /// derived summary, in order.
    pub fn from_suites(suites: &Vec<TestSuite>) -> (r: Summary)
        ensures
            r == spec_merge_all(spec_summaries(suites@.map_values(|s: TestSuite| s@))),
    {
        let ghost views = suites@.map_values(|s: TestSuite| s@);
        let mut total = Summary::zero();
        let n = suites.len();
        let mut i: usize = 0;
        while i < n
            invariant
                i <= n,
                n == suites@.len(),
                views == suites@.map_values(|s: TestSuite| s@),
                views.len() == n,
                total == spec_merge_all(spec_summaries(views.take(i as int))),
            decreases n - i,
        {
            let s = suites[i].summary();
            proof {
                assert(views[i as int] == suites@[i as int]@);
                assert(spec_summaries(views.take(i + 1 as int)).drop_last() =~= spec_summaries(
                    views.take(i as int),
                ));
                assert(spec_summaries(views.take(i + 1 as int)).last() == spec_summary(
                    views[i as int],
                ));
            }
            total.merge(&s);
            i = i + 1;
        }
        assert(views.take(n as int) =~= views);
        total
    }
}

/// Merging summaries is commutative.
pub proof fn lemma_merge_commutative(a: Summary, b: Summary)
    ensures
        spec_merge(a, b) == spec_merge(b, a),
{
}

/// Merging summaries is associative.
pub proof fn lemma_merge_associative(a: Summary, b: Summary, c: Summary)
    ensures
        spec_merge(spec_merge(a, b), c) == spec_merge(a, spec_merge(b, c)),
{
}

/// Merging a collection of summaries gives the same aggregate in any order:
/// the aggregate depends only on which summaries arrived, not on when.
pub proof fn lemma_merge_all_permutation(s1: Seq<Summary>, s2: Seq<Summary>)
    requires
        s1.to_multiset() == s2.to_multiset(),
    ensures
        spec_merge_all(s1) == spec_merge_all(s2),
{
    let f = |acc: Summary, x: Summary| spec_merge(acc, x);
    assert(commutative_foldl(f)) by {
        assert forall|x: Summary, y: Summary, v: Summary| #[trigger] f(f(v, x), y) == f(
            f(v, y),
            x,
        ) by {
            lemma_merge_associative(v, x, y);
            lemma_merge_associative(v, y, x);
            lemma_merge_commutative(x, y);
        }
    }
    lemma_fold_left_permutation(s1, s2, f, Summary::spec_zero());
}

/// Counting one scan: a case counts towards at most one of the three
/// outcome counters, so their sum never exceeds the number of cases.
pub proof fn lemma_summary_consistent(cases: Seq<TestCaseV>, time: Duration)
    requires
        cases.len() <= usize::MAX,
    ensures
        summary_consistent(spec_summary_of_cases(cases, time)),
    decreases cases.len(),
{
    reveal(Seq::filter);
    if cases.len() > 0 {
        lemma_summary_consistent(cases.drop_last(), time);
    }
}

/// The summary counters after one merge stay consistent, as long as the
/// true total of tests still fits in the counter.
pub proof fn lemma_merge_consistent(a: Summary, b: Summary)
    requires
        summary_consistent(a),
        summary_consistent(b),
        a.tests + b.tests <= usize::MAX,
    ensures
        summary_consistent(spec_merge(a, b)),
{
}

/// Projection sums over a sequence of summaries.
pub open spec fn sum_tests(s: Seq<Summary>) -> int
    decreases s.len(),
{
    if s.len() == 0 {
        0
    } else {
        sum_tests(s.drop_last()) + s.last().tests
    }
}

pub open spec fn sum_time_nanos(s: Seq<Summary>) -> int
    decreases s.len(),
{
    if s.len() == 0 {
        0
    } else {
        sum_time_nanos(s.drop_last()) + s.last().time.nanos
    }
}

pub open spec fn sum_failed_counters(s: Seq<Summary>) -> int
    decreases s.len(),
{
    if s.len() == 0 {
        0
    } else {
        sum_failed_counters(s.drop_last()) + s.last().failures + s.last().errors
            + s.last().skipped
    }
}

/// A summary's counters are consistent when the outcome counters do not
/// outnumber the cases.
pub open spec fn summary_consistent(s: Summary) -> bool {
    s.failures + s.errors + s.skipped <= s.tests
}

/// Clamp a mathematical integer into `usize`.
pub open spec fn clamp_usize(x: int) -> usize {
    if x > usize::MAX {
        usize::MAX
    } else if x < 0 {
        0
    } else {
        x as usize
    }
}

/// The aggregate's `tests` counter is the clamped sum of the incoming
/// `tests` counters, and its duration the clamped sum of the durations.
pub proof fn lemma_merge_all_totals(s: Seq<Summary>)
    ensures
        spec_merge_all(s).tests == clamp_usize(sum_tests(s)),
        spec_merge_all(s).time.nanos == clamp_u64(sum_time_nanos(s)),
    decreases s.len(),
{
    if s.len() > 0 {
        lemma_merge_all_totals(s.drop_last());
        lemma_sum_nonneg(s.drop_last());
        lemma_sum_nonneg(s);
    }
}

proof fn lemma_sum_nonneg(s: Seq<Summary>)
    ensures
        sum_tests(s) >= 0,
        sum_time_nanos(s) >= 0,
        sum_failed_counters(s) >= 0,
    decreases s.len(),
{
    if s.len() > 0 {
        lemma_sum_nonneg(s.drop_last());
    }
}

/// The merge of consistent summaries is consistent, as long as the true
/// total of tests still fits in the counter.
pub proof fn lemma_merge_all_consistent(s: Seq<Summary>)
    requires
        forall|i: int| 0 <= i < s.len() ==> summary_consistent(#[trigger] s[i]),
        sum_tests(s) <= usize::MAX,
    ensures
        summary_consistent(spec_merge_all(s)),
{
    lemma_merge_all_totals(s);
    lemma_outcome_counters_below_tests(s);
    lemma_sum_nonneg(s);
}

proof fn lemma_outcome_counters_below_tests(s: Seq<Summary>)
    requires
        forall|i: int| 0 <= i < s.len() ==> summary_consistent(#[trigger] s[i]),
    ensures
        sum_failed_counters(s) <= sum_tests(s),
        spec_merge_all(s).failures + spec_merge_all(s).errors + spec_merge_all(s).skipped
            <= sum_failed_counters(s),
    decreases s.len(),
{
    if s.len() > 0 {
        assert(forall|i: int|
            0 <= i < s.len() - 1 ==> summary_consistent(#[trigger] s.drop_last()[i]));
        lemma_outcome_counters_below_tests(s.drop_last());
        lemma_sum_nonneg(s.drop_last());
        assert(summary_consistent(s.last())) by {
            assert(s.last() == s[s.len() - 1]);
        }
    }
}

/// The cases carried by a sequence of suites, counted suite by suite.
pub open spec fn sum_cases(suites: Seq<TestSuiteV>) -> int
    decreases suites.len(),
{
    if suites.len() == 0 {
        0
    } else {
        sum_cases(suites.drop_last()) + suites.last().testcases.len()
    }
}

/// The summaries that one derives from a sequence of suites.
pub open spec fn spec_summaries(suites: Seq<TestSuiteV>) -> Seq<Summary> {
    suites.map_values(|s: TestSuiteV| spec_summary(s))
}

/// Aggregating the derived summaries of decoded suites counts every case
/// exactly once: the aggregate `tests` is the total number of cases.
pub proof fn lemma_aggregate_counts_cases(suites: Seq<TestSuiteV>)
    requires
        sum_cases(suites) <= usize::MAX,
    ensures
        spec_merge_all(spec_summaries(suites)).tests == sum_cases(suites),
    decreases suites.len(),
{
    lemma_merge_all_totals(spec_summaries(suites));
    lemma_sum_tests_is_sum_cases(suites);
    lemma_sum_cases_nonneg(suites);
}

proof fn lemma_sum_tests_is_sum_cases(suites: Seq<TestSuiteV>)
    requires
        sum_cases(suites) <= usize::MAX,
    ensures
        sum_tests(spec_summaries(suites)) == sum_cases(suites),
    decreases suites.len(),
{
    if suites.len() > 0 {
        lemma_sum_cases_nonneg(suites.drop_last());
        lemma_sum_tests_is_sum_cases(suites.drop_last());
        assert(spec_summaries(suites).drop_last() =~= spec_summaries(suites.drop_last()));
        assert(spec_summaries(suites).last() == spec_summary(suites.last()));
        assert(suites.last().testcases.len() <= usize::MAX);
    }
}

proof fn lemma_sum_cases_nonneg(suites: Seq<TestSuiteV>)
    ensures
        sum_cases(suites) >= 0,
    decreases suites.len(),
{
    if suites.len() > 0 {
        lemma_sum_cases_nonneg(suites.drop_last());
    }
}

/// The failed-suite views (paired with the owning suite's derived summary)
/// of the suites that have failing or erroring cases, in order.
pub open spec fn spec_failed_of_suites(suites: Seq<SummaryWith<TestSuite>>) -> Seq<
    (FailedTestSuiteV, Summary),
> {
    suites.filter_map(
        |ws: SummaryWith<TestSuite>|
            match spec_as_failed(ws.value@) {
                Some(fv) => Some((fv, spec_summary(ws.value@))),
                None => None,
            },
    )
}

/// Whether an executable failed-suite list shows exactly the given views.
pub open spec fn failed_list_matches(
    failed: Seq<SummaryWith<FailedTestSuite>>,
    views: Seq<(FailedTestSuiteV, Summary)>,
) -> bool {
    &&& failed.len() == views.len()
    &&& forall|i: int|
        0 <= i < failed.len() ==> (#[trigger] failed[i]).value@ == views[i].0 && failed[i].summary
            == views[i].1
}

/// The aggregate result of one run: every decoded suite with its summary,
/// the derived failed-suite views, the merged summary, and the CI event the
/// run was triggered by, if any.  The run is successful exactly when the
/// failed list is empty.
#[derive(Debug)]
pub struct FullReport {
    pub all_suites: Vec<SuiteWithSummary>,
    pub failed: Vec<FailedSuiteWithSummary>,
    pub summary: Summary,
    pub github_event: Option<GithubEvent>,
}

impl FullReport {
    /// Build the report: derive the failed-suite views from the suites.
    pub fn new(
        all_suites: Vec<SuiteWithSummary>,
        summary: Summary,
        github_event: Option<GithubEvent>,
    ) -> (r: FullReport)
        ensures
            r.all_suites == all_suites,
            r.summary == summary,
            r.github_event == github_event,
            failed_list_matches(r.failed@, spec_failed_of_suites(all_suites@)),
    {
        let ghost suites = all_suites@;
        let mut failed: Vec<FailedSuiteWithSummary> = Vec::new();
        let n = all_suites.len();
        let mut i: usize = 0;
        while i < n
            invariant
                i <= n,
                n == all_suites@.len(),
                suites == all_suites@,
                failed_list_matches(failed@, spec_failed_of_suites(suites.take(i as int))),
            decreases n - i,
        {
            proof {
                assert(suites.take(i + 1 as int).drop_last() =~= suites.take(i as int));
                assert(suites.take(i + 1 as int).last() == suites[i as int]);
            }
            match all_suites[i].value.as_failed() {
                Some(ws) => {
                    failed.push(ws);
                },
                None => {},
            }
            i = i + 1;
        }
        assert(suites.take(n as int) =~= suites);
        FullReport { all_suites, failed, summary, github_event }
    }

    /// Reorder the suites by elapsed time; the failed list, the summary and
    /// the event stay as they are.
    pub fn sort_suites(&mut self, sorting: &ReportSorting)
        ensures
            final(self).all_suites@ == sorting::spec_sort(
                old(self).all_suites@,
                sorting::order_of(*sorting),
            ),
            final(self).failed == old(self).failed,
            final(self).summary == old(self).summary,
            final(self).github_event == old(self).github_event,
    {
        sort_testsuites(&mut self.all_suites, sorting);
    }

    /// The run is successful exactly when no suite failed.
    pub fn is_successful(&self) -> (r: bool)
        ensures
            r == (self.failed@.len() == 0),
    {
        self.failed.len() == 0
    }
}

} // verus!
