use cikit::duration::Duration;
use cikit::junit::{Summary, TestCase, TestSuite};

fn summary(time_ms: u64, tests: usize, failures: usize, errors: usize, skipped: usize) -> Summary {
    Summary { time: Duration::from_millis(time_ms), tests, failures, errors, skipped }
}

fn case(name: &str) -> TestCase {
    TestCase {
        name: name.to_owned(),
        classname: "k".to_owned(),
        time: Duration::from_millis(1),
        failure: None,
        error: None,
        skipped: None,
    }
}

fn suite(name: &str, cases: usize) -> TestSuite {
    TestSuite {
        name: name.to_owned(),
        time: Duration::from_millis(10),
        testcases: (0..cases).map(|i| case(&format!("c{}", i))).collect(),
    }
}

#[test]
fn merge_adds_component_wise() {
    let mut total = summary(100, 4, 1, 0, 2);
    total.merge(&summary(50, 3, 0, 1, 0));
    assert_eq!(total, summary(150, 7, 1, 1, 2));
}

#[test]
fn merging_zero_changes_nothing() {
    let mut total = summary(100, 4, 1, 0, 2);
    total.merge(&Summary::zero());
    assert_eq!(total, summary(100, 4, 1, 0, 2));
}

#[test]
fn merge_saturates_at_the_counter_limit() {
    let mut total = summary(0, usize::MAX - 1, 0, 0, 0);
    total.merge(&summary(0, 5, 0, 0, 0));
    assert_eq!(total.tests, usize::MAX);
    let mut t = Summary {
        time: Duration::from_nanos(u64::MAX - 1),
        tests: 0,
        failures: 0,
        errors: 0,
        skipped: 0,
    };
    t.merge(&summary(1, 0, 0, 0, 0));
    assert_eq!(t.time, Duration::from_nanos(u64::MAX));
}

// Merging in any order yields the same aggregate.
#[test]
fn merge_order_does_not_matter() {
    let parts = [
        summary(5, 2, 1, 0, 0),
        summary(7, 3, 0, 2, 1),
        summary(11, 1, 0, 0, 1),
    ];
    let orders: [[usize; 3]; 6] = [
        [0, 1, 2],
        [0, 2, 1],
        [1, 0, 2],
        [1, 2, 0],
        [2, 0, 1],
        [2, 1, 0],
    ];
    let mut results = Vec::new();
    for order in orders {
        let mut total = Summary::zero();
        for i in order {
            total.merge(&parts[i]);
        }
        results.push(total);
    }
    for r in &results {
        assert_eq!(*r, results[0]);
    }
    assert_eq!(results[0], summary(23, 6, 1, 2, 2));
}

// The aggregate `tests` counter is the number of cases over all suites.
#[test]
fn aggregate_counts_every_case_once() {
    let suites = vec![suite("a", 2), suite("b", 3), suite("c", 0)];
    let total = Summary::from_suites(&suites);
    assert_eq!(total.tests, 5);
    assert_eq!(total.time, Duration::from_millis(30));
}

// failures + errors + skipped never exceed tests.
#[test]
fn counters_stay_consistent() {
    let xml = r#"<testsuite name="s" time="1">
        <testcase name="a" classname="k" time="0.1"><skipped/></testcase>
        <testcase name="b" classname="k" time="0.1"><failure type="t">x</failure></testcase>
        <testcase name="c" classname="k" time="0.1"><error type="t">x</error></testcase>
        <testcase name="d" classname="k" time="0.1"/>
      </testsuite>"#;
    let suites = cikit::junit::read_suites(xml.as_bytes()).unwrap();
    let s = suites[0].summary;
    assert!(s.failures + s.errors + s.skipped <= s.tests);
    assert_eq!((s.tests, s.failures, s.errors, s.skipped), (4, 1, 1, 1));
}
