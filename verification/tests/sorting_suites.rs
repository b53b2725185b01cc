use cikit::duration::Duration;
use cikit::junit::{
    sort_testsuites, FullReport, ReportSorting, SortingOrder, Summary, SummaryWith,
    SuiteWithSummary, TestSuite,
};

fn suite_with_time(name: &str, ms: u64) -> SuiteWithSummary {
    SummaryWith {
        summary: Summary {
            time: Duration::from_millis(ms),
            tests: 0,
            failures: 0,
            errors: 0,
            skipped: 0,
        },
        value: TestSuite {
            name: name.to_owned(),
            time: Duration::from_millis(ms),
            testcases: vec![],
        },
    }
}

fn names(suites: &[SuiteWithSummary]) -> Vec<&str> {
    suites.iter().map(|ws| ws.value.name.as_str()).collect()
}

// Without ties, descending is exactly the reverse of ascending.
#[test]
fn asc_and_desc_are_exact_reversals_without_ties() {
    let input = vec![
        suite_with_time("b", 20),
        suite_with_time("d", 40),
        suite_with_time("a", 10),
        suite_with_time("c", 30),
    ];
    let mut asc = input.clone();
    sort_testsuites(&mut asc, &ReportSorting::Time(SortingOrder::Asc));
    let mut desc = input.clone();
    sort_testsuites(&mut desc, &ReportSorting::Time(SortingOrder::Desc));
    assert_eq!(names(&asc), vec!["a", "b", "c", "d"]);
    let mut reversed = asc.clone();
    reversed.reverse();
    assert_eq!(desc, reversed);
}

// Ties keep their arrival order, sorting up or down.
#[test]
fn ties_keep_their_arrival_order_in_both_directions() {
    let input = vec![
        suite_with_time("first", 20),
        suite_with_time("second", 20),
        suite_with_time("small", 10),
        suite_with_time("third", 20),
    ];
    let mut asc = input.clone();
    sort_testsuites(&mut asc, &ReportSorting::Time(SortingOrder::Asc));
    assert_eq!(names(&asc), vec!["small", "first", "second", "third"]);
    let mut desc = input.clone();
    sort_testsuites(&mut desc, &ReportSorting::Time(SortingOrder::Desc));
    assert_eq!(names(&desc), vec!["first", "second", "third", "small"]);
}

#[test]
fn report_sorting_reorders_only_the_suite_list() {
    let suites = vec![suite_with_time("slow", 30), suite_with_time("fast", 1)];
    let mut report = FullReport::new(suites, Summary::zero(), None);
    report.sort_suites(&ReportSorting::Time(SortingOrder::Asc));
    assert_eq!(names(&report.all_suites), vec!["fast", "slow"]);
    assert!(report.failed.is_empty());
    assert_eq!(report.summary, Summary::zero());
}
