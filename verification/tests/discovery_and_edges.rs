use cikit::duration::Duration;
use cikit::gcs::publisher::{detect_mime, GCSPublisher};
use cikit::gcs::{BucketName, PublisherConfig};
use cikit::html::HTMLReport;
use cikit::junit::cli::{ReportSorting, SortingOrder};
use cikit::junit::fs::{
    extension_str, filter_report_files, prefixed_pattern, validate_pattern, FailedTestSuiteVisitor,
    ReportAggregator, ReportVisitor, TestSuiteVisitor,
};
use cikit::junit::{read_suites, JunitError, TestOutcome};
use cikit::slack::{Text, TextType};

#[test]
fn an_invalid_pattern_is_rejected_before_any_walk() {
    match validate_pattern("a[") {
        Err(JunitError::InvalidReportDirPattern(_)) => {}
        other => panic!("expected an invalid-pattern error, got {:?}", other),
    }
    assert!(validate_pattern("**/test-reports/*.xml").is_ok());
}

#[test]
fn the_walk_pattern_is_rooted_at_the_base_directory() {
    let p = prefixed_pattern("/work/project", "**/testreports/*");
    assert_eq!(p, "/work/project/**/testreports/*");
}

// Only regular files with the report extension survive the filter.
#[test]
fn discovery_keeps_only_xml_files() {
    let candidates = vec![
        ("base/0/1/2/testreports/a.xml".to_owned(), true),
        ("base/0/1/2/testreports".to_owned(), false),
        ("base/readme.txt".to_owned(), true),
        ("base/.xml".to_owned(), true),
        ("base/archive.tar.xml".to_owned(), true),
        ("base/missing.xml".to_owned(), false),
    ];
    let files = filter_report_files(&candidates);
    assert_eq!(
        files,
        vec![
            "base/0/1/2/testreports/a.xml".to_owned(),
            "base/archive.tar.xml".to_owned(),
        ]
    );
}

#[test]
fn extensions_read_like_the_standard_library() {
    assert_eq!(extension_str("a/b/c.xml"), Some("xml"));
    assert_eq!(extension_str("c.tar.gz"), Some("gz"));
    assert_eq!(extension_str("a/.hidden"), None);
    assert_eq!(extension_str("noext"), None);
    assert_eq!(extension_str("dir.x/file"), None);
    assert_eq!(extension_str("trailingdot."), Some(""));
}

#[test]
fn report_visitor_walks_in_order() {
    let mut v = ReportVisitor::from_files(vec!["a.xml".to_owned(), "b.xml".to_owned()]);
    assert_eq!(v.next(), Some("a.xml".to_owned()));
    assert_eq!(v.next(), Some("b.xml".to_owned()));
    assert_eq!(v.next(), None);
    assert_eq!(v.next(), None);
}

const PASS: &str = r#"<testsuite name="pass" time="1"><testcase name="a" classname="k" time="0.1"/></testsuite>"#;
const FAIL: &str = r#"<testsuite name="fail" time="2"><testcase name="b" classname="k" time="0.2"><failure type="t">x</failure></testcase></testsuite>"#;

#[test]
fn suite_visitor_walks_the_decoded_suites() {
    let mut suites = Vec::new();
    for content in [PASS, FAIL] {
        for ws in read_suites(content.as_bytes()).unwrap() {
            suites.push(ws.value);
        }
    }
    let mut v = TestSuiteVisitor::from_suites(suites);
    assert_eq!(v.next().unwrap().name, "pass");
    assert_eq!(v.next().unwrap().name, "fail");
    assert!(v.next().is_none());
}

// The failed-suite visitor skips clean suites and never trips over its own
// classification.
#[test]
fn failed_suite_visitor_skips_clean_suites() {
    let mut suites = Vec::new();
    for content in [PASS, FAIL, PASS, FAIL] {
        for ws in read_suites(content.as_bytes()).unwrap() {
            suites.push(ws.value);
        }
    }
    let mut v = FailedTestSuiteVisitor::from_suites(suites);
    let first = v.next().unwrap();
    assert_eq!(first.value.name, "fail");
    assert_eq!(first.summary.failures, 1);
    let second = v.next().unwrap();
    assert_eq!(second.value.name, "fail");
    assert!(v.next().is_none());
}

#[test]
fn aggregator_appends_in_arrival_order() {
    let mut agg = ReportAggregator::new();
    agg.accept(read_suites(FAIL.as_bytes()).unwrap());
    agg.accept(read_suites(PASS.as_bytes()).unwrap());
    let (suites, summary) = agg.finish();
    assert_eq!(suites[0].value.name, "fail");
    assert_eq!(suites[1].value.name, "pass");
    assert_eq!(summary.tests, 2);
    assert_eq!(summary.failures, 1);
    assert_eq!(summary.time, Duration::from_millis(3000));
}

#[test]
fn mime_types_come_from_the_name_else_from_the_bytes() {
    assert_eq!(detect_mime("report/index.html", b"x"), "text/html");
    assert_eq!(detect_mime("report/data.json", b"x"), "application/json");
    assert_eq!(detect_mime("report/app.js", b"x"), "application/javascript");
    assert_eq!(detect_mime("report/style.css", b"x"), "text/css");
    let png: &[u8] = &[0x89, b'P', b'N', b'G', 0x0d, 0x0a, 0x1a, 0x0a, 0, 0, 0, 0];
    assert_eq!(detect_mime("report/blob.bin", png), "image/png");
}

#[test]
fn the_report_url_names_bucket_and_run() {
    let publisher = GCSPublisher::from_parts(
        PublisherConfig { bucket: BucketName("my-test-reports".to_owned()) },
        vec![],
        "report".to_owned(),
        "12345".to_owned(),
    );
    assert_eq!(
        publisher.report_url().0,
        "https://storage.googleapis.com/my-test-reports/12345/index.html"
    );
}

#[test]
fn the_html_target_refuses_what_it_must() {
    assert!(HTMLReport::new("report".to_owned(), false, false, false).is_ok());
    assert!(HTMLReport::new("report".to_owned(), true, true, true).is_ok());
    assert!(matches!(
        HTMLReport::new("report".to_owned(), true, false, true),
        Err(JunitError::IoErr(_))
    ));
    assert!(matches!(
        HTMLReport::new("report".to_owned(), true, true, false),
        Err(JunitError::IoErr(_))
    ));
}

#[test]
fn sorting_requests_parse_case_insensitively() {
    assert_eq!(
        ReportSorting::from_str("time"),
        Some(ReportSorting::Time(SortingOrder::Desc))
    );
    assert_eq!(
        ReportSorting::from_str("TIME ASC"),
        Some(ReportSorting::Time(SortingOrder::Asc))
    );
    assert_eq!(
        ReportSorting::from_str("time desc"),
        Some(ReportSorting::Time(SortingOrder::Desc))
    );
    assert_eq!(
        ReportSorting::from_str("time asc extra"),
        Some(ReportSorting::Time(SortingOrder::Asc))
    );
    assert_eq!(ReportSorting::from_str("bogus"), None);
    assert_eq!(ReportSorting::from_str("time sideways"), None);
    assert_eq!(ReportSorting::from_str("time  asc"), None);
    assert_eq!(ReportSorting::from_str(""), None);
    assert_eq!(SortingOrder::from_str("Desc"), Some(SortingOrder::Desc));
    assert_eq!(SortingOrder::from_str("up"), None);
}

#[test]
fn text_fragments_keep_kind_and_content() {
    let p = Text::plain("hello");
    assert_eq!(p.text_type, TextType::PlainText);
    assert_eq!(p.text, "hello");
    let m = Text::mrkdwn("*hello*");
    assert_eq!(m.text_type, TextType::Mrkdwn);
    assert_eq!(m.text, "*hello*");
}

#[test]
fn outcomes_follow_the_case_payloads() {
    let xml = r#"<testsuite name="s" time="1">
        <testcase name="a" classname="k" time="0.1"/>
        <testcase name="b" classname="k" time="0.1"><failure type="t">x</failure></testcase>
        <testcase name="c" classname="k" time="0.1"><skipped/></testcase>
        <testcase name="d" classname="k" time="0.1"><error type="t">x</error></testcase>
      </testsuite>"#;
    let suites = read_suites(xml.as_bytes()).unwrap();
    let cases = &suites[0].value.testcases;
    assert_eq!(cases[0].outcome(), TestOutcome::Success);
    assert_eq!(cases[1].outcome(), TestOutcome::Failure);
    assert_eq!(cases[2].outcome(), TestOutcome::Skipped);
    // an error payload is a failing outcome, never a success
    assert_eq!(cases[3].outcome(), TestOutcome::Failure);
    assert!(cases[2].is_skipped());
    assert!(cases[0].is_successful());
    assert!(!cases[1].is_successful());
    assert!(!cases[3].is_successful());
}
