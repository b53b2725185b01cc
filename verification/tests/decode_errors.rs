use cikit::junit::{read_suites, JunitError};

fn expect_unparsable(input: &str) {
    match read_suites(input.as_bytes()) {
        Err(JunitError::UnparsableXML(_)) => {}
        other => panic!("expected a decode error, got {:?}", other),
    }
}

#[test]
fn malformed_xml_is_a_decode_error() {
    expect_unparsable("<testsuite");
    expect_unparsable("");
    expect_unparsable("<a><b></a></b>");
}

#[test]
fn an_unrecognized_root_is_a_decode_error() {
    expect_unparsable("<report></report>");
}

#[test]
fn a_suite_without_name_is_a_decode_error() {
    expect_unparsable(r#"<testsuite time="1.0"></testsuite>"#);
}

#[test]
fn a_suite_without_time_is_a_decode_error() {
    expect_unparsable(r#"<testsuite name="s"></testsuite>"#);
}

#[test]
fn an_unreadable_time_is_a_decode_error() {
    expect_unparsable(r#"<testsuite name="s" time="fast"></testsuite>"#);
}

#[test]
fn a_case_without_classname_is_a_decode_error() {
    expect_unparsable(
        r#"<testsuite name="s" time="1"><testcase name="c" time="0.1"/></testsuite>"#,
    );
}

#[test]
fn a_failure_without_type_is_a_decode_error() {
    expect_unparsable(
        r#"<testsuite name="s" time="1">
             <testcase name="c" classname="k" time="0.1"><failure message="m">t</failure></testcase>
           </testsuite>"#,
    );
}

#[test]
fn a_bad_suite_inside_a_collection_is_a_decode_error() {
    expect_unparsable(
        r#"<testsuites><testsuite name="ok" time="1"/><testsuite time="1"/></testsuites>"#,
    );
}

// Among several outcome payloads on one case, failure wins over error, and
// both win over skipped.
#[test]
fn outcome_precedence_is_failure_then_error_then_skipped() {
    let all_three = r#"<testsuite name="s" time="1">
        <testcase name="c" classname="k" time="0.1">
          <failure message="f" type="ft">fs</failure>
          <error message="e" type="et">es</error>
          <skipped/>
        </testcase>
      </testsuite>"#;
    let suites = read_suites(all_three.as_bytes()).unwrap();
    let case = &suites[0].value.testcases[0];
    assert!(case.failure.is_some());
    assert!(case.error.is_none());
    assert!(case.skipped.is_none());
    assert_eq!(suites[0].summary.failures, 1);
    assert_eq!(suites[0].summary.errors, 0);
    assert_eq!(suites[0].summary.skipped, 0);

    let error_and_skipped = r#"<testsuite name="s" time="1">
        <testcase name="c" classname="k" time="0.1">
          <error message="e" type="et">es</error>
          <skipped/>
        </testcase>
      </testsuite>"#;
    let suites = read_suites(error_and_skipped.as_bytes()).unwrap();
    let case = &suites[0].value.testcases[0];
    assert!(case.failure.is_none());
    assert!(case.error.is_some());
    assert!(case.skipped.is_none());
    assert_eq!(suites[0].summary.errors, 1);

    let skipped_only = r#"<testsuite name="s" time="1">
        <testcase name="c" classname="k" time="0.1"><skipped/></testcase>
      </testsuite>"#;
    let suites = read_suites(skipped_only.as_bytes()).unwrap();
    let case = &suites[0].value.testcases[0];
    assert!(case.skipped.is_some());
    assert_eq!(suites[0].summary.skipped, 1);
}

// An error payload counts as an error, not a failure, and still lands in
// the failed-suite view.
#[test]
fn an_error_case_counts_and_classifies_as_failed() {
    let xml = r#"<testsuite name="s" time="1">
        <testcase name="good" classname="k" time="0.1"/>
        <testcase name="bad" classname="k" time="0.2">
          <error message="boom" type="kind">trace</error>
        </testcase>
      </testsuite>"#;
    let suites = read_suites(xml.as_bytes()).unwrap();
    let ws = &suites[0];
    assert_eq!(ws.summary.tests, 2);
    assert_eq!(ws.summary.failures, 0);
    assert_eq!(ws.summary.errors, 1);
    let failed = ws.value.as_failed().unwrap();
    assert_eq!(failed.value.failed_testcases.len(), 1);
    assert_eq!(failed.value.failed_testcases[0].name, "bad");
    assert_eq!(failed.value.failed_testcases[0].failure.message.as_deref(), Some("boom"));
}

// A skipped case with no other payload never shows up as failed.
#[test]
fn skipped_cases_do_not_classify_as_failed() {
    let xml = r#"<testsuite name="s" time="1">
        <testcase name="a" classname="k" time="0.1"><skipped/></testcase>
      </testsuite>"#;
    let suites = read_suites(xml.as_bytes()).unwrap();
    assert!(suites[0].value.as_failed().is_none());
    assert!(suites[0].summary.is_successful());
}
