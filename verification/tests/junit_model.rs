use cikit::duration::Duration;
use cikit::junit::read_suites;
use cikit::junit::{
    FailedTestCase, FailedTestSuite, FullReport, Summary, SummaryWith, TestCase, TestFailure,
    TestSkipped, TestSuite,
};

const SUCCESS_TESTSUITE_XML: &str = r##"
<testsuite hostname="lenstop" name="com.example.LiveTopicCounterTest" tests="1" errors="0" failures="0" skipped="0" time="2.137" timestamp="2020-06-07T14:18:12">
                     <properties></properties>
                     <testcase classname="com.example.LiveTopicCounterTest" name="LiveTopicCounter should raise an error when the supplied topic does not exist" time="0.079">
                     </testcase>
                     <testcase classname="com.example.LiveTopicCounterTest" name="LiveTopicCounter should skip this test" time="0.001">
                       <skipped/>
                     </testcase>

         </testsuite>
         "##;

const SUCCESS_TESTSUITE_WRAPPED: &str = r##"
<testsuites>
  <testsuite hostname="lenstop" name="com.example.LiveTopicCounterTest" tests="1" errors="0" failures="0" skipped="0" time="2.137" timestamp="2020-06-07T14:18:12">
                       <properties></properties>
                       <testcase classname="com.example.LiveTopicCounterTest" name="LiveTopicCounter should raise an error when the supplied topic does not exist" time="0.079">
                       </testcase>
                       <testcase classname="com.example.LiveTopicCounterTest" name="LiveTopicCounter should skip this test" time="0.001">
                         <skipped/>
                       </testcase>

  </testsuite>
</testsuites>
         "##;

const FAILED_TESTSUITE_XML: &str = r##"
<testsuite hostname="lenstop" name="com.example.LiveTopicCounterTest" tests="5" errors="0" failures="1" skipped="0" time="2.137" timestamp="2020-06-07T14:18:13">
                     <properties></properties>
                     <testcase classname="com.example.LiveTopicCounterTest" name="LiveTopicCounter should raise an error when the supplied topic does not exist" time="0.079">
                                               </testcase><testcase classname="com.example.LiveTopicCounterTest" name="TopicCounter should return a one element stream when called on an empty topic" time="0.466">

                                               </testcase><testcase classname="com.example.LiveTopicCounterTest" name="TopicCounter should return a running count of the records in a topic, terminating when the topic endOffset is reached" time="0.571">
com.example
                                               </testcase><testcase classname="com.example.LiveTopicCounterTest" name="TopicCounter should count a compacted topic and return a lower number than the total records produced" time="0.56">

                                               </testcase><testcase classname="com.example.LiveTopicCounterTest" name="TopicCounter should count a partitioned topic" time="0.461">
                                                 <failure message="100 did not equal 101" type="org.scalatest.exceptions.TestFailedException">stack-trace...</failure>
                                               </testcase>
                     <system-out><![CDATA[]]></system-out>
                     <system-err><![CDATA[]]></system-err>
         </testsuite>
         "##;

fn read_failed_testsuite(input: &[u8]) -> Option<SummaryWith<FailedTestSuite>> {
    read_suites(input)
        .unwrap()
        .first()
        .and_then(|ws| ws.value.as_failed())
}

// The suite decodes to its cases as written, with the decimal time fields
// kept exactly (2.137 s is 2 137 000 000 ns).
#[test]
fn mod_parse_testsuite() {
    let suites = read_suites(SUCCESS_TESTSUITE_XML.as_bytes()).unwrap();
    let suite = &suites[0].value;
    let expected = TestSuite {
        name: "com.example.LiveTopicCounterTest".to_owned(),
        time: Duration::from_nanos(2_137_000_000),
        testcases: vec![
            TestCase {
                name:
                    "LiveTopicCounter should raise an error when the supplied topic does not exist"
                        .to_owned(),
                classname: "com.example.LiveTopicCounterTest".to_owned(),
                time: Duration::from_millis(79),
                failure: None,
                error: None,
                skipped: None,
            },
            TestCase {
                name: "LiveTopicCounter should skip this test".to_owned(),
                classname: "com.example.LiveTopicCounterTest".to_owned(),
                time: Duration::from_millis(1),
                failure: None,
                error: None,
                skipped: Some(TestSkipped {}),
            },
        ],
    };
    assert_eq!(*suite, expected);
}

#[test]
fn parse_testsuite_wrapped() {
    let suites1 = read_suites(SUCCESS_TESTSUITE_XML.as_bytes()).unwrap();
    let suites2 = read_suites(SUCCESS_TESTSUITE_WRAPPED.as_bytes()).unwrap();
    assert!(suites1.len() == 1);
    assert_eq!(suites1, suites2);
}

#[test]
fn mod_can_parse_failed_testsuite() {
    let suites = read_suites(FAILED_TESTSUITE_XML.as_bytes()).unwrap();
    let suite = &suites[0].value;
    let failed_case = FailedTestCase {
        name: "TopicCounter should count a partitioned topic".to_owned(),
        classname: "com.example.LiveTopicCounterTest".to_owned(),
        time: Duration::from_millis(461),
        failure: TestFailure {
            message: Some("100 did not equal 101".to_owned()),
            classname: "org.scalatest.exceptions.TestFailedException".to_owned(),
            stack_trace: "stack-trace...".to_owned(),
        },
    };
    let expected = SummaryWith {
        summary: Summary {
            time: Duration::from_nanos(2_137_000_000),
            tests: 5,
            failures: 1,
            errors: 0,
            skipped: 0,
        },
        value: FailedTestSuite {
            name: "com.example.LiveTopicCounterTest".to_owned(),
            time: Duration::from_nanos(2_137_000_000),
            failed_testcases: vec![failed_case],
        },
    };
    let failed = suite.as_failed().unwrap();
    assert_eq!(failed, expected);
}

#[test]
fn mod_read_failed_testsuite_none() {
    let result = read_failed_testsuite(SUCCESS_TESTSUITE_XML.as_bytes());
    assert_eq!(result, None);
}

#[test]
fn mod_read_failed_testsuite_some() {
    let result = read_failed_testsuite(FAILED_TESTSUITE_XML.as_bytes());
    assert!(result.is_some())
}

#[test]
fn junit_read_failed_testsuite_none() {
    let result = read_failed_testsuite(SUCCESS_TESTSUITE_XML.as_bytes());
    assert!(result.is_none())
}

#[test]
fn junit_read_failed_testsuite_some() {
    let result = read_failed_testsuite(FAILED_TESTSUITE_XML.as_bytes());
    assert!(result.is_some())
}

// The counters come from scanning the cases, not from the document's own
// `tests="1"` attribute: two cases, one of them skipped, about 2137 ms.
#[test]
fn summary_is_derived_from_cases_not_attributes() {
    let suites = read_suites(SUCCESS_TESTSUITE_XML.as_bytes()).unwrap();
    let ws = &suites[0];
    let expected = Summary {
        time: Duration::from_nanos(2_137_000_000),
        tests: 2,
        failures: 0,
        errors: 0,
        skipped: 1,
    };
    assert_eq!(ws.summary, expected);
    assert_eq!(ws.summary.time.num_milliseconds(), 2137);
    assert!(ws.value.as_failed().is_none());
    assert!(ws.summary.is_successful());
}

// Exactly one failing case out of five, with its payload kept verbatim.
#[test]
fn failed_suite_keeps_the_failure_verbatim() {
    let suites = read_suites(FAILED_TESTSUITE_XML.as_bytes()).unwrap();
    let ws = &suites[0];
    assert_eq!(
        ws.summary,
        Summary {
            time: Duration::from_nanos(2_137_000_000),
            tests: 5,
            failures: 1,
            errors: 0,
            skipped: 0,
        }
    );
    let failed = ws.value.as_failed().unwrap();
    assert_eq!(failed.value.failed_testcases.len(), 1);
    let case = &failed.value.failed_testcases[0];
    assert_eq!(case.failure.message.as_deref(), Some("100 did not equal 101"));
    assert_eq!(
        case.failure.classname,
        "org.scalatest.exceptions.TestFailedException"
    );
    assert_eq!(case.failure.stack_trace, "stack-trace...");
    assert!(!ws.summary.is_successful());
}

// A run over thirty report files, nine of them failing, yields exactly nine
// failed suites, however the parse results were batched.
#[test]
fn nine_failed_suites_regardless_of_batching() {
    let mut files: Vec<&str> = Vec::new();
    for _dir in 0..3 {
        for _n in 0..7 {
            files.push(SUCCESS_TESTSUITE_XML);
        }
        for _n in 0..3 {
            files.push(FAILED_TESTSUITE_XML);
        }
    }
    for batch_size in [1, 4, 30] {
        let mut aggregator = cikit::junit::fs::ReportAggregator::new();
        let mut batch = Vec::new();
        for content in &files {
            batch.extend(read_suites(content.as_bytes()).unwrap());
            if batch.len() >= batch_size {
                aggregator.accept(std::mem::take(&mut batch));
            }
        }
        aggregator.accept(batch);
        let (suites, summary) = aggregator.finish();
        assert_eq!(suites.len(), 30);
        assert_eq!(summary.tests, 3 * (7 * 2 + 3 * 5));
        let report = FullReport::new(suites, summary, None);
        assert_eq!(report.failed.len(), 9);
        assert!(!report.is_successful());
    }
}

#[test]
fn empty_collection_root_holds_no_suites() {
    let suites = read_suites(b"<testsuites></testsuites>").unwrap();
    assert!(suites.is_empty());
    let report = FullReport::new(suites, Summary::zero(), None);
    assert!(report.is_successful());
}
