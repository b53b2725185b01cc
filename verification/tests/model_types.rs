use cikit::config::{Config, GithubNotifications, Junit, Notifications, SlackNotifications};
use cikit::duration::Duration;
use cikit::gcs::{BucketName, PublisherConfig};
use cikit::github::{GithubContext, GithubEvent, GithubHandle, GithubUser, OwnerRepo, PullRequest};
use cikit::junit::{FullReport, HasOutcome, Summary, TestCase, TestOutcome, TestSuite};
use cikit::slack::SlackUserId;

fn event() -> GithubEvent {
    GithubEvent {
        number: 42,
        pull_request: PullRequest {
            title: "Add a feature".to_owned(),
            html_url: "https://example.invalid/pr/42".to_owned(),
            commits_url: "https://example.invalid/pr/42/commits".to_owned(),
        },
        sender: GithubUser {
            avatar_url: "https://example.invalid/a.png".to_owned(),
            login: GithubHandle("user_1".to_owned()),
            html_url: "https://example.invalid/user_1".to_owned(),
        },
    }
}

#[test]
fn the_report_carries_the_event_through() {
    let report = FullReport::new(vec![], Summary::zero(), Some(event()));
    assert_eq!(report.github_event.as_ref().unwrap().number, 42);
    assert!(report.is_successful());
}

#[test]
fn configuration_values_hold_what_was_loaded() {
    let config = Config {
        notifications: Notifications {
            slack: Some(SlackNotifications {
                user_handles: vec![(
                    GithubHandle("user_1".to_owned()),
                    SlackUserId("U024BE7LH".to_owned()),
                )],
                webhook_url: "https://hooks.slack.invalid/services/x".to_owned(),
            }),
            google_cloud_storage: Some(PublisherConfig {
                bucket: BucketName("my-test-reports".to_owned()),
            }),
            github_comments: Some(GithubNotifications { token: "SECRET-REDACTED".to_owned() }),
        },
        junit: Junit { report_dir_pattern: "**/target/**/test-reports".to_owned() },
    };
    assert_eq!(config.junit.report_dir_pattern, "**/target/**/test-reports");
    let slack = config.notifications.slack.unwrap();
    assert_eq!(slack.user_handles[0].1, SlackUserId("U024BE7LH".to_owned()));
}

#[test]
fn a_context_names_its_repository_and_actor() {
    let ctx = GithubContext {
        token: "SECRET-REDACTED".to_owned(),
        sha: "abc123".to_owned(),
        run_id: "99".to_owned(),
        actor: GithubHandle("user_1".to_owned()),
        event: event(),
        repository: OwnerRepo("owner/repo".to_owned()),
    };
    assert_eq!(ctx.repository, OwnerRepo("owner/repo".to_owned()));
    assert_eq!(ctx.actor, GithubHandle("user_1".to_owned()));
}

#[test]
fn the_outcome_port_follows_the_payloads() {
    let case = TestCase {
        name: "n".to_owned(),
        classname: "k".to_owned(),
        time: Duration::zero(),
        failure: None,
        error: None,
        skipped: None,
    };
    let through_port: &dyn HasOutcome = &case;
    assert_eq!(through_port.outcome(), TestOutcome::Success);
}

#[test]
fn an_aggregate_of_no_suites_is_zero() {
    let none: Vec<TestSuite> = vec![];
    assert_eq!(Summary::from_suites(&none), Summary::zero());
    assert_eq!(Summary::zero().time, Duration::from_nanos(0));
    assert!(Summary::zero().is_successful());
}

#[test]
fn suites_can_be_copied_for_walking() {
    let suite = TestSuite {
        name: "s".to_owned(),
        time: Duration::from_millis(3),
        testcases: vec![TestCase {
            name: "c".to_owned(),
            classname: "k".to_owned(),
            time: Duration::from_millis(1),
            failure: None,
            error: None,
            skipped: None,
        }],
    };
    let copy = suite.duplicate();
    assert_eq!(copy, suite);
}
