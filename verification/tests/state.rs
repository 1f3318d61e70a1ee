use testdash::app::{split_spaces, Action, App};
use testdash::report::{Case, Report, Status, Suite};
use testdash::run::RunError;

fn failing_report() -> Report {
    Report {
        suites: vec![Suite {
            id: None,
            name: "s1".to_string(),
            tests: 2,
            errors: 0,
            failures: 1,
            skipped: 0,
            suites: vec![],
            cases: vec![
                Case { name: "ok_one".to_string(), status: Status::Success, output: None },
                Case {
                    name: "bad_one".to_string(),
                    status: Status::Failure {
                        message: "boom".to_string(),
                        text: "details".to_string(),
                    },
                    output: Some("captured".to_string()),
                },
            ],
        }],
    }
}

#[test]
fn trigger_is_single_flight() {
    let mut app = App::new("report.xml".to_string(), None);
    let first = app.trigger_run();
    assert!(first.is_some());
    assert!(app.is_running);
    let second = app.trigger_run();
    assert!(second.is_none());
}

#[test]
fn trigger_allowed_again_after_completion() {
    let mut app = App::new("report.xml".to_string(), None);
    assert!(app.trigger_run().is_some());
    let req = app.update(Action::TestResult(Ok(Report { suites: vec![] })));
    assert!(req.is_none());
    assert!(!app.is_running);
    assert!(app.trigger_run().is_some());
}

#[test]
fn trigger_splits_command_and_appends_file() {
    let mut app = App::new(
        "report.xml".to_string(),
        Some("run tests --fast".to_string()),
    );
    let req = app.trigger_run().expect("first trigger launches");
    assert_eq!(req.program, "run");
    assert_eq!(
        req.args,
        vec!["tests".to_string(), "--fast".to_string(), "report.xml".to_string()]
    );
}

#[test]
fn default_command_is_passthrough() {
    let app = App::new("report.xml".to_string(), None);
    assert_eq!(app.command(), "cat");
    let mut app = app;
    let req = app.trigger_run().expect("launches");
    assert_eq!(req.program, "cat");
    assert_eq!(req.args, vec!["report.xml".to_string()]);
}

#[test]
fn successful_result_builds_run_and_navigation() {
    let mut app = App::new("report.xml".to_string(), None);
    app.update(Action::TestStarted);
    assert!(app.is_running);
    app.update(Action::TestResult(Ok(failing_report())));
    assert!(!app.is_running);
    let run = match &app.result {
        Some(Ok(run)) => run,
        _ => panic!("expected a built run"),
    };
    assert_eq!(run.passes, 1);
    assert_eq!(run.failures, 1);
    assert_eq!(app.nav.expanded, vec!["s1".to_string()]);
    assert_eq!(app.nav.selected, vec!["s1".to_string()]);
    assert_eq!(app.selected_detail(), "");
    app.set_selected(vec!["s1".to_string(), "bad_one".to_string()]);
    assert_eq!(app.selected_detail(), "boom\ndetails\ncaptured");
}

#[test]
fn failed_rerun_erases_previous_run() {
    let mut app = App::new("report.xml".to_string(), None);
    app.update(Action::TestResult(Ok(failing_report())));
    assert!(matches!(app.result, Some(Ok(_))));
    app.update(Action::TestResult(Err(RunError::Utf8)));
    assert!(matches!(app.result, Some(Err(RunError::Utf8))));
    assert!(app.nav.selected.is_empty());
    assert!(app.nav.expanded.is_empty());
    assert_eq!(app.selected_detail(), "");
}

#[test]
fn inconsistent_report_becomes_counts_error() {
    let mut app = App::new("report.xml".to_string(), None);
    let report = Report {
        suites: vec![Suite {
            id: None,
            name: "s".to_string(),
            tests: 0,
            errors: 0,
            failures: 1,
            skipped: 0,
            suites: vec![],
            cases: vec![],
        }],
    };
    app.update(Action::TestResult(Ok(report)));
    assert!(matches!(app.result, Some(Err(RunError::Counts))));
}

#[test]
fn trigger_action_behaves_like_trigger_run() {
    let mut app = App::new("report.xml".to_string(), None);
    let req = app.update(Action::TriggerRun);
    assert!(req.is_some());
    let req = app.update(Action::TriggerRun);
    assert!(req.is_none());
}

#[test]
fn counter_saturates_both_ways() {
    let mut app = App::new("f".to_string(), None);
    app.decrement_counter();
    assert_eq!(app.counter, 0);
    app.increment_counter();
    app.increment_counter();
    assert_eq!(app.counter, 2);
    app.decrement_counter();
    assert_eq!(app.counter, 1);
    app.counter = u8::MAX;
    app.increment_counter();
    assert_eq!(app.counter, u8::MAX);
}

#[test]
fn tick_only_advances_animation() {
    let mut app = App::new("f".to_string(), None);
    app.tick();
    app.tick();
    assert_eq!(app.throbber_frame, 2);
    assert!(app.running);
    assert!(!app.is_running);
    app.throbber_frame = u64::MAX;
    app.tick();
    assert_eq!(app.throbber_frame, 0);
}

#[test]
fn quit_clears_running() {
    let mut app = App::new("f".to_string(), None);
    app.quit();
    assert!(!app.running);
}

#[test]
fn split_keeps_empty_segments() {
    let parts = split_spaces("a  b");
    assert_eq!(parts, vec!["a".to_string(), "".to_string(), "b".to_string()]);
    assert_eq!(split_spaces(""), vec!["".to_string()]);
    assert_eq!(split_spaces("cat"), vec!["cat".to_string()]);
    assert_eq!(split_spaces(" x"), vec!["".to_string(), "x".to_string()]);
}
