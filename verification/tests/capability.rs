use testdash::report::report_is_wf;
use testdash::run::{process_output, RunError};
use testdash::tree::TestRun;

const REPORT_XML: &str = "<testsuites>\
<testsuite name=\"ts\" tests=\"2\" failures=\"1\">\
<testcase name=\"good\"/>\
<testcase name=\"bad\"><failure message=\"bad assert\">stack here</failure></testcase>\
</testsuite>\
</testsuites>";

#[test]
fn output_parses_into_report() {
    let report = process_output(REPORT_XML.as_bytes().to_vec()).expect("well-formed report");
    assert_eq!(report.suites.len(), 1);
    let suite = &report.suites[0];
    assert_eq!(suite.name, "ts");
    assert_eq!(suite.tests, 2);
    assert_eq!(suite.failures, 1);
    assert_eq!(suite.cases.len(), 2);
    assert_eq!(suite.cases[0].name, "good");
    assert_eq!(suite.cases[1].name, "bad");
    match &suite.cases[1].status {
        testdash::report::Status::Failure { message, text } => {
            assert_eq!(message, "bad assert");
            assert_eq!(text, "stack here");
        }
        _ => panic!("expected a failure status"),
    }
}

#[test]
fn parsed_output_feeds_the_builder() {
    let report = process_output(REPORT_XML.as_bytes().to_vec()).expect("well-formed report");
    assert!(report_is_wf(&report));
    let run = TestRun::new(report);
    assert_eq!(run.passes, 1);
    assert_eq!(run.failures, 1);
    assert_eq!(run.skipped, 0);
    let info = run.cases.get("bad").expect("failing case indexed");
    assert!(matches!(info.result, testdash::report::Status::Failure { .. }));
}

#[test]
fn non_utf8_output_is_a_decode_error() {
    let out = process_output(vec![0xff, 0xfe, 0x00, 0x41]);
    assert!(matches!(out, Err(RunError::Utf8)));
}

#[test]
fn unparsable_text_is_a_parse_error() {
    let out = process_output(b"this is not a report".to_vec());
    assert!(matches!(out, Err(RunError::Parse { .. })));
}
