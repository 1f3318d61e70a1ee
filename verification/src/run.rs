//! The run capability's computing half: decoding the captured output of the
//! external test command and parsing it into a report. The process is spawned
//! outside the library; this module receives the raw bytes it produced.

use vstd::prelude::*;

use junit_parser::TestStatus;

use crate::report::{Case, Report, Status, Suite, SuiteV};

verus! {

#[verifier::external_type_specification]
#[verifier::external_body]
pub struct ExTestSuite(junit_parser::TestSuite);

#[verifier::external_type_specification]
#[verifier::external_body]
pub struct ExTestCase(junit_parser::TestCase);

/// What the external JUnit parser yields for a given report text: the parsed
/// suites, or nothing when the text is not a well-formed report. The result
/// is a function of the text alone.
pub uninterp spec fn parsed_suites(text: Seq<char>) -> Option<Seq<SuiteV>>;

/// Why a triggered run produced no report.
#[derive(Debug)]
pub enum RunError {
    /// The external command could not be spawned or its output not captured.
    Spawn { message: String },
    /// The captured output was not valid UTF-8.
    Utf8,
    /// The captured output was text but not a well-formed report.
    Parse { message: String },
    /// The parsed report declared inconsistent or out-of-range counts.
    Counts,
}

/// Carries one parsed case into the report model for `parse_junit` below; the
/// parsed values never reach verified code directly.
#[verifier::external_body]
fn case_from_junit(c: &junit_parser::TestCase) -> Case {
    let status = match &c.status {
        TestStatus::Success => Status::Success,
        TestStatus::Error(d) => Status::Error { message: d.message.clone(), text: d.text.clone() },
        TestStatus::Failure(d) => Status::Failure {
            message: d.message.clone(),
            text: d.text.clone(),
        },
        TestStatus::Skipped(d) => Status::Skipped {
            message: d.message.clone(),
            text: d.text.clone(),
        },
    };
    Case { name: c.name.clone(), status, output: c.system_out.clone() }
}

/// Carries one parsed suite and everything beneath it into the report model
/// for `parse_junit` below.
#[verifier::external_body]
fn suite_from_junit(s: &junit_parser::TestSuite) -> Suite {
    Suite {
        id: s.id.clone(),
        name: s.name.clone(),
        tests: s.tests,
        errors: s.errors,
        failures: s.failures,
        skipped: s.skipped,
        suites: s.suites.iter().map(suite_from_junit).collect(),
        cases: s.cases.iter().map(case_from_junit).collect(),
    }
}

/// Relies on junit_parser::from_reader: parses a JUnit report from text; the
/// result is a function of the text alone. On failure the parser's error
/// description is returned.
#[verifier::external_body]
fn parse_junit(text: &str) -> (r: Result<Report, String>)
    ensures
        r is Ok <==> parsed_suites(text@) is Some,
        r matches Ok(rep) ==> parsed_suites(text@) == Some(rep@),
{
    match junit_parser::from_reader(std::io::Cursor::new(text)) {
        Ok(ts) => Ok(Report { suites: ts.suites.iter().map(suite_from_junit).collect() }),
        Err(e) => Err(format!("{}", e)),
    }
}

/// Relies on String::from_utf8: succeeds exactly on valid UTF-8 input and
/// returns the text those bytes encode.
#[verifier::external_body]
fn decode_output(bytes: Vec<u8>) -> (r: Option<String>)
    ensures
        r is Some <==> vstd::utf8::valid_utf8(bytes@),
        r matches Some(s) ==> s@ == vstd::utf8::decode_utf8(bytes@),
{
    String::from_utf8(bytes).ok()
}

/// Turns the captured standard output of the external test command into a
/// parsed report: decodes the bytes as UTF-8, then parses the text. Fails
/// with `Utf8` exactly on undecodable output and with `Parse` exactly on
/// unparsable text.
pub fn process_output(stdout: Vec<u8>) -> (r: Result<Report, RunError>)
    ensures
        match r {
            Ok(rep) => vstd::utf8::valid_utf8(stdout@) && parsed_suites(
                vstd::utf8::decode_utf8(stdout@),
            ) == Some(rep@),
            Err(e) => match e {
                RunError::Utf8 => !vstd::utf8::valid_utf8(stdout@),
                RunError::Parse { .. } => vstd::utf8::valid_utf8(stdout@) && parsed_suites(
                    vstd::utf8::decode_utf8(stdout@),
                ) is None,
                _ => false,
            },
        },
{
    match decode_output(stdout) {
        None => Err(RunError::Utf8),
        Some(text) => match parse_junit(text.as_str()) {
            Ok(rep) => Ok(rep),
            Err(m) => Err(RunError::Parse { message: m }),
        },
    }
}

} // verus!
