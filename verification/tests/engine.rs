use testdash::app::detail_text;
use testdash::policy::{default_selection, open_all_failed};
use testdash::report::{report_is_wf, Case, Report, Status, Suite};
use testdash::tree::{NodeColor, TestRun};

fn mk_case(name: &str, status: Status, output: Option<&str>) -> Case {
    Case { name: name.to_string(), status, output: output.map(|s| s.to_string()) }
}

fn mk_suite(
    id: Option<&str>,
    name: &str,
    tests: u64,
    errors: u64,
    failures: u64,
    skipped: u64,
    suites: Vec<Suite>,
    cases: Vec<Case>,
) -> Suite {
    Suite {
        id: id.map(|s| s.to_string()),
        name: name.to_string(),
        tests,
        errors,
        failures,
        skipped,
        suites,
        cases,
    }
}

fn leaves(node: &testdash::tree::TreeNode) -> usize {
    if node.children.is_empty() {
        1
    } else {
        node.children.iter().map(leaves).sum()
    }
}

#[test]
fn one_passing_case() {
    let report = Report {
        suites: vec![mk_suite(
            None,
            "root",
            1,
            0,
            0,
            0,
            vec![],
            vec![mk_case("t1", Status::Success, None)],
        )],
    };
    assert!(report_is_wf(&report));
    let expanded = open_all_failed(&report);
    assert!(expanded.is_empty());
    let run = TestRun::new(report);
    assert_eq!(run.passes, 1);
    assert_eq!(run.failures, 0);
    assert_eq!(run.skipped, 0);
    assert_eq!(run.tree.len(), 1);
    assert_eq!(run.tree[0].id, "root");
    assert_eq!(run.tree[0].children.len(), 1);
    assert_eq!(run.tree[0].children[0].id, "t1");
    assert!(matches!(run.tree[0].children[0].color, NodeColor::Green));
    assert!(matches!(run.tree[0].color, NodeColor::Green));
}

#[test]
fn one_failing_one_passing_case() {
    let report = Report {
        suites: vec![mk_suite(
            None,
            "s1",
            2,
            0,
            1,
            0,
            vec![],
            vec![
                mk_case("ok_case", Status::Success, None),
                mk_case(
                    "bad_case",
                    Status::Failure {
                        message: "boom".to_string(),
                        text: "details".to_string(),
                    },
                    Some("captured"),
                ),
            ],
        )],
    };
    let expanded = open_all_failed(&report);
    assert_eq!(expanded, vec!["s1".to_string()]);
    let run = TestRun::new(report);
    assert_eq!(run.passes, 1);
    assert_eq!(run.failures, 1);
    assert_eq!(run.skipped, 0);
    assert!(matches!(run.tree[0].color, NodeColor::Red));
    assert!(matches!(run.tree[0].children[1].color, NodeColor::Red));
    assert_eq!(detail_text(&run, "bad_case"), "boom\ndetails\ncaptured");
    assert_eq!(detail_text(&run, "ok_case"), "\n");
    assert_eq!(detail_text(&run, "missing"), "");
}

#[test]
fn empty_report() {
    let report = Report { suites: vec![] };
    let expanded = open_all_failed(&report);
    assert!(expanded.is_empty());
    let run = TestRun::new(report);
    assert_eq!(run.passes, 0);
    assert_eq!(run.failures, 0);
    assert_eq!(run.skipped, 0);
    assert!(run.tree.is_empty());
    assert!(default_selection(&run).is_none());
}

#[test]
fn default_selection_is_first_root() {
    let report = Report {
        suites: vec![
            mk_suite(Some("first"), "a", 0, 0, 0, 0, vec![], vec![]),
            mk_suite(Some("second"), "b", 0, 0, 0, 0, vec![], vec![]),
        ],
    };
    let run = TestRun::new(report);
    assert_eq!(default_selection(&run), Some("first".to_string()));
}

#[test]
fn case_name_collision_last_wins() {
    let report = Report {
        suites: vec![
            mk_suite(
                None,
                "s1",
                1,
                0,
                0,
                0,
                vec![],
                vec![mk_case("dup", Status::Success, Some("first"))],
            ),
            mk_suite(
                None,
                "s2",
                1,
                0,
                0,
                0,
                vec![],
                vec![mk_case("dup", Status::Success, Some("second"))],
            ),
        ],
    };
    let run = TestRun::new(report);
    let info = run.cases.get("dup").expect("collided name must stay bound");
    assert_eq!(info.output, Some("second".to_string()));
}

#[test]
fn auto_expand_marks_every_ancestor() {
    let failing = mk_suite(
        Some("inner"),
        "inner suite",
        1,
        1,
        0,
        0,
        vec![],
        vec![mk_case(
            "broken",
            Status::Error { message: "e".to_string(), text: "t".to_string() },
            None,
        )],
    );
    let clean = mk_suite(
        Some("clean"),
        "clean suite",
        1,
        0,
        0,
        0,
        vec![],
        vec![mk_case("fine", Status::Success, None)],
    );
    let report = Report {
        suites: vec![mk_suite(Some("outer"), "outer suite", 2, 1, 0, 0, vec![failing, clean], vec![])],
    };
    let expanded = open_all_failed(&report);
    assert_eq!(expanded, vec!["inner".to_string(), "outer".to_string()]);
}

#[test]
fn leaves_match_cases_across_nesting() {
    let inner = mk_suite(
        None,
        "inner",
        2,
        0,
        0,
        0,
        vec![],
        vec![
            mk_case("a", Status::Success, None),
            mk_case("b", Status::Success, None),
        ],
    );
    let report = Report {
        suites: vec![mk_suite(
            None,
            "outer",
            3,
            0,
            0,
            0,
            vec![inner],
            vec![mk_case("c", Status::Success, None)],
        )],
    };
    let run = TestRun::new(report);
    let total: usize = run.tree.iter().map(leaves).sum();
    assert_eq!(total, 3);
    assert_eq!(run.cases.len(), 3);
}

#[test]
fn skipped_suite_is_yellow_and_counted() {
    let report = Report {
        suites: vec![mk_suite(
            None,
            "s",
            2,
            0,
            0,
            1,
            vec![],
            vec![
                mk_case("done", Status::Success, None),
                mk_case(
                    "ignored",
                    Status::Skipped { message: "m".to_string(), text: "t".to_string() },
                    None,
                ),
            ],
        )],
    };
    let run = TestRun::new(report);
    assert_eq!(run.passes, 1);
    assert_eq!(run.failures, 0);
    assert_eq!(run.skipped, 1);
    assert!(matches!(run.tree[0].color, NodeColor::Yellow));
    assert!(matches!(run.tree[0].children[1].color, NodeColor::Yellow));
}

#[test]
fn totals_add_up_to_declared_tests() {
    let report = Report {
        suites: vec![
            mk_suite(None, "s1", 5, 1, 1, 1, vec![], vec![]),
            mk_suite(None, "s2", 3, 0, 2, 0, vec![], vec![]),
        ],
    };
    let run = TestRun::new(report);
    assert_eq!(run.passes + run.failures + run.skipped, 8);
    assert_eq!(run.passes, 3);
    assert_eq!(run.failures, 4);
    assert_eq!(run.skipped, 1);
}

#[test]
fn inconsistent_counts_are_rejected() {
    let report = Report { suites: vec![mk_suite(None, "s", 0, 0, 1, 0, vec![], vec![])] };
    assert!(!report_is_wf(&report));
}
