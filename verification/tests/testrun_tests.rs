use caxe::config::Dependency;
use caxe::config::default_edition;
use caxe::pipeline::BuildResult;
use caxe::pipeline::completion_report;
use caxe::pipeline::is_rhai_script;
use caxe::pipeline::link_allowed;
use caxe::testrun::ExecStatus;
use caxe::testrun::TestOutcome;
use caxe::testrun::all_passed;
use caxe::testrun::discover_tests;
use caxe::testrun::exec_plan;
use caxe::testrun::extension_of;
use caxe::testrun::file_stem;
use caxe::testrun::is_c_source;
use caxe::testrun::is_cpp_source;
use caxe::testrun::outcome_of_run;
use caxe::testrun::tally;
use caxe::testrun::test_output_path;

#[test]
fn extensions_and_stems() {
    assert_eq!(extension_of("tests/a.cpp"), Some("cpp".to_string()));
    assert_eq!(extension_of("a.tar.gz"), Some("gz".to_string()));
    assert_eq!(extension_of(".hidden"), None);
    assert_eq!(extension_of("noext"), None);
    assert_eq!(extension_of("dir.d/file"), None);
    assert_eq!(file_stem("tests/a.cpp"), "a");
    assert_eq!(file_stem("a.tar.gz"), "a.tar");
    assert_eq!(file_stem(".hidden"), ".hidden");
    assert_eq!(file_stem("noext"), "noext");
}

#[test]
fn source_recognition() {
    assert!(is_cpp_source("x.cpp"));
    assert!(is_cpp_source("x.cc"));
    assert!(is_cpp_source("x.cxx"));
    assert!(!is_cpp_source("x.c"));
    assert!(is_c_source("x.c"));
    assert!(!is_c_source("x.cpp"));
    assert!(!is_cpp_source("x.txt"));
    assert!(!is_c_source("x.txt"));
}

#[test]
fn test_binary_path() {
    assert_eq!(test_output_path("tests/smoke.cpp"), "build/tests/smoke");
    assert_eq!(test_output_path("tests/unit.c"), "build/tests/unit");
}

#[test]
fn discovery_selects_and_classifies() {
    let paths = vec![
        "tests/a.cpp".to_string(),
        "tests/readme.txt".to_string(),
        "tests/b.c".to_string(),
        "tests".to_string(),
    ];
    let units = discover_tests(&paths);
    assert_eq!(units.len(), 2);
    assert_eq!(units[0].path, "tests/a.cpp");
    assert!(units[0].is_cpp);
    assert_eq!(units[1].path, "tests/b.c");
    assert!(!units[1].is_cpp);
}

#[test]
fn execution_list_matches_compiled_binaries() {
    let compiled = vec![
        Some("build/tests/a".to_string()),
        None,
        Some("build/tests/c".to_string()),
    ];
    let bins = exec_plan(&compiled);
    assert_eq!(bins, vec!["build/tests/a".to_string(), "build/tests/c".to_string()]);
}

#[test]
fn run_counts_for_recognized_sources() {
    // a walk with three recognized sources among four entries
    let paths = vec![
        "t/a.cpp".to_string(),
        "t/b.c".to_string(),
        "t/notes.md".to_string(),
        "t/c.cc".to_string(),
    ];
    let units = discover_tests(&paths);
    assert_eq!(units.len(), 3);
    // one compile attempt each; one did not compile
    let compiled = vec![Some("build/tests/a".to_string()), None, Some("build/tests/c".to_string())];
    assert_eq!(compiled.len(), units.len());
    let bins = exec_plan(&compiled);
    assert_eq!(bins.len(), 2);
    // every discovered file is counted, compiled or not
    let outcomes = vec![TestOutcome::Pass, TestOutcome::CompileFail, TestOutcome::Fail];
    let report = tally(&outcomes);
    assert_eq!(report.total, units.len());
}

#[test]
fn outcome_classification() {
    assert_eq!(outcome_of_run(ExecStatus::Exited(true)), TestOutcome::Pass);
    assert_eq!(outcome_of_run(ExecStatus::Exited(false)), TestOutcome::Fail);
    assert_eq!(outcome_of_run(ExecStatus::LaunchFailed), TestOutcome::ExecFail);
}

#[test]
fn syntax_error_counts_as_compile_failure() {
    // three discovered files, one with a syntax error: it never runs
    let outcomes = vec![TestOutcome::Pass, TestOutcome::Pass, TestOutcome::CompileFail];
    let report = tally(&outcomes);
    assert_eq!(report.passed, 2);
    assert_eq!(report.total, 3);
    assert_ne!(outcomes[2], TestOutcome::ExecFail);
    assert!(!all_passed(&report));
}

#[test]
fn all_passed_requires_at_least_one_test() {
    let none: Vec<TestOutcome> = Vec::new();
    let empty = tally(&none);
    assert_eq!(empty.total, 0);
    assert!(!all_passed(&empty));
    let good = tally(&vec![TestOutcome::Pass, TestOutcome::Pass]);
    assert!(all_passed(&good));
}

fn unit_result(success: bool) -> BuildResult {
    BuildResult { success, stdout: String::new(), stderr: String::new() }
}

#[test]
fn completion_report_counts_each_unit_once() {
    let results = vec![unit_result(true), unit_result(false), unit_result(true)];
    let report = completion_report(&results);
    assert_eq!(report.succeeded, 2);
    assert_eq!(report.failed, 1);
}

#[test]
fn linking_waits_for_every_unit() {
    let good = vec![unit_result(true), unit_result(true)];
    assert!(link_allowed(&good));
    let bad = vec![unit_result(true), unit_result(false)];
    assert!(!link_allowed(&bad));
    let none: Vec<BuildResult> = Vec::new();
    assert!(link_allowed(&none));
}

#[test]
fn build_hook_kinds() {
    assert!(is_rhai_script("setup.rhai"));
    assert!(!is_rhai_script("make all"));
}

#[test]
fn defaults_and_urls() {
    assert_eq!(default_edition(), "c++20");
    let simple = Dependency::Simple("https://example.com/a.git".to_string());
    assert_eq!(simple.get_url(), "https://example.com/a.git");
    let complex = Dependency::Complex {
        git: "https://example.com/b.git".to_string(),
        branch: Some("main".to_string()),
        build: None,
        output: None,
    };
    assert_eq!(complex.get_url(), "https://example.com/b.git");
}
