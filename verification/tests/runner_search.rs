use wingman_core::interpreter::{ExecutionPlanV1, StagePlanV1};
use wingman_core::runner_readonly::ReadonlyExecutionErrorV1;
use wingman_core::runner_search::{discovered_diagnostic, display_basename, display_root, find_diagnostic, recursive_plan};
use wingman_core::windows_path::validate_path_value;

#[test]
fn relative_roots_are_shown_folded() {
    let spec = validate_path_value("a\\.\\b\\..\\c").unwrap();
    assert_eq!(display_root(&spec, "C:\\work\\a\\c"), "a\\c");
    let up = validate_path_value("..\\x").unwrap();
    assert_eq!(display_root(&up, "C:\\x"), "..\\x");
    let here = validate_path_value(".").unwrap();
    assert_eq!(display_root(&here, "C:\\work"), ".");
    let absolute = validate_path_value("C:\\x\\..\\y").unwrap();
    assert_eq!(display_root(&absolute, "C:\\y"), "C:\\y");
}

#[test]
fn basenames_skip_trailing_separators() {
    assert_eq!(display_basename("a\\b\\"), "b");
    assert_eq!(display_basename("a\\b"), "b");
    assert_eq!(display_basename("abc"), "abc");
    assert_eq!(display_basename("\\\\"), "\\\\");
}

#[test]
fn discovered_diagnostics_fall_back_when_too_long() {
    assert_eq!(discovered_diagnostic("f.txt", "cannot be read"), "wingman grep: 'f.txt': cannot be read");
    let long = "x".repeat(5000);
    assert_eq!(discovered_diagnostic(&long, "cannot be read"), "wingman grep: discovered input: cannot be read");
    assert_eq!(find_diagnostic(&long, "cannot be read"), "wingman find: discovered entry: cannot be read");
    assert_eq!(find_diagnostic("d", "is a loop"), "wingman find: 'd': is a loop");
}

fn search(recursive: bool, paths: Vec<&str>, pattern: &str) -> ExecutionPlanV1 {
    ExecutionPlanV1 {
        stages: vec![StagePlanV1::SearchText {
            pattern: pattern.to_string(),
            paths: paths.into_iter().map(|p| validate_path_value(p).unwrap()).collect(),
            ignore_case: false,
            line_numbers: true,
            invert_match: false,
            fixed_strings: false,
            recursive,
        }],
        redirect: None,
    }
}

#[test]
fn recursive_plans_need_roots_and_a_pattern() {
    assert!(matches!(recursive_plan(&search(false, vec!["a"], "x")), Ok(None)));
    assert!(matches!(
        recursive_plan(&search(true, Vec::new(), "x")),
        Err(ReadonlyExecutionErrorV1::UnsupportedPlan)
    ));
    match recursive_plan(&search(true, vec!["a", "b"], "x")) {
        Ok(Some(grep)) => {
            assert_eq!(grep.paths.len(), 2);
            assert!(grep.line_numbers);
            assert!(grep.grep_is_final);
        }
        _ => panic!("a recursive search was expected"),
    }
}
