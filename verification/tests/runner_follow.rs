use wingman_core::interpreter::{ExecutionPlanV1, StagePlanV1};
use wingman_core::runner_cancel::RunnerCancellationV1;
use wingman_core::runner_follow::{FollowStepV1, FollowStreamV1};
use wingman_core::runner_readonly::{readonly_source, ReadonlyExecutionErrorV1, ReadonlySourceV1};
use wingman_core::windows_path::validate_path_value;

fn follow_plan(count: usize) -> ExecutionPlanV1 {
    ExecutionPlanV1 {
        stages: vec![StagePlanV1::FollowFile { count, path: validate_path_value("log.txt").unwrap() }],
        redirect: None,
    }
}

/// A plan whose stages an ordered pipeline runs, read as following `log.txt` for the last
/// `count` lines.
fn following(count: usize) -> (ExecutionPlanV1, ReadonlySourceV1) {
    let path = validate_path_value("log.txt").unwrap();
    let plan = ExecutionPlanV1 {
        stages: vec![StagePlanV1::ReadTextFiles { paths: vec![path.clone()], number_lines: false }],
        redirect: None,
    };
    let source = ReadonlySourceV1 {
        command_name: "tail".to_string(),
        paths: vec![path],
        number_lines: false,
        grep_is_final: false,
        grep_direct: false,
        follow_count: Some(count),
    };
    (plan, source)
}

#[test]
fn a_follow_stage_is_no_stage_the_pipeline_runs() {
    let plan = follow_plan(2);
    let source = readonly_source(&plan).unwrap();
    assert_eq!(source.follow_count, Some(2));
    assert!(matches!(FollowStreamV1::new(&plan, &source), Err(ReadonlyExecutionErrorV1::UnsupportedPlan)));
}

fn texts(follow: &mut FollowStreamV1) -> Vec<String> {
    follow.take_output().into_iter().map(|f| f.text).collect()
}

#[test]
fn follow_starts_with_the_last_lines_then_appends() {
    let (plan, source) = following(2);
    let cancellation = RunnerCancellationV1::new();
    let mut follow = FollowStreamV1::new(&plan, &source).unwrap();
    assert_eq!(follow.bytes(b"a\nb\nc\n", &cancellation), Ok(FollowStepV1::Read));
    assert!(texts(&mut follow).is_empty());
    assert_eq!(follow.end_of_data(None, &cancellation), Ok(FollowStepV1::Read));
    let mut seen = texts(&mut follow);
    assert_eq!(follow.bytes(b"d\n", &cancellation), Ok(FollowStepV1::Read));
    seen.extend(texts(&mut follow));
    assert_eq!(follow.end_of_data(Some(8), &cancellation), Ok(FollowStepV1::Sleep));
    let mut stream = follow.into_stream();
    let result = stream.finish(1, &cancellation).unwrap();
    seen.extend(stream.take_output().into_iter().map(|f| f.text));
    if let Some(last) = stream.into_final_frame() {
        seen.push(last.text);
    }
    assert_eq!(seen, vec!["b".to_string(), "c".to_string(), "d".to_string()]);
    assert!(!result.had_operational_failure);
}

#[test]
fn truncation_while_following_fails_the_input() {
    let (plan, source) = following(1);
    let cancellation = RunnerCancellationV1::new();
    let mut follow = FollowStreamV1::new(&plan, &source).unwrap();
    assert_eq!(follow.bytes(b"one\ntwo\n", &cancellation), Ok(FollowStepV1::Read));
    assert_eq!(follow.end_of_data(Some(8), &cancellation), Ok(FollowStepV1::Read));
    assert_eq!(follow.end_of_data(Some(3), &cancellation), Ok(FollowStepV1::Stop));
    assert!(!follow.wants_input());
    let mut stream = follow.into_stream();
    let result = stream.finish(1, &cancellation).unwrap();
    assert!(result.had_operational_failure);
    assert_eq!(result.diagnostics, vec!["wingman tail: 'log.txt': input was truncated while following".to_string()]);
}

#[test]
fn bad_text_and_read_errors_fail_the_input() {
    let (plan, source) = following(3);
    let cancellation = RunnerCancellationV1::new();
    let mut follow = FollowStreamV1::new(&plan, &source).unwrap();
    assert_eq!(follow.bytes(b"ok\n\0", &cancellation), Ok(FollowStepV1::Stop));
    let mut stream = follow.into_stream();
    let result = stream.finish(1, &cancellation).unwrap();
    assert_eq!(result.diagnostics, vec!["wingman tail: 'log.txt': input is not valid bounded UTF-8 text".to_string()]);

    let mut follow = FollowStreamV1::new(&plan, &source).unwrap();
    follow.read_failed();
    assert!(!follow.wants_input());
    let mut stream = follow.into_stream();
    let result = stream.finish(1, &cancellation).unwrap();
    assert_eq!(result.diagnostics, vec!["wingman tail: 'log.txt': input read failed".to_string()]);
}

#[test]
fn plans_without_a_follow_count_are_unsupported() {
    let plan = ExecutionPlanV1 {
        stages: vec![StagePlanV1::ReadTextFiles { paths: vec![validate_path_value("a").unwrap()], number_lines: false }],
        redirect: None,
    };
    let source = readonly_source(&plan).unwrap();
    assert!(FollowStreamV1::new(&plan, &source).is_err());
}
