use wingman_core::interpreter::{ExecutionPlanV1, StagePlanV1};
use wingman_core::runner_cancel::RunnerCancellationV1;
use wingman_core::runner_readonly::{
    is_redirected_output_failure, readonly_preflight, PreflightOutcomeV1,
    number_record, operand_diagnostic, path_resolution_exit, readonly_source, stream_exit_code,
    OrderedStreamV1, ReadonlyExecutionErrorV1, StreamStepV1,
};
use wingman_core::text_stream::{RecordFrameV1, TextDecodeErrorV1, TextReadErrorV1};
use wingman_core::windows_path::{validate_path_value, PathResolutionErrorV1};

fn frame(text: &str, terminated: bool) -> RecordFrameV1 {
    RecordFrameV1 { text: text.to_string(), terminated }
}

fn cat_plan(number_lines: bool, names: &[&str]) -> ExecutionPlanV1 {
    let paths = names.iter().map(|n| validate_path_value(n).unwrap()).collect();
    ExecutionPlanV1 { stages: vec![StagePlanV1::ReadTextFiles { paths, number_lines }], redirect: None }
}

#[test]
fn cat_reads_its_files_with_line_numbers() {
    let plan = cat_plan(true, &["a.txt", "b.txt"]);
    let source = readonly_source(&plan).unwrap();
    assert_eq!(source.command_name, "cat");
    assert_eq!(source.paths.len(), 2);
    assert!(source.number_lines);
    assert!(!source.grep_direct);
    assert!(!source.grep_is_final);
    assert_eq!(source.follow_count, None);
}

#[test]
fn a_later_stage_with_its_own_file_is_unsupported() {
    let a = validate_path_value("a.txt").unwrap();
    let b = validate_path_value("b.txt").unwrap();
    let plan = ExecutionPlanV1 {
        stages: vec![
            StagePlanV1::ReadTextFiles { paths: vec![a], number_lines: false },
            StagePlanV1::HeadLines { count: 1, path: Some(b) },
        ],
        redirect: None,
    };
    assert!(matches!(readonly_source(&plan), Err(ReadonlyExecutionErrorV1::UnsupportedPlan)));
}

#[test]
fn numbering_right_aligns_in_six_columns() {
    let mut next = 1u64;
    let numbered = number_record(frame("x", true), true, &mut next).unwrap();
    assert_eq!(numbered.text, "     1\tx");
    assert_eq!(next, 2);
    let mut big = 1234567u64;
    assert_eq!(number_record(frame("y", true), true, &mut big).unwrap().text, "1234567\ty");
    let mut last = u64::MAX;
    assert!(matches!(
        number_record(frame("z", true), true, &mut last),
        Err(ReadonlyExecutionErrorV1::Output { .. })
    ));
    let mut untouched = 5u64;
    assert_eq!(number_record(frame("w", true), false, &mut untouched).unwrap().text, "w");
    assert_eq!(untouched, 5);
}

#[test]
fn operand_diagnostics_name_the_path_or_its_position() {
    let path = validate_path_value("a.txt").unwrap();
    assert_eq!(
        operand_diagnostic("cat", 0, &path, "input cannot be opened"),
        "wingman cat: 'a.txt': input cannot be opened"
    );
    let long = "x".repeat(4_100);
    assert_eq!(
        operand_diagnostic("cat", 2, &path, &long),
        format!("wingman cat: input #3: {long}")
    );
}

#[test]
fn resolution_exit_codes() {
    assert_eq!(path_resolution_exit(PathResolutionErrorV1::InvalidCurrentDirectory), 1);
    assert_eq!(path_resolution_exit(PathResolutionErrorV1::TooLong), 2);
}

#[test]
fn stream_joins_split_lines_and_numbers_across_inputs() {
    let plan = cat_plan(true, &["a.txt", "b.txt"]);
    let source = readonly_source(&plan).unwrap();
    let cancellation = RunnerCancellationV1::new();
    let mut stream = OrderedStreamV1::new(&plan, &source).unwrap();
    assert!(stream.accepts_input());
    stream.begin_input();
    assert_eq!(stream.record(0, frame("hel", false), &cancellation), Ok(StreamStepV1::Continue));
    assert_eq!(stream.record(0, frame("lo", true), &cancellation), Ok(StreamStepV1::Continue));
    assert_eq!(stream.end_input(0, &cancellation), Ok(StreamStepV1::Continue));
    stream.begin_input();
    assert_eq!(stream.record(1, frame("world", true), &cancellation), Ok(StreamStepV1::Continue));
    assert_eq!(stream.end_input(1, &cancellation), Ok(StreamStepV1::Continue));
    let result = stream.finish(2, &cancellation).unwrap();
    assert!(!result.had_operational_failure);
    assert!(result.diagnostics.is_empty());
    assert!(!result.cancelled);
    assert_eq!(stream_exit_code(&result, source.grep_is_final), 0);
    let mut out = stream.take_output();
    out.extend(stream.into_final_frame());
    let texts: Vec<&str> = out.iter().map(|f| f.text.as_str()).collect();
    assert_eq!(texts, vec!["     1\thello", "     2\tworld"]);
}

#[test]
fn a_failed_read_is_a_diagnostic_and_exit_code_one() {
    let plan = cat_plan(false, &["a.txt"]);
    let source = readonly_source(&plan).unwrap();
    let cancellation = RunnerCancellationV1::new();
    let mut stream = OrderedStreamV1::new(&plan, &source).unwrap();
    stream.begin_input();
    stream.read_failed(0, &TextReadErrorV1::Decode(TextDecodeErrorV1::Nul { byte_offset: 3 }));
    let result = stream.finish(1, &cancellation).unwrap();
    assert!(result.had_operational_failure);
    assert_eq!(result.diagnostics, vec!["wingman cat: 'a.txt': input is not valid bounded UTF-8 text".to_string()]);
    assert_eq!(stream_exit_code(&result, false), 1);
}

#[test]
fn a_final_grep_without_a_match_exits_one() {
    let path = validate_path_value("a.txt").unwrap();
    let plan = ExecutionPlanV1 {
        stages: vec![StagePlanV1::SearchText {
            pattern: "zzz".to_string(),
            paths: vec![path],
            ignore_case: false,
            line_numbers: false,
            invert_match: false,
            fixed_strings: true,
            recursive: false,
        }],
        redirect: None,
    };
    let source = readonly_source(&plan).unwrap();
    assert!(source.grep_direct && source.grep_is_final);
    let cancellation = RunnerCancellationV1::new();
    let mut stream = OrderedStreamV1::new(&plan, &source).unwrap();
    stream.begin_input();
    assert_eq!(stream.record(0, frame("abc", true), &cancellation), Ok(StreamStepV1::Continue));
    let result = stream.finish(1, &cancellation).unwrap();
    assert!(!result.grep_matched);
    assert_eq!(stream_exit_code(&result, source.grep_is_final), 1);
}

#[test]
fn a_sort_resource_fault_becomes_a_diagnostic() {
    let plan = ExecutionPlanV1 {
        stages: vec![
            StagePlanV1::ReadTextFiles { paths: vec![validate_path_value("a.txt").unwrap()], number_lines: false },
            StagePlanV1::SortLines { path: None, reverse: false, numeric: true, unique: false },
        ],
        redirect: None,
    };
    let source = readonly_source(&plan).unwrap();
    let cancellation = RunnerCancellationV1::new();
    let mut stream = OrderedStreamV1::new(&plan, &source).unwrap();
    stream.begin_input();
    assert_eq!(stream.record(0, frame("one", true), &cancellation), Ok(StreamStepV1::Continue));
    let result = stream.finish(1, &cancellation).unwrap();
    assert!(result.had_operational_failure);
    assert_eq!(result.diagnostics, vec!["wingman sort: invalid numeric data".to_string()]);
}

#[test]
fn the_preflight_takes_the_largest_resolution_code_then_open_failures() {
    assert_eq!(
        readonly_preflight(
            &[Some(PathResolutionErrorV1::InvalidCurrentDirectory), None, Some(PathResolutionErrorV1::TooLong)],
            &[],
        ),
        PreflightOutcomeV1::Exit { code: 2 }
    );
    assert_eq!(
        readonly_preflight(&[Some(PathResolutionErrorV1::InvalidCurrentDirectory), None], &[]),
        PreflightOutcomeV1::Exit { code: 1 }
    );
    assert_eq!(readonly_preflight(&[None, None], &[true, false]), PreflightOutcomeV1::Exit { code: 1 });
    assert_eq!(readonly_preflight(&[None, None], &[true, true]), PreflightOutcomeV1::Proceed);
    let output = ReadonlyExecutionErrorV1::Output { kind: std::io::ErrorKind::BrokenPipe };
    assert!(is_redirected_output_failure(&output, true));
    assert!(!is_redirected_output_failure(&output, false));
    assert!(!is_redirected_output_failure(&ReadonlyExecutionErrorV1::UnsupportedPlan, true));
}
