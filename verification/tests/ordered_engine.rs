use wingman_core::interpreter::{ExecutionPlanV1, StagePlanV1};
use wingman_core::ordered_pipeline::{
    OrderedFinishCauseV1, OrderedFlowV1, OrderedPipelineFaultV1, OrderedPipelineV1,
};
use wingman_core::runner_cancel::RunnerCancellationV1;
use wingman_core::text_stream::RecordFrameV1;
use wingman_core::windows_path::validate_path_value;

fn line(text: &str) -> RecordFrameV1 {
    RecordFrameV1 { text: text.to_string(), terminated: true }
}

fn plan(stages: Vec<StagePlanV1>) -> ExecutionPlanV1 {
    ExecutionPlanV1 { stages, redirect: None }
}

fn grep(pattern: &str) -> StagePlanV1 {
    StagePlanV1::SearchText {
        pattern: pattern.to_string(),
        paths: Vec::new(),
        ignore_case: false,
        line_numbers: false,
        invert_match: false,
        fixed_strings: false,
        recursive: false,
    }
}

fn run(stages: Vec<StagePlanV1>, input: &[&str]) -> Result<Vec<RecordFrameV1>, OrderedPipelineFaultV1> {
    let cancellation = RunnerCancellationV1::new();
    let mut pipeline = OrderedPipelineV1::new(&plan(stages), &[])?;
    let mut out = Vec::new();
    let mut cause = OrderedFinishCauseV1::Complete;
    for text in input {
        match pipeline.push(line(text), 0, &cancellation)? {
            OrderedFlowV1::Continue => {}
            OrderedFlowV1::StopUpstream => {
                cause = OrderedFinishCauseV1::UpstreamStopped;
                break;
            }
        }
    }
    pipeline.finish(cause, &cancellation)?;
    out.extend(pipeline.take_output());
    out.extend(pipeline.into_final_frame());
    Ok(out)
}

fn texts(frames: &[RecordFrameV1]) -> Vec<&str> {
    frames.iter().map(|f| f.text.as_str()).collect()
}

#[test]
fn grep_then_head_stops_after_enough_matches() {
    let cancellation = RunnerCancellationV1::new();
    let mut pipeline = OrderedPipelineV1::new(
        &plan(vec![grep("a"), StagePlanV1::HeadLines { count: 2, path: None }]),
        &[],
    )
    .unwrap();
    assert_eq!(pipeline.push(line("apple"), 0, &cancellation), Ok(OrderedFlowV1::Continue));
    assert_eq!(pipeline.push(line("cherry"), 0, &cancellation), Ok(OrderedFlowV1::Continue));
    assert_eq!(pipeline.push(line("banana"), 0, &cancellation), Ok(OrderedFlowV1::StopUpstream));
    pipeline.finish(OrderedFinishCauseV1::UpstreamStopped, &cancellation).unwrap();
    let mut out = pipeline.take_output();
    out.extend(pipeline.into_final_frame());
    assert_eq!(texts(&out), vec!["apple", "banana"]);
}

#[test]
fn head_of_no_lines_wants_no_input() {
    let pipeline = OrderedPipelineV1::new(&plan(vec![StagePlanV1::HeadLines { count: 0, path: None }]), &[]).unwrap();
    assert!(pipeline.starts_stopped());
}

#[test]
fn tail_keeps_the_last_records() {
    let out = run(vec![StagePlanV1::TailLines { count: 2, path: None }], &["a", "b", "c", "d"]).unwrap();
    assert_eq!(texts(&out), vec!["c", "d"]);
}

#[test]
fn count_counts_terminated_records() {
    let out = run(vec![StagePlanV1::CountLines { path: None }], &["a", "b", "c"]).unwrap();
    assert_eq!(texts(&out), vec!["3"]);
    assert!(out[0].terminated);
}

#[test]
fn sort_orders_by_code_point() {
    let out = run(
        vec![StagePlanV1::SortLines { path: None, reverse: false, numeric: false, unique: false }],
        &["pear", "Apple", "apple", "banana"],
    )
    .unwrap();
    assert_eq!(texts(&out), vec!["Apple", "apple", "banana", "pear"]);
}

#[test]
fn numeric_reverse_unique_sort() {
    let out = run(
        vec![StagePlanV1::SortLines { path: None, reverse: true, numeric: true, unique: true }],
        &["10", "2", "10", "-1.5", "2.0"],
    )
    .unwrap();
    assert_eq!(texts(&out), vec!["10", "2", "2.0", "-1.5"]);
}

#[test]
fn numeric_sort_keeps_equal_values_in_input_order() {
    let out = run(
        vec![StagePlanV1::SortLines { path: None, reverse: false, numeric: true, unique: false }],
        &["2.0", "1", "02", "2", "1.00"],
    )
    .unwrap();
    assert_eq!(texts(&out), vec!["1", "1.00", "2.0", "02", "2"]);
    let reversed = run(
        vec![StagePlanV1::SortLines { path: None, reverse: true, numeric: true, unique: false }],
        &["2.0", "1", "02", "2", "1.00"],
    )
    .unwrap();
    assert_eq!(texts(&reversed), vec!["2.0", "02", "2", "1", "1.00"]);
}

#[test]
fn unique_sort_keeps_one_record_per_text() {
    let out = run(
        vec![StagePlanV1::SortLines { path: None, reverse: false, numeric: false, unique: true }],
        &["b", "a", "b", "a", "c"],
    )
    .unwrap();
    assert_eq!(texts(&out), vec!["a", "b", "c"]);
}

#[test]
fn numeric_sort_of_text_is_invalid() {
    let result = run(
        vec![StagePlanV1::SortLines { path: None, reverse: false, numeric: true, unique: false }],
        &["1", "two"],
    );
    assert_eq!(result, Err(OrderedPipelineFaultV1::InvalidNumeric));
}

#[test]
fn uniq_counts_adjacent_groups() {
    let out = run(
        vec![StagePlanV1::UniqueLines { path: None, count: true, repeated_only: false, unique_only: false }],
        &["a", "a", "b", "a"],
    )
    .unwrap();
    assert_eq!(texts(&out), vec!["2 a", "1 b", "1 a"]);
}

#[test]
fn uniq_repeated_only_writes_repeated_groups() {
    let out = run(
        vec![StagePlanV1::UniqueLines { path: None, count: false, repeated_only: true, unique_only: false }],
        &["a", "a", "b", "c", "c"],
    )
    .unwrap();
    assert_eq!(texts(&out), vec!["a", "c"]);
}

#[test]
fn grep_marks_line_numbers_and_paths_of_several_inputs() {
    let first = validate_path_value("dir/one.txt").unwrap();
    let second = validate_path_value("two.txt").unwrap();
    let stage = StagePlanV1::SearchText {
        pattern: "x".to_string(),
        paths: vec![first.clone(), second.clone()],
        ignore_case: false,
        line_numbers: true,
        invert_match: false,
        fixed_strings: true,
        recursive: false,
    };
    let cancellation = RunnerCancellationV1::new();
    let mut pipeline = OrderedPipelineV1::new(&plan(vec![stage]), &[first, second]).unwrap();
    pipeline.start_input();
    pipeline.push(line("no"), 0, &cancellation).unwrap();
    pipeline.push(line("x1"), 0, &cancellation).unwrap();
    pipeline.start_input();
    pipeline.push(line("x2"), 1, &cancellation).unwrap();
    pipeline.finish(OrderedFinishCauseV1::Complete, &cancellation).unwrap();
    assert_eq!(pipeline.final_search_matched(), Some(true));
    let mut out = pipeline.take_output();
    out.extend(pipeline.into_final_frame());
    assert_eq!(texts(&out), vec!["dir\\one.txt:2:x1", "two.txt:1:x2"]);
}

#[test]
fn a_pattern_that_does_not_compile_is_unsupported() {
    let result = OrderedPipelineV1::new(&plan(vec![grep("(")]), &[]);
    assert!(matches!(result, Err(OrderedPipelineFaultV1::Unsupported)));
}

#[test]
fn a_file_source_after_the_first_stage_is_unsupported() {
    let path = validate_path_value("a.txt").unwrap();
    let result = OrderedPipelineV1::new(
        &plan(vec![grep("a"), StagePlanV1::ReadTextFiles { paths: vec![path], number_lines: false }]),
        &[],
    );
    assert!(matches!(result, Err(OrderedPipelineFaultV1::Unsupported)));
}

#[test]
fn a_cancelled_pipeline_stops() {
    let cancellation = RunnerCancellationV1::new();
    let mut pipeline = OrderedPipelineV1::new(&plan(vec![grep("a")]), &[]).unwrap();
    cancellation.cancel();
    assert_eq!(pipeline.push(line("a"), 0, &cancellation), Err(OrderedPipelineFaultV1::Cancelled));
}

#[test]
fn an_unterminated_record_is_held_until_the_end() {
    let cancellation = RunnerCancellationV1::new();
    let mut pipeline = OrderedPipelineV1::new(&plan(vec![grep("a")]), &[]).unwrap();
    pipeline
        .push(RecordFrameV1 { text: "ab".to_string(), terminated: false }, 0, &cancellation)
        .unwrap();
    pipeline.finish(OrderedFinishCauseV1::Complete, &cancellation).unwrap();
    assert!(pipeline.take_output().is_empty());
    let last = pipeline.into_final_frame().unwrap();
    assert_eq!(last, RecordFrameV1 { text: "ab".to_string(), terminated: false });
}
