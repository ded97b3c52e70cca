use wingman_core::runner_touch::{
    TouchFileActionV1, TouchFileOutcomeV1, TouchOperandActionV1, TouchOperandStateV1, TouchRunV1,
};

#[test]
fn missing_parents_and_non_files_fail_their_operand() {
    let mut run = TouchRunV1::new();
    assert_eq!(
        run.operand("a\\b", "C:\\A\\B", TouchOperandStateV1::MissingParent),
        TouchOperandActionV1::Failed { diagnostic: Some("wingman touch: a\\b: parent directory does not exist".to_string()) }
    );
    assert_eq!(
        run.operand("d", "C:\\D", TouchOperandStateV1::NotRegularFile),
        TouchOperandActionV1::Failed { diagnostic: Some("wingman touch: d: target is not a regular file".to_string()) }
    );
    assert_eq!(run.exit_code(), 1);
}

#[test]
fn a_file_created_in_the_run_is_reused() {
    let mut run = TouchRunV1::new();
    assert_eq!(run.operand("f", "C:\\F", TouchOperandStateV1::Missing), TouchOperandActionV1::Create);
    assert_eq!(run.file("f", "C:\\F", TouchFileOutcomeV1::Created), TouchFileActionV1::SetTimes);
    assert_eq!(run.timestamp_set("f", true), None);
    assert_eq!(run.operand("F", "C:\\F", TouchOperandStateV1::Missing), TouchOperandActionV1::Reuse);
    assert_eq!(run.exit_code(), 0);
}

#[test]
fn an_existing_file_is_rechecked_and_a_change_ends_the_run() {
    let mut run = TouchRunV1::new();
    assert_eq!(run.operand("f", "C:\\F", TouchOperandStateV1::Existing), TouchOperandActionV1::Recheck);
    assert_eq!(
        run.file("f", "C:\\F", TouchFileOutcomeV1::Changed),
        TouchFileActionV1::Abort { diagnostic: Some("wingman touch: f: path changed before timestamp update".to_string()) }
    );
    assert_eq!(
        run.file("g", "C:\\G", TouchFileOutcomeV1::CreationFailed),
        TouchFileActionV1::Skip { diagnostic: Some("wingman touch: g: file creation failed".to_string()) }
    );
    assert_eq!(
        run.timestamp_set("h", false),
        Some("wingman touch: h: timestamp update failed".to_string())
    );
    assert_eq!(run.exit_code(), 1);
}
