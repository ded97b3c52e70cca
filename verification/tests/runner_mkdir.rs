use wingman_core::runner_mkdir::{
    MkdirComponentActionV1, MkdirCreateActionV1, MkdirCreateOutcomeV1, MkdirOperandActionV1,
    MkdirOperandStateV1, MkdirRunV1,
};
use wingman_core::runner_mutation::{
    directory_preflight_failure, preflight_outcome, resolution_preflight_failure, DirectoryAccessErrorV1,
    PreflightFailureV1,
};
use wingman_core::windows_path::PathResolutionErrorV1;

#[test]
fn an_existing_directory_is_fine_only_with_parents() {
    let mut with_parents = MkdirRunV1::new(true);
    assert_eq!(with_parents.operand("a", MkdirOperandStateV1::ExistingDirectory), MkdirOperandActionV1::Skip);
    assert_eq!(with_parents.exit_code(), 0);
    let mut plain = MkdirRunV1::new(false);
    assert_eq!(
        plain.operand("a", MkdirOperandStateV1::ExistingDirectory),
        MkdirOperandActionV1::Failed { diagnostic: Some("wingman mkdir: a: directory already exists".to_string()) }
    );
    assert_eq!(plain.exit_code(), 1);
}

#[test]
fn without_parents_only_the_last_component_is_created() {
    let mut run = MkdirRunV1::new(false);
    assert_eq!(run.operand("a\\b", MkdirOperandStateV1::Ready), MkdirOperandActionV1::CreateMissing);
    assert_eq!(
        run.component("a\\b", "C:\\A", false),
        MkdirComponentActionV1::Stop { diagnostic: Some("wingman mkdir: a\\b: parent directory does not exist".to_string()) }
    );
    assert_eq!(run.exit_code(), 1);
}

#[test]
fn a_directory_created_twice_in_one_run_already_exists() {
    let mut run = MkdirRunV1::new(false);
    assert_eq!(run.component("x", "C:\\X", true), MkdirComponentActionV1::Create);
    assert_eq!(run.created("x", "C:\\X", MkdirCreateOutcomeV1::Created), MkdirCreateActionV1::Continue);
    assert_eq!(run.exit_code(), 0);
    assert_eq!(
        run.component("X", "C:\\X", true),
        MkdirComponentActionV1::Stop { diagnostic: Some("wingman mkdir: X: directory already exists".to_string()) }
    );
    let mut parents = MkdirRunV1::new(true);
    assert_eq!(parents.created("a", "C:\\A", MkdirCreateOutcomeV1::Created), MkdirCreateActionV1::Continue);
    assert_eq!(parents.component("a\\b", "C:\\A", false), MkdirComponentActionV1::Reuse);
}

#[test]
fn a_changed_path_ends_the_run_and_a_failed_creation_fails_the_operand() {
    let mut run = MkdirRunV1::new(true);
    assert_eq!(
        run.created("a", "C:\\A", MkdirCreateOutcomeV1::Changed),
        MkdirCreateActionV1::Abort { diagnostic: Some("wingman mkdir: a: path changed during directory creation".to_string()) }
    );
    assert_eq!(run.exit_code(), 0);
    assert_eq!(
        run.created("b", "C:\\B", MkdirCreateOutcomeV1::Failed),
        MkdirCreateActionV1::Stop { diagnostic: Some("wingman mkdir: b: directory creation failed".to_string()) }
    );
    assert_eq!(run.exit_code(), 1);
}

#[test]
fn only_sixteen_operand_diagnostics_are_written() {
    let mut run = MkdirRunV1::new(false);
    for _ in 0..16 {
        assert!(matches!(
            run.operand("a", MkdirOperandStateV1::PathComponentIsNotDirectory),
            MkdirOperandActionV1::Failed { diagnostic: Some(_) }
        ));
    }
    assert_eq!(
        run.operand("a", MkdirOperandStateV1::PathComponentIsNotDirectory),
        MkdirOperandActionV1::Failed { diagnostic: None }
    );
}

#[test]
fn preflight_failures_stop_the_run_with_two_or_one() {
    assert_eq!(resolution_preflight_failure(PathResolutionErrorV1::TraversalAboveRoot), PreflightFailureV1::KnownSafety);
    assert_eq!(resolution_preflight_failure(PathResolutionErrorV1::InvalidCurrentDirectory), PreflightFailureV1::Unavailable);
    assert_eq!(directory_preflight_failure(DirectoryAccessErrorV1::ReparsePoint), PreflightFailureV1::KnownSafety);
    assert_eq!(directory_preflight_failure(DirectoryAccessErrorV1::NotDirectory), PreflightFailureV1::Unavailable);
    assert_eq!(
        preflight_outcome("mkdir", "link", PreflightFailureV1::KnownSafety),
        ("wingman mkdir: link: reparse paths are not allowed".to_string(), 2)
    );
    assert_eq!(
        preflight_outcome("touch", "x", PreflightFailureV1::Unavailable),
        ("wingman touch: x: path safety cannot be inspected".to_string(), 1)
    );
}
