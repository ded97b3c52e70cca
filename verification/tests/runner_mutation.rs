use wingman_core::interpreter::{ExecutionPlanV1, StagePlanV1};
use wingman_core::runner_io::{identities_share_volume, FileIdentityV1};
use wingman_core::runner_mutation::{
    entry_kind_matches, map_directory_error, mutation_command, DirectoryAccessErrorV1, MutationCommandV1,
    MutationDiagnosticsV1, RemovalEntryKindV1, VerifiedDirectoryEntryKindV1, VerifiedPathAccessErrorV1,
};

#[test]
fn one_mutation_stage_without_redirection_is_a_mutation() {
    let touch = ExecutionPlanV1 { stages: vec![StagePlanV1::TouchFiles { paths: Vec::new() }], redirect: None };
    assert_eq!(mutation_command(&touch), Some(MutationCommandV1::Touch));
    let mkdir = ExecutionPlanV1 {
        stages: vec![StagePlanV1::CreateDirectories { paths: Vec::new(), parents: true }],
        redirect: None,
    };
    assert_eq!(mutation_command(&mkdir), Some(MutationCommandV1::MakeDirectories));
    let pwd = ExecutionPlanV1 { stages: vec![StagePlanV1::PrintWorkingDirectory], redirect: None };
    assert_eq!(mutation_command(&pwd), None);
    let two = ExecutionPlanV1 {
        stages: vec![StagePlanV1::TouchFiles { paths: Vec::new() }, StagePlanV1::TouchFiles { paths: Vec::new() }],
        redirect: None,
    };
    assert_eq!(mutation_command(&two), None);
}

#[test]
fn operand_diagnostics_stop_after_sixteen() {
    let mut diagnostics = MutationDiagnosticsV1::new();
    assert_eq!(
        diagnostics.operand("touch", "a.txt", "parent directory is missing"),
        Some("wingman touch: a.txt: parent directory is missing".to_string())
    );
    for _ in 1..16 {
        assert!(diagnostics.operand("touch", "a", "b").is_some());
    }
    assert_eq!(diagnostics.operand("touch", "a", "b"), None);
}

#[test]
fn entry_kinds_and_directory_errors_are_read_as_documented() {
    assert!(entry_kind_matches(VerifiedDirectoryEntryKindV1::File, RemovalEntryKindV1::File));
    assert!(!entry_kind_matches(VerifiedDirectoryEntryKindV1::File, RemovalEntryKindV1::ReparsePoint));
    assert_eq!(map_directory_error(DirectoryAccessErrorV1::ReparsePoint), VerifiedPathAccessErrorV1::ReparsePoint);
    assert_eq!(map_directory_error(DirectoryAccessErrorV1::Missing), VerifiedPathAccessErrorV1::Unavailable);
    let a = FileIdentityV1 { volume_serial_number: 1, file_index: 2 };
    let b = FileIdentityV1 { volume_serial_number: 1, file_index: 3 };
    let c = FileIdentityV1 { volume_serial_number: 2, file_index: 2 };
    assert!(identities_share_volume(a, b));
    assert!(!identities_share_volume(a, c));
}
