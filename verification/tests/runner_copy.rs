use wingman_core::interpreter::ExistingDestinationPolicyV1;
use wingman_core::runner_copy::{
    commit_replaces, copy_finish, copy_start, directory_copy_finish, directory_copy_start, CopyDestinationStateV1,
    CopyStageOutcomeV1, CopyStartV1, DirectoryStageOutcomeV1,
};

#[test]
fn a_copy_onto_itself_ends_with_two() {
    assert_eq!(
        copy_start("cp", "a", true, CopyDestinationStateV1::Missing, ExistingDestinationPolicyV1::Replace),
        CopyStartV1::Finish { code: 2, diagnostic: Some("wingman cp: source and destination are the same path".to_string()) }
    );
    assert_eq!(
        copy_start("cp", "b", false, CopyDestinationStateV1::ExistingFile { same_identity: true }, ExistingDestinationPolicyV1::Force),
        CopyStartV1::Finish { code: 2, diagnostic: Some("wingman cp: source and destination are the same file".to_string()) }
    );
}

#[test]
fn no_clobber_leaves_an_existing_file_and_directories_fail() {
    assert_eq!(
        copy_start("cp", "b", false, CopyDestinationStateV1::ExistingFile { same_identity: false }, ExistingDestinationPolicyV1::NoClobber),
        CopyStartV1::Finish { code: 0, diagnostic: None }
    );
    assert_eq!(
        copy_start("cp", "b", false, CopyDestinationStateV1::ExistingFile { same_identity: false }, ExistingDestinationPolicyV1::Replace),
        CopyStartV1::Stage
    );
    assert_eq!(
        copy_start("mv", "d", false, CopyDestinationStateV1::ExistingDirectory, ExistingDestinationPolicyV1::Replace),
        CopyStartV1::Finish { code: 1, diagnostic: Some("wingman mv: d: destination directory already exists".to_string()) }
    );
    assert_eq!(
        copy_start("cp", "x\\y", false, CopyDestinationStateV1::MissingParent, ExistingDestinationPolicyV1::Replace),
        CopyStartV1::Finish { code: 1, diagnostic: Some("wingman cp: x\\y: destination parent directory does not exist".to_string()) }
    );
    assert!(commit_replaces(ExistingDestinationPolicyV1::Force));
    assert!(!commit_replaces(ExistingDestinationPolicyV1::Replace));
}

#[test]
fn a_staged_copy_ends_by_its_outcome() {
    assert_eq!(copy_finish("cp", "a", "b", CopyStageOutcomeV1::Committed, false), (0, Vec::new()));
    assert_eq!(
        copy_finish("cp", "a", "b", CopyStageOutcomeV1::CopyFailed, true),
        (1, vec!["wingman cp: a: file copy failed".to_string(), "wingman cp: b: staging cleanup failed".to_string()])
    );
    assert_eq!(
        copy_finish("cp", "a", "b", CopyStageOutcomeV1::CopyCancelled, true),
        (130, vec!["wingman cp: b: staging cleanup failed after cancellation".to_string()])
    );
    assert_eq!(copy_finish("cp", "a", "b", CopyStageOutcomeV1::Cancelled, false), (130, Vec::new()));
    assert_eq!(
        copy_finish("cp", "a", "b", CopyStageOutcomeV1::Changed, false),
        (1, vec!["wingman cp: b: source or destination changed before commit".to_string()])
    );
}

#[test]
fn a_directory_copy_into_itself_ends_with_two() {
    assert_eq!(
        directory_copy_start("cp", "src\\sub", true, CopyDestinationStateV1::Missing, ExistingDestinationPolicyV1::Replace),
        CopyStartV1::Finish { code: 2, diagnostic: Some("wingman cp: recursive destination cannot be the source or inside it".to_string()) }
    );
    assert_eq!(
        directory_copy_start("cp", "f", false, CopyDestinationStateV1::ExistingFile { same_identity: false }, ExistingDestinationPolicyV1::NoClobber),
        CopyStartV1::Finish { code: 0, diagnostic: None }
    );
    assert_eq!(
        directory_copy_start("cp", "d", false, CopyDestinationStateV1::Missing, ExistingDestinationPolicyV1::Replace),
        CopyStartV1::Stage
    );
    assert_eq!(
        directory_copy_finish("cp", "a", "b", DirectoryStageOutcomeV1::StageFailed, true),
        (1, vec!["wingman cp: a: recursive staging copy failed".to_string(), "wingman cp: b: staging cleanup failed".to_string()])
    );
    assert_eq!(
        directory_copy_finish("cp", "a", "b", DirectoryStageOutcomeV1::Cancelled, true),
        (130, vec!["wingman cp: b: staging cleanup failed after cancellation".to_string()])
    );
}
