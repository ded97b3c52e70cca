//! Copying a file or a directory tree (`cp`, and `mv` where it copies): whether the copy
//! may start, and how it ends after the caller stages the contents beside the destination
//! and commits them.

use vstd::prelude::*;
use crate::interpreter::ExistingDestinationPolicyV1;
use crate::runner_mutation::operand_diagnostic_text;
use crate::text::{concat, strings_view};

verus! {

/// What the preflight found at the destination of a file copy.
#[derive(Clone, Copy, Debug, Eq, PartialEq, Structural)]
pub enum CopyDestinationStateV1 {
    Missing,
    ExistingFile { same_identity: bool },
    ExistingDirectory,
    MissingParent,
}

/// Whether a file copy starts: it ends at once with an exit code and perhaps a diagnostic,
/// or it stages the contents.
#[derive(Clone, Debug, Eq, PartialEq)]
pub enum CopyStartV1 {
    Finish { code: u8, diagnostic: Option<String> },
    Stage,
}

pub enum SpecCopyStart {
    Finish { code: u8, diagnostic: Option<Seq<char>> },
    Stage,
}

impl View for CopyStartV1 {
    type V = SpecCopyStart;

    open spec fn view(&self) -> SpecCopyStart {
        match self {
            CopyStartV1::Finish { code, diagnostic } => SpecCopyStart::Finish {
                code: *code,
                diagnostic: match diagnostic {
                    Some(d) => Some(d@),
                    None => None,
                },
            },
            CopyStartV1::Stage => SpecCopyStart::Stage,
        }
    }
}

/// The start of a copy of a file to `destination`: the same path, or the same file under
/// another name, ends it with exit code 2; an existing file is left alone with `-n`; an
/// existing directory or a missing parent at the destination fails it; otherwise it stages.
pub open spec fn spec_copy_start(command: Seq<char>, destination: Seq<char>, same_path: bool, state: CopyDestinationStateV1, policy: ExistingDestinationPolicyV1) -> SpecCopyStart {
    if same_path {
        SpecCopyStart::Finish { code: 2, diagnostic: Some("wingman "@ + command + ": source and destination are the same path"@) }
    } else {
        match state {
            CopyDestinationStateV1::ExistingFile { same_identity } => if same_identity {
                SpecCopyStart::Finish { code: 2, diagnostic: Some("wingman "@ + command + ": source and destination are the same file"@) }
            } else if policy == ExistingDestinationPolicyV1::NoClobber {
                SpecCopyStart::Finish { code: 0, diagnostic: None }
            } else {
                SpecCopyStart::Stage
            },
            CopyDestinationStateV1::ExistingDirectory => SpecCopyStart::Finish {
                code: 1,
                diagnostic: Some(operand_diagnostic_text(command, destination, "destination directory already exists"@)),
            },
            CopyDestinationStateV1::MissingParent => SpecCopyStart::Finish {
                code: 1,
                diagnostic: Some(operand_diagnostic_text(command, destination, "destination parent directory does not exist"@)),
            },
            CopyDestinationStateV1::Missing => SpecCopyStart::Stage,
        }
    }
}

fn operand_line(command: &str, display: &str, detail: &str) -> (r: String)
    ensures
        r@ == operand_diagnostic_text(command@, display@, detail@),
{
    let a = concat("wingman ", command);
    let b = concat(a.as_str(), ": ");
    let c = concat(b.as_str(), display);
    let d = concat(c.as_str(), ": ");
    concat(d.as_str(), detail)
}

/// Whether a copy of a file to `destination` starts; see `spec_copy_start`.
pub fn copy_start(command: &str, destination: &str, same_path: bool, state: CopyDestinationStateV1, policy: ExistingDestinationPolicyV1) -> (r: CopyStartV1)
    ensures
        r@ == spec_copy_start(command@, destination@, same_path, state, policy),
{
    if same_path {
        let a = concat("wingman ", command);
        return CopyStartV1::Finish { code: 2, diagnostic: Some(concat(a.as_str(), ": source and destination are the same path")) };
    }
    match state {
        CopyDestinationStateV1::ExistingFile { same_identity } => {
            if same_identity {
                let a = concat("wingman ", command);
                CopyStartV1::Finish { code: 2, diagnostic: Some(concat(a.as_str(), ": source and destination are the same file")) }
            } else if let ExistingDestinationPolicyV1::NoClobber = policy {
                CopyStartV1::Finish { code: 0, diagnostic: None }
            } else {
                CopyStartV1::Stage
            }
        },
        CopyDestinationStateV1::ExistingDirectory => CopyStartV1::Finish {
            code: 1,
            diagnostic: Some(operand_line(command, destination, "destination directory already exists")),
        },
        CopyDestinationStateV1::MissingParent => CopyStartV1::Finish {
            code: 1,
            diagnostic: Some(operand_line(command, destination, "destination parent directory does not exist")),
        },
        CopyDestinationStateV1::Missing => CopyStartV1::Stage,
    }
}

/// Whether committing the staged copy may replace what is at the destination: only with `-f`.
pub fn commit_replaces(policy: ExistingDestinationPolicyV1) -> (r: bool)
    ensures
        r == (policy == ExistingDestinationPolicyV1::Force),
{
    match policy {
        ExistingDestinationPolicyV1::Force => true,
        ExistingDestinationPolicyV1::Replace => false,
        ExistingDestinationPolicyV1::NoClobber => false,
    }
}

/// How staging and committing a copy went: the staging file could not be created; copying
/// the contents failed or was cancelled; flushing the staging file failed; the run was
/// cancelled before the commit; the source or destination changed; the commit failed; or
/// the copy was committed.
#[derive(Clone, Copy, Debug, Eq, PartialEq, Structural)]
pub enum CopyStageOutcomeV1 {
    StagingFailed,
    CopyFailed,
    CopyCancelled,
    FlushFailed,
    Cancelled,
    Changed,
    CommitFailed,
    Committed,
}

/// The report of a staging file that could not be removed, if it could not.
pub open spec fn cleanup_lines(command: Seq<char>, destination: Seq<char>, cleanup_failed: bool) -> Seq<Seq<char>> {
    if cleanup_failed { seq![operand_diagnostic_text(command, destination, "staging cleanup failed"@)] } else { seq![] }
}

/// How a staged copy ends, its exit code and the diagnostics to write in order: a commit is
/// 0 with none; a cancellation is 130, with a report of a staging file left behind; any
/// other outcome is 1 with its report, then the report of a staging file left behind.
pub open spec fn spec_copy_finish(command: Seq<char>, source: Seq<char>, destination: Seq<char>, outcome: CopyStageOutcomeV1, cleanup_failed: bool) -> (u8, Seq<Seq<char>>) {
    match outcome {
        CopyStageOutcomeV1::Committed => (0, seq![]),
        CopyStageOutcomeV1::StagingFailed => (1, seq![operand_diagnostic_text(command, destination, "staging file creation failed"@)]),
        CopyStageOutcomeV1::CopyCancelled => (130, if cleanup_failed {
            seq![operand_diagnostic_text(command, destination, "staging cleanup failed after cancellation"@)]
        } else {
            seq![]
        }),
        CopyStageOutcomeV1::Cancelled => (130, cleanup_lines(command, destination, cleanup_failed)),
        CopyStageOutcomeV1::CopyFailed => (1, seq![operand_diagnostic_text(command, source, "file copy failed"@)]
            + cleanup_lines(command, destination, cleanup_failed)),
        CopyStageOutcomeV1::FlushFailed => (1, seq![operand_diagnostic_text(command, destination, "staging flush failed"@)]
            + cleanup_lines(command, destination, cleanup_failed)),
        CopyStageOutcomeV1::Changed => (1, seq![operand_diagnostic_text(command, destination, "source or destination changed before commit"@)]
            + cleanup_lines(command, destination, cleanup_failed)),
        CopyStageOutcomeV1::CommitFailed => (1, seq![operand_diagnostic_text(command, destination, "copy commit failed"@)]
            + cleanup_lines(command, destination, cleanup_failed)),
    }
}

/// How a staged copy ends; see `spec_copy_finish`. `cleanup_failed` says whether removing the
/// staging file failed, where one was left to remove.
pub fn copy_finish(command: &str, source: &str, destination: &str, outcome: CopyStageOutcomeV1, cleanup_failed: bool) -> (r: (u8, Vec<String>))
    ensures
        (r.0, strings_view(r.1@)) == spec_copy_finish(command@, source@, destination@, outcome, cleanup_failed),
{
    let mut lines: Vec<String> = Vec::new();
    let code: u8 = match outcome {
        CopyStageOutcomeV1::Committed => 0,
        CopyStageOutcomeV1::StagingFailed => {
            lines.push(operand_line(command, destination, "staging file creation failed"));
            1
        },
        CopyStageOutcomeV1::CopyCancelled => {
            if cleanup_failed {
                lines.push(operand_line(command, destination, "staging cleanup failed after cancellation"));
            }
            130
        },
        CopyStageOutcomeV1::Cancelled => 130,
        CopyStageOutcomeV1::CopyFailed => {
            lines.push(operand_line(command, source, "file copy failed"));
            1
        },
        CopyStageOutcomeV1::FlushFailed => {
            lines.push(operand_line(command, destination, "staging flush failed"));
            1
        },
        CopyStageOutcomeV1::Changed => {
            lines.push(operand_line(command, destination, "source or destination changed before commit"));
            1
        },
        CopyStageOutcomeV1::CommitFailed => {
            lines.push(operand_line(command, destination, "copy commit failed"));
            1
        },
    };
    let reports_cleanup = match outcome {
        CopyStageOutcomeV1::Committed => false,
        CopyStageOutcomeV1::StagingFailed => false,
        CopyStageOutcomeV1::CopyCancelled => false,
        _ => cleanup_failed,
    };
    let ghost first = strings_view(lines@);
    if reports_cleanup {
        lines.push(operand_line(command, destination, "staging cleanup failed"));
    }
    proof {
        assert(strings_view(lines@) =~= spec_copy_finish(command@, source@, destination@, outcome, cleanup_failed).1);
    }
    (code, lines)
}

/// The start of a recursive copy of a directory to `destination`: a destination that is the
/// source or inside it ends it with exit code 2; an existing file is left alone with `-n`;
/// an existing directory or a missing parent at the destination fails it; otherwise it
/// stages.
pub open spec fn spec_directory_copy_start(command: Seq<char>, destination: Seq<char>, inside_source: bool, state: CopyDestinationStateV1, policy: ExistingDestinationPolicyV1) -> SpecCopyStart {
    if inside_source {
        SpecCopyStart::Finish { code: 2, diagnostic: Some("wingman "@ + command + ": recursive destination cannot be the source or inside it"@) }
    } else if policy == ExistingDestinationPolicyV1::NoClobber && state is ExistingFile {
        SpecCopyStart::Finish { code: 0, diagnostic: None }
    } else {
        match state {
            CopyDestinationStateV1::ExistingDirectory => SpecCopyStart::Finish {
                code: 1,
                diagnostic: Some(operand_diagnostic_text(command, destination, "destination directory already exists"@)),
            },
            CopyDestinationStateV1::MissingParent => SpecCopyStart::Finish {
                code: 1,
                diagnostic: Some(operand_diagnostic_text(command, destination, "destination parent directory does not exist"@)),
            },
            _ => SpecCopyStart::Stage,
        }
    }
}

/// Whether a recursive copy of a directory starts; see `spec_directory_copy_start`.
pub fn directory_copy_start(command: &str, destination: &str, inside_source: bool, state: CopyDestinationStateV1, policy: ExistingDestinationPolicyV1) -> (r: CopyStartV1)
    ensures
        r@ == spec_directory_copy_start(command@, destination@, inside_source, state, policy),
{
    if inside_source {
        let a = concat("wingman ", command);
        return CopyStartV1::Finish { code: 2, diagnostic: Some(concat(a.as_str(), ": recursive destination cannot be the source or inside it")) };
    }
    let no_clobber = match policy {
        ExistingDestinationPolicyV1::NoClobber => true,
        _ => false,
    };
    match state {
        CopyDestinationStateV1::ExistingFile { .. } => if no_clobber {
            CopyStartV1::Finish { code: 0, diagnostic: None }
        } else {
            CopyStartV1::Stage
        },
        CopyDestinationStateV1::ExistingDirectory => CopyStartV1::Finish {
            code: 1,
            diagnostic: Some(operand_line(command, destination, "destination directory already exists")),
        },
        CopyDestinationStateV1::MissingParent => CopyStartV1::Finish {
            code: 1,
            diagnostic: Some(operand_line(command, destination, "destination parent directory does not exist")),
        },
        CopyDestinationStateV1::Missing => CopyStartV1::Stage,
    }
}

/// How staging and committing a directory copy went: the staging directory could not be
/// created; copying the tree failed or was cancelled; the run was cancelled before the
/// commit; the source or destination changed; the commit failed; or it was committed.
#[derive(Clone, Copy, Debug, Eq, PartialEq, Structural)]
pub enum DirectoryStageOutcomeV1 {
    StagingFailed,
    StageFailed,
    StageCancelled,
    Cancelled,
    Changed,
    CommitFailed,
    Committed,
}

/// How a staged directory copy ends, its exit code and the diagnostics to write in order:
/// a commit is 0 with none; a cancellation is 130, with a report of a staging tree left
/// behind; any other outcome is 1 with its report, then the report of a staging tree left
/// behind.
pub open spec fn spec_directory_copy_finish(command: Seq<char>, source: Seq<char>, destination: Seq<char>, outcome: DirectoryStageOutcomeV1, cleanup_failed: bool) -> (u8, Seq<Seq<char>>) {
    let after_cancel: Seq<Seq<char>> = if cleanup_failed {
        seq![operand_diagnostic_text(command, destination, "staging cleanup failed after cancellation"@)]
    } else {
        seq![]
    };
    match outcome {
        DirectoryStageOutcomeV1::Committed => (0, seq![]),
        DirectoryStageOutcomeV1::StagingFailed => (1, seq![operand_diagnostic_text(command, destination, "staging directory creation failed"@)]),
        DirectoryStageOutcomeV1::StageCancelled => (130, after_cancel),
        DirectoryStageOutcomeV1::Cancelled => (130, after_cancel),
        DirectoryStageOutcomeV1::StageFailed => (1, seq![operand_diagnostic_text(command, source, "recursive staging copy failed"@)]
            + cleanup_lines(command, destination, cleanup_failed)),
        DirectoryStageOutcomeV1::Changed => (1, seq![operand_diagnostic_text(command, destination, "source or destination changed before commit"@)]
            + cleanup_lines(command, destination, cleanup_failed)),
        DirectoryStageOutcomeV1::CommitFailed => (1, seq![operand_diagnostic_text(command, destination, "copy commit failed"@)]
            + cleanup_lines(command, destination, cleanup_failed)),
    }
}

/// How a staged directory copy ends; see `spec_directory_copy_finish`.
pub fn directory_copy_finish(command: &str, source: &str, destination: &str, outcome: DirectoryStageOutcomeV1, cleanup_failed: bool) -> (r: (u8, Vec<String>))
    ensures
        (r.0, strings_view(r.1@)) == spec_directory_copy_finish(command@, source@, destination@, outcome, cleanup_failed),
{
    let mut lines: Vec<String> = Vec::new();
    let code: u8 = match outcome {
        DirectoryStageOutcomeV1::Committed => 0,
        DirectoryStageOutcomeV1::StagingFailed => {
            lines.push(operand_line(command, destination, "staging directory creation failed"));
            1
        },
        DirectoryStageOutcomeV1::StageCancelled | DirectoryStageOutcomeV1::Cancelled => {
            if cleanup_failed {
                lines.push(operand_line(command, destination, "staging cleanup failed after cancellation"));
            }
            130
        },
        DirectoryStageOutcomeV1::StageFailed => {
            lines.push(operand_line(command, source, "recursive staging copy failed"));
            1
        },
        DirectoryStageOutcomeV1::Changed => {
            lines.push(operand_line(command, destination, "source or destination changed before commit"));
            1
        },
        DirectoryStageOutcomeV1::CommitFailed => {
            lines.push(operand_line(command, destination, "copy commit failed"));
            1
        },
    };
    let reports_cleanup = match outcome {
        DirectoryStageOutcomeV1::StageFailed | DirectoryStageOutcomeV1::Changed | DirectoryStageOutcomeV1::CommitFailed => cleanup_failed,
        _ => false,
    };
    if reports_cleanup {
        lines.push(operand_line(command, destination, "staging cleanup failed"));
    }
    proof {
        assert(strings_view(lines@) =~= spec_directory_copy_finish(command@, source@, destination@, outcome, cleanup_failed).1);
    }
    (code, lines)
}

} // verus!
