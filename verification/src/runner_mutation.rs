//! The commands that change the file system (`cp`, `mv`, `mkdir`, `touch`): which one a plan
//! asks for, how many operand diagnostics they write, and how the answers of directory and
//! entry checks are read.

use vstd::prelude::*;
use crate::interpreter::{ExecutionPlanV1, StagePlanV1};
use crate::text::concat;
use crate::windows_path::PathResolutionErrorV1;

verus! {

pub const MAX_MUTATION_DIAGNOSTICS: usize = 16;

/// A failed write of a diagnostic.
#[derive(Clone, Copy, Debug, Eq, PartialEq)]
pub enum MutationExecutionErrorV1 {
    Output { kind: std::io::ErrorKind },
}

/// The command that changes the file system.
#[derive(Clone, Copy, Debug, Eq, PartialEq, Structural)]
pub enum MutationCommandV1 {
    Copy,
    Move,
    MakeDirectories,
    Touch,
}

/// The command a plan of one stage asks for, when it changes the file system and its output
/// is not redirected.
pub open spec fn spec_mutation_command(stages: Seq<StagePlanV1>, redirected: bool) -> Option<MutationCommandV1> {
    if stages.len() != 1 || redirected {
        None
    } else {
        match stages[0] {
            StagePlanV1::CopyPath { .. } => Some(MutationCommandV1::Copy),
            StagePlanV1::MovePath { .. } => Some(MutationCommandV1::Move),
            StagePlanV1::CreateDirectories { .. } => Some(MutationCommandV1::MakeDirectories),
            StagePlanV1::TouchFiles { .. } => Some(MutationCommandV1::Touch),
            _ => None,
        }
    }
}

/// The command that changes the file system that a plan asks for; other plans are left to
/// other runners.
pub fn mutation_command(plan: &ExecutionPlanV1) -> (r: Option<MutationCommandV1>)
    ensures
        r == spec_mutation_command(plan.stages@, plan.redirect is Some),
{
    if plan.stages.len() != 1 || plan.redirect.is_some() {
        return None;
    }
    match &plan.stages[0] {
        StagePlanV1::CopyPath { .. } => Some(MutationCommandV1::Copy),
        StagePlanV1::MovePath { .. } => Some(MutationCommandV1::Move),
        StagePlanV1::CreateDirectories { .. } => Some(MutationCommandV1::MakeDirectories),
        StagePlanV1::TouchFiles { .. } => Some(MutationCommandV1::Touch),
        _ => None,
    }
}

/// The diagnostics a mutation has written about its operands; at most 16 are written.
pub struct MutationDiagnosticsV1 {
    emitted: usize,
}

impl View for MutationDiagnosticsV1 {
    type V = nat;

    closed spec fn view(&self) -> nat {
        self.emitted as nat
    }
}

/// The diagnostic about an operand: `wingman COMMAND: OPERAND: DETAIL`.
pub open spec fn operand_diagnostic_text(command: Seq<char>, display: Seq<char>, detail: Seq<char>) -> Seq<char> {
    "wingman "@ + command + ": "@ + display + ": "@ + detail
}

impl MutationDiagnosticsV1 {
    /// None written yet.
    pub fn new() -> (r: Self)
        ensures
            r@ == 0,
    {
        MutationDiagnosticsV1 { emitted: 0 }
    }

    /// The diagnostic to write about an operand, while fewer than 16 have been written;
    /// nothing after that.
    pub fn operand(&mut self, command: &str, display: &str, detail: &str) -> (r: Option<String>)
        ensures
            old(self)@ < MAX_MUTATION_DIAGNOSTICS ==> (r matches Some(d) && d@ == operand_diagnostic_text(command@, display@, detail@))
                && final(self)@ == old(self)@ + 1,
            old(self)@ >= MAX_MUTATION_DIAGNOSTICS ==> r is None && final(self)@ == old(self)@,
    {
        if self.emitted >= MAX_MUTATION_DIAGNOSTICS {
            return None;
        }
        let a = concat("wingman ", command);
        let b = concat(a.as_str(), ": ");
        let c = concat(b.as_str(), display);
        let d = concat(c.as_str(), ": ");
        let line = concat(d.as_str(), detail);
        self.emitted = self.emitted + 1;
        Some(line)
    }
}

/// What a directory listing says an entry is.
#[derive(Clone, Copy, Debug, Eq, PartialEq, Structural)]
pub enum VerifiedDirectoryEntryKindV1 {
    File,
    Directory,
    ReparsePoint,
}

/// What an entry opened for removal turned out to be.
#[derive(Clone, Copy, Debug, Eq, PartialEq, Structural)]
pub enum RemovalEntryKindV1 {
    File,
    Directory,
    ReparsePoint,
}

/// Whether an entry is still what the listing said it was.
pub fn entry_kind_matches(listed: VerifiedDirectoryEntryKindV1, actual: RemovalEntryKindV1) -> (r: bool)
    ensures
        r <==> (listed == VerifiedDirectoryEntryKindV1::File && actual == RemovalEntryKindV1::File)
            || (listed == VerifiedDirectoryEntryKindV1::Directory && actual == RemovalEntryKindV1::Directory)
            || (listed == VerifiedDirectoryEntryKindV1::ReparsePoint && actual == RemovalEntryKindV1::ReparsePoint),
{
    match (listed, actual) {
        (VerifiedDirectoryEntryKindV1::File, RemovalEntryKindV1::File) => true,
        (VerifiedDirectoryEntryKindV1::Directory, RemovalEntryKindV1::Directory) => true,
        (VerifiedDirectoryEntryKindV1::ReparsePoint, RemovalEntryKindV1::ReparsePoint) => true,
        _ => false,
    }
}

/// Why a directory could not be opened.
#[derive(Clone, Copy, Debug, Eq, PartialEq)]
pub enum DirectoryAccessErrorV1 {
    Missing,
    NotDirectory,
    ReparsePoint,
    Io { kind: std::io::ErrorKind },
}

/// Why a path could not be walked: a reparse point on the way, or anything else.
#[derive(Clone, Copy, Debug, Eq, PartialEq, Structural)]
pub enum VerifiedPathAccessErrorV1 {
    ReparsePoint,
    Unavailable,
}

/// A failure to open a directory on the way, as the walk reports it.
pub fn map_directory_error(error: DirectoryAccessErrorV1) -> (r: VerifiedPathAccessErrorV1)
    ensures
        r == (if error is ReparsePoint { VerifiedPathAccessErrorV1::ReparsePoint } else { VerifiedPathAccessErrorV1::Unavailable }),
{
    match error {
        DirectoryAccessErrorV1::ReparsePoint => VerifiedPathAccessErrorV1::ReparsePoint,
        DirectoryAccessErrorV1::Missing => VerifiedPathAccessErrorV1::Unavailable,
        DirectoryAccessErrorV1::NotDirectory => VerifiedPathAccessErrorV1::Unavailable,
        DirectoryAccessErrorV1::Io { .. } => VerifiedPathAccessErrorV1::Unavailable,
    }
}

/// Why the preflight of an operand stopped a whole run: a path that is known to be unsafe
/// (exit 2), or one whose safety could not be inspected (exit 1).
#[derive(Clone, Copy, Debug, Eq, PartialEq, Structural)]
pub enum PreflightFailureV1 {
    KnownSafety,
    Unavailable,
}

/// A path that does not resolve: traversal above the root, a path too long, or an invalid
/// spec are known to be unsafe; an unusable current directory leaves safety uninspected.
pub fn resolution_preflight_failure(error: PathResolutionErrorV1) -> (r: PreflightFailureV1)
    ensures
        r == (if error is InvalidCurrentDirectory { PreflightFailureV1::Unavailable } else { PreflightFailureV1::KnownSafety }),
{
    match error {
        PathResolutionErrorV1::InvalidCurrentDirectory => PreflightFailureV1::Unavailable,
        PathResolutionErrorV1::TraversalAboveRoot => PreflightFailureV1::KnownSafety,
        PathResolutionErrorV1::TooLong => PreflightFailureV1::KnownSafety,
        PathResolutionErrorV1::InvalidSpec => PreflightFailureV1::KnownSafety,
    }
}

/// A directory on the way that could not be opened in a preflight: a reparse point is known
/// to be unsafe; anything else leaves safety uninspected.
pub fn directory_preflight_failure(error: DirectoryAccessErrorV1) -> (r: PreflightFailureV1)
    ensures
        r == (if error is ReparsePoint { PreflightFailureV1::KnownSafety } else { PreflightFailureV1::Unavailable }),
{
    match error {
        DirectoryAccessErrorV1::ReparsePoint => PreflightFailureV1::KnownSafety,
        DirectoryAccessErrorV1::Missing => PreflightFailureV1::Unavailable,
        DirectoryAccessErrorV1::NotDirectory => PreflightFailureV1::Unavailable,
        DirectoryAccessErrorV1::Io { .. } => PreflightFailureV1::Unavailable,
    }
}

/// The diagnostic and exit code of a run that a preflight stopped.
pub open spec fn spec_preflight_outcome(command: Seq<char>, display: Seq<char>, failure: PreflightFailureV1) -> (Seq<char>, u8) {
    match failure {
        PreflightFailureV1::KnownSafety => (operand_diagnostic_text(command, display, "reparse paths are not allowed"@), 2),
        PreflightFailureV1::Unavailable => (operand_diagnostic_text(command, display, "path safety cannot be inspected"@), 1),
    }
}

/// The diagnostic and exit code of a run that a preflight stopped.
pub fn preflight_outcome(command: &str, display: &str, failure: PreflightFailureV1) -> (r: (String, u8))
    ensures
        (r.0@, r.1) == spec_preflight_outcome(command@, display@, failure),
{
    let a = concat("wingman ", command);
    let b = concat(a.as_str(), ": ");
    let c = concat(b.as_str(), display);
    let d = concat(c.as_str(), ": ");
    match failure {
        PreflightFailureV1::KnownSafety => (concat(d.as_str(), "reparse paths are not allowed"), 2),
        PreflightFailureV1::Unavailable => (concat(d.as_str(), "path safety cannot be inspected"), 1),
    }
}

} // verus!
