//! Prepared requests: the plans that Familiar commands become, and their validation.

use vstd::prelude::*;
use crate::find_pattern::{find_compile_outcome, FindPatternV1};
use crate::grep_pattern::{grep_compile_outcome, GrepPatternV1};
use crate::text::{
    ascii_words, byte_len, chars_of, eq_ignore_case, eq_ignore_case_str, has_char, has_control,
    is_control, split_ascii_words, contains_char,
};
use crate::windows_path::{
    is_self_consistent, spec_executable_name, spec_validate_path, validate_executable_name,
    PathValidationErrorV1, SpecPath, ValidatedPathSpecV1,
};

verus! {

pub const MAX_PREPARED_REQUEST_BYTES: usize = 64 * 1024;
pub const MAX_PIPELINE_STAGES: usize = 16;
pub const MAX_PATH_OPERANDS: usize = 128;
pub const MAX_PREPARED_DIAGNOSTIC_BYTES: usize = 4 * 1024;
pub const MAX_CONTROL_RESPONSE_BYTES: usize = 256;
pub const MAX_HEAD_LINE_COUNT: usize = 4294967295;
pub const MAX_GREP_PATTERN_BYTES: usize = 16 * 1024;
pub const MAX_FIND_DEPTH_VALUE: usize = 4294967295;

#[derive(Clone, Copy, Debug, Eq, PartialEq, Structural)]
pub enum ActiveShell {
    Cmd,
    WindowsPowerShell,
}

#[derive(Clone, Copy, Debug, Eq, PartialEq, Structural)]
pub enum LineEvidence {
    Reliable,
    Uncertain,
}

#[derive(Clone, Copy, Debug, Eq, PartialEq, Structural)]
pub enum FindEntryTypeV1 {
    File,
    Directory,
}

#[derive(Clone, Copy, Debug, Eq, PartialEq, Structural)]
pub enum ExistingDestinationPolicyV1 {
    Replace,
    Force,
    NoClobber,
}

#[derive(Clone, Copy, Debug, Eq, PartialEq, Structural)]
pub enum RedirectModeV1 {
    Overwrite,
    Append,
}

#[derive(Clone, Debug, Eq, PartialEq)]
pub struct ValidatedRedirectPlanV1 {
    pub mode: RedirectModeV1,
    pub path: ValidatedPathSpecV1,
}

#[derive(Clone, Debug, Eq, PartialEq)]
pub enum StagePlanV1 {
    PrintWorkingDirectory,
    ClearTerminal,
    FindExecutable {
        name: String,
    },
    CreateDirectories {
        paths: Vec<ValidatedPathSpecV1>,
        parents: bool,
    },
    TouchFiles {
        paths: Vec<ValidatedPathSpecV1>,
    },
    CopyPath {
        source: ValidatedPathSpecV1,
        destination: ValidatedPathSpecV1,
        recursive: bool,
        existing_destination: ExistingDestinationPolicyV1,
    },
    MovePath {
        source: ValidatedPathSpecV1,
        destination: ValidatedPathSpecV1,
        existing_destination: ExistingDestinationPolicyV1,
    },
    ListEntries {
        path: Option<ValidatedPathSpecV1>,
        include_hidden: bool,
        long: bool,
        human_readable: bool,
    },
    FindPaths {
        path: ValidatedPathSpecV1,
        entry_type: Option<FindEntryTypeV1>,
        name_pattern: Option<String>,
        ignore_case: bool,
        min_depth: usize,
        max_depth: Option<usize>,
    },
    ReadTextFiles {
        paths: Vec<ValidatedPathSpecV1>,
        number_lines: bool,
    },
    HeadLines {
        count: usize,
        path: Option<ValidatedPathSpecV1>,
    },
    TailLines {
        count: usize,
        path: Option<ValidatedPathSpecV1>,
    },
    FollowFile {
        count: usize,
        path: ValidatedPathSpecV1,
    },
    SearchText {
        pattern: String,
        paths: Vec<ValidatedPathSpecV1>,
        ignore_case: bool,
        line_numbers: bool,
        invert_match: bool,
        fixed_strings: bool,
        recursive: bool,
    },
    SortLines {
        path: Option<ValidatedPathSpecV1>,
        reverse: bool,
        numeric: bool,
        unique: bool,
    },
    UniqueLines {
        path: Option<ValidatedPathSpecV1>,
        count: bool,
        repeated_only: bool,
        unique_only: bool,
    },
    CountLines {
        path: Option<ValidatedPathSpecV1>,
    },
}

#[derive(Clone, Debug, Eq, PartialEq)]
pub struct ExecutionPlanV1 {
    pub stages: Vec<StagePlanV1>,
    pub redirect: Option<ValidatedRedirectPlanV1>,
}

#[derive(Clone, Debug, Eq, PartialEq)]
pub enum PreparedRequestKindV1 {
    Reject { diagnostic: String, exit_code: u8 },
    Execute { plan: ExecutionPlanV1 },
    Control { response: String, exit_code: u8 },
}

#[derive(Clone, Debug, Eq, PartialEq)]
pub struct PreparedRequestV1 {
    pub protocol: String,
    pub version: u16,
    pub kind: PreparedRequestKindV1,
}

/// The value of a stage of a plan.
pub enum SpecStage {
    PrintWorkingDirectory,
    ClearTerminal,
    FindExecutable { name: Seq<char> },
    CreateDirectories { paths: Seq<SpecPath>, parents: bool },
    TouchFiles { paths: Seq<SpecPath> },
    CopyPath { source: SpecPath, destination: SpecPath, recursive: bool, existing_destination: ExistingDestinationPolicyV1 },
    MovePath { source: SpecPath, destination: SpecPath, existing_destination: ExistingDestinationPolicyV1 },
    ListEntries { path: Option<SpecPath>, include_hidden: bool, long: bool, human_readable: bool },
    FindPaths {
        path: SpecPath,
        entry_type: Option<FindEntryTypeV1>,
        name_pattern: Option<Seq<char>>,
        ignore_case: bool,
        min_depth: usize,
        max_depth: Option<usize>,
    },
    ReadTextFiles { paths: Seq<SpecPath>, number_lines: bool },
    HeadLines { count: usize, path: Option<SpecPath> },
    TailLines { count: usize, path: Option<SpecPath> },
    FollowFile { count: usize, path: SpecPath },
    SearchText {
        pattern: Seq<char>,
        paths: Seq<SpecPath>,
        ignore_case: bool,
        line_numbers: bool,
        invert_match: bool,
        fixed_strings: bool,
        recursive: bool,
    },
    SortLines { path: Option<SpecPath>, reverse: bool, numeric: bool, unique: bool },
    UniqueLines { path: Option<SpecPath>, count: bool, repeated_only: bool, unique_only: bool },
    CountLines { path: Option<SpecPath> },
}

pub struct SpecRedirectPlan {
    pub mode: RedirectModeV1,
    pub path: SpecPath,
}

pub struct SpecPlan {
    pub stages: Seq<SpecStage>,
    pub redirect: Option<SpecRedirectPlan>,
}

pub open spec fn paths_view(v: Seq<ValidatedPathSpecV1>) -> Seq<SpecPath> {
    v.map_values(|p: ValidatedPathSpecV1| p@)
}

pub open spec fn opt_path_view(p: Option<ValidatedPathSpecV1>) -> Option<SpecPath> {
    match p {
        Some(p) => Some(p@),
        None => None,
    }
}

pub open spec fn opt_chars_view(p: Option<String>) -> Option<Seq<char>> {
    match p {
        Some(s) => Some(s@),
        None => None,
    }
}

impl View for StagePlanV1 {
    type V = SpecStage;

    open spec fn view(&self) -> SpecStage {
        match self {
            StagePlanV1::PrintWorkingDirectory => SpecStage::PrintWorkingDirectory,
            StagePlanV1::ClearTerminal => SpecStage::ClearTerminal,
            StagePlanV1::FindExecutable { name } => SpecStage::FindExecutable { name: name@ },
            StagePlanV1::CreateDirectories { paths, parents } => SpecStage::CreateDirectories { paths: paths_view(paths@), parents: *parents },
            StagePlanV1::TouchFiles { paths } => SpecStage::TouchFiles { paths: paths_view(paths@) },
            StagePlanV1::CopyPath { source, destination, recursive, existing_destination } => SpecStage::CopyPath {
                source: source@,
                destination: destination@,
                recursive: *recursive,
                existing_destination: *existing_destination,
            },
            StagePlanV1::MovePath { source, destination, existing_destination } => SpecStage::MovePath {
                source: source@,
                destination: destination@,
                existing_destination: *existing_destination,
            },
            StagePlanV1::ListEntries { path, include_hidden, long, human_readable } => SpecStage::ListEntries {
                path: opt_path_view(*path),
                include_hidden: *include_hidden,
                long: *long,
                human_readable: *human_readable,
            },
            StagePlanV1::FindPaths { path, entry_type, name_pattern, ignore_case, min_depth, max_depth } => SpecStage::FindPaths {
                path: path@,
                entry_type: *entry_type,
                name_pattern: opt_chars_view(*name_pattern),
                ignore_case: *ignore_case,
                min_depth: *min_depth,
                max_depth: *max_depth,
            },
            StagePlanV1::ReadTextFiles { paths, number_lines } => SpecStage::ReadTextFiles { paths: paths_view(paths@), number_lines: *number_lines },
            StagePlanV1::HeadLines { count, path } => SpecStage::HeadLines { count: *count, path: opt_path_view(*path) },
            StagePlanV1::TailLines { count, path } => SpecStage::TailLines { count: *count, path: opt_path_view(*path) },
            StagePlanV1::FollowFile { count, path } => SpecStage::FollowFile { count: *count, path: path@ },
            StagePlanV1::SearchText { pattern, paths, ignore_case, line_numbers, invert_match, fixed_strings, recursive } => SpecStage::SearchText {
                pattern: pattern@,
                paths: paths_view(paths@),
                ignore_case: *ignore_case,
                line_numbers: *line_numbers,
                invert_match: *invert_match,
                fixed_strings: *fixed_strings,
                recursive: *recursive,
            },
            StagePlanV1::SortLines { path, reverse, numeric, unique } => SpecStage::SortLines {
                path: opt_path_view(*path),
                reverse: *reverse,
                numeric: *numeric,
                unique: *unique,
            },
            StagePlanV1::UniqueLines { path, count, repeated_only, unique_only } => SpecStage::UniqueLines {
                path: opt_path_view(*path),
                count: *count,
                repeated_only: *repeated_only,
                unique_only: *unique_only,
            },
            StagePlanV1::CountLines { path } => SpecStage::CountLines { path: opt_path_view(*path) },
        }
    }
}

pub open spec fn stages_view(v: Seq<StagePlanV1>) -> Seq<SpecStage> {
    v.map_values(|s: StagePlanV1| s@)
}

impl View for ExecutionPlanV1 {
    type V = SpecPlan;

    open spec fn view(&self) -> SpecPlan {
        SpecPlan {
            stages: stages_view(self.stages@),
            redirect: match self.redirect {
                Some(r) => Some(SpecRedirectPlan { mode: r.mode, path: r.path@ }),
                None => None,
            },
        }
    }
}

#[derive(Clone, Copy, Debug, Eq, PartialEq)]
pub enum FamiliarControlEffectV1 {
    SetTo(bool),
    Status,
}

impl FamiliarControlEffectV1 {
    /// The Familiar state that the effect sets, if it sets one.
    pub fn enabled(self) -> (r: Option<bool>)
        ensures
            r == match self {
                FamiliarControlEffectV1::SetTo(enabled) => Some(enabled),
                FamiliarControlEffectV1::Status => None::<bool>,
            },
    {
        match self {
            FamiliarControlEffectV1::SetTo(enabled) => Some(enabled),
            FamiliarControlEffectV1::Status => None,
        }
    }
}

pub open spec fn is_control_command(w: Seq<char>) -> bool {
    ||| eq_ignore_case(w, seq!['f', 'a', 'm', 'i', 'l', 'i', 'a', 'r'])
    ||| eq_ignore_case(w, seq!['f', 'a', 'm'])
    ||| eq_ignore_case(w, seq!['c', 'o', 'm', 'p', 'a', 't'])
}

/// The Familiar control that a line asks for: exactly two words, `familiar`, `fam` or `compat`
/// followed by `on`, `off` or `status`, in any ASCII case.
pub open spec fn spec_familiar_control(raw: Seq<char>) -> Option<FamiliarControlEffectV1> {
    let words = ascii_words(raw);
    if words.len() != 2 || !is_control_command(words[0]) {
        None
    } else if eq_ignore_case(words[1], seq!['o', 'n']) {
        Some(FamiliarControlEffectV1::SetTo(true))
    } else if eq_ignore_case(words[1], seq!['o', 'f', 'f']) {
        Some(FamiliarControlEffectV1::SetTo(false))
    } else if eq_ignore_case(words[1], seq!['s', 't', 'a', 't', 'u', 's']) {
        Some(FamiliarControlEffectV1::Status)
    } else {
        None
    }
}

/// Recognizes `familiar on|off|status` and its aliases.
pub fn parse_familiar_control(raw_line: &str) -> (r: Option<FamiliarControlEffectV1>)
    ensures
        r == spec_familiar_control(raw_line@),
{
    let chars = chars_of(raw_line);
    let words = split_ascii_words(chars.as_slice());
    let ghost ws = words@.map_values(|v: Vec<char>| v@);
    if words.len() != 2 {
        return None;
    }
    assert(ws[0] == words@[0]@ && ws[1] == words@[1]@);
    proof {
        reveal_strlit("familiar");
        reveal_strlit("fam");
        reveal_strlit("compat");
        reveal_strlit("on");
        reveal_strlit("off");
        reveal_strlit("status");
    }
    let command = &words[0];
    if !(eq_ignore_case_str(command.as_slice(), "familiar") || eq_ignore_case_str(command.as_slice(), "fam")
        || eq_ignore_case_str(command.as_slice(), "compat")) {
        assert("familiar"@ =~= seq!['f', 'a', 'm', 'i', 'l', 'i', 'a', 'r']);
        assert("fam"@ =~= seq!['f', 'a', 'm']);
        assert("compat"@ =~= seq!['c', 'o', 'm', 'p', 'a', 't']);
        return None;
    }
    assert("familiar"@ =~= seq!['f', 'a', 'm', 'i', 'l', 'i', 'a', 'r']);
    assert("fam"@ =~= seq!['f', 'a', 'm']);
    assert("compat"@ =~= seq!['c', 'o', 'm', 'p', 'a', 't']);
    assert("on"@ =~= seq!['o', 'n']);
    assert("off"@ =~= seq!['o', 'f', 'f']);
    assert("status"@ =~= seq!['s', 't', 'a', 't', 'u', 's']);
    let action = &words[1];
    if eq_ignore_case_str(action.as_slice(), "on") {
        Some(FamiliarControlEffectV1::SetTo(true))
    } else if eq_ignore_case_str(action.as_slice(), "off") {
        Some(FamiliarControlEffectV1::SetTo(false))
    } else if eq_ignore_case_str(action.as_slice(), "status") {
        Some(FamiliarControlEffectV1::Status)
    } else {
        None
    }
}

#[derive(Clone, Debug, Eq, PartialEq)]
pub enum RunnerRequestDecodeErrorV1 {
    TooLarge { limit: usize, received: usize },
    Malformed,
    UnsupportedProtocol { received: String },
    UnsupportedVersion { expected: u16, received: u16 },
    InvalidRequest(RunnerRequestValidationErrorV1),
}

#[derive(Clone, Copy, Debug, Eq, PartialEq, Structural)]
pub enum RunnerRequestValidationErrorV1 {
    InvalidProtocol,
    InvalidVersion,
    InvalidDiagnostic,
    InvalidControlResponse,
    InvalidExitCode,
    InvalidStageCount,
    InvalidStageShape,
    InvalidPathCount,
    InvalidPath,
    InvalidRange,
}

/// Non-empty text of at most `maximum_bytes` UTF-8 bytes with no control character.
pub open spec fn bounded_terminal_text(value: Seq<char>, maximum_bytes: nat) -> bool {
    &&& value.len() > 0
    &&& vstd::utf8::encode_utf8(value).len() <= maximum_bytes
    &&& forall|i: int| 0 <= i < value.len() ==> !is_control(#[trigger] value[i])
}

/// Whether `value` is non-empty, at most `maximum_bytes` long and free of control characters.
pub fn is_bounded_terminal_text(value: &str, maximum_bytes: usize) -> (r: bool)
    ensures
        r == bounded_terminal_text(value@, maximum_bytes as nat),
{
    let chars = chars_of(value);
    chars.len() > 0 && byte_len(value) <= maximum_bytes && !has_control(chars.as_slice())
}

/// A serialized path is acceptable when it is exactly what validating its own text gives.
pub open spec fn path_ok(p: SpecPath) -> bool {
    spec_validate_path(p.original) == Ok::<_, PathValidationErrorV1>(p)
}

pub open spec fn paths_ok(ps: Seq<SpecPath>) -> bool {
    forall|i: int| 0 <= i < ps.len() ==> path_ok(#[trigger] ps[i])
}

/// Adds `ps` to the operand count `count` and checks them.
pub open spec fn add_paths(count: int, ps: Seq<SpecPath>) -> Result<int, RunnerRequestValidationErrorV1> {
    if count + ps.len() > MAX_PATH_OPERANDS {
        Err(RunnerRequestValidationErrorV1::InvalidPathCount)
    } else if !paths_ok(ps) {
        Err(RunnerRequestValidationErrorV1::InvalidPath)
    } else {
        Ok(count + ps.len())
    }
}

pub open spec fn opt_seq(p: Option<SpecPath>) -> Seq<SpecPath> {
    match p {
        Some(p) => seq![p],
        None => seq![],
    }
}

/// The check of a stage that reads its input from a path (first stage) or from the pipeline.
pub open spec fn source_or_pipe(index: int, path: Option<SpecPath>, count: int) -> Result<int, RunnerRequestValidationErrorV1> {
    if index == 0 {
        match path {
            Some(p) => add_paths(count, seq![p]),
            None => Err(RunnerRequestValidationErrorV1::InvalidStageShape),
        }
    } else {
        match path {
            Some(_) => Err(RunnerRequestValidationErrorV1::InvalidStageShape),
            None => Ok(count),
        }
    }
}

/// The check of the stage at `index` of `n` stages: the new operand count and whether a recursive
/// search has been seen, or the error.
pub open spec fn check_stage(stage: SpecStage, index: int, n: int, count: int, saw_recursive: bool) -> Result<(int, bool), RunnerRequestValidationErrorV1> {
    match stage {
        SpecStage::ListEntries { path, long, human_readable, .. } => if index != 0 || (human_readable && !long) {
            Err(RunnerRequestValidationErrorV1::InvalidStageShape)
        } else {
            match add_paths(count, opt_seq(path)) {
                Ok(c) => Ok((c, saw_recursive)),
                Err(e) => Err(e),
            }
        },
        SpecStage::FindPaths { path, name_pattern, ignore_case, min_depth, max_depth, .. } => if index != 0
            || min_depth > MAX_FIND_DEPTH_VALUE
            || (max_depth is Some && max_depth.unwrap() > MAX_FIND_DEPTH_VALUE)
            || (name_pattern is None && ignore_case)
            || (name_pattern is Some && find_compile_outcome(name_pattern.unwrap(), ignore_case) is Err) {
            Err(RunnerRequestValidationErrorV1::InvalidStageShape)
        } else {
            match add_paths(count, seq![path]) {
                Ok(c) => Ok((c, saw_recursive)),
                Err(e) => Err(e),
            }
        },
        SpecStage::ReadTextFiles { paths, .. } => if index != 0 || paths.len() == 0 {
            Err(RunnerRequestValidationErrorV1::InvalidStageShape)
        } else {
            match add_paths(count, paths) {
                Ok(c) => Ok((c, saw_recursive)),
                Err(e) => Err(e),
            }
        },
        SpecStage::HeadLines { count: lines, path } => if lines > MAX_HEAD_LINE_COUNT {
            Err(RunnerRequestValidationErrorV1::InvalidRange)
        } else {
            match source_or_pipe(index, path, count) {
                Ok(c) => Ok((c, saw_recursive)),
                Err(e) => Err(e),
            }
        },
        SpecStage::TailLines { count: lines, path } => if lines > MAX_HEAD_LINE_COUNT {
            Err(RunnerRequestValidationErrorV1::InvalidRange)
        } else {
            match source_or_pipe(index, path, count) {
                Ok(c) => Ok((c, saw_recursive)),
                Err(e) => Err(e),
            }
        },
        SpecStage::FollowFile { count: lines, path } => if index != 0 || lines > MAX_HEAD_LINE_COUNT {
            Err(RunnerRequestValidationErrorV1::InvalidStageShape)
        } else {
            match add_paths(count, seq![path]) {
                Ok(c) => Ok((c, saw_recursive)),
                Err(e) => Err(e),
            }
        },
        SpecStage::SearchText { pattern, paths, ignore_case, fixed_strings, recursive, .. } => if (recursive
            && (index != 0 || saw_recursive))
            || vstd::utf8::encode_utf8(pattern).len() > MAX_GREP_PATTERN_BYTES
            || has_char(pattern, '\0') || has_char(pattern, '\r') || has_char(pattern, '\n')
            || grep_compile_outcome(pattern, fixed_strings, ignore_case) is Err {
            Err(RunnerRequestValidationErrorV1::InvalidStageShape)
        } else if index == 0 {
            if paths.len() == 0 {
                Err(RunnerRequestValidationErrorV1::InvalidStageShape)
            } else {
                match add_paths(count, paths) {
                    Ok(c) => Ok((c, saw_recursive || recursive)),
                    Err(e) => Err(e),
                }
            }
        } else if paths.len() == 0 && !recursive {
            Ok((count, saw_recursive || recursive))
        } else {
            Err(RunnerRequestValidationErrorV1::InvalidStageShape)
        },
        SpecStage::SortLines { path, .. } => match source_or_pipe(index, path, count) {
            Ok(c) => Ok((c, saw_recursive)),
            Err(e) => Err(e),
        },
        SpecStage::UniqueLines { path, repeated_only, unique_only, .. } => if repeated_only && unique_only {
            Err(RunnerRequestValidationErrorV1::InvalidStageShape)
        } else {
            match source_or_pipe(index, path, count) {
                Ok(c) => Ok((c, saw_recursive)),
                Err(e) => Err(e),
            }
        },
        SpecStage::CountLines { path } => if index + 1 != n {
            Err(RunnerRequestValidationErrorV1::InvalidStageShape)
        } else {
            match source_or_pipe(index, path, count) {
                Ok(c) => Ok((c, saw_recursive)),
                Err(e) => Err(e),
            }
        },
        _ => Err(RunnerRequestValidationErrorV1::InvalidStageShape),
    }
}

/// The checks of `stages[i..]` in order.
pub open spec fn check_stages_from(stages: Seq<SpecStage>, i: int, count: int, saw_recursive: bool) -> Result<(), RunnerRequestValidationErrorV1>
    decreases stages.len() - i,
{
    if i < 0 || i >= stages.len() {
        Ok(())
    } else {
        match check_stage(stages[i], i, stages.len() as int, count, saw_recursive) {
            Ok((c, s)) => check_stages_from(stages, i + 1, c, s),
            Err(e) => Err(e),
        }
    }
}

/// The check of a plan made of a single mutating or terminal stage, if it is one.
pub open spec fn single_stage_check(plan: SpecPlan) -> Option<Result<(), RunnerRequestValidationErrorV1>> {
    if plan.stages.len() != 1 {
        None
    } else {
        match plan.stages[0] {
            SpecStage::PrintWorkingDirectory | SpecStage::ClearTerminal => Some(
                if plan.redirect is None { Ok(()) } else { Err(RunnerRequestValidationErrorV1::InvalidStageShape) },
            ),
            SpecStage::FindExecutable { name } => Some(
                if plan.redirect is None && spec_executable_name(name) == Some(name) {
                    Ok(())
                } else {
                    Err(RunnerRequestValidationErrorV1::InvalidStageShape)
                },
            ),
            SpecStage::CreateDirectories { paths, .. } => Some(
                if plan.redirect is Some || paths.len() == 0 {
                    Err(RunnerRequestValidationErrorV1::InvalidStageShape)
                } else {
                    match add_paths(0, paths) {
                        Ok(_) => Ok(()),
                        Err(e) => Err(e),
                    }
                },
            ),
            SpecStage::TouchFiles { paths } => Some(
                if plan.redirect is Some || paths.len() == 0 {
                    Err(RunnerRequestValidationErrorV1::InvalidStageShape)
                } else {
                    match add_paths(0, paths) {
                        Ok(_) => Ok(()),
                        Err(e) => Err(e),
                    }
                },
            ),
            SpecStage::CopyPath { source, destination, .. } => Some(
                if plan.redirect is Some {
                    Err(RunnerRequestValidationErrorV1::InvalidStageShape)
                } else if !path_ok(source) || !path_ok(destination) {
                    Err(RunnerRequestValidationErrorV1::InvalidPath)
                } else {
                    Ok(())
                },
            ),
            SpecStage::MovePath { source, destination, .. } => Some(
                if plan.redirect is Some {
                    Err(RunnerRequestValidationErrorV1::InvalidStageShape)
                } else if !path_ok(source) || !path_ok(destination) {
                    Err(RunnerRequestValidationErrorV1::InvalidPath)
                } else {
                    Ok(())
                },
            ),
            _ => None,
        }
    }
}

/// What validating a plan gives.
pub open spec fn spec_validate_plan(plan: SpecPlan) -> Result<(), RunnerRequestValidationErrorV1> {
    if plan.stages.len() == 0 || plan.stages.len() > MAX_PIPELINE_STAGES {
        Err(RunnerRequestValidationErrorV1::InvalidStageCount)
    } else if plan.redirect is Some && !path_ok(plan.redirect.unwrap().path) {
        Err(RunnerRequestValidationErrorV1::InvalidPath)
    } else if single_stage_check(plan) is Some {
        single_stage_check(plan).unwrap()
    } else {
        check_stages_from(plan.stages, 0, if plan.redirect is Some { 1 } else { 0 }, false)
    }
}


/// Accepts a serialized path only when it is exactly what validating its own text gives.
pub fn validate_serialized_path(path: &ValidatedPathSpecV1) -> (r: Result<(), RunnerRequestValidationErrorV1>)
    ensures
        r is Ok <==> path_ok(path@),
        r is Err ==> r == Err::<(), _>(RunnerRequestValidationErrorV1::InvalidPath),
{
    if is_self_consistent(path) {
        Ok(())
    } else {
        Err(RunnerRequestValidationErrorV1::InvalidPath)
    }
}

/// Counts and checks a list of path operands.
fn add_path_list(count: usize, paths: &[ValidatedPathSpecV1]) -> (r: Result<usize, RunnerRequestValidationErrorV1>)
    requires
        count <= MAX_PATH_OPERANDS,
    ensures
        match add_paths(count as int, paths_view(paths@)) {
            Ok(c) => r == Ok::<usize, RunnerRequestValidationErrorV1>(c as usize),
            Err(e) => r == Err::<usize, _>(e),
        },
{
    if paths.len() > MAX_PATH_OPERANDS - count {
        return Err(RunnerRequestValidationErrorV1::InvalidPathCount);
    }
    let mut i: usize = 0;
    while i < paths.len()
        invariant
            i <= paths@.len(),
            count <= MAX_PATH_OPERANDS,
            paths@.len() <= MAX_PATH_OPERANDS - count,
            forall|j: int| 0 <= j < i ==> path_ok(#[trigger] paths_view(paths@)[j]),
        decreases paths.len() - i,
    {
        assert(paths_view(paths@)[i as int] == paths@[i as int]@);
        if validate_serialized_path(&paths[i]).is_err() {
            assert(!path_ok(paths_view(paths@)[i as int]));
            assert(!paths_ok(paths_view(paths@)));
            assert(count + paths_view(paths@).len() <= MAX_PATH_OPERANDS);
            return Err(RunnerRequestValidationErrorV1::InvalidPath);
        }
        i += 1;
    }
    Ok(count + paths.len())
}

/// Counts and checks one path operand.
fn add_one_path(count: usize, path: &ValidatedPathSpecV1) -> (r: Result<usize, RunnerRequestValidationErrorV1>)
    requires
        count <= MAX_PATH_OPERANDS,
    ensures
        match add_paths(count as int, seq![path@]) {
            Ok(c) => r == Ok::<usize, RunnerRequestValidationErrorV1>(c as usize),
            Err(e) => r == Err::<usize, _>(e),
        },
{
    if count + 1 > MAX_PATH_OPERANDS {
        return Err(RunnerRequestValidationErrorV1::InvalidPathCount);
    }
    assert(seq![path@][0] == path@);
    if validate_serialized_path(path).is_err() {
        assert(!paths_ok(seq![path@]));
        return Err(RunnerRequestValidationErrorV1::InvalidPath);
    }
    assert(paths_ok(seq![path@]));
    Ok(count + 1)
}

fn check_source_or_pipe(index: usize, path: &Option<ValidatedPathSpecV1>, count: usize) -> (r: Result<usize, RunnerRequestValidationErrorV1>)
    requires
        count <= MAX_PATH_OPERANDS,
    ensures
        match source_or_pipe(index as int, opt_path_view(*path), count as int) {
            Ok(c) => r == Ok::<usize, RunnerRequestValidationErrorV1>(c as usize),
            Err(e) => r == Err::<usize, _>(e),
        },
{
    match path {
        Some(p) => {
            if index == 0 {
                add_one_path(count, p)
            } else {
                Err(RunnerRequestValidationErrorV1::InvalidStageShape)
            }
        },
        None => {
            if index == 0 {
                Err(RunnerRequestValidationErrorV1::InvalidStageShape)
            } else {
                Ok(count)
            }
        },
    }
}

fn keep_saw(r: Result<usize, RunnerRequestValidationErrorV1>, saw: bool) -> (o: Result<(usize, bool), RunnerRequestValidationErrorV1>)
    ensures
        match r {
            Ok(c) => o == Ok::<(usize, bool), RunnerRequestValidationErrorV1>((c, saw)),
            Err(e) => o == Err::<(usize, bool), _>(e),
        },
{
    match r {
        Ok(c) => Ok((c, saw)),
        Err(e) => Err(e),
    }
}

/// The check of one stage of a multi-stage (or read-only) plan.
#[verifier::rlimit(60)]
fn check_plan_stage(stage: &StagePlanV1, index: usize, n: usize, count: usize, saw_recursive: bool) -> (r: Result<(usize, bool), RunnerRequestValidationErrorV1>)
    requires
        count <= MAX_PATH_OPERANDS,
        index < n,
    ensures
        match check_stage(stage@, index as int, n as int, count as int, saw_recursive) {
            Ok((c, s)) => r == Ok::<(usize, bool), RunnerRequestValidationErrorV1>((c as usize, s)),
            Err(e) => r == Err::<(usize, bool), _>(e),
        },
{
    match stage {
        StagePlanV1::ListEntries { path, long, human_readable, .. } => {
            if index != 0 || (*human_readable && !*long) {
                return Err(RunnerRequestValidationErrorV1::InvalidStageShape);
            }
            match path {
                Some(p) => keep_saw(add_one_path(count, p), saw_recursive),
                None => {
                    assert(opt_seq(opt_path_view(*path)) =~= Seq::<SpecPath>::empty());
                    Ok((count, saw_recursive))
                },
            }
        },
        StagePlanV1::FindPaths { path, name_pattern, ignore_case, min_depth, max_depth, .. } => check_find_stage(
            path, name_pattern, *ignore_case, *min_depth, *max_depth, index, count, saw_recursive),
        StagePlanV1::ReadTextFiles { paths, .. } => {
            if index != 0 || paths.len() == 0 {
                return Err(RunnerRequestValidationErrorV1::InvalidStageShape);
            }
            keep_saw(add_path_list(count, paths.as_slice()), saw_recursive)
        },
        StagePlanV1::HeadLines { count: lines, path } => {
            if *lines > MAX_HEAD_LINE_COUNT {
                return Err(RunnerRequestValidationErrorV1::InvalidRange);
            }
            keep_saw(check_source_or_pipe(index, path, count), saw_recursive)
        },
        StagePlanV1::TailLines { count: lines, path } => {
            if *lines > MAX_HEAD_LINE_COUNT {
                return Err(RunnerRequestValidationErrorV1::InvalidRange);
            }
            keep_saw(check_source_or_pipe(index, path, count), saw_recursive)
        },
        StagePlanV1::FollowFile { count: lines, path } => {
            if index != 0 || *lines > MAX_HEAD_LINE_COUNT {
                return Err(RunnerRequestValidationErrorV1::InvalidStageShape);
            }
            keep_saw(add_one_path(count, path), saw_recursive)
        },
        StagePlanV1::SearchText { pattern, paths, ignore_case, fixed_strings, recursive, .. } => check_search_stage(
            pattern, paths, *ignore_case, *fixed_strings, *recursive, index, count, saw_recursive),
        StagePlanV1::SortLines { path, .. } => keep_saw(check_source_or_pipe(index, path, count), saw_recursive),
        StagePlanV1::UniqueLines { path, repeated_only, unique_only, .. } => {
            if *repeated_only && *unique_only {
                return Err(RunnerRequestValidationErrorV1::InvalidStageShape);
            }
            keep_saw(check_source_or_pipe(index, path, count), saw_recursive)
        },
        StagePlanV1::CountLines { path } => {
            if index + 1 != n {
                return Err(RunnerRequestValidationErrorV1::InvalidStageShape);
            }
            keep_saw(check_source_or_pipe(index, path, count), saw_recursive)
        },
        _ => Err(RunnerRequestValidationErrorV1::InvalidStageShape),
    }
}

fn check_search_stage(
    pattern: &String,
    paths: &Vec<ValidatedPathSpecV1>,
    ignore_case: bool,
    fixed_strings: bool,
    recursive: bool,
    index: usize,
    count: usize,
    saw_recursive: bool,
) -> (r: Result<(usize, bool), RunnerRequestValidationErrorV1>)
    requires
        count <= MAX_PATH_OPERANDS,
    ensures
        match check_stage(SpecStage::SearchText {
            pattern: pattern@,
            paths: paths_view(paths@),
            ignore_case,
            line_numbers: false,
            invert_match: false,
            fixed_strings,
            recursive,
        }, index as int, 1, count as int, saw_recursive) {
            Ok((c, s)) => r == Ok::<(usize, bool), RunnerRequestValidationErrorV1>((c as usize, s)),
            Err(e) => r == Err::<(usize, bool), _>(e),
        },
{
    let chars = chars_of(pattern.as_str());
    if (recursive && (index != 0 || saw_recursive)) || byte_len(pattern.as_str()) > MAX_GREP_PATTERN_BYTES
        || contains_char(chars.as_slice(), '\0') || contains_char(chars.as_slice(), '\r')
        || contains_char(chars.as_slice(), '\n')
        || GrepPatternV1::compile(pattern.as_str(), fixed_strings, ignore_case).is_err() {
        return Err(RunnerRequestValidationErrorV1::InvalidStageShape);
    }
    let saw = saw_recursive || recursive;
    if index == 0 {
        if paths.len() == 0 {
            return Err(RunnerRequestValidationErrorV1::InvalidStageShape);
        }
        keep_saw(add_path_list(count, paths.as_slice()), saw)
    } else if paths.len() == 0 && !recursive {
        Ok((count, saw))
    } else {
        Err(RunnerRequestValidationErrorV1::InvalidStageShape)
    }
}

fn check_find_stage(
    path: &ValidatedPathSpecV1,
    name_pattern: &Option<String>,
    ignore_case: bool,
    min_depth: usize,
    max_depth: Option<usize>,
    index: usize,
    count: usize,
    saw_recursive: bool,
) -> (r: Result<(usize, bool), RunnerRequestValidationErrorV1>)
    requires
        count <= MAX_PATH_OPERANDS,
    ensures
        match check_stage(SpecStage::FindPaths {
            path: path@,
            entry_type: None,
            name_pattern: opt_chars_view(*name_pattern),
            ignore_case,
            min_depth,
            max_depth,
        }, index as int, 1, count as int, saw_recursive) {
            Ok((c, s)) => r == Ok::<(usize, bool), RunnerRequestValidationErrorV1>((c as usize, s)),
            Err(e) => r == Err::<(usize, bool), _>(e),
        },
{
    let max_bad = match max_depth {
        Some(d) => d > MAX_FIND_DEPTH_VALUE,
        None => false,
    };
    let pattern_bad = match name_pattern {
        Some(p) => FindPatternV1::compile(p.as_str(), ignore_case).is_err(),
        None => ignore_case,
    };
    if index != 0 || min_depth > MAX_FIND_DEPTH_VALUE || max_bad || pattern_bad {
        return Err(RunnerRequestValidationErrorV1::InvalidStageShape);
    }
    keep_saw(add_one_path(count, path), saw_recursive)
}

proof fn lemma_check_stage_bound(stage: SpecStage, index: int, n: int, count: int, saw: bool)
    requires
        0 <= count <= MAX_PATH_OPERANDS,
    ensures
        check_stage(stage, index, n, count, saw) matches Ok((c, _)) ==> 0 <= c <= MAX_PATH_OPERANDS,
{
}

/// The single-stage check, computed.
fn check_single_stage(plan: &ExecutionPlanV1) -> (r: Option<Result<(), RunnerRequestValidationErrorV1>>)
    requires
        plan.stages@.len() == 1,
    ensures
        r == single_stage_check(plan@),
{
    assert(plan@.stages[0] == plan.stages@[0]@);
    let has_redirect = plan.redirect.is_some();
    match &plan.stages[0] {
        StagePlanV1::PrintWorkingDirectory | StagePlanV1::ClearTerminal => Some(
            if !has_redirect { Ok(()) } else { Err(RunnerRequestValidationErrorV1::InvalidStageShape) },
        ),
        StagePlanV1::FindExecutable { name } => {
            let ok = match validate_executable_name(name.as_str()) {
                Ok(v) => v == *name,
                Err(_) => false,
            };
            Some(if !has_redirect && ok { Ok(()) } else { Err(RunnerRequestValidationErrorV1::InvalidStageShape) })
        },
        StagePlanV1::CreateDirectories { paths, .. } => {
            if has_redirect || paths.len() == 0 {
                return Some(Err(RunnerRequestValidationErrorV1::InvalidStageShape));
            }
            Some(match add_path_list(0, paths.as_slice()) {
                Ok(_) => Ok(()),
                Err(e) => Err(e),
            })
        },
        StagePlanV1::TouchFiles { paths } => {
            if has_redirect || paths.len() == 0 {
                return Some(Err(RunnerRequestValidationErrorV1::InvalidStageShape));
            }
            Some(match add_path_list(0, paths.as_slice()) {
                Ok(_) => Ok(()),
                Err(e) => Err(e),
            })
        },
        StagePlanV1::CopyPath { source, destination, .. } => {
            if has_redirect {
                return Some(Err(RunnerRequestValidationErrorV1::InvalidStageShape));
            }
            if validate_serialized_path(source).is_err() || validate_serialized_path(destination).is_err() {
                return Some(Err(RunnerRequestValidationErrorV1::InvalidPath));
            }
            Some(Ok(()))
        },
        StagePlanV1::MovePath { source, destination, .. } => {
            if has_redirect {
                return Some(Err(RunnerRequestValidationErrorV1::InvalidStageShape));
            }
            if validate_serialized_path(source).is_err() || validate_serialized_path(destination).is_err() {
                return Some(Err(RunnerRequestValidationErrorV1::InvalidPath));
            }
            Some(Ok(()))
        },
        _ => None,
    }
}

/// Checks that a plan has a supported shape, bounded operands and self-consistent paths.
pub fn validate_execution_plan(plan: &ExecutionPlanV1) -> (r: Result<(), RunnerRequestValidationErrorV1>)
    ensures
        r == spec_validate_plan(plan@),
{
    if plan.stages.len() == 0 || plan.stages.len() > MAX_PIPELINE_STAGES {
        return Err(RunnerRequestValidationErrorV1::InvalidStageCount);
    }
    let mut path_count: usize = 0;
    if let Some(redirect) = &plan.redirect {
        validate_serialized_path(&redirect.path)?;
        path_count = 1;
    }
    if plan.stages.len() == 1 {
        if let Some(result) = check_single_stage(plan) {
            return result;
        }
    }
    let n = plan.stages.len();
    let mut saw_recursive = false;
    let mut index: usize = 0;
    let ghost target = check_stages_from(plan@.stages, 0, path_count as int, false);
    assert(target == spec_validate_plan(plan@));
    while index < n
        invariant
            target == spec_validate_plan(plan@),
            n == plan.stages@.len(),
            plan@.stages.len() == n,
            index <= n,
            path_count <= MAX_PATH_OPERANDS,
            target == check_stages_from(plan@.stages, index as int, path_count as int, saw_recursive),
        decreases n - index,
    {
        assert(plan@.stages[index as int] == plan.stages@[index as int]@);
        proof { lemma_check_stage_bound(plan@.stages[index as int], index as int, n as int, path_count as int, saw_recursive); }
        let (c, s) = check_plan_stage(&plan.stages[index], index, n, path_count, saw_recursive)?;
        path_count = c;
        saw_recursive = s;
        index += 1;
    }
    Ok(())
}

/// Checks the protocol, version and content of a prepared request.
pub fn validate_prepared_request(request: &PreparedRequestV1) -> (r: Result<(), RunnerRequestValidationErrorV1>)
    ensures
        r == spec_validate_request(request@),
{
    let protocol = chars_of(request.protocol.as_str());
    proof {
        reveal_strlit("wingman.run");
        assert("wingman.run"@ =~= wingman_protocol());
    }
    if !crate::text::eq_str(protocol.as_slice(), "wingman.run") {
        return Err(RunnerRequestValidationErrorV1::InvalidProtocol);
    }
    if request.version != 1 {
        return Err(RunnerRequestValidationErrorV1::InvalidVersion);
    }
    match &request.kind {
        PreparedRequestKindV1::Reject { diagnostic, exit_code } => {
            if !is_bounded_terminal_text(diagnostic.as_str(), MAX_PREPARED_DIAGNOSTIC_BYTES) {
                return Err(RunnerRequestValidationErrorV1::InvalidDiagnostic);
            }
            if *exit_code != 2 {
                return Err(RunnerRequestValidationErrorV1::InvalidExitCode);
            }
            Ok(())
        },
        PreparedRequestKindV1::Control { response, exit_code } => {
            if !is_bounded_terminal_text(response.as_str(), MAX_CONTROL_RESPONSE_BYTES) {
                return Err(RunnerRequestValidationErrorV1::InvalidControlResponse);
            }
            if *exit_code != 0 {
                return Err(RunnerRequestValidationErrorV1::InvalidExitCode);
            }
            Ok(())
        },
        PreparedRequestKindV1::Execute { plan } => validate_execution_plan(plan),
    }
}

/// The value of a request kind.
pub enum SpecRequestKind {
    Reject { diagnostic: Seq<char>, exit_code: u8 },
    Execute { plan: SpecPlan },
    Control { response: Seq<char>, exit_code: u8 },
}

pub struct SpecRequest {
    pub protocol: Seq<char>,
    pub version: u16,
    pub kind: SpecRequestKind,
}

impl View for PreparedRequestV1 {
    type V = SpecRequest;

    open spec fn view(&self) -> SpecRequest {
        SpecRequest {
            protocol: self.protocol@,
            version: self.version,
            kind: self.kind@,
        }
    }
}

impl View for PreparedRequestKindV1 {
    type V = SpecRequestKind;

    open spec fn view(&self) -> SpecRequestKind {
        match self {
            PreparedRequestKindV1::Reject { diagnostic, exit_code } => SpecRequestKind::Reject { diagnostic: diagnostic@, exit_code: *exit_code },
            PreparedRequestKindV1::Execute { plan } => SpecRequestKind::Execute { plan: plan@ },
            PreparedRequestKindV1::Control { response, exit_code } => SpecRequestKind::Control { response: response@, exit_code: *exit_code },
        }
    }
}

/// The protocol name of prepared requests.
pub open spec fn wingman_protocol() -> Seq<char> {
    seq!['w', 'i', 'n', 'g', 'm', 'a', 'n', '.', 'r', 'u', 'n']
}

/// What validating a prepared request gives.
pub open spec fn spec_validate_request(r: SpecRequest) -> Result<(), RunnerRequestValidationErrorV1> {
    if r.protocol != wingman_protocol() {
        Err(RunnerRequestValidationErrorV1::InvalidProtocol)
    } else if r.version != 1 {
        Err(RunnerRequestValidationErrorV1::InvalidVersion)
    } else {
        match r.kind {
            SpecRequestKind::Reject { diagnostic, exit_code } => if !bounded_terminal_text(diagnostic, MAX_PREPARED_DIAGNOSTIC_BYTES as nat) {
                Err(RunnerRequestValidationErrorV1::InvalidDiagnostic)
            } else if exit_code != 2 {
                Err(RunnerRequestValidationErrorV1::InvalidExitCode)
            } else {
                Ok(())
            },
            SpecRequestKind::Control { response, exit_code } => if !bounded_terminal_text(response, MAX_CONTROL_RESPONSE_BYTES as nat) {
                Err(RunnerRequestValidationErrorV1::InvalidControlResponse)
            } else if exit_code != 0 {
                Err(RunnerRequestValidationErrorV1::InvalidExitCode)
            } else {
                Ok(())
            },
            SpecRequestKind::Execute { plan } => spec_validate_plan(plan),
        }
    }
}


/// Checks the size of a prepared request's wire form before it is parsed.
pub fn check_prepared_request_size(received: usize) -> (r: Result<(), RunnerRequestDecodeErrorV1>)
    ensures
        received <= MAX_PREPARED_REQUEST_BYTES ==> r is Ok,
        received > MAX_PREPARED_REQUEST_BYTES ==> r == Err::<(), _>(RunnerRequestDecodeErrorV1::TooLarge { limit: MAX_PREPARED_REQUEST_BYTES, received }),
{
    if received > MAX_PREPARED_REQUEST_BYTES {
        return Err(RunnerRequestDecodeErrorV1::TooLarge { limit: MAX_PREPARED_REQUEST_BYTES, received });
    }
    Ok(())
}

/// Checks a parsed prepared request: its protocol, its version, then its content.
pub fn check_decoded_request(request: PreparedRequestV1) -> (r: Result<PreparedRequestV1, RunnerRequestDecodeErrorV1>)
    ensures
        request@.protocol != wingman_protocol() ==> (r matches Err(RunnerRequestDecodeErrorV1::UnsupportedProtocol { received }) && received@ == request@.protocol),
        request@.protocol == wingman_protocol() && request.version != 1
            ==> r == Err::<PreparedRequestV1, _>(RunnerRequestDecodeErrorV1::UnsupportedVersion { expected: 1, received: request.version }),
        request@.protocol == wingman_protocol() && request.version == 1 ==> match spec_validate_request(request@) {
            Ok(()) => r == Ok::<PreparedRequestV1, RunnerRequestDecodeErrorV1>(request),
            Err(e) => r == Err::<PreparedRequestV1, _>(RunnerRequestDecodeErrorV1::InvalidRequest(e)),
        },
{
    let protocol = chars_of(request.protocol.as_str());
    proof {
        reveal_strlit("wingman.run");
        assert("wingman.run"@ =~= wingman_protocol());
    }
    if !crate::text::eq_str(protocol.as_slice(), "wingman.run") {
        return Err(RunnerRequestDecodeErrorV1::UnsupportedProtocol { received: request.protocol });
    }
    if request.version != 1 {
        return Err(RunnerRequestDecodeErrorV1::UnsupportedVersion { expected: 1, received: request.version });
    }
    match validate_prepared_request(&request) {
        Ok(()) => Ok(request),
        Err(e) => Err(RunnerRequestDecodeErrorV1::InvalidRequest(e)),
    }
}

/// The paths a stage names.
pub open spec fn stage_paths(stage: SpecStage) -> Seq<SpecPath> {
    match stage {
        SpecStage::CreateDirectories { paths, .. } => paths,
        SpecStage::TouchFiles { paths } => paths,
        SpecStage::CopyPath { source, destination, .. } => seq![source, destination],
        SpecStage::MovePath { source, destination, .. } => seq![source, destination],
        SpecStage::ListEntries { path, .. } => opt_seq(path),
        SpecStage::FindPaths { path, .. } => seq![path],
        SpecStage::ReadTextFiles { paths, .. } => paths,
        SpecStage::HeadLines { path, .. } => opt_seq(path),
        SpecStage::TailLines { path, .. } => opt_seq(path),
        SpecStage::FollowFile { path, .. } => seq![path],
        SpecStage::SearchText { paths, .. } => paths,
        SpecStage::SortLines { path, .. } => opt_seq(path),
        SpecStage::UniqueLines { path, .. } => opt_seq(path),
        SpecStage::CountLines { path } => opt_seq(path),
        _ => seq![],
    }
}

/// The paths named by `stages[i..]`, in order.
pub open spec fn paths_from(stages: Seq<SpecStage>, i: int) -> Seq<SpecPath>
    decreases stages.len() - i,
{
    if i < 0 || i >= stages.len() { seq![] } else { stage_paths(stages[i]) + paths_from(stages, i + 1) }
}

/// A command that may only stand alone in a plan, with no redirection.
pub open spec fn sole_command(stage: SpecStage) -> bool {
    stage is PrintWorkingDirectory || stage is ClearTerminal || stage is FindExecutable || stage is CreateDirectories
        || stage is TouchFiles || stage is CopyPath || stage is MovePath
}

/// A stage that reads from the file system rather than from the pipeline: it can only start a
/// plan.
pub open spec fn source_only(stage: SpecStage) -> bool {
    stage is ListEntries || stage is FindPaths || stage is ReadTextFiles || stage is FollowFile
}

/// The option rules of a stage wherever it stands: `uniq` takes `-d` or `-u`, not both, and
/// `head`, `tail` and `tail -f` count at most `MAX_HEAD_LINE_COUNT` lines.
pub open spec fn stage_options_ok(stage: SpecStage) -> bool {
    &&& (stage matches SpecStage::UniqueLines { repeated_only, unique_only, .. } ==> !(repeated_only && unique_only))
    &&& (stage matches SpecStage::HeadLines { count, .. } ==> count <= MAX_HEAD_LINE_COUNT)
    &&& (stage matches SpecStage::TailLines { count, .. } ==> count <= MAX_HEAD_LINE_COUNT)
    &&& (stage matches SpecStage::FollowFile { count, .. } ==> count <= MAX_HEAD_LINE_COUNT)
}

/// The operands of a plan: those of its stages, then its redirection target.
pub open spec fn plan_paths(plan: SpecPlan) -> Seq<SpecPath> {
    paths_from(plan.stages, 0) + match plan.redirect {
        Some(r) => seq![r.path],
        None => seq![],
    }
}

proof fn lemma_paths_ok_concat(a: Seq<SpecPath>, b: Seq<SpecPath>)
    requires
        paths_ok(a),
        paths_ok(b),
    ensures
        paths_ok(a + b),
{
    assert forall|k: int| 0 <= k < (a + b).len() implies path_ok(#[trigger] (a + b)[k]) by {
        if k < a.len() {
            assert((a + b)[k] == a[k]);
        } else {
            assert((a + b)[k] == b[k - a.len()]);
        }
    }
}

proof fn lemma_check_stage_paths(stage: SpecStage, index: int, n: int, count: int, saw: bool)
    requires
        check_stage(stage, index, n, count, saw) is Ok,
    ensures
        check_stage(stage, index, n, count, saw).unwrap().0 == count + stage_paths(stage).len(),
        paths_ok(stage_paths(stage)),
        stage_paths(stage).len() > 0 ==> check_stage(stage, index, n, count, saw).unwrap().0 <= MAX_PATH_OPERANDS,
        index > 0 ==> stage_paths(stage).len() == 0,
        !sole_command(stage),
        index > 0 ==> !source_only(stage),
        stage is CountLines ==> index + 1 == n,
        (stage matches SpecStage::SearchText { recursive, .. } && recursive) ==> index == 0 && !saw,
        stage_options_ok(stage),
{
    match stage {
        SpecStage::HeadLines { path, .. } | SpecStage::TailLines { path, .. } | SpecStage::SortLines { path, .. }
        | SpecStage::UniqueLines { path, .. } | SpecStage::CountLines { path } => {
            if index == 0 {
                assert(seq![path.unwrap()] =~= opt_seq(path));
            } else {
                assert(opt_seq(path) =~= Seq::<SpecPath>::empty());
            }
            assert(paths_ok(opt_seq(path)));
        },
        _ => {},
    }
}

proof fn lemma_check_stages_paths(stages: Seq<SpecStage>, i: int, count: int, saw: bool)
    requires
        0 <= i <= stages.len(),
        0 <= count <= MAX_PATH_OPERANDS,
        check_stages_from(stages, i, count, saw) is Ok,
    ensures
        count + paths_from(stages, i).len() <= MAX_PATH_OPERANDS,
        paths_ok(paths_from(stages, i)),
        forall|j: int| i <= j < stages.len() ==> !sole_command(#[trigger] stages[j]),
        forall|j: int| i <= j < stages.len() && j > 0 ==> stage_paths(#[trigger] stages[j]).len() == 0,
        forall|j: int| i <= j < stages.len() && j > 0 ==> !source_only(#[trigger] stages[j]),
        forall|j: int| i <= j < stages.len() && #[trigger] stages[j] is CountLines ==> j + 1 == stages.len(),
        forall|j: int| i <= j < stages.len() ==> stage_options_ok(#[trigger] stages[j]),
        forall|j: int| i <= j < stages.len() && (#[trigger] stages[j] matches SpecStage::SearchText { recursive, .. } && recursive)
            ==> j == 0,
    decreases stages.len() - i,
{
    if i < stages.len() {
        lemma_check_stage_paths(stages[i], i, stages.len() as int, count, saw);
        let (c, s2) = check_stage(stages[i], i, stages.len() as int, count, saw).unwrap();
        lemma_check_stages_paths(stages, i + 1, c, s2);
        lemma_paths_ok_concat(stage_paths(stages[i]), paths_from(stages, i + 1));
    } else {
        assert(paths_from(stages, i) =~= Seq::<SpecPath>::empty());
    }
}

/// What a plan that validation accepts is like: it has between one and
/// `MAX_PIPELINE_STAGES` stages; every operand, the redirection target included, is exactly
/// what validating its own text gives, and there are at most `MAX_PATH_OPERANDS` of them; no
/// stage after the first names a path or reads the file system (`ls`, `find`, `cat`,
/// `tail -f`), and only the first may search recursively; `wc -l` can only end a plan; `uniq`
/// never takes both `-d` and `-u`; line counts are within their limit; and a mutating or
/// terminal command stands alone, with no redirection.
pub proof fn law_valid_plan_shape(plan: SpecPlan)
    requires
        spec_validate_plan(plan) is Ok,
    ensures
        1 <= plan.stages.len() <= MAX_PIPELINE_STAGES,
        paths_ok(plan_paths(plan)),
        plan_paths(plan).len() <= MAX_PATH_OPERANDS,
        forall|j: int| 0 < j < plan.stages.len() ==> stage_paths(#[trigger] plan.stages[j]).len() == 0,
        forall|j: int| 0 <= j < plan.stages.len() && sole_command(#[trigger] plan.stages[j])
            ==> plan.stages.len() == 1 && plan.redirect is None,
        forall|j: int| 0 < j < plan.stages.len() ==> !source_only(#[trigger] plan.stages[j]),
        forall|j: int| 0 <= j < plan.stages.len() && #[trigger] plan.stages[j] is CountLines
            ==> j + 1 == plan.stages.len(),
        forall|j: int| 0 <= j < plan.stages.len() ==> stage_options_ok(#[trigger] plan.stages[j]),
        forall|j: int| 0 <= j < plan.stages.len()
            && (#[trigger] plan.stages[j] matches SpecStage::SearchText { recursive, .. } && recursive) ==> j == 0,
{
    let red: Seq<SpecPath> = match plan.redirect {
        Some(r) => seq![r.path],
        None => seq![],
    };
    if single_stage_check(plan) is Some {
        let st = plan.stages[0];
        assert(paths_from(plan.stages, 1) =~= Seq::<SpecPath>::empty());
        assert(paths_from(plan.stages, 0) =~= stage_paths(st));
        match st {
            SpecStage::CopyPath { source, destination, .. } => {
                assert(paths_ok(seq![source, destination]));
            },
            SpecStage::MovePath { source, destination, .. } => {
                assert(paths_ok(seq![source, destination]));
            },
            _ => {},
        }
        if sole_command(st) {
            assert(red =~= Seq::<SpecPath>::empty());
            assert(plan_paths(plan) =~= stage_paths(st));
        } else {
            assert(false);
        }
    } else {
        let count: int = if plan.redirect is Some { 1 } else { 0 };
        lemma_check_stages_paths(plan.stages, 0, count, false);
        assert(paths_ok(red));
        lemma_paths_ok_concat(paths_from(plan.stages, 0), red);
        assert forall|j: int| 0 <= j < plan.stages.len() && sole_command(#[trigger] plan.stages[j])
            implies plan.stages.len() == 1 && plan.redirect is None by {
        }
    }
}

} // verus!
