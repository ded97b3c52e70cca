//! The public command line, `wingman [--shell powershell|cmd] [--] [PATH]`: what it asks for,
//! and the start directory a new window gets.

use vstd::prelude::*;
use crate::text::{chars_of, eq_str};
use crate::windows_path::{
    resolve_path_spec, spec_resolve_path, spec_validate_path, validate_path_value,
    PathResolutionErrorV1, PathValidationErrorV1,
};

verus! {

#[derive(Clone, Copy, Debug, Eq, PartialEq, Structural)]
pub enum RequestedShellV1 {
    Cmd,
    WindowsPowerShell,
}

/// A command-line argument: its text, or that it is not Unicode.
#[derive(Clone, Debug, Eq, PartialEq)]
pub enum LaunchArgumentV1 {
    Text(String),
    NotUnicode,
}

pub enum SpecArgument {
    Text(Seq<char>),
    NotUnicode,
}

impl View for LaunchArgumentV1 {
    type V = SpecArgument;

    open spec fn view(&self) -> SpecArgument {
        match self {
            LaunchArgumentV1::Text(s) => SpecArgument::Text(s@),
            LaunchArgumentV1::NotUnicode => SpecArgument::NotUnicode,
        }
    }
}

#[derive(Clone, Debug, Eq, PartialEq)]
pub enum PublicLaunchActionV1 {
    Help,
    Version,
    OpenWindow { shell: Option<RequestedShellV1>, start_path: Option<LaunchArgumentV1> },
}

#[derive(Clone, Debug, Eq, PartialEq)]
pub enum PublicLaunchSyntaxErrorV1 {
    MissingShell,
    UnsupportedShell(LaunchArgumentV1),
    UnsupportedOption(LaunchArgumentV1),
    TooManyOperands,
}

#[derive(Clone, Debug, Eq, PartialEq)]
pub struct GuiLaunchRequestV1 {
    pub shell: RequestedShellV1,
    pub start_directory: String,
}

#[derive(Clone, Debug, Eq, PartialEq)]
pub enum ResolvedPublicActionV1 {
    Help,
    Version,
    OpenWindow(GuiLaunchRequestV1),
}

#[derive(Clone, Debug, Eq, PartialEq)]
pub enum PublicLaunchResolutionErrorV1 {
    CurrentDirectoryNotUnicode,
    StartPathNotUnicode,
    InvalidCurrentDirectory(PathValidationErrorV1),
    InvalidStartPath(PathValidationErrorV1),
    Resolution(PathResolutionErrorV1),
    Missing,
    NotDirectory,
    ReparsePoint,
    Metadata,
}

pub enum SpecLaunchAction {
    Help,
    Version,
    OpenWindow { shell: Option<RequestedShellV1>, start_path: Option<SpecArgument> },
}

pub enum SpecSyntaxError {
    MissingShell,
    UnsupportedShell(SpecArgument),
    UnsupportedOption(SpecArgument),
    TooManyOperands,
}

/// Whether an argument is exactly the text `t`.
pub open spec fn is_text(a: SpecArgument, t: Seq<char>) -> bool {
    a matches SpecArgument::Text(s) && s == t
}

/// Whether an argument looks like an option: Unicode text that starts with `-`.
pub open spec fn is_option_like(a: SpecArgument) -> bool {
    a matches SpecArgument::Text(s) && s.len() > 0 && s[0] == '-'
}

/// What the rest of the line, from argument `i` on, asks for once the shell is known.
pub open spec fn spec_parse_operands(args: Seq<SpecArgument>, i: int, shell: Option<RequestedShellV1>) -> Result<SpecLaunchAction, SpecSyntaxError> {
    let j = if i < args.len() && is_text(args[i], "--"@) { i + 1 } else { i };
    if j == i && i < args.len() && is_option_like(args[i]) {
        Err(SpecSyntaxError::UnsupportedOption(args[i]))
    } else if j + 1 < args.len() {
        Err(SpecSyntaxError::TooManyOperands)
    } else {
        Ok(SpecLaunchAction::OpenWindow { shell, start_path: if j < args.len() { Some(args[j]) } else { None } })
    }
}

/// What a command line asks for: `--help` or `--version` alone, or a window with an optional
/// shell and start path.
pub open spec fn spec_parse_public_args(args: Seq<SpecArgument>) -> Result<SpecLaunchAction, SpecSyntaxError> {
    if args.len() > 0 && is_text(args[0], "--help"@) {
        if args.len() > 1 { Err(SpecSyntaxError::TooManyOperands) } else { Ok(SpecLaunchAction::Help) }
    } else if args.len() > 0 && is_text(args[0], "--version"@) {
        if args.len() > 1 { Err(SpecSyntaxError::TooManyOperands) } else { Ok(SpecLaunchAction::Version) }
    } else if args.len() > 0 && is_text(args[0], "--shell"@) {
        if args.len() < 2 {
            Err(SpecSyntaxError::MissingShell)
        } else if is_text(args[1], "cmd"@) {
            spec_parse_operands(args, 2, Some(RequestedShellV1::Cmd))
        } else if is_text(args[1], "powershell"@) {
            spec_parse_operands(args, 2, Some(RequestedShellV1::WindowsPowerShell))
        } else {
            Err(SpecSyntaxError::UnsupportedShell(args[1]))
        }
    } else {
        spec_parse_operands(args, 0, None)
    }
}

pub open spec fn action_view(a: PublicLaunchActionV1) -> SpecLaunchAction {
    match a {
        PublicLaunchActionV1::Help => SpecLaunchAction::Help,
        PublicLaunchActionV1::Version => SpecLaunchAction::Version,
        PublicLaunchActionV1::OpenWindow { shell, start_path } => SpecLaunchAction::OpenWindow {
            shell,
            start_path: match start_path {
                Some(p) => Some(p@),
                None => None,
            },
        },
    }
}

pub open spec fn syntax_error_view(e: PublicLaunchSyntaxErrorV1) -> SpecSyntaxError {
    match e {
        PublicLaunchSyntaxErrorV1::MissingShell => SpecSyntaxError::MissingShell,
        PublicLaunchSyntaxErrorV1::UnsupportedShell(a) => SpecSyntaxError::UnsupportedShell(a@),
        PublicLaunchSyntaxErrorV1::UnsupportedOption(a) => SpecSyntaxError::UnsupportedOption(a@),
        PublicLaunchSyntaxErrorV1::TooManyOperands => SpecSyntaxError::TooManyOperands,
    }
}

/// Whether an argument is exactly the text `t`.
fn argument_is(a: &LaunchArgumentV1, t: &str) -> (r: bool)
    ensures
        r == is_text(a@, t@),
{
    match a {
        LaunchArgumentV1::Text(s) => {
            let chars = chars_of(s.as_str());
            eq_str(chars.as_slice(), t)
        },
        LaunchArgumentV1::NotUnicode => false,
    }
}

/// Whether an argument looks like an option.
fn argument_is_option_like(a: &LaunchArgumentV1) -> (r: bool)
    ensures
        r == is_option_like(a@),
{
    match a {
        LaunchArgumentV1::Text(s) => {
            let chars = chars_of(s.as_str());
            chars.len() > 0 && chars[0] == '-'
        },
        LaunchArgumentV1::NotUnicode => false,
    }
}

/// A copy of an argument.
fn copy_argument(a: &LaunchArgumentV1) -> (r: LaunchArgumentV1)
    ensures
        r@ == a@,
{
    match a {
        LaunchArgumentV1::Text(s) => LaunchArgumentV1::Text(s.clone()),
        LaunchArgumentV1::NotUnicode => LaunchArgumentV1::NotUnicode,
    }
}

/// The operands from argument `i` on, once the shell is known.
fn parse_operands(args: &Vec<LaunchArgumentV1>, i: usize, shell: Option<RequestedShellV1>) -> (r: Result<PublicLaunchActionV1, PublicLaunchSyntaxErrorV1>)
    requires
        i <= args@.len(),
    ensures
        match spec_parse_operands(args@.map_values(|a: LaunchArgumentV1| a@), i as int, shell) {
            Ok(a) => r matches Ok(x) && action_view(x) == a,
            Err(e) => r matches Err(x) && syntax_error_view(x) == e,
        },
{
    let ghost views = args@.map_values(|a: LaunchArgumentV1| a@);
    proof {
        reveal_strlit("--");
    }
    let mut j = i;
    if i < args.len() && argument_is(&args[i], "--") {
        j = i + 1;
    } else if i < args.len() && argument_is_option_like(&args[i]) {
        return Err(PublicLaunchSyntaxErrorV1::UnsupportedOption(copy_argument(&args[i])));
    }
    if j < args.len() && j + 1 < args.len() {
        return Err(PublicLaunchSyntaxErrorV1::TooManyOperands);
    }
    let start_path = if j < args.len() { Some(copy_argument(&args[j])) } else { None };
    Ok(PublicLaunchActionV1::OpenWindow { shell, start_path })
}

/// Reads the public command line (without the program name).
pub fn parse_public_args(args: Vec<LaunchArgumentV1>) -> (r: Result<PublicLaunchActionV1, PublicLaunchSyntaxErrorV1>)
    ensures
        match spec_parse_public_args(args@.map_values(|a: LaunchArgumentV1| a@)) {
            Ok(a) => r matches Ok(x) && action_view(x) == a,
            Err(e) => r matches Err(x) && syntax_error_view(x) == e,
        },
{
    let ghost views = args@.map_values(|a: LaunchArgumentV1| a@);
    proof {
        reveal_strlit("--help");
        reveal_strlit("--version");
        reveal_strlit("--shell");
        reveal_strlit("cmd");
        reveal_strlit("powershell");
    }
    if args.len() > 0 && argument_is(&args[0], "--help") {
        if args.len() > 1 {
            return Err(PublicLaunchSyntaxErrorV1::TooManyOperands);
        }
        return Ok(PublicLaunchActionV1::Help);
    }
    if args.len() > 0 && argument_is(&args[0], "--version") {
        if args.len() > 1 {
            return Err(PublicLaunchSyntaxErrorV1::TooManyOperands);
        }
        return Ok(PublicLaunchActionV1::Version);
    }
    if args.len() > 0 && argument_is(&args[0], "--shell") {
        if args.len() < 2 {
            return Err(PublicLaunchSyntaxErrorV1::MissingShell);
        }
        if argument_is(&args[1], "cmd") {
            return parse_operands(&args, 2, Some(RequestedShellV1::Cmd));
        }
        if argument_is(&args[1], "powershell") {
            return parse_operands(&args, 2, Some(RequestedShellV1::WindowsPowerShell));
        }
        return Err(PublicLaunchSyntaxErrorV1::UnsupportedShell(copy_argument(&args[1])));
    }
    parse_operands(&args, 0, None)
}

/// What the file system says of a start directory.
#[derive(Clone, Copy, Debug, Eq, PartialEq, Structural)]
pub enum StartDirectoryProbeV1 {
    Missing,
    Unreadable,
    Found { reparse_point: bool, directory: bool },
}

/// A public action once its paths are resolved: done, or a start directory to look at.
#[derive(Clone, Debug, Eq, PartialEq)]
pub enum LaunchResolutionV1 {
    Resolved(ResolvedPublicActionV1),
    ProbeDirectory { shell: RequestedShellV1, start_directory: String },
}

/// The start directory of a window: the current directory, or the start path resolved
/// against it; both must be valid paths.
pub open spec fn spec_start_directory(inherited_cwd: SpecArgument, start_path: Option<SpecArgument>) -> Result<Seq<char>, PublicLaunchResolutionErrorV1> {
    match inherited_cwd {
        SpecArgument::NotUnicode => Err(PublicLaunchResolutionErrorV1::CurrentDirectoryNotUnicode),
        SpecArgument::Text(cwd) => match spec_validate_path(cwd) {
            Err(e) => Err(PublicLaunchResolutionErrorV1::InvalidCurrentDirectory(e)),
            Ok(_) => match start_path {
                None => Ok(cwd),
                Some(SpecArgument::NotUnicode) => Err(PublicLaunchResolutionErrorV1::StartPathNotUnicode),
                Some(SpecArgument::Text(p)) => match spec_validate_path(p) {
                    Err(e) => Err(PublicLaunchResolutionErrorV1::InvalidStartPath(e)),
                    Ok(spec) => match spec_resolve_path(spec, cwd) {
                        Err(e) => Err(PublicLaunchResolutionErrorV1::Resolution(e)),
                        Ok(native) => Ok(native),
                    },
                },
            },
        },
    }
}

/// Resolves the paths of a public action against the current directory `inherited_cwd`.
pub fn resolve_launch_paths(action: PublicLaunchActionV1, inherited_cwd: &LaunchArgumentV1) -> (r: Result<LaunchResolutionV1, PublicLaunchResolutionErrorV1>)
    ensures
        match action {
            PublicLaunchActionV1::Help => r == Ok::<LaunchResolutionV1, PublicLaunchResolutionErrorV1>(LaunchResolutionV1::Resolved(ResolvedPublicActionV1::Help)),
            PublicLaunchActionV1::Version => r == Ok::<LaunchResolutionV1, PublicLaunchResolutionErrorV1>(LaunchResolutionV1::Resolved(ResolvedPublicActionV1::Version)),
            PublicLaunchActionV1::OpenWindow { shell, start_path } => match spec_start_directory(inherited_cwd@, match start_path {
                Some(p) => Some(p@),
                None => None,
            }) {
                Err(e) => r == Err::<LaunchResolutionV1, _>(e),
                Ok(dir) => r matches Ok(LaunchResolutionV1::ProbeDirectory { shell: s, start_directory })
                    && start_directory@ == dir
                    && s == match shell {
                        Some(x) => x,
                        None => RequestedShellV1::WindowsPowerShell,
                    },
            },
        },
{
    let (shell, start_path) = match action {
        PublicLaunchActionV1::Help => return Ok(LaunchResolutionV1::Resolved(ResolvedPublicActionV1::Help)),
        PublicLaunchActionV1::Version => return Ok(LaunchResolutionV1::Resolved(ResolvedPublicActionV1::Version)),
        PublicLaunchActionV1::OpenWindow { shell, start_path } => (shell, start_path),
    };
    let cwd = match inherited_cwd {
        LaunchArgumentV1::NotUnicode => return Err(PublicLaunchResolutionErrorV1::CurrentDirectoryNotUnicode),
        LaunchArgumentV1::Text(cwd) => cwd,
    };
    match validate_path_value(cwd.as_str()) {
        Err(e) => return Err(PublicLaunchResolutionErrorV1::InvalidCurrentDirectory(e)),
        Ok(_) => {},
    }
    let resolved = match start_path {
        None => cwd.clone(),
        Some(LaunchArgumentV1::NotUnicode) => return Err(PublicLaunchResolutionErrorV1::StartPathNotUnicode),
        Some(LaunchArgumentV1::Text(path)) => {
            let spec = match validate_path_value(path.as_str()) {
                Ok(spec) => spec,
                Err(e) => return Err(PublicLaunchResolutionErrorV1::InvalidStartPath(e)),
            };
            match resolve_path_spec(&spec, cwd.as_str()) {
                Ok(native) => native,
                Err(e) => return Err(PublicLaunchResolutionErrorV1::Resolution(e)),
            }
        },
    };
    let shell = match shell {
        Some(s) => s,
        None => RequestedShellV1::WindowsPowerShell,
    };
    Ok(LaunchResolutionV1::ProbeDirectory { shell, start_directory: resolved })
}

/// Opens a window on a start directory only when it exists, is a directory, and is no
/// reparse point.
pub fn finish_launch(shell: RequestedShellV1, start_directory: String, probe: StartDirectoryProbeV1) -> (r: Result<ResolvedPublicActionV1, PublicLaunchResolutionErrorV1>)
    ensures
        match probe {
            StartDirectoryProbeV1::Missing => r == Err::<ResolvedPublicActionV1, _>(PublicLaunchResolutionErrorV1::Missing),
            StartDirectoryProbeV1::Unreadable => r == Err::<ResolvedPublicActionV1, _>(PublicLaunchResolutionErrorV1::Metadata),
            StartDirectoryProbeV1::Found { reparse_point, directory } => if reparse_point {
                r == Err::<ResolvedPublicActionV1, _>(PublicLaunchResolutionErrorV1::ReparsePoint)
            } else if !directory {
                r == Err::<ResolvedPublicActionV1, _>(PublicLaunchResolutionErrorV1::NotDirectory)
            } else {
                r == Ok::<ResolvedPublicActionV1, PublicLaunchResolutionErrorV1>(ResolvedPublicActionV1::OpenWindow(GuiLaunchRequestV1 { shell, start_directory }))
            },
        },
{
    match probe {
        StartDirectoryProbeV1::Missing => Err(PublicLaunchResolutionErrorV1::Missing),
        StartDirectoryProbeV1::Unreadable => Err(PublicLaunchResolutionErrorV1::Metadata),
        StartDirectoryProbeV1::Found { reparse_point, directory } => {
            if reparse_point {
                Err(PublicLaunchResolutionErrorV1::ReparsePoint)
            } else if !directory {
                Err(PublicLaunchResolutionErrorV1::NotDirectory)
            } else {
                Ok(ResolvedPublicActionV1::OpenWindow(GuiLaunchRequestV1 { shell, start_directory }))
            }
        },
    }
}

} // verus!
