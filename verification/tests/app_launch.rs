use wingman_core::app_launch::{
    finish_launch, parse_public_args, resolve_launch_paths, GuiLaunchRequestV1, LaunchArgumentV1,
    LaunchResolutionV1, PublicLaunchActionV1, PublicLaunchResolutionErrorV1, PublicLaunchSyntaxErrorV1,
    RequestedShellV1, ResolvedPublicActionV1, StartDirectoryProbeV1,
};

fn args(items: &[&str]) -> Vec<LaunchArgumentV1> {
    items.iter().map(|s| LaunchArgumentV1::Text(s.to_string())).collect()
}

fn text(s: &str) -> LaunchArgumentV1 {
    LaunchArgumentV1::Text(s.to_string())
}

#[test]
fn no_arguments_open_a_default_window() {
    assert_eq!(
        parse_public_args(Vec::new()),
        Ok(PublicLaunchActionV1::OpenWindow { shell: None, start_path: None })
    );
}

#[test]
fn help_and_version_stand_alone() {
    assert_eq!(parse_public_args(args(&["--help"])), Ok(PublicLaunchActionV1::Help));
    assert_eq!(parse_public_args(args(&["--version"])), Ok(PublicLaunchActionV1::Version));
    assert_eq!(
        parse_public_args(args(&["--help", "x"])),
        Err(PublicLaunchSyntaxErrorV1::TooManyOperands)
    );
    assert_eq!(
        parse_public_args(args(&["--version", "x"])),
        Err(PublicLaunchSyntaxErrorV1::TooManyOperands)
    );
}

#[test]
fn shell_option_picks_the_shell() {
    assert_eq!(
        parse_public_args(args(&["--shell", "cmd", "C:\\work"])),
        Ok(PublicLaunchActionV1::OpenWindow {
            shell: Some(RequestedShellV1::Cmd),
            start_path: Some(text("C:\\work")),
        })
    );
    assert_eq!(
        parse_public_args(args(&["--shell", "powershell"])),
        Ok(PublicLaunchActionV1::OpenWindow { shell: Some(RequestedShellV1::WindowsPowerShell), start_path: None })
    );
    assert_eq!(parse_public_args(args(&["--shell"])), Err(PublicLaunchSyntaxErrorV1::MissingShell));
    assert_eq!(
        parse_public_args(args(&["--shell", "bash"])),
        Err(PublicLaunchSyntaxErrorV1::UnsupportedShell(text("bash")))
    );
}

#[test]
fn options_end_at_double_dash() {
    assert_eq!(
        parse_public_args(args(&["--", "-dir"])),
        Ok(PublicLaunchActionV1::OpenWindow { shell: None, start_path: Some(text("-dir")) })
    );
    assert_eq!(
        parse_public_args(args(&["-x"])),
        Err(PublicLaunchSyntaxErrorV1::UnsupportedOption(text("-x")))
    );
    assert_eq!(
        parse_public_args(args(&["a", "b"])),
        Err(PublicLaunchSyntaxErrorV1::TooManyOperands)
    );
    assert_eq!(
        parse_public_args(vec![LaunchArgumentV1::NotUnicode]),
        Ok(PublicLaunchActionV1::OpenWindow { shell: None, start_path: Some(LaunchArgumentV1::NotUnicode) })
    );
}

#[test]
fn help_needs_no_paths() {
    assert_eq!(
        resolve_launch_paths(PublicLaunchActionV1::Help, &LaunchArgumentV1::NotUnicode),
        Ok(LaunchResolutionV1::Resolved(ResolvedPublicActionV1::Help))
    );
}

#[test]
fn window_starts_in_current_directory_by_default() {
    let action = PublicLaunchActionV1::OpenWindow { shell: None, start_path: None };
    assert_eq!(
        resolve_launch_paths(action, &text("C:\\Users\\me")),
        Ok(LaunchResolutionV1::ProbeDirectory {
            shell: RequestedShellV1::WindowsPowerShell,
            start_directory: "C:\\Users\\me".to_string(),
        })
    );
}

#[test]
fn relative_start_path_resolves_against_current_directory() {
    let action = PublicLaunchActionV1::OpenWindow { shell: Some(RequestedShellV1::Cmd), start_path: Some(text("proj")) };
    assert_eq!(
        resolve_launch_paths(action, &text("C:\\Users\\me")),
        Ok(LaunchResolutionV1::ProbeDirectory { shell: RequestedShellV1::Cmd, start_directory: "C:\\Users\\me\\proj".to_string() })
    );
}

#[test]
fn unusable_paths_are_refused() {
    let action = PublicLaunchActionV1::OpenWindow { shell: None, start_path: None };
    assert_eq!(
        resolve_launch_paths(action.clone(), &LaunchArgumentV1::NotUnicode),
        Err(PublicLaunchResolutionErrorV1::CurrentDirectoryNotUnicode)
    );
    assert!(matches!(
        resolve_launch_paths(action, &text("")),
        Err(PublicLaunchResolutionErrorV1::InvalidCurrentDirectory(_))
    ));
    let not_unicode = PublicLaunchActionV1::OpenWindow { shell: None, start_path: Some(LaunchArgumentV1::NotUnicode) };
    assert_eq!(
        resolve_launch_paths(not_unicode, &text("C:\\")),
        Err(PublicLaunchResolutionErrorV1::StartPathNotUnicode)
    );
}

#[test]
fn window_opens_only_on_a_plain_directory() {
    assert_eq!(
        finish_launch(RequestedShellV1::Cmd, "C:\\a".to_string(), StartDirectoryProbeV1::Missing),
        Err(PublicLaunchResolutionErrorV1::Missing)
    );
    assert_eq!(
        finish_launch(RequestedShellV1::Cmd, "C:\\a".to_string(), StartDirectoryProbeV1::Unreadable),
        Err(PublicLaunchResolutionErrorV1::Metadata)
    );
    assert_eq!(
        finish_launch(
            RequestedShellV1::Cmd,
            "C:\\a".to_string(),
            StartDirectoryProbeV1::Found { reparse_point: true, directory: true }
        ),
        Err(PublicLaunchResolutionErrorV1::ReparsePoint)
    );
    assert_eq!(
        finish_launch(
            RequestedShellV1::Cmd,
            "C:\\a".to_string(),
            StartDirectoryProbeV1::Found { reparse_point: false, directory: false }
        ),
        Err(PublicLaunchResolutionErrorV1::NotDirectory)
    );
    assert_eq!(
        finish_launch(
            RequestedShellV1::Cmd,
            "C:\\a".to_string(),
            StartDirectoryProbeV1::Found { reparse_point: false, directory: true }
        ),
        Ok(ResolvedPublicActionV1::OpenWindow(GuiLaunchRequestV1 {
            shell: RequestedShellV1::Cmd,
            start_directory: "C:\\a".to_string(),
        }))
    );
}
