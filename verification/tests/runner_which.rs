use wingman_core::runner_which::{executable_candidates, parse_pathext, strip_boundary_quotes};

fn strings(items: &[&str]) -> Vec<String> {
    items.iter().map(|s| s.to_string()).collect()
}

#[test]
fn default_extensions_without_pathext() {
    assert_eq!(parse_pathext(None), strings(&[".COM", ".EXE", ".BAT", ".CMD"]));
}

#[test]
fn pathext_entries_are_trimmed_dotted_checked_and_deduplicated() {
    assert_eq!(
        parse_pathext(Some(" exe ; .Com;.EXE;;a:b;.;.p\u{7}s1")),
        strings(&[".exe", ".Com"])
    );
    assert_eq!(parse_pathext(Some(";;  ;")), strings(&[".COM", ".EXE", ".BAT", ".CMD"]));
    assert_eq!(parse_pathext(Some(".PS1")), strings(&[".PS1"]));
}

#[test]
fn candidates_follow_the_name_extension() {
    let exts = strings(&[".COM", ".EXE"]);
    assert_eq!(executable_candidates("git", &exts), Some(strings(&["git.COM", "git.EXE"])));
    assert_eq!(executable_candidates("git.exe", &exts), Some(strings(&["git.exe"])));
    assert_eq!(executable_candidates("notes.txt", &exts), None);
    assert_eq!(executable_candidates(".bashrc", &exts), Some(strings(&[".bashrc.COM", ".bashrc.EXE"])));
    assert_eq!(executable_candidates("run.", &exts), Some(strings(&["run..COM", "run..EXE"])));
}

#[test]
fn path_entries_lose_surrounding_quotes_only() {
    assert_eq!(strip_boundary_quotes("\"C:\\Tools\""), "C:\\Tools");
    assert_eq!(strip_boundary_quotes("\""), "\"");
    assert_eq!(strip_boundary_quotes("\"\""), "");
    assert_eq!(strip_boundary_quotes("C:\\Tools\""), "C:\\Tools\"");
}
