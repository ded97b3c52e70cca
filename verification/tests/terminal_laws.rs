use wingman_core::lexer::{lex_p0_line, LexTokenV1};
use wingman_core::parser::parse_p0_tokens;
use wingman_core::interpreter::ActiveShell;
use wingman_core::terminal_session::{TerminalInputActionV1, TerminalPrepareErrorV1, TerminalSessionV1};
use wingman_core::transport::{EditorAdapterCapabilityV1, EditorLocationKindV1, EditorReadinessFrameV1};

fn frame(session: &TerminalSessionV1, shell: ActiveShell) -> EditorReadinessFrameV1 {
    EditorReadinessFrameV1 {
        nonce: session.integration_nonce().to_string(),
        sequence: 1,
        shell,
        shell_depth: 0,
        location_kind: EditorLocationKindV1::FileSystem,
        adapter_capability: EditorAdapterCapabilityV1::PsReadLineReplaceV1,
    }
}

#[test]
fn cmd_input_passes_through_unchanged() {
    let mut session = TerminalSessionV1::new(3, ActiveShell::Cmd);
    let readiness = frame(&session, ActiveShell::Cmd);
    assert!(!session.apply_editor_readiness(&readiness));
    assert!(!session.editor_ready());
    let actions = session.handle_terminal_input("ls\r", true);
    assert!(matches!(actions.as_slice(), [TerminalInputActionV1::Forward { data }] if data == "ls\r"));
    assert!(!session.editor_ready());
    assert_eq!(session.prepare_submission("ls", true).unwrap_err(), TerminalPrepareErrorV1::PromptNotValidated);
}

#[test]
fn a_submission_needs_a_validated_prompt_and_a_frame_is_taken_once() {
    let mut session = TerminalSessionV1::new(3, ActiveShell::WindowsPowerShell);
    assert_eq!(session.prepare_submission("pwd", true).unwrap_err(), TerminalPrepareErrorV1::PromptNotValidated);
    let readiness = frame(&session, ActiveShell::WindowsPowerShell);
    assert!(session.apply_editor_readiness(&readiness));
    assert!(!session.apply_editor_readiness(&readiness));
    assert!(session.prepare_submission("pwd", true).is_ok());
    assert_eq!(session.prepare_submission("pwd", true).unwrap_err(), TerminalPrepareErrorV1::PromptNotValidated);
}

#[test]
fn plain_words_lex_to_words_and_pipes_make_stages() {
    let tokens = lex_p0_line("  cat\ta.txt  b ").unwrap();
    assert_eq!(
        tokens,
        vec![LexTokenV1::Word("cat".to_string()), LexTokenV1::Word("a.txt".to_string()), LexTokenV1::Word("b".to_string())]
    );
    let parsed = parse_p0_tokens(&lex_p0_line("cat a | sort | head > out").unwrap()).unwrap();
    assert_eq!(parsed.stages.len(), 3);
    assert!(parsed.redirect.is_some());
}
