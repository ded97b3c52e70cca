use wingman_core::interpreter::{ActiveShell, FamiliarControlEffectV1};
use wingman_core::session_runtime::{
    apply_familiar_effect, dispatch_terminal_input, write_session_input, SessionWriteOutcomeV1,
    session_write, SessionWriteV1,
};
use wingman_core::terminal_session::TerminalSessionV1;

#[test]
fn input_before_a_validated_prompt_goes_to_the_shell_as_typed() {
    let mut session = TerminalSessionV1::new(1, ActiveShell::WindowsPowerShell);
    let dispatch = dispatch_terminal_input(
        &mut session,
        ActiveShell::WindowsPowerShell,
        |_id, _request| Ok(()),
        "dir\r",
        true,
    )
    .unwrap();
    assert_eq!(dispatch.native_writes.concat(), "dir\r");
    assert!(dispatch.prepared.is_none());
}

#[test]
fn input_for_another_session_is_stale() {
    let mut sink: Vec<u8> = Vec::new();
    assert!(matches!(
        write_session_input(2, 1, &mut sink, "ls"),
        Ok(SessionWriteOutcomeV1::Stale)
    ));
    assert!(sink.is_empty());
    assert!(matches!(
        write_session_input(2, 2, &mut sink, "ls"),
        Ok(SessionWriteOutcomeV1::Written)
    ));
    assert_eq!(sink, b"ls");
}

#[test]
fn a_familiar_setting_is_taken_only_once_persisted() {
    let mut enabled = false;
    assert_eq!(apply_familiar_effect(FamiliarControlEffectV1::SetTo(true), &mut enabled, |_| Ok(())).unwrap(), true);
    assert!(enabled);
    let failed = apply_familiar_effect(FamiliarControlEffectV1::SetTo(false), &mut enabled, |_| {
        Err(std::io::Error::other("disk full"))
    });
    assert!(failed.is_err());
    assert!(enabled);
    assert_eq!(apply_familiar_effect(FamiliarControlEffectV1::Status, &mut enabled, |_| Ok(())).unwrap(), true);
}

#[test]
fn pipe_access_names_the_system_and_the_logon_session() {
    assert_eq!(
        wingman_core::transport::pipe_dacl("S-1-5-5-0-12345"),
        "D:P(A;;GA;;;SY)(A;;GA;;;S-1-5-5-0-12345)"
    );
}

#[test]
fn session_input_is_written_as_its_utf8_bytes() {
    assert_eq!(session_write(2, 1, "ls"), SessionWriteV1::Stale);
    assert_eq!(session_write(3, 3, "d\u{e9}"), SessionWriteV1::Write { bytes: vec![b'd', 0xc3, 0xa9] });
}

#[test]
fn persist_sees_the_setting_and_not_a_status_query() {
    let seen = std::cell::RefCell::new(Vec::new());
    let mut enabled = false;
    let persist = |b: bool| {
        seen.borrow_mut().push(b);
        Ok(())
    };
    assert_eq!(apply_familiar_effect(FamiliarControlEffectV1::Status, &mut enabled, persist).unwrap(), false);
    assert!(seen.borrow().is_empty());
    assert_eq!(apply_familiar_effect(FamiliarControlEffectV1::SetTo(true), &mut enabled, persist).unwrap(), true);
    assert_eq!(*seen.borrow(), vec![true]);
}
