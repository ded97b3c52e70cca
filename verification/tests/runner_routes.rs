use wingman_core::interpreter::{
    ActiveShell, ExecutionPlanV1, LineEvidence, StagePlanV1, PreparedRequestKindV1, PreparedRequestV1,
    RunnerRequestValidationErrorV1,
};
use wingman_core::runner::{
    dispatch_prepared, execute_writer_route, route_prepared, RunnerDispatchErrorV1, RunnerRouteV1,
    clear_terminal_to, line_bytes, write_line, writer_route_output, OutputStreamV1, WriterOutputV1,
    CLEAR_TERMINAL_SEQUENCE,
};
use wingman_core::runner_cancel::RunnerCancellationV1;
use wingman_core::submission::{
    FrontendDecisionKindV1, InterpreterSession, PrepareSubmissionErrorV1, PrepareSubmissionV1,
};

fn prepare(session: &mut InterpreterSession, line: &str) -> String {
    let decision = session
        .prepare_submission(PrepareSubmissionV1 {
            session_id: 7,
            command_sequence: 1,
            shell: ActiveShell::WindowsPowerShell,
            familiar_enabled: true,
            evidence: LineEvidence::Reliable,
            raw_line: line.to_string(),
        })
        .expect("prepared");
    match decision.decision {
        FrontendDecisionKindV1::InvokePrepared { request_id, .. } => request_id,
        other => panic!("not prepared: {other:?}"),
    }
}

#[test]
fn pwd_is_routed_once_and_its_id_is_lower_hex() {
    let mut session = InterpreterSession::new(7, 1, ActiveShell::WindowsPowerShell);
    let id = prepare(&mut session, "pwd");
    assert_eq!(id.len(), 32);
    assert!(id.chars().all(|c| c.is_ascii_hexdigit() && !c.is_ascii_uppercase()));
    assert_eq!(
        dispatch_prepared(&mut session, &id),
        Ok(RunnerRouteV1::PrintWorkingDirectory)
    );
    assert_eq!(
        dispatch_prepared(&mut session, &id),
        Err(RunnerDispatchErrorV1::UnknownOrConsumedRequest)
    );
}

#[test]
fn a_second_submission_at_the_same_prompt_is_refused() {
    let mut session = InterpreterSession::new(7, 1, ActiveShell::WindowsPowerShell);
    prepare(&mut session, "pwd");
    let second = session.prepare_submission(PrepareSubmissionV1 {
        session_id: 7,
        command_sequence: 1,
        shell: ActiveShell::WindowsPowerShell,
        familiar_enabled: true,
        evidence: LineEvidence::Reliable,
        raw_line: "clear".to_string(),
    });
    assert_eq!(
        second,
        Err(PrepareSubmissionErrorV1::AlreadyPrepared { command_sequence: 1 })
    );
}

#[test]
fn an_unknown_id_is_refused() {
    let mut session = InterpreterSession::new(7, 1, ActiveShell::WindowsPowerShell);
    assert_eq!(
        dispatch_prepared(&mut session, "00000000000000000000000000000000"),
        Err(RunnerDispatchErrorV1::UnknownOrConsumedRequest)
    );
}

#[test]
fn a_request_of_another_protocol_is_invalid() {
    let request = PreparedRequestV1 {
        protocol: "other.run".to_string(),
        version: 1,
        kind: PreparedRequestKindV1::Control { response: "ok".to_string(), exit_code: 0 },
    };
    assert_eq!(
        route_prepared(request),
        Err(RunnerDispatchErrorV1::InvalidPreparedRequest(
            RunnerRequestValidationErrorV1::InvalidProtocol
        ))
    );
}

#[test]
fn a_control_response_is_a_line_on_standard_output() {
    let request = PreparedRequestV1 {
        protocol: "wingman.run".to_string(),
        version: 1,
        kind: PreparedRequestKindV1::Control { response: "Familiar: ON".to_string(), exit_code: 0 },
    };
    let route = route_prepared(request).expect("valid");
    let mut stdout: Vec<u8> = Vec::new();
    let mut stderr: Vec<u8> = Vec::new();
    let result = execute_writer_route(&route, &mut stdout, &mut stderr, || false);
    assert_eq!(result, Some(Ok(0)));
    assert_eq!(stdout, b"Familiar: ON\r\n");
    assert!(stderr.is_empty());
}

#[test]
fn a_rejection_is_a_line_on_standard_error_with_exit_code_two() {
    let request = PreparedRequestV1 {
        protocol: "wingman.run".to_string(),
        version: 1,
        kind: PreparedRequestKindV1::Reject { diagnostic: "wingman: unsupported".to_string(), exit_code: 2 },
    };
    let route = route_prepared(request).expect("valid");
    let mut stdout: Vec<u8> = Vec::new();
    let mut stderr: Vec<u8> = Vec::new();
    let result = execute_writer_route(&route, &mut stdout, &mut stderr, || false);
    assert_eq!(result, Some(Ok(2)));
    assert_eq!(stderr, b"wingman: unsupported\r\n");
    assert!(stdout.is_empty());
}

#[test]
fn a_rejection_with_another_exit_code_is_invalid() {
    let request = PreparedRequestV1 {
        protocol: "wingman.run".to_string(),
        version: 1,
        kind: PreparedRequestKindV1::Reject { diagnostic: "wingman: unsupported".to_string(), exit_code: 1 },
    };
    assert_eq!(
        route_prepared(request),
        Err(RunnerDispatchErrorV1::InvalidPreparedRequest(
            RunnerRequestValidationErrorV1::InvalidExitCode
        ))
    );
}

#[test]
fn clear_writes_the_clearing_sequence() {
    let request = PreparedRequestV1 {
        protocol: "wingman.run".to_string(),
        version: 1,
        kind: PreparedRequestKindV1::Execute {
            plan: ExecutionPlanV1 { stages: vec![StagePlanV1::ClearTerminal], redirect: None },
        },
    };
    let route = route_prepared(request).expect("routed");
    assert_eq!(route, RunnerRouteV1::ClearTerminal);
    let mut stdout: Vec<u8> = Vec::new();
    let mut stderr: Vec<u8> = Vec::new();
    let result = execute_writer_route(&route, &mut stdout, &mut stderr, || false);
    assert_eq!(result, Some(Ok(0)));
    assert_eq!(stdout, CLEAR_TERMINAL_SEQUENCE.to_vec());
    assert_eq!(stdout, b"\x1b[2J\x1b[H".to_vec());
}

#[test]
fn a_cancelled_clear_reports_130() {
    let cancellation = RunnerCancellationV1::new();
    cancellation.cancel();
    let mut stdout: Vec<u8> = Vec::new();
    let mut stderr: Vec<u8> = Vec::new();
    let result = execute_writer_route(&RunnerRouteV1::ClearTerminal, &mut stdout, &mut stderr, || cancellation.is_cancelled());
    assert_eq!(result, Some(Ok(130)));
    assert!(stdout.is_empty());
}

#[test]
fn executor_routes_are_not_writer_routes() {
    let mut stdout: Vec<u8> = Vec::new();
    let mut stderr: Vec<u8> = Vec::new();
    let result = execute_writer_route(
        &RunnerRouteV1::PrintWorkingDirectory,
        &mut stdout,
        &mut stderr,
        || false,
    );
    assert_eq!(result, None);
}

#[test]
fn a_line_is_its_text_and_cr_lf() {
    assert_eq!(line_bytes("wingman cat: missing file operand"), b"wingman cat: missing file operand\r\n".to_vec());
    assert_eq!(line_bytes("\u{e9}"), vec![0xc3, 0xa9, 13, 10]);
}

#[test]
fn writer_outputs_name_the_stream_the_bytes_and_the_code() {
    let reject = RunnerRouteV1::Reject { diagnostic: "wingman cat: missing file operand".to_string(), exit_code: 2 };
    assert_eq!(
        writer_route_output(&reject),
        Some(WriterOutputV1 {
            stream: OutputStreamV1::Stderr,
            bytes: b"wingman cat: missing file operand\r\n".to_vec(),
            exit_code: 2,
        })
    );
    let control = RunnerRouteV1::Control { response: "Familiar: ON".to_string(), exit_code: 0 };
    assert_eq!(
        writer_route_output(&control),
        Some(WriterOutputV1 { stream: OutputStreamV1::Stdout, bytes: b"Familiar: ON\r\n".to_vec(), exit_code: 0 })
    );
    assert_eq!(
        writer_route_output(&RunnerRouteV1::ClearTerminal),
        Some(WriterOutputV1 { stream: OutputStreamV1::Stdout, bytes: b"\x1b[2J\x1b[H".to_vec(), exit_code: 0 })
    );
    assert_eq!(writer_route_output(&RunnerRouteV1::PrintWorkingDirectory), None);
}

#[test]
fn a_clear_cancelled_after_its_write_reports_130() {
    let polls = std::cell::Cell::new(0);
    let mut stdout: Vec<u8> = Vec::new();
    let result = clear_terminal_to(&mut stdout, || {
        polls.set(polls.get() + 1);
        polls.get() > 1
    });
    assert_eq!(result, Ok(130));
    assert_eq!(stdout, b"\x1b[2J\x1b[H".to_vec());
    assert_eq!(polls.get(), 2);
}

#[test]
fn a_written_line_ends_with_cr_lf() {
    let mut out: Vec<u8> = Vec::new();
    assert_eq!(write_line(&mut out, "Familiar: ON"), Ok(()));
    assert_eq!(out, b"Familiar: ON\r\n".to_vec());
}

#[test]
fn rm_is_claimed_in_any_case_after_blanks() {
    let mut session = InterpreterSession::new(7, 1, ActiveShell::WindowsPowerShell);
    let id = prepare(&mut session, "  RM x");
    assert!(matches!(dispatch_prepared(&mut session, &id), Ok(RunnerRouteV1::Reject { exit_code: 2, .. })));
    let mut other = InterpreterSession::new(7, 1, ActiveShell::WindowsPowerShell);
    let decision = other
        .prepare_submission(PrepareSubmissionV1 {
            session_id: 7,
            command_sequence: 1,
            shell: ActiveShell::WindowsPowerShell,
            familiar_enabled: true,
            evidence: LineEvidence::Reliable,
            raw_line: "dir x".to_string(),
        })
        .expect("decided");
    assert!(matches!(decision.decision, FrontendDecisionKindV1::PassThrough { .. }));
}
