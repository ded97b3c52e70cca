use wingman_core::handoff::{bounded_diagnostic, valid_nonce};

#[test]
fn diagnostics_and_nonces_are_bounded() {
    assert_eq!(bounded_diagnostic(&"x".repeat(600)).len(), 512);
    assert!(valid_nonce("0123456789abcdef0123456789abcdef"));
    assert!(!valid_nonce("0123456789abcdef"));
    assert!(!valid_nonce("zzzzzzzzzzzzzzzzzzzzzzzzzzzzzzzz"));
}

use wingman_core::app_launch::{GuiLaunchRequestV1, LaunchArgumentV1, RequestedShellV1};
use wingman_core::handoff::{
    accept_internal_gui, check_handoff_ack, check_handoff_request, failed_response, frame_header, frame_length,
    is_internal_gui_invocation, launcher_outcome, HandoffAckV1, HandoffErrorV1, HandoffRequestV1, HandoffResponseV1,
    HandoffStatusV1, LauncherOutcomeV1,
};

const MARKER: &str = "--wingman-internal-gui";
const NONCE: &str = "0123456789abcdef0123456789abcdef";

fn arg(s: &str) -> LaunchArgumentV1 {
    LaunchArgumentV1::Text(s.to_string())
}

#[test]
fn internal_marker_requires_exactly_one_decimal_handle() {
    assert!(!is_internal_gui_invocation(&[]));
    assert!(is_internal_gui_invocation(&[arg(MARKER), arg("42")]));
    assert!(matches!(
        accept_internal_gui(&[arg(MARKER), arg("0")]),
        Err(HandoffErrorV1::InvalidInternalInvocation)
    ));
    assert!(matches!(
        accept_internal_gui(&[arg(MARKER), arg("not-a-handle")]),
        Err(HandoffErrorV1::InvalidInternalInvocation)
    ));
}

#[test]
fn internal_handle_is_the_decimal_operand() {
    assert_eq!(accept_internal_gui(&[arg(MARKER), arg("42")]), Ok(42));
    assert_eq!(
        accept_internal_gui(&[arg(MARKER), arg("42"), arg("7")]),
        Err(HandoffErrorV1::InvalidInternalInvocation)
    );
    assert_eq!(
        accept_internal_gui(&[arg(MARKER), LaunchArgumentV1::NotUnicode]),
        Err(HandoffErrorV1::InvalidInternalInvocation)
    );
    assert_eq!(
        accept_internal_gui(&[arg(MARKER), arg(&usize::MAX.to_string())]),
        Err(HandoffErrorV1::InvalidInternalInvocation)
    );
}

fn request(version: u8, nonce: &str, parent: u32) -> HandoffRequestV1 {
    HandoffRequestV1 {
        version,
        nonce: nonce.to_string(),
        parent_process_id: parent,
        launch: GuiLaunchRequestV1 { shell: RequestedShellV1::Cmd, start_directory: "C:\\".to_string() },
    }
}

#[test]
fn request_must_come_from_the_pipe_server() {
    assert_eq!(check_handoff_request(&request(1, NONCE, 7), 7), Ok(()));
    assert_eq!(check_handoff_request(&request(1, NONCE, 7), 8), Err(HandoffErrorV1::InvalidMessage));
    assert_eq!(check_handoff_request(&request(2, NONCE, 7), 7), Err(HandoffErrorV1::InvalidMessage));
    assert_eq!(check_handoff_request(&request(1, "short", 7), 7), Err(HandoffErrorV1::InvalidMessage));
}

fn response(status: HandoffStatusV1, diagnostic: Option<&str>) -> HandoffResponseV1 {
    HandoffResponseV1 { version: 1, nonce: NONCE.to_string(), status, diagnostic: diagnostic.map(|d| d.to_string()) }
}

#[test]
fn launcher_reads_the_window_answer() {
    assert_eq!(launcher_outcome(response(HandoffStatusV1::Ready, None), NONCE), Ok(LauncherOutcomeV1::Ready));
    assert_eq!(
        launcher_outcome(response(HandoffStatusV1::Ready, Some("x")), NONCE),
        Err(HandoffErrorV1::InvalidMessage)
    );
    assert_eq!(
        launcher_outcome(response(HandoffStatusV1::Failed, None), NONCE),
        Ok(LauncherOutcomeV1::Failed("GUI initialization failed".to_string()))
    );
    assert_eq!(
        launcher_outcome(response(HandoffStatusV1::Failed, Some("no webview")), NONCE),
        Ok(LauncherOutcomeV1::Failed("no webview".to_string()))
    );
    assert_eq!(
        launcher_outcome(response(HandoffStatusV1::Ready, None), "ffffffffffffffffffffffffffffffff"),
        Err(HandoffErrorV1::InvalidMessage)
    );
    let ack = HandoffAckV1 { version: 1, nonce: NONCE.to_string(), acknowledged: true };
    assert_eq!(check_handoff_ack(&ack, NONCE), Ok(()));
    let refused = HandoffAckV1 { acknowledged: false, ..ack };
    assert_eq!(check_handoff_ack(&refused, NONCE), Err(HandoffErrorV1::InvalidMessage));
    let failed = failed_response(NONCE, &"y".repeat(600));
    assert_eq!(failed.diagnostic.map(|d| d.len()), Some(512));
}

#[test]
fn frame_prefix_is_little_endian_and_bounded() {
    assert_eq!(frame_header(0x1234), Ok([0x34, 0x12, 0, 0]));
    assert_eq!(frame_length([0x34, 0x12, 0, 0]), Ok(0x1234));
    assert_eq!(frame_header(0), Err(HandoffErrorV1::InvalidMessage));
    assert_eq!(frame_header(16 * 1024 + 1), Err(HandoffErrorV1::InvalidMessage));
    assert_eq!(frame_length([0, 0, 0, 0]), Err(HandoffErrorV1::InvalidMessage));
    assert_eq!(frame_length([1, 0x40, 0, 0]), Err(HandoffErrorV1::InvalidMessage));
    assert_eq!(frame_length([0, 0x40, 0, 0]), Ok(16 * 1024));
}
