use wingman_core::bridge::{
    lossy_step, LossyStepV1,
    is_newer_session_generation, performance_input_echo_probe_enabled, valid_scrollback_measurement,
    validate_bridge_data, validate_terminal_dimensions, Utf8StreamDecoder, MAX_CLIENT_SESSION_ID,
    MAX_NATIVE_PASTE_BYTES, MAX_PTY_COLS, MAX_PTY_ROWS, MAX_TERMINAL_INPUT_BYTES,
};

#[test]
fn performance_input_probe_requires_exact_opt_in() {
    assert!(performance_input_echo_probe_enabled(Some("1")));
    assert!(!performance_input_echo_probe_enabled(None));
    assert!(!performance_input_echo_probe_enabled(Some("0")));
    assert!(!performance_input_echo_probe_enabled(Some("true")));
}

#[test]
fn scrollback_measurement_requires_a_full_exact_ceiling() {
    assert!(valid_scrollback_measurement(4_000, 27, 4_027));
    assert!(!valid_scrollback_measurement(1_000, 27, 1_027));
    assert!(!valid_scrollback_measurement(4_000, 27, 4_026));
    assert!(!valid_scrollback_measurement(4_000, 0, 4_000));
}

#[test]
fn utf8_decoder_preserves_multibyte_characters_across_reads() {
    let text = "Wingman 한글 🚀";
    let bytes = text.as_bytes();
    let mut decoder = Utf8StreamDecoder::new();
    let mut output = String::new();

    for byte in bytes {
        output.push_str(&decoder.push(std::slice::from_ref(byte)));
    }
    output.push_str(&decoder.finish());

    assert_eq!(output, text);
}

#[test]
fn utf8_decoder_replaces_invalid_sequences_without_losing_valid_text() {
    let mut decoder = Utf8StreamDecoder::new();
    assert_eq!(decoder.push(b"ok\xffdone"), "ok\u{fffd}done");
    assert_eq!(decoder.finish(), "");
}

#[test]
fn ipc_terminal_dimensions_are_bounded() {
    assert!(validate_terminal_dimensions(1, 1).is_ok());
    assert!(validate_terminal_dimensions(MAX_PTY_COLS, MAX_PTY_ROWS).is_ok());
    assert!(validate_terminal_dimensions(0, 24).is_err());
    assert!(validate_terminal_dimensions(80, 0).is_err());
    assert!(validate_terminal_dimensions(MAX_PTY_COLS + 1, 24).is_err());
    assert!(validate_terminal_dimensions(80, MAX_PTY_ROWS + 1).is_err());
}

#[test]
fn ipc_session_generations_are_positive_monotonic_js_safe_integers() {
    assert!(is_newer_session_generation(0, 1));
    assert!(is_newer_session_generation(41, 42));
    assert!(is_newer_session_generation(MAX_CLIENT_SESSION_ID - 1, MAX_CLIENT_SESSION_ID));
    assert!(!is_newer_session_generation(0, 0));
    assert!(!is_newer_session_generation(42, 42));
    assert!(!is_newer_session_generation(42, 41));
    assert!(!is_newer_session_generation(MAX_CLIENT_SESSION_ID, MAX_CLIENT_SESSION_ID + 1));
}

#[test]
fn ipc_terminal_and_paste_payloads_have_separate_byte_limits() {
    let terminal_limit = "x".repeat(MAX_TERMINAL_INPUT_BYTES);
    assert!(validate_bridge_data(&terminal_limit, MAX_TERMINAL_INPUT_BYTES, "input").is_ok());
    assert!(validate_bridge_data(&(terminal_limit + "x"), MAX_TERMINAL_INPUT_BYTES, "input").is_err());

    let paste_limit = "한".repeat(MAX_NATIVE_PASTE_BYTES / "한".len());
    assert!(validate_bridge_data(&paste_limit, MAX_NATIVE_PASTE_BYTES, "paste").is_ok());
    assert!(validate_bridge_data(&(paste_limit + "한"), MAX_NATIVE_PASTE_BYTES, "paste").is_err());
}

#[test]
fn a_lossy_step_decodes_the_valid_prefix_and_replaces_an_invalid_sequence() {
    match lossy_step(&[0x61, 0xff, 0x62], Err((1, Some(1)))) {
        LossyStepV1::Decoded { text, used } => {
            assert_eq!(text, "a\u{fffd}");
            assert_eq!(used, 2);
        }
        LossyStepV1::Incomplete { .. } => panic!("the invalid byte is used up"),
    }
    match lossy_step(&[0x61, 0xe2, 0x82], Err((1, None))) {
        LossyStepV1::Incomplete { text, used } => {
            assert_eq!(text, "a");
            assert_eq!(used, 1);
        }
        LossyStepV1::Decoded { .. } => panic!("the split sequence waits"),
    }
    match lossy_step(b"ok", Ok("ok".to_string())) {
        LossyStepV1::Decoded { text, used } => {
            assert_eq!(text, "ok");
            assert_eq!(used, 2);
        }
        LossyStepV1::Incomplete { .. } => panic!("valid text is whole"),
    }
}
