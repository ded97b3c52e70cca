use wingman_core::grep_pattern::{GrepPatternErrorV1, GrepPatternV1};
use wingman_core::pattern_engine::text_contains;

#[test]
fn text_contains_finds_runs_of_characters() {
    assert!(text_contains("Compiled regex exceeds size limit of 10 bytes.", "regex exceeds"));
    assert!(!text_contains("Compiled regex exceeds size limit of 10 bytes.", "compiled regex exceeds size limit"));
    assert!(text_contains("abc", ""));
    assert!(!text_contains("ab", "abc"));
}

#[test]
fn an_oversized_pattern_is_reported_as_invalid_syntax() {
    let literal = "a".repeat(3_000_000);
    assert_eq!(GrepPatternV1::compile(&literal, true, false).err(), Some(GrepPatternErrorV1::InvalidSyntax));
    assert!(GrepPatternV1::compile("ab", true, false).is_ok());
}
