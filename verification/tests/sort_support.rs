use wingman_core::sort_support::{resource_limit_exceeded, MAX_SORT_BYTES};

#[test]
fn exact_byte_limit_is_allowed_and_one_more_byte_is_rejected() {
    assert!(!resource_limit_exceeded(64, MAX_SORT_BYTES, 0));
    assert!(!resource_limit_exceeded(63, MAX_SORT_BYTES - 1, 1));
    assert!(resource_limit_exceeded(64, MAX_SORT_BYTES, 1));
}
