use std::cell::Cell;
use wingman_core::ordered_pipeline::{
    retain_first_identical_cancellable, stable_sort_cancellable, OrderedPipelineFaultV1,
};

#[test]
fn stable_sort_observes_cancellation_between_bounded_runs() {
    let checks = Cell::new(0usize);
    let result = stable_sort_cancellable(
        (0..5_000).rev().collect::<Vec<_>>(),
        |left, right| left.cmp(right),
        || {
            let next = checks.get() + 1;
            checks.set(next);
            next >= 3
        },
    );

    assert_eq!(result, Err(OrderedPipelineFaultV1::Cancelled));
    assert!(checks.get() >= 3);
}

#[test]
fn identical_retention_observes_cancellation_during_the_scan() {
    let checks = Cell::new(0usize);
    let result = retain_first_identical_cancellable(
        (0..5_000).map(|value| value.to_string()).collect(),
        |value| value.as_str(),
        || {
            let next = checks.get() + 1;
            checks.set(next);
            next >= 3
        },
    );

    assert_eq!(result, Err(OrderedPipelineFaultV1::Cancelled));
    assert!(checks.get() >= 3);
}
