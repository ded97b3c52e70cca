use std::io;
use wingman_core::ordered_pipeline::OrderedPipelineFaultV1;
use wingman_core::runner_ordered_fault::{resolve_ordered_fault, OrderedFaultResolutionV1};

#[test]
fn classifies_every_non_output_fault() {
    assert_eq!(
        resolve_ordered_fault(OrderedPipelineFaultV1::TailResource, false),
        OrderedFaultResolutionV1::Diagnostic("wingman tail: buffer resource limit exceeded")
    );
    assert_eq!(
        resolve_ordered_fault(OrderedPipelineFaultV1::SortResource, false),
        OrderedFaultResolutionV1::Diagnostic("wingman sort: materialization resource limit exceeded")
    );
    assert_eq!(
        resolve_ordered_fault(OrderedPipelineFaultV1::InvalidNumeric, false),
        OrderedFaultResolutionV1::Diagnostic("wingman sort: invalid numeric data")
    );
    assert_eq!(
        resolve_ordered_fault(OrderedPipelineFaultV1::Overflow, false),
        OrderedFaultResolutionV1::Overflow
    );
    assert_eq!(
        resolve_ordered_fault(OrderedPipelineFaultV1::Unsupported, false),
        OrderedFaultResolutionV1::Unsupported
    );
    assert_eq!(
        resolve_ordered_fault(OrderedPipelineFaultV1::Cancelled, false),
        OrderedFaultResolutionV1::Cancelled
    );
}

#[test]
fn preserves_output_kind_without_redirection() {
    assert_eq!(
        resolve_ordered_fault(OrderedPipelineFaultV1::Output { kind: io::ErrorKind::BrokenPipe }, false),
        OrderedFaultResolutionV1::Output { kind: io::ErrorKind::BrokenPipe }
    );
}

#[test]
fn hides_output_kind_behind_redirect_failure_boundary() {
    assert_eq!(
        resolve_ordered_fault(OrderedPipelineFaultV1::Output { kind: io::ErrorKind::PermissionDenied }, true),
        OrderedFaultResolutionV1::RedirectOutput
    );
}
