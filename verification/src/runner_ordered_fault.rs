//! What a runner does about a fault of an ordered pipeline.

use vstd::prelude::*;
use crate::ordered_pipeline::OrderedPipelineFaultV1;

verus! {

#[derive(Clone, Copy, Debug, Eq, PartialEq)]
pub enum OrderedFaultResolutionV1 {
    Cancelled,
    Diagnostic(&'static str),
    RedirectOutput,
    Output { kind: std::io::ErrorKind },
    Overflow,
    Unsupported,
}

/// The resolution of a fault: resource and data faults become diagnostics; an output fault
/// keeps its kind, unless the output is redirected, where it is reported as a failure of the
/// redirection.
pub fn resolve_ordered_fault(fault: OrderedPipelineFaultV1, redirected: bool) -> (r: OrderedFaultResolutionV1)
    ensures
        match fault {
            OrderedPipelineFaultV1::TailResource => r matches OrderedFaultResolutionV1::Diagnostic(m)
                && m@ == "wingman tail: buffer resource limit exceeded"@,
            OrderedPipelineFaultV1::SortResource => r matches OrderedFaultResolutionV1::Diagnostic(m)
                && m@ == "wingman sort: materialization resource limit exceeded"@,
            OrderedPipelineFaultV1::InvalidNumeric => r matches OrderedFaultResolutionV1::Diagnostic(m)
                && m@ == "wingman sort: invalid numeric data"@,
            OrderedPipelineFaultV1::Output { kind } => r == if redirected {
                OrderedFaultResolutionV1::RedirectOutput
            } else {
                OrderedFaultResolutionV1::Output { kind }
            },
            OrderedPipelineFaultV1::Overflow => r == OrderedFaultResolutionV1::Overflow,
            OrderedPipelineFaultV1::Unsupported => r == OrderedFaultResolutionV1::Unsupported,
            OrderedPipelineFaultV1::Cancelled => r == OrderedFaultResolutionV1::Cancelled,
        },
{
    match fault {
        OrderedPipelineFaultV1::TailResource => OrderedFaultResolutionV1::Diagnostic("wingman tail: buffer resource limit exceeded"),
        OrderedPipelineFaultV1::SortResource => OrderedFaultResolutionV1::Diagnostic(
            "wingman sort: materialization resource limit exceeded",
        ),
        OrderedPipelineFaultV1::InvalidNumeric => OrderedFaultResolutionV1::Diagnostic("wingman sort: invalid numeric data"),
        OrderedPipelineFaultV1::Output { kind } => if redirected {
            OrderedFaultResolutionV1::RedirectOutput
        } else {
            OrderedFaultResolutionV1::Output { kind }
        },
        OrderedPipelineFaultV1::Overflow => OrderedFaultResolutionV1::Overflow,
        OrderedPipelineFaultV1::Unsupported => OrderedFaultResolutionV1::Unsupported,
        OrderedPipelineFaultV1::Cancelled => OrderedFaultResolutionV1::Cancelled,
    }
}

} // verus!
