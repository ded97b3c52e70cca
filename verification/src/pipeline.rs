//! Outcomes of the stages of a streaming pipeline, and the status they give the pipeline.

use vstd::prelude::*;
use crate::text_stream::RecordFrameV1;

verus! {

#[derive(Clone, Debug, Eq, PartialEq)]
pub struct PipelineFailureV1 {
    pub diagnostic: String,
}

impl PipelineFailureV1 {
    pub fn new(diagnostic: String) -> (r: Self)
        ensures
            r.diagnostic@ == diagnostic@,
    {
        PipelineFailureV1 { diagnostic }
    }
}

#[derive(Clone, Debug, Eq, PartialEq)]
pub enum StageOutcomeV1 {
    Success { exit_code: u8 },
    Result { exit_code: u8 },
    StoppedNormally,
    OperationalFailure { diagnostic: String },
    Cancelled,
}

#[derive(Clone, Debug, Eq, PartialEq)]
pub struct PipelineStatusV1 {
    pub exit_code: u8,
    pub diagnostic: Option<String>,
}

#[derive(Clone, Debug, Eq, PartialEq)]
pub struct PipelineRunV1 {
    pub records: Vec<RecordFrameV1>,
    pub source_outcome: StageOutcomeV1,
    pub final_outcome: StageOutcomeV1,
    pub exit_code: u8,
    pub diagnostic: Option<String>,
}

#[derive(Clone, Copy, Debug, Eq, PartialEq)]
pub enum PipelineRunErrorV1 {
    InvalidChannelCapacity,
    WorkerPanicked,
    ProtocolFailure,
}

pub open spec fn opt_text(o: Option<String>) -> Option<Seq<char>> {
    match o {
        Some(s) => Some(s@),
        None => None,
    }
}

/// The exit code and diagnostic of a pipeline: cancellation (130) over everything, then the
/// source's operational failure (1), then the last stage's (1), then the last stage's code.
pub open spec fn spec_pipeline_status(source: StageOutcomeV1, last: StageOutcomeV1) -> (u8, Option<Seq<char>>) {
    if source is Cancelled || last is Cancelled {
        (130, None)
    } else if source is OperationalFailure {
        (1, Some(source->diagnostic@))
    } else if last is OperationalFailure {
        (1, Some(last->diagnostic@))
    } else {
        match last {
            StageOutcomeV1::Success { exit_code } => (exit_code, None),
            StageOutcomeV1::Result { exit_code } => (exit_code, None),
            _ => (0, None),
        }
    }
}

/// The status of a pipeline from the outcomes of its source and its last stage.
pub fn resolve_pipeline_status(source_outcome: &StageOutcomeV1, final_outcome: &StageOutcomeV1) -> (r: PipelineStatusV1)
    ensures
        (r.exit_code, opt_text(r.diagnostic)) == spec_pipeline_status(*source_outcome, *final_outcome),
{
    if matches!(source_outcome, StageOutcomeV1::Cancelled) || matches!(final_outcome, StageOutcomeV1::Cancelled) {
        return PipelineStatusV1 { exit_code: 130, diagnostic: None };
    }
    if let StageOutcomeV1::OperationalFailure { diagnostic } = source_outcome {
        return PipelineStatusV1 { exit_code: 1, diagnostic: Some(diagnostic.clone()) };
    }
    if let StageOutcomeV1::OperationalFailure { diagnostic } = final_outcome {
        return PipelineStatusV1 { exit_code: 1, diagnostic: Some(diagnostic.clone()) };
    }
    let exit_code = match final_outcome {
        StageOutcomeV1::Success { exit_code } => *exit_code,
        StageOutcomeV1::Result { exit_code } => *exit_code,
        _ => 0,
    };
    PipelineStatusV1 { exit_code, diagnostic: None }
}

/// The run of a pipeline cancelled before it started.
pub fn cancelled_run() -> (r: PipelineRunV1)
    ensures
        r.records@.len() == 0,
        r.source_outcome is Cancelled,
        r.final_outcome is Cancelled,
        r.exit_code == 130,
        r.diagnostic is None,
{
    PipelineRunV1 {
        records: Vec::new(),
        source_outcome: StageOutcomeV1::Cancelled,
        final_outcome: StageOutcomeV1::Cancelled,
        exit_code: 130,
        diagnostic: None,
    }
}

/// The run of a `head` pipeline whose limit is zero: nothing is read.
pub fn empty_head_run() -> (r: PipelineRunV1)
    ensures
        r.records@.len() == 0,
        r.source_outcome is StoppedNormally,
        r.final_outcome == (StageOutcomeV1::Success { exit_code: 0 }),
        r.exit_code == 0,
        r.diagnostic is None,
{
    PipelineRunV1 {
        records: Vec::new(),
        source_outcome: StageOutcomeV1::StoppedNormally,
        final_outcome: StageOutcomeV1::Success { exit_code: 0 },
        exit_code: 0,
        diagnostic: None,
    }
}

/// Whether the source of a `head` pipeline is told to stop after the record that makes
/// `taken` records: exactly when the limit is reached.
pub fn head_should_stop(taken: usize, limit: usize) -> (r: bool)
    ensures
        r == (taken == limit),
{
    taken == limit
}

/// The run of a `head` pipeline once both ends are done: the status resolved from the two
/// outcomes, with the diagnostic the consumer saw when the status carries none.
pub fn finish_head_run(
    records: Vec<RecordFrameV1>,
    source_outcome: StageOutcomeV1,
    final_outcome: StageOutcomeV1,
    diagnostic: Option<String>,
) -> (r: PipelineRunV1)
    ensures
        r.records == records,
        r.source_outcome == source_outcome,
        r.final_outcome == final_outcome,
        r.exit_code == spec_pipeline_status(source_outcome, final_outcome).0,
        opt_text(r.diagnostic) == match spec_pipeline_status(source_outcome, final_outcome).1 {
            Some(d) => Some(d),
            None => opt_text(diagnostic),
        },
{
    let mut status = resolve_pipeline_status(&source_outcome, &final_outcome);
    if status.diagnostic.is_none() {
        status.diagnostic = diagnostic;
    }
    PipelineRunV1 {
        records,
        source_outcome,
        final_outcome,
        exit_code: status.exit_code,
        diagnostic: status.diagnostic,
    }
}


/// Cancellation wins: when either end of a pipeline was cancelled, the pipeline exits with
/// 130 and says nothing, whatever the other end did.
pub proof fn law_cancellation_dominates(source: StageOutcomeV1, last: StageOutcomeV1)
    requires
        source is Cancelled || last is Cancelled,
    ensures
        spec_pipeline_status(source, last) == (130u8, None::<Seq<char>>),
{
}

/// A failing source is reported before the last stage: when the source failed and nothing
/// was cancelled, the pipeline exits with 1 and the source's diagnostic.
pub proof fn law_source_failure_first(source: StageOutcomeV1, last: StageOutcomeV1)
    requires
        source is OperationalFailure,
        !(last is Cancelled),
    ensures
        spec_pipeline_status(source, last) == (1u8, Some(source->diagnostic@)),
{
}

} // verus!
