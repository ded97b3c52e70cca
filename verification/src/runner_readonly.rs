//! Read-only plans over text: which files a plan reads and how, the diagnostics it writes
//! about its operands, and the streaming of records from its inputs through an ordered
//! pipeline.

use vstd::prelude::*;
use crate::interpreter::{
    ExecutionPlanV1, SpecPlan, SpecStage, StagePlanV1, MAX_PREPARED_DIAGNOSTIC_BYTES,
};
use crate::text::{byte_len, clone_strings_from, concat, decimal_text, strings_view, u64_text};
use crate::windows_path::{PathResolutionErrorV1, SpecPath, ValidatedPathSpecV1};
use crate::ordered_pipeline::{
    spec_route_step, step_matches, OrderedFinishCauseV1, OrderedFlowV1, OrderedPipelineFaultV1,
    OrderedPipelineV1, SpecPipeline, pipeline_wf,
};
use crate::ordered_stage::{text_bytes, SpecRecord};
use crate::runner_cancel::RunnerCancellationV1;
use crate::text_stream::{RecordFrameV1, SpecFrame, TextReadErrorV1, MAX_RECORD_BYTES};
use crate::text::{chars_of, push_char};

verus! {

#[derive(Clone, Copy, Debug, Eq, PartialEq)]
pub enum ReadonlyExecutionErrorV1 {
    UnsupportedPlan,
    Output { kind: std::io::ErrorKind },
}

/// Where a read-only plan takes its records from: the command that reads them, the files,
/// and how the records are treated.
pub struct ReadonlySourceV1 {
    pub command_name: String,
    pub paths: Vec<ValidatedPathSpecV1>,
    pub number_lines: bool,
    pub grep_is_final: bool,
    pub grep_direct: bool,
    pub follow_count: Option<usize>,
}

pub struct SpecSource {
    pub command_name: Seq<char>,
    pub paths: Seq<SpecPath>,
    pub number_lines: bool,
    pub grep_is_final: bool,
    pub grep_direct: bool,
    pub follow_count: Option<usize>,
}

impl View for ReadonlySourceV1 {
    type V = SpecSource;

    open spec fn view(&self) -> SpecSource {
        SpecSource {
            command_name: self.command_name@,
            paths: crate::interpreter::paths_view(self.paths@),
            number_lines: self.number_lines,
            grep_is_final: self.grep_is_final,
            grep_direct: self.grep_direct,
            follow_count: self.follow_count,
        }
    }
}

/// Whether a stage after the first reads what comes before it.
pub open spec fn reads_upstream(stage: SpecStage) -> bool {
    match stage {
        SpecStage::SearchText { paths, recursive, .. } => paths.len() == 0 && !recursive,
        SpecStage::HeadLines { path, .. } => path is None,
        SpecStage::TailLines { path, .. } => path is None,
        SpecStage::CountLines { path } => path is None,
        SpecStage::SortLines { path, .. } => path is None,
        SpecStage::UniqueLines { path, .. } => path is None,
        _ => false,
    }
}

/// The command that reads a plan's files, the files, whether lines are numbered, and how
/// many lines a follow starts with; `None` when the first stage reads no file.
pub open spec fn first_source(stage: SpecStage) -> Option<(Seq<char>, Seq<SpecPath>, bool, Option<usize>)> {
    match stage {
        SpecStage::ReadTextFiles { paths, number_lines } => Some(("cat"@, paths, number_lines, None)),
        SpecStage::HeadLines { path: Some(p), .. } => Some(("head"@, seq![p], false, None)),
        SpecStage::TailLines { path: Some(p), .. } => Some(("tail"@, seq![p], false, None)),
        SpecStage::FollowFile { count, path } => Some(("tail"@, seq![path], false, Some(count))),
        SpecStage::CountLines { path: Some(p) } => Some(("wc"@, seq![p], false, None)),
        SpecStage::SearchText { paths, recursive, .. } => if !recursive && paths.len() > 0 {
            Some(("grep"@, paths, false, None))
        } else {
            None
        },
        SpecStage::UniqueLines { path: Some(p), .. } => Some(("uniq"@, seq![p], false, None)),
        SpecStage::SortLines { path: Some(p), .. } => Some(("sort"@, seq![p], false, None)),
        _ => None,
    }
}

/// Where a read-only plan takes its records from: its first stage reads files and every
/// later stage reads what comes before it.
pub open spec fn spec_readonly_source(plan: SpecPlan) -> Option<SpecSource> {
    if plan.stages.len() == 0 {
        None
    } else {
        match first_source(plan.stages[0]) {
            None => None,
            Some((command_name, paths, number_lines, follow_count)) => if forall|i: int| 1 <= i < plan.stages.len() ==> reads_upstream(#[trigger] plan.stages[i]) {
                Some(SpecSource {
                    command_name,
                    paths,
                    number_lines,
                    grep_is_final: plan.stages.last() is SearchText,
                    grep_direct: plan.stages[0] is SearchText,
                    follow_count,
                })
            } else {
                None
            },
        }
    }
}

/// A copy of a validated path.
pub fn copy_path(path: &ValidatedPathSpecV1) -> (r: ValidatedPathSpecV1)
    ensures
        r@ == path@,
{
    let components = clone_strings_from(path.components.as_slice(), 0);
    proof {
        assert(path.components@.subrange(0, path.components@.len() as int) =~= path.components@);
    }
    ValidatedPathSpecV1 { original: path.original.clone(), kind: path.kind, components }
}

/// Copies of validated paths.
pub fn copy_paths(paths: &Vec<ValidatedPathSpecV1>) -> (r: Vec<ValidatedPathSpecV1>)
    ensures
        crate::interpreter::paths_view(r@) == crate::interpreter::paths_view(paths@),
{
    let mut out: Vec<ValidatedPathSpecV1> = Vec::new();
    let mut i: usize = 0;
    while i < paths.len()
        invariant
            i <= paths@.len(),
            crate::interpreter::paths_view(out@) == crate::interpreter::paths_view(paths@.subrange(0, i as int)),
        decreases paths.len() - i,
    {
        let p = copy_path(&paths[i]);
        let ghost before = out@;
        let ghost pv = p@;
        out.push(p);
        proof {
            assert(crate::interpreter::paths_view(out@) =~= crate::interpreter::paths_view(before).push(pv));
            assert(crate::interpreter::paths_view(paths@.subrange(0, i + 1)) =~= crate::interpreter::paths_view(paths@.subrange(0, i as int)).push(paths@[i as int]@));
        }
        i += 1;
    }
    proof {
        assert(paths@.subrange(0, i as int) =~= paths@);
    }
    out
}

/// A plan's path list of one path.
fn single_path(path: &ValidatedPathSpecV1) -> (r: Vec<ValidatedPathSpecV1>)
    ensures
        crate::interpreter::paths_view(r@) == seq![path@],
{
    let mut out: Vec<ValidatedPathSpecV1> = Vec::new();
    out.push(copy_path(path));
    proof {
        assert(crate::interpreter::paths_view(out@) =~= seq![path@]);
    }
    out
}

/// Where a read-only plan takes its records from; a plan whose first stage reads no file, or
/// whose later stages do not all read what comes before them, is unsupported.
pub fn readonly_source(plan: &ExecutionPlanV1) -> (r: Result<ReadonlySourceV1, ReadonlyExecutionErrorV1>)
    ensures
        match spec_readonly_source(plan@) {
            None => r == Err::<ReadonlySourceV1, _>(ReadonlyExecutionErrorV1::UnsupportedPlan),
            Some(s) => r matches Ok(x) && x@ == s,
        },
{
    if plan.stages.len() == 0 {
        return Err(ReadonlyExecutionErrorV1::UnsupportedPlan);
    }
    let first = &plan.stages[0];
    proof {
        assert(plan@.stages[0] == first@);
        reveal_strlit("cat");
        reveal_strlit("head");
        reveal_strlit("tail");
        reveal_strlit("wc");
        reveal_strlit("grep");
        reveal_strlit("uniq");
        reveal_strlit("sort");
    }
    let (command_name, paths, number_lines, follow_count): (&str, Vec<ValidatedPathSpecV1>, bool, Option<usize>) = match first {
        StagePlanV1::ReadTextFiles { paths, number_lines } => ("cat", copy_paths(paths), *number_lines, None),
        StagePlanV1::HeadLines { path: Some(path), .. } => ("head", single_path(path), false, None),
        StagePlanV1::TailLines { path: Some(path), .. } => ("tail", single_path(path), false, None),
        StagePlanV1::FollowFile { count, path } => ("tail", single_path(path), false, Some(*count)),
        StagePlanV1::CountLines { path: Some(path) } => ("wc", single_path(path), false, None),
        StagePlanV1::SearchText { paths, recursive, .. } => {
            if *recursive || paths.len() == 0 {
                return Err(ReadonlyExecutionErrorV1::UnsupportedPlan);
            }
            ("grep", copy_paths(paths), false, None)
        },
        StagePlanV1::UniqueLines { path: Some(path), .. } => ("uniq", single_path(path), false, None),
        StagePlanV1::SortLines { path: Some(path), .. } => ("sort", single_path(path), false, None),
        _ => return Err(ReadonlyExecutionErrorV1::UnsupportedPlan),
    };
    let mut i: usize = 1;
    while i < plan.stages.len()
        invariant
            1 <= i <= plan@.stages.len(),
            forall|j: int| 1 <= j < i ==> reads_upstream(#[trigger] plan@.stages[j]),
        decreases plan.stages.len() - i,
    {
        let ok = match &plan.stages[i] {
            StagePlanV1::SearchText { paths, recursive, .. } => paths.len() == 0 && !*recursive,
            StagePlanV1::HeadLines { path, .. } => path.is_none(),
            StagePlanV1::TailLines { path, .. } => path.is_none(),
            StagePlanV1::CountLines { path } => path.is_none(),
            StagePlanV1::SortLines { path, .. } => path.is_none(),
            StagePlanV1::UniqueLines { path, .. } => path.is_none(),
            _ => false,
        };
        assert(plan@.stages[i as int] == plan.stages@[i as int]@);
        if !ok {
            return Err(ReadonlyExecutionErrorV1::UnsupportedPlan);
        }
        i += 1;
    }
    let grep_is_final = match &plan.stages[plan.stages.len() - 1] {
        StagePlanV1::SearchText { .. } => true,
        _ => false,
    };
    let grep_direct = match first {
        StagePlanV1::SearchText { .. } => true,
        _ => false,
    };
    proof {
        assert(plan@.stages.last() == plan.stages@[plan.stages@.len() - 1]@);
    }
    Ok(ReadonlySourceV1 {
        command_name: command_name.to_string(),
        paths,
        number_lines,
        grep_is_final,
        grep_direct,
        follow_count,
    })
}

/// The exit code of a path that cannot be resolved: 1 when the working directory is at
/// fault, 2 when the path is.
pub fn path_resolution_exit(error: PathResolutionErrorV1) -> (r: u8)
    ensures
        r == if error is InvalidCurrentDirectory { 1u8 } else { 2u8 },
{
    match error {
        PathResolutionErrorV1::InvalidCurrentDirectory => 1,
        _ => 2,
    }
}

/// The diagnostic about an operand, naming it by its text: `wingman CMD: 'PATH': MESSAGE`.
pub open spec fn operand_text(command_name: Seq<char>, original: Seq<char>, message: Seq<char>) -> Seq<char> {
    "wingman "@ + command_name + ": '"@ + original + "': "@ + message
}

/// The diagnostic about an operand, naming it by its position: `wingman CMD: input #N: MESSAGE`.
pub open spec fn operand_index_text(command_name: Seq<char>, position: nat, message: Seq<char>) -> Seq<char> {
    "wingman "@ + command_name + ": input #"@ + decimal_text(position) + ": "@ + message
}

/// The diagnostic about operand `index`: by its text when that fits the diagnostic limit,
/// by its position (counted from 1) otherwise.
pub fn operand_diagnostic(command_name: &str, index: usize, path: &ValidatedPathSpecV1, message: &str) -> (r: String)
    requires
        index < u64::MAX,
    ensures
        r@ == if vstd::utf8::encode_utf8(operand_text(command_name@, path.original@, message@)).len() <= MAX_PREPARED_DIAGNOSTIC_BYTES {
            operand_text(command_name@, path.original@, message@)
        } else {
            operand_index_text(command_name@, (index + 1) as nat, message@)
        },
{
    let a = concat("wingman ", command_name);
    let b = concat(a.as_str(), ": '");
    let c = concat(b.as_str(), path.original.as_str());
    let d = concat(c.as_str(), "': ");
    let with_path = concat(d.as_str(), message);
    if byte_len(with_path.as_str()) <= MAX_PREPARED_DIAGNOSTIC_BYTES {
        return with_path;
    }
    let position = u64_text(index as u64 + 1);
    let e = concat(a.as_str(), ": input #");
    let f = concat(e.as_str(), position.as_str());
    let g = concat(f.as_str(), ": ");
    concat(g.as_str(), message)
}


/// `std::io::ErrorKind::OutOfMemory`. The kind is opaque here, so which value it is stays
/// unsaid.
#[verifier::external_body]
pub(crate) fn out_of_memory_kind() -> (r: std::io::ErrorKind) {
    std::io::ErrorKind::OutOfMemory
}

/// `std::io::ErrorKind::InvalidData`, as above.
#[verifier::external_body]
pub(crate) fn invalid_data_kind() -> (r: std::io::ErrorKind) {
    std::io::ErrorKind::InvalidData
}

/// A text right-aligned in a field of `width` characters, padded with spaces.
pub open spec fn right_aligned(s: Seq<char>, width: nat) -> Seq<char> {
    if s.len() >= width {
        s
    } else {
        Seq::new((width - s.len()) as nat, |i: int| ' ') + s
    }
}

/// A record as `cat -n` writes it: its number right-aligned in six columns, a tab, the text.
pub open spec fn numbered_text(number: u64, text: Seq<char>) -> Seq<char> {
    right_aligned(decimal_text(number as nat), 6) + seq!['\t'] + text
}

/// Numbers a record for `cat -n` when asked, counting on; the count running out is an error.
pub fn number_record(frame: RecordFrameV1, number_lines: bool, next_line_number: &mut u64) -> (r: Result<RecordFrameV1, ReadonlyExecutionErrorV1>)
    ensures
        !number_lines ==> r == Ok::<RecordFrameV1, ReadonlyExecutionErrorV1>(frame) && *final(next_line_number) == *old(next_line_number),
        number_lines && *old(next_line_number) == u64::MAX ==> r matches Err(ReadonlyExecutionErrorV1::Output { .. }),
        r is Err ==> *final(next_line_number) == *old(next_line_number),
        number_lines && *old(next_line_number) < u64::MAX ==> (r matches Ok(f)
            && f@ == (SpecFrame { text: numbered_text(*old(next_line_number), frame.text@), terminated: frame.terminated })
            && *final(next_line_number) == *old(next_line_number) + 1),
{
    if !number_lines {
        return Ok(frame);
    }
    let number = *next_line_number;
    if number == u64::MAX {
        return Err(ReadonlyExecutionErrorV1::Output { kind: out_of_memory_kind() });
    }
    let digits = u64_text(number);
    let count = chars_of(digits.as_str()).len();
    let mut text = String::new();
    let mut i: usize = count;
    while i < 6
        invariant
            count == digits@.len(),
            count <= i <= 6 || (count > 6 && i == count),
            text@ == Seq::new((i - count) as nat, |j: int| ' '),
        decreases 6 - i,
    {
        push_char(&mut text, ' ');
        i += 1;
        proof {
            assert(text@ =~= Seq::new((i - count) as nat, |j: int| ' '));
        }
    }
    let aligned = concat(text.as_str(), digits.as_str());
    let with_tab = concat(aligned.as_str(), "\t");
    let mut frame = frame;
    let ghost original = frame.text@;
    frame.text = concat(with_tab.as_str(), frame.text.as_str());
    *next_line_number = number + 1;
    proof {
        reveal_strlit("\t");
        assert("\t"@ =~= seq!['\t']);
        if count >= 6 {
            assert(text@ =~= Seq::<char>::empty());
        }
        assert(aligned@ =~= right_aligned(decimal_text(number as nat), 6));
    }
    Ok(frame)
}


/// How a stream of records from the inputs ended: whether some input failed, what to say
/// about it, whether it was cancelled, and whether a final `grep` selected anything.
pub struct StreamResultV1 {
    pub had_operational_failure: bool,
    pub diagnostics: Vec<String>,
    pub cancelled: bool,
    pub grep_matched: bool,
}

/// What the reading goes on with: this input, the next input, or nothing more.
#[derive(Clone, Copy, Debug, Eq, PartialEq, Structural)]
pub enum StreamStepV1 {
    Continue,
    NextInput,
    Stop,
}

/// A record joined to the unterminated record before it; `None` when the two together
/// exceed the record limit.
pub open spec fn joined(pending: Option<SpecFrame>, frame: SpecFrame) -> Option<SpecFrame> {
    match pending {
        None => Some(frame),
        Some(p) => if text_bytes(p.text) + text_bytes(frame.text) > MAX_RECORD_BYTES {
            None
        } else {
            Some(SpecFrame { text: p.text + frame.text, terminated: frame.terminated })
        },
    }
}

/// The diagnostic for a fault of the stages, and whether it counts as a failed input; the
/// error it is instead, if any.
pub open spec fn fault_diagnostic(f: OrderedPipelineFaultV1) -> Option<Seq<char>> {
    match f {
        OrderedPipelineFaultV1::TailResource => Some("wingman tail: buffer resource limit exceeded"@),
        OrderedPipelineFaultV1::SortResource => Some("wingman sort: materialization resource limit exceeded"@),
        OrderedPipelineFaultV1::InvalidNumeric => Some("wingman sort: invalid numeric data"@),
        _ => None,
    }
}

/// Streams the records of a read-only plan's inputs through its ordered pipeline. The reader
/// of the inputs drives it: it starts each input, hands over each record or the failure to
/// read, ends each input, and finishes; the frames to write wait in the pipeline.
pub struct OrderedStreamV1 {
    pipeline: OrderedPipelineV1,
    command_name: String,
    paths: Vec<ValidatedPathSpecV1>,
    number_lines: bool,
    grep_direct: bool,
    next_line_number: u64,
    pending: Option<RecordFrameV1>,
    had_operational_failure: bool,
    diagnostics: Vec<String>,
    stopped: bool,
    stage_fault: Option<OrderedPipelineFaultV1>,
}

pub struct SpecStream {
    pub pipeline: SpecPipeline,
    pub command_name: Seq<char>,
    pub paths: Seq<SpecPath>,
    pub number_lines: bool,
    pub grep_direct: bool,
    pub next_line_number: u64,
    pub pending: Option<SpecFrame>,
    pub failed: bool,
    pub diagnostics: Seq<Seq<char>>,
    pub stopped: bool,
    pub stage_fault: Option<OrderedPipelineFaultV1>,
}

impl View for OrderedStreamV1 {
    type V = SpecStream;

    closed spec fn view(&self) -> SpecStream {
        SpecStream {
            pipeline: self.pipeline@,
            command_name: self.command_name@,
            paths: crate::interpreter::paths_view(self.paths@),
            number_lines: self.number_lines,
            grep_direct: self.grep_direct,
            next_line_number: self.next_line_number,
            pending: crate::text_stream::opt_frame_view(self.pending),
            failed: self.had_operational_failure,
            diagnostics: strings_view(self.diagnostics@),
            stopped: self.stopped,
            stage_fault: self.stage_fault,
        }
    }
}

/// The diagnostic about operand `index` of a stream.
pub open spec fn stream_operand_diagnostic(s: SpecStream, index: int, message: Seq<char>) -> Seq<char> {
    if vstd::utf8::encode_utf8(operand_text(s.command_name, s.paths[index].original, message)).len() <= MAX_PREPARED_DIAGNOSTIC_BYTES {
        operand_text(s.command_name, s.paths[index].original, message)
    } else {
        operand_index_text(s.command_name, (index + 1) as nat, message)
    }
}

/// The record of input `index` that goes into the pipeline for the frame `f`.
pub open spec fn stream_record(s: SpecStream, f: SpecFrame, index: usize) -> SpecRecord {
    SpecRecord {
        text: if s.number_lines { numbered_text(s.next_line_number, f.text) } else { f.text },
        terminated: f.terminated,
        input_index: index,
    }
}

/// What handing a complete record to the pipeline does to a stream, when numbering it
/// worked: the step, and the stream after it.
pub open spec fn stream_push_ok(s: SpecStream, f: SpecFrame, index: usize, r: Result<StreamStepV1, ReadonlyExecutionErrorV1>, t: SpecStream) -> bool {
    &&& r is Ok
    &&& t.next_line_number == if s.number_lines { (s.next_line_number + 1) as u64 } else { s.next_line_number }
    &&& t.failed == s.failed
    &&& t.diagnostics == s.diagnostics
    &&& t.pending is None
    &&& (r == Ok::<StreamStepV1, ReadonlyExecutionErrorV1>(StreamStepV1::Stop)
            && t.stage_fault == Some(OrderedPipelineFaultV1::Cancelled) && !t.stopped)
        || match spec_route_step(s.pipeline, 0, stream_record(s, f, index)) {
            Err(_) => r == Ok::<StreamStepV1, ReadonlyExecutionErrorV1>(StreamStepV1::Stop) && t.stage_fault is Some && !t.stopped,
            Ok((stop, p2)) => t.pipeline == p2 && t.stage_fault is None && t.stopped == stop
                && r == Ok::<StreamStepV1, ReadonlyExecutionErrorV1>(if stop { StreamStepV1::Stop } else { StreamStepV1::Continue }),
        }
}

impl OrderedStreamV1 {
    pub closed spec fn wf(&self) -> bool {
        &&& pipeline_wf(self.pipeline@)
        &&& self.paths@.len() < u64::MAX
        &&& self.pipeline@.paths == self.paths@.map_values(|v: ValidatedPathSpecV1| v.original@)
    }

    /// The stream of a plan that reads from `source`; a plan that an ordered pipeline cannot
    /// run is unsupported.
    pub fn new(plan: &ExecutionPlanV1, source: &ReadonlySourceV1) -> (r: Result<Self, ReadonlyExecutionErrorV1>)
        requires
            source.paths@.len() < u64::MAX,
        ensures
            match crate::ordered_pipeline::spec_plan_slots(plan@.stages, 0, crate::ordered_pipeline::plan_searches_directly(plan@.stages), source.paths@.len() > 1) {
                None => r == Err::<Self, _>(ReadonlyExecutionErrorV1::UnsupportedPlan),
                Some(slots) => r matches Ok(s) && s.wf() && s@.pipeline.slots == slots && s@.pipeline.output.len() == 0
                    && s@.command_name == source.command_name@ && s@.paths == source@.paths
                    && s@.number_lines == source.number_lines && s@.grep_direct == source.grep_direct
                    && s@.next_line_number == 1 && s@.pending is None && !s@.failed && s@.diagnostics.len() == 0
                    && s@.stage_fault is None
                    && s@.stopped == exists|i: int| 0 <= i < slots.len() && crate::ordered_pipeline::wants_nothing(#[trigger] slots[i].stage),
            },
    {
        let pipeline = match OrderedPipelineV1::new(plan, source.paths.as_slice()) {
            Ok(p) => p,
            Err(_) => return Err(ReadonlyExecutionErrorV1::UnsupportedPlan),
        };
        let stopped = pipeline.starts_stopped();
        let diagnostics: Vec<String> = Vec::new();
        let paths = copy_paths(&source.paths);
        proof {
            assert(strings_view(diagnostics@) =~= Seq::<Seq<char>>::empty());
            assert(crate::interpreter::paths_view(paths@).len() == paths@.len());
            assert(crate::interpreter::paths_view(source.paths@).len() == source.paths@.len());
            assert(paths@.map_values(|v: ValidatedPathSpecV1| v.original@) =~= source.paths@.map_values(|v: ValidatedPathSpecV1| v.original@)) by {
                assert forall|i: int| 0 <= i < paths@.len() implies paths@[i].original@ == source.paths@[i].original@ by {
                    assert(crate::interpreter::paths_view(paths@)[i] == paths@[i]@);
                    assert(crate::interpreter::paths_view(source.paths@)[i] == source.paths@[i]@);
                    assert(crate::interpreter::paths_view(paths@)[i] == crate::interpreter::paths_view(source.paths@)[i]);
                }
            }
        }
        Ok(OrderedStreamV1 {
            pipeline,
            command_name: source.command_name.clone(),
            paths,
            number_lines: source.number_lines,
            grep_direct: source.grep_direct,
            next_line_number: 1,
            pending: None,
            had_operational_failure: false,
            diagnostics,
            stopped,
            stage_fault: None,
        })
    }

    /// Whether more input is wanted: no stage asked to stop and none failed.
    pub fn accepts_input(&self) -> (r: bool)
        ensures
            r == (!self@.stopped && self@.stage_fault is None),
    {
        !self.stopped && self.stage_fault.is_none()
    }

    /// A new input starts.
    pub fn begin_input(&mut self)
        requires
            old(self).wf(),
        ensures
            final(self).wf(),
            final(self)@ == (SpecStream {
                pipeline: SpecPipeline {
                    slots: old(self)@.pipeline.slots.map_values(|s: crate::ordered_pipeline::SpecSlot| crate::ordered_pipeline::spec_start_input(s)),
                    ..old(self)@.pipeline
                },
                ..old(self)@
            }),
    {
        self.pipeline.start_input();
    }

    /// Hands a complete record of input `index` to the pipeline, numbered when asked.
    pub fn push_complete(&mut self, index: usize, frame: RecordFrameV1, cancellation: &RunnerCancellationV1) -> (r: Result<StreamStepV1, ReadonlyExecutionErrorV1>)
        requires
            old(self).wf(),
            old(self)@.pending is None,
            !old(self)@.stopped,
            old(self)@.stage_fault is None,
        ensures
            final(self).wf(),
            final(self)@.command_name == old(self)@.command_name,
            final(self)@.paths == old(self)@.paths,
            final(self)@.number_lines == old(self)@.number_lines,
            final(self)@.grep_direct == old(self)@.grep_direct,
            old(self)@.number_lines && old(self)@.next_line_number == u64::MAX ==> r matches Err(ReadonlyExecutionErrorV1::Output { .. }),
            !(old(self)@.number_lines && old(self)@.next_line_number == u64::MAX) ==> stream_push_ok(old(self)@, frame@, index, r, final(self)@),
            r is Err ==> final(self)@ == old(self)@,
    {
        let ghost s0 = self@;
        let numbered = number_record(frame, self.number_lines, &mut self.next_line_number)?;
        let ghost rec = SpecRecord { text: numbered.text@, terminated: numbered.terminated, input_index: index };
        proof {
            assert(rec == stream_record(s0, frame@, index));
        }
        match self.pipeline.push(numbered, index, cancellation) {
            Ok(OrderedFlowV1::Continue) => Ok(StreamStepV1::Continue),
            Ok(OrderedFlowV1::StopUpstream) => {
                self.stopped = true;
                Ok(StreamStepV1::Stop)
            },
            Err(fault) => {
                self.stage_fault = Some(fault);
                Ok(StreamStepV1::Stop)
            },
        }
    }

    /// Takes a record read from input `index`: an unterminated record waits for the rest of
    /// its line, which is joined to it within the record limit; a complete record goes into
    /// the pipeline.
    pub fn record(&mut self, index: usize, frame: RecordFrameV1, cancellation: &RunnerCancellationV1) -> (r: Result<StreamStepV1, ReadonlyExecutionErrorV1>)
        requires
            old(self).wf(),
            index < old(self)@.paths.len(),
            !old(self)@.stopped,
            old(self)@.stage_fault is None,
        ensures
            final(self).wf(),
            final(self)@.command_name == old(self)@.command_name,
            final(self)@.paths == old(self)@.paths,
            match joined(old(self)@.pending, frame@) {
                None => r == Ok::<StreamStepV1, ReadonlyExecutionErrorV1>(StreamStepV1::NextInput)
                    && final(self)@ == (SpecStream {
                        pending: None,
                        failed: true,
                        diagnostics: old(self)@.diagnostics.push(stream_operand_diagnostic(old(self)@, index as int, "joined record exceeds the text limit"@)),
                        ..old(self)@
                    }),
                Some(c) => if !c.terminated {
                    r == Ok::<StreamStepV1, ReadonlyExecutionErrorV1>(StreamStepV1::Continue)
                        && final(self)@ == (SpecStream { pending: Some(c), ..old(self)@ })
                } else if old(self)@.number_lines && old(self)@.next_line_number == u64::MAX {
                    r matches Err(ReadonlyExecutionErrorV1::Output { .. })
                } else {
                    stream_push_ok(SpecStream { pending: None, ..old(self)@ }, c, index, r, final(self)@)
                },
            },
    {
        let ghost s0 = self@;
        let candidate = match self.pending.take() {
            Some(previous) => {
                let combined = byte_len(previous.text.as_str()).saturating_add(byte_len(frame.text.as_str()));
                if combined > MAX_RECORD_BYTES {
                    self.had_operational_failure = true;
                    let diagnostic = operand_diagnostic(self.command_name.as_str(), index, &self.paths[index], "joined record exceeds the text limit");
                    let ghost before = self.diagnostics@;
                    self.diagnostics.push(diagnostic);
                    proof {
                        reveal_strlit("joined record exceeds the text limit");
                        crate::text::lemma_strings_view_push(before, diagnostic);
                        assert(s0.paths[index as int] == self.paths@[index as int]@);
                    }
                    return Ok(StreamStepV1::NextInput);
                }
                let mut previous = previous;
                previous.text = concat(previous.text.as_str(), frame.text.as_str());
                previous.terminated = frame.terminated;
                previous
            },
            None => frame,
        };
        if candidate.terminated {
            self.push_complete(index, candidate, cancellation)
        } else {
            self.pending = Some(candidate);
            Ok(StreamStepV1::Continue)
        }
    }

    /// Reading input `index` failed: the record waiting for the rest of its line is dropped
    /// and the input counts as failed.
    pub fn read_failed(&mut self, index: usize, error: &TextReadErrorV1)
        requires
            old(self).wf(),
            index < old(self)@.paths.len(),
        ensures
            final(self).wf(),
            final(self)@ == (SpecStream {
                pending: None,
                failed: true,
                diagnostics: old(self)@.diagnostics.push(stream_operand_diagnostic(old(self)@, index as int,
                    if error is Decode { "input is not valid bounded UTF-8 text"@ } else { "input read failed"@ })),
                ..old(self)@
            }),
    {
        self.had_operational_failure = true;
        self.pending = None;
        let message = match error {
            TextReadErrorV1::Decode(_) => "input is not valid bounded UTF-8 text",
            TextReadErrorV1::Io { .. } => "input read failed",
        };
        let diagnostic = operand_diagnostic(self.command_name.as_str(), index, &self.paths[index], message);
        let ghost before = self.diagnostics@;
        self.diagnostics.push(diagnostic);
        proof {
            crate::text::lemma_strings_view_push(before, diagnostic);
            assert(crate::interpreter::paths_view(self.paths@)[index as int] == self.paths@[index as int]@);
        }
    }

    /// Input `index` failed for the reason `message`: the record waiting for the rest of its
    /// line is dropped and the input counts as failed.
    pub fn input_failed(&mut self, index: usize, message: &str)
        requires
            old(self).wf(),
            index < old(self)@.paths.len(),
        ensures
            final(self).wf(),
            final(self)@ == (SpecStream {
                pending: None,
                failed: true,
                diagnostics: old(self)@.diagnostics.push(stream_operand_diagnostic(old(self)@, index as int, message@)),
                ..old(self)@
            }),
    {
        self.had_operational_failure = true;
        self.pending = None;
        let diagnostic = operand_diagnostic(self.command_name.as_str(), index, &self.paths[index], message);
        let ghost before = self.diagnostics@;
        self.diagnostics.push(diagnostic);
        proof {
            crate::text::lemma_strings_view_push(before, diagnostic);
            assert(crate::interpreter::paths_view(self.paths@)[index as int] == self.paths@[index as int]@);
        }
    }

    /// The stream failed with a diagnostic that names no input.
    pub fn failed_with(&mut self, diagnostic: String)
        requires
            old(self).wf(),
        ensures
            final(self).wf(),
            final(self)@ == (SpecStream { failed: true, diagnostics: old(self)@.diagnostics.push(diagnostic@), ..old(self)@ }),
    {
        self.had_operational_failure = true;
        let ghost before = self.diagnostics@;
        self.diagnostics.push(diagnostic);
        proof {
            crate::text::lemma_strings_view_push(before, diagnostic);
        }
    }

    /// Whether an input failed.
    pub fn has_failed(&self) -> (r: bool)
        ensures
            r == self@.failed,
    {
        self.had_operational_failure
    }

    /// Input `index` ended: when `grep` reads its files directly, a last unterminated line of
    /// the input goes into the pipeline now.
    pub fn end_input(&mut self, index: usize, cancellation: &RunnerCancellationV1) -> (r: Result<StreamStepV1, ReadonlyExecutionErrorV1>)
        requires
            old(self).wf(),
            !old(self)@.stopped,
            old(self)@.stage_fault is None,
        ensures
            final(self).wf(),
            final(self)@.command_name == old(self)@.command_name,
            final(self)@.paths == old(self)@.paths,
            match (old(self)@.grep_direct, old(self)@.pending) {
                (true, Some(c)) => if old(self)@.number_lines && old(self)@.next_line_number == u64::MAX {
                    r matches Err(ReadonlyExecutionErrorV1::Output { .. })
                } else {
                    stream_push_ok(SpecStream { pending: None, ..old(self)@ }, c, index, r, final(self)@)
                },
                _ => r == Ok::<StreamStepV1, ReadonlyExecutionErrorV1>(StreamStepV1::Continue) && final(self)@ == old(self)@,
            },
    {
        if !self.grep_direct {
            return Ok(StreamStepV1::Continue);
        }
        match self.pending.take() {
            Some(frame) => self.push_complete(index, frame, cancellation),
            None => Ok(StreamStepV1::Continue),
        }
    }

    /// Takes the frames released for writing, in order.
    pub fn take_output(&mut self) -> (r: Vec<RecordFrameV1>)
        requires
            old(self).wf(),
        ensures
            final(self).wf(),
            crate::text_stream::frames_view(r@) == old(self)@.pipeline.output,
            final(self)@ == (SpecStream { pipeline: SpecPipeline { output: Seq::empty(), ..old(self)@.pipeline }, ..old(self)@ }),
    {
        self.pipeline.take_output()
    }

    /// Ends the output: the record still held, which is the last one to write.
    pub fn into_final_frame(self) -> (r: Option<RecordFrameV1>)
        ensures
            crate::text_stream::opt_frame_view(r) == match self@.pipeline.sink.pending {
                Some((_, f)) => Some(f),
                None => None,
            },
    {
        self.pipeline.into_final_frame()
    }

    /// The inputs ended (`input_count` of them): a record still waiting goes into the
    /// pipeline, the stages finish, and a fault of theirs becomes an error or a diagnostic.
    pub fn finish(&mut self, input_count: usize, cancellation: &RunnerCancellationV1) -> (r: Result<StreamResultV1, ReadonlyExecutionErrorV1>)
        requires
            old(self).wf(),
        ensures
            final(self).wf(),
            (old(self)@.number_lines && old(self)@.next_line_number == u64::MAX && old(self)@.pending is Some
                && !old(self)@.stopped && old(self)@.stage_fault is None && r matches Err(ReadonlyExecutionErrorV1::Output { .. }))
            || exists|f: Option<OrderedPipelineFaultV1>| {
                &&& (old(self)@.stage_fault is Some ==> f == old(self)@.stage_fault)
                &&& #[trigger] fault_result(f, old(self)@.failed, old(self)@.diagnostics, stream_outcome(r))
            },
            r matches Ok(res) ==> res.grep_matched == match crate::ordered_pipeline::final_search_state(final(self)@.pipeline) {
                Some(m) => m,
                None => false,
            },
    {
        let ghost s0 = self@;
        if !self.stopped && self.stage_fault.is_none() && !cancellation.is_cancelled() {
            match self.pending.take() {
                Some(frame) => {
                    let numbered = number_record(frame, self.number_lines, &mut self.next_line_number)?;
                    let last = if input_count > 0 { input_count - 1 } else { 0 };
                    match self.pipeline.push(numbered, last, cancellation) {
                        Ok(_) => {},
                        Err(fault) => {
                            self.stage_fault = Some(fault);
                        },
                    }
                },
                None => {},
            }
        }
        if self.stage_fault.is_none() && !cancellation.is_cancelled() {
            let cause = if self.had_operational_failure {
                OrderedFinishCauseV1::SourceFailed
            } else if self.stopped {
                OrderedFinishCauseV1::UpstreamStopped
            } else {
                OrderedFinishCauseV1::Complete
            };
            match self.pipeline.finish(cause, cancellation) {
                Ok(()) => {},
                Err(fault) => {
                    self.stage_fault = Some(fault);
                },
            }
        }
        let ghost fault = self.stage_fault;
        let outcome = apply_fault(self.stage_fault, self.had_operational_failure, &mut self.diagnostics);
        let failed = match outcome {
            Ok(failed) => failed,
            Err(e) => {
                proof {
                    assert(fault_result(fault, s0.failed, s0.diagnostics, stream_outcome(Err::<StreamResultV1, ReadonlyExecutionErrorV1>(e))));
                }
                return Err(e);
            },
        };
        self.had_operational_failure = failed;
        let mut diagnostics: Vec<String> = Vec::new();
        std::mem::swap(&mut diagnostics, &mut self.diagnostics);
        let cancelled = cancellation.is_cancelled() || match self.stage_fault {
            Some(OrderedPipelineFaultV1::Cancelled) => true,
            _ => false,
        };
        let grep_matched = match self.pipeline.final_search_matched() {
            Some(m) => m,
            None => false,
        };
        proof {
            assert(strings_view(self.diagnostics@) =~= Seq::<Seq<char>>::empty());
            assert(fault_result(fault, s0.failed, s0.diagnostics, stream_outcome(Ok::<StreamResultV1, ReadonlyExecutionErrorV1>(StreamResultV1 {
                had_operational_failure: failed,
                diagnostics,
                cancelled,
                grep_matched,
            }))));
        }
        Ok(StreamResultV1 { had_operational_failure: failed, diagnostics, cancelled, grep_matched })
    }
}

/// The failure flag and diagnostics a stream's result carries, or its error.
pub open spec fn stream_outcome(r: Result<StreamResultV1, ReadonlyExecutionErrorV1>) -> Result<(bool, Seq<Seq<char>>), ReadonlyExecutionErrorV1> {
    match r {
        Ok(res) => Ok((res.had_operational_failure, strings_view(res.diagnostics@))),
        Err(e) => Err(e),
    }
}

/// What a fault of the stages makes of the stream's outcome: an unsupported stage or an
/// output error is the stream's error, an overflow an output error, a resource limit or bad
/// numeric data a failed input with its diagnostic; a cancellation or no fault changes
/// nothing.
pub open spec fn fault_result(f: Option<OrderedPipelineFaultV1>, failed: bool, diagnostics: Seq<Seq<char>>, r: Result<(bool, Seq<Seq<char>>), ReadonlyExecutionErrorV1>) -> bool {
    match f {
        None => r == Ok::<(bool, Seq<Seq<char>>), ReadonlyExecutionErrorV1>((failed, diagnostics)),
        Some(OrderedPipelineFaultV1::Cancelled) => r == Ok::<(bool, Seq<Seq<char>>), ReadonlyExecutionErrorV1>((failed, diagnostics)),
        Some(OrderedPipelineFaultV1::Unsupported) => r == Err::<(bool, Seq<Seq<char>>), _>(ReadonlyExecutionErrorV1::UnsupportedPlan),
        Some(OrderedPipelineFaultV1::Output { kind }) => r == Err::<(bool, Seq<Seq<char>>), _>(ReadonlyExecutionErrorV1::Output { kind }),
        Some(OrderedPipelineFaultV1::Overflow) => r matches Err(ReadonlyExecutionErrorV1::Output { .. }),
        Some(other) => r == Ok::<(bool, Seq<Seq<char>>), ReadonlyExecutionErrorV1>((true, diagnostics.push(fault_diagnostic(other).unwrap()))),
    }
}

/// Applies a fault of the stages to the failure flag and the diagnostics.
fn apply_fault(fault: Option<OrderedPipelineFaultV1>, failed: bool, diagnostics: &mut Vec<String>) -> (r: Result<bool, ReadonlyExecutionErrorV1>)
    ensures
        fault_result(fault, failed, strings_view(old(diagnostics)@), match r {
            Ok(b) => Ok((b, strings_view(final(diagnostics)@))),
            Err(e) => Err(e),
        }),
{
    let ghost before = diagnostics@;
    match fault {
        None => Ok(failed),
        Some(OrderedPipelineFaultV1::Cancelled) => Ok(failed),
        Some(OrderedPipelineFaultV1::Unsupported) => Err(ReadonlyExecutionErrorV1::UnsupportedPlan),
        Some(OrderedPipelineFaultV1::Output { kind }) => Err(ReadonlyExecutionErrorV1::Output { kind }),
        Some(OrderedPipelineFaultV1::Overflow) => Err(ReadonlyExecutionErrorV1::Output { kind: out_of_memory_kind() }),
        Some(OrderedPipelineFaultV1::TailResource) => {
            let d = "wingman tail: buffer resource limit exceeded".to_string();
            diagnostics.push(d);
            proof {
                crate::text::lemma_strings_view_push(before, d);
            }
            Ok(true)
        },
        Some(OrderedPipelineFaultV1::SortResource) => {
            let d = "wingman sort: materialization resource limit exceeded".to_string();
            diagnostics.push(d);
            proof {
                crate::text::lemma_strings_view_push(before, d);
            }
            Ok(true)
        },
        Some(OrderedPipelineFaultV1::InvalidNumeric) => {
            let d = "wingman sort: invalid numeric data".to_string();
            diagnostics.push(d);
            proof {
                crate::text::lemma_strings_view_push(before, d);
            }
            Ok(true)
        },
    }
}

/// The exit code of a streamed run that was not cancelled: 1 when an input failed or when a
/// final `grep` selected nothing, 0 otherwise.
pub fn stream_exit_code(result: &StreamResultV1, grep_is_final: bool) -> (r: u8)
    ensures
        r == if result.had_operational_failure || (grep_is_final && !result.grep_matched) { 1u8 } else { 0u8 },
{
    if result.had_operational_failure || (grep_is_final && !result.grep_matched) {
        1
    } else {
        0
    }
}

/// The exit code of a path's resolution: 0 when it resolved, else that of its error.
pub open spec fn spec_resolution_code(r: Option<PathResolutionErrorV1>) -> u8 {
    match r {
        None => 0,
        Some(e) => if e is InvalidCurrentDirectory { 1u8 } else { 2u8 },
    }
}

/// The largest exit code among the first `k` resolutions.
pub open spec fn spec_resolution_exit(resolved: Seq<Option<PathResolutionErrorV1>>, k: int) -> u8
    decreases k,
{
    if k <= 0 {
        0
    } else {
        let rest = spec_resolution_exit(resolved, k - 1);
        let code = spec_resolution_code(resolved[k - 1]);
        if code > rest { code } else { rest }
    }
}

/// What the checks before a read-only run decide: go on, or end with an exit code.
#[derive(Clone, Copy, Debug, Eq, PartialEq, Structural)]
pub enum PreflightOutcomeV1 {
    Proceed,
    Exit { code: u8 },
}

/// The decision before a read-only run, from the resolution of each operand (`None` when it
/// resolved, else its error) and, once all resolved, whether each input could be opened: the
/// largest resolution exit code when an operand did not resolve, 1 when an input could not
/// be opened, and going on otherwise.
pub open spec fn spec_readonly_preflight(resolved: Seq<Option<PathResolutionErrorV1>>, opened: Seq<bool>) -> PreflightOutcomeV1 {
    let code = spec_resolution_exit(resolved, resolved.len() as int);
    if code != 0 {
        PreflightOutcomeV1::Exit { code }
    } else if exists|i: int| 0 <= i < opened.len() && !opened[i] {
        PreflightOutcomeV1::Exit { code: 1 }
    } else {
        PreflightOutcomeV1::Proceed
    }
}

/// The decision before a read-only run; see `spec_readonly_preflight`. The caller opens the
/// inputs only when the resolutions alone let the run go on, passing no openings before.
pub fn readonly_preflight(resolved: &[Option<PathResolutionErrorV1>], opened: &[bool]) -> (r: PreflightOutcomeV1)
    ensures
        r == spec_readonly_preflight(resolved@, opened@),
{
    let mut code: u8 = 0;
    let mut i: usize = 0;
    while i < resolved.len()
        invariant
            i <= resolved@.len(),
            code == spec_resolution_exit(resolved@, i as int),
        decreases resolved.len() - i,
    {
        let c: u8 = match &resolved[i] {
            None => 0,
            Some(e) => path_resolution_exit(*e),
        };
        if c > code {
            code = c;
        }
        i += 1;
    }
    if code != 0 {
        return PreflightOutcomeV1::Exit { code };
    }
    let mut j: usize = 0;
    while j < opened.len()
        invariant
            j <= opened@.len(),
            spec_resolution_exit(resolved@, resolved@.len() as int) == 0,
            forall|k: int| 0 <= k < j ==> opened@[k],
        decreases opened.len() - j,
    {
        if !opened[j] {
            assert(!opened@[j as int]);
            return PreflightOutcomeV1::Exit { code: 1 };
        }
        j += 1;
    }
    PreflightOutcomeV1::Proceed
}

/// Whether a run's failure is one of writing to a redirection target, which is reported as a
/// possibly partial output with exit code 1 rather than handed on.
pub fn is_redirected_output_failure(error: &ReadonlyExecutionErrorV1, redirected: bool) -> (r: bool)
    ensures
        r == (redirected && *error is Output),
{
    match error {
        ReadonlyExecutionErrorV1::Output { .. } => redirected,
        ReadonlyExecutionErrorV1::UnsupportedPlan => false,
    }
}

} // verus!
