//! `tail -f`: the last lines of a file, then what is appended to it, until a stage stops,
//! the input fails, or the run is cancelled. The caller reads the file and waits between
//! reads; this decides what each read means and what comes next.

use vstd::prelude::*;
use crate::interpreter::ExecutionPlanV1;
use crate::ordered_pipeline::OrderedPipelineFaultV1;
use crate::ordered_stage::{spec_tail_push, total_bytes, PipelineRecordV1, SpecRecord, SpecTail, TailStateV1};
use crate::runner_cancel::RunnerCancellationV1;
use crate::runner_readonly::{
    stream_operand_diagnostic, stream_push_ok, OrderedStreamV1, ReadonlyExecutionErrorV1, ReadonlySourceV1, SpecStream,
    StreamStepV1,
};
use crate::text_stream::{fresh_decoder, frames_view, spec_push, DecoderState, RecordFrameV1, SpecFrame, Utf8RecordDecoderV1};
use std::collections::VecDeque;

verus! {

/// What the caller does next: read again, wait and read again, or stop.
#[derive(Clone, Copy, Debug, Eq, PartialEq, Structural)]
pub enum FollowStepV1 {
    Read,
    Sleep,
    Stop,
}

/// Following one input: the stream of its records through the stages, the decoder of its
/// bytes, the last records read before following starts, and how many bytes were read.
pub struct FollowStreamV1 {
    stream: OrderedStreamV1,
    decoder: Utf8RecordDecoderV1,
    tail: TailStateV1,
    observed: u64,
    following: bool,
}

pub struct SpecFollow {
    pub stream: SpecStream,
    pub decoder: DecoderState,
    pub tail: SpecTail,
    pub observed: u64,
    pub following: bool,
}

impl View for FollowStreamV1 {
    type V = SpecFollow;

    closed spec fn view(&self) -> SpecFollow {
        SpecFollow {
            stream: self.stream@,
            decoder: self.decoder@,
            tail: self.tail@,
            observed: self.observed,
            following: self.following,
        }
    }
}

/// The record of the followed input for a frame.
pub open spec fn follow_record(f: SpecFrame) -> SpecRecord {
    SpecRecord { text: f.text, terminated: f.terminated, input_index: 0 }
}

/// The frame of a held record.
pub open spec fn record_frame(r: SpecRecord) -> SpecFrame {
    SpecFrame { text: r.text, terminated: r.terminated }
}

/// The frames of held records.
pub open spec fn held_frames(records: Seq<SpecRecord>) -> Seq<SpecFrame> {
    records.map_values(|x: SpecRecord| record_frame(x))
}

/// The buffer of last records after taking `frames` in order; the first that overflows it
/// fails.
pub open spec fn tail_records(t: SpecTail, frames: Seq<SpecFrame>) -> Result<SpecTail, OrderedPipelineFaultV1>
    decreases frames.len(),
{
    if frames.len() == 0 {
        Ok(t)
    } else {
        match tail_records(t, frames.drop_last()) {
            Err(e) => Err(e),
            Ok(t1) => match spec_tail_push(t1, follow_record(frames.last())) {
                Ok((t2, _)) => Ok(t2),
                Err(e) => Err(e),
            },
        }
    }
}

/// Whether the stream takes records: no stage stopped or faulted, and no input failed.
pub open spec fn stream_open(s: SpecStream) -> bool {
    !s.stopped && s.stage_fault is None && !s.failed
}

/// Handing `frames` in order to the stream, each while it stays open, leads from `s` to `t`.
pub open spec fn pushes(s: SpecStream, frames: Seq<SpecFrame>, t: SpecStream) -> bool
    decreases frames.len(),
{
    if frames.len() == 0 {
        t == s
    } else {
        exists|mid: SpecStream, r: Result<StreamStepV1, ReadonlyExecutionErrorV1>|
            #![trigger stream_push_ok(mid, frames.last(), 0, r, t)]
            pushes(s, frames.drop_last(), mid) && stream_open(mid) && stream_push_ok(mid, frames.last(), 0, r, t)
    }
}

/// The stream after the input failed for the reason `message`.
pub open spec fn input_failure(s: SpecStream, message: Seq<char>) -> SpecStream {
    SpecStream { pending: None, failed: true, diagnostics: s.diagnostics.push(stream_operand_diagnostic(s, 0, message)), ..s }
}

/// `a + b`, or `u64::MAX` when that is less.
pub open spec fn saturating_u64(a: u64, b: nat) -> u64 {
    if a + b > u64::MAX { u64::MAX } else { (a + b) as u64 }
}

/// The diagnostic of an overflowing buffer of last records.
pub open spec fn tail_overflow_text() -> Seq<char> {
    "wingman tail: buffer resource limit exceeded"@
}

/// What a read of `chunk` does: its records join the buffer of last records before following
/// starts (a `tail` of no lines keeps none), and go through the stream while following; bytes
/// that are not bounded UTF-8 text, or an overflowing buffer, fail the input.
pub open spec fn bytes_step(s: SpecFollow, chunk: Seq<u8>, r: Result<FollowStepV1, ReadonlyExecutionErrorV1>, t: SpecFollow) -> bool {
    &&& t.decoder == spec_push(s.decoder, chunk).0
    &&& t.observed == saturating_u64(s.observed, chunk.len())
    &&& t.following == s.following
    &&& match spec_push(s.decoder, chunk).1 {
        Err(_) => r == Ok::<FollowStepV1, ReadonlyExecutionErrorV1>(FollowStepV1::Stop) && t.tail == s.tail
            && t.stream == input_failure(s.stream, "input is not valid bounded UTF-8 text"@),
        Ok(frames) => if !s.following {
            if s.tail.limit == 0 {
                r == Ok::<FollowStepV1, ReadonlyExecutionErrorV1>(FollowStepV1::Read) && t.tail == s.tail && t.stream == s.stream
            } else {
                match tail_records(s.tail, frames) {
                    Ok(t2) => r == Ok::<FollowStepV1, ReadonlyExecutionErrorV1>(FollowStepV1::Read) && t.tail == t2 && t.stream == s.stream,
                    Err(_) => r == Ok::<FollowStepV1, ReadonlyExecutionErrorV1>(FollowStepV1::Stop) && t.tail.records.len() == 0
                        && t.tail.limit == s.tail.limit
                        && t.stream == (SpecStream { failed: true, diagnostics: s.stream.diagnostics.push(tail_overflow_text()), ..s.stream }),
                }
            }
        } else {
            &&& t.tail == s.tail
            &&& r is Err ==> s.stream.number_lines
            &&& r is Ok ==> exists|k: int| 0 <= k <= frames.len() && #[trigger] pushes(s.stream, frames.take(k), t.stream)
                && (k < frames.len() ==> !stream_open(t.stream))
                && r == Ok::<FollowStepV1, ReadonlyExecutionErrorV1>(if stream_open(t.stream) { FollowStepV1::Read } else { FollowStepV1::Stop })
        },
    }
}

/// What an empty read does: before following, the last records read go through the stream,
/// in order while it stays open, and following starts; while following, an unreadable length
/// or one below the bytes read fails the input, and otherwise the caller waits.
pub open spec fn end_step(s: SpecFollow, length: Option<u64>, r: Result<FollowStepV1, ReadonlyExecutionErrorV1>, t: SpecFollow) -> bool {
    if !s.following {
        &&& t.following
        &&& t.decoder == s.decoder
        &&& t.observed == s.observed
        &&& t.tail.records.len() == 0
        &&& t.tail.limit == s.tail.limit
        &&& r is Err ==> s.stream.number_lines
        &&& r is Ok ==> exists|k: int| 0 <= k <= s.tail.records.len()
            && #[trigger] pushes(s.stream, held_frames(s.tail.records).take(k), t.stream)
            && (k < s.tail.records.len() ==> r == Ok::<FollowStepV1, ReadonlyExecutionErrorV1>(FollowStepV1::Stop))
        &&& r is Ok ==> (r == Ok::<FollowStepV1, ReadonlyExecutionErrorV1>(FollowStepV1::Read) ==> stream_open(t.stream))
            && (!stream_open(t.stream) ==> r == Ok::<FollowStepV1, ReadonlyExecutionErrorV1>(FollowStepV1::Stop))
    } else {
        &&& t.following
        &&& t.decoder == s.decoder
        &&& t.tail == s.tail
        &&& t.observed == s.observed
        &&& match length {
            None => r == Ok::<FollowStepV1, ReadonlyExecutionErrorV1>(FollowStepV1::Stop)
                && t.stream == input_failure(s.stream, "input metadata cannot be read while following"@),
            Some(n) => if n < s.observed {
                r == Ok::<FollowStepV1, ReadonlyExecutionErrorV1>(FollowStepV1::Stop)
                    && t.stream == input_failure(s.stream, "input was truncated while following"@)
            } else {
                r == Ok::<FollowStepV1, ReadonlyExecutionErrorV1>(FollowStepV1::Sleep) && t.stream == s.stream
            },
        }
    }
}

impl FollowStreamV1 {
    pub closed spec fn wf(&self) -> bool {
        &&& self.stream.wf()
        &&& self.decoder.wf()
        &&& self.tail.bytes == total_bytes(self.tail@.records)
        &&& self.stream@.paths.len() > 0
        &&& self.stream@.pending is None
    }

    /// Following the single input of `source` through the stages of `plan`: a plan without a
    /// count of last lines or without an input, or one the stages cannot run, is unsupported.
    pub fn new(plan: &ExecutionPlanV1, source: &ReadonlySourceV1) -> (r: Result<Self, ReadonlyExecutionErrorV1>)
        requires
            source.paths@.len() < u64::MAX,
        ensures
            (source.follow_count is None || source.paths@.len() == 0) ==> r == Err::<Self, _>(ReadonlyExecutionErrorV1::UnsupportedPlan),
            r matches Ok(f) ==> f.wf() && f@.decoder == fresh_decoder() && f@.observed == 0 && !f@.following
                && f@.tail.limit == source.follow_count->Some_0 && f@.tail.records.len() == 0
                && f@.stream.command_name == source.command_name@ && f@.stream.paths == source@.paths
                && f@.stream.pipeline.output.len() == 0 && !f@.stream.failed && f@.stream.stage_fault is None,
    {
        let count = match source.follow_count {
            Some(c) => c,
            None => return Err(ReadonlyExecutionErrorV1::UnsupportedPlan),
        };
        if source.paths.len() == 0 {
            return Err(ReadonlyExecutionErrorV1::UnsupportedPlan);
        }
        let stream = OrderedStreamV1::new(plan, source)?;
        let tail = TailStateV1 { limit: count, records: VecDeque::new(), bytes: 0 };
        proof {
            assert(tail@.records =~= Seq::<SpecRecord>::empty());
        }
        Ok(FollowStreamV1 { stream, decoder: Utf8RecordDecoderV1::new(), tail, observed: 0, following: false })
    }

    /// Whether more of the input is wanted.
    pub fn wants_input(&self) -> (r: bool)
        ensures
            r == stream_open(self@.stream),
    {
        self.stream.accepts_input() && !self.stream.has_failed()
    }

    /// Hands the frames in order to the open stream until it closes.
    fn push_frames(&mut self, frames: Vec<RecordFrameV1>, check_cancel: bool, cancellation: &RunnerCancellationV1)
        -> (r: Result<FollowStepV1, ReadonlyExecutionErrorV1>)
        requires
            old(self).wf(),
            stream_open(old(self)@.stream),
        ensures
            r is Ok ==> final(self).wf(),
            final(self)@.decoder == old(self)@.decoder,
            final(self)@.tail == old(self)@.tail,
            final(self)@.observed == old(self)@.observed,
            final(self)@.following == old(self)@.following,
            r is Err ==> old(self)@.stream.number_lines,
            r is Ok ==> exists|k: int| 0 <= k <= frames@.len() && #[trigger] pushes(old(self)@.stream, frames_view(frames@).take(k), final(self)@.stream)
                && (k < frames@.len() ==> r == Ok::<FollowStepV1, ReadonlyExecutionErrorV1>(FollowStepV1::Stop))
                && (!check_cancel && k < frames@.len() ==> !stream_open(final(self)@.stream)),
            r is Ok ==> (stream_open(final(self)@.stream) && !check_cancel ==> r == Ok::<FollowStepV1, ReadonlyExecutionErrorV1>(FollowStepV1::Read))
                && (!stream_open(final(self)@.stream) ==> r == Ok::<FollowStepV1, ReadonlyExecutionErrorV1>(FollowStepV1::Stop))
                && (r == Ok::<FollowStepV1, ReadonlyExecutionErrorV1>(FollowStepV1::Read) ==> stream_open(final(self)@.stream)),
    {
        let ghost s0 = self@.stream;
        let ghost all = frames_view(frames@);
        let n_frames = frames.len();
        assert(all.len() == n_frames);
        let mut pending = crate::ordered_stage::reversed(frames);
        let mut i: usize = 0;
        proof {
            assert(all.take(0) =~= Seq::<SpecFrame>::empty());
        }
        while pending.len() > 0 && self.wants_input() && !(check_cancel && cancellation.is_cancelled())
            invariant
                self.wf(),
                self@.decoder == old(self)@.decoder,
                self@.tail == old(self)@.tail,
                self@.observed == old(self)@.observed,
                self@.following == old(self)@.following,
                s0 == old(self)@.stream,
                all.len() == i + pending@.len(),
                all.len() <= usize::MAX,
                frames_view(pending@) == all.subrange(i as int, all.len() as int).reverse(),
                pushes(s0, all.take(i as int), self@.stream),
                self@.stream.number_lines == s0.number_lines,
            decreases pending.len(),
        {
            let ghost mid = self@.stream;
            let ghost before = pending@;
            let frame = pending.pop().unwrap();
            proof {
                assert(frames_view(before).last() == frame@);
                assert(all.subrange(i as int, all.len() as int).reverse().last() == all[i as int]);
                assert(frame@ == all[i as int]);
                assert(frames_view(pending@) =~= frames_view(before).drop_last());
                assert(all.subrange(i as int + 1, all.len() as int).reverse() =~= all.subrange(i as int, all.len() as int).reverse().drop_last());
            }
            let step = self.stream.push_complete(0, frame, cancellation);
            match step {
                Err(e) => return Err(e),
                Ok(_) => {},
            }
            proof {
                assert(all.take(i as int + 1).drop_last() =~= all.take(i as int));
                assert(all.take(i as int + 1).last() == frame@);
                assert(stream_push_ok(mid, frame@, 0, step, self@.stream));
                assert(pushes(s0, all.take(i as int + 1), self@.stream));
            }
            i += 1;
        }
        if pending.len() == 0 && self.wants_input() {
            proof {
                assert(all.take(i as int) =~= all);
            }
            Ok(FollowStepV1::Read)
        } else {
            Ok(FollowStepV1::Stop)
        }
    }

    /// Takes what a read gave.
    pub fn bytes(&mut self, chunk: &[u8], cancellation: &RunnerCancellationV1) -> (r: Result<FollowStepV1, ReadonlyExecutionErrorV1>)
        requires
            old(self).wf(),
            stream_open(old(self)@.stream),
        ensures
            r is Ok ==> final(self).wf(),
            bytes_step(old(self)@, chunk@, r, final(self)@),
    {
        let ghost s0 = self@;
        let len = chunk.len() as u64;
        self.observed = if self.observed > u64::MAX - len { u64::MAX } else { self.observed + len };
        let records = match self.decoder.push(chunk) {
            Ok(records) => records,
            Err(_) => {
                self.stream.input_failed(0, "input is not valid bounded UTF-8 text");
                return Ok(FollowStepV1::Stop);
            },
        };
        if self.following {
            let r = self.push_frames(records, false, cancellation);
            return r;
        }
        if self.tail.limit == 0 {
            return Ok(FollowStepV1::Read);
        }
        let ghost all = frames_view(records@);
        let n_records = records.len();
        let mut pending = crate::ordered_stage::reversed(records);
        let mut i: usize = 0;
        proof {
            assert(all.take(0) =~= Seq::<SpecFrame>::empty());
        }
        while pending.len() > 0
            invariant
                self.wf(),
                stream_open(self@.stream),
                self@.stream == s0.stream,
                self@.decoder == spec_push(s0.decoder, chunk@).0,
                spec_push(s0.decoder, chunk@).1 == Ok::<Seq<SpecFrame>, crate::text_stream::TextDecodeErrorV1>(all),
                self@.observed == saturating_u64(s0.observed, chunk@.len()),
                !self@.following,
                s0 == old(self)@,
                !s0.following,
                s0.tail.limit != 0,
                self@.tail.limit == s0.tail.limit,
                all.len() == n_records,
                all.len() == i + pending@.len(),
                frames_view(pending@) == all.subrange(i as int, all.len() as int).reverse(),
                tail_records(s0.tail, all.take(i as int)) == Ok::<SpecTail, OrderedPipelineFaultV1>(self@.tail),
            decreases pending.len(),
        {
            let ghost before = pending@;
            let frame = pending.pop().unwrap();
            proof {
                assert(frames_view(before).last() == frame@);
                assert(all.subrange(i as int, all.len() as int).reverse().last() == all[i as int]);
                assert(frames_view(pending@) =~= frames_view(before).drop_last());
                assert(all.subrange(i as int + 1, all.len() as int).reverse() =~= all.subrange(i as int, all.len() as int).reverse().drop_last());
                assert(all.take(i as int + 1).drop_last() =~= all.take(i as int));
                assert(all.take(i as int + 1).last() == frame@);
            }
            let record = PipelineRecordV1 { frame, input_index: 0 };
            assert(record@ == follow_record(all[i as int]));
            let ghost t_before = self@.tail;
            match self.tail.push(record) {
                Ok(_) => {},
                Err(_) => {
                    proof {
                        assert(spec_tail_push(t_before, follow_record(all[i as int])) is Err);
                        assert(tail_records(s0.tail, all.take(i as int + 1)) is Err);
                        lemma_tail_failure_sticks(s0.tail, all, i as int + 1);
                        assert(spec_push(s0.decoder, chunk@).1 == Ok::<Seq<SpecFrame>, crate::text_stream::TextDecodeErrorV1>(all));
                    }
                    let diagnostic = "wingman tail: buffer resource limit exceeded".to_string();
                    assert(diagnostic@ == tail_overflow_text());
                    self.stream.failed_with(diagnostic);
                    return Ok(FollowStepV1::Stop);
                },
            }
            i += 1;
        }
        proof {
            assert(all.take(i as int) =~= all);
        }
        Ok(FollowStepV1::Read)
    }

    /// A read came back empty. Before following, the last records read go through the stream
    /// and following starts; while following, the input's length, if it could be read, tells a
    /// truncated input from one that has nothing new yet.
    pub fn end_of_data(&mut self, length: Option<u64>, cancellation: &RunnerCancellationV1) -> (r: Result<FollowStepV1, ReadonlyExecutionErrorV1>)
        requires
            old(self).wf(),
            stream_open(old(self)@.stream),
        ensures
            r is Ok ==> final(self).wf(),
            end_step(old(self)@, length, r, final(self)@),
    {
        if self.following {
            return match length {
                None => {
                    self.stream.input_failed(0, "input metadata cannot be read while following");
                    Ok(FollowStepV1::Stop)
                },
                Some(n) => if n < self.observed {
                    self.stream.input_failed(0, "input was truncated while following");
                    Ok(FollowStepV1::Stop)
                } else {
                    Ok(FollowStepV1::Sleep)
                },
            };
        }
        let ghost held = self@.tail.records;
        let mut queue: VecDeque<PipelineRecordV1> = VecDeque::new();
        std::mem::swap(&mut queue, &mut self.tail.records);
        self.tail.bytes = 0;
        self.following = true;
        proof {
            assert(self@.tail.records =~= Seq::<SpecRecord>::empty());
        }
        let mut frames: Vec<RecordFrameV1> = Vec::new();
        let mut k: usize = 0;
        let n_held = queue.len();
        while queue.len() > 0
            invariant
                k + queue@.len() == n_held,
                n_held == held.len(),
                crate::ordered_stage::records_view(queue@) == held.subrange(k as int, held.len() as int),
                frames_view(frames@) == held_frames(held.take(k as int)),
            decreases queue.len(),
        {
            let ghost before = queue@;
            let record = queue.pop_front().unwrap();
            proof {
                assert(crate::ordered_stage::records_view(before)[0] == record@);
                assert(crate::ordered_stage::records_view(queue@) =~= crate::ordered_stage::records_view(before).drop_first());
            }
            let ghost fb = frames@;
            frames.push(record.frame);
            k += 1;
            proof {
                assert(frames_view(frames@) =~= frames_view(fb).push(record_frame(held[k as int - 1])));
                assert(held_frames(held.take(k as int))
                    =~= held_frames(held.take(k as int - 1)).push(record_frame(held[k as int - 1])));
            }
        }
        proof {
            assert(held.take(k as int) =~= held);
            assert(held_frames(held) == frames_view(frames@));
        }
        self.push_frames(frames, true, cancellation)
    }

    /// A read failed: the input fails.
    pub fn read_failed(&mut self)
        requires
            old(self).wf(),
        ensures
            final(self).wf(),
            final(self)@ == (SpecFollow {
                stream: input_failure(old(self)@.stream,
                    if old(self)@.following { "input read failed while following"@ } else { "input read failed"@ }),
                ..old(self)@
            }),
    {
        if self.following {
            self.stream.input_failed(0, "input read failed while following");
        } else {
            self.stream.input_failed(0, "input read failed");
        }
    }

    /// Takes the frames released for writing, in order.
    pub fn take_output(&mut self) -> (r: Vec<RecordFrameV1>)
        requires
            old(self).wf(),
        ensures
            final(self).wf(),
            frames_view(r@) == old(self)@.stream.pipeline.output,
            final(self)@ == (SpecFollow {
                stream: SpecStream { pipeline: crate::ordered_pipeline::SpecPipeline { output: Seq::empty(), ..old(self)@.stream.pipeline }, ..old(self)@.stream },
                ..old(self)@
            }),
    {
        self.stream.take_output()
    }

    /// The stream of records, to finish once following ends.
    pub fn into_stream(self) -> (r: OrderedStreamV1)
        requires
            self.wf(),
        ensures
            r.wf(),
            r@ == self@.stream,
    {
        self.stream
    }
}

/// A failure of the buffer on a prefix of the frames is its failure on all of them.
proof fn lemma_tail_failure_sticks(t: SpecTail, frames: Seq<SpecFrame>, k: int)
    requires
        0 <= k <= frames.len(),
        tail_records(t, frames.take(k)) is Err,
    ensures
        tail_records(t, frames) is Err,
    decreases frames.len() - k,
{
    if k < frames.len() {
        assert(frames.take(k + 1).drop_last() =~= frames.take(k));
        lemma_tail_failure_sticks(t, frames, k + 1);
    } else {
        assert(frames.take(k) =~= frames);
    }
}

} // verus!
