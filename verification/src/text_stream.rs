//! Line records over UTF-8 byte streams: a decoder that frames records incrementally, and the
//! encoding that writes them back with CRLF terminators.

use vstd::prelude::*;
use vstd::utf8::{decode_utf8, encode_utf8, valid_utf8};
use crate::text::{chars_of, contains_char, has_char};

verus! {

pub const MAX_RECORD_BYTES: usize = 1048576;

#[derive(Clone, Debug, Eq, PartialEq)]
pub struct RecordFrameV1 {
    pub text: String,
    pub terminated: bool,
}

#[derive(Clone, Debug, Eq, PartialEq, Structural)]
pub enum TextDecodeErrorV1 {
    InvalidUtf8 { byte_offset: usize },
    Nul { byte_offset: usize },
    RecordTooLong { limit: usize, observed: usize },
    AlreadyFinished,
    Failed,
}

#[derive(Clone, Debug, Eq, PartialEq, Structural)]
pub enum TextEncodeErrorV1 {
    NonFinalUnterminated { index: usize },
    Nul { index: usize },
}

/// A record as text and whether a line terminator ended it.
pub struct SpecFrame {
    pub text: Seq<char>,
    pub terminated: bool,
}

impl View for RecordFrameV1 {
    type V = SpecFrame;

    open spec fn view(&self) -> SpecFrame {
        SpecFrame { text: self.text@, terminated: self.terminated }
    }
}

pub open spec fn frames_view(v: Seq<RecordFrameV1>) -> Seq<SpecFrame> {
    v.map_values(|f: RecordFrameV1| f@)
}

/// The UTF-8 byte order mark.
pub open spec fn bom() -> Seq<u8> {
    seq![0xefu8, 0xbbu8, 0xbfu8]
}

/// The decoder's state.
pub struct DecoderState {
    /// Leading bytes held while it is open whether the stream starts with a byte order mark.
    pub initial: Seq<u8>,
    pub decided: bool,
    /// Bytes of the record being read.
    pub pending: Seq<u8>,
    /// Stream offset of the record's first byte.
    pub pending_offset: Option<usize>,
    /// Stream offset of the next byte.
    pub next_offset: usize,
    pub finished: bool,
    pub failed: bool,
}

pub open spec fn fresh_decoder() -> DecoderState {
    DecoderState {
        initial: seq![],
        decided: false,
        pending: seq![],
        pending_offset: None,
        next_offset: 0,
        finished: false,
        failed: false,
    }
}

/// The state after an error: every later call fails.
pub open spec fn failed_decoder() -> DecoderState {
    DecoderState { failed: true, ..fresh_decoder() }
}

pub open spec fn sat_add(a: usize, b: int) -> usize {
    if a + b > usize::MAX { usize::MAX } else { (a + b) as usize }
}

/// `n` is the length of the longest prefix of `p` that is valid UTF-8.
pub open spec fn is_valid_up_to(p: Seq<u8>, n: int) -> bool {
    &&& 0 <= n <= p.len()
    &&& valid_utf8(p.take(n))
    &&& forall|m: int| n < m <= p.len() ==> !valid_utf8(#[trigger] p.take(m))
}

/// The length of the longest prefix of `p` that is valid UTF-8.
pub open spec fn valid_up_to(p: Seq<u8>) -> int {
    choose|n: int| is_valid_up_to(p, n)
}

/// The longest valid prefix is the one with the property.
pub proof fn lemma_valid_up_to_is(p: Seq<u8>, n: int)
    requires
        is_valid_up_to(p, n),
    ensures
        valid_up_to(p) == n,
{
    lemma_valid_up_to_unique(p, n);
}

proof fn lemma_valid_up_to_unique(p: Seq<u8>, n: int)
    requires
        is_valid_up_to(p, n),
    ensures
        valid_up_to(p) == n,
{
    let c = valid_up_to(p);
    assert(is_valid_up_to(p, c));
    if c < n {
        assert(!valid_utf8(p.take(n)));
    } else if n < c {
        assert(!valid_utf8(p.take(c)));
    }
}

/// The pending bytes as a record, or the error at their first invalid byte.
pub open spec fn take_record(s: DecoderState, terminated: bool) -> Result<(DecoderState, SpecFrame), TextDecodeErrorV1> {
    let offset = match s.pending_offset {
        Some(o) => o,
        None => s.next_offset,
    };
    if valid_utf8(s.pending) {
        Ok((
            DecoderState { pending: seq![], pending_offset: None, ..s },
            SpecFrame { text: decode_utf8(s.pending), terminated },
        ))
    } else {
        Err(TextDecodeErrorV1::InvalidUtf8 { byte_offset: sat_add(offset, valid_up_to(s.pending)) })
    }
}

/// One byte of the record stream, at stream offset `offset`.
pub open spec fn payload_step(s: DecoderState, byte: u8, offset: usize) -> Result<(DecoderState, Seq<SpecFrame>), TextDecodeErrorV1> {
    if byte == 0 {
        Err(TextDecodeErrorV1::Nul { byte_offset: offset })
    } else if byte == 10 {
        let s1 = if s.pending.len() > 0 && s.pending.last() == 13 {
            DecoderState { pending: s.pending.drop_last(), ..s }
        } else {
            s
        };
        match take_record(s1, true) {
            Ok((s2, f)) => Ok((s2, seq![f])),
            Err(e) => Err(e),
        }
    } else if s.pending.len() >= MAX_RECORD_BYTES {
        Err(TextDecodeErrorV1::RecordTooLong { limit: MAX_RECORD_BYTES, observed: sat_add(s.pending.len() as usize, 1) })
    } else {
        Ok((
            DecoderState {
                pending: s.pending.push(byte),
                pending_offset: if s.pending_offset is None { Some(offset) } else { s.pending_offset },
                ..s
            },
            seq![],
        ))
    }
}

/// Bytes `init[k..]`, each at its own index as stream offset, appended to `acc`.
pub open spec fn replay(s: DecoderState, init: Seq<u8>, k: int, acc: Seq<SpecFrame>) -> Result<(DecoderState, Seq<SpecFrame>), TextDecodeErrorV1>
    decreases init.len() - k,
{
    if k < 0 || k >= init.len() {
        Ok((s, acc))
    } else {
        match payload_step(s, init[k], k as usize) {
            Err(e) => Err(e),
            Ok((s1, f)) => replay(s1, init, k + 1, acc + f),
        }
    }
}

/// The leading bytes agree with the byte order mark as far as both go.
pub open spec fn bom_prefix(init: Seq<u8>) -> bool {
    forall|k: int| 0 <= k < init.len() && k < 3 ==> init[k] == #[trigger] bom()[k]
}

/// A leading byte while it is open whether the stream starts with a byte order mark.
pub open spec fn initial_step(s: DecoderState, byte: u8) -> Result<(DecoderState, Seq<SpecFrame>), TextDecodeErrorV1> {
    let init = s.initial.push(byte);
    if bom_prefix(init) && init.len() < 3 {
        Ok((DecoderState { initial: init, ..s }, seq![]))
    } else if bom_prefix(init) && init.len() == 3 {
        Ok((DecoderState { initial: seq![], decided: true, ..s }, seq![]))
    } else {
        replay(DecoderState { initial: seq![], decided: true, ..s }, init, 0, seq![])
    }
}

/// One byte pushed into the decoder.
pub open spec fn byte_step(s: DecoderState, byte: u8) -> Result<(DecoderState, Seq<SpecFrame>), TextDecodeErrorV1> {
    let offset = s.next_offset;
    let s0 = DecoderState { next_offset: sat_add(s.next_offset, 1), ..s };
    if s0.decided { payload_step(s0, byte, offset) } else { initial_step(s0, byte) }
}

/// Bytes `bytes[i..]` pushed one by one, the records appended to `acc`.
pub open spec fn push_bytes(s: DecoderState, bytes: Seq<u8>, i: int, acc: Seq<SpecFrame>) -> Result<(DecoderState, Seq<SpecFrame>), TextDecodeErrorV1>
    decreases bytes.len() - i,
{
    if i < 0 || i >= bytes.len() {
        Ok((s, acc))
    } else {
        match byte_step(s, bytes[i]) {
            Err(e) => Err(e),
            Ok((s1, f)) => push_bytes(s1, bytes, i + 1, acc + f),
        }
    }
}

/// What `push` does: the state after it, and the records completed or the error.
pub open spec fn spec_push(s: DecoderState, bytes: Seq<u8>) -> (DecoderState, Result<Seq<SpecFrame>, TextDecodeErrorV1>) {
    if s.failed {
        (s, Err(TextDecodeErrorV1::Failed))
    } else if s.finished {
        (s, Err(TextDecodeErrorV1::AlreadyFinished))
    } else {
        match push_bytes(s, bytes, 0, seq![]) {
            Ok((s1, frames)) => (s1, Ok(frames)),
            Err(e) => (failed_decoder(), Err(e)),
        }
    }
}

/// What `finish` does: the held leading bytes and the unterminated last record are released.
pub open spec fn spec_finish(s: DecoderState) -> (DecoderState, Result<Seq<SpecFrame>, TextDecodeErrorV1>) {
    if s.failed {
        (s, Err(TextDecodeErrorV1::Failed))
    } else if s.finished {
        (s, Err(TextDecodeErrorV1::AlreadyFinished))
    } else {
        let released: Result<(DecoderState, Seq<SpecFrame>), TextDecodeErrorV1> = if !s.decided {
            let s1 = DecoderState { decided: true, initial: seq![], ..s };
            if s.initial == bom() { Ok((s1, seq![])) } else { replay(s1, s.initial, 0, seq![]) }
        } else {
            Ok((s, seq![]))
        };
        match released {
            Err(e) => (failed_decoder(), Err(e)),
            Ok((s2, frames)) => if s2.pending.len() > 0 {
                match take_record(s2, false) {
                    Err(e) => (failed_decoder(), Err(e)),
                    Ok((s3, f)) => (DecoderState { finished: true, ..s3 }, Ok(frames.push(f))),
                }
            } else {
                (DecoderState { finished: true, ..s2 }, Ok(frames))
            },
        }
    }
}

/// The states the decoder can be in.
pub open spec fn decoder_wf(s: DecoderState) -> bool {
    &&& !s.decided ==> s.initial.len() < 3 && bom_prefix(s.initial) && s.pending.len() == 0 && s.next_offset == s.initial.len()
    &&& s.decided ==> s.initial.len() == 0
    &&& s.pending.len() <= MAX_RECORD_BYTES
}

/// `String::from_utf8` on `bytes`: the text when they are valid UTF-8; otherwise
/// `valid_up_to()` of its error, which std documents as the length of the longest prefix
/// of `bytes` that is valid UTF-8.
#[verifier::external_body]
fn utf8_text(bytes: Vec<u8>) -> (r: Result<String, usize>)
    ensures
        match r {
            Ok(s) => valid_utf8(bytes@) && s@ == decode_utf8(bytes@),
            Err(n) => !valid_utf8(bytes@) && is_valid_up_to(bytes@, n as int),
        },
{
    match String::from_utf8(bytes) {
        Ok(s) => Ok(s),
        Err(e) => Err(e.utf8_error().valid_up_to()),
    }
}

/// Splits a byte stream into UTF-8 line records, as the bytes arrive.
pub struct Utf8RecordDecoderV1 {
    initial_bytes: Vec<u8>,
    initial_decided: bool,
    pending_record: Vec<u8>,
    pending_offset: Option<usize>,
    next_offset: usize,
    finished: bool,
    failed: bool,
}

impl View for Utf8RecordDecoderV1 {
    type V = DecoderState;

    closed spec fn view(&self) -> DecoderState {
        if self.failed { failed_decoder() } else { self.raw() }
    }
}

impl Utf8RecordDecoderV1 {
    closed spec fn raw(&self) -> DecoderState {
        DecoderState {
            initial: self.initial_bytes@,
            decided: self.initial_decided,
            pending: self.pending_record@,
            pending_offset: self.pending_offset,
            next_offset: self.next_offset,
            finished: self.finished,
            failed: self.failed,
        }
    }

    /// The decoder's state is one it can reach.
    pub closed spec fn wf(&self) -> bool {
        self.failed || decoder_wf(self.raw())
    }

    pub fn new() -> (r: Self)
        ensures
            r.wf(),
            r@ == fresh_decoder(),
    {
        let r = Utf8RecordDecoderV1 {
            initial_bytes: Vec::new(),
            initial_decided: false,
            pending_record: Vec::new(),
            pending_offset: None,
            next_offset: 0,
            finished: false,
            failed: false,
        };
        assert(r.raw().initial =~= seq![]);
        assert(r.raw().pending =~= seq![]);
        r
    }

    fn take_record(&mut self, terminated: bool) -> (r: Result<RecordFrameV1, TextDecodeErrorV1>)
        requires
            !old(self).failed,
        ensures
            !final(self).failed,
            match take_record(old(self).raw(), terminated) {
                Ok((s, f)) => r is Ok && r.unwrap()@ == f && final(self).raw() == s,
                Err(e) => r == Err::<RecordFrameV1, _>(e),
            },
    {
        let offset = match self.pending_offset {
            Some(o) => o,
            None => self.next_offset,
        };
        self.pending_offset = None;
        let mut bytes: Vec<u8> = Vec::new();
        std::mem::swap(&mut bytes, &mut self.pending_record);
        assert(self.pending_record@ =~= seq![]);
        match utf8_text(bytes) {
            Ok(text) => Ok(RecordFrameV1 { text, terminated }),
            Err(n) => {
                proof { lemma_valid_up_to_unique(bytes@, n as int); }
                Err(TextDecodeErrorV1::InvalidUtf8 { byte_offset: offset.saturating_add(n) })
            },
        }
    }

    fn push_payload_byte(&mut self, byte: u8, offset: usize, records: &mut Vec<RecordFrameV1>) -> (r: Result<(), TextDecodeErrorV1>)
        requires
            !old(self).failed,
        ensures
            !final(self).failed,
            match payload_step(old(self).raw(), byte, offset) {
                Ok((s, f)) => r is Ok && final(self).raw() == s && frames_view(final(records)@) == frames_view(old(records)@) + f,
                Err(e) => r == Err::<(), _>(e),
            },
    {
        if byte == 0 {
            return Err(TextDecodeErrorV1::Nul { byte_offset: offset });
        }
        if byte == 10 {
            let n = self.pending_record.len();
            if n > 0 && self.pending_record[n - 1] == 13 {
                let ghost before = self.pending_record@;
                self.pending_record.pop();
                assert(self.pending_record@ =~= before.drop_last());
            }
            let record = self.take_record(true)?;
            let ghost before = records@;
            records.push(record);
            assert(frames_view(records@) =~= frames_view(before) + seq![record@]);
            return Ok(());
        }
        if self.pending_record.len() >= MAX_RECORD_BYTES {
            return Err(TextDecodeErrorV1::RecordTooLong {
                limit: MAX_RECORD_BYTES,
                observed: self.pending_record.len().saturating_add(1),
            });
        }
        if self.pending_offset.is_none() {
            self.pending_offset = Some(offset);
        }
        self.pending_record.push(byte);
        assert(frames_view(records@) =~= frames_view(old(records)@) + seq![]);
        Ok(())
    }

    fn replay_initial(&mut self, init: &Vec<u8>, records: &mut Vec<RecordFrameV1>) -> (r: Result<(), TextDecodeErrorV1>)
        requires
            !old(self).failed,
        ensures
            !final(self).failed,
            match replay(old(self).raw(), init@, 0, frames_view(old(records)@)) {
                Ok((s, f)) => r is Ok && final(self).raw() == s && frames_view(final(records)@) == f,
                Err(e) => r == Err::<(), _>(e),
            },
    {
        let mut k: usize = 0;
        while k < init.len()
            invariant
                k <= init@.len(),
                !self.failed,
                replay(old(self).raw(), init@, 0, frames_view(old(records)@))
                    == replay(self.raw(), init@, k as int, frames_view(records@)),
            decreases init.len() - k,
        {
            self.push_payload_byte(init[k], k, records)?;
            k += 1;
        }
        Ok(())
    }

    fn push_initial_byte(&mut self, byte: u8, records: &mut Vec<RecordFrameV1>) -> (r: Result<(), TextDecodeErrorV1>)
        requires
            !old(self).failed,
            !old(self).initial_decided,
            old(self).initial_bytes@.len() < 3,
        ensures
            !final(self).failed,
            match initial_step(old(self).raw(), byte) {
                Ok((s, f)) => r is Ok && final(self).raw() == s && frames_view(final(records)@) == frames_view(old(records)@) + f,
                Err(e) => r == Err::<(), _>(e),
            },
    {
        self.initial_bytes.push(byte);
        let n = self.initial_bytes.len();
        let b0 = n < 1 || self.initial_bytes[0] == 0xef;
        let b1 = n < 2 || self.initial_bytes[1] == 0xbb;
        let b2 = n < 3 || self.initial_bytes[2] == 0xbf;
        let matches = b0 && b1 && b2;
        assert(matches == bom_prefix(self.initial_bytes@)) by {
            if !matches {
                if !b0 { assert(!(self.initial_bytes@[0] == bom()[0])); }
                else if !b1 { assert(!(self.initial_bytes@[1] == bom()[1])); }
                else { assert(!(self.initial_bytes@[2] == bom()[2])); }
            }
        }
        if matches && n < 3 {
            assert(frames_view(records@) =~= frames_view(old(records)@) + seq![]);
            return Ok(());
        }
        self.initial_decided = true;
        let mut init: Vec<u8> = Vec::new();
        std::mem::swap(&mut init, &mut self.initial_bytes);
        assert(self.initial_bytes@ =~= seq![]);
        if matches && n == 3 {
            assert(frames_view(records@) =~= frames_view(old(records)@) + seq![]);
            return Ok(());
        }
        let ghost start = frames_view(records@);
        proof {
            lemma_replay_acc(self.raw(), init@, 0, start);
        }
        self.replay_initial(&init, records)
    }
}


impl Utf8RecordDecoderV1 {
    /// Feeds bytes; returns the records they complete.
    pub fn push(&mut self, bytes: &[u8]) -> (r: Result<Vec<RecordFrameV1>, TextDecodeErrorV1>)
        requires
            old(self).wf(),
        ensures
            final(self).wf(),
            (final(self)@, match r {
                Ok(v) => Ok(frames_view(v@)),
                Err(e) => Err(e),
            }) == spec_push(old(self)@, bytes@),
    {
        if self.failed {
            return Err(TextDecodeErrorV1::Failed);
        }
        if self.finished {
            return Err(TextDecodeErrorV1::AlreadyFinished);
        }
        let mut records: Vec<RecordFrameV1> = Vec::new();
        let mut i: usize = 0;
        assert(frames_view(records@) =~= seq![]);
        while i < bytes.len()
            invariant
                i <= bytes@.len(),
                !self.failed,
                !old(self).failed,
                !old(self).finished,
                decoder_wf(self.raw()),
                old(self)@ == old(self).raw(),
                push_bytes(old(self).raw(), bytes@, 0, seq![]) == push_bytes(self.raw(), bytes@, i as int, frames_view(records@)),
            decreases bytes.len() - i,
        {
            let byte = bytes[i];
            let offset = self.next_offset;
            self.next_offset = self.next_offset.saturating_add(1);
            let ghost mid = self.raw();
            let result = if self.initial_decided {
                self.push_payload_byte(byte, offset, &mut records)
            } else {
                self.push_initial_byte(byte, &mut records)
            };
            match result {
                Err(e) => {
                    self.failed = true;
                    return Err(e);
                },
                Ok(()) => {
                    proof { lemma_step_wf(mid, byte, offset); }
                },
            }
            i += 1;
        }
        Ok(records)
    }
}

impl Utf8RecordDecoderV1 {
    /// Ends the stream: releases held leading bytes and the unterminated last record.
    pub fn finish(&mut self) -> (r: Result<Vec<RecordFrameV1>, TextDecodeErrorV1>)
        requires
            old(self).wf(),
        ensures
            final(self).wf(),
            (final(self)@, match r {
                Ok(v) => Ok(frames_view(v@)),
                Err(e) => Err(e),
            }) == spec_finish(old(self)@),
    {
        if self.failed {
            return Err(TextDecodeErrorV1::Failed);
        }
        if self.finished {
            return Err(TextDecodeErrorV1::AlreadyFinished);
        }
        let mut records: Vec<RecordFrameV1> = Vec::new();
        assert(frames_view(records@) =~= seq![]);
        if !self.initial_decided {
            self.initial_decided = true;
            let mut init: Vec<u8> = Vec::new();
            std::mem::swap(&mut init, &mut self.initial_bytes);
            assert(self.initial_bytes@ =~= seq![]);
            let is_bom = init.len() == 3 && init[0] == 0xef && init[1] == 0xbb && init[2] == 0xbf;
            assert(is_bom == (init@ == bom())) by {
                if init@ == bom() {
                    assert(init@[0] == bom()[0] && init@[1] == bom()[1] && init@[2] == bom()[2]);
                }
                if is_bom {
                    assert(init@ =~= bom());
                }
            }
            if !is_bom {
                proof { lemma_replay_wf(self.raw(), init@, 0, seq![]); }
                match self.replay_initial(&init, &mut records) {
                    Err(e) => {
                        self.failed = true;
                        return Err(e);
                    },
                    Ok(()) => {},
                }
            }
        }
        if self.pending_record.len() > 0 {
            match self.take_record(false) {
                Ok(record) => {
                    let ghost before = records@;
                    records.push(record);
                    assert(frames_view(records@) =~= frames_view(before).push(record@));
                },
                Err(e) => {
                    self.failed = true;
                    return Err(e);
                },
            }
        }
        self.finished = true;
        Ok(records)
    }
}

/// A byte step keeps the decoder in a reachable state.
proof fn lemma_step_wf(s0: DecoderState, byte: u8, offset: usize)
    requires
        decoder_wf(DecoderState { next_offset: offset, ..s0 }),
        s0.next_offset == sat_add(offset, 1),
    ensures
        (if s0.decided { payload_step(s0, byte, offset) } else { initial_step(s0, byte) }) matches Ok((s1, _)) ==> decoder_wf(s1),
{
    if s0.decided {
        lemma_payload_wf(s0, byte, offset);
    } else {
        let init = s0.initial.push(byte);
        let s1 = DecoderState { initial: seq![], decided: true, ..s0 };
        lemma_replay_wf(s1, init, 0, seq![]);
        if bom_prefix(init) && init.len() < 3 {
            assert forall|k: int| 0 <= k < init.len() && k < 3 implies init[k] == #[trigger] bom()[k] by {}
        }
    }
}

proof fn lemma_payload_wf(s: DecoderState, byte: u8, offset: usize)
    requires
        s.decided,
        s.initial.len() == 0,
        s.pending.len() <= MAX_RECORD_BYTES,
    ensures
        payload_step(s, byte, offset) matches Ok((s1, _)) ==> decoder_wf(s1) && s1.decided && s1.initial.len() == 0,
{
}

proof fn lemma_replay_wf(s: DecoderState, init: Seq<u8>, k: int, acc: Seq<SpecFrame>)
    requires
        s.decided,
        s.initial.len() == 0,
        s.pending.len() <= MAX_RECORD_BYTES,
    ensures
        replay(s, init, k, acc) matches Ok((s1, _)) ==> decoder_wf(s1) && s1.decided,
    decreases init.len() - k,
{
    if 0 <= k < init.len() {
        lemma_payload_wf(s, init[k], k as usize);
        match payload_step(s, init[k], k as usize) {
            Err(e) => {},
            Ok((s1, f)) => {
                lemma_replay_wf(s1, init, k + 1, acc + f);
            },
        }
    }
}

/// Replaying with an accumulator appends to it.
proof fn lemma_replay_acc(s: DecoderState, init: Seq<u8>, k: int, acc: Seq<SpecFrame>)
    ensures
        match replay(s, init, k, seq![]) {
            Ok((s1, f)) => replay(s, init, k, acc) == Ok::<_, TextDecodeErrorV1>((s1, acc + f)),
            Err(e) => replay(s, init, k, acc) == Err::<(DecoderState, Seq<SpecFrame>), _>(e),
        },
    decreases init.len() - k,
{
    if k < 0 || k >= init.len() {
        assert(acc + seq![] =~= acc);
    } else {
        match payload_step(s, init[k], k as usize) {
            Err(e) => {},
            Ok((s1, f)) => {
                lemma_replay_acc(s1, init, k + 1, acc + f);
                lemma_replay_acc(s1, init, k + 1, seq![] + f);
                assert(seq![] + f =~= f);
                match replay(s1, init, k + 1, seq![]) {
                    Ok((s2, g)) => {
                        assert(acc + f + g =~= acc + (f + g));
                        lemma_replay_acc(s1, init, k + 1, f);
                    },
                    Err(e) => {},
                }
            },
        }
    }
}

/// The bytes that encode a record: its UTF-8 text, and CRLF when it is terminated.
pub open spec fn frame_bytes(f: SpecFrame) -> Seq<u8> {
    encode_utf8(f.text) + if f.terminated { seq![13u8, 10u8] } else { seq![] }
}

/// Encodes `frames[i..]` after `acc`: only the last record may be unterminated, and no text
/// may hold NUL.
pub open spec fn encode_from(frames: Seq<SpecFrame>, i: int, acc: Seq<u8>) -> Result<Seq<u8>, TextEncodeErrorV1>
    decreases frames.len() - i,
{
    if i < 0 || i >= frames.len() {
        Ok(acc)
    } else if i + 1 < frames.len() && !frames[i].terminated {
        Err(TextEncodeErrorV1::NonFinalUnterminated { index: i as usize })
    } else if has_char(frames[i].text, '\0') {
        Err(TextEncodeErrorV1::Nul { index: i as usize })
    } else {
        encode_from(frames, i + 1, acc + frame_bytes(frames[i]))
    }
}

pub open spec fn spec_encode(frames: Seq<SpecFrame>) -> Result<Seq<u8>, TextEncodeErrorV1> {
    encode_from(frames, 0, seq![])
}

pub(crate) fn append_bytes(v: &mut Vec<u8>, b: &[u8])
    ensures
        final(v)@ == old(v)@ + b@,
{
    let mut i: usize = 0;
    while i < b.len()
        invariant
            i <= b@.len(),
            v@ == old(v)@ + b@.take(i as int),
        decreases b.len() - i,
    {
        v.push(b[i]);
        i += 1;
        assert(v@ =~= old(v)@ + b@.take(i as int));
    }
    assert(b@.take(i as int) =~= b@);
}

/// Encodes records as UTF-8 text with CRLF terminators.
pub fn encode_record_stream(records: &[RecordFrameV1]) -> (r: Result<Vec<u8>, TextEncodeErrorV1>)
    ensures
        match r {
            Ok(v) => spec_encode(frames_view(records@)) == Ok::<_, TextEncodeErrorV1>(v@),
            Err(e) => spec_encode(frames_view(records@)) == Err::<Seq<u8>, _>(e),
        },
{
    let ghost fs = frames_view(records@);
    let mut encoded: Vec<u8> = Vec::new();
    let mut index: usize = 0;
    while index < records.len()
        invariant
            index <= records@.len(),
            fs == frames_view(records@),
            spec_encode(fs) == encode_from(fs, index as int, encoded@),
        decreases records.len() - index,
    {
        let record = &records[index];
        assert(fs[index as int] == record@);
        if index + 1 < records.len() && !record.terminated {
            return Err(TextEncodeErrorV1::NonFinalUnterminated { index });
        }
        let chars = chars_of(record.text.as_str());
        if contains_char(chars.as_slice(), '\0') {
            return Err(TextEncodeErrorV1::Nul { index });
        }
        let ghost prev = encoded@;
        append_bytes(&mut encoded, record.text.as_str().as_bytes());
        if record.terminated {
            let ghost before = encoded@;
            encoded.push(13);
            encoded.push(10);
            assert(encoded@ =~= before + seq![13u8, 10u8]);
        }
        assert(encoded@ =~= prev + frame_bytes(record@));
        index += 1;
    }
    Ok(encoded)
}

#[verifier::external_type_specification]
#[verifier::external_body]
pub struct ExIoErrorKind(std::io::ErrorKind);

/// `ErrorKind::clone`: std derives `Clone` and `Copy` for `ErrorKind`, so a clone is the same value.
pub assume_specification[ <std::io::ErrorKind as Clone>::clone ](kind: &std::io::ErrorKind) -> (r: std::io::ErrorKind)
    ensures
        r == *kind,
;

#[derive(Clone, Debug, Eq, PartialEq)]
pub enum TextStreamWriteErrorV1 {
    Encode(TextEncodeErrorV1),
    Io { kind: std::io::ErrorKind },
}

#[derive(Clone, Debug, Eq, PartialEq)]
pub enum TextReadErrorV1 {
    Decode(TextDecodeErrorV1),
    Io { kind: std::io::ErrorKind },
}

/// The writer's state: the record held back until the next one shows it was not the last,
/// and the index the next record gets.
pub struct SpecWriter {
    pub pending: Option<(usize, SpecFrame)>,
    pub next_index: usize,
}

/// Frames records for a byte sink: each record is held until the next one arrives, so that
/// only the last record of a stream can go out unterminated. The records it hands back are
/// the ones to write, in order.
pub struct RecordStreamWriterV1 {
    pending: Option<(usize, RecordFrameV1)>,
    next_index: usize,
}

impl View for RecordStreamWriterV1 {
    type V = SpecWriter;

    closed spec fn view(&self) -> SpecWriter {
        SpecWriter {
            pending: match self.pending {
                Some((i, f)) => Some((i, f@)),
                None => None,
            },
            next_index: self.next_index,
        }
    }
}

pub open spec fn opt_frame_view(f: Option<RecordFrameV1>) -> Option<SpecFrame> {
    match f {
        Some(f) => Some(f@),
        None => None,
    }
}

/// What `push` does with `frame`: the error, or the record to write now and the new state.
pub open spec fn spec_writer_push(w: SpecWriter, frame: SpecFrame) -> Result<(Option<SpecFrame>, SpecWriter), TextStreamWriteErrorV1> {
    if has_char(frame.text, '\0') {
        Err(TextStreamWriteErrorV1::Encode(TextEncodeErrorV1::Nul { index: w.next_index }))
    } else if w.pending is Some && !w.pending.unwrap().1.terminated {
        Err(TextStreamWriteErrorV1::Encode(TextEncodeErrorV1::NonFinalUnterminated { index: w.pending.unwrap().0 }))
    } else {
        Ok((
            match w.pending {
                Some((_, p)) => Some(p),
                None => None,
            },
            SpecWriter { pending: Some((w.next_index, frame)), next_index: sat_add(w.next_index, 1) },
        ))
    }
}

impl RecordStreamWriterV1 {
    pub fn new() -> (r: Self)
        ensures
            r@ == (SpecWriter { pending: None, next_index: 0 }),
    {
        RecordStreamWriterV1 { pending: None, next_index: 0 }
    }

    /// Queues `frame`; gives back the record it releases for writing, if any. A refused record
    /// leaves the writer as it was.
    pub fn push(&mut self, frame: RecordFrameV1) -> (r: Result<Option<RecordFrameV1>, TextStreamWriteErrorV1>)
        ensures
            match spec_writer_push(old(self)@, frame@) {
                Ok((out, w)) => r is Ok && opt_frame_view(r.unwrap()) == out && final(self)@ == w,
                Err(e) => r == Err::<Option<RecordFrameV1>, _>(e) && final(self)@ == old(self)@,
            },
    {
        let chars = chars_of(frame.text.as_str());
        if contains_char(chars.as_slice(), '\0') {
            return Err(TextStreamWriteErrorV1::Encode(TextEncodeErrorV1::Nul { index: self.next_index }));
        }
        if let Some((index, pending)) = &self.pending {
            if !pending.terminated {
                return Err(TextStreamWriteErrorV1::Encode(TextEncodeErrorV1::NonFinalUnterminated { index: *index }));
            }
        }
        let index = self.next_index;
        self.next_index = self.next_index.saturating_add(1);
        let previous = self.pending.take();
        self.pending = Some((index, frame));
        match previous {
            Some((_, p)) => Ok(Some(p)),
            None => Ok(None),
        }
    }

    /// Releases the held record when it is terminated: `Some(out)` means write `out` (if any)
    /// and flush; `None` means the held record is unterminated and stays.
    pub fn flush_terminated(&mut self) -> (r: Option<Option<RecordFrameV1>>)
        ensures
            match old(self)@.pending {
                Some((_, p)) => if p.terminated {
                    r matches Some(out) && opt_frame_view(out) == Some(p)
                        && final(self)@ == (SpecWriter { pending: None, ..old(self)@ })
                } else {
                    r is None && final(self)@ == old(self)@
                },
                None => r == Some(None::<RecordFrameV1>) && final(self)@ == old(self)@,
            },
    {
        if let Some((_, pending)) = &self.pending {
            if !pending.terminated {
                return None;
            }
        }
        match self.pending.take() {
            Some((_, p)) => Some(Some(p)),
            None => Some(None),
        }
    }

    /// Ends the stream: the held record, if any, is the last one to write.
    pub fn finish(self) -> (r: Option<RecordFrameV1>)
        ensures
            opt_frame_view(r) == match self@.pending {
                Some((_, p)) => Some(p),
                None => None,
            },
    {
        match self.pending {
            Some((_, p)) => Some(p),
            None => None,
        }
    }
}

/// What the reader does next: hand out a record (`None` at the end of the stream), or ask
/// for more input.
pub enum ReadStepV1 {
    Record(Option<RecordFrameV1>),
    NeedInput,
}

pub open spec fn last_frame(fs: Seq<SpecFrame>) -> Option<SpecFrame> {
    if fs.len() > 0 { Some(fs.last()) } else { None }
}

/// Feeds `buf[cursor..]` byte by byte until a record comes out or an error occurs; the
/// decoder state and cursor after it, and what came out (`None`: the buffer ran out).
pub open spec fn scan_buffer(d: DecoderState, buf: Seq<u8>, cursor: int) -> (DecoderState, int, Option<Result<SpecFrame, TextDecodeErrorV1>>)
    decreases buf.len() - cursor,
{
    if cursor < 0 || cursor >= buf.len() {
        (d, cursor, None)
    } else {
        let (d1, r) = spec_push(d, seq![buf[cursor]]);
        match r {
            Err(e) => (d1, cursor + 1, Some(Err(e))),
            Ok(fs) => if fs.len() > 0 {
                (d1, cursor + 1, Some(Ok(fs.last())))
            } else {
                scan_buffer(d1, buf, cursor + 1)
            },
        }
    }
}

/// The reader's state.
pub struct SpecReader {
    pub decoder: DecoderState,
    pub buffer: Seq<u8>,
    pub cursor: int,
    pub eof: bool,
    pub finished: bool,
}

/// Reads line records from a byte source: it decodes the bytes it was given and asks for
/// more when they run out.
pub struct Utf8RecordReaderV1 {
    decoder: Utf8RecordDecoderV1,
    buffer: Vec<u8>,
    cursor: usize,
    eof: bool,
    finished: bool,
}

impl View for Utf8RecordReaderV1 {
    type V = SpecReader;

    closed spec fn view(&self) -> SpecReader {
        SpecReader {
            decoder: self.decoder@,
            buffer: self.buffer@,
            cursor: self.cursor as int,
            eof: self.eof,
            finished: self.finished,
        }
    }
}

impl Utf8RecordReaderV1 {
    pub closed spec fn wf(&self) -> bool {
        self.decoder.wf() && self.cursor <= self.buffer@.len()
    }

    pub fn new() -> (r: Self)
        ensures
            r.wf(),
            r@ == (SpecReader { decoder: fresh_decoder(), buffer: seq![], cursor: 0, eof: false, finished: false }),
    {
        let r = Utf8RecordReaderV1 { decoder: Utf8RecordDecoderV1::new(), buffer: Vec::new(), cursor: 0, eof: false, finished: false };
        assert(r.buffer@ =~= seq![]);
        r
    }

    /// The next record, the end of the stream, or a request for input.
    pub fn next_record(&mut self) -> (r: Result<ReadStepV1, TextReadErrorV1>)
        requires
            old(self).wf(),
        ensures
            final(self).wf(),
            old(self)@.finished ==> (r matches Ok(ReadStepV1::Record(None)) && final(self)@ == old(self)@),
            !old(self)@.finished ==> {
                let (d1, c1, out) = scan_buffer(old(self)@.decoder, old(self)@.buffer, old(self)@.cursor);
                match out {
                    Some(Err(e)) => r == Err::<ReadStepV1, _>(TextReadErrorV1::Decode(e))
                        && final(self)@ == (SpecReader { decoder: d1, cursor: c1, ..old(self)@ }),
                    Some(Ok(f)) => r matches Ok(ReadStepV1::Record(Some(g))) && g@ == f
                        && final(self)@ == (SpecReader { decoder: d1, cursor: c1, ..old(self)@ }),
                    None => if old(self)@.eof {
                        let (d2, fin) = spec_finish(d1);
                        &&& final(self)@ == (SpecReader { decoder: d2, cursor: c1, finished: true, ..old(self)@ })
                        &&& match fin {
                            Err(e) => r == Err::<ReadStepV1, _>(TextReadErrorV1::Decode(e)),
                            Ok(fs) => r matches Ok(ReadStepV1::Record(g)) && opt_frame_view(g) == last_frame(fs),
                        }
                    } else {
                        r matches Ok(ReadStepV1::NeedInput)
                            && final(self)@ == (SpecReader { decoder: d1, cursor: c1, ..old(self)@ })
                    },
                }
            },
    {
        if self.finished {
            return Ok(ReadStepV1::Record(None));
        }
        while self.cursor < self.buffer.len()
            invariant
                self.wf(),
                !self.finished,
                !old(self)@.finished,
                self.buffer@ == old(self)@.buffer,
                self.eof == old(self)@.eof,
                scan_buffer(old(self)@.decoder, old(self)@.buffer, old(self)@.cursor)
                    == scan_buffer(self.decoder@, self.buffer@, self.cursor as int),
            decreases self.buffer.len() - self.cursor,
        {
            let byte = self.buffer[self.cursor];
            self.cursor += 1;
            let one: Vec<u8> = vec![byte];
            assert(one@ =~= seq![self.buffer@[self.cursor - 1]]);
            match self.decoder.push(one.as_slice()) {
                Err(e) => {
                    return Err(TextReadErrorV1::Decode(e));
                },
                Ok(mut records) => {
                    let ghost fs = frames_view(records@);
                    if records.len() > 0 {
                        let record = records.pop().unwrap();
                        assert(record@ == fs.last());
                        return Ok(ReadStepV1::Record(Some(record)));
                    }
                },
            }
        }
        if self.eof {
            self.finished = true;
            match self.decoder.finish() {
                Err(e) => {
                    return Err(TextReadErrorV1::Decode(e));
                },
                Ok(mut records) => {
                    let ghost fs = frames_view(records@);
                    if records.len() > 0 {
                        let record = records.pop().unwrap();
                        assert(record@ == fs.last());
                        return Ok(ReadStepV1::Record(Some(record)));
                    }
                    return Ok(ReadStepV1::Record(None));
                },
            }
        }
        Ok(ReadStepV1::NeedInput)
    }

    /// Hands the reader what a read of its source gave: bytes, none at the end of the source,
    /// or the read's error, which ends the stream.
    pub fn supply(&mut self, read: Result<Vec<u8>, std::io::ErrorKind>) -> (r: Result<(), TextReadErrorV1>)
        requires
            old(self).wf(),
        ensures
            final(self).wf(),
            match read {
                Ok(bytes) => r is Ok && if bytes@.len() == 0 {
                    final(self)@ == (SpecReader { eof: true, ..old(self)@ })
                } else {
                    final(self)@ == (SpecReader { buffer: bytes@, cursor: 0, ..old(self)@ })
                },
                Err(kind) => r == Err::<(), _>(TextReadErrorV1::Io { kind })
                    && final(self)@ == (SpecReader { finished: true, ..old(self)@ }),
            },
    {
        match read {
            Ok(bytes) => {
                if bytes.len() == 0 {
                    self.eof = true;
                } else {
                    self.buffer = bytes;
                    self.cursor = 0;
                }
                Ok(())
            },
            Err(kind) => {
                self.finished = true;
                Err(TextReadErrorV1::Io { kind })
            },
        }
    }
}

proof fn lemma_push_bytes_acc(s: DecoderState, bytes: Seq<u8>, i: int, acc: Seq<SpecFrame>)
    ensures
        match push_bytes(s, bytes, i, seq![]) {
            Ok((s1, f)) => push_bytes(s, bytes, i, acc) == Ok::<_, TextDecodeErrorV1>((s1, acc + f)),
            Err(e) => push_bytes(s, bytes, i, acc) == Err::<(DecoderState, Seq<SpecFrame>), _>(e),
        },
    decreases bytes.len() - i,
{
    if i < 0 || i >= bytes.len() {
        assert(acc + seq![] =~= acc);
    } else {
        match byte_step(s, bytes[i]) {
            Err(e) => {},
            Ok((s1, f)) => {
                lemma_push_bytes_acc(s1, bytes, i + 1, acc + f);
                lemma_push_bytes_acc(s1, bytes, i + 1, seq![] + f);
                lemma_push_bytes_acc(s1, bytes, i + 1, f);
                assert(seq![] + f =~= f);
                match push_bytes(s1, bytes, i + 1, seq![]) {
                    Ok((s2, g)) => {
                        assert(acc + f + g =~= acc + (f + g));
                    },
                    Err(e) => {},
                }
            },
        }
    }
}

proof fn lemma_push_bytes_shift(s: DecoderState, a: Seq<u8>, b: Seq<u8>, j: int, acc: Seq<SpecFrame>)
    requires
        0 <= j,
    ensures
        push_bytes(s, a + b, a.len() + j, acc) == push_bytes(s, b, j, acc),
    decreases b.len() - j,
{
    if j < b.len() {
        assert((a + b)[a.len() + j] == b[j]);
        match byte_step(s, b[j]) {
            Err(e) => {},
            Ok((s1, f)) => {
                lemma_push_bytes_shift(s1, a, b, j + 1, acc + f);
            },
        }
    }
}

proof fn lemma_push_bytes_split(s: DecoderState, a: Seq<u8>, b: Seq<u8>, i: int, acc: Seq<SpecFrame>)
    requires
        0 <= i <= a.len(),
    ensures
        push_bytes(s, a + b, i, acc) == match push_bytes(s, a, i, acc) {
            Ok((s1, f1)) => push_bytes(s1, b, 0, f1),
            Err(e) => Err(e),
        },
    decreases a.len() - i,
{
    if i == a.len() {
        lemma_push_bytes_shift(s, a, b, 0, acc);
    } else {
        assert((a + b)[i] == a[i]);
        match byte_step(s, a[i]) {
            Err(e) => {},
            Ok((s1, f)) => {
                lemma_push_bytes_split(s1, a, b, i + 1, acc + f);
            },
        }
    }
}

proof fn lemma_replay_flags(s: DecoderState, init: Seq<u8>, k: int, acc: Seq<SpecFrame>)
    ensures
        replay(s, init, k, acc) matches Ok((s1, _)) ==> s1.failed == s.failed && s1.finished == s.finished,
    decreases init.len() - k,
{
    if 0 <= k < init.len() {
        match payload_step(s, init[k], k as usize) {
            Err(e) => {},
            Ok((s1, f)) => {
                lemma_replay_flags(s1, init, k + 1, acc + f);
            },
        }
    }
}

proof fn lemma_push_bytes_flags(s: DecoderState, bytes: Seq<u8>, i: int, acc: Seq<SpecFrame>)
    ensures
        push_bytes(s, bytes, i, acc) matches Ok((s1, _)) ==> s1.failed == s.failed && s1.finished == s.finished,
    decreases bytes.len() - i,
{
    if 0 <= i < bytes.len() {
        let s0 = DecoderState { next_offset: sat_add(s.next_offset, 1), ..s };
        lemma_replay_flags(DecoderState { initial: seq![], decided: true, ..s0 }, s0.initial.push(bytes[i]), 0, seq![]);
        match byte_step(s, bytes[i]) {
            Err(e) => {},
            Ok((s1, f)) => {
                lemma_push_bytes_flags(s1, bytes, i + 1, acc + f);
            },
        }
    }
}

/// Pushing `a` and then `b` into a decoder gives the records and the state that pushing
/// `a + b` at once gives: how the stream is cut into chunks does not matter.
pub proof fn law_push_chunking(s: DecoderState, a: Seq<u8>, b: Seq<u8>)
    requires
        spec_push(s, a).1 is Ok,
    ensures
        ({
            let (s1, r1) = spec_push(s, a);
            let (s2, r2) = spec_push(s1, b);
            let (s3, r3) = spec_push(s, a + b);
            &&& s3 == s2
            &&& match r2 {
                Ok(f2) => r3 == Ok::<_, TextDecodeErrorV1>(r1.unwrap() + f2),
                Err(e) => r3 == Err::<Seq<SpecFrame>, _>(e),
            }
        }),
{
    lemma_push_bytes_split(s, a, b, 0, seq![]);
    lemma_push_bytes_flags(s, a, 0, seq![]);
    match push_bytes(s, a, 0, seq![]) {
        Ok((s1, f1)) => {
            lemma_push_bytes_acc(s1, b, 0, f1);
        },
        Err(e) => {},
    }
}


/// Only the last record of a stream can go out unterminated: every record the writer
/// releases for writing, before the end, is terminated.
pub proof fn law_released_records_terminated(w: SpecWriter, frame: SpecFrame)
    ensures
        spec_writer_push(w, frame) matches Ok((Some(released), _)) ==> released.terminated,
{
}

/// Pushing `fs[..k]` into the writer `w`: the records released for writing, in order, and the
/// writer after it, or the first refusal.
pub open spec fn writer_feed(w: SpecWriter, fs: Seq<SpecFrame>, k: int) -> Result<(Seq<SpecFrame>, SpecWriter), TextStreamWriteErrorV1>
    decreases k,
{
    if k <= 0 {
        Ok((seq![], w))
    } else {
        match writer_feed(w, fs, k - 1) {
            Err(e) => Err(e),
            Ok((out, w1)) => match spec_writer_push(w1, fs[k - 1]) {
                Err(e) => Err(e),
                Ok((released, w2)) => Ok((
                    match released {
                        Some(f) => out.push(f),
                        None => out,
                    },
                    w2,
                )),
            },
        }
    }
}

/// Everything a writer writes: what it released, then at the end what it still holds.
pub open spec fn writer_output(out: Seq<SpecFrame>, w: SpecWriter) -> Seq<SpecFrame> {
    match w.pending {
        Some((_, p)) => out.push(p),
        None => out,
    }
}

proof fn lemma_writer_feed(fs: Seq<SpecFrame>, k: int)
    requires
        0 <= k <= fs.len(),
        writer_feed(SpecWriter { pending: None, next_index: 0 }, fs, k) is Ok,
    ensures
        ({
            let (out, w) = writer_feed(SpecWriter { pending: None, next_index: 0 }, fs, k).unwrap();
            &&& writer_output(out, w) == fs.take(k)
            &&& (k == 0 ==> w.pending is None)
            &&& (k > 0 ==> (w.pending matches Some((_, p)) && p == fs[k - 1]))
            &&& forall|j: int| 0 <= j < k - 1 ==> (#[trigger] fs[j]).terminated
            &&& forall|j: int| 0 <= j < k ==> !has_char((#[trigger] fs[j]).text, '\0')
        }),
    decreases k,
{
    let w0 = SpecWriter { pending: None, next_index: 0 };
    if k == 0 {
        assert(fs.take(0) =~= Seq::<SpecFrame>::empty());
    } else {
        lemma_writer_feed(fs, k - 1);
        let (out1, w1) = writer_feed(w0, fs, k - 1).unwrap();
        assert(writer_output(out1, w1) == fs.take(k - 1));
        let (out, w) = writer_feed(w0, fs, k).unwrap();
        assert(fs.take(k) =~= fs.take(k - 1).push(fs[k - 1]));
        if k > 1 {
            assert(w1.pending matches Some((_, p)) && p == fs[k - 2]);
        }
    }
}

proof fn lemma_encode_ok(fs: Seq<SpecFrame>, i: int, acc: Seq<u8>)
    requires
        0 <= i <= fs.len(),
        forall|j: int| 0 <= j < fs.len() - 1 ==> (#[trigger] fs[j]).terminated,
        forall|j: int| 0 <= j < fs.len() ==> !has_char((#[trigger] fs[j]).text, '\0'),
    ensures
        encode_from(fs, i, acc) is Ok,
    decreases fs.len() - i,
{
    if i < fs.len() {
        assert(!has_char(fs[i].text, '\0'));
        if i + 1 < fs.len() {
            assert(fs[i].terminated);
        }
        lemma_encode_ok(fs, i + 1, acc + frame_bytes(fs[i]));
    }
}

/// The streaming writer writes what batch encoding would: when every record pushed into a
/// new writer is taken, the records it releases and then holds at the end are exactly the
/// records pushed, in order, and encoding them all at once succeeds.
pub proof fn law_writer_matches_batch(fs: Seq<SpecFrame>)
    requires
        writer_feed(SpecWriter { pending: None, next_index: 0 }, fs, fs.len() as int) is Ok,
    ensures
        ({
            let (out, w) = writer_feed(SpecWriter { pending: None, next_index: 0 }, fs, fs.len() as int).unwrap();
            writer_output(out, w) == fs
        }),
        spec_encode(fs) is Ok,
{
    lemma_writer_feed(fs, fs.len() as int);
    assert(fs.take(fs.len() as int) =~= fs);
    lemma_encode_ok(fs, 0, seq![]);
}

} // verus!
