//! What the terminal knows of the shell's prompt and of the line being edited at it.

use vstd::prelude::*;
use crate::interpreter::{ActiveShell, LineEvidence, PreparedRequestV1};
use crate::submission::{
    fresh_request_id, is_request_id, submission_accepted, prepared_request, spec_submission_kind, submission_error, FrontendDecisionV1, InterpreterSession,
    PrepareSubmissionErrorV1, PrepareSubmissionV1, SpecDecision, SpecDecisionKind, SpecSession,
};
use crate::text::{utf8_len, utf8_width};
use crate::transport::{
    parse_editor_readiness_frame, spec_parse_readiness, EditorAdapterCapabilityV1, EditorLocationKindV1,
    EditorReadinessFrameV1, SpecReadinessFrame,
};

verus! {

#[derive(Clone, Copy, Debug, Eq, PartialEq, Structural)]
pub struct EditorSnapshotV1 {
    pub character_count: usize,
    pub cursor: usize,
}

#[derive(Clone, Debug, Eq, PartialEq)]
pub enum TerminalInputActionV1 {
    Forward { data: String },
    Prepared { decision: FrontendDecisionV1, editor: EditorSnapshotV1 },
}

#[derive(Clone, Debug, Eq, PartialEq)]
pub enum TerminalPrepareErrorV1 {
    PromptNotValidated,
    Interpreter(PrepareSubmissionErrorV1),
}

pub const MAX_MARKER_BYTES: usize = 512;
pub const MAX_INPUT_ESCAPE_BYTES: usize = 64;
pub const MAX_MIRRORED_LINE_BYTES: usize = 16384;

/// The prefix of the prompt marker that the shell's prompt writes.
pub open spec fn marker_prefix() -> Seq<char> {
    seq!['\u{1b}', ']', '7', '7', '7', ';', 'w', 'i', 'n', 'g', 'm', 'a', 'n', '-', 'p', 'r', 'o', 'm', 'p', 't', ';']
}

/// The characters of the marker prefix.
fn marker_chars() -> (r: Vec<char>)
    ensures
        r@ == marker_prefix(),
{
    let r = vec!['\u{1b}', ']', '7', '7', '7', ';', 'w', 'i', 'n', 'g', 'm', 'a', 'n', '-', 'p', 'r', 'o', 'm', 'p', 't', ';'];
    assert(r@ =~= marker_prefix());
    r
}

/// What the terminal tracks of a session.
pub struct SpecTerminal {
    pub session_id: u64,
    pub expected_shell: ActiveShell,
    pub integration_nonce: Seq<char>,
    pub expected_sequence: u64,
    pub editing_reliable: bool,
    pub readiness_cycle_dirty: bool,
    pub accept_pty_readiness: bool,
    pub interpreter: Option<SpecSession>,
    pub pending_output: Seq<char>,
    pub input_buffer: Seq<char>,
    pub input_cursor: nat,
    pub input_reliable: bool,
    pub input_escape: Seq<char>,
    pub ignore_next_line_feed: bool,
}

pub open spec fn sat_add_u64(a: u64, b: int) -> u64 {
    if a + b > u64::MAX { u64::MAX } else { (a + b) as u64 }
}

/// Whether a readiness frame announces the prompt the terminal waits for.
pub open spec fn readiness_matches(s: SpecTerminal, f: SpecReadinessFrame) -> bool {
    &&& s.expected_shell != ActiveShell::Cmd
    &&& !s.readiness_cycle_dirty
    &&& f.nonce == s.integration_nonce
    &&& f.sequence == s.expected_sequence
    &&& f.shell == s.expected_shell
    &&& f.shell_depth == 0
    &&& f.location_kind == EditorLocationKindV1::FileSystem
    &&& f.adapter_capability == EditorAdapterCapabilityV1::PsReadLineReplaceV1
}

/// The state at a validated prompt: editing is tracked from an empty line.
pub open spec fn at_prompt(s: SpecTerminal, interpreter: SpecSession) -> SpecTerminal {
    SpecTerminal {
        interpreter: Some(interpreter),
        editing_reliable: true,
        readiness_cycle_dirty: false,
        input_buffer: seq![],
        input_cursor: 0,
        input_reliable: true,
        input_escape: seq![],
        ignore_next_line_feed: false,
        ..s
    }
}

/// What a readiness frame does: the new state, and whether it was taken.
pub open spec fn spec_apply_readiness(s: SpecTerminal, f: SpecReadinessFrame) -> (SpecTerminal, bool) {
    if !readiness_matches(s, f) {
        (s, false)
    } else {
        match s.interpreter {
            Some(i) => if s.expected_sequence <= i.command_sequence {
                (s, false)
            } else {
                (at_prompt(s, SpecSession {
                    session_id: i.session_id,
                    command_sequence: s.expected_sequence,
                    shell: s.expected_shell,
                    submission_prepared: false,
                    prepared: Map::empty(),
                }), true)
            },
            None => (at_prompt(s, SpecSession {
                session_id: s.session_id,
                command_sequence: s.expected_sequence,
                shell: s.expected_shell,
                submission_prepared: false,
                prepared: Map::empty(),
            }), true),
        }
    }
}

/// The marker prefix starts at `i` of `p`.
pub open spec fn marker_at(p: Seq<char>, i: int) -> bool {
    0 <= i && i + marker_prefix().len() <= p.len() && p.subrange(i, i + marker_prefix().len()) == marker_prefix()
}

/// The first index at or after `i` where the marker prefix starts, or -1.
pub open spec fn first_marker(p: Seq<char>, i: int) -> int
    decreases p.len() - i,
{
    if i < 0 || i >= p.len() || i + marker_prefix().len() > p.len() {
        -1
    } else if marker_at(p, i) {
        i
    } else {
        first_marker(p, i + 1)
    }
}

/// The first index at or after `i` of the marker terminator (BEL), or -1.
pub open spec fn first_bell(p: Seq<char>, i: int) -> int
    decreases p.len() - i,
{
    if i < 0 || i >= p.len() {
        -1
    } else if p[i] == '\u{7}' {
        i
    } else {
        first_bell(p, i + 1)
    }
}

/// The longest `k <= n` for which `p` ends with the first `k` characters of the marker prefix.
pub open spec fn partial_from(p: Seq<char>, n: int) -> int
    decreases n,
{
    if n <= 0 {
        0
    } else if n <= p.len() && p.skip(p.len() - n) == marker_prefix().take(n) {
        n
    } else {
        partial_from(p, n - 1)
    }
}

/// How much of the end of `p` may be the start of a marker still arriving.
pub open spec fn partial_prefix_suffix(p: Seq<char>) -> int {
    partial_from(p, if p.len() < marker_prefix().len() - 1 { p.len() as int } else { marker_prefix().len() - 1 })
}

/// What a complete marker frame does to the state, and whether it was taken as a marker.
pub open spec fn apply_marker(s: SpecTerminal, frame: Seq<char>) -> (SpecTerminal, bool) {
    let m = marker_prefix().len();
    if frame.len() >= m + 1 && frame.take(m as int) == marker_prefix() && frame.last() == '\u{7}' {
        match spec_parse_readiness(frame.subrange(m as int, frame.len() - 1)) {
            Ok(f) => spec_apply_readiness(s, f),
            Err(_) => (s, false),
        }
    } else {
        (s, false)
    }
}

/// Scans pending output for prompt markers: the state after it (with what stays pending),
/// and the text shown, appended to `visible`.
pub open spec fn scan_output(s: SpecTerminal, p: Seq<char>, visible: Seq<char>) -> (SpecTerminal, Seq<char>)
    decreases p.len(),
{
    let m = first_marker(p, 0);
    if m < 0 || m > p.len() {
        let keep = partial_prefix_suffix(p);
        (SpecTerminal { pending_output: p.skip(p.len() - keep), ..s }, visible + p.take(p.len() - keep))
    } else {
        let shown = visible + p.take(m);
        let q = p.skip(m);
        let t = first_bell(q, 0);
        if t < 0 || t >= q.len() {
            if q.len() > 0 && utf8_len(q) > MAX_MARKER_BYTES {
                scan_output(s, q.skip(1), shown + q.take(1))
            } else {
                (SpecTerminal { pending_output: q, ..s }, shown)
            }
        } else {
            let frame = q.take(t + 1);
            let (s2, taken) = apply_marker(s, frame);
            scan_output(s2, q.skip(t + 1), if taken { shown } else { shown + frame })
        }
    }
}

/// What `ingest_pty_output` does with a chunk: the new state and the text to show.
pub open spec fn spec_ingest(s: SpecTerminal, chunk: Seq<char>) -> (SpecTerminal, Seq<char>) {
    if !s.accept_pty_readiness {
        (s, chunk)
    } else {
        scan_output(s, s.pending_output + chunk, seq![])
    }
}

/// An action for the terminal input: bytes to forward to the shell, or a prepared submission.
pub enum SpecAction {
    Forward { data: Seq<char> },
    Prepared { decision: SpecDecision, editor: EditorSnapshotV1 },
}

impl View for TerminalInputActionV1 {
    type V = SpecAction;

    open spec fn view(&self) -> SpecAction {
        match self {
            TerminalInputActionV1::Forward { data } => SpecAction::Forward { data: data@ },
            TerminalInputActionV1::Prepared { decision, editor } => SpecAction::Prepared { decision: decision@, editor: *editor },
        }
    }
}

pub open spec fn actions_view(v: Seq<TerminalInputActionV1>) -> Seq<SpecAction> {
    v.map_values(|a: TerminalInputActionV1| a@)
}

/// Appends forwarded text, joining it to a forward that ends the list.
pub open spec fn push_forward(actions: Seq<SpecAction>, d: Seq<char>) -> Seq<SpecAction> {
    if actions.len() > 0 && actions.last() is Forward {
        actions.drop_last().push(SpecAction::Forward { data: actions.last()->data + d })
    } else {
        actions.push(SpecAction::Forward { data: d })
    }
}

/// What the interpreter does with a submission it accepts, when a prepared request gets `id`.
pub open spec fn interp_prepare(i: SpecSession, command_sequence: u64, familiar_enabled: bool, raw: Seq<char>, id: Seq<char>)
    -> (SpecSession, SpecDecision) {
    match spec_submission_kind(familiar_enabled, LineEvidence::Reliable, raw) {
        None => (
            SpecSession { submission_prepared: true, ..i },
            SpecDecision { session_id: i.session_id, command_sequence, decision: SpecDecisionKind::PassThrough { raw_line: raw } },
        ),
        Some(kind) => (
            SpecSession { submission_prepared: true, prepared: i.prepared.insert(id, prepared_request(kind)), ..i },
            SpecDecision {
                session_id: i.session_id,
                command_sequence,
                decision: SpecDecisionKind::InvokePrepared { request_id: id, display_line: raw },
            },
        ),
    }
}

/// What submitting `raw` at the tracked prompt does, when a prepared request gets `id`.
pub open spec fn spec_terminal_prepare(s: SpecTerminal, raw: Seq<char>, familiar_enabled: bool, id: Seq<char>)
    -> (SpecTerminal, Result<SpecDecision, TerminalPrepareErrorV1>) {
    if !s.editing_reliable || !s.input_reliable {
        (s, Err(TerminalPrepareErrorV1::PromptNotValidated))
    } else {
        match s.interpreter {
            None => (s, Err(TerminalPrepareErrorV1::PromptNotValidated)),
            Some(i) => match submission_error(i, s.session_id, s.expected_sequence, s.expected_shell) {
                Some(e) => (s, Err(TerminalPrepareErrorV1::Interpreter(e))),
                None => {
                    let (i2, d) = interp_prepare(i, s.expected_sequence, familiar_enabled, raw, id);
                    (
                        SpecTerminal {
                            interpreter: Some(i2),
                            editing_reliable: false,
                            expected_sequence: sat_add_u64(s.expected_sequence, 1),
                            ..s
                        },
                        Ok(d),
                    )
                },
            },
        }
    }
}

/// Whether an escape sequence typed at the prompt is complete.
pub open spec fn escape_complete(e: Seq<char>) -> bool {
    if e.len() < 2 {
        false
    } else if e[1] == '[' {
        e.len() >= 3 && 0x40 <= (e.last() as u32) && (e.last() as u32) <= 0x7e
    } else if e[1] == 'O' {
        e.len() >= 3
    } else if e[1] == ']' {
        e.last() == '\u{7}' || (e.len() >= 2 && e[e.len() - 2] == '\u{1b}' && e.last() == '\\')
    } else {
        true
    }
}

/// What a complete editing sequence does to the mirrored line, and whether it was understood.
pub open spec fn apply_editing(s: SpecTerminal, e: Seq<char>) -> (SpecTerminal, bool) {
    let n = s.input_buffer.len();
    if !s.input_reliable {
        (s, false)
    } else if e == "\u{1b}[D"@ {
        (SpecTerminal { input_cursor: if s.input_cursor > 0 { (s.input_cursor - 1) as nat } else { 0 }, ..s }, true)
    } else if e == "\u{1b}[C"@ {
        (SpecTerminal { input_cursor: if s.input_cursor + 1 <= n { s.input_cursor + 1 } else { n }, ..s }, true)
    } else if e == "\u{1b}[H"@ || e == "\u{1b}[1~"@ {
        (SpecTerminal { input_cursor: 0, ..s }, true)
    } else if e == "\u{1b}[F"@ || e == "\u{1b}[4~"@ {
        (SpecTerminal { input_cursor: n, ..s }, true)
    } else if e == "\u{1b}[3~"@ {
        if s.input_cursor < n {
            (SpecTerminal { input_buffer: s.input_buffer.remove(s.input_cursor as int), ..s }, true)
        } else {
            (s, true)
        }
    } else {
        (s, false)
    }
}

/// A character that continues an escape sequence.
pub open spec fn escape_step(s: SpecTerminal, actions: Seq<SpecAction>, c: char) -> (SpecTerminal, Seq<SpecAction>) {
    let e = s.input_escape.push(c);
    if escape_complete(e) || utf8_len(e) > MAX_INPUT_ESCAPE_BYTES {
        let (s1, understood) = apply_editing(SpecTerminal { input_escape: seq![], ..s }, e);
        (if understood { s1 } else { SpecTerminal { input_reliable: false, ..s1 } }, push_forward(actions, e))
    } else {
        (SpecTerminal { input_escape: e, ..s }, actions)
    }
}

/// A line end: the line is submitted when it is tracked.
pub open spec fn line_end_step(s0: SpecTerminal, actions: Seq<SpecAction>, c: char, familiar_enabled: bool, id: Seq<char>)
    -> (SpecTerminal, Seq<SpecAction>) {
    let (s1, acts) = if s0.input_reliable {
        let editor = EditorSnapshotV1 { character_count: s0.input_buffer.len() as usize, cursor: s0.input_cursor as usize };
        let (s1, r) = spec_terminal_prepare(s0, s0.input_buffer, familiar_enabled, id);
        match r {
            Ok(d) => (s1, actions.push(SpecAction::Prepared { decision: d, editor })),
            Err(_) => (s1, push_forward(actions, seq![c])),
        }
    } else {
        (
            SpecTerminal { editing_reliable: false, expected_sequence: sat_add_u64(s0.expected_sequence, 1), ..s0 },
            push_forward(actions, seq![c]),
        )
    };
    (
        SpecTerminal { input_buffer: seq![], input_cursor: 0, input_reliable: false, ignore_next_line_feed: c == '\r', ..s1 },
        acts,
    )
}

/// Ctrl-C: the line and the prompt are given up.
pub open spec fn interrupt_step(s0: SpecTerminal, actions: Seq<SpecAction>, c: char) -> (SpecTerminal, Seq<SpecAction>) {
    (
        SpecTerminal {
            editing_reliable: false,
            expected_sequence: sat_add_u64(s0.expected_sequence, 1),
            ..input_dropped(s0)
        },
        push_forward(actions, seq![c]),
    )
}

/// Backspace or DEL: deletes before the cursor.
pub open spec fn erase_step(s0: SpecTerminal, actions: Seq<SpecAction>, c: char) -> (SpecTerminal, Seq<SpecAction>) {
    let s1 = if s0.input_reliable && s0.input_cursor > 0 {
        SpecTerminal {
            input_cursor: (s0.input_cursor - 1) as nat,
            input_buffer: s0.input_buffer.remove(s0.input_cursor - 1),
            ..s0
        }
    } else {
        s0
    };
    (s1, push_forward(actions, seq![c]))
}

/// Any other character: a printable one is inserted at the cursor, a control one loses track.
pub open spec fn insert_step(s0: SpecTerminal, actions: Seq<SpecAction>, c: char) -> (SpecTerminal, Seq<SpecAction>) {
    let s1 = if c == '\t' || (c as u32) < 0x20 {
        SpecTerminal { input_reliable: false, ..s0 }
    } else if s0.input_reliable {
        if utf8_len(s0.input_buffer) + utf8_width(c) > MAX_MIRRORED_LINE_BYTES {
            SpecTerminal { input_reliable: false, input_buffer: seq![], input_cursor: 0, ..s0 }
        } else {
            SpecTerminal {
                input_buffer: s0.input_buffer.insert(s0.input_cursor as int, c),
                input_cursor: s0.input_cursor + 1,
                ..s0
            }
        }
    } else {
        s0
    };
    (s1, push_forward(actions, seq![c]))
}

/// One character typed at a tracked prompt; `id` is the id a prepared request would get.
#[verifier::opaque]
pub open spec fn char_step(s: SpecTerminal, actions: Seq<SpecAction>, c: char, familiar_enabled: bool, id: Seq<char>)
    -> (SpecTerminal, Seq<SpecAction>) {
    if s.input_escape.len() > 0 {
        escape_step(s, actions, c)
    } else if c == '\u{1b}' {
        (SpecTerminal { input_escape: seq![c], ..s }, actions)
    } else if c == '\n' && s.ignore_next_line_feed {
        (SpecTerminal { ignore_next_line_feed: false, ..s }, actions)
    } else {
        let s0 = SpecTerminal { ignore_next_line_feed: false, ..s };
        if c == '\r' || c == '\n' {
            line_end_step(s0, actions, c, familiar_enabled, id)
        } else if c == '\u{3}' {
            interrupt_step(s0, actions, c)
        } else if c == '\u{7f}' || c == '\u{8}' {
            erase_step(s0, actions, c)
        } else {
            insert_step(s0, actions, c)
        }
    }
}

/// The first `n` characters of `data` typed at a tracked prompt, character `k` with request
/// id `ids[k]`: the state and the actions.
pub open spec fn run_chars(s: SpecTerminal, data: Seq<char>, n: int, familiar_enabled: bool, ids: Seq<Seq<char>>)
    -> (SpecTerminal, Seq<SpecAction>)
    decreases n,
{
    if n <= 0 {
        (s, seq![])
    } else {
        let (s1, a1) = run_chars(s, data, n - 1, familiar_enabled, ids);
        char_step(s1, a1, data[n - 1], familiar_enabled, ids[n - 1])
    }
}

/// Input typed while no prompt is tracked: line ends advance the expected prompt.
pub open spec fn unvalidated_from(s: SpecTerminal, data: Seq<char>, i: int) -> SpecTerminal
    decreases data.len() - i,
{
    if i < 0 || i >= data.len() {
        s
    } else {
        let c = data[i];
        let s1 = if c == '\n' && s.ignore_next_line_feed {
            SpecTerminal { ignore_next_line_feed: false, ..s }
        } else if c == '\r' {
            SpecTerminal {
                expected_sequence: sat_add_u64(s.expected_sequence, 1),
                readiness_cycle_dirty: false,
                ignore_next_line_feed: true,
                ..s
            }
        } else if c == '\n' {
            SpecTerminal {
                expected_sequence: sat_add_u64(s.expected_sequence, 1),
                readiness_cycle_dirty: false,
                ignore_next_line_feed: false,
                ..s
            }
        } else {
            SpecTerminal { readiness_cycle_dirty: true, ignore_next_line_feed: false, ..s }
        };
        unvalidated_from(s1, data, i + 1)
    }
}

/// How many lines `data[i..]` submits: each CR, and each LF not right after a CR.
pub open spec fn submissions_from(data: Seq<char>, i: int, after_cr: bool) -> nat
    decreases data.len() - i,
{
    if i < 0 || i >= data.len() {
        0
    } else if data[i] == '\r' {
        1 + submissions_from(data, i + 1, true)
    } else if data[i] == '\n' {
        if after_cr { submissions_from(data, i + 1, false) } else { 1 + submissions_from(data, i + 1, false) }
    } else {
        submissions_from(data, i + 1, false)
    }
}

pub open spec fn logical_submissions(data: Seq<char>) -> nat {
    submissions_from(data, 0, false)
}

/// Whether anything other than CR and LF follows the first line end of `data`.
pub open spec fn text_follows_line_end(data: Seq<char>) -> bool {
    exists|b: int, j: int| 0 <= b < j < data.len() && (data[b] == '\r' || data[b] == '\n')
        && (forall|k: int| 0 <= k < b ==> data[k] != '\r' && data[k] != '\n')
        && data[j] != '\r' && data[j] != '\n'
}

/// The state with no line tracked: the mirrored line and a partial escape are dropped.
pub open spec fn input_dropped(s: SpecTerminal) -> SpecTerminal {
    SpecTerminal { input_buffer: seq![], input_cursor: 0, input_reliable: false, input_escape: seq![], ..s }
}

/// What typed input does: the new state and the actions, character `k` with request id `ids[k]`.
pub open spec fn spec_handle_input(s: SpecTerminal, data: Seq<char>, familiar_enabled: bool, ids: Seq<Seq<char>>)
    -> (SpecTerminal, Seq<SpecAction>) {
    if !s.editing_reliable {
        (unvalidated_from(s, data, 0), seq![SpecAction::Forward { data }])
    } else {
        let n = logical_submissions(data);
        if n > 1 || text_follows_line_end(data) {
            (
                SpecTerminal {
                    editing_reliable: false,
                    expected_sequence: sat_add_u64(s.expected_sequence, if n > 1 { n as int } else { 1 }),
                    ..input_dropped(s)
                },
                seq![SpecAction::Forward { data }],
            )
        } else {
            run_chars(s, data, data.len() as int, familiar_enabled, ids)
        }
    }
}

/// A request id of zeros.
pub open spec fn zero_id() -> Seq<char> {
    Seq::new(32, |i: int| '0')
}

proof fn lemma_zero_id()
    ensures
        is_request_id(zero_id()),
{
    assert forall|i: int| 0 <= i < 32 implies crate::submission::is_lower_hex(#[trigger] zero_id()[i]) by {}
}

proof fn lemma_accepted_is_prepare(
    before: SpecSession,
    command_sequence: u64,
    familiar_enabled: bool,
    raw: Seq<char>,
    d: SpecDecision,
    after: SpecSession,
) -> (id: Seq<char>)
    requires
        submission_accepted(before, command_sequence, familiar_enabled, LineEvidence::Reliable, raw, d, after),
    ensures
        is_request_id(id),
        (after, d) == interp_prepare(before, command_sequence, familiar_enabled, raw, id),
{
    match d.decision {
        SpecDecisionKind::InvokePrepared { request_id, display_line } => {
            let (a2, d2) = interp_prepare(before, command_sequence, familiar_enabled, raw, request_id);
            assert(a2 == after);
            assert(d2 == d);
            request_id
        },
        SpecDecisionKind::PassThrough { .. } => {
            let (a2, d2) = interp_prepare(before, command_sequence, familiar_enabled, raw, zero_id());
            assert(a2 == after);
            assert(d2 == d);
            lemma_zero_id();
            zero_id()
        },
    }
}

/// The terminal's view of a session: the prompt it expects next, whether that prompt was
/// validated by a readiness frame, and the line being edited there.
pub struct TerminalSessionV1 {
    session_id: u64,
    expected_shell: ActiveShell,
    integration_nonce: String,
    expected_sequence: u64,
    editing_reliable: bool,
    readiness_cycle_dirty: bool,
    accept_pty_readiness: bool,
    interpreter: Option<InterpreterSession>,
    pending_output: Vec<char>,
    input_buffer: Vec<char>,
    input_buffer_bytes: usize,
    input_cursor: usize,
    input_reliable: bool,
    input_escape: Vec<char>,
    ignore_next_line_feed: bool,
}

impl View for TerminalSessionV1 {
    type V = SpecTerminal;

    closed spec fn view(&self) -> SpecTerminal {
        SpecTerminal {
            session_id: self.session_id,
            expected_shell: self.expected_shell,
            integration_nonce: self.integration_nonce@,
            expected_sequence: self.expected_sequence,
            editing_reliable: self.editing_reliable,
            readiness_cycle_dirty: self.readiness_cycle_dirty,
            accept_pty_readiness: self.accept_pty_readiness,
            interpreter: match self.interpreter {
                Some(i) => Some(i@),
                None => None,
            },
            pending_output: self.pending_output@,
            input_buffer: self.input_buffer@,
            input_cursor: self.input_cursor as nat,
            input_reliable: self.input_reliable,
            input_escape: self.input_escape@,
            ignore_next_line_feed: self.ignore_next_line_feed,
        }
    }
}

impl TerminalSessionV1 {
    /// The mirrored line fits its limit and the cursor lies within it, and a `cmd.exe`
    /// session tracks no prompt.
    pub closed spec fn wf(&self) -> bool {
        &&& (self.interpreter matches Some(i) ==> i.wf())
        &&& self.input_cursor <= self.input_buffer@.len()
        &&& self.input_buffer_bytes == utf8_len(self.input_buffer@)
        &&& self.input_buffer_bytes <= MAX_MIRRORED_LINE_BYTES
        &&& utf8_len(self.input_escape@) <= MAX_INPUT_ESCAPE_BYTES
        &&& (self.expected_shell == ActiveShell::Cmd ==> !self.editing_reliable)
    }

    /// A session of `expected_shell` whose first prompt is still to be announced; its nonce is
    /// a fresh random request id.
    pub fn new(session_id: u64, expected_shell: ActiveShell) -> (r: Self)
        ensures
            r.wf(),
            is_request_id(r@.integration_nonce),
            r@ == (SpecTerminal {
                session_id,
                expected_shell,
                integration_nonce: r@.integration_nonce,
                expected_sequence: 1,
                editing_reliable: false,
                readiness_cycle_dirty: false,
                accept_pty_readiness: true,
                interpreter: None,
                pending_output: seq![],
                input_buffer: seq![],
                input_cursor: 0,
                input_reliable: false,
                input_escape: seq![],
                ignore_next_line_feed: false,
            }),
    {
        let r = TerminalSessionV1 {
            session_id,
            expected_shell,
            integration_nonce: fresh_request_id(),
            expected_sequence: 1,
            editing_reliable: false,
            readiness_cycle_dirty: false,
            accept_pty_readiness: true,
            interpreter: None,
            pending_output: Vec::new(),
            input_buffer: Vec::new(),
            input_buffer_bytes: 0,
            input_cursor: 0,
            input_reliable: false,
            input_escape: Vec::new(),
            ignore_next_line_feed: false,
        };
        assert(r.pending_output@ =~= seq![]);
        assert(r.input_buffer@ =~= seq![]);
        assert(r.input_escape@ =~= seq![]);
        r
    }

    /// The nonce a readiness frame must carry.
    pub fn integration_nonce(&self) -> (r: &str)
        ensures
            r@ == self@.integration_nonce,
    {
        self.integration_nonce.as_str()
    }

    /// Stops looking for prompt markers in the output, and drops a partial one.
    pub fn disable_pty_readiness(&mut self)
        requires
            old(self).wf(),
        ensures
            final(self).wf(),
            final(self)@ == (SpecTerminal { accept_pty_readiness: false, pending_output: seq![], ..old(self)@ }),
    {
        self.accept_pty_readiness = false;
        self.pending_output = Vec::new();
        assert(self.pending_output@ =~= seq![]);
    }

    /// Whether the line editor can take a prepared replacement now.
    pub fn editor_ready(&self) -> (r: bool)
        ensures
            r == (self@.editing_reliable && self@.input_reliable && !self@.readiness_cycle_dirty),
    {
        self.editing_reliable && self.input_reliable && !self.readiness_cycle_dirty
    }

    fn drop_input(&mut self)
        requires
            old(self).wf(),
        ensures
            final(self).wf(),
            final(self)@ == input_dropped(old(self)@),
    {
        self.input_buffer = Vec::new();
        self.input_buffer_bytes = 0;
        self.input_cursor = 0;
        self.input_reliable = false;
        self.input_escape = Vec::new();
        assert(self.input_buffer@ =~= seq![]);
        assert(self.input_escape@ =~= seq![]);
    }

    /// Takes a readiness frame: when it announces the expected prompt, editing at that prompt
    /// is tracked from an empty line.
    pub fn apply_editor_readiness(&mut self, frame: &EditorReadinessFrameV1) -> (r: bool)
        requires
            old(self).wf(),
        ensures
            final(self).wf(),
            (final(self)@, r) == spec_apply_readiness(old(self)@, frame@),
    {
        let nonce = crate::text::chars_of(frame.nonce.as_str());
        let own = crate::text::chars_of(self.integration_nonce.as_str());
        if self.expected_shell == ActiveShell::Cmd || self.readiness_cycle_dirty || !crate::text::chars_eq(nonce.as_slice(), own.as_slice())
            || frame.sequence != self.expected_sequence || frame.shell != self.expected_shell || frame.shell_depth != 0
            || frame.location_kind != EditorLocationKindV1::FileSystem
            || frame.adapter_capability != EditorAdapterCapabilityV1::PsReadLineReplaceV1 {
            return false;
        }
        match &mut self.interpreter {
            Some(interpreter) => {
                if !interpreter.synchronize_prompt(self.expected_sequence, self.expected_shell) {
                    return false;
                }
            },
            None => {
                self.interpreter = Some(InterpreterSession::new(self.session_id, self.expected_sequence, self.expected_shell));
            },
        }
        self.editing_reliable = true;
        self.readiness_cycle_dirty = false;
        self.input_buffer = Vec::new();
        self.input_buffer_bytes = 0;
        self.input_cursor = 0;
        self.input_reliable = true;
        self.input_escape = Vec::new();
        self.ignore_next_line_feed = false;
        assert(self.input_buffer@ =~= seq![]);
        assert(self.input_escape@ =~= seq![]);
        true
    }

    /// Hands out the request prepared under `request_id`, once.
    pub fn consume_prepared(&mut self, request_id: &str) -> (r: Option<PreparedRequestV1>)
        requires
            old(self).wf(),
        ensures
            final(self).wf(),
            match old(self)@.interpreter {
                None => r is None && final(self)@ == old(self)@,
                Some(i) => {
                    &&& match r {
                        Some(p) => i.prepared.dom().contains(request_id@) && p@ == i.prepared[request_id@],
                        None => !i.prepared.dom().contains(request_id@),
                    }
                    &&& final(self)@ == (SpecTerminal {
                        interpreter: Some(SpecSession { prepared: i.prepared.remove(request_id@), ..i }),
                        ..old(self)@
                    })
                },
            },
    {
        match &mut self.interpreter {
            Some(interpreter) => interpreter.consume_prepared(request_id),
            None => None,
        }
    }

    /// After a paste sent natively: the line is no longer tracked, and the prompt moves on by
    /// the lines the paste submits (at least one).
    pub fn suspend_for_native_paste(&mut self, data: &str)
        requires
            old(self).wf(),
        ensures
            final(self).wf(),
            final(self)@ == (SpecTerminal {
                ignore_next_line_feed: false,
                editing_reliable: false,
                readiness_cycle_dirty: !(data@.len() > 0 && (data@.last() == '\r' || data@.last() == '\n')),
                expected_sequence: sat_add_u64(
                    old(self)@.expected_sequence,
                    if logical_submissions(data@) > 1 { logical_submissions(data@) as int } else { 1 },
                ),
                ..input_dropped(old(self)@)
            }),
    {
        let chars = crate::text::chars_of(data);
        self.drop_input();
        self.ignore_next_line_feed = false;
        self.editing_reliable = false;
        let n = chars.len();
        self.readiness_cycle_dirty = !(n > 0 && (chars[n - 1] == '\r' || chars[n - 1] == '\n'));
        let count = logical_submission_count(chars.as_slice());
        let step: u64 = if count > 1 { count } else { 1 };
        self.expected_sequence = self.expected_sequence.saturating_add(step);
    }

    /// After a failure to reach the shell: nothing of the line or the prompt is trusted.
    pub fn suspend_after_transport_failure(&mut self)
        requires
            old(self).wf(),
        ensures
            final(self).wf(),
            final(self)@ == (SpecTerminal {
                ignore_next_line_feed: false,
                editing_reliable: false,
                readiness_cycle_dirty: true,
                ..input_dropped(old(self)@)
            }),
    {
        self.drop_input();
        self.ignore_next_line_feed = false;
        self.editing_reliable = false;
        self.readiness_cycle_dirty = true;
    }
}

/// How many lines `data` submits.
fn logical_submission_count(data: &[char]) -> (r: u64)
    ensures
        r == logical_submissions(data@),
{
    let mut count: u64 = 0;
    let mut after_cr = false;
    let mut i: usize = 0;
    while i < data.len()
        invariant
            i <= data@.len(),
            count <= i,
            logical_submissions(data@) == count + submissions_from(data@, i as int, after_cr),
        decreases data.len() - i,
    {
        let c = data[i];
        if c == '\r' {
            count += 1;
            after_cr = true;
        } else if c == '\n' {
            if !after_cr {
                count += 1;
            }
            after_cr = false;
        } else {
            after_cr = false;
        }
        i += 1;
    }
    count
}

pub open spec fn prepare_view(r: Result<FrontendDecisionV1, TerminalPrepareErrorV1>) -> Result<SpecDecision, TerminalPrepareErrorV1> {
    match r {
        Ok(d) => Ok(d@),
        Err(e) => Err(e),
    }
}

impl TerminalSessionV1 {
    /// Submits the line at the tracked prompt to the interpreter. A prepared request gets a
    /// fresh random id, the `id` of the contract.
    pub fn prepare_submission(&mut self, raw_line: &str, familiar_enabled: bool) -> (r: Result<FrontendDecisionV1, TerminalPrepareErrorV1>)
        requires
            old(self).wf(),
        ensures
            final(self).wf(),
            exists|id: Seq<char>| is_request_id(id)
                && (final(self)@, prepare_view(r)) == spec_terminal_prepare(old(self)@, raw_line@, familiar_enabled, id),
    {
        proof { lemma_zero_id(); }
        if !self.editing_reliable || !self.input_reliable {
            assert((self@, prepare_view(Err(TerminalPrepareErrorV1::PromptNotValidated)))
                == spec_terminal_prepare(self@, raw_line@, familiar_enabled, zero_id()));
            return Err(TerminalPrepareErrorV1::PromptNotValidated);
        }
        let session_id = self.session_id;
        let sequence = self.expected_sequence;
        let shell = self.expected_shell;
        let ghost before = self@;
        let result = match &mut self.interpreter {
            None => {
                assert((self@, prepare_view(Err(TerminalPrepareErrorV1::PromptNotValidated)))
                    == spec_terminal_prepare(before, raw_line@, familiar_enabled, zero_id()));
                return Err(TerminalPrepareErrorV1::PromptNotValidated);
            },
            Some(interpreter) => interpreter.prepare_submission(PrepareSubmissionV1 {
                session_id,
                command_sequence: sequence,
                shell,
                familiar_enabled,
                evidence: LineEvidence::Reliable,
                raw_line: crate::text::owned(raw_line),
            }),
        };
        match result {
            Err(e) => {
                assert((self@, prepare_view(Err(TerminalPrepareErrorV1::Interpreter(e))))
                    == spec_terminal_prepare(before, raw_line@, familiar_enabled, zero_id()));
                Err(TerminalPrepareErrorV1::Interpreter(e))
            },
            Ok(decision) => {
                let ghost i0 = before.interpreter.unwrap();
                let ghost i1 = self@.interpreter.unwrap();
                let ghost id = lemma_accepted_is_prepare(i0, sequence, familiar_enabled, raw_line@, decision@, i1);
                self.editing_reliable = false;
                self.expected_sequence = self.expected_sequence.saturating_add(1);
                assert((self@, prepare_view(Ok(decision))) == spec_terminal_prepare(before, raw_line@, familiar_enabled, id));
                Ok(decision)
            },
        }
    }
}

/// The state apart from the pending output.
pub open spec fn without_pending(s: SpecTerminal) -> SpecTerminal {
    SpecTerminal { pending_output: seq![], ..s }
}

proof fn lemma_apply_marker_pending(s: SpecTerminal, frame: Seq<char>)
    ensures
        apply_marker(s, frame).0 == (SpecTerminal { pending_output: s.pending_output, ..apply_marker(without_pending(s), frame).0 }),
        apply_marker(s, frame).1 == apply_marker(without_pending(s), frame).1,
{
}

proof fn lemma_scan_pending(s: SpecTerminal, p: Seq<char>, v: Seq<char>)
    ensures
        scan_output(s, p, v) == scan_output(without_pending(s), p, v),
    decreases p.len(),
{
    let m = first_marker(p, 0);
    if !(m < 0 || m > p.len()) {
        let shown = v + p.take(m);
        let q = p.skip(m);
        let t = first_bell(q, 0);
        if t < 0 || t >= q.len() {
            if q.len() > 0 && utf8_len(q) > MAX_MARKER_BYTES {
                lemma_scan_pending(s, q.skip(1), shown + q.take(1));
            }
        } else {
            let frame = q.take(t + 1);
            lemma_apply_marker_pending(s, frame);
            let (s2, taken) = apply_marker(s, frame);
            let (w2, taken2) = apply_marker(without_pending(s), frame);
            let next = if taken { shown } else { shown + frame };
            lemma_scan_pending(s2, q.skip(t + 1), next);
            lemma_scan_pending(w2, q.skip(t + 1), next);
            assert(without_pending(s2) == without_pending(w2));
        }
    }
}

/// `v[..k]` and `v[k..]`.
fn split_chars(v: Vec<char>, k: usize) -> (r: (Vec<char>, Vec<char>))
    requires
        k <= v@.len(),
    ensures
        r.0@ == v@.take(k as int),
        r.1@ == v@.skip(k as int),
{
    let mut head: Vec<char> = Vec::new();
    let mut tail: Vec<char> = Vec::new();
    let mut i: usize = 0;
    while i < v.len()
        invariant
            i <= v@.len(),
            k <= v@.len(),
            head@ == v@.take(if i < k { i as int } else { k as int }),
            tail@ == if i <= k { seq![] } else { v@.subrange(k as int, i as int) },
        decreases v.len() - i,
    {
        if i < k {
            head.push(v[i]);
            assert(head@ =~= v@.take(i + 1));
        } else {
            tail.push(v[i]);
            assert(tail@ =~= v@.subrange(k as int, i + 1));
        }
        i += 1;
    }
    assert(tail@ =~= v@.skip(k as int));
    (head, tail)
}

fn find_marker(p: &Vec<char>, marker: &Vec<char>) -> (r: Option<usize>)
    requires
        marker@ == marker_prefix(),
    ensures
        match r {
            Some(m) => first_marker(p@, 0) == m && m <= p@.len(),
            None => first_marker(p@, 0) < 0,
        },
{
    let ml = marker.len();
    let mut i: usize = 0;
    while i < p.len() && ml <= p.len() - i
        invariant
            marker@ == marker_prefix(),
            ml == marker@.len(),
            first_marker(p@, 0) == first_marker(p@, i as int),
        decreases p.len() - i,
    {
        let mut k: usize = 0;
        let mut same = true;
        while k < ml
            invariant
                i + ml <= p@.len(),
                p@.len() <= usize::MAX,
                ml == marker@.len(),
                k <= ml,
                same == (forall|j: int| 0 <= j < k ==> p@[i + j] == marker@[j]),
            decreases ml - k,
        {
            if p[i + k] != marker[k] {
                same = false;
            }
            k += 1;
        }
        assert(same == marker_at(p@, i as int)) by {
            if same {
                assert(p@.subrange(i as int, i + ml) =~= marker@);
            }
            if marker_at(p@, i as int) {
                assert forall|j: int| 0 <= j < ml implies p@[i + j] == marker@[j] by {
                    assert(p@.subrange(i as int, i + ml)[j] == p@[i + j]);
                }
            }
        }
        if same {
            return Some(i);
        }
        i += 1;
    }
    None
}

fn find_bell(q: &Vec<char>) -> (r: Option<usize>)
    ensures
        match r {
            Some(t) => first_bell(q@, 0) == t && t < q@.len(),
            None => first_bell(q@, 0) < 0,
        },
{
    let mut i: usize = 0;
    while i < q.len()
        invariant
            i <= q@.len(),
            first_bell(q@, 0) == first_bell(q@, i as int),
        decreases q.len() - i,
    {
        if q[i] == '\u{7}' {
            return Some(i);
        }
        i += 1;
    }
    None
}

fn partial_prefix_suffix_len(p: &Vec<char>, marker: &Vec<char>) -> (r: usize)
    requires
        marker@ == marker_prefix(),
    ensures
        r == partial_prefix_suffix(p@),
        r <= p@.len(),
{
    let n: usize = if p.len() < marker.len() - 1 { p.len() } else { marker.len() - 1 };
    let mut k: usize = n;
    while k > 0
        invariant
            k <= n,
            n <= p@.len(),
            n < marker@.len(),
            marker@ == marker_prefix(),
            partial_prefix_suffix(p@) == partial_from(p@, k as int),
        decreases k,
    {
        let start = p.len() - k;
        let mut j: usize = 0;
        let mut same = true;
        while j < k
            invariant
                p@.len() <= usize::MAX,
                k <= n,
                n <= p@.len(),
                n < marker@.len(),
                start == p@.len() - k,
                j <= k,
                same == (forall|x: int| 0 <= x < j ==> p@[start + x] == marker@[x]),
            decreases k - j,
        {
            if p[start + j] != marker[j] {
                same = false;
            }
            j += 1;
        }
        assert(same == (p@.skip(p@.len() - k) == marker_prefix().take(k as int))) by {
            if same {
                assert(p@.skip(p@.len() - k) =~= marker_prefix().take(k as int));
            }
            if p@.skip(p@.len() - k) == marker_prefix().take(k as int) {
                assert forall|x: int| 0 <= x < k implies p@[start + x] == marker@[x] by {
                    assert(p@.skip(p@.len() - k)[x] == p@[start + x]);
                }
            }
        }
        if same {
            return k;
        }
        k -= 1;
    }
    0
}

/// Whether the UTF-8 length of `q` is more than `limit`.
fn utf8_longer_than(q: &Vec<char>, limit: usize) -> (r: bool)
    ensures
        r == (utf8_len(q@) > limit),
{
    let mut total: usize = 0;
    let mut i: usize = 0;
    while i < q.len()
        invariant
            i <= q@.len(),
            total == utf8_len(q@.take(i as int)),
            total <= limit,
        decreases q.len() - i,
    {
        let w = crate::text::char_width(q[i]);
        proof {
            assert(q@.take(i + 1).drop_last() =~= q@.take(i as int));
        }
        if w > limit - total {
            proof {
                crate::text::lemma_utf8_len_concat(q@.take(i + 1), q@.skip(i + 1));
                assert(q@.take(i + 1) + q@.skip(i + 1) =~= q@);
            }
            return true;
        }
        total = total + w;
        i += 1;
    }
    assert(q@.take(i as int) =~= q@);
    false
}

impl TerminalSessionV1 {
    /// Takes a complete marker frame: a readiness frame between the marker prefix and BEL.
    fn apply_prompt_marker(&mut self, frame: &Vec<char>, marker: &Vec<char>) -> (r: bool)
        requires
            old(self).wf(),
            marker@ == marker_prefix(),
        ensures
            final(self).wf(),
            (final(self)@, r) == apply_marker(old(self)@, frame@),
    {
        let m = marker.len();
        if frame.len() < m + 1 || frame[frame.len() - 1] != '\u{7}' {
            return false;
        }
        let mut k: usize = 0;
        while k < m
            invariant
                self.wf(),
                self@ == old(self)@,
                marker@ == marker_prefix(),
                m == marker@.len(),
                m + 1 <= frame@.len(),
                k <= m,
                forall|j: int| 0 <= j < k ==> frame@[j] == marker@[j],
            decreases m - k,
        {
            if frame[k] != marker[k] {
                assert(frame@.take(m as int)[k as int] != marker_prefix()[k as int]);
                return false;
            }
            k += 1;
        }
        assert(frame@.take(m as int) =~= marker_prefix());
        let mut body: Vec<char> = Vec::new();
        let mut i: usize = m;
        while i < frame.len() - 1
            invariant
                self.wf(),
                self@ == old(self)@,
                m <= i <= frame@.len() - 1,
                body@ == frame@.subrange(m as int, i as int),
            decreases frame.len() - 1 - i,
        {
            body.push(frame[i]);
            i += 1;
            assert(body@ =~= frame@.subrange(m as int, i as int));
        }
        let text = crate::text::string_of(body.as_slice());
        match parse_editor_readiness_frame(text.as_str()) {
            Ok(readiness) => self.apply_editor_readiness(&readiness),
            Err(_) => false,
        }
    }

    /// Takes output of the shell: hides the prompt markers in it and acts on them, keeps back
    /// what may be the start of a marker, and gives back the text to show.
    pub fn ingest_pty_output(&mut self, chunk: &str) -> (r: String)
        requires
            old(self).wf(),
        ensures
            final(self).wf(),
            (final(self)@, r@) == spec_ingest(old(self)@, chunk@),
    {
        if !self.accept_pty_readiness {
            return crate::text::owned(chunk);
        }
        let marker = marker_chars();
        let incoming = crate::text::chars_of(chunk);
        let mut i: usize = 0;
        let ghost start = self.pending_output@;
        while i < incoming.len()
            invariant
                self.wf(),
                without_pending(self@) == without_pending(old(self)@),
                i <= incoming@.len(),
                self.pending_output@ == start + incoming@.take(i as int),
            decreases incoming.len() - i,
        {
            self.pending_output.push(incoming[i]);
            i += 1;
            assert(self.pending_output@ =~= start + incoming@.take(i as int));
        }
        assert(incoming@.take(i as int) =~= chunk@);
        let ghost target = spec_ingest(old(self)@, chunk@);
        proof {
            lemma_scan_pending(old(self)@, start + chunk@, seq![]);
        }
        let mut visible = String::new();
        assert(without_pending(self@) == without_pending(old(self)@));
        loop
            invariant_except_break
                self.wf(),
                marker@ == marker_prefix(),
                target == scan_output(without_pending(self@), self.pending_output@, visible@),
            ensures
                self.wf(),
                (self@, visible@) == target,
            decreases self.pending_output@.len(),
        {
            let ghost p = self.pending_output@;
            let ghost v0 = visible@;
            let ghost w = without_pending(self@);
            match find_marker(&self.pending_output, &marker) {
                None => {
                    let keep = partial_prefix_suffix_len(&self.pending_output, &marker);
                    let cut = self.pending_output.len() - keep;
                    let mut pending: Vec<char> = Vec::new();
                    std::mem::swap(&mut pending, &mut self.pending_output);
                    let (shown, rest) = split_chars(pending, cut);
                    self.pending_output = rest;
                    let text = crate::text::string_of(shown.as_slice());
                    visible.append(text.as_str());
                    break;
                },
                Some(m) => {
                    let mut pending: Vec<char> = Vec::new();
                    std::mem::swap(&mut pending, &mut self.pending_output);
                    let (shown, rest) = split_chars(pending, m);
                    let text = crate::text::string_of(shown.as_slice());
                    visible.append(text.as_str());
                    let ghost q = rest@;
                    match find_bell(&rest) {
                        None => {
                            if rest.len() > 0 && utf8_longer_than(&rest, MAX_MARKER_BYTES) {
                                let (first, after) = split_chars(rest, 1);
                                self.pending_output = after;
                                let text = crate::text::string_of(first.as_slice());
                                visible.append(text.as_str());
                                proof {
                                    lemma_scan_pending(w, q.skip(1), v0 + p.take(m as int) + q.take(1));
                                    assert(without_pending(self@) == w);
                                }
                            } else {
                                self.pending_output = rest;
                                break;
                            }
                        },
                        Some(t) => {
                            let rl = rest.len();
                            let (frame, after) = split_chars(rest, t + 1);
                            self.pending_output = after;
                            let ghost before_apply = self@;
                            let taken = self.apply_prompt_marker(&frame, &marker);
                            proof {
                                lemma_apply_marker_pending(before_apply, frame@);
                                assert(without_pending(before_apply) == w);
                                let next = if taken { v0 + p.take(m as int) } else { v0 + p.take(m as int) + frame@ };
                                lemma_scan_pending(apply_marker(w, frame@).0, q.skip(t + 1), next);
                                lemma_scan_pending(self@, q.skip(t + 1), next);
                                assert(without_pending(self@) == without_pending(apply_marker(w, frame@).0));
                            }
                            if !taken {
                                let text = crate::text::string_of(frame.as_slice());
                                visible.append(text.as_str());
                            }
                        },
                    }
                },
            }
        }
        visible
    }
}

proof fn lemma_run_chars_prefix(s: SpecTerminal, data: Seq<char>, n: int, familiar_enabled: bool, ids: Seq<Seq<char>>, more: Seq<Seq<char>>)
    requires
        0 <= n <= ids.len(),
    ensures
        run_chars(s, data, n, familiar_enabled, ids) == run_chars(s, data, n, familiar_enabled, ids + more),
    decreases n,
{
    if n > 0 {
        lemma_run_chars_prefix(s, data, n - 1, familiar_enabled, ids, more);
        assert((ids + more)[n - 1] == ids[n - 1]);
    }
}

proof fn lemma_utf8_insert(v: Seq<char>, i: int, c: char)
    requires
        0 <= i <= v.len(),
    ensures
        utf8_len(v.insert(i, c)) == utf8_len(v) + utf8_width(c),
{
    crate::text::lemma_utf8_len_concat(v.take(i), v.skip(i));
    assert(v.take(i) + v.skip(i) =~= v);
    assert(v.insert(i, c) =~= v.take(i).push(c) + v.skip(i));
    crate::text::lemma_utf8_len_concat(v.take(i).push(c), v.skip(i));
    crate::text::lemma_utf8_len_push(v.take(i), c);
}

proof fn lemma_utf8_remove(v: Seq<char>, i: int)
    requires
        0 <= i < v.len(),
    ensures
        utf8_len(v.remove(i)) + utf8_width(v[i]) == utf8_len(v),
{
    lemma_utf8_insert(v.remove(i), i, v[i]);
    assert(v.remove(i).insert(i, v[i]) =~= v);
}

/// Appends forwarded text, joining it to a forward that ends the list.
fn push_forward_action(actions: &mut Vec<TerminalInputActionV1>, data: String)
    ensures
        actions_view(final(actions)@) == push_forward(actions_view(old(actions)@), data@),
{
    let n = actions.len();
    if n > 0 {
        if let TerminalInputActionV1::Forward { data: previous } = &actions[n - 1] {
            let joined = crate::text::concat(previous.as_str(), data.as_str());
            let ghost before = actions@;
            let _ = actions.pop();
            actions.push(TerminalInputActionV1::Forward { data: joined });
            assert(actions_view(actions@) =~= push_forward(actions_view(before), data@));
            return;
        }
    }
    let ghost before = actions@;
    actions.push(TerminalInputActionV1::Forward { data });
    assert(actions_view(actions@) =~= push_forward(actions_view(before), data@));
}

/// Whether an escape sequence is complete.
fn input_escape_complete(e: &Vec<char>) -> (r: bool)
    ensures
        r == escape_complete(e@),
{
    let n = e.len();
    if n < 2 {
        return false;
    }
    let last = e[n - 1];
    if e[1] == '[' {
        n >= 3 && 0x40 <= (last as u32) && (last as u32) <= 0x7e
    } else if e[1] == 'O' {
        n >= 3
    } else if e[1] == ']' {
        last == '\u{7}' || (n >= 2 && e[n - 2] == '\u{1b}' && last == '\\')
    } else {
        true
    }
}

/// Whether anything other than CR and LF follows the first line end.
fn text_follows_first_line_boundary(data: &Vec<char>) -> (r: bool)
    ensures
        r == text_follows_line_end(data@),
{
    let mut b: usize = 0;
    while b < data.len() && data[b] != '\r' && data[b] != '\n'
        invariant
            b <= data@.len(),
            forall|k: int| 0 <= k < b ==> data@[k] != '\r' && data@[k] != '\n',
        decreases data.len() - b,
    {
        b += 1;
    }
    if b >= data.len() {
        assert(!text_follows_line_end(data@)) by {
            if text_follows_line_end(data@) {
                let (b2, j2) = choose|b2: int, j2: int| 0 <= b2 < j2 < data@.len() && (data@[b2] == '\r' || data@[b2] == '\n')
                    && (forall|k: int| 0 <= k < b2 ==> data@[k] != '\r' && data@[k] != '\n')
                    && data@[j2] != '\r' && data@[j2] != '\n';
            }
        }
        return false;
    }
    let mut j: usize = b + 1;
    while j < data.len()
        invariant
            b < j <= data@.len(),
            data@[b as int] == '\r' || data@[b as int] == '\n',
            forall|k: int| 0 <= k < b ==> data@[k] != '\r' && data@[k] != '\n',
            forall|k: int| b < k < j ==> data@[k] == '\r' || data@[k] == '\n',
        decreases data.len() - j,
    {
        if data[j] != '\r' && data[j] != '\n' {
            assert(text_follows_line_end(data@)) by {
                assert(0 <= b < j < data@.len());
            }
            return true;
        }
        j += 1;
    }
    assert(!text_follows_line_end(data@)) by {
        if text_follows_line_end(data@) {
            let (b2, j2) = choose|b2: int, j2: int| 0 <= b2 < j2 < data@.len() && (data@[b2] == '\r' || data@[b2] == '\n')
                && (forall|k: int| 0 <= k < b2 ==> data@[k] != '\r' && data@[k] != '\n')
                && data@[j2] != '\r' && data@[j2] != '\n';
            assert(b2 == b);
        }
    }
    false
}

impl TerminalSessionV1 {
    /// Input typed while no prompt is tracked.
    fn record_unvalidated_input(&mut self, data: &Vec<char>)
        requires
            old(self).wf(),
        ensures
            final(self).wf(),
            final(self)@ == unvalidated_from(old(self)@, data@, 0),
    {
        let mut i: usize = 0;
        while i < data.len()
            invariant
                i <= data@.len(),
                self.wf(),
                unvalidated_from(old(self)@, data@, 0) == unvalidated_from(self@, data@, i as int),
            decreases data.len() - i,
        {
            let c = data[i];
            if c == '\n' && self.ignore_next_line_feed {
                self.ignore_next_line_feed = false;
            } else if c == '\r' {
                self.expected_sequence = self.expected_sequence.saturating_add(1);
                self.readiness_cycle_dirty = false;
                self.ignore_next_line_feed = true;
            } else if c == '\n' {
                self.expected_sequence = self.expected_sequence.saturating_add(1);
                self.readiness_cycle_dirty = false;
                self.ignore_next_line_feed = false;
            } else {
                self.readiness_cycle_dirty = true;
                self.ignore_next_line_feed = false;
            }
            i += 1;
        }
    }

    /// A complete editing sequence: moves the cursor or deletes under it.
    fn apply_editing_sequence(&mut self, e: &Vec<char>) -> (r: bool)
        requires
            old(self).wf(),
        ensures
            final(self).wf(),
            (final(self)@, r) == apply_editing(old(self)@, e@),
    {
        if !self.input_reliable {
            return false;
        }
        let e = e.as_slice();
        let n = self.input_buffer.len();
        if crate::text::eq_str(e, "\u{1b}[D") {
            self.input_cursor = if self.input_cursor > 0 { self.input_cursor - 1 } else { 0 };
        } else if crate::text::eq_str(e, "\u{1b}[C") {
            self.input_cursor = if self.input_cursor < n { self.input_cursor + 1 } else { n };
        } else if crate::text::eq_str(e, "\u{1b}[H") || crate::text::eq_str(e, "\u{1b}[1~") {
            self.input_cursor = 0;
        } else if crate::text::eq_str(e, "\u{1b}[F") || crate::text::eq_str(e, "\u{1b}[4~") {
            self.input_cursor = n;
        } else if crate::text::eq_str(e, "\u{1b}[3~") {
            if self.input_cursor < n {
                let ghost before = self.input_buffer@;
                let removed = self.input_buffer.remove(self.input_cursor);
                proof { lemma_utf8_remove(before, self.input_cursor as int); }
                self.input_buffer_bytes = self.input_buffer_bytes - crate::text::char_width(removed);
            }
        } else {
            return false;
        }
        true
    }
}

fn char_string(c: char) -> (r: String)
    ensures
        r@ == seq![c],
{
    let mut r = String::new();
    crate::text::push_char(&mut r, c);
    r
}

impl TerminalSessionV1 {
    fn escape_char(&mut self, c: char, actions: &mut Vec<TerminalInputActionV1>)
        requires
            old(self).wf(),
            old(self)@.input_escape.len() > 0,
        ensures
            final(self).wf(),
            (final(self)@, actions_view(final(actions)@)) == escape_step(old(self)@, actions_view(old(actions)@), c),
    {
        self.input_escape.push(c);
        let long = utf8_longer_than(&self.input_escape, MAX_INPUT_ESCAPE_BYTES);
        if input_escape_complete(&self.input_escape) || long {
            let mut e: Vec<char> = Vec::new();
            std::mem::swap(&mut e, &mut self.input_escape);
            assert(self.input_escape@ =~= seq![]);
            assert(utf8_len(seq![]) == 0);
            if !self.apply_editing_sequence(&e) {
                self.input_reliable = false;
            }
            push_forward_action(actions, crate::text::string_of(e.as_slice()));
        }
    }

    fn line_end(&mut self, c: char, actions: &mut Vec<TerminalInputActionV1>, familiar_enabled: bool) -> (id: Ghost<Seq<char>>)
        requires
            old(self).wf(),
        ensures
            final(self).wf(),
            is_request_id(id@),
            (final(self)@, actions_view(final(actions)@))
                == line_end_step(old(self)@, actions_view(old(actions)@), c, familiar_enabled, id@),
    {
        proof { lemma_zero_id(); }
        let ghost mut idg: Seq<char> = zero_id();
        if self.input_reliable {
            let raw = crate::text::string_of(self.input_buffer.as_slice());
            let editor = EditorSnapshotV1 { character_count: self.input_buffer.len(), cursor: self.input_cursor };
            let ghost before = self@;
            let r = self.prepare_submission(raw.as_str(), familiar_enabled);
            proof {
                idg = choose|x: Seq<char>| is_request_id(x)
                    && (self@, prepare_view(r)) == spec_terminal_prepare(before, raw@, familiar_enabled, x);
            }
            match r {
                Ok(decision) => {
                    let ghost a0 = actions@;
                    actions.push(TerminalInputActionV1::Prepared { decision, editor });
                    assert(actions_view(actions@) =~= actions_view(a0).push(SpecAction::Prepared { decision: decision@, editor }));
                },
                Err(_) => {
                    push_forward_action(actions, char_string(c));
                },
            }
        } else {
            push_forward_action(actions, char_string(c));
            self.editing_reliable = false;
            self.expected_sequence = self.expected_sequence.saturating_add(1);
        }
        self.input_buffer = Vec::new();
        self.input_buffer_bytes = 0;
        self.input_cursor = 0;
        self.input_reliable = false;
        self.ignore_next_line_feed = c == '\r';
        assert(self.input_buffer@ =~= seq![]);
        Ghost(idg)
    }

    fn erase(&mut self, c: char, actions: &mut Vec<TerminalInputActionV1>)
        requires
            old(self).wf(),
        ensures
            final(self).wf(),
            (final(self)@, actions_view(final(actions)@)) == erase_step(old(self)@, actions_view(old(actions)@), c),
    {
        if self.input_reliable && self.input_cursor > 0 {
            self.input_cursor = self.input_cursor - 1;
            let ghost before = self.input_buffer@;
            let removed = self.input_buffer.remove(self.input_cursor);
            proof { lemma_utf8_remove(before, self.input_cursor as int); }
            self.input_buffer_bytes = self.input_buffer_bytes - crate::text::char_width(removed);
        }
        push_forward_action(actions, char_string(c));
    }

    fn insert(&mut self, c: char, actions: &mut Vec<TerminalInputActionV1>)
        requires
            old(self).wf(),
        ensures
            final(self).wf(),
            (final(self)@, actions_view(final(actions)@)) == insert_step(old(self)@, actions_view(old(actions)@), c),
    {
        if c == '\t' || (c as u32) < 0x20 {
            self.input_reliable = false;
        } else if self.input_reliable {
            let w = crate::text::char_width(c);
            if self.input_buffer_bytes + w > MAX_MIRRORED_LINE_BYTES {
                self.input_reliable = false;
                self.input_buffer = Vec::new();
                self.input_buffer_bytes = 0;
                self.input_cursor = 0;
                assert(self.input_buffer@ =~= seq![]);
            } else {
                let ghost before = self.input_buffer@;
                proof { crate::text::lemma_utf8_len_bounds(before); }
                self.input_buffer.insert(self.input_cursor, c);
                proof { lemma_utf8_insert(before, self.input_cursor as int, c); }
                self.input_buffer_bytes = self.input_buffer_bytes + w;
                self.input_cursor = self.input_cursor + 1;
            }
        }
        push_forward_action(actions, char_string(c));
    }

    /// One character typed at a tracked prompt; gives the id a prepared request got.
    fn step_char(&mut self, c: char, actions: &mut Vec<TerminalInputActionV1>, familiar_enabled: bool) -> (id: Ghost<Seq<char>>)
        requires
            old(self).wf(),
        ensures
            final(self).wf(),
            is_request_id(id@),
            (final(self)@, actions_view(final(actions)@))
                == char_step(old(self)@, actions_view(old(actions)@), c, familiar_enabled, id@),
    {
        proof {
            lemma_zero_id();
            reveal(char_step);
        }
        if self.input_escape.len() > 0 {
            self.escape_char(c, actions);
            return Ghost(zero_id());
        }
        if c == '\u{1b}' {
            self.input_escape.push(c);
            assert(self.input_escape@ =~= Seq::<char>::empty().push(c));
            proof {
                crate::text::lemma_utf8_len_push(Seq::<char>::empty(), c);
            }
            return Ghost(zero_id());
        }
        if c == '\n' && self.ignore_next_line_feed {
            self.ignore_next_line_feed = false;
            return Ghost(zero_id());
        }
        self.ignore_next_line_feed = false;
        if c == '\r' || c == '\n' {
            return self.line_end(c, actions, familiar_enabled);
        }
        if c == '\u{3}' {
            self.drop_input();
            self.editing_reliable = false;
            self.expected_sequence = self.expected_sequence.saturating_add(1);
            push_forward_action(actions, char_string(c));
            return Ghost(zero_id());
        }
        if c == '\u{7f}' || c == '\u{8}' {
            self.erase(c, actions);
            return Ghost(zero_id());
        }
        self.insert(c, actions);
        Ghost(zero_id())
    }

    /// Takes terminal input: tracks the line edited at a validated prompt, and turns its
    /// submission into a prepared request when the interpreter claims it. Character `k` gives
    /// a prepared request the fresh random id `ids[k]` of the contract.
    pub fn handle_terminal_input(&mut self, data: &str, familiar_enabled: bool) -> (r: Vec<TerminalInputActionV1>)
        requires
            old(self).wf(),
        ensures
            final(self).wf(),
            exists|ids: Seq<Seq<char>>| {
                &&& ids.len() == data@.len()
                &&& forall|k: int| 0 <= k < ids.len() ==> is_request_id(#[trigger] ids[k])
                &&& (final(self)@, actions_view(r@)) == spec_handle_input(old(self)@, data@, familiar_enabled, ids)
            },
    {
        proof { lemma_zero_id(); }
        let chars = crate::text::chars_of(data);
        let ghost zeros = Seq::new(data@.len(), |k: int| zero_id());
        if !self.editing_reliable {
            self.record_unvalidated_input(&chars);
            let mut actions: Vec<TerminalInputActionV1> = Vec::new();
            actions.push(TerminalInputActionV1::Forward { data: crate::text::owned(data) });
            assert(actions_view(actions@) =~= seq![SpecAction::Forward { data: data@ }]);
            assert(forall|k: int| 0 <= k < zeros.len() ==> is_request_id(#[trigger] zeros[k]));
            assert((self@, actions_view(actions@)) == spec_handle_input(old(self)@, data@, familiar_enabled, zeros));
            return actions;
        }
        let count = logical_submission_count(chars.as_slice());
        if count > 1 || text_follows_first_line_boundary(&chars) {
            self.drop_input();
            self.editing_reliable = false;
            let step: u64 = if count > 1 { count } else { 1 };
            self.expected_sequence = self.expected_sequence.saturating_add(step);
            let mut actions: Vec<TerminalInputActionV1> = Vec::new();
            actions.push(TerminalInputActionV1::Forward { data: crate::text::owned(data) });
            assert(actions_view(actions@) =~= seq![SpecAction::Forward { data: data@ }]);
            assert(forall|k: int| 0 <= k < zeros.len() ==> is_request_id(#[trigger] zeros[k]));
            assert((self@, actions_view(actions@)) == spec_handle_input(old(self)@, data@, familiar_enabled, zeros));
            return actions;
        }
        let ghost s0 = self@;
        let mut actions: Vec<TerminalInputActionV1> = Vec::new();
        let ghost mut ids: Seq<Seq<char>> = seq![];
        let mut i: usize = 0;
        assert(actions_view(actions@) =~= seq![]);
        while i < chars.len()
            invariant
                i <= chars@.len(),
                chars@ == data@,
                self.wf(),
                ids.len() == i,
                forall|k: int| 0 <= k < ids.len() ==> is_request_id(#[trigger] ids[k]),
                (self@, actions_view(actions@)) == run_chars(s0, data@, i as int, familiar_enabled, ids),
            decreases chars.len() - i,
        {
            let ghost a0 = actions_view(actions@);
            let ghost st = self@;
            let id = self.step_char(chars[i], &mut actions, familiar_enabled);
            proof {
                lemma_run_chars_prefix(s0, data@, i as int, familiar_enabled, ids, seq![id@]);
                assert(ids + seq![id@] =~= ids.push(id@));
                ids = ids.push(id@);
                assert(ids[i as int] == id@);
                assert(data@[i as int] == chars@[i as int]);
            }
            i += 1;
        }
        assert((self@, actions_view(actions@)) == spec_handle_input(old(self)@, data@, familiar_enabled, ids));
        actions
    }
}

/// Input typed while no prompt is tracked leaves the shell and the untracked state alone.
proof fn lemma_unvalidated_keeps(s: SpecTerminal, data: Seq<char>, i: int)
    ensures
        unvalidated_from(s, data, i).expected_shell == s.expected_shell,
        unvalidated_from(s, data, i).editing_reliable == s.editing_reliable,
    decreases data.len() - i,
{
    if 0 <= i < data.len() {
        let c = data[i];
        let s1 = if c == '\n' && s.ignore_next_line_feed {
            SpecTerminal { ignore_next_line_feed: false, ..s }
        } else if c == '\r' {
            SpecTerminal { expected_sequence: sat_add_u64(s.expected_sequence, 1), readiness_cycle_dirty: false, ignore_next_line_feed: true, ..s }
        } else if c == '\n' {
            SpecTerminal { expected_sequence: sat_add_u64(s.expected_sequence, 1), readiness_cycle_dirty: false, ignore_next_line_feed: false, ..s }
        } else {
            SpecTerminal { readiness_cycle_dirty: true, ignore_next_line_feed: false, ..s }
        };
        lemma_unvalidated_keeps(s1, data, i + 1);
    }
}

/// Output of a `cmd.exe` session takes no marker as a prompt.
proof fn lemma_cmd_scan_keeps(s: SpecTerminal, p: Seq<char>, visible: Seq<char>)
    requires
        s.expected_shell == ActiveShell::Cmd,
        !s.editing_reliable,
    ensures
        scan_output(s, p, visible).0.expected_shell == ActiveShell::Cmd,
        !scan_output(s, p, visible).0.editing_reliable,
    decreases p.len(),
{
    let m = first_marker(p, 0);
    if !(m < 0 || m > p.len()) {
        let shown = visible + p.take(m);
        let q = p.skip(m);
        let t = first_bell(q, 0);
        if t < 0 || t >= q.len() {
            if q.len() > 0 && utf8_len(q) > MAX_MARKER_BYTES {
                lemma_cmd_scan_keeps(s, q.skip(1), shown + q.take(1));
            }
        } else {
            let frame = q.take(t + 1);
            let (s2, taken) = apply_marker(s, frame);
            assert(s2 == s);
            lemma_cmd_scan_keeps(s2, q.skip(t + 1), if taken { shown } else { shown + frame });
        }
    }
}

/// `cmd.exe` stays pass-through: in a `cmd.exe` session, where no prompt is ever validated,
/// typed input is forwarded unchanged as one action, no readiness frame is taken, output
/// validates no prompt, and no submission is prepared; the session stays unvalidated through
/// each of these.
pub proof fn law_cmd_passes_through(s: SpecTerminal, data: Seq<char>, familiar_enabled: bool, ids: Seq<Seq<char>>, frame: SpecReadinessFrame, chunk: Seq<char>, raw: Seq<char>, id: Seq<char>)
    requires
        s.expected_shell == ActiveShell::Cmd,
        !s.editing_reliable,
    ensures
        spec_handle_input(s, data, familiar_enabled, ids).1 == seq![SpecAction::Forward { data }],
        spec_handle_input(s, data, familiar_enabled, ids).0.expected_shell == ActiveShell::Cmd,
        !spec_handle_input(s, data, familiar_enabled, ids).0.editing_reliable,
        spec_apply_readiness(s, frame) == (s, false),
        spec_ingest(s, chunk).0.expected_shell == ActiveShell::Cmd,
        !spec_ingest(s, chunk).0.editing_reliable,
        spec_terminal_prepare(s, raw, familiar_enabled, id) == (s, Err::<SpecDecision, _>(TerminalPrepareErrorV1::PromptNotValidated)),
{
    lemma_unvalidated_keeps(s, data, 0);
    if s.accept_pty_readiness {
        lemma_cmd_scan_keeps(s, s.pending_output + chunk, seq![]);
    }
}

/// A submission is prepared only at a validated prompt: before one, preparing is refused and
/// changes nothing; a prepared submission uses the prompt up, so the next needs a new one;
/// typed input never validates a prompt; and a readiness frame that is refused changes
/// nothing. (A new session starts with no validated prompt.)
pub proof fn law_prepare_needs_validated_prompt(
    s: SpecTerminal,
    raw: Seq<char>,
    familiar_enabled: bool,
    id: Seq<char>,
    frame: SpecReadinessFrame,
    data: Seq<char>,
    ids: Seq<Seq<char>>,
)
    ensures
        !s.editing_reliable ==> spec_terminal_prepare(s, raw, familiar_enabled, id)
            == (s, Err::<SpecDecision, _>(TerminalPrepareErrorV1::PromptNotValidated)),
        spec_terminal_prepare(s, raw, familiar_enabled, id).1 is Ok ==> !spec_terminal_prepare(s, raw, familiar_enabled, id).0.editing_reliable,
        !s.editing_reliable ==> !spec_handle_input(s, data, familiar_enabled, ids).0.editing_reliable,
        !spec_apply_readiness(s, frame).1 ==> spec_apply_readiness(s, frame).0 == s,
{
    lemma_unvalidated_keeps(s, data, 0);
}

/// A readiness frame is taken at most once: once taken, the same frame is refused.
pub proof fn law_readiness_not_replayed(s: SpecTerminal, frame: SpecReadinessFrame)
    requires
        spec_apply_readiness(s, frame).1,
    ensures
        !spec_apply_readiness(spec_apply_readiness(s, frame).0, frame).1,
{
}

/// `cmd.exe` stays pass-through through any sequence of calls: every method keeps a session
/// well formed, and in a well-formed `cmd.exe` session no prompt is tracked, so the editor is
/// never ready, typed input is forwarded unchanged as one action, no readiness frame is taken,
/// output validates no prompt, and no submission is prepared.
pub proof fn law_cmd_session_passes_through(
    t: &TerminalSessionV1,
    data: Seq<char>,
    familiar_enabled: bool,
    ids: Seq<Seq<char>>,
    frame: SpecReadinessFrame,
    chunk: Seq<char>,
    raw: Seq<char>,
    id: Seq<char>,
)
    requires
        t.wf(),
        t@.expected_shell == ActiveShell::Cmd,
    ensures
        !t@.editing_reliable,
        spec_handle_input(t@, data, familiar_enabled, ids).1 == seq![SpecAction::Forward { data }],
        spec_apply_readiness(t@, frame) == (t@, false),
        !spec_ingest(t@, chunk).0.editing_reliable,
        spec_terminal_prepare(t@, raw, familiar_enabled, id) == (t@, Err::<SpecDecision, _>(TerminalPrepareErrorV1::PromptNotValidated)),
{
    law_cmd_passes_through(t@, data, familiar_enabled, ids, frame, chunk, raw, id);
}

/// A readiness frame is taken only when it is the one the session waits for: its nonce is the
/// session's, its sequence the expected one, its shell the session's (never `cmd.exe`), at
/// depth 0, in the file system, with the replacing adapter, and no typing has dirtied the
/// cycle; a taken frame leaves the editor ready at an empty line.
pub proof fn law_readiness_accepts_only_the_expected_frame(s: SpecTerminal, frame: SpecReadinessFrame)
    ensures
        spec_apply_readiness(s, frame).1 ==> {
            &&& frame.nonce == s.integration_nonce
            &&& frame.sequence == s.expected_sequence
            &&& frame.shell == s.expected_shell
            &&& s.expected_shell != ActiveShell::Cmd
            &&& frame.shell_depth == 0
            &&& frame.location_kind == EditorLocationKindV1::FileSystem
            &&& frame.adapter_capability == EditorAdapterCapabilityV1::PsReadLineReplaceV1
            &&& !s.readiness_cycle_dirty
            &&& spec_apply_readiness(s, frame).0.editing_reliable
            &&& spec_apply_readiness(s, frame).0.input_reliable
            &&& spec_apply_readiness(s, frame).0.input_buffer.len() == 0
        },
        !spec_apply_readiness(s, frame).1 ==> spec_apply_readiness(s, frame).0 == s,
{
}

} // verus!
