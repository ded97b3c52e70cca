//! What the runner does with a prepared request: which output it writes, which exit code it
//! reports, and which plan it hands on to the executors.

use vstd::prelude::*;
use crate::interpreter::{
    spec_validate_request, validate_prepared_request, ExecutionPlanV1, PreparedRequestKindV1,
    PreparedRequestV1, RunnerRequestValidationErrorV1, SpecRequestKind, SpecStage, StagePlanV1,
};
use crate::submission::InterpreterSession;
use crate::text_stream::append_bytes;
use vstd::utf8::encode_utf8;

verus! {

/// The terminal sequence that clears the screen and homes the cursor.
pub const CLEAR_TERMINAL_SEQUENCE: [u8; 7] = [0x1b, 0x5b, 0x32, 0x4a, 0x1b, 0x5b, 0x48];

/// The exit code of a run that was cancelled.
pub const CANCELLED_EXIT_CODE: u8 = 130;

#[derive(Clone, Debug, Eq, PartialEq)]
pub struct RunnerOutcomeV1 {
    pub stdout: Vec<u8>,
    pub stderr: Vec<u8>,
    pub exit_code: u8,
}

#[derive(Clone, Copy, Debug, Eq, PartialEq)]
pub enum RunnerDispatchErrorV1 {
    UnknownOrConsumedRequest,
    InvalidPreparedRequest(RunnerRequestValidationErrorV1),
    UnsupportedExecutionPlan,
    OutputFailure { kind: std::io::ErrorKind },
}

/// The work a valid prepared request stands for.
#[derive(Clone, Debug, Eq, PartialEq)]
pub enum RunnerRouteV1 {
    /// Write the diagnostic as a line to standard error and exit with the code.
    Reject { diagnostic: String, exit_code: u8 },
    /// Write the response as a line to standard output and exit with the code.
    Control { response: String, exit_code: u8 },
    /// Print the current working directory.
    PrintWorkingDirectory,
    /// Write the clearing sequence to standard output.
    ClearTerminal,
    /// Look the executable up on the search path.
    FindExecutable { name: String },
    /// Run the plan with the executors.
    ExecutePlan { plan: ExecutionPlanV1 },
}

/// The route of a request that validation accepted.
pub open spec fn spec_route(r: SpecRequestKind) -> SpecRoute {
    match r {
        SpecRequestKind::Reject { diagnostic, exit_code } => SpecRoute::Reject { diagnostic, exit_code },
        SpecRequestKind::Control { response, exit_code } => SpecRoute::Control { response, exit_code },
        SpecRequestKind::Execute { plan } => if plan.redirect is None && plan.stages.len() == 1 {
            match plan.stages[0] {
                SpecStage::PrintWorkingDirectory => SpecRoute::PrintWorkingDirectory,
                SpecStage::ClearTerminal => SpecRoute::ClearTerminal,
                SpecStage::FindExecutable { name } => SpecRoute::FindExecutable { name },
                _ => SpecRoute::ExecutePlan { plan },
            }
        } else {
            SpecRoute::ExecutePlan { plan }
        },
    }
}

/// The value of a route.
pub enum SpecRoute {
    Reject { diagnostic: Seq<char>, exit_code: u8 },
    Control { response: Seq<char>, exit_code: u8 },
    PrintWorkingDirectory,
    ClearTerminal,
    FindExecutable { name: Seq<char> },
    ExecutePlan { plan: crate::interpreter::SpecPlan },
}

impl View for RunnerRouteV1 {
    type V = SpecRoute;

    open spec fn view(&self) -> SpecRoute {
        match self {
            RunnerRouteV1::Reject { diagnostic, exit_code } => SpecRoute::Reject { diagnostic: diagnostic@, exit_code: *exit_code },
            RunnerRouteV1::Control { response, exit_code } => SpecRoute::Control { response: response@, exit_code: *exit_code },
            RunnerRouteV1::PrintWorkingDirectory => SpecRoute::PrintWorkingDirectory,
            RunnerRouteV1::ClearTerminal => SpecRoute::ClearTerminal,
            RunnerRouteV1::FindExecutable { name } => SpecRoute::FindExecutable { name: name@ },
            RunnerRouteV1::ExecutePlan { plan } => SpecRoute::ExecutePlan { plan: plan@ },
        }
    }
}

/// Validates a prepared request and says what running it means: an invalid request is
/// refused with the reason, a valid one gives its route.
pub fn route_prepared(request: PreparedRequestV1) -> (r: Result<RunnerRouteV1, RunnerDispatchErrorV1>)
    ensures
        match spec_validate_request(request@) {
            Err(e) => r == Err::<RunnerRouteV1, _>(RunnerDispatchErrorV1::InvalidPreparedRequest(e)),
            Ok(()) => r matches Ok(route) && route@ == spec_route(request@.kind),
        },
{
    match validate_prepared_request(&request) {
        Err(e) => return Err(RunnerDispatchErrorV1::InvalidPreparedRequest(e)),
        Ok(()) => {},
    }
    match request.kind {
        PreparedRequestKindV1::Reject { diagnostic, exit_code } => Ok(RunnerRouteV1::Reject { diagnostic, exit_code }),
        PreparedRequestKindV1::Control { response, exit_code } => Ok(RunnerRouteV1::Control { response, exit_code }),
        PreparedRequestKindV1::Execute { plan } => {
            if plan.redirect.is_none() && plan.stages.len() == 1 {
                match &plan.stages[0] {
                    StagePlanV1::PrintWorkingDirectory => return Ok(RunnerRouteV1::PrintWorkingDirectory),
                    StagePlanV1::ClearTerminal => return Ok(RunnerRouteV1::ClearTerminal),
                    StagePlanV1::FindExecutable { name } => {
                        return Ok(RunnerRouteV1::FindExecutable { name: name.clone() });
                    },
                    _ => {},
                }
            }
            Ok(RunnerRouteV1::ExecutePlan { plan })
        },
    }
}

/// Takes the prepared request out of the session and routes it; an id that the session does
/// not hold (never prepared, or already taken) is refused.
pub fn dispatch_prepared(session: &mut InterpreterSession, request_id: &str) -> (r: Result<RunnerRouteV1, RunnerDispatchErrorV1>)
    requires
        old(session).wf(),
    ensures
        final(session).wf(),
        final(session)@ == crate::submission::spec_consumed(old(session)@, request_id@),
        !old(session)@.prepared.dom().contains(request_id@) ==> r == Err::<RunnerRouteV1, _>(RunnerDispatchErrorV1::UnknownOrConsumedRequest),
        old(session)@.prepared.dom().contains(request_id@) ==> {
            let request = old(session)@.prepared[request_id@];
            match spec_validate_request(request) {
                Err(e) => r == Err::<RunnerRouteV1, _>(RunnerDispatchErrorV1::InvalidPreparedRequest(e)),
                Ok(()) => r matches Ok(route) && route@ == spec_route(request.kind),
            }
        },
{
    match session.consume_prepared(request_id) {
        None => Err(RunnerDispatchErrorV1::UnknownOrConsumedRequest),
        Some(request) => route_prepared(request),
    }
}

/// `Write::write_all` of `data` on `writer`; what the writer does with the bytes, and whether
/// it fails, is up to it.
#[verifier::external_body]
pub(crate) fn write_all_io<W: std::io::Write + ?Sized>(writer: &mut W, data: &[u8]) -> (r: Result<(), std::io::Error>) {
    writer.write_all(data)
}

/// `Write::flush` on `writer`.
#[verifier::external_body]
pub(crate) fn flush_io<W: std::io::Write + ?Sized>(writer: &mut W) -> (r: Result<(), std::io::Error>) {
    writer.flush()
}

/// `io::Error::kind`: the kind of an error, which is opaque here.
#[verifier::external_body]
pub(crate) fn io_error_kind(error: &std::io::Error) -> (r: std::io::ErrorKind) {
    error.kind()
}

/// `Write::write_all` of `data` on `writer`, an error reduced to its kind.
fn write_all_kind<W: std::io::Write + ?Sized>(writer: &mut W, data: &[u8]) -> (r: Result<(), std::io::ErrorKind>) {
    match write_all_io(writer, data) {
        Ok(()) => Ok(()),
        Err(e) => Err(io_error_kind(&e)),
    }
}

/// `Write::flush` on `writer`, an error reduced to its kind.
fn flush_kind<W: std::io::Write + ?Sized>(writer: &mut W) -> (r: Result<(), std::io::ErrorKind>) {
    match flush_io(writer) {
        Ok(()) => Ok(()),
        Err(e) => Err(io_error_kind(&e)),
    }
}

/// The bytes of a line of text: its UTF-8 encoding followed by CR LF.
pub fn line_bytes(value: &str) -> (r: Vec<u8>)
    ensures
        r@ == encode_utf8(value@) + seq![13u8, 10u8],
{
    let mut bytes: Vec<u8> = Vec::new();
    append_bytes(&mut bytes, value.as_bytes());
    let ghost text = bytes@;
    bytes.push(13);
    bytes.push(10);
    assert(text =~= encode_utf8(value@));
    assert(bytes@ =~= encode_utf8(value@) + seq![13u8, 10u8]);
    bytes
}

/// The bytes of the sequence that clears the screen and homes the cursor.
pub open spec fn clear_sequence() -> Seq<u8> {
    seq![0x1bu8, 0x5bu8, 0x32u8, 0x4au8, 0x1bu8, 0x5bu8, 0x48u8]
}

/// The clearing sequence, as bytes to write.
pub fn clear_sequence_bytes() -> (r: Vec<u8>)
    ensures
        r@ == clear_sequence(),
{
    let sequence = CLEAR_TERMINAL_SEQUENCE;
    let mut bytes: Vec<u8> = Vec::new();
    let mut i: usize = 0;
    while i < 7
        invariant
            i <= 7,
            sequence@ == clear_sequence(),
            bytes@ == clear_sequence().take(i as int),
        decreases 7 - i,
    {
        bytes.push(sequence[i]);
        i += 1;
        assert(bytes@ =~= clear_sequence().take(i as int));
    }
    assert(clear_sequence().take(7) =~= clear_sequence());
    bytes
}

/// Writes `bytes` with a single `write_all` and then flushes; a failure of the writer is an
/// output failure of its kind.
fn write_and_flush<W: std::io::Write + ?Sized>(writer: &mut W, bytes: &[u8]) -> (r: Result<(), RunnerDispatchErrorV1>)
    ensures
        r is Ok || r matches Err(RunnerDispatchErrorV1::OutputFailure { .. }),
{
    match write_all_kind(writer, bytes) {
        Err(kind) => return Err(RunnerDispatchErrorV1::OutputFailure { kind }),
        Ok(()) => {},
    }
    match flush_kind(writer) {
        Err(kind) => Err(RunnerDispatchErrorV1::OutputFailure { kind }),
        Ok(()) => Ok(()),
    }
}

/// Writes the bytes of `line_bytes(value)`, the text and CR LF, then flushes; a failure of
/// the writer is an output failure of its kind.
pub fn write_line<W: std::io::Write + ?Sized>(writer: &mut W, value: &str) -> (r: Result<(), RunnerDispatchErrorV1>)
    ensures
        r is Ok || r matches Err(RunnerDispatchErrorV1::OutputFailure { .. }),
{
    let bytes = line_bytes(value);
    write_and_flush(writer, bytes.as_slice())
}

/// Writes the bytes of `clear_sequence_bytes()` and flushes, unless a poll of `cancelled`
/// before the write says the run was cancelled. The exit code is 130 exactly when a poll
/// answered `true`, and 0 when the poll after the write answered `false`.
pub fn clear_terminal_to<W: std::io::Write + ?Sized, C: Fn() -> bool>(stdout: &mut W, cancelled: C) -> (r: Result<u8, RunnerDispatchErrorV1>)
    requires
        cancelled.requires(()),
    ensures
        match r {
            Ok(code) => (code == 0 && cancelled.ensures((), false))
                || (code == CANCELLED_EXIT_CODE && cancelled.ensures((), true)),
            Err(e) => e is OutputFailure,
        },
{
    if cancelled() {
        return Ok(CANCELLED_EXIT_CODE);
    }
    let sequence = clear_sequence_bytes();
    write_and_flush(stdout, sequence.as_slice())?;
    if cancelled() {
        Ok(CANCELLED_EXIT_CODE)
    } else {
        Ok(0)
    }
}

/// The stream a writer route writes to.
#[derive(Clone, Copy, Debug, Eq, PartialEq, Structural)]
pub enum OutputStreamV1 {
    Stdout,
    Stderr,
}

/// What a writer route writes, where, and the exit code it reports when all went well.
#[derive(Clone, Debug, Eq, PartialEq)]
pub struct WriterOutputV1 {
    pub stream: OutputStreamV1,
    pub bytes: Vec<u8>,
    pub exit_code: u8,
}

pub struct SpecWriterOutput {
    pub stream: OutputStreamV1,
    pub bytes: Seq<u8>,
    pub exit_code: u8,
}

impl View for WriterOutputV1 {
    type V = SpecWriterOutput;

    open spec fn view(&self) -> SpecWriterOutput {
        SpecWriterOutput { stream: self.stream, bytes: self.bytes@, exit_code: self.exit_code }
    }
}

/// What a route that needs only the two writers writes: a rejection its diagnostic as a line
/// on standard error, a control its response as a line on standard output, a clear the
/// clearing sequence on standard output with exit code 0. Other routes write nothing here.
pub open spec fn spec_writer_output(route: SpecRoute) -> Option<SpecWriterOutput> {
    match route {
        SpecRoute::Reject { diagnostic, exit_code } => Some(SpecWriterOutput {
            stream: OutputStreamV1::Stderr,
            bytes: encode_utf8(diagnostic) + seq![13u8, 10u8],
            exit_code,
        }),
        SpecRoute::Control { response, exit_code } => Some(SpecWriterOutput {
            stream: OutputStreamV1::Stdout,
            bytes: encode_utf8(response) + seq![13u8, 10u8],
            exit_code,
        }),
        SpecRoute::ClearTerminal => Some(SpecWriterOutput { stream: OutputStreamV1::Stdout, bytes: clear_sequence(), exit_code: 0 }),
        _ => None,
    }
}

/// The output of a route that needs only the two writers.
pub fn writer_route_output(route: &RunnerRouteV1) -> (r: Option<WriterOutputV1>)
    ensures
        match spec_writer_output(route@) {
            None => r is None,
            Some(o) => r matches Some(w) && w@ == o,
        },
{
    match route {
        RunnerRouteV1::Reject { diagnostic, exit_code } => Some(WriterOutputV1 {
            stream: OutputStreamV1::Stderr,
            bytes: line_bytes(diagnostic.as_str()),
            exit_code: *exit_code,
        }),
        RunnerRouteV1::Control { response, exit_code } => Some(WriterOutputV1 {
            stream: OutputStreamV1::Stdout,
            bytes: line_bytes(response.as_str()),
            exit_code: *exit_code,
        }),
        RunnerRouteV1::ClearTerminal => Some(WriterOutputV1 { stream: OutputStreamV1::Stdout, bytes: clear_sequence_bytes(), exit_code: 0 }),
        _ => None,
    }
}

/// Runs the routes that need only the two writers, writing the bytes of
/// `writer_route_output(route)` to their stream with a single write and a flush. A clear is
/// not written when a poll of `cancelled` before it says the run was cancelled; its exit code
/// is 130 exactly when a poll answered `true`. Other routes give `None`.
pub fn execute_writer_route<W: std::io::Write + ?Sized, E: std::io::Write + ?Sized, C: Fn() -> bool>(
    route: &RunnerRouteV1,
    stdout: &mut W,
    stderr: &mut E,
    cancelled: C,
) -> (r: Option<Result<u8, RunnerDispatchErrorV1>>)
    requires
        cancelled.requires(()),
    ensures
        match spec_writer_output(route@) {
            None => r is None,
            Some(o) => r matches Some(res) && match res {
                Ok(code) => if route@ is ClearTerminal {
                    (code == 0 && cancelled.ensures((), false)) || (code == CANCELLED_EXIT_CODE && cancelled.ensures((), true))
                } else {
                    code == o.exit_code
                },
                Err(e) => e is OutputFailure,
            },
        },
{
    let output = match writer_route_output(route) {
        None => return None,
        Some(o) => o,
    };
    if let RunnerRouteV1::ClearTerminal = route {
        return Some(clear_terminal_to(stdout, cancelled));
    }
    let written = match output.stream {
        OutputStreamV1::Stdout => write_and_flush(stdout, output.bytes.as_slice()),
        OutputStreamV1::Stderr => write_and_flush(stderr, output.bytes.as_slice()),
    };
    Some(match written {
        Ok(()) => Ok(output.exit_code),
        Err(e) => Err(e),
    })
}

/// A prepared request runs at most once: after a dispatch of an id, whatever it gave, the
/// session is `spec_consumed` of the one before and no longer holds that id, so by the
/// contract of `dispatch_prepared` a second dispatch of it is refused as unknown or consumed.
pub proof fn law_dispatch_single_use(session: crate::submission::SpecSession, request_id: Seq<char>)
    ensures
        !crate::submission::spec_consumed(session, request_id).prepared.dom().contains(request_id),
        crate::submission::spec_consumed(crate::submission::spec_consumed(session, request_id), request_id)
            == crate::submission::spec_consumed(session, request_id),
{
    assert(crate::submission::spec_consumed(session, request_id).prepared.remove(request_id)
        =~= crate::submission::spec_consumed(session, request_id).prepared);
}

} // verus!
