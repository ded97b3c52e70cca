//! The handoff between a launching process and the window it starts: the internal command
//! line that carries the pipe, the messages and their frames, and the bounds on what they
//! hold.

use vstd::prelude::*;
use crate::app_launch::{is_text, GuiLaunchRequestV1, LaunchArgumentV1, SpecArgument};
use crate::catalog::{parse_usize, spec_parse_usize};
use crate::text::{chars_of, eq_str};
use crate::transport::{is_valid_nonce, spec_valid_nonce};

verus! {

pub const MAX_HANDOFF_DIAGNOSTIC_CHARS: usize = 512;

/// Whether `value` is 32 ASCII hexadecimal digits.
pub fn valid_nonce(value: &str) -> (r: bool)
    ensures
        r == spec_valid_nonce(value@),
{
    is_valid_nonce(value)
}

/// At most the first 512 characters of `value`.
pub fn bounded_diagnostic(value: &str) -> (r: String)
    ensures
        r@ == if value@.len() <= MAX_HANDOFF_DIAGNOSTIC_CHARS { value@ } else { value@.take(MAX_HANDOFF_DIAGNOSTIC_CHARS as int) },
{
    let mut r = String::new();
    let mut n: usize = 0;
    for c in it: value.chars()
        invariant
            it.seq() == value@,
            n == (if it.index() <= MAX_HANDOFF_DIAGNOSTIC_CHARS { it.index() as int } else { MAX_HANDOFF_DIAGNOSTIC_CHARS as int }),
            r@ == value@.take(if it.index() <= MAX_HANDOFF_DIAGNOSTIC_CHARS { it.index() as int } else { MAX_HANDOFF_DIAGNOSTIC_CHARS as int }),
    {
        if n < MAX_HANDOFF_DIAGNOSTIC_CHARS {
            let ghost before = r@;
            crate::text::push_char(&mut r, c);
            assert(r@ =~= value@.take(n + 1));
            n += 1;
        }
    }
    assert(value@.take(value@.len() as int) =~= value@);
    r
}

pub const HANDOFF_VERSION: u8 = 1;
pub const MAX_HANDOFF_FRAME_BYTES: usize = 16384;

/// Why a handoff failed.
#[derive(Clone, Copy, Debug, Eq, PartialEq)]
pub enum HandoffErrorV1 {
    InvalidInternalInvocation,
    InvalidParent,
    InvalidMessage,
    Cancelled,
    Timeout,
    Io { kind: std::io::ErrorKind },
}

/// The first argument that marks the internal start of a window.
pub open spec fn internal_gui_marker() -> Seq<char> {
    "--wingman-internal-gui"@
}

/// Whether the arguments (without the program name) start with the internal marker.
pub open spec fn spec_is_internal_gui(args: Seq<SpecArgument>) -> bool {
    args.len() > 0 && is_text(args[0], internal_gui_marker())
}

/// The pipe handle an internal start hands over: exactly the marker and a decimal handle
/// that is neither 0 nor the largest value.
pub open spec fn spec_internal_gui_handle(args: Seq<SpecArgument>) -> Result<usize, HandoffErrorV1> {
    if args.len() != 2 || !spec_is_internal_gui(args) {
        Err(HandoffErrorV1::InvalidInternalInvocation)
    } else {
        match args[1] {
            SpecArgument::Text(t) => match spec_parse_usize(t) {
                Some(v) => if v != 0 && v != usize::MAX { Ok(v) } else { Err(HandoffErrorV1::InvalidInternalInvocation) },
                None => Err(HandoffErrorV1::InvalidInternalInvocation),
            },
            SpecArgument::NotUnicode => Err(HandoffErrorV1::InvalidInternalInvocation),
        }
    }
}

pub open spec fn arguments_view(args: Seq<LaunchArgumentV1>) -> Seq<SpecArgument> {
    args.map_values(|a: LaunchArgumentV1| a@)
}

/// Whether the arguments are those of an internal start of a window.
pub fn is_internal_gui_invocation(arguments: &[LaunchArgumentV1]) -> (r: bool)
    ensures
        r == spec_is_internal_gui(arguments_view(arguments@)),
{
    if arguments.len() == 0 {
        return false;
    }
    match &arguments[0] {
        LaunchArgumentV1::Text(t) => {
            let chars = chars_of(t.as_str());
            eq_str(chars.as_slice(), "--wingman-internal-gui")
        },
        LaunchArgumentV1::NotUnicode => false,
    }
}

/// Accepts the command line of an internal start: the pipe handle it names. Opening the
/// pipe and reading the request are left to the caller.
pub fn accept_internal_gui(arguments: &[LaunchArgumentV1]) -> (r: Result<usize, HandoffErrorV1>)
    ensures
        r == spec_internal_gui_handle(arguments_view(arguments@)),
{
    if arguments.len() != 2 || !is_internal_gui_invocation(arguments) {
        return Err(HandoffErrorV1::InvalidInternalInvocation);
    }
    assert(arguments_view(arguments@)[1] == arguments@[1]@);
    match &arguments[1] {
        LaunchArgumentV1::Text(t) => {
            let chars = chars_of(t.as_str());
            match parse_usize(chars.as_slice()) {
                Some(v) => if v != 0 && v != usize::MAX { Ok(v) } else { Err(HandoffErrorV1::InvalidInternalInvocation) },
                None => Err(HandoffErrorV1::InvalidInternalInvocation),
            }
        },
        LaunchArgumentV1::NotUnicode => Err(HandoffErrorV1::InvalidInternalInvocation),
    }
}

/// What the launcher asks of the window it starts.
#[derive(Clone, Debug, Eq, PartialEq)]
pub struct HandoffRequestV1 {
    pub version: u8,
    pub nonce: String,
    pub parent_process_id: u32,
    pub launch: GuiLaunchRequestV1,
}

/// Whether a window took over or failed.
#[derive(Clone, Copy, Debug, Eq, PartialEq, Structural)]
pub enum HandoffStatusV1 {
    Ready,
    Failed,
}

/// What the window answers the launcher.
#[derive(Clone, Debug, Eq, PartialEq)]
pub struct HandoffResponseV1 {
    pub version: u8,
    pub nonce: String,
    pub status: HandoffStatusV1,
    pub diagnostic: Option<String>,
}

/// The launcher's acknowledgement of a window that took over.
#[derive(Clone, Debug, Eq, PartialEq)]
pub struct HandoffAckV1 {
    pub version: u8,
    pub nonce: String,
    pub acknowledged: bool,
}

/// How a launch ended: the window took over, or it failed with a diagnostic.
#[derive(Clone, Debug, Eq, PartialEq)]
pub enum LauncherOutcomeV1 {
    Ready,
    Failed(String),
}

/// Checks the request a window reads: this version, sent by the process at the other end of
/// the pipe, with a well-formed nonce.
pub fn check_handoff_request(request: &HandoffRequestV1, server_process_id: u32) -> (r: Result<(), HandoffErrorV1>)
    ensures
        r is Ok <==> request.version == HANDOFF_VERSION && request.parent_process_id == server_process_id
            && spec_valid_nonce(request.nonce@),
        r is Err ==> r == Err::<(), _>(HandoffErrorV1::InvalidMessage),
{
    if request.version != HANDOFF_VERSION || request.parent_process_id != server_process_id
        || !is_valid_nonce(request.nonce.as_str()) {
        return Err(HandoffErrorV1::InvalidMessage);
    }
    Ok(())
}

/// The diagnostic of a failed window that gave none.
pub open spec fn default_failure_text() -> Seq<char> {
    "GUI initialization failed"@
}

/// What the launcher makes of the window's answer: with this version and nonce, a ready
/// window without a diagnostic is ready, a failed one failed with its diagnostic or the
/// default one; anything else is an invalid message.
pub fn launcher_outcome(response: HandoffResponseV1, nonce: &str) -> (r: Result<LauncherOutcomeV1, HandoffErrorV1>)
    ensures
        response.version != HANDOFF_VERSION || response.nonce@ != nonce@ ==> r == Err::<LauncherOutcomeV1, _>(HandoffErrorV1::InvalidMessage),
        response.version == HANDOFF_VERSION && response.nonce@ == nonce@ ==> match response.status {
            HandoffStatusV1::Ready => if response.diagnostic is None {
                r == Ok::<_, HandoffErrorV1>(LauncherOutcomeV1::Ready)
            } else {
                r == Err::<LauncherOutcomeV1, _>(HandoffErrorV1::InvalidMessage)
            },
            HandoffStatusV1::Failed => r matches Ok(LauncherOutcomeV1::Failed(d)) && d@ == match response.diagnostic {
                Some(x) => x@,
                None => default_failure_text(),
            },
        },
{
    let expected = chars_of(nonce);
    let got = chars_of(response.nonce.as_str());
    if response.version != HANDOFF_VERSION || !crate::text::chars_eq(got.as_slice(), expected.as_slice()) {
        return Err(HandoffErrorV1::InvalidMessage);
    }
    match response.status {
        HandoffStatusV1::Ready => match response.diagnostic {
            None => Ok(LauncherOutcomeV1::Ready),
            Some(_) => Err(HandoffErrorV1::InvalidMessage),
        },
        HandoffStatusV1::Failed => match response.diagnostic {
            Some(d) => Ok(LauncherOutcomeV1::Failed(d)),
            None => Ok(LauncherOutcomeV1::Failed("GUI initialization failed".to_string())),
        },
    }
}

/// Checks the launcher's acknowledgement: this version, this nonce, and acknowledged.
pub fn check_handoff_ack(ack: &HandoffAckV1, nonce: &str) -> (r: Result<(), HandoffErrorV1>)
    ensures
        r is Ok <==> ack.version == HANDOFF_VERSION && ack.nonce@ == nonce@ && ack.acknowledged,
        r is Err ==> r == Err::<(), _>(HandoffErrorV1::InvalidMessage),
{
    let expected = chars_of(nonce);
    let got = chars_of(ack.nonce.as_str());
    if ack.version != HANDOFF_VERSION || !crate::text::chars_eq(got.as_slice(), expected.as_slice()) || !ack.acknowledged {
        return Err(HandoffErrorV1::InvalidMessage);
    }
    Ok(())
}

/// The answer of a window that failed, with its diagnostic cut to 512 characters.
pub fn failed_response(nonce: &str, diagnostic: &str) -> (r: HandoffResponseV1)
    ensures
        r.version == HANDOFF_VERSION,
        r.nonce@ == nonce@,
        r.status == HandoffStatusV1::Failed,
        r.diagnostic matches Some(d) && d@ == (if diagnostic@.len() <= MAX_HANDOFF_DIAGNOSTIC_CHARS { diagnostic@ } else {
            diagnostic@.take(MAX_HANDOFF_DIAGNOSTIC_CHARS as int)
        }),
{
    HandoffResponseV1 {
        version: HANDOFF_VERSION,
        nonce: nonce.to_string(),
        status: HandoffStatusV1::Failed,
        diagnostic: Some(bounded_diagnostic(diagnostic)),
    }
}

/// The value of four bytes, least significant first.
pub open spec fn le_value(b: Seq<u8>) -> int {
    b[0] + 256 * b[1] + 65536 * b[2] + 16777216 * b[3]
}

/// The length prefix of a frame whose body has `len` bytes: four bytes, least significant
/// first. An empty body or one over 16 KiB is an invalid message.
pub fn frame_header(len: usize) -> (r: Result<[u8; 4], HandoffErrorV1>)
    ensures
        len == 0 || len > MAX_HANDOFF_FRAME_BYTES ==> r == Err::<[u8; 4], _>(HandoffErrorV1::InvalidMessage),
        0 < len <= MAX_HANDOFF_FRAME_BYTES ==> (r matches Ok(h) && le_value(h@) == len),
{
    if len == 0 || len > MAX_HANDOFF_FRAME_BYTES {
        return Err(HandoffErrorV1::InvalidMessage);
    }
    let b0: u8 = (len % 256) as u8;
    let b1: u8 = ((len / 256) % 256) as u8;
    let header: [u8; 4] = [b0, b1, 0, 0];
    assert(header@ =~= seq![b0, b1, 0u8, 0u8]);
    Ok(header)
}

/// The body length a frame's prefix announces; 0 or more than 16 KiB is an invalid message.
pub open spec fn spec_frame_length(header: Seq<u8>) -> Result<usize, HandoffErrorV1> {
    let v = le_value(header);
    if v == 0 || v > MAX_HANDOFF_FRAME_BYTES { Err(HandoffErrorV1::InvalidMessage) } else { Ok(v as usize) }
}

/// The body length a frame's prefix announces.
pub fn frame_length(header: [u8; 4]) -> (r: Result<usize, HandoffErrorV1>)
    ensures
        r == spec_frame_length(header@),
{
    let value: u64 = header[0] as u64 + 256 * (header[1] as u64) + 65536 * (header[2] as u64) + 16777216 * (header[3] as u64);
    if value == 0 || value > MAX_HANDOFF_FRAME_BYTES as u64 {
        return Err(HandoffErrorV1::InvalidMessage);
    }
    Ok(value as usize)
}

/// A frame's length prefix, as `frame_header` writes it, reads back as the length it was
/// written for.
pub proof fn law_frame_length_round_trip(len: usize, header: Seq<u8>)
    requires
        0 < len <= MAX_HANDOFF_FRAME_BYTES,
        header.len() == 4,
        le_value(header) == len,
    ensures
        spec_frame_length(header) == Ok::<usize, HandoffErrorV1>(len),
{
}

} // verus!
