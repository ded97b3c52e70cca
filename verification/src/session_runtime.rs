//! Writing terminal input to the session it belongs to, and applying Familiar controls.

use vstd::prelude::*;
use crate::interpreter::{parse_familiar_control, spec_familiar_control, ActiveShell, FamiliarControlEffectV1, PreparedRequestV1};
use crate::shell_adapter::{build_prepared_editor_write, spec_editor_write, EditorReplacementErrorV1};
use crate::submission::{FrontendDecisionKindV1, SpecDecisionKind, SpecSession};
use crate::terminal_session::{actions_view, spec_handle_input, SpecAction, SpecTerminal, TerminalInputActionV1, TerminalSessionV1};
use crate::text::strings_view;
use crate::runner::{flush_io, write_all_io};
use crate::text_stream::append_bytes;
use vstd::utf8::encode_utf8;

verus! {

#[verifier::external_type_specification]
#[verifier::external_body]
pub struct ExIoError(std::io::Error);

#[derive(Clone, Copy, Debug, Eq, PartialEq, Structural)]
pub enum SessionWriteOutcomeV1 {
    Written,
    Stale,
}

#[derive(Clone, Debug, Eq, PartialEq)]
pub enum TerminalExecutionOutcomeV1 {
    Native,
    NativeFallback,
    Prepared { request_id: String, familiar_effect: Option<FamiliarControlEffectV1> },
}

/// What terminal input for a session comes to: nothing, when it is not for the active
/// session, or these bytes for the session's shell.
#[derive(Clone, Debug, Eq, PartialEq)]
pub enum SessionWriteV1 {
    Stale,
    Write { bytes: Vec<u8> },
}

/// Input for the active session is written as its UTF-8 bytes; input for another session is
/// stale.
pub fn session_write(active_session_id: u64, client_session_id: u64, data: &str) -> (r: SessionWriteV1)
    ensures
        active_session_id != client_session_id ==> r is Stale,
        active_session_id == client_session_id ==> (r matches SessionWriteV1::Write { bytes } && bytes@ == encode_utf8(data@)),
{
    if active_session_id != client_session_id {
        return SessionWriteV1::Stale;
    }
    let mut bytes: Vec<u8> = Vec::new();
    append_bytes(&mut bytes, data.as_bytes());
    assert(bytes@ =~= encode_utf8(data@));
    SessionWriteV1::Write { bytes }
}

/// Writes input to the session only when it is for the active session: the bytes of
/// `session_write`, with a single `write_all` and a flush; input for another session is stale
/// and not written.
pub fn write_session_input<W: std::io::Write + ?Sized>(
    active_session_id: u64,
    client_session_id: u64,
    writer: &mut W,
    data: &str,
) -> (r: Result<SessionWriteOutcomeV1, std::io::Error>)
    ensures
        active_session_id != client_session_id ==> r matches Ok(SessionWriteOutcomeV1::Stale),
        active_session_id == client_session_id ==> (r is Ok ==> r matches Ok(SessionWriteOutcomeV1::Written)),
{
    let bytes = match session_write(active_session_id, client_session_id, data) {
        SessionWriteV1::Stale => return Ok(SessionWriteOutcomeV1::Stale),
        SessionWriteV1::Write { bytes } => bytes,
    };
    match write_all_io(writer, bytes.as_slice()) {
        Err(e) => return Err(e),
        Ok(()) => {},
    }
    match flush_io(writer) {
        Err(e) => Err(e),
        Ok(()) => Ok(SessionWriteOutcomeV1::Written),
    }
}

/// Applies a Familiar control: a setting is handed to `persist` first and taken only when
/// that worked, an error of `persist` coming back as it is; a status query leaves the state
/// as it is. The result is the state after it.
pub fn apply_familiar_effect<F>(effect: FamiliarControlEffectV1, familiar_enabled: &mut bool, persist: F)
    -> (r: Result<bool, std::io::Error>)
    where
        F: Fn(bool) -> Result<(), std::io::Error>,
    requires
        forall|b: bool| persist.requires((b,)),
    ensures
        match effect {
            FamiliarControlEffectV1::Status => (r matches Ok(v) && v == *old(familiar_enabled))
                && *final(familiar_enabled) == *old(familiar_enabled),
            FamiliarControlEffectV1::SetTo(e) => match r {
                Ok(v) => v == e && *final(familiar_enabled) == e && persist.ensures((e,), Ok::<(), std::io::Error>(())),
                Err(x) => *final(familiar_enabled) == *old(familiar_enabled) && persist.ensures((e,), Err::<(), std::io::Error>(x)),
            },
        },
{
    match effect {
        FamiliarControlEffectV1::Status => Ok(*familiar_enabled),
        FamiliarControlEffectV1::SetTo(enabled) => {
            let persisted = persist(enabled);
            let ghost answer = persisted;
            match persisted {
                Err(x) => Err(x),
                Ok(u) => {
                    assert(answer == Ok::<(), std::io::Error>(()));
                    *familiar_enabled = enabled;
                    Ok(*familiar_enabled)
                },
            }
        },
    }
}


/// A prepared request that terminal input submitted: its id, what the editor is sent, and
/// the Familiar control it asks for.
pub struct PreparedTerminalDispatchV1 {
    pub request_id: String,
    pub editor_write: String,
    pub familiar_effect: Option<FamiliarControlEffectV1>,
}

/// What terminal input turns into: text for the shell, and at most one prepared request.
pub struct TerminalDispatchV1 {
    pub native_writes: Vec<String>,
    pub prepared: Option<PreparedTerminalDispatchV1>,
}

#[derive(Debug)]
pub enum TerminalDispatchErrorV1 {
    MultiplePreparedSubmissions,
    MissingPreparedRequest,
    EditorReplacement(EditorReplacementErrorV1),
    Broker(std::io::Error),
}

pub struct SpecPreparedDispatch {
    pub request_id: Seq<char>,
    pub editor_write: Seq<char>,
    pub familiar_effect: Option<FamiliarControlEffectV1>,
}

pub enum SpecDispatchError {
    MultiplePreparedSubmissions,
    MissingPreparedRequest,
    EditorReplacement(EditorReplacementErrorV1),
}

/// What dispatching `acts[..k]` does to the terminal, when every registration works: the
/// terminal, the text for the shell, and the prepared request, or the error.
pub open spec fn spec_dispatch(t: SpecTerminal, acts: Seq<SpecAction>, shell: ActiveShell, k: int)
    -> Result<(SpecTerminal, Seq<Seq<char>>, Option<SpecPreparedDispatch>), SpecDispatchError>
    decreases k,
{
    if k <= 0 {
        Ok((t, Seq::empty(), None))
    } else {
        match spec_dispatch(t, acts, shell, k - 1) {
            Err(e) => Err(e),
            Ok((t1, writes, prepared)) => match acts[k - 1] {
                SpecAction::Forward { data } => Ok((t1, writes.push(data), prepared)),
                SpecAction::Prepared { decision, editor } => match decision.decision {
                    SpecDecisionKind::PassThrough { .. } => Ok((t1, writes.push(seq!['\r']), prepared)),
                    SpecDecisionKind::InvokePrepared { request_id, display_line } => if prepared is Some {
                        Err(SpecDispatchError::MultiplePreparedSubmissions)
                    } else {
                        match spec_editor_write(shell, decision, editor) {
                            Err(e) => Err(SpecDispatchError::EditorReplacement(e)),
                            Ok(w) => match t1.interpreter {
                                None => Err(SpecDispatchError::MissingPreparedRequest),
                                Some(i) => if !i.prepared.dom().contains(request_id) {
                                    Err(SpecDispatchError::MissingPreparedRequest)
                                } else {
                                    Ok((
                                        SpecTerminal { interpreter: Some(SpecSession { prepared: i.prepared.remove(request_id), ..i }), ..t1 },
                                        writes,
                                        Some(SpecPreparedDispatch { request_id, editor_write: w, familiar_effect: spec_familiar_control(display_line) }),
                                    ))
                                },
                            },
                        }
                    },
                },
            },
        }
    }
}

pub open spec fn prepared_dispatch_view(p: Option<PreparedTerminalDispatchV1>) -> Option<SpecPreparedDispatch> {
    match p {
        Some(p) => Some(SpecPreparedDispatch { request_id: p.request_id@, editor_write: p.editor_write@, familiar_effect: p.familiar_effect }),
        None => None,
    }
}

/// Once dispatching failed, the rest of the actions change nothing.
proof fn lemma_dispatch_error_sticks(t: SpecTerminal, acts: Seq<SpecAction>, shell: ActiveShell, k: int, n: int)
    requires
        0 <= k <= n,
        spec_dispatch(t, acts, shell, k) is Err,
    ensures
        spec_dispatch(t, acts, shell, n) == spec_dispatch(t, acts, shell, k),
    decreases n - k,
{
    if k < n {
        lemma_dispatch_error_sticks(t, acts, shell, k, n - 1);
    }
}

/// Whether the result and terminal are what dispatching gives, or registration failed.
pub open spec fn dispatch_matches(
    s: Result<(SpecTerminal, Seq<Seq<char>>, Option<SpecPreparedDispatch>), SpecDispatchError>,
    r: &Result<TerminalDispatchV1, TerminalDispatchErrorV1>,
    after: SpecTerminal,
) -> bool {
    ||| r matches Err(TerminalDispatchErrorV1::Broker(_))
    ||| match s {
        Err(SpecDispatchError::MultiplePreparedSubmissions) => r matches Err(TerminalDispatchErrorV1::MultiplePreparedSubmissions),
        Err(SpecDispatchError::MissingPreparedRequest) => r matches Err(TerminalDispatchErrorV1::MissingPreparedRequest),
        Err(SpecDispatchError::EditorReplacement(e)) => r matches Err(TerminalDispatchErrorV1::EditorReplacement(x)) && x == e,
        Ok((t, writes, prepared)) => r matches Ok(d) && strings_view(d.native_writes@) == writes
            && prepared_dispatch_view(d.prepared) == prepared && after == t,
    }
}

/// Turns the terminal's actions into text for the shell and at most one prepared request,
/// which is taken from the session and handed to `register`.
pub fn dispatch_actions<R>(
    session: &mut TerminalSessionV1,
    shell: ActiveShell,
    actions: Vec<TerminalInputActionV1>,
    register: R,
) -> (r: Result<TerminalDispatchV1, TerminalDispatchErrorV1>)
    where
        R: Fn(String, PreparedRequestV1) -> Result<(), std::io::Error>,
    requires
        old(session).wf(),
        forall|id: String, request: PreparedRequestV1| register.requires((id, request)),
    ensures
        final(session).wf(),
        dispatch_matches(spec_dispatch(old(session)@, actions_view(actions@), shell, actions@.len() as int), &r, final(session)@),
{
    let ghost acts = actions_view(actions@);
    let ghost order = actions@;
    let count = actions.len();
    let mut pending = crate::ordered_stage::reversed(actions);
    let mut native_writes: Vec<String> = Vec::new();
    let mut prepared: Option<PreparedTerminalDispatchV1> = None;
    let mut k: usize = 0;
    proof {
        assert(strings_view(native_writes@) =~= Seq::<Seq<char>>::empty());
    }
    while pending.len() > 0
        invariant
            k <= order.len(),
            count == order.len(),
            pending@ == order.subrange(k as int, order.len() as int).reverse(),
            acts == actions_view(order),
            order == actions@,
            session.wf(),
            forall|id: String, request: PreparedRequestV1| register.requires((id, request)),
            spec_dispatch(old(session)@, acts, shell, k as int)
                == Ok::<(SpecTerminal, Seq<Seq<char>>, Option<SpecPreparedDispatch>), SpecDispatchError>((session@, strings_view(native_writes@), prepared_dispatch_view(prepared))),
        decreases pending.len(),
    {
        proof {
            crate::ordered_stage::lemma_pop_reversed(order, k as int);
        }
        let action = pending.pop().unwrap();
        assert(action@ == acts[k as int]);
        let ghost writes_before = native_writes@;
        match action {
            TerminalInputActionV1::Forward { data } => {
                native_writes.push(data);
                proof {
                    crate::text::lemma_strings_view_push(writes_before, native_writes@[k as int - k as int + writes_before.len()]);
                    assert(strings_view(native_writes@) =~= strings_view(writes_before).push(native_writes@.last()@));
                }
            },
            TerminalInputActionV1::Prepared { decision, editor } => {
                match &decision.decision {
                    FrontendDecisionKindV1::PassThrough { .. } => {
                        native_writes.push(crate::text::owned("\r"));
                        proof {
                            reveal_strlit("\r");
                            assert("\r"@ =~= seq!['\r']);
                            assert(strings_view(native_writes@) =~= strings_view(writes_before).push(seq!['\r']));
                        }
                    },
                    FrontendDecisionKindV1::InvokePrepared { request_id, display_line } => {
                        if prepared.is_some() {
                            proof {
                                lemma_dispatch_error_sticks(old(session)@, acts, shell, k + 1, order.len() as int);
                            }
                            return Err(TerminalDispatchErrorV1::MultiplePreparedSubmissions);
                        }
                        let editor_write = match build_prepared_editor_write(shell, &decision, editor) {
                            Ok(w) => w,
                            Err(e) => {
                                proof {
                                    lemma_dispatch_error_sticks(old(session)@, acts, shell, k + 1, order.len() as int);
                                }
                                return Err(TerminalDispatchErrorV1::EditorReplacement(e));
                            },
                        };
                        let ghost t_before = session@;
                        let request = match session.consume_prepared(request_id.as_str()) {
                            Some(request) => request,
                            None => {
                                proof {
                                    assert(spec_dispatch(old(session)@, acts, shell, k + 1) is Err);
                                    lemma_dispatch_error_sticks(old(session)@, acts, shell, k + 1, order.len() as int);
                                }
                                return Err(TerminalDispatchErrorV1::MissingPreparedRequest);
                            },
                        };
                        match register(request_id.clone(), request) {
                            Ok(()) => {},
                            Err(e) => return Err(TerminalDispatchErrorV1::Broker(e)),
                        }
                        let familiar_effect = parse_familiar_control(display_line.as_str());
                        prepared = Some(PreparedTerminalDispatchV1 {
                            request_id: request_id.clone(),
                            editor_write,
                            familiar_effect,
                        });
                    },
                }
            },
        }
        k += 1;
        proof {
            assert(pending@ =~= order.subrange(k as int, order.len() as int).reverse());
        }
    }
    Ok(TerminalDispatchV1 { native_writes, prepared })
}

/// Handles terminal input and dispatches what it turns into.
pub fn dispatch_terminal_input<R>(
    session: &mut TerminalSessionV1,
    shell: ActiveShell,
    register: R,
    data: &str,
    familiar_enabled: bool,
) -> (r: Result<TerminalDispatchV1, TerminalDispatchErrorV1>)
    where
        R: Fn(String, PreparedRequestV1) -> Result<(), std::io::Error>,
    requires
        old(session).wf(),
        forall|id: String, request: PreparedRequestV1| register.requires((id, request)),
    ensures
        final(session).wf(),
        exists|ids: Seq<Seq<char>>, acts: Seq<SpecAction>, t: SpecTerminal| {
            &&& ids.len() == data@.len()
            &&& forall|k: int| 0 <= k < ids.len() ==> crate::submission::is_request_id(#[trigger] ids[k])
            &&& (t, acts) == #[trigger] spec_handle_input(old(session)@, data@, familiar_enabled, ids)
            &&& #[trigger] dispatch_matches(spec_dispatch(t, acts, shell, acts.len() as int), &r, final(session)@)
        },
{
    let actions = session.handle_terminal_input(data, familiar_enabled);
    let ghost t = session@;
    let ghost acts = actions_view(actions@);
    let r = dispatch_actions(session, shell, actions, register);
    proof {
        assert(acts.len() == actions@.len());
    }
    r
}

} // verus!
