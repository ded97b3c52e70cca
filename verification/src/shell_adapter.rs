//! The keystrokes that replace the edited line with the invocation of a prepared request.

use vstd::prelude::*;
use crate::interpreter::ActiveShell;
use crate::submission::{FrontendDecisionKindV1, FrontendDecisionV1};
use crate::terminal_session::EditorSnapshotV1;
use crate::transport::{is_valid_nonce, spec_valid_nonce};
use crate::text::{chars_of, concat};

verus! {

#[derive(Clone, Copy, Debug, Eq, PartialEq, Structural)]
pub enum EditorReplacementErrorV1 {
    NotPrepared,
    InvalidRequestId,
    EditorSnapshotMismatch,
    UnsupportedShell,
}

/// What the editor is sent: clear the line (Ctrl-X Ctrl-W), then invoke the request and submit.
pub open spec fn editor_write_text(request_id: Seq<char>) -> Seq<char> {
    "\u{18}\u{17}Invoke-WingmanPrepared -RequestId '"@ + request_id + "'\r"@
}

/// What building the editor write gives for a decision's value.
pub open spec fn spec_editor_write(shell: ActiveShell, decision: crate::submission::SpecDecision, editor: EditorSnapshotV1) -> Result<Seq<char>, EditorReplacementErrorV1> {
    match decision.decision {
        crate::submission::SpecDecisionKind::PassThrough { .. } => Err(EditorReplacementErrorV1::NotPrepared),
        crate::submission::SpecDecisionKind::InvokePrepared { request_id, display_line } => if !spec_valid_nonce(request_id) {
            Err(EditorReplacementErrorV1::InvalidRequestId)
        } else if editor.cursor > editor.character_count || display_line.len() != editor.character_count {
            Err(EditorReplacementErrorV1::EditorSnapshotMismatch)
        } else if shell != ActiveShell::WindowsPowerShell {
            Err(EditorReplacementErrorV1::UnsupportedShell)
        } else {
            Ok(editor_write_text(request_id))
        },
    }
}

/// The text that replaces the edited line with the invocation of a prepared request. The
/// request id must be 32 hexadecimal digits, the snapshot must describe the displayed line,
/// and the shell must be Windows PowerShell.
pub fn build_prepared_editor_write(shell: ActiveShell, decision: &FrontendDecisionV1, editor: EditorSnapshotV1)
    -> (r: Result<String, EditorReplacementErrorV1>)
    ensures
        match spec_editor_write(shell, decision@, editor) {
            Ok(w) => r matches Ok(x) && x@ == w,
            Err(e) => r == Err::<String, _>(e),
        },
        match decision.decision {
            FrontendDecisionKindV1::PassThrough { .. } => r == Err::<String, _>(EditorReplacementErrorV1::NotPrepared),
            FrontendDecisionKindV1::InvokePrepared { request_id, display_line } => if !spec_valid_nonce(request_id@) {
                r == Err::<String, _>(EditorReplacementErrorV1::InvalidRequestId)
            } else if editor.cursor > editor.character_count || display_line@.len() != editor.character_count {
                r == Err::<String, _>(EditorReplacementErrorV1::EditorSnapshotMismatch)
            } else if shell != ActiveShell::WindowsPowerShell {
                r == Err::<String, _>(EditorReplacementErrorV1::UnsupportedShell)
            } else {
                r matches Ok(w) && w@ == editor_write_text(request_id@)
            },
        },
{
    let (request_id, display_line) = match &decision.decision {
        FrontendDecisionKindV1::PassThrough { .. } => {
            return Err(EditorReplacementErrorV1::NotPrepared);
        },
        FrontendDecisionKindV1::InvokePrepared { request_id, display_line } => (request_id, display_line),
    };
    if !is_valid_nonce(request_id.as_str()) {
        return Err(EditorReplacementErrorV1::InvalidRequestId);
    }
    let shown = chars_of(display_line.as_str());
    if editor.cursor > editor.character_count || shown.len() != editor.character_count {
        return Err(EditorReplacementErrorV1::EditorSnapshotMismatch);
    }
    if shell != ActiveShell::WindowsPowerShell {
        return Err(EditorReplacementErrorV1::UnsupportedShell);
    }
    let head = concat("\u{18}\u{17}Invoke-WingmanPrepared -RequestId '", request_id.as_str());
    Ok(concat(head.as_str(), "'\r"))
}

} // verus!
