//! `touch`: the decisions of a run. The caller walks the file system and reports what it
//! found; a run says which operand fails with which diagnostic, which file gets its
//! timestamp set, when the run stops, and its exit code.

use vstd::prelude::*;
use crate::runner_mutation::{operand_diagnostic_text, MutationDiagnosticsV1, MAX_MUTATION_DIAGNOSTICS};
use crate::interpreter::opt_chars_view;
use crate::text::{chars_eq, chars_of};

verus! {

/// What the preflight of an operand found: a regular file, nothing yet, a missing parent
/// directory, or something that is not a regular file.
#[derive(Clone, Copy, Debug, Eq, PartialEq, Structural)]
pub enum TouchOperandStateV1 {
    Existing,
    Missing,
    MissingParent,
    NotRegularFile,
}

/// What to do with an operand: report its failure; open the file again and check that it
/// is the one the preflight saw; use the file this run created for the same path; or create
/// the file.
#[derive(Clone, Debug, Eq, PartialEq)]
pub enum TouchOperandActionV1 {
    Failed { diagnostic: Option<String> },
    Recheck,
    Reuse,
    Create,
}

/// How getting the operand's file went: the rechecked file is the one seen before; it
/// changed; it could not be rechecked; a file was created; the path changed during creation;
/// creation failed; or a file's handle could not be kept.
#[derive(Clone, Copy, Debug, Eq, PartialEq, Structural)]
pub enum TouchFileOutcomeV1 {
    Matches,
    Changed,
    RecheckFailed,
    Created,
    CreationChanged,
    CreationFailed,
    IdentityLost,
}

/// What follows: set the file's timestamp, go on to the next operand after a report, or end
/// the run with exit code 1 after a report.
#[derive(Clone, Debug, Eq, PartialEq)]
pub enum TouchFileActionV1 {
    SetTimes,
    Skip { diagnostic: Option<String> },
    Abort { diagnostic: Option<String> },
}

pub enum SpecTouchOperandAction {
    Failed { diagnostic: Option<Seq<char>> },
    Recheck,
    Reuse,
    Create,
}

pub enum SpecTouchFileAction {
    SetTimes,
    Skip { diagnostic: Option<Seq<char>> },
    Abort { diagnostic: Option<Seq<char>> },
}

impl View for TouchOperandActionV1 {
    type V = SpecTouchOperandAction;

    open spec fn view(&self) -> SpecTouchOperandAction {
        match self {
            TouchOperandActionV1::Failed { diagnostic } => SpecTouchOperandAction::Failed { diagnostic: opt_chars_view(*diagnostic) },
            TouchOperandActionV1::Recheck => SpecTouchOperandAction::Recheck,
            TouchOperandActionV1::Reuse => SpecTouchOperandAction::Reuse,
            TouchOperandActionV1::Create => SpecTouchOperandAction::Create,
        }
    }
}

impl View for TouchFileActionV1 {
    type V = SpecTouchFileAction;

    open spec fn view(&self) -> SpecTouchFileAction {
        match self {
            TouchFileActionV1::SetTimes => SpecTouchFileAction::SetTimes,
            TouchFileActionV1::Skip { diagnostic } => SpecTouchFileAction::Skip { diagnostic: opt_chars_view(*diagnostic) },
            TouchFileActionV1::Abort { diagnostic } => SpecTouchFileAction::Abort { diagnostic: opt_chars_view(*diagnostic) },
        }
    }
}

/// A run of `touch` after its preflight: whether an operand failed, the keys of the files it
/// created, and how many diagnostics it wrote. A key is the caller's case-folded form of a
/// resolved path, so that two spellings of one file share it.
pub struct TouchRunV1 {
    failed: bool,
    created: Vec<Vec<char>>,
    diagnostics: MutationDiagnosticsV1,
}

pub struct SpecTouchRun {
    pub failed: bool,
    pub created: Seq<Seq<char>>,
    pub emitted: nat,
}

impl View for TouchRunV1 {
    type V = SpecTouchRun;

    closed spec fn view(&self) -> SpecTouchRun {
        SpecTouchRun {
            failed: self.failed,
            created: self.created@.map_values(|k: Vec<char>| k@),
            emitted: self.diagnostics@,
        }
    }
}

/// The run after it reported an operand with `detail`, marked failed when `fails`: the
/// diagnostic is written while fewer than 16 were.
pub open spec fn spec_touch_reported(s: SpecTouchRun, display: Seq<char>, detail: Seq<char>, fails: bool) -> (SpecTouchRun, Option<Seq<char>>) {
    if s.emitted < MAX_MUTATION_DIAGNOSTICS {
        (SpecTouchRun { failed: s.failed || fails, emitted: s.emitted + 1, ..s }, Some(operand_diagnostic_text("touch"@, display, detail)))
    } else {
        (SpecTouchRun { failed: s.failed || fails, ..s }, None)
    }
}

/// An operand after its preflight: a missing parent or something that is not a regular file
/// fails it; an existing file is checked again; a missing file is the one this run created
/// for the same key, or is created.
pub open spec fn spec_touch_operand(s: SpecTouchRun, display: Seq<char>, key: Seq<char>, state: TouchOperandStateV1) -> (SpecTouchRun, SpecTouchOperandAction) {
    match state {
        TouchOperandStateV1::MissingParent => {
            let (t, d) = spec_touch_reported(s, display, "parent directory does not exist"@, true);
            (t, SpecTouchOperandAction::Failed { diagnostic: d })
        },
        TouchOperandStateV1::NotRegularFile => {
            let (t, d) = spec_touch_reported(s, display, "target is not a regular file"@, true);
            (t, SpecTouchOperandAction::Failed { diagnostic: d })
        },
        TouchOperandStateV1::Existing => (s, SpecTouchOperandAction::Recheck),
        TouchOperandStateV1::Missing => if s.created.contains(key) {
            (s, SpecTouchOperandAction::Reuse)
        } else {
            (s, SpecTouchOperandAction::Create)
        },
    }
}

/// How getting the file went: a matching or created file gets its timestamp, and a created
/// one is remembered by its key; a failed creation fails the operand; anything else ends the
/// run.
pub open spec fn spec_touch_file(s: SpecTouchRun, display: Seq<char>, key: Seq<char>, outcome: TouchFileOutcomeV1) -> (SpecTouchRun, SpecTouchFileAction) {
    match outcome {
        TouchFileOutcomeV1::Matches => (s, SpecTouchFileAction::SetTimes),
        TouchFileOutcomeV1::Created => (SpecTouchRun { created: s.created.push(key), ..s }, SpecTouchFileAction::SetTimes),
        TouchFileOutcomeV1::Changed => {
            let (t, d) = spec_touch_reported(s, display, "path changed before timestamp update"@, false);
            (t, SpecTouchFileAction::Abort { diagnostic: d })
        },
        TouchFileOutcomeV1::RecheckFailed => {
            let (t, d) = spec_touch_reported(s, display, "path safety cannot be rechecked"@, false);
            (t, SpecTouchFileAction::Abort { diagnostic: d })
        },
        TouchFileOutcomeV1::CreationChanged => {
            let (t, d) = spec_touch_reported(s, display, "path changed during file creation"@, false);
            (t, SpecTouchFileAction::Abort { diagnostic: d })
        },
        TouchFileOutcomeV1::IdentityLost => {
            let (t, d) = spec_touch_reported(s, display, "created file identity cannot be retained"@, false);
            (t, SpecTouchFileAction::Abort { diagnostic: d })
        },
        TouchFileOutcomeV1::CreationFailed => {
            let (t, d) = spec_touch_reported(s, display, "file creation failed"@, true);
            (t, SpecTouchFileAction::Skip { diagnostic: d })
        },
    }
}

impl TouchRunV1 {
    /// A run that has created nothing and reported nothing.
    pub fn new() -> (r: Self)
        ensures
            r@ == (SpecTouchRun { failed: false, created: Seq::empty(), emitted: 0 }),
    {
        let r = TouchRunV1 { failed: false, created: Vec::new(), diagnostics: MutationDiagnosticsV1::new() };
        assert(r@.created =~= Seq::<Seq<char>>::empty());
        r
    }

    fn report(&mut self, display: &str, detail: &str, fails: bool) -> (r: Option<String>)
        ensures
            (final(self)@, opt_chars_view(r)) == spec_touch_reported(old(self)@, display@, detail@, fails),
    {
        let d = self.diagnostics.operand("touch", display, detail);
        if fails {
            self.failed = true;
        }
        d
    }

    fn holds(&self, key: &str) -> (r: bool)
        ensures
            r == self@.created.contains(key@),
    {
        let k = chars_of(key);
        let mut i: usize = 0;
        while i < self.created.len()
            invariant
                i <= self.created@.len(),
                k@ == key@,
                forall|j: int| 0 <= j < i ==> self.created@[j]@ != key@,
            decreases self.created.len() - i,
        {
            if chars_eq(self.created[i].as_slice(), k.as_slice()) {
                assert(self@.created[i as int] == key@);
                return true;
            }
            i += 1;
        }
        proof {
            if self@.created.contains(key@) {
                let j = choose|j: int| 0 <= j < self@.created.len() && self@.created[j] == key@;
                assert(self.created@[j]@ == key@);
            }
        }
        false
    }

    /// What to do with the operand `display`, whose key is `key`, after its preflight found
    /// `state`.
    pub fn operand(&mut self, display: &str, key: &str, state: TouchOperandStateV1) -> (r: TouchOperandActionV1)
        ensures
            (final(self)@, r@) == spec_touch_operand(old(self)@, display@, key@, state),
    {
        match state {
            TouchOperandStateV1::MissingParent => {
                TouchOperandActionV1::Failed { diagnostic: self.report(display, "parent directory does not exist", true) }
            },
            TouchOperandStateV1::NotRegularFile => {
                TouchOperandActionV1::Failed { diagnostic: self.report(display, "target is not a regular file", true) }
            },
            TouchOperandStateV1::Existing => TouchOperandActionV1::Recheck,
            TouchOperandStateV1::Missing => if self.holds(key) { TouchOperandActionV1::Reuse } else { TouchOperandActionV1::Create },
        }
    }

    /// What follows getting the file of the operand `display`, whose key is `key`.
    pub fn file(&mut self, display: &str, key: &str, outcome: TouchFileOutcomeV1) -> (r: TouchFileActionV1)
        ensures
            (final(self)@, r@) == spec_touch_file(old(self)@, display@, key@, outcome),
    {
        match outcome {
            TouchFileOutcomeV1::Matches => TouchFileActionV1::SetTimes,
            TouchFileOutcomeV1::Created => {
                let ghost before = self@.created;
                self.created.push(chars_of(key));
                assert(self@.created =~= before.push(key@));
                TouchFileActionV1::SetTimes
            },
            TouchFileOutcomeV1::Changed => {
                TouchFileActionV1::Abort { diagnostic: self.report(display, "path changed before timestamp update", false) }
            },
            TouchFileOutcomeV1::RecheckFailed => {
                TouchFileActionV1::Abort { diagnostic: self.report(display, "path safety cannot be rechecked", false) }
            },
            TouchFileOutcomeV1::CreationChanged => {
                TouchFileActionV1::Abort { diagnostic: self.report(display, "path changed during file creation", false) }
            },
            TouchFileOutcomeV1::IdentityLost => {
                TouchFileActionV1::Abort { diagnostic: self.report(display, "created file identity cannot be retained", false) }
            },
            TouchFileOutcomeV1::CreationFailed => {
                TouchFileActionV1::Skip { diagnostic: self.report(display, "file creation failed", true) }
            },
        }
    }

    /// The diagnostic of a timestamp update that failed, which fails the operand; nothing when
    /// it worked.
    pub fn timestamp_set(&mut self, display: &str, updated: bool) -> (r: Option<String>)
        ensures
            updated ==> final(self)@ == old(self)@ && r is None,
            !updated ==> (final(self)@, opt_chars_view(r)) == spec_touch_reported(old(self)@, display@, "timestamp update failed"@, true),
    {
        if updated {
            None
        } else {
            self.report(display, "timestamp update failed", true)
        }
    }

    /// The exit code of a run that went through all its operands: 1 when one failed, else 0.
    pub fn exit_code(&self) -> (r: u8)
        ensures
            r == (if self@.failed { 1u8 } else { 0u8 }),
    {
        if self.failed { 1 } else { 0 }
    }
}

} // verus!
