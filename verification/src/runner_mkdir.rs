//! `mkdir`: the decisions of a run. The caller walks the file system and reports what it
//! found; a run says which operand fails with which diagnostic, which missing directory is
//! created or reused, when the run stops, and its exit code.

use vstd::prelude::*;
use crate::runner_mutation::{operand_diagnostic_text, MutationDiagnosticsV1, MAX_MUTATION_DIAGNOSTICS};
use crate::interpreter::opt_chars_view;
use crate::text::{chars_eq, chars_of};

verus! {

/// What the preflight of an operand found: the directory already exists, a component on the
/// way is not a directory, or some trailing components are missing.
#[derive(Clone, Copy, Debug, Eq, PartialEq, Structural)]
pub enum MkdirOperandStateV1 {
    ExistingDirectory,
    PathComponentIsNotDirectory,
    Ready,
}

/// What to do with an operand: nothing, report its failure, or create its missing components
/// in order.
#[derive(Clone, Debug, Eq, PartialEq)]
pub enum MkdirOperandActionV1 {
    Skip,
    Failed { diagnostic: Option<String> },
    CreateMissing,
}

/// What to do with a missing component: use the directory this run created for it, create
/// it, or stop the operand after reporting it.
#[derive(Clone, Debug, Eq, PartialEq)]
pub enum MkdirComponentActionV1 {
    Reuse,
    Create,
    Stop { diagnostic: Option<String> },
}

/// How creating a component went: created; the path changed under the run (a reparse point,
/// a missing parent, a non-directory, or something already there); creation failed; or the
/// created directory's handle could not be kept.
#[derive(Clone, Copy, Debug, Eq, PartialEq, Structural)]
pub enum MkdirCreateOutcomeV1 {
    Created,
    Changed,
    Failed,
    IdentityLost,
}

/// What follows a creation: the next component, the next operand after a report, or the end
/// of the run with exit code 1 after a report.
#[derive(Clone, Debug, Eq, PartialEq)]
pub enum MkdirCreateActionV1 {
    Continue,
    Stop { diagnostic: Option<String> },
    Abort { diagnostic: Option<String> },
}

pub enum SpecOperandAction {
    Skip,
    Failed { diagnostic: Option<Seq<char>> },
    CreateMissing,
}

pub enum SpecComponentAction {
    Reuse,
    Create,
    Stop { diagnostic: Option<Seq<char>> },
}

pub enum SpecCreateAction {
    Continue,
    Stop { diagnostic: Option<Seq<char>> },
    Abort { diagnostic: Option<Seq<char>> },
}

impl View for MkdirOperandActionV1 {
    type V = SpecOperandAction;

    open spec fn view(&self) -> SpecOperandAction {
        match self {
            MkdirOperandActionV1::Skip => SpecOperandAction::Skip,
            MkdirOperandActionV1::Failed { diagnostic } => SpecOperandAction::Failed { diagnostic: opt_chars_view(*diagnostic) },
            MkdirOperandActionV1::CreateMissing => SpecOperandAction::CreateMissing,
        }
    }
}

impl View for MkdirComponentActionV1 {
    type V = SpecComponentAction;

    open spec fn view(&self) -> SpecComponentAction {
        match self {
            MkdirComponentActionV1::Reuse => SpecComponentAction::Reuse,
            MkdirComponentActionV1::Create => SpecComponentAction::Create,
            MkdirComponentActionV1::Stop { diagnostic } => SpecComponentAction::Stop { diagnostic: opt_chars_view(*diagnostic) },
        }
    }
}

impl View for MkdirCreateActionV1 {
    type V = SpecCreateAction;

    open spec fn view(&self) -> SpecCreateAction {
        match self {
            MkdirCreateActionV1::Continue => SpecCreateAction::Continue,
            MkdirCreateActionV1::Stop { diagnostic } => SpecCreateAction::Stop { diagnostic: opt_chars_view(*diagnostic) },
            MkdirCreateActionV1::Abort { diagnostic } => SpecCreateAction::Abort { diagnostic: opt_chars_view(*diagnostic) },
        }
    }
}

/// A run of `mkdir` after its preflight: whether `-p` was given, whether an operand failed,
/// the keys of the directories it created, and how many diagnostics it wrote. A key is the
/// caller's case-folded form of a resolved path, so that two spellings of one directory
/// share it.
pub struct MkdirRunV1 {
    parents: bool,
    failed: bool,
    created: Vec<Vec<char>>,
    diagnostics: MutationDiagnosticsV1,
}

pub struct SpecMkdirRun {
    pub parents: bool,
    pub failed: bool,
    pub created: Seq<Seq<char>>,
    pub emitted: nat,
}

impl View for MkdirRunV1 {
    type V = SpecMkdirRun;

    closed spec fn view(&self) -> SpecMkdirRun {
        SpecMkdirRun {
            parents: self.parents,
            failed: self.failed,
            created: self.created@.map_values(|k: Vec<char>| k@),
            emitted: self.diagnostics@,
        }
    }
}

/// A diagnostic about an operand while fewer than 16 were written, and the new count.
pub open spec fn spec_note(emitted: nat, display: Seq<char>, detail: Seq<char>) -> (Option<Seq<char>>, nat) {
    if emitted < MAX_MUTATION_DIAGNOSTICS {
        (Some(operand_diagnostic_text("mkdir"@, display, detail)), emitted + 1)
    } else {
        (None, emitted)
    }
}

/// The run after it reported an operand with `detail`, marked failed when `fails`.
pub open spec fn spec_reported(s: SpecMkdirRun, display: Seq<char>, detail: Seq<char>, fails: bool) -> (SpecMkdirRun, Option<Seq<char>>) {
    let (d, e) = spec_note(s.emitted, display, detail);
    (SpecMkdirRun { failed: s.failed || fails, emitted: e, ..s }, d)
}

/// An operand after its preflight: an existing directory is fine with `-p` and a failure
/// without; a component that is not a directory is a failure; otherwise its missing
/// components are created.
pub open spec fn spec_mkdir_operand(s: SpecMkdirRun, display: Seq<char>, state: MkdirOperandStateV1) -> (SpecMkdirRun, SpecOperandAction) {
    match state {
        MkdirOperandStateV1::ExistingDirectory => if s.parents {
            (s, SpecOperandAction::Skip)
        } else {
            let (t, d) = spec_reported(s, display, "directory already exists"@, true);
            (t, SpecOperandAction::Failed { diagnostic: d })
        },
        MkdirOperandStateV1::PathComponentIsNotDirectory => {
            let (t, d) = spec_reported(s, display, "a path component is not a directory"@, true);
            (t, SpecOperandAction::Failed { diagnostic: d })
        },
        MkdirOperandStateV1::Ready => (s, SpecOperandAction::CreateMissing),
    }
}

/// A missing component, by its key: one this run already created is reused, unless it is the
/// operand's own directory and `-p` was not given, which then already exists; without `-p`
/// only the last component may be created; otherwise it is created.
pub open spec fn spec_mkdir_component(s: SpecMkdirRun, display: Seq<char>, key: Seq<char>, is_leaf: bool) -> (SpecMkdirRun, SpecComponentAction) {
    if s.created.contains(key) {
        if is_leaf && !s.parents {
            let (t, d) = spec_reported(s, display, "directory already exists"@, true);
            (t, SpecComponentAction::Stop { diagnostic: d })
        } else {
            (s, SpecComponentAction::Reuse)
        }
    } else if !s.parents && !is_leaf {
        let (t, d) = spec_reported(s, display, "parent directory does not exist"@, true);
        (t, SpecComponentAction::Stop { diagnostic: d })
    } else {
        (s, SpecComponentAction::Create)
    }
}

/// A creation's outcome: a created directory is remembered by its key; a changed path or a
/// lost handle ends the run; a failed creation fails the operand.
pub open spec fn spec_mkdir_created(s: SpecMkdirRun, display: Seq<char>, key: Seq<char>, outcome: MkdirCreateOutcomeV1) -> (SpecMkdirRun, SpecCreateAction) {
    match outcome {
        MkdirCreateOutcomeV1::Created => (SpecMkdirRun { created: s.created.push(key), ..s }, SpecCreateAction::Continue),
        MkdirCreateOutcomeV1::Changed => {
            let (t, d) = spec_reported(s, display, "path changed during directory creation"@, false);
            (t, SpecCreateAction::Abort { diagnostic: d })
        },
        MkdirCreateOutcomeV1::IdentityLost => {
            let (t, d) = spec_reported(s, display, "created directory identity cannot be retained"@, false);
            (t, SpecCreateAction::Abort { diagnostic: d })
        },
        MkdirCreateOutcomeV1::Failed => {
            let (t, d) = spec_reported(s, display, "directory creation failed"@, true);
            (t, SpecCreateAction::Stop { diagnostic: d })
        },
    }
}

impl MkdirRunV1 {
    /// A run that has created nothing and reported nothing.
    pub fn new(parents: bool) -> (r: Self)
        ensures
            r@ == (SpecMkdirRun { parents, failed: false, created: Seq::empty(), emitted: 0 }),
    {
        let r = MkdirRunV1 { parents, failed: false, created: Vec::new(), diagnostics: MutationDiagnosticsV1::new() };
        assert(r@.created =~= Seq::<Seq<char>>::empty());
        r
    }

    fn report(&mut self, display: &str, detail: &str, fails: bool) -> (r: Option<String>)
        ensures
            (final(self)@, opt_chars_view(r)) == spec_reported(old(self)@, display@, detail@, fails),
    {
        let d = self.diagnostics.operand("mkdir", display, detail);
        if fails {
            self.failed = true;
        }
        d
    }

    fn holds(&self, key: &str) -> (r: bool)
        ensures
            r == self@.created.contains(key@),
    {
        let k = chars_of(key);
        let mut i: usize = 0;
        while i < self.created.len()
            invariant
                i <= self.created@.len(),
                k@ == key@,
                forall|j: int| 0 <= j < i ==> self.created@[j]@ != key@,
            decreases self.created.len() - i,
        {
            if chars_eq(self.created[i].as_slice(), k.as_slice()) {
                assert(self@.created[i as int] == key@);
                return true;
            }
            i += 1;
        }
        proof {
            if self@.created.contains(key@) {
                let j = choose|j: int| 0 <= j < self@.created.len() && self@.created[j] == key@;
                assert(self.created@[j]@ == key@);
            }
        }
        false
    }

    /// What to do with an operand whose preflight found `state`.
    pub fn operand(&mut self, display: &str, state: MkdirOperandStateV1) -> (r: MkdirOperandActionV1)
        ensures
            (final(self)@, r@) == spec_mkdir_operand(old(self)@, display@, state),
    {
        match state {
            MkdirOperandStateV1::ExistingDirectory => {
                if self.parents {
                    MkdirOperandActionV1::Skip
                } else {
                    MkdirOperandActionV1::Failed { diagnostic: self.report(display, "directory already exists", true) }
                }
            },
            MkdirOperandStateV1::PathComponentIsNotDirectory => {
                MkdirOperandActionV1::Failed { diagnostic: self.report(display, "a path component is not a directory", true) }
            },
            MkdirOperandStateV1::Ready => MkdirOperandActionV1::CreateMissing,
        }
    }

    /// What to do with the missing component of `display` whose key is `key`.
    pub fn component(&mut self, display: &str, key: &str, is_leaf: bool) -> (r: MkdirComponentActionV1)
        ensures
            (final(self)@, r@) == spec_mkdir_component(old(self)@, display@, key@, is_leaf),
    {
        if self.holds(key) {
            if is_leaf && !self.parents {
                MkdirComponentActionV1::Stop { diagnostic: self.report(display, "directory already exists", true) }
            } else {
                MkdirComponentActionV1::Reuse
            }
        } else if !self.parents && !is_leaf {
            MkdirComponentActionV1::Stop { diagnostic: self.report(display, "parent directory does not exist", true) }
        } else {
            MkdirComponentActionV1::Create
        }
    }

    /// What follows the creation of the component of `display` whose key is `key`.
    pub fn created(&mut self, display: &str, key: &str, outcome: MkdirCreateOutcomeV1) -> (r: MkdirCreateActionV1)
        ensures
            (final(self)@, r@) == spec_mkdir_created(old(self)@, display@, key@, outcome),
    {
        match outcome {
            MkdirCreateOutcomeV1::Created => {
                let ghost before = self@.created;
                self.created.push(chars_of(key));
                assert(self@.created =~= before.push(key@));
                MkdirCreateActionV1::Continue
            },
            MkdirCreateOutcomeV1::Changed => {
                MkdirCreateActionV1::Abort { diagnostic: self.report(display, "path changed during directory creation", false) }
            },
            MkdirCreateOutcomeV1::IdentityLost => {
                MkdirCreateActionV1::Abort { diagnostic: self.report(display, "created directory identity cannot be retained", false) }
            },
            MkdirCreateOutcomeV1::Failed => {
                MkdirCreateActionV1::Stop { diagnostic: self.report(display, "directory creation failed", true) }
            },
        }
    }

    /// The diagnostic of a reused directory whose handle could not be taken again; the run
    /// then ends with exit code 1.
    pub fn reuse_lost(&mut self, display: &str) -> (r: Option<String>)
        ensures
            (final(self)@, opt_chars_view(r)) == spec_reported(old(self)@, display@, "path safety cannot be rechecked"@, false),
    {
        self.report(display, "path safety cannot be rechecked", false)
    }

    /// The exit code of a run that went through all its operands: 1 when one failed, else 0.
    pub fn exit_code(&self) -> (r: u8)
        ensures
            r == (if self@.failed { 1u8 } else { 0u8 }),
    {
        if self.failed { 1 } else { 0 }
    }
}

} // verus!
