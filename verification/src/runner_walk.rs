//! The walk of `grep -r`: which operands can be walked, the order in which the directories
//! below them are visited, what each entry found there is to the walk, the limits on depth
//! and on entries, and how the run ends. The caller reads the directories and the files.

use vstd::prelude::*;
use crate::ordered_pipeline::OrderedFinishCauseV1;
use crate::text::concat;

verus! {

/// The most entries a recursive walk reads.
pub const MAX_RECURSIVE_GREP_ENTRIES: usize = 100000;

/// The deepest a recursive walk descends below an operand.
pub const MAX_RECURSIVE_GREP_DEPTH: usize = 256;

/// What inspecting a recursive operand found.
#[derive(Clone, Copy, Debug, Eq, PartialEq, Structural)]
pub enum RootInspectionV1 {
    Unresolvable,
    Uninspectable,
    NotTraversable,
    Unreadable,
    Traversable,
}

/// Why an operand cannot be walked, as its diagnostic says it; nothing for one that can.
pub open spec fn spec_root_problem(i: RootInspectionV1) -> Option<Seq<char>> {
    match i {
        RootInspectionV1::Unresolvable => Some("path cannot be resolved safely"@),
        RootInspectionV1::Uninspectable => Some("directory cannot be inspected"@),
        RootInspectionV1::NotTraversable => Some("recursive operand is not a traversable directory"@),
        RootInspectionV1::Unreadable => Some("directory cannot be read"@),
        RootInspectionV1::Traversable => None,
    }
}

/// Why an operand cannot be walked; nothing for one that can.
pub fn root_problem(i: RootInspectionV1) -> (r: Option<String>)
    ensures
        match spec_root_problem(i) {
            None => r is None,
            Some(m) => r matches Some(s) && s@ == m,
        },
{
    match i {
        RootInspectionV1::Unresolvable => Some("path cannot be resolved safely".to_string()),
        RootInspectionV1::Uninspectable => Some("directory cannot be inspected".to_string()),
        RootInspectionV1::NotTraversable => Some("recursive operand is not a traversable directory".to_string()),
        RootInspectionV1::Unreadable => Some("directory cannot be read".to_string()),
        RootInspectionV1::Traversable => None,
    }
}

/// What the walk found an entry to be.
#[derive(Clone, Copy, Debug, Eq, PartialEq, Structural)]
pub enum EntryKindV1 {
    Uninspectable,
    ReparsePoint,
    Directory,
    File,
    Other,
}

/// What to do with an entry: report it and go on, pass it by, descend into it at the given
/// depth, search it, or stop the whole walk at the traversal limit after reporting it.
#[derive(Clone, Debug, Eq, PartialEq)]
pub enum EntryDecisionV1 {
    Report { message: String },
    Skip,
    Descend { depth: usize },
    Search,
    Limit { message: String },
}

pub enum SpecEntryDecision {
    Report { message: Seq<char> },
    Skip,
    Descend { depth: nat },
    Search,
    Limit { message: Seq<char> },
}

impl View for EntryDecisionV1 {
    type V = SpecEntryDecision;

    open spec fn view(&self) -> SpecEntryDecision {
        match self {
            EntryDecisionV1::Report { message } => SpecEntryDecision::Report { message: message@ },
            EntryDecisionV1::Skip => SpecEntryDecision::Skip,
            EntryDecisionV1::Descend { depth } => SpecEntryDecision::Descend { depth: *depth as nat },
            EntryDecisionV1::Search => SpecEntryDecision::Search,
            EntryDecisionV1::Limit { message } => SpecEntryDecision::Limit { message: message@ },
        }
    }
}

/// The message of the traversal limit.
pub open spec fn limit_message() -> Seq<char> {
    "recursive traversal resource limit exceeded"@
}

/// An entry at `depth`: one that cannot be inspected is reported; a reparse point, and
/// anything but a directory or a file, is passed by; a directory is descended into one
/// level deeper unless that passes the depth limit, which stops the walk; a file is searched.
pub open spec fn spec_entry_decision(kind: EntryKindV1, depth: nat) -> SpecEntryDecision {
    match kind {
        EntryKindV1::Uninspectable => SpecEntryDecision::Report { message: "entry cannot be inspected"@ },
        EntryKindV1::ReparsePoint => SpecEntryDecision::Skip,
        EntryKindV1::Other => SpecEntryDecision::Skip,
        EntryKindV1::File => SpecEntryDecision::Search,
        EntryKindV1::Directory => if depth + 1 > MAX_RECURSIVE_GREP_DEPTH {
            SpecEntryDecision::Limit { message: limit_message() }
        } else {
            SpecEntryDecision::Descend { depth: depth + 1 }
        },
    }
}

/// What to do with an entry of kind `kind` found at `depth`.
pub fn entry_decision(kind: EntryKindV1, depth: usize) -> (r: EntryDecisionV1)
    ensures
        r@ == spec_entry_decision(kind, depth as nat),
{
    match kind {
        EntryKindV1::Uninspectable => EntryDecisionV1::Report { message: "entry cannot be inspected".to_string() },
        EntryKindV1::ReparsePoint => EntryDecisionV1::Skip,
        EntryKindV1::Other => EntryDecisionV1::Skip,
        EntryKindV1::File => EntryDecisionV1::Search,
        EntryKindV1::Directory => if depth >= MAX_RECURSIVE_GREP_DEPTH {
            EntryDecisionV1::Limit { message: "recursive traversal resource limit exceeded".to_string() }
        } else {
            EntryDecisionV1::Descend { depth: depth + 1 }
        },
    }
}

/// A directory being walked: its display, its depth, its entries' names in the order they
/// are visited, and how many were visited.
pub struct WalkFrameV1 {
    display: String,
    depth: usize,
    names: Vec<String>,
    next: usize,
}

pub struct SpecFrame {
    pub display: Seq<char>,
    pub depth: nat,
    pub names: Seq<Seq<char>>,
    pub next: nat,
}

impl View for WalkFrameV1 {
    type V = SpecFrame;

    closed spec fn view(&self) -> SpecFrame {
        SpecFrame {
            display: self.display@,
            depth: self.depth as nat,
            names: self.names@.map_values(|n: String| n@),
            next: self.next as nat,
        }
    }
}

/// The directories of a walk, innermost last, and the entries read so far.
pub struct RecursiveWalkV1 {
    visited: usize,
    frames: Vec<WalkFrameV1>,
}

pub struct SpecWalk {
    pub visited: nat,
    pub frames: Seq<SpecFrame>,
}

impl View for RecursiveWalkV1 {
    type V = SpecWalk;

    closed spec fn view(&self) -> SpecWalk {
        SpecWalk { visited: self.visited as nat, frames: self.frames@.map_values(|f: WalkFrameV1| f@) }
    }
}

/// A walk is in a state it can reach: every frame's cursor is within its entries.
pub open spec fn walk_wf(w: SpecWalk) -> bool {
    &&& w.visited <= MAX_RECURSIVE_GREP_ENTRIES
    &&& forall|i: int| 0 <= i < w.frames.len() ==> (#[trigger] w.frames[i]).next <= w.frames[i].names.len()
}

/// Entering a directory whose reading gave `names` (already in walk order) and `unreadable`
/// entries that could not be read: past the entry limit the walk stops; otherwise the
/// directory becomes the innermost frame.
pub open spec fn spec_enter(w: SpecWalk, display: Seq<char>, depth: nat, names: Seq<Seq<char>>, unreadable: nat) -> Option<SpecWalk> {
    let visited = w.visited + names.len() + unreadable;
    if visited > MAX_RECURSIVE_GREP_ENTRIES {
        None
    } else {
        Some(SpecWalk { visited, frames: w.frames.push(SpecFrame { display, depth, names, next: 0 }) })
    }
}

/// The next entry of the walk: innermost frames that are done are left, and the next name
/// of the innermost frame that is not is visited, as `display\name` at its frame's depth.
pub open spec fn spec_next(w: SpecWalk) -> (SpecWalk, Option<(Seq<char>, nat)>)
    decreases w.frames.len(),
{
    if w.frames.len() == 0 {
        (w, None)
    } else {
        let f = w.frames.last();
        if f.next >= f.names.len() {
            spec_next(SpecWalk { frames: w.frames.drop_last(), ..w })
        } else {
            (
                SpecWalk { frames: w.frames.update(w.frames.len() - 1, SpecFrame { next: f.next + 1, ..f }), ..w },
                Some((f.display + "\\"@ + f.names[f.next as int], f.depth)),
            )
        }
    }
}

impl RecursiveWalkV1 {
    /// A walk that has read nothing.
    pub fn new() -> (r: Self)
        ensures
            r@ == (SpecWalk { visited: 0, frames: Seq::empty() }),
            walk_wf(r@),
    {
        let r = RecursiveWalkV1 { visited: 0, frames: Vec::new() };
        assert(r@.frames =~= Seq::<SpecFrame>::empty());
        r
    }

    /// Enters a directory; `false` means the entry limit was passed and the walk is to stop,
    /// with the walk unchanged.
    pub fn enter(&mut self, display: String, depth: usize, names: Vec<String>, unreadable: usize) -> (r: bool)
        requires
            walk_wf(old(self)@),
        ensures
            walk_wf(final(self)@),
            match spec_enter(old(self)@, display@, depth as nat, names@.map_values(|n: String| n@), unreadable as nat) {
                None => !r && final(self)@ == old(self)@,
                Some(w) => r && final(self)@ == w,
            },
    {
        let room = MAX_RECURSIVE_GREP_ENTRIES - self.visited;
        if names.len() > room || unreadable > room - names.len() {
            return false;
        }
        let ghost before = self@.frames;
        self.visited = self.visited + names.len() + unreadable;
        self.frames.push(WalkFrameV1 { display, depth, names, next: 0 });
        proof {
            assert(self@.frames =~= before.push(self.frames@.last()@));
        }
        true
    }

    /// The next entry to look at, with the depth of the directory it is in; `None` when the
    /// walk is done.
    pub fn next_entry(&mut self) -> (r: Option<(String, usize)>)
        requires
            walk_wf(old(self)@),
        ensures
            walk_wf(final(self)@),
            ({
                let (w, e) = spec_next(old(self)@);
                &&& final(self)@ == w
                &&& match e {
                    None => r is None,
                    Some((d, depth)) => r matches Some((s, k)) && s@ == d && k as nat == depth,
                }
            }),
        decreases old(self)@.frames.len(),
    {
        let n = self.frames.len();
        if n == 0 {
            return None;
        }
        let top = n - 1;
        assert(self@.frames[top as int] == self.frames@[top as int]@);
        if self.frames[top].next >= self.frames[top].names.len() {
            let ghost before = self@;
            self.frames.pop();
            proof {
                assert(self@.frames =~= before.frames.drop_last());
            }
            return self.next_entry();
        }
        let ghost before = self@;
        let mut frame = self.frames.pop().unwrap();
        let index = frame.next;
        let a = concat(frame.display.as_str(), "\\");
        let shown = concat(a.as_str(), frame.names[index].as_str());
        let depth = frame.depth;
        frame.next = index + 1;
        self.frames.push(frame);
        proof {
            let f = before.frames.last();
            assert(f.names[index as int] == self.frames@[top as int].names@[index as int]@);
            assert(self@.frames =~= before.frames.update(before.frames.len() - 1, SpecFrame { next: f.next + 1, ..f }));
        }
        Some((shown, depth))
    }
}

/// How the stages after a walk are finished: a walk that reported something failed its
/// source; otherwise one stopped by the stages ended upstream, and any other is complete.
pub fn walk_finish_cause(reported: bool, stopped: bool) -> (r: OrderedFinishCauseV1)
    ensures
        r == (if reported {
            OrderedFinishCauseV1::SourceFailed
        } else if stopped {
            OrderedFinishCauseV1::UpstreamStopped
        } else {
            OrderedFinishCauseV1::Complete
        }),
{
    if reported {
        OrderedFinishCauseV1::SourceFailed
    } else if stopped {
        OrderedFinishCauseV1::UpstreamStopped
    } else {
        OrderedFinishCauseV1::Complete
    }
}

/// The exit code of a walk that ran to its end: 1 when it reported something, when a final
/// `grep` matched nothing, or when a later `grep` matched nothing; 0 otherwise.
pub fn walk_exit_code(reported: bool, grep_is_final: bool, matched: bool, downstream_matched: Option<bool>) -> (r: u8)
    ensures
        r == (if reported || (grep_is_final && !matched) || downstream_matched == Some(false) { 1u8 } else { 0u8 }),
{
    let downstream_failed = match downstream_matched {
        Some(m) => !m,
        None => false,
    };
    if reported || (grep_is_final && !matched) || downstream_failed {
        1
    } else {
        0
    }
}

} // verus!
