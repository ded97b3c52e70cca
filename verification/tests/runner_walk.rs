use wingman_core::ordered_pipeline::OrderedFinishCauseV1;
use wingman_core::runner_walk::{
    entry_decision, root_problem, walk_exit_code, walk_finish_cause, EntryDecisionV1, EntryKindV1,
    RecursiveWalkV1, RootInspectionV1, MAX_RECURSIVE_GREP_DEPTH, MAX_RECURSIVE_GREP_ENTRIES,
};

#[test]
fn operands_that_cannot_be_walked_say_why() {
    assert_eq!(root_problem(RootInspectionV1::NotTraversable).as_deref(), Some("recursive operand is not a traversable directory"));
    assert_eq!(root_problem(RootInspectionV1::Unreadable).as_deref(), Some("directory cannot be read"));
    assert_eq!(root_problem(RootInspectionV1::Traversable), None);
}

#[test]
fn the_walk_visits_depth_first_in_the_order_given() {
    let mut walk = RecursiveWalkV1::new();
    assert!(walk.enter("src".to_string(), 0, vec!["a".to_string(), "b".to_string()], 0));
    assert_eq!(walk.next_entry(), Some(("src\\a".to_string(), 0)));
    assert!(walk.enter("src\\a".to_string(), 1, vec!["x".to_string()], 0));
    assert_eq!(walk.next_entry(), Some(("src\\a\\x".to_string(), 1)));
    assert_eq!(walk.next_entry(), Some(("src\\b".to_string(), 0)));
    assert_eq!(walk.next_entry(), None);
}

#[test]
fn the_walk_stops_past_its_limits() {
    let mut walk = RecursiveWalkV1::new();
    let names: Vec<String> = (0..MAX_RECURSIVE_GREP_ENTRIES).map(|i| i.to_string()).collect();
    assert!(walk.enter("r".to_string(), 0, names, 0));
    assert!(!walk.enter("r\\0".to_string(), 1, Vec::new(), 1));
    assert_eq!(
        entry_decision(EntryKindV1::Directory, MAX_RECURSIVE_GREP_DEPTH),
        EntryDecisionV1::Limit { message: "recursive traversal resource limit exceeded".to_string() }
    );
    assert_eq!(entry_decision(EntryKindV1::Directory, 3), EntryDecisionV1::Descend { depth: 4 });
    assert_eq!(entry_decision(EntryKindV1::ReparsePoint, 0), EntryDecisionV1::Skip);
    assert_eq!(entry_decision(EntryKindV1::File, 0), EntryDecisionV1::Search);
}

#[test]
fn a_walk_ends_by_what_it_reported_and_matched() {
    assert_eq!(walk_finish_cause(true, true), OrderedFinishCauseV1::SourceFailed);
    assert_eq!(walk_finish_cause(false, true), OrderedFinishCauseV1::UpstreamStopped);
    assert_eq!(walk_finish_cause(false, false), OrderedFinishCauseV1::Complete);
    assert_eq!(walk_exit_code(false, true, false, None), 1);
    assert_eq!(walk_exit_code(false, true, true, Some(false)), 1);
    assert_eq!(walk_exit_code(false, true, true, None), 0);
}
