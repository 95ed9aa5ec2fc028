use moss::moss::blackboard::{Blackboard, BoardError, Gap, GapState, GapType};
use moss::moss::orchestrator::schedule;

fn gap(name: &str, deps: Vec<&str>) -> Gap {
    Gap::new(
        name.to_string(),
        "test gap".to_string(),
        GapType::Reactive,
        deps.into_iter().map(|s| s.to_string()).collect(),
        None,
        Some("done".to_string()),
    )
}

#[test]
fn gaps_without_dependencies_start_ready() {
    let mut bb = Blackboard::new();
    let a = bb.insert_gap(gap("a", vec![])).unwrap();
    let b = bb.insert_gap(gap("b", vec!["a"])).unwrap();
    assert_eq!((a, b), (0, 1));
    assert_eq!(bb.state_of(a), Some(GapState::Ready));
    assert_eq!(bb.state_of(b), Some(GapState::Blocked));
    assert_eq!(bb.state_of(2), None);
}

#[test]
fn duplicate_names_are_refused() {
    let mut bb = Blackboard::new();
    bb.insert_gap(gap("a", vec![])).unwrap();
    assert_eq!(bb.insert_gap(gap("a", vec![])), Err(BoardError::DuplicateGap("a".to_string())));
    assert_eq!(bb.len(), 1);
}

#[test]
fn promotion_waits_for_every_dependency() {
    let mut bb = Blackboard::new();
    let a = bb.insert_gap(gap("a", vec![])).unwrap();
    let b = bb.insert_gap(gap("b", vec![])).unwrap();
    let c = bb.insert_gap(gap("c", vec!["a", "b"])).unwrap();
    bb.set_gap_state(a, GapState::Closed).unwrap();
    bb.promote_unblocked();
    assert_eq!(bb.state_of(c), Some(GapState::Blocked));
    bb.set_gap_state(b, GapState::Closed).unwrap();
    bb.promote_unblocked();
    assert_eq!(bb.state_of(c), Some(GapState::Ready));
}

#[test]
fn unknown_dependency_never_unblocks() {
    let mut bb = Blackboard::new();
    let b = bb.insert_gap(gap("b", vec!["missing"])).unwrap();
    bb.promote_unblocked();
    assert_eq!(bb.state_of(b), Some(GapState::Blocked));
    assert!(!bb.all_closed());
}

#[test]
fn drain_assigns_every_ready_gap_in_order() {
    let mut bb = Blackboard::new();
    bb.insert_gap(gap("a", vec![])).unwrap();
    bb.insert_gap(gap("b", vec!["a"])).unwrap();
    bb.insert_gap(gap("c", vec![])).unwrap();
    assert_eq!(bb.drain_ready(), vec![0, 2]);
    assert_eq!(bb.state_of(0), Some(GapState::Assigned));
    assert_eq!(bb.state_of(2), Some(GapState::Assigned));
    assert_eq!(bb.drain_ready(), Vec::<usize>::new());
}

#[test]
fn set_state_of_unknown_gap_fails() {
    let mut bb = Blackboard::new();
    assert_eq!(bb.set_gap_state(3, GapState::Closed), Err(BoardError::UnknownGap(3)));
}

#[test]
fn empty_board_is_all_closed() {
    let mut bb = Blackboard::new();
    assert!(bb.all_closed());
    let a = bb.insert_gap(gap("a", vec![])).unwrap();
    assert!(!bb.all_closed());
    bb.set_gap_state(a, GapState::Closed).unwrap();
    assert!(bb.all_closed());
}

#[test]
fn intent_and_gap_lookup() {
    let mut bb = Blackboard::new();
    assert!(bb.get_intent().is_none());
    bb.set_intent("plan a trip".to_string());
    assert_eq!(bb.get_intent().as_deref(), Some("plan a trip"));
    let id = bb.insert_gap(gap("x", vec![])).unwrap();
    assert_eq!(bb.get_gap(id).unwrap().name, "x");
    assert_eq!(bb.get_gap(id).unwrap().expected_output.as_deref(), Some("done"));
    assert!(bb.get_gap(5).is_none());
    assert!(bb.get_gap_id_by_name("y").is_none());
}

#[test]
fn closed_gaps_are_never_dispatched_again() {
    let mut bb = Blackboard::new();
    let a = bb.insert_gap(gap("a", vec![])).unwrap();
    let b = bb.insert_gap(gap("b", vec!["a"])).unwrap();
    assert_eq!(schedule(&mut bb, 0), vec![a]);
    bb.set_gap_state(a, GapState::Closed).unwrap();
    assert_eq!(schedule(&mut bb, 0), vec![b]);
    bb.set_gap_state(b, GapState::Closed).unwrap();
    assert!(schedule(&mut bb, 0).is_empty());
    assert_eq!(bb.state_of(a), Some(GapState::Closed));
}
