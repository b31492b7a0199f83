use realworld_feed::error::FeedError;
use realworld_feed::relation::{toggle_outcome, toggle_step, ToggleResult, ToggleStep, WriteOutcome};
use realworld_feed::relation::EdgeSet;

#[test]
fn toggles_compose_like_parity() {
    for n in 0..7u32 {
        let mut set = EdgeSet::new();
        for _ in 0..n {
            set.toggle("alice", "my-slug");
        }
        assert_eq!(set.contains("alice", "my-slug"), n % 2 == 1);
    }
    let mut set = EdgeSet::new();
    set.insert("alice", "my-slug");
    for _ in 0..3 {
        set.toggle("alice", "my-slug");
    }
    assert!(!set.contains("alice", "my-slug"));
}

#[test]
fn toggle_returns_new_state() {
    let mut set = EdgeSet::new();
    assert!(set.toggle("alice", "bob"));
    assert!(set.contains("alice", "bob"));
    assert!(!set.contains("bob", "alice"));
    assert!(!set.toggle("alice", "bob"));
    assert_eq!(set.len(), 0);
}

#[test]
fn two_racing_inserts_leave_one_edge() {
    let mut set = EdgeSet::new();
    // Both requests look first and see no edge, so both insert.
    let seen_first = set.contains("alice", "my-slug");
    let seen_second = set.contains("alice", "my-slug");
    assert!(!seen_first && !seen_second);
    let first = set.insert("alice", "my-slug");
    let second = set.insert("alice", "my-slug");
    assert!(first != second);
    assert_eq!(set.len(), 1);
    assert!(set.contains("alice", "my-slug"));
}

#[test]
fn remove_and_count_edges_to_a_target() {
    let mut set = EdgeSet::new();
    set.insert("alice", "a1");
    set.insert("bob", "a1");
    set.insert("bob", "a2");
    assert_eq!(set.count_to("a1"), 2);
    assert_eq!(set.count_to("a2"), 1);
    assert!(set.remove("alice", "a1"));
    assert!(!set.remove("alice", "a1"));
    assert_eq!(set.count_to("a1"), 1);
    assert_eq!(set.len(), 2);
}


#[test]
fn toggle_step_deletes_existing_edge() {
    assert_eq!(toggle_step(true), ToggleStep::Delete);
    assert_eq!(toggle_step(false), ToggleStep::Insert);
}

#[test]
fn toggle_outcome_reports_new_state() {
    assert_eq!(toggle_outcome(ToggleStep::Insert, WriteOutcome::Applied), Ok(ToggleResult::Inserted));
    assert_eq!(toggle_outcome(ToggleStep::Delete, WriteOutcome::Applied), Ok(ToggleResult::Deleted));
    assert_eq!(
        toggle_outcome(ToggleStep::Insert, WriteOutcome::AlreadyDone),
        Ok(ToggleResult::AlreadyPresent)
    );
    assert_eq!(
        toggle_outcome(ToggleStep::Delete, WriteOutcome::AlreadyDone),
        Ok(ToggleResult::AlreadyAbsent)
    );
    assert_eq!(
        toggle_outcome(ToggleStep::Insert, WriteOutcome::Failed),
        Err(FeedError::PersistenceFailure)
    );
    assert_eq!(ToggleResult::Inserted.transition(), Some(true));
    assert_eq!(ToggleResult::Deleted.transition(), Some(false));
    assert_eq!(ToggleResult::AlreadyPresent.transition(), None);
    assert_eq!(ToggleResult::AlreadyAbsent.transition(), None);
    assert!(ToggleResult::AlreadyPresent.edge_exists());
    assert!(!ToggleResult::AlreadyAbsent.edge_exists());
}

#[test]
fn racing_toggles_report_one_insert() {
    // Both calls find the edge absent and choose to insert.
    let first_step = toggle_step(false);
    let second_step = toggle_step(false);
    // The store applies one insert and refuses the other as a duplicate.
    let first = toggle_outcome(first_step, WriteOutcome::Applied).unwrap();
    let second = toggle_outcome(second_step, WriteOutcome::AlreadyDone).unwrap();
    let inserts = [first, second].iter().filter(|r| r.transition() == Some(true)).count();
    assert_eq!(inserts, 1);
    assert!(first.edge_exists() && second.edge_exists());
}
