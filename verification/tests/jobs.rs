//! The job table.

use conch::jobs::{JobState, JobTable};

fn pid(n: i32) -> i32 {
    n
}

#[test]
fn register_assigns_sequential_ids_and_tracks_current() {
    let mut table = JobTable::new();
    let id1 = table.register(pid(100), pid(100), "sleep 1".to_string());
    let id2 = table.register(pid(200), pid(200), "sleep 2".to_string());
    assert_eq!(id1, 1);
    assert_eq!(id2, 2);
    assert_eq!(table.current_job_id(), Some(2));
}

#[test]
fn resolve_spec_bare_defaults_to_current_job() {
    let mut table = JobTable::new();
    table.register(pid(100), pid(100), "sleep 1".to_string());
    let id2 = table.register(pid(200), pid(200), "sleep 2".to_string());
    assert_eq!(table.resolve_spec(None), Ok(id2));
    assert_eq!(table.resolve_spec(Some("%+")), Ok(id2));
}

#[test]
fn resolve_spec_previous_job() {
    let mut table = JobTable::new();
    let id1 = table.register(pid(100), pid(100), "sleep 1".to_string());
    table.register(pid(200), pid(200), "sleep 2".to_string());
    assert_eq!(table.resolve_spec(Some("%-")), Ok(id1));
}

#[test]
fn resolve_spec_by_number() {
    let mut table = JobTable::new();
    let id1 = table.register(pid(100), pid(100), "sleep 1".to_string());
    assert_eq!(table.resolve_spec(Some("%1")), Ok(id1));
    assert_eq!(table.resolve_spec(Some("1")), Ok(id1));
}

#[test]
fn resolve_spec_by_unambiguous_command_prefix() {
    let mut table = JobTable::new();
    let id1 = table.register(pid(100), pid(100), "sleep 100".to_string());
    assert_eq!(table.resolve_spec(Some("%sleep")), Ok(id1));
}

#[test]
fn resolve_spec_ambiguous_prefix_errors() {
    let mut table = JobTable::new();
    table.register(pid(100), pid(100), "sleep 1".to_string());
    table.register(pid(200), pid(200), "sleep 2".to_string());
    assert!(table.resolve_spec(Some("%sleep")).is_err());
}

#[test]
fn remove_promotes_previous_to_current() {
    let mut table = JobTable::new();
    let id1 = table.register(pid(100), pid(100), "a".to_string());
    let id2 = table.register(pid(200), pid(200), "b".to_string());
    assert_eq!(table.current_job_id(), Some(id2));
    table.remove(id2);
    assert_eq!(table.current_job_id(), Some(id1));
}

#[test]
fn job_state_is_finished() {
    assert!(!JobState::Running.is_finished());
    assert!(!JobState::Stopped.is_finished());
    assert!(JobState::Done(0).is_finished());
    assert!(JobState::Signaled(9).is_finished());
}
