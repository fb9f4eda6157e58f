use illef_workflow::store::{ExecutionStore, StoreError};
use illef_workflow::types::{Execution, ExecutionStatus};

fn running(id: &str, workflow: &str, started_at: i64) -> Execution {
    Execution {
        id: id.to_string(),
        workflow: workflow.to_string(),
        status: ExecutionStatus::Running,
        started_at,
        finished_at: None,
        exit_code: None,
        log_path: format!("/logs/{}/{}.log", workflow, id),
    }
}

#[test]
fn insert_then_get_by_id_returns_the_record() {
    let mut store = ExecutionStore::new();
    store.insert_execution(running("id-1", "backup", 100)).unwrap();
    let found = store.get_execution_by_id("id-1").unwrap();
    assert_eq!(found.id, "id-1");
    assert_eq!(found.workflow, "backup");
    assert_eq!(found.status, ExecutionStatus::Running);
    assert_eq!(found.log_path, "/logs/backup/id-1.log");
}

#[test]
fn get_by_unknown_id_is_absent() {
    let mut store = ExecutionStore::new();
    store.insert_execution(running("id-1", "backup", 100)).unwrap();
    assert!(store.get_execution_by_id("id-2").is_none());
}

#[test]
fn duplicate_id_is_refused_and_changes_nothing() {
    let mut store = ExecutionStore::new();
    store.insert_execution(running("id-1", "backup", 100)).unwrap();
    let again = store.insert_execution(running("id-1", "report", 200));
    assert_eq!(again, Err(StoreError::DuplicateId));
    assert_eq!(store.get_execution_by_id("id-1").unwrap().workflow, "backup");
    assert_eq!(store.get_executions("report", 10).len(), 0);
}

#[test]
fn listings_come_most_recent_first_and_respect_the_limit() {
    let mut store = ExecutionStore::new();
    store.insert_execution(running("a", "backup", 10)).unwrap();
    store.insert_execution(running("b", "backup", 20)).unwrap();
    store.insert_execution(running("x", "report", 25)).unwrap();
    store.insert_execution(running("c", "backup", 30)).unwrap();
    let all: Vec<String> = store
        .get_executions("backup", 10)
        .into_iter()
        .map(|e| e.id)
        .collect();
    assert_eq!(all, vec!["c".to_string(), "b".to_string(), "a".to_string()]);
    let two: Vec<String> = store
        .get_executions("backup", 2)
        .into_iter()
        .map(|e| e.id)
        .collect();
    assert_eq!(two, vec!["c".to_string(), "b".to_string()]);
}

#[test]
fn listings_order_by_start_time_even_out_of_insertion_order() {
    let mut store = ExecutionStore::new();
    store.insert_execution(running("late", "backup", 50)).unwrap();
    store.insert_execution(running("early", "backup", 10)).unwrap();
    let ids: Vec<String> = store
        .get_executions("backup", 10)
        .into_iter()
        .map(|e| e.id)
        .collect();
    assert_eq!(ids, vec!["late".to_string(), "early".to_string()]);
}

#[test]
fn last_execution_is_the_newest() {
    let mut store = ExecutionStore::new();
    assert!(store.get_last_execution("backup").is_none());
    store.insert_execution(running("a", "backup", 10)).unwrap();
    store.insert_execution(running("b", "backup", 20)).unwrap();
    assert_eq!(store.get_last_execution("backup").unwrap().id, "b");
}

#[test]
fn completion_sets_status_time_and_code_together() {
    let mut store = ExecutionStore::new();
    store.insert_execution(running("id-1", "backup", 100)).unwrap();
    store.update_execution_finished("id-1", ExecutionStatus::Success, 160, 0);
    let done = store.get_execution_by_id("id-1").unwrap();
    assert_eq!(done.status, ExecutionStatus::Success);
    assert_eq!(done.finished_at, Some(160));
    assert_eq!(done.exit_code, Some(0));
    assert_eq!(done.started_at, 100);
}

#[test]
fn completing_an_unknown_id_is_a_no_op() {
    let mut store = ExecutionStore::new();
    store.insert_execution(running("id-1", "backup", 100)).unwrap();
    store.update_execution_finished("ghostly", ExecutionStatus::Failed, 160, 1);
    let untouched = store.get_execution_by_id("id-1").unwrap();
    assert_eq!(untouched.status, ExecutionStatus::Running);
    assert_eq!(untouched.finished_at, None);
}
