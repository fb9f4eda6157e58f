use illef_workflow::engine::{
    begin_execution, complete_execution, finish_log_line, log_path_for, message_outcome,
    notification_for, spawn_error_log_line, start_log_line, stderr_delimiter,
    MessageScriptResult, SpawnResult,
};
use illef_workflow::store::ExecutionStore;
use illef_workflow::types::ExecutionStatus;

fn exited(code: Option<i32>, stdout: &str) -> SpawnResult {
    SpawnResult::Exited {
        code,
        stdout: stdout.to_string(),
        stderr: String::new(),
    }
}

#[test]
fn log_path_is_derived_from_workflow_and_id() {
    assert_eq!(
        log_path_for("/var/logs", "backup", "id-1"),
        "/var/logs/backup/id-1.log"
    );
}

#[test]
fn log_lines_are_exact() {
    assert_eq!(
        start_log_line("2024-01-01 00:00:00", "backup"),
        "[2024-01-01 00:00:00] Starting workflow: backup\n"
    );
    assert_eq!(
        finish_log_line("2024-01-01 00:00:05", 0),
        "\n[2024-01-01 00:00:05] Finished with exit code: 0\n"
    );
    assert_eq!(
        finish_log_line("2024-01-01 00:00:05", -1),
        "\n[2024-01-01 00:00:05] Finished with exit code: -1\n"
    );
    assert_eq!(
        finish_log_line("t", 137),
        "\n[t] Finished with exit code: 137\n"
    );
    assert_eq!(
        spawn_error_log_line("No such file or directory"),
        "\n[error] Failed to start process: No such file or directory\n"
    );
    assert_eq!(stderr_delimiter(), "\n[stderr]\n");
}

#[test]
fn spawn_failure_is_a_failed_execution_with_sentinel_code() {
    let mut store = ExecutionStore::new();
    begin_execution(&mut store, "backup", "id-1", "/logs/backup/id-1.log", 100).unwrap();
    let (status, code) = complete_execution(&mut store, "id-1", &SpawnResult::NotSpawned, 105);
    assert_eq!(status, ExecutionStatus::Failed);
    assert_eq!(code, -1);
    let rec = store.get_execution_by_id("id-1").unwrap();
    assert_eq!(rec.status, ExecutionStatus::Failed);
    assert_eq!(rec.exit_code, Some(-1));
}

#[test]
fn nonzero_exit_is_failed_with_the_real_code() {
    let mut store = ExecutionStore::new();
    begin_execution(&mut store, "backup", "id-1", "/logs/backup/id-1.log", 100).unwrap();
    let (status, code) = complete_execution(&mut store, "id-1", &exited(Some(2), ""), 105);
    assert_eq!(status, ExecutionStatus::Failed);
    assert_eq!(code, 2);
}

#[test]
fn signal_death_is_failed_with_sentinel_code() {
    let mut store = ExecutionStore::new();
    begin_execution(&mut store, "backup", "id-1", "/logs/backup/id-1.log", 100).unwrap();
    let (status, code) = complete_execution(&mut store, "id-1", &exited(None, ""), 105);
    assert_eq!(status, ExecutionStatus::Failed);
    assert_eq!(code, -1);
}

#[test]
fn message_script_exit_three_suppresses_the_notification() {
    let outcome = message_outcome(Some(&exited(Some(3), "whatever")));
    assert!(matches!(outcome, MessageScriptResult::Suppressed));
    // The primary execution succeeded, yet nothing is announced.
    let n = notification_for("backup", &ExecutionStatus::Success, &outcome);
    assert!(n.is_none());
}

#[test]
fn message_script_stdout_becomes_the_body() {
    let outcome = message_outcome(Some(&exited(Some(0), "backup ok")));
    match &outcome {
        MessageScriptResult::Body(b) => assert_eq!(b, "backup ok"),
        _ => panic!("exit 0 with stdout must supply the body"),
    }
    let n = notification_for("backup", &ExecutionStatus::Success, &outcome).unwrap();
    assert_eq!(n.title, "backup succeeded");
    assert_eq!(n.body, "backup ok");
}

#[test]
fn message_script_stdout_is_trimmed() {
    let outcome = message_outcome(Some(&exited(Some(0), "  backup ok \n")));
    match outcome {
        MessageScriptResult::Body(b) => assert_eq!(b, "backup ok"),
        _ => panic!("exit 0 with stdout must supply the body"),
    }
}

#[test]
fn blank_stdout_falls_back_to_the_default_body() {
    let outcome = message_outcome(Some(&exited(Some(0), "  \n\t")));
    assert!(matches!(outcome, MessageScriptResult::Empty));
    let n = notification_for("backup", &ExecutionStatus::Success, &outcome).unwrap();
    assert_eq!(n.body, "completed successfully");
}

#[test]
fn other_exit_codes_and_spawn_failures_fall_back() {
    assert!(matches!(
        message_outcome(Some(&exited(Some(1), "ignored"))),
        MessageScriptResult::Empty
    ));
    assert!(matches!(
        message_outcome(Some(&exited(None, "ignored"))),
        MessageScriptResult::Empty
    ));
    assert!(matches!(
        message_outcome(Some(&SpawnResult::NotSpawned)),
        MessageScriptResult::Empty
    ));
    assert!(matches!(message_outcome(None), MessageScriptResult::NoScript));
}

#[test]
fn body_accessor_yields_only_a_supplied_body() {
    assert_eq!(
        MessageScriptResult::Body("hi".to_string()).body(),
        Some("hi".to_string())
    );
    assert_eq!(MessageScriptResult::NoScript.body(), None);
    assert_eq!(MessageScriptResult::Empty.body(), None);
    assert_eq!(MessageScriptResult::Suppressed.body(), None);
}

#[test]
fn failed_executions_notify_with_an_empty_body() {
    let n = notification_for("backup", &ExecutionStatus::Failed, &MessageScriptResult::NoScript)
        .unwrap();
    assert_eq!(n.title, "backup failed");
    assert_eq!(n.body, "");
}

#[test]
fn running_status_never_notifies() {
    let n = notification_for("backup", &ExecutionStatus::Running, &MessageScriptResult::NoScript);
    assert!(n.is_none());
}

#[test]
fn scenario_backup_success_without_message_script() {
    // Workflow `backup`, script exiting 0 with stdout "12 files", no
    // message script: recorded Success with exit code 0, notification
    // body is the default.
    let mut store = ExecutionStore::new();
    let log_path = log_path_for("/logs", "backup", "id-1");
    let rec = begin_execution(&mut store, "backup", "id-1", &log_path, 100).unwrap();
    assert_eq!(rec.status, ExecutionStatus::Running);

    let run = exited(Some(0), "12 files");
    let (status, code) = complete_execution(&mut store, "id-1", &run, 160);
    assert_eq!(status, ExecutionStatus::Success);
    assert_eq!(code, 0);

    let outcome = message_outcome(None);
    let n = notification_for("backup", &status, &outcome).unwrap();
    assert_eq!(n.title, "backup succeeded");
    assert_eq!(n.body, "completed successfully");

    let stored = store.get_execution_by_id("id-1").unwrap();
    assert_eq!(stored.status, ExecutionStatus::Success);
    assert_eq!(stored.exit_code, Some(0));
    assert_eq!(stored.finished_at, Some(160));
    assert_eq!(stored.log_path, "/logs/backup/id-1.log");
}

#[test]
fn begin_execution_refuses_a_taken_id() {
    let mut store = ExecutionStore::new();
    begin_execution(&mut store, "backup", "id-1", "/l/a.log", 100).unwrap();
    assert!(begin_execution(&mut store, "backup", "id-1", "/l/b.log", 200).is_err());
}

#[test]
fn extreme_exit_codes_render_exactly() {
    assert_eq!(
        finish_log_line("t", i32::MIN),
        "\n[t] Finished with exit code: -2147483648\n"
    );
    assert_eq!(
        finish_log_line("t", i32::MAX),
        "\n[t] Finished with exit code: 2147483647\n"
    );
}
