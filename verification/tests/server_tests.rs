use illef_workflow::engine::{begin_execution, complete_execution, SpawnResult};
use illef_workflow::server::{
    execution_to_proto, get_execution_log_path, get_workflow_status, list_workflows,
    trigger_workflow, ServiceError,
};
use illef_workflow::store::ExecutionStore;
use illef_workflow::text::split_fields;
use illef_workflow::types::{
    AppConfig, Execution, ExecutionStatus, NotificationConfig, WorkflowConfig,
};

fn wf(name: &str, cron: &str) -> WorkflowConfig {
    WorkflowConfig {
        name: name.to_string(),
        cron: cron.to_string(),
        script: format!("{}.sh", name),
        message_script: None,
    }
}

fn config_with(workflows: Vec<WorkflowConfig>) -> AppConfig {
    AppConfig {
        workflows,
        notifications: NotificationConfig::default(),
    }
}

#[test]
fn default_notification_command() {
    assert_eq!(NotificationConfig::default().command, "notify-send");
}

#[test]
fn status_strings_round_trip() {
    for st in [
        ExecutionStatus::Running,
        ExecutionStatus::Success,
        ExecutionStatus::Failed,
    ] {
        assert_eq!(ExecutionStatus::from_str(st.as_str()), Some(st));
    }
    assert_eq!(ExecutionStatus::from_str("exploded"), None);
}

#[test]
fn proto_flattens_absent_fields_to_sentinels() {
    let e = Execution {
        id: "id-1".to_string(),
        workflow: "backup".to_string(),
        status: ExecutionStatus::Running,
        started_at: 100,
        finished_at: None,
        exit_code: None,
        log_path: "/l/a.log".to_string(),
    };
    let p = execution_to_proto(&e);
    assert_eq!(p.status, "running");
    assert_eq!(p.finished_at, 0);
    assert_eq!(p.exit_code, -1);
    assert_eq!(p.started_at, 100);
    assert_eq!(p.log_path, "/l/a.log");
}

#[test]
fn listing_joins_definitions_with_latest_runs() {
    let config = config_with(vec![wf("backup", "30 10 1 1 *"), wf("report", "*/5 * * * *")]);
    let mut store = ExecutionStore::new();
    begin_execution(&mut store, "backup", "id-1", "/l/b1.log", 50).unwrap();

    let infos = list_workflows(&config, &store, 0);
    assert_eq!(infos.len(), 2);

    let backup = &infos[0];
    assert_eq!(backup.name, "backup");
    assert_eq!(backup.cron, "30 10 1 1 *");
    assert_eq!(backup.script, "backup.sh");
    assert_eq!(backup.status, "running");
    assert_eq!(backup.next_run_at, 37_800);
    assert_eq!(backup.last_run_at, 50);
    assert_eq!(backup.last_run_status, "running");

    let report = &infos[1];
    assert_eq!(report.status, "idle");
    assert_eq!(report.next_run_at, 300);
    assert_eq!(report.last_run_at, 0);
    assert_eq!(report.last_run_status, "");
}

#[test]
fn workflow_status_reports_recent_history_newest_first() {
    let config = config_with(vec![wf("backup", "30 10 1 1 *")]);
    let mut store = ExecutionStore::new();
    begin_execution(&mut store, "backup", "id-1", "/l/1.log", 10).unwrap();
    complete_execution(
        &mut store,
        "id-1",
        &SpawnResult::Exited {
            code: Some(0),
            stdout: String::new(),
            stderr: String::new(),
        },
        15,
    );
    begin_execution(&mut store, "backup", "id-2", "/l/2.log", 20).unwrap();

    let (info, execs) = get_workflow_status(&config, &store, "backup", 0).unwrap();
    assert_eq!(info.name, "backup");
    assert_eq!(info.status, "running");
    assert_eq!(execs.len(), 2);
    assert_eq!(execs[0].id, "id-2");
    assert_eq!(execs[0].status, "running");
    assert_eq!(execs[1].id, "id-1");
    assert_eq!(execs[1].status, "success");
    assert_eq!(execs[1].finished_at, 15);
    assert_eq!(execs[1].exit_code, 0);
}

#[test]
fn workflow_status_of_unknown_name_is_not_found() {
    let config = config_with(vec![wf("backup", "30 10 1 1 *")]);
    let store = ExecutionStore::new();
    assert_eq!(
        get_workflow_status(&config, &store, "nonesuch", 0).err(),
        Some(ServiceError::NotFound)
    );
}

#[test]
fn log_path_of_a_known_id_is_the_stored_one() {
    let mut store = ExecutionStore::new();
    begin_execution(&mut store, "backup", "id-1", "/l/exact.log", 10).unwrap();
    assert_eq!(
        get_execution_log_path(&store, "id-1"),
        Ok("/l/exact.log".to_string())
    );
}

#[test]
fn log_path_of_an_unknown_id_is_not_found() {
    let store = ExecutionStore::new();
    assert_eq!(
        get_execution_log_path(&store, "nonesuch"),
        Err(ServiceError::NotFound)
    );
}

#[test]
fn trigger_acknowledges_known_names_only() {
    let config = config_with(vec![wf("backup", "30 10 1 1 *")]);
    assert_eq!(
        trigger_workflow(&config, "backup"),
        Ok("workflow backup triggered".to_string())
    );
    assert_eq!(
        trigger_workflow(&config, "nonesuch"),
        Err(ServiceError::NotFound)
    );
}

#[test]
fn command_lines_split_on_whitespace() {
    assert_eq!(
        split_fields("notify-send -u critical"),
        vec!["notify-send".to_string(), "-u".to_string(), "critical".to_string()]
    );
    assert_eq!(split_fields("   "), Vec::<String>::new());
    assert_eq!(split_fields(""), Vec::<String>::new());
}
