//! The status service: the four operations exposed over the local RPC
//! boundary — list workflows with their latest run and next occurrence,
//! one workflow's status with recent history, an execution's log path,
//! and the manual-trigger acknowledgement. Reads only; the transport and
//! the command channel live in the surrounding application.

use vstd::prelude::*;

use crate::schedule::{cron_next, get_next_run, spec_normalize_cron, MAX_EVAL_EPOCH_SECS};
use crate::scheduler::{find_workflow, lookup_workflow};
use crate::store::{find_by_id, latest_for, lemma_find_by_id_insert_other, recent_for};
use crate::store::ExecutionStore;
use crate::types::{status_str, AppConfig, Execution, ExecutionStatus, WorkflowConfig};

verus! {

/// How many recent executions a status query reports.
pub const HISTORY_LIMIT: usize = 50;

/// A service request that could not be answered.
#[derive(Clone, Copy, Debug, PartialEq, Eq, Structural)]
pub enum ServiceError {
    /// The named workflow or execution is unknown.
    NotFound,
}

/// One workflow as reported to clients: its definition joined with its
/// latest recorded run and its next occurrence.
pub struct WorkflowInfo {
    pub name: String,
    pub cron: String,
    pub script: String,
    pub status: String,
    pub next_run_at: i64,
    pub last_run_at: i64,
    pub last_run_status: String,
}

/// One execution as reported to clients, with absences flattened to
/// sentinels for the wire.
pub struct ExecutionInfo {
    pub id: String,
    pub workflow: String,
    pub status: String,
    pub started_at: i64,
    pub finished_at: i64,
    pub exit_code: i32,
    pub log_path: String,
}

/// The wire form of a record: fields copied, the status as its open
/// string, an absent finish time as `0` and an absent exit code as `-1`.
pub open spec fn proto_matches(e: Execution, p: ExecutionInfo) -> bool {
    &&& p.id@ == e.id@
    &&& p.workflow@ == e.workflow@
    &&& p.status@ == status_str(e.status)
    &&& p.started_at == e.started_at
    &&& p.finished_at == (match e.finished_at {
        Some(t) => t,
        None => 0i64,
    })
    &&& p.exit_code == (match e.exit_code {
        Some(c) => c,
        None => -1i32,
    })
    &&& p.log_path@ == e.log_path@
}

/// Flattens a record to its wire form.
pub fn execution_to_proto(exec: &Execution) -> (r: ExecutionInfo)
    ensures
        proto_matches(*exec, r),
{
    ExecutionInfo {
        id: exec.id.clone(),
        workflow: exec.workflow.clone(),
        status: String::from_str(exec.status.as_str()),
        started_at: exec.started_at,
        finished_at: match exec.finished_at {
            Some(t) => t,
            None => 0,
        },
        exit_code: match exec.exit_code {
            Some(c) => c,
            None => -1,
        },
        log_path: exec.log_path.clone(),
    }
}

/// What clients learn of one workflow: its definition, its next
/// occurrence (`0` when the expression yields none), and — from the
/// newest record — when it last ran, how that ended, and whether it is
/// running right now.
pub open spec fn workflow_info_matches(
    w: WorkflowConfig,
    recs: Seq<Execution>,
    now: i64,
    info: WorkflowInfo,
) -> bool {
    &&& info.name@ == w.name@
    &&& info.cron@ == w.cron@
    &&& info.script@ == w.script@
    &&& info.next_run_at == (match cron_next(spec_normalize_cron(w.cron@), now as int) {
        Some(t) => t,
        None => 0i64,
    })
    &&& (match latest_for(recs, w.name@) {
        Some(e) => {
            &&& info.last_run_at == e.started_at
            &&& info.last_run_status@ == status_str(e.status)
            &&& info.status@ == (if e.status is Running {
                "running"@
            } else {
                "idle"@
            })
        },
        None => {
            &&& info.last_run_at == 0
            &&& info.last_run_status@ == Seq::<char>::empty()
            &&& info.status@ == "idle"@
        },
    })
}

/// Joins one definition with the store and the clock.
fn workflow_info_for(w: &WorkflowConfig, store: &ExecutionStore, now: i64) -> (info:
    WorkflowInfo)
    requires
        now < MAX_EVAL_EPOCH_SECS,
    ensures
        workflow_info_matches(*w, store@, now, info),
{
    let next_run_at = match get_next_run(w.cron.as_str(), now) {
        Some(t) => t,
        None => 0,
    };
    let last = store.get_last_execution(w.name.as_str());
    match last {
        Some(e) => {
            let running = matches!(e.status, ExecutionStatus::Running);
            WorkflowInfo {
                name: w.name.clone(),
                cron: w.cron.clone(),
                script: w.script.clone(),
                status: if running {
                    String::from_str("running")
                } else {
                    String::from_str("idle")
                },
                next_run_at,
                last_run_at: e.started_at,
                last_run_status: String::from_str(e.status.as_str()),
            }
        },
        None => WorkflowInfo {
            name: w.name.clone(),
            cron: w.cron.clone(),
            script: w.script.clone(),
            status: String::from_str("idle"),
            next_run_at,
            last_run_at: 0,
            last_run_status: String::new(),
        },
    }
}

/// Lists every workflow of the current definition set, each joined with
/// its latest run and next occurrence.
pub fn list_workflows(config: &AppConfig, store: &ExecutionStore, now: i64) -> (r: Vec<
    WorkflowInfo,
>)
    requires
        now < MAX_EVAL_EPOCH_SECS,
    ensures
        r@.len() == config.workflows@.len(),
        forall|i: int|
            0 <= i < r@.len() ==> workflow_info_matches(
                config.workflows@[i],
                store@,
                now,
                #[trigger] r@[i],
            ),
{
    let m = config.workflows.len();
    let mut r: Vec<WorkflowInfo> = Vec::new();
    let mut k: usize = 0;
    while k < m
        invariant
            m == config.workflows@.len(),
            k <= m,
            r@.len() == k,
            forall|i: int|
                0 <= i < k ==> workflow_info_matches(
                    config.workflows@[i],
                    store@,
                    now,
                    #[trigger] r@[i],
                ),
        decreases m - k,
    {
        let info = workflow_info_for(&config.workflows[k], store, now);
        r.push(info);
        k += 1;
    }
    r
}

/// One workflow's status: its info and its most recent executions, up to
/// the history limit, newest first. Not found when the name is absent
/// from the current definition set.
pub fn get_workflow_status(config: &AppConfig, store: &ExecutionStore, name: &str, now: i64)
    -> (r: Result<(WorkflowInfo, Vec<ExecutionInfo>), ServiceError>)
    requires
        now < MAX_EVAL_EPOCH_SECS,
    ensures
        r is Err <==> find_workflow(config.workflows@, name@) is None,
        r is Err ==> r == Err::<(WorkflowInfo, Vec<ExecutionInfo>), ServiceError>(
            ServiceError::NotFound,
        ),
        r is Ok ==> ({
            let history = recent_for(store@, name@, HISTORY_LIMIT as nat);
            &&& workflow_info_matches(
                find_workflow(config.workflows@, name@)->0,
                store@,
                now,
                r->Ok_0.0,
            )
            &&& r->Ok_0.1@.len() == history.len()
            &&& (forall|i: int|
                0 <= i < history.len() ==> proto_matches(history[i], #[trigger] r->Ok_0.1@[i]))
        }),
{
    let found = lookup_workflow(config, name);
    match found {
        None => Err(ServiceError::NotFound),
        Some(w) => {
            let info = workflow_info_for(&w, store, now);
            let records = store.get_executions(name, HISTORY_LIMIT);
            let ghost history = recent_for(store@, name@, HISTORY_LIMIT as nat);
            let mut protos: Vec<ExecutionInfo> = Vec::new();
            let mut k: usize = 0;
            while k < records.len()
                invariant
                    records@ == history,
                    k <= records@.len(),
                    protos@.len() == k,
                    forall|i: int|
                        0 <= i < k ==> proto_matches(history[i], #[trigger] protos@[i]),
                decreases records@.len() - k,
            {
                let p = execution_to_proto(&records[k]);
                protos.push(p);
                k += 1;
            }
            Ok((info, protos))
        },
    }
}

/// The log file path recorded for an execution id; not found when no
/// record carries the id.
pub fn get_execution_log_path(store: &ExecutionStore, execution_id: &str) -> (r: Result<
    String,
    ServiceError,
>)
    ensures
        r is Err <==> find_by_id(store@, execution_id@) is None,
        r is Err ==> r == Err::<String, ServiceError>(ServiceError::NotFound),
        r is Ok ==> r->Ok_0@ == find_by_id(store@, execution_id@)->0.log_path@,
{
    match store.get_execution_by_id(execution_id) {
        Some(e) => Ok(e.log_path),
        None => Err(ServiceError::NotFound),
    }
}

/// Acknowledges a manual trigger: not found when the name is absent from
/// the current definition set, else the acknowledgement text. The caller
/// forwards the trigger itself over the command channel.
pub fn trigger_workflow(config: &AppConfig, name: &str) -> (r: Result<String, ServiceError>)
    ensures
        r is Err <==> find_workflow(config.workflows@, name@) is None,
        r is Err ==> r == Err::<String, ServiceError>(ServiceError::NotFound),
        r is Ok ==> r->Ok_0@ == "workflow "@ + name@ + " triggered"@,
{
    let found = lookup_workflow(config, name);
    match found {
        None => Err(ServiceError::NotFound),
        Some(_) => {
            let mut msg = String::from_str("workflow ");
            msg.append(name);
            msg.append(" triggered");
            Ok(msg)
        },
    }
}

/// The path reported for an execution id is exactly the one stored at
/// insertion: filing a record under a fresh id makes that id resolve to
/// that very record — and so to its log path — while an id no record
/// carries is reported not found.
pub proof fn lemma_log_path_is_exactly_the_stored_one(
    recs: Seq<Execution>,
    e: Execution,
    p: int,
)
    requires
        0 <= p <= recs.len(),
        find_by_id(recs, e.id@) is None,
    ensures
        find_by_id(recs.insert(p, e), e.id@) == Some(e),
        find_by_id(recs.insert(p, e), e.id@)->0.log_path == e.log_path,
{
    lemma_find_by_id_insert_other(recs, e, p);
}

} // verus!
