//! The execution engine's decisions: the execution record's lifecycle
//! around one script run, the classification of process outcomes, the
//! log lines, the message-script exit-code protocol, and the
//! notification content. The surrounding application spawns processes
//! and writes files; every value it records or sends is computed here.

use vstd::prelude::*;

use crate::store::{find_by_id, insert_pos, with_completion, ExecutionStore, StoreError};
use crate::text::{i64_to_string, int_str, trim, trim_spec};
use crate::types::{Execution, ExecutionStatus};

verus! {

/// What became of one attempt to run a script: the spawn itself failed
/// (the script is missing or unexecutable), or the process ran and the
/// captured output and exit code are in hand (`code` is absent when the
/// process was ended by a signal).
pub enum SpawnResult {
    NotSpawned,
    Exited { code: Option<i32>, stdout: String, stderr: String },
}

/// The recorded outcome of the primary script: exit zero is success; any
/// other exit is a failure under its real code; a spawn failure or a
/// signal death is a failure under the sentinel `-1`.
pub open spec fn outcome_of(s: SpawnResult) -> (ExecutionStatus, i32) {
    match s {
        SpawnResult::NotSpawned => (ExecutionStatus::Failed, -1i32),
        SpawnResult::Exited { code, .. } => match code {
            Some(c) => if c == 0 {
                (ExecutionStatus::Success, 0i32)
            } else {
                (ExecutionStatus::Failed, c)
            },
            None => (ExecutionStatus::Failed, -1i32),
        },
    }
}

/// The log file for one execution: `<logs_dir>/<workflow>/<id>.log`.
pub fn log_path_for(logs_dir: &str, workflow: &str, execution_id: &str) -> (r: String)
    ensures
        r@ == logs_dir@ + "/"@ + workflow@ + "/"@ + execution_id@ + ".log"@,
{
    let mut r = String::from_str(logs_dir);
    r.append("/");
    r.append(workflow);
    r.append("/");
    r.append(execution_id);
    r.append(".log");
    r
}

/// Opens an execution: a `Running` record with no finish data yet,
/// persisted before the process is spawned. Refused only when the id is
/// already taken, in which case the store is untouched.
pub fn begin_execution(
    store: &mut ExecutionStore,
    workflow: &str,
    id: &str,
    log_path: &str,
    started_at: i64,
) -> (r: Result<Execution, StoreError>)
    requires
        old(store).wf(),
    ensures
        final(store).wf(),
        r is Ok <==> find_by_id(old(store)@, id@) is None,
        r is Ok ==> ({
            let e = r->Ok_0;
            &&& e.id@ == id@
            &&& e.workflow@ == workflow@
            &&& e.status is Running
            &&& e.started_at == started_at
            &&& e.finished_at is None
            &&& e.exit_code is None
            &&& e.log_path@ == log_path@
            &&& e.wf()
            &&& final(store)@ == old(store)@.insert(insert_pos(old(store)@, started_at), e)
        }),
        r is Err ==> final(store)@ == old(store)@,
{
    let exec = Execution {
        id: String::from_str(id),
        workflow: String::from_str(workflow),
        status: ExecutionStatus::Running,
        started_at,
        finished_at: None,
        exit_code: None,
        log_path: String::from_str(log_path),
    };
    let record = exec.clone();
    match store.insert_execution(record) {
        Ok(()) => Ok(exec),
        Err(e) => Err(e),
    }
}

/// Closes an execution: classifies the process outcome and persists
/// status, finish time and exit code in one update keyed by id.
pub fn complete_execution(
    store: &mut ExecutionStore,
    id: &str,
    outcome: &SpawnResult,
    finished_at: i64,
) -> (r: (ExecutionStatus, i32))
    requires
        old(store).wf(),
    ensures
        final(store).wf(),
        r == outcome_of(*outcome),
        final(store)@ == with_completion(old(store)@, id@, r.0, finished_at, r.1),
{
    let (status, code): (ExecutionStatus, i32) = match outcome {
        SpawnResult::NotSpawned => (ExecutionStatus::Failed, -1),
        SpawnResult::Exited { code, .. } => match *code {
            Some(c) => if c == 0 {
                (ExecutionStatus::Success, 0)
            } else {
                (ExecutionStatus::Failed, c)
            },
            None => (ExecutionStatus::Failed, -1),
        },
    };
    store.update_execution_finished(id, status, finished_at, code);
    (status, code)
}

/// The line that opens a log file: `[<ts>] Starting workflow: <name>`.
pub fn start_log_line(ts: &str, workflow: &str) -> (r: String)
    ensures
        r@ == "["@ + ts@ + "] Starting workflow: "@ + workflow@ + "\n"@,
{
    let mut r = String::from_str("[");
    r.append(ts);
    r.append("] Starting workflow: ");
    r.append(workflow);
    r.append("\n");
    r
}

/// The line that closes a log file:
/// `[<ts>] Finished with exit code: <code>`.
pub fn finish_log_line(ts: &str, exit_code: i32) -> (r: String)
    ensures
        r@ == "\n["@ + ts@ + "] Finished with exit code: "@ + int_str(exit_code as int)
            + "\n"@,
{
    let rendered = i64_to_string(exit_code as i64);
    let mut r = String::from_str("\n[");
    r.append(ts);
    r.append("] Finished with exit code: ");
    r.append(rendered.as_str());
    r.append("\n");
    r
}

/// The log line recording that the process could not be started at all,
/// around the spawn error's own text.
pub fn spawn_error_log_line(err: &str) -> (r: String)
    ensures
        r@ == "\n[error] Failed to start process: "@ + err@ + "\n"@,
{
    let mut r = String::from_str("\n[error] Failed to start process: ");
    r.append(err);
    r.append("\n");
    r
}

/// The delimiter written before captured stderr, when there is any.
pub fn stderr_delimiter() -> (r: &'static str)
    ensures
        r@ == "\n[stderr]\n"@,
{
    "\n[stderr]\n"
}

/// What the message script decided for the success notification.
pub enum MessageScriptResult {
    /// No message script is configured.
    NoScript,
    /// Exit 0 with non-blank stdout: the trimmed stdout is the body.
    Body(String),
    /// Anything else: fall back to the default body.
    Empty,
    /// Exit 3: no notification at all for this execution.
    Suppressed,
}

impl MessageScriptResult {
    /// The custom body, present only when the script supplied one.
    pub fn body(self) -> (r: Option<String>)
        ensures
            (match self {
                MessageScriptResult::Body(s) => r == Some(s),
                _ => r is None,
            }),
    {
        match self {
            MessageScriptResult::Body(s) => Some(s),
            _ => None,
        }
    }
}

/// The message-script exit-code protocol, given how the script's run
/// went: exit 0 hands its trimmed stdout over (blank stdout falls back),
/// exit 3 suppresses the notification, and every other exit, a signal
/// death or a spawn failure falls back to the default body.
pub open spec fn message_outcome_matches(s: SpawnResult, r: MessageScriptResult) -> bool {
    match s {
        SpawnResult::NotSpawned => r is Empty,
        SpawnResult::Exited { code, stdout, .. } => {
            if code == Some(3i32) {
                r is Suppressed
            } else if code == Some(0i32) {
                if trim_spec(stdout@).len() == 0 {
                    r is Empty
                } else {
                    r matches MessageScriptResult::Body(b) && b@ == trim_spec(stdout@)
                }
            } else {
                r is Empty
            }
        },
    }
}

/// Evaluates the message-script protocol. `run` is absent when no
/// message script is configured; a script failure of any kind degrades
/// to the default body and never fails the execution.
pub fn message_outcome(run: Option<&SpawnResult>) -> (r: MessageScriptResult)
    ensures
        run is None ==> r is NoScript,
        run matches Some(s) ==> message_outcome_matches(*s, r),
{
    match run {
        None => MessageScriptResult::NoScript,
        Some(SpawnResult::NotSpawned) => MessageScriptResult::Empty,
        Some(SpawnResult::Exited { code, stdout, .. }) => match *code {
            Some(3) => MessageScriptResult::Suppressed,
            Some(0) => {
                let t = trim(stdout.as_str());
                if t.unicode_len() == 0 {
                    MessageScriptResult::Empty
                } else {
                    MessageScriptResult::Body(t)
                }
            },
            _ => MessageScriptResult::Empty,
        },
    }
}

/// A notification ready to hand to the sink: a title and a body.
pub struct Notification {
    pub title: String,
    pub body: String,
}

/// What is announced for a completed execution: nothing while the
/// notification is suppressed or the status is (impossibly) still
/// running; otherwise `<name> succeeded` or `<name> failed`, with the
/// script-supplied body when there is one, the fixed default on success
/// and an empty body on failure.
pub open spec fn notification_matches(
    w: Seq<char>,
    st: ExecutionStatus,
    m: MessageScriptResult,
    r: Option<Notification>,
) -> bool {
    if m is Suppressed || st is Running {
        r is None
    } else {
        r matches Some(n) && n.title@ == w + (if st is Success {
            " succeeded"@
        } else {
            " failed"@
        }) && n.body@ == (match m {
            MessageScriptResult::Body(b) => b@,
            _ => if st is Success {
                "completed successfully"@
            } else {
                Seq::<char>::empty()
            },
        })
    }
}

/// Decides the notification for a completed execution under the
/// message-script result.
pub fn notification_for(workflow: &str, status: &ExecutionStatus, msg: &MessageScriptResult)
    -> (r: Option<Notification>)
    ensures
        notification_matches(workflow@, *status, *msg, r),
{
    if let MessageScriptResult::Suppressed = msg {
        return None;
    }
    let (title, default_body): (String, &'static str) = match status {
        ExecutionStatus::Success => {
            let mut t = String::from_str(workflow);
            t.append(" succeeded");
            (t, "completed successfully")
        },
        ExecutionStatus::Failed => {
            let mut t = String::from_str(workflow);
            t.append(" failed");
            (t, "")
        },
        ExecutionStatus::Running => {
            return None;
        },
    };
    let body = match msg {
        MessageScriptResult::Body(b) => b.clone(),
        _ => String::from_str(default_body),
    };
    proof {
        reveal_strlit("");
        assert(""@ =~= Seq::<char>::empty());
    }
    Some(Notification { title, body })
}

} // verus!
