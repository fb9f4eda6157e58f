//! Core data model: workflow definitions, execution records and their
//! lifecycle status.

use vstd::prelude::*;

use crate::text::str_eq;

verus! {

/// One named, cron-scheduled unit of work mapping to a script, plus an
/// optional message script whose stdout customises the success
/// notification.
pub struct WorkflowConfig {
    pub name: String,
    pub cron: String,
    pub script: String,
    pub message_script: Option<String>,
}

/// How completed executions are announced: the command line that receives
/// a title and a body as its two final arguments.
pub struct NotificationConfig {
    pub command: String,
}

impl Default for NotificationConfig {
    fn default() -> (r: Self)
        ensures
            r.command@ == "notify-send"@,
    {
        NotificationConfig { command: String::from_str("notify-send") }
    }
}

/// A full definition set: the workflows plus the notification command.
/// A reload replaces the whole set atomically.
pub struct AppConfig {
    pub workflows: Vec<WorkflowConfig>,
    pub notifications: NotificationConfig,
}

/// Status of one execution. `Running` is the initial state; exactly one
/// transition, to `Success` or `Failed`, happens at completion.
#[derive(Clone, Copy, Debug, PartialEq, Eq, Structural)]
pub enum ExecutionStatus {
    Running,
    Success,
    Failed,
}

/// The open string form of a status, used at the serialisation boundary.
pub open spec fn status_str(st: ExecutionStatus) -> Seq<char> {
    match st {
        ExecutionStatus::Running => "running"@,
        ExecutionStatus::Success => "success"@,
        ExecutionStatus::Failed => "failed"@,
    }
}

impl ExecutionStatus {
    /// The open string form used at the serialisation boundary.
    pub fn as_str(&self) -> (r: &'static str)
        ensures
            r@ == status_str(*self),
    {
        match self {
            ExecutionStatus::Running => "running",
            ExecutionStatus::Success => "success",
            ExecutionStatus::Failed => "failed",
        }
    }

    /// Parses the open string form back; `None` on any other string.
    pub fn from_str(s: &str) -> (r: Option<ExecutionStatus>)
        ensures
            r == (if s@ == "running"@ {
                Some(ExecutionStatus::Running)
            } else if s@ == "success"@ {
                Some(ExecutionStatus::Success)
            } else if s@ == "failed"@ {
                Some(ExecutionStatus::Failed)
            } else {
                None::<ExecutionStatus>
            }),
    {
        if str_eq(s, "running") {
            Some(ExecutionStatus::Running)
        } else if str_eq(s, "success") {
            Some(ExecutionStatus::Success)
        } else if str_eq(s, "failed") {
            Some(ExecutionStatus::Failed)
        } else {
            None
        }
    }
}

/// One timestamped run of a workflow. Created with status `Running` and
/// no finish data; completed exactly once, when status, finish time and
/// exit code are set together.
pub struct Execution {
    pub id: String,
    pub workflow: String,
    pub status: ExecutionStatus,
    pub started_at: i64,
    pub finished_at: Option<i64>,
    pub exit_code: Option<i32>,
    pub log_path: String,
}

impl Execution {
    /// Lifecycle consistency: finish data is present exactly when the
    /// execution is no longer running.
    pub open spec fn wf(self) -> bool {
        &&& (self.status is Running <==> self.finished_at is None)
        &&& (self.status is Running ==> self.exit_code is None)
        &&& (!(self.status is Running) ==> self.exit_code is Some)
    }
}

impl Clone for WorkflowConfig {
    /// A field-for-field copy.
    fn clone(&self) -> (r: Self)
        ensures
            r == *self,
    {
        WorkflowConfig {
            name: self.name.clone(),
            cron: self.cron.clone(),
            script: self.script.clone(),
            message_script: match &self.message_script {
                Some(m) => Some(m.clone()),
                None => None,
            },
        }
    }
}

impl Clone for NotificationConfig {
    /// A field-for-field copy.
    fn clone(&self) -> (r: Self)
        ensures
            r == *self,
    {
        NotificationConfig { command: self.command.clone() }
    }
}

impl Clone for AppConfig {
    /// A copy carrying the same definitions.
    fn clone(&self) -> (r: Self)
        ensures
            r.workflows@ == self.workflows@,
            r.notifications == self.notifications,
    {
        let mut workflows: Vec<WorkflowConfig> = Vec::new();
        let mut i: usize = 0;
        while i < self.workflows.len()
            invariant
                i <= self.workflows@.len(),
                workflows@ == self.workflows@.take(i as int),
            decreases self.workflows@.len() - i,
        {
            workflows.push(self.workflows[i].clone());
            proof {
                assert(workflows@ =~= self.workflows@.take(i + 1));
            }
            i += 1;
        }
        proof {
            assert(self.workflows@.take(self.workflows@.len() as int) =~= self.workflows@);
        }
        AppConfig { workflows, notifications: self.notifications.clone() }
    }
}

impl Clone for Execution {
    /// A field-for-field copy.
    fn clone(&self) -> (r: Self)
        ensures
            r == *self,
    {
        Execution {
            id: self.id.clone(),
            workflow: self.workflow.clone(),
            status: self.status,
            started_at: self.started_at,
            finished_at: self.finished_at,
            exit_code: self.exit_code,
            log_path: self.log_path.clone(),
        }
    }
}

} // verus!
