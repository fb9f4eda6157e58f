//! The scheduler's decision core: the per-workflow run-state table that
//! enforces at-most-one concurrent execution with a single pending
//! re-run slot, command handling (reload, trigger, completion, timer
//! tick), and the wake-time computation. The surrounding application
//! owns the select loop and the clock; every decision it acts on is
//! taken here.

use vstd::prelude::*;

use crate::schedule::{cron_next, due_at, get_next_run, is_due, spec_normalize_cron};
use crate::schedule::{DUE_WINDOW_SECS, MAX_EVAL_EPOCH_SECS};
use crate::text::str_eq;
use crate::types::{AppConfig, WorkflowConfig};

verus! {

/// What external actors may ask of the scheduler, processed strictly in
/// arrival order, interleaved with timer ticks.
pub enum SchedulerCommand {
    /// Atomically replace the definition set.
    Reload(AppConfig),
    /// Run the named workflow now, regardless of its schedule.
    Trigger(String),
}

/// One workflow's run state: whether an execution is in flight, and
/// whether one more run is already decided (a single slot — further
/// triggers while pending coalesce).
#[derive(Clone, Copy, Debug, PartialEq, Eq, Structural)]
pub struct WorkflowState {
    pub running: bool,
    pub pending: bool,
}

impl WorkflowState {
    /// A run can only be pending behind one that is in flight.
    pub open spec fn wf(self) -> bool {
        self.pending ==> self.running
    }

    /// The state before any trigger: nothing in flight, nothing pending.
    pub open spec fn idle() -> WorkflowState {
        WorkflowState { running: false, pending: false }
    }

    pub fn new() -> (s: Self)
        ensures
            s == Self::idle(),
    {
        WorkflowState { running: false, pending: false }
    }
}

/// What a dispatch decided: start an execution now, or coalesce into the
/// pending slot because one is already in flight.
#[derive(Clone, Copy, Debug, PartialEq, Eq, Structural)]
pub enum DispatchDecision {
    Started,
    Queued,
}

/// What a trigger yields: the definition to start now, or a note that the
/// run was queued behind the one in flight.
pub enum DispatchOutcome {
    Start(WorkflowConfig),
    Queued,
}

/// The dispatch transition: an idle workflow starts (at most one
/// execution in flight); a running one gains the pending mark, and a
/// second trigger while pending changes nothing.
pub open spec fn dispatch_step(s: WorkflowState) -> (WorkflowState, DispatchDecision) {
    if s.running {
        (WorkflowState { running: true, pending: true }, DispatchDecision::Queued)
    } else {
        (WorkflowState { running: true, pending: false }, DispatchDecision::Started)
    }
}

/// The completion transition: the in-flight mark clears; a pending
/// re-run starts immediately (second component `true`) when the workflow
/// is still defined, else the slot simply empties.
pub open spec fn completion_step(s: WorkflowState, still_defined: bool) -> (
    WorkflowState,
    bool,
) {
    if s.pending && still_defined {
        (WorkflowState { running: true, pending: false }, true)
    } else {
        (WorkflowState { running: false, pending: false }, false)
    }
}

/// The first definition carrying `name`.
pub open spec fn find_workflow(ws: Seq<WorkflowConfig>, name: Seq<char>) -> Option<
    WorkflowConfig,
>
    decreases ws.len(),
{
    if ws.len() == 0 {
        None
    } else if ws[0].name@ == name {
        Some(ws[0])
    } else {
        find_workflow(ws.drop_first(), name)
    }
}

/// One row of the run-state table.
pub struct RunEntry {
    pub name: String,
    pub state: WorkflowState,
}

/// The run state filed under `name`, if a row exists.
pub open spec fn find_state(entries: Seq<RunEntry>, name: Seq<char>) -> Option<WorkflowState>
    decreases entries.len(),
{
    if entries.len() == 0 {
        None
    } else if entries[0].name@ == name {
        Some(entries[0].state)
    } else {
        find_state(entries.drop_first(), name)
    }
}

/// The scheduler's owned state: the current definition set and the
/// per-workflow run-state table (rows created lazily on first dispatch,
/// never persisted).
pub struct Scheduler {
    pub config: AppConfig,
    pub states: Vec<RunEntry>,
}

impl View for Scheduler {
    type V = Seq<RunEntry>;

    open spec fn view(&self) -> Seq<RunEntry> {
        self.states@
    }
}

/// Row names unique, every row's state well formed.
pub open spec fn entries_wf(entries: Seq<RunEntry>) -> bool {
    &&& (forall|i: int, j: int|
        0 <= i < j < entries.len() ==> entries[i].name@ != entries[j].name@)
    &&& (forall|i: int| 0 <= i < entries.len() ==> (#[trigger] entries[i].state).wf())
}

impl Scheduler {
    pub open spec fn wf(self) -> bool {
        entries_wf(self@)
    }

    /// A workflow with no row has never been dispatched: it is idle.
    pub open spec fn state_of(self, name: Seq<char>) -> WorkflowState {
        match find_state(self@, name) {
            Some(s) => s,
            None => WorkflowState::idle(),
        }
    }

    /// A scheduler over `config` with every workflow idle.
    pub fn new(config: AppConfig) -> (s: Self)
        ensures
            s.wf(),
            s.config == config,
            forall|n: Seq<char>| #[trigger] s.state_of(n) == WorkflowState::idle(),
    {
        Scheduler { config, states: Vec::new() }
    }

    /// Swaps the definition set used by future due-checks and wake
    /// computations. In-flight executions and the whole run-state table
    /// are untouched; rows for names absent from the new set stay inert.
    pub fn handle_reload(&mut self, new_config: AppConfig)
        requires
            old(self).wf(),
        ensures
            final(self).wf(),
            final(self).config == new_config,
            final(self)@ == old(self)@,
            forall|n: Seq<char>| #[trigger] final(self).state_of(n) == old(self).state_of(n),
    {
        self.config = new_config;
    }

    /// The dispatch procedure: start the workflow if it is idle, else
    /// coalesce the request into its single pending slot. Touches no
    /// other workflow's state and never blocks on the run itself.
    pub fn dispatch(&mut self, name: &str) -> (d: DispatchDecision)
        requires
            old(self).wf(),
        ensures
            final(self).wf(),
            final(self).config == old(self).config,
            (final(self).state_of(name@), d) == dispatch_step(old(self).state_of(name@)),
            forall|n: Seq<char>|
                n != name@ ==> #[trigger] final(self).state_of(n) == old(self).state_of(n),
    {
        let ghost orig = self@;
        let n = self.states.len();
        let mut i: usize = 0;
        proof {
            assert(self@.skip(0) =~= self@);
        }
        while i < n
            invariant
                self@ == orig,
                self.config == old(self).config,
                n == orig.len(),
                i <= n,
                find_state(orig, name@) == find_state(orig.skip(i as int), name@),
                forall|k: int| 0 <= k < i ==> orig[k].name@ != name@,
            decreases n - i,
        {
            if str_eq(self.states[i].name.as_str(), name) {
                let was_running = self.states[i].state.running;
                let new_state = if was_running {
                    WorkflowState { running: true, pending: true }
                } else {
                    WorkflowState { running: true, pending: false }
                };
                let row_name = self.states[i].name.clone();
                proof {
                    assert(orig.skip(i as int)[0] == orig[i as int]);
                }
                self.states[i] = RunEntry { name: row_name, state: new_state };
                proof {
                    lemma_find_state_update(orig, i as int, new_state);
                }
                if was_running {
                    return DispatchDecision::Queued;
                } else {
                    return DispatchDecision::Started;
                }
            }
            proof {
                assert(orig.skip(i as int).drop_first() =~= orig.skip(i + 1));
            }
            i += 1;
        }
        proof {
            assert(orig.skip(n as int) =~= Seq::<RunEntry>::empty());
        }
        let entry = RunEntry {
            name: String::from_str(name),
            state: WorkflowState { running: true, pending: false },
        };
        self.states.push(entry);
        proof {
            lemma_find_state_push(orig, entry);
        }
        DispatchDecision::Started
    }

    /// A manual trigger: unknown names are reported (`None`) and change
    /// nothing; a known name is dispatched regardless of its schedule,
    /// yielding its current definition when a run starts now.
    pub fn handle_trigger(&mut self, name: &str) -> (r: Option<DispatchOutcome>)
        requires
            old(self).wf(),
        ensures
            final(self).wf(),
            final(self).config == old(self).config,
            r is None <==> find_workflow(old(self).config.workflows@, name@) is None,
            r is None ==> final(self)@ == old(self)@,
            r is Some ==> {
                let (s1, d) = dispatch_step(old(self).state_of(name@));
                &&& final(self).state_of(name@) == s1
                &&& (forall|n: Seq<char>|
                    n != name@ ==> #[trigger] final(self).state_of(n) == old(self).state_of(n))
                &&& (d is Started ==> r == Some(
                    DispatchOutcome::Start(find_workflow(old(self).config.workflows@, name@)->0),
                ))
                &&& (d is Queued ==> r == Some(DispatchOutcome::Queued))
            },
    {
        let found = lookup_workflow(&self.config, name);
        match found {
            None => None,
            Some(w) => {
                match self.dispatch(name) {
                    DispatchDecision::Started => Some(DispatchOutcome::Start(w)),
                    DispatchDecision::Queued => Some(DispatchOutcome::Queued),
                }
            },
        }
    }

    /// An execution finished: clear the in-flight mark; if a re-run is
    /// pending and the workflow is still defined, start it at once,
    /// under the definition current *now* — a reload during the run is
    /// honoured by the queued re-run.
    pub fn handle_completion(&mut self, name: &str) -> (rerun: Option<WorkflowConfig>)
        requires
            old(self).wf(),
        ensures
            final(self).wf(),
            final(self).config == old(self).config,
            rerun == completion_rerun(*old(self), name@),
            final(self).state_of(name@) == completion_step(
                old(self).state_of(name@),
                find_workflow(old(self).config.workflows@, name@) is Some,
            ).0,
            forall|n: Seq<char>|
                n != name@ ==> #[trigger] final(self).state_of(n) == old(self).state_of(n),
    {
        let ghost orig = self@;
        let found = lookup_workflow(&self.config, name);
        let still_defined = match &found {
            Some(_) => true,
            None => false,
        };
        let n = self.states.len();
        let mut i: usize = 0;
        proof {
            assert(self@.skip(0) =~= self@);
        }
        while i < n
            invariant
                self@ == orig,
                self.config == old(self).config,
                n == orig.len(),
                i <= n,
                find_state(orig, name@) == find_state(orig.skip(i as int), name@),
                forall|k: int| 0 <= k < i ==> orig[k].name@ != name@,
            decreases n - i,
        {
            if str_eq(self.states[i].name.as_str(), name) {
                let pending = self.states[i].state.pending;
                let goes = pending && still_defined;
                let new_state = if goes {
                    WorkflowState { running: true, pending: false }
                } else {
                    WorkflowState { running: false, pending: false }
                };
                let row_name = self.states[i].name.clone();
                proof {
                    assert(orig.skip(i as int)[0] == orig[i as int]);
                }
                self.states[i] = RunEntry { name: row_name, state: new_state };
                proof {
                    lemma_find_state_update(orig, i as int, new_state);
                }
                if goes {
                    return found;
                } else {
                    return None;
                }
            }
            proof {
                assert(orig.skip(i as int).drop_first() =~= orig.skip(i + 1));
            }
            i += 1;
        }
        proof {
            assert(orig.skip(n as int) =~= Seq::<RunEntry>::empty());
        }
        None
    }
}

/// What a completion starts: the current definition when a re-run was
/// pending for a still-defined workflow, nothing otherwise.
pub open spec fn completion_rerun(s: Scheduler, name: Seq<char>) -> Option<WorkflowConfig> {
    let defined = find_workflow(s.config.workflows@, name);
    if completion_step(s.state_of(name), defined is Some).1 {
        defined
    } else {
        None
    }
}

/// Finds a workflow by name in the current definition set.
pub fn lookup_workflow(config: &AppConfig, name: &str) -> (r: Option<WorkflowConfig>)
    ensures
        r == find_workflow(config.workflows@, name@),
{
    let ghost ws = config.workflows@;
    let n = config.workflows.len();
    let mut i: usize = 0;
    proof {
        assert(ws.skip(0) =~= ws);
    }
    while i < n
        invariant
            n == ws.len(),
            i <= n,
            find_workflow(ws, name@) == find_workflow(ws.skip(i as int), name@),
        decreases n - i,
    {
        if str_eq(config.workflows[i].name.as_str(), name) {
            proof {
                assert(ws.skip(i as int)[0] == ws[i as int]);
            }
            return Some(config.workflows[i].clone());
        }
        proof {
            assert(ws.skip(i as int).drop_first() =~= ws.skip(i + 1));
        }
        i += 1;
    }
    proof {
        assert(ws.skip(n as int) =~= Seq::<WorkflowConfig>::empty());
    }
    None
}

/// Updating the row at `i` (same name) refiles that name and leaves every
/// other lookup unchanged; well-formedness follows when the new state is
/// well formed.
proof fn lemma_find_state_update(entries: Seq<RunEntry>, i: int, st: WorkflowState)
    requires
        entries_wf(entries),
        0 <= i < entries.len(),
        st.wf(),
        forall|k: int| 0 <= k < i ==> entries[k].name@ != entries[i].name@,
    ensures
        ({
            let e2 = entries.update(i, RunEntry { name: entries[i].name, state: st });
            &&& entries_wf(e2)
            &&& find_state(e2, entries[i].name@) == Some(st)
            &&& (forall|n: Seq<char>|
                n != entries[i].name@ ==> #[trigger] find_state(e2, n) == find_state(entries, n))
        }),
    decreases entries.len(),
{
    let e2 = entries.update(i, RunEntry { name: entries[i].name, state: st });
    if i == 0 {
        assert(e2[0].name@ == entries[0].name@);
        assert(e2.drop_first() =~= entries.drop_first());
        assert forall|n: Seq<char>|
            n != entries[0].name@ implies #[trigger] find_state(e2, n) == find_state(
            entries,
            n,
        ) by {
            assert(find_state(e2, n) == find_state(e2.drop_first(), n));
        }
    } else {
        assert(e2[0] == entries[0]);
        assert(entries.drop_first()[i - 1] == entries[i]);
        lemma_find_state_update(entries.drop_first(), i - 1, st);
        assert(e2.drop_first() =~= entries.drop_first().update(
            i - 1,
            RunEntry { name: entries[i].name, state: st },
        ));
        assert(entries[0].name@ != entries[i].name@);
        assert(find_state(e2, entries[i].name@) == Some(st));
        assert forall|n: Seq<char>|
            n != entries[i].name@ implies #[trigger] find_state(e2, n) == find_state(
            entries,
            n,
        ) by {
            if entries[0].name@ == n {
            } else {
                assert(find_state(e2, n) == find_state(e2.drop_first(), n));
                assert(find_state(entries, n) == find_state(entries.drop_first(), n));
            }
        }
        assert(entries_wf(e2)) by {
            assert forall|a: int, b: int|
                0 <= a < b < e2.len() implies e2[a].name@ != e2[b].name@ by {
                assert(e2[a].name@ == entries[a].name@);
                assert(e2[b].name@ == entries[b].name@);
            }
            assert forall|a: int| 0 <= a < e2.len() implies (#[trigger] e2[a].state).wf() by {
                if a != i {
                    assert(e2[a] == entries[a]);
                }
            }
        }
    }
}

/// Filing a new row under a fresh name makes it the one found under that
/// name and leaves every other lookup unchanged.
proof fn lemma_find_state_push(entries: Seq<RunEntry>, e: RunEntry)
    requires
        entries_wf(entries),
        e.state.wf(),
        find_state(entries, e.name@) is None,
    ensures
        entries_wf(entries.push(e)),
        find_state(entries.push(e), e.name@) == Some(e.state),
        forall|n: Seq<char>|
            n != e.name@ ==> #[trigger] find_state(entries.push(e), n) == find_state(entries, n),
    decreases entries.len(),
{
    let e2 = entries.push(e);
    if entries.len() == 0 {
        assert(e2[0] == e);
        assert(e2.drop_first() =~= Seq::<RunEntry>::empty());
        assert forall|n: Seq<char>|
            n != e.name@ implies #[trigger] find_state(e2, n) == find_state(entries, n) by {
            assert(find_state(e2, n) == find_state(e2.drop_first(), n));
        }
    } else {
        assert(e2[0] == entries[0]);
        assert(entries[0].name@ != e.name@);
        lemma_find_state_push(entries.drop_first(), e);
        assert(e2.drop_first() =~= entries.drop_first().push(e));
        assert forall|n: Seq<char>|
            n != e.name@ implies #[trigger] find_state(e2, n) == find_state(entries, n) by {
            if entries[0].name@ == n {
            } else {
                assert(find_state(e2, n) == find_state(e2.drop_first(), n));
            }
        }
        lemma_find_state_absent(entries, e.name@);
        assert forall|a: int, b: int|
            0 <= a < b < e2.len() implies e2[a].name@ != e2[b].name@ by {
            if b == entries.len() {
                assert(e2[a] == entries[a]);
                assert(e2[b] == e);
            } else {
                assert(e2[a] == entries[a]);
                assert(e2[b] == entries[b]);
            }
        }
    }
}

/// A name with no row differs from every row's name.
proof fn lemma_find_state_absent(entries: Seq<RunEntry>, name: Seq<char>)
    requires
        find_state(entries, name) is None,
    ensures
        forall|i: int| 0 <= i < entries.len() ==> entries[i].name@ != name,
    decreases entries.len(),
{
    if entries.len() > 0 {
        lemma_find_state_absent(entries.drop_first(), name);
        assert forall|i: int| 0 <= i < entries.len() implies entries[i].name@ != name by {
            if i > 0 {
                assert(entries.drop_first()[i - 1] == entries[i]);
            }
        }
    }
}

/// The run state filed under `n` after the prefix `ws` of a timer tick
/// at `now` has been dispatched: each due workflow, in definition order,
/// passes through the dispatch transition.
pub open spec fn tick_state(s0: Scheduler, ws: Seq<WorkflowConfig>, now: i64, n: Seq<char>)
    -> WorkflowState
    decreases ws.len(),
{
    if ws.len() == 0 {
        s0.state_of(n)
    } else {
        let prev = tick_state(s0, ws.drop_last(), now, n);
        if ws.last().name@ == n && due_at(ws.last().cron@, now) {
            dispatch_step(prev).0
        } else {
            prev
        }
    }
}

/// The definitions a timer tick starts: the due workflows whose run
/// state, at their turn, had nothing in flight.
pub open spec fn tick_starts(s0: Scheduler, ws: Seq<WorkflowConfig>, now: i64) -> Seq<
    WorkflowConfig,
>
    decreases ws.len(),
{
    if ws.len() == 0 {
        Seq::empty()
    } else {
        let rest = tick_starts(s0, ws.drop_last(), now);
        let w = ws.last();
        if due_at(w.cron@, now) && dispatch_step(
            tick_state(s0, ws.drop_last(), now, w.name@),
        ).1 is Started {
            rest.push(w)
        } else {
            rest
        }
    }
}

impl Scheduler {
    /// A timer tick: every workflow whose expression is due at `now` is
    /// dispatched, in definition order; the definitions returned are the
    /// runs to start now. Workflows with malformed expressions are never
    /// due and are skipped without disturbing the others.
    pub fn handle_tick(&mut self, now: i64) -> (starts: Vec<WorkflowConfig>)
        requires
            old(self).wf(),
            now >= i64::MIN + DUE_WINDOW_SECS,
            now - DUE_WINDOW_SECS < MAX_EVAL_EPOCH_SECS,
        ensures
            final(self).wf(),
            final(self).config == old(self).config,
            forall|n: Seq<char>|
                #[trigger] final(self).state_of(n) == tick_state(
                    *old(self),
                    old(self).config.workflows@,
                    now,
                    n,
                ),
            starts@ == tick_starts(*old(self), old(self).config.workflows@, now),
    {
        let ghost s0 = *old(self);
        let ghost ws = old(self).config.workflows@;
        let m = self.config.workflows.len();
        let mut starts: Vec<WorkflowConfig> = Vec::new();
        let mut k: usize = 0;
        proof {
            assert(ws.take(0) =~= Seq::<WorkflowConfig>::empty());
        }
        while k < m
            invariant
                self.wf(),
                self.config == s0.config,
                m == ws.len(),
                k <= m,
                forall|n: Seq<char>|
                    #[trigger] self.state_of(n) == tick_state(s0, ws.take(k as int), now, n),
                starts@ == tick_starts(s0, ws.take(k as int), now),
            decreases m - k,
        {
            let w = self.config.workflows[k].clone();
            proof {
                assert(w == ws[k as int]);
                assert(ws.take(k + 1).drop_last() =~= ws.take(k as int));
                assert(ws.take(k + 1).last() == ws[k as int]);
            }
            let due = is_due(w.cron.as_str(), now);
            if due {
                let ghost before = *self;
                let d = self.dispatch(w.name.as_str());
                proof {
                    assert forall|n: Seq<char>|
                        #[trigger] self.state_of(n) == tick_state(
                            s0,
                            ws.take(k + 1),
                            now,
                            n,
                        ) by {
                        if n == w.name@ {
                        } else {
                            assert(self.state_of(n) == before.state_of(n));
                        }
                    }
                }
                if matches!(d, DispatchDecision::Started) {
                    starts.push(w);
                }
            }
            k += 1;
        }
        proof {
            assert(ws.take(m as int) =~= ws);
        }
        starts
    }
}

/// The smaller of two optional instants, absences ignored.
pub open spec fn opt_min(a: Option<i64>, b: Option<i64>) -> Option<i64> {
    match a {
        Option::None => b,
        Option::Some(x) => match b {
            Option::None => Some(x),
            Option::Some(y) => if x <= y {
                Some(x)
            } else {
                Some(y)
            },
        },
    }
}

/// The earliest next occurrence across a definition set at `now`;
/// workflows whose expression is malformed or exhausted contribute
/// nothing.
pub open spec fn earliest_next(ws: Seq<WorkflowConfig>, now: i64) -> Option<i64>
    decreases ws.len(),
{
    if ws.len() == 0 {
        None
    } else {
        opt_min(
            earliest_next(ws.drop_last(), now),
            cron_next(spec_normalize_cron(ws.last().cron@), now as int),
        )
    }
}

/// How long to sleep until an occurrence at `t`: its distance from `now`
/// in milliseconds, a short positive beat when it has already arrived,
/// saturating at the largest representable wait.
pub open spec fn wake_millis(t: i64, now: i64) -> u64 {
    if t <= now {
        100
    } else if (t - now) * 1000 <= u64::MAX {
        ((t - now) * 1000) as u64
    } else {
        u64::MAX
    }
}

/// The milliseconds to sleep before the earliest next occurrence across
/// all workflows, or `None` when no expression yields one (the caller
/// falls back to a fixed poll interval so reloads are still picked up).
pub fn compute_next_wake(config: &AppConfig, now: i64) -> (r: Option<u64>)
    requires
        now < MAX_EVAL_EPOCH_SECS,
    ensures
        r is Some <==> earliest_next(config.workflows@, now) is Some,
        r is Some ==> r->0 == wake_millis(earliest_next(config.workflows@, now)->0, now),
{
    let ghost ws = config.workflows@;
    let m = config.workflows.len();
    let mut best: Option<i64> = None;
    let mut k: usize = 0;
    proof {
        assert(ws.take(0) =~= Seq::<WorkflowConfig>::empty());
    }
    while k < m
        invariant
            m == ws.len(),
            k <= m,
            best == earliest_next(ws.take(k as int), now),
        decreases m - k,
    {
        proof {
            assert(ws.take(k + 1).drop_last() =~= ws.take(k as int));
            assert(ws.take(k + 1).last() == ws[k as int]);
        }
        let nx = get_next_run(config.workflows[k].cron.as_str(), now);
        best = match (best, nx) {
            (None, b) => b,
            (Some(x), None) => Some(x),
            (Some(x), Some(y)) => if x <= y {
                Some(x)
            } else {
                Some(y)
            },
        };
        k += 1;
    }
    proof {
        assert(ws.take(m as int) =~= ws);
    }
    match best {
        None => None,
        Some(t) => {
            if t <= now {
                Some(100)
            } else {
                let d: i128 = (t as i128 - now as i128) * 1000;
                if d <= u64::MAX as i128 {
                    Some(d as u64)
                } else {
                    Some(u64::MAX)
                }
            }
        },
    }
}

/// One workflow's history, as the scheduler sees it: each manual or
/// scheduled trigger, and each completion report. The completion's flag
/// says whether the workflow was still defined then, so a pending re-run
/// could start.
pub enum RunEvent {
    Trigger,
    Finish(bool),
}

/// One event's effect on the run state: triggers dispatch, completions
/// release.
pub open spec fn run_step(s: WorkflowState, e: RunEvent) -> WorkflowState {
    match e {
        RunEvent::Trigger => dispatch_step(s).0,
        RunEvent::Finish(d) => completion_step(s, d).0,
    }
}

/// Executions started by one event: a trigger on an idle workflow, or a
/// completion that releases the pending slot into a re-run.
pub open spec fn run_step_starts(s: WorkflowState, e: RunEvent) -> int {
    match e {
        RunEvent::Trigger => if s.running {
            0
        } else {
            1
        },
        RunEvent::Finish(d) => if s.pending && d {
            1
        } else {
            0
        },
    }
}

/// The run state after a history of events.
pub open spec fn run_events(s: WorkflowState, es: Seq<RunEvent>) -> WorkflowState
    decreases es.len(),
{
    if es.len() == 0 {
        s
    } else {
        run_step(run_events(s, es.drop_last()), es.last())
    }
}

/// Executions started over a history.
pub open spec fn starts_in(s: WorkflowState, es: Seq<RunEvent>) -> int
    decreases es.len(),
{
    if es.len() == 0 {
        0
    } else {
        starts_in(s, es.drop_last()) + run_step_starts(run_events(s, es.drop_last()), es.last())
    }
}

/// Executions completed over a history.
pub open spec fn finishes_in(es: Seq<RunEvent>) -> int
    decreases es.len(),
{
    if es.len() == 0 {
        0
    } else {
        finishes_in(es.drop_last()) + (if es.last() is Finish {
            1int
        } else {
            0int
        })
    }
}

/// A history is plausible when every completion reports an execution
/// that was in flight at that moment.
pub open spec fn valid_history(es: Seq<RunEvent>) -> bool {
    forall|i: int|
        0 <= i < es.len() && es[i] is Finish ==> run_events(
            WorkflowState::idle(),
            es.take(i),
        ).running
}

/// At most one execution of a workflow is in flight at any instant: over
/// every plausible history from the idle state, the executions started
/// exceed those finished by one exactly while the run state is marked
/// running and never by more — so at most one execution record per
/// workflow is in the `Running` status at a time, and the pending slot
/// is only ever occupied behind a run in flight.
pub proof fn lemma_at_most_one_running(es: Seq<RunEvent>)
    requires
        valid_history(es),
    ensures
        run_events(WorkflowState::idle(), es).wf(),
        starts_in(WorkflowState::idle(), es) - finishes_in(es) == (if run_events(
            WorkflowState::idle(),
            es,
        ).running {
            1int
        } else {
            0int
        }),
    decreases es.len(),
{
    let s0 = WorkflowState::idle();
    if es.len() > 0 {
        let pre = es.drop_last();
        assert(valid_history(pre)) by {
            assert forall|i: int|
                0 <= i < pre.len() && pre[i] is Finish implies run_events(
                s0,
                pre.take(i),
            ).running by {
                assert(pre.take(i) =~= es.take(i));
                assert(pre[i] == es[i]);
            }
        }
        lemma_at_most_one_running(pre);
        if es.last() is Finish {
            assert(es.take(es.len() - 1) =~= pre);
            assert(run_events(s0, pre).running);
        }
    }
}

/// Triggering a workflow twice while it is running yields exactly one
/// additional execution once the first completes, not two: the second
/// trigger coalesces into the already-occupied pending slot and changes
/// nothing.
pub proof fn lemma_second_trigger_coalesces(s: WorkflowState)
    requires
        s.wf(),
        s.running,
    ensures
        run_events(s, seq![RunEvent::Trigger, RunEvent::Trigger]) == run_events(
            s,
            seq![RunEvent::Trigger],
        ),
        starts_in(
            s,
            seq![RunEvent::Trigger, RunEvent::Trigger, RunEvent::Finish(true)],
        ) == 1,
        starts_in(s, seq![RunEvent::Trigger, RunEvent::Finish(true)]) == 1,
{
    let t = RunEvent::Trigger;
    let f = RunEvent::Finish(true);
    let e1 = seq![t];
    let e2 = seq![t, t];
    let e3 = seq![t, t, f];
    let e4 = seq![t, f];
    assert(e1.drop_last() =~= Seq::<RunEvent>::empty());
    assert(e2.drop_last() =~= e1);
    assert(e3.drop_last() =~= e2);
    assert(e4.drop_last() =~= e1);
    assert(e1.last() == t);
    assert(e2.last() == t);
    assert(e3.last() == f);
    assert(e4.last() == f);
    assert(run_events(s, Seq::<RunEvent>::empty()) == s);
    let s1 = dispatch_step(s).0;
    assert(run_events(s, e1) == run_step(s, t));
    assert(run_events(s, e1) == s1);
    assert(run_events(s, e2) == run_step(s1, t));
    assert(run_events(s, e2) == s1);
    assert(starts_in(s, Seq::<RunEvent>::empty()) == 0);
    assert(starts_in(s, e1) == run_step_starts(s, t));
    assert(starts_in(s, e1) == 0);
    assert(starts_in(s, e2) == starts_in(s, e1) + run_step_starts(s1, t));
    assert(starts_in(s, e2) == 0);
    assert(starts_in(s, e3) == starts_in(s, e2) + run_step_starts(run_events(s, e2), f));
    assert(starts_in(s, e3) == 1);
    assert(starts_in(s, e4) == starts_in(s, e1) + run_step_starts(run_events(s, e1), f));
    assert(starts_in(s, e4) == 1);
}

/// A reload leaves every workflow's run state — and so any in-flight
/// execution — untouched, and a completion that releases a pending
/// re-run starts it under the definition current at completion time:
/// after a reload, the new one.
pub proof fn lemma_rerun_uses_reloaded_definition(
    s: Scheduler,
    s2: Scheduler,
    c: AppConfig,
    n: Seq<char>,
)
    requires
        s2.config == c,
        s2@ == s@,
        s.state_of(n).pending,
        find_workflow(c.workflows@, n) is Some,
    ensures
        s2.state_of(n) == s.state_of(n),
        completion_rerun(s2, n) == find_workflow(c.workflows@, n),
{
}

} // verus!
