//! The execution record store: append and complete execution records,
//! list a workflow's history most-recent-first, and look records up by
//! id. Pure bookkeeping; no business logic.

use vstd::prelude::*;

use crate::text::str_eq;
use crate::types::{Execution, ExecutionStatus};

verus! {

/// A store operation that could not be applied.
#[derive(Clone, Copy, Debug, PartialEq, Eq, Structural)]
pub enum StoreError {
    /// An insert reused an existing execution id.
    DuplicateId,
}

/// The first record carrying `id`, scanning from the oldest.
pub open spec fn find_by_id(recs: Seq<Execution>, id: Seq<char>) -> Option<Execution>
    decreases recs.len(),
{
    if recs.len() == 0 {
        None
    } else if recs[0].id@ == id {
        Some(recs[0])
    } else {
        find_by_id(recs.drop_first(), id)
    }
}

/// Up to `k` records of workflow `w`, taken from the newest end.
pub open spec fn recent_for(recs: Seq<Execution>, w: Seq<char>, k: nat) -> Seq<Execution>
    decreases recs.len(),
{
    if recs.len() == 0 || k == 0 {
        Seq::empty()
    } else if recs.last().workflow@ == w {
        seq![recs.last()] + recent_for(recs.drop_last(), w, (k - 1) as nat)
    } else {
        recent_for(recs.drop_last(), w, k)
    }
}

/// The newest record of workflow `w`, if any.
pub open spec fn latest_for(recs: Seq<Execution>, w: Seq<char>) -> Option<Execution> {
    if recent_for(recs, w, 1).len() == 0 {
        None
    } else {
        Some(recent_for(recs, w, 1)[0])
    }
}

/// A record completed: status, finish time and exit code set together;
/// everything else kept.
pub open spec fn complete_rec(e: Execution, st: ExecutionStatus, t: i64, c: i32) -> Execution {
    Execution { status: st, finished_at: Some(t), exit_code: Some(c), ..e }
}

/// The records after completing the one carrying `id` (a no-op when no
/// record carries it).
pub open spec fn with_completion(
    recs: Seq<Execution>,
    id: Seq<char>,
    st: ExecutionStatus,
    t: i64,
    c: i32,
) -> Seq<Execution>
    decreases recs.len(),
{
    if recs.len() == 0 {
        recs
    } else if recs[0].id@ == id {
        seq![complete_rec(recs[0], st, t, c)] + recs.drop_first()
    } else {
        seq![recs[0]] + with_completion(recs.drop_first(), id, st, t, c)
    }
}

/// The position at which a record starting at `t` is filed so that start
/// times stay ascending, new records after existing ties.
pub open spec fn insert_pos(recs: Seq<Execution>, t: i64) -> int
    decreases recs.len(),
{
    if recs.len() == 0 || recs.last().started_at <= t {
        recs.len() as int
    } else {
        insert_pos(recs.drop_last(), t)
    }
}

/// Execution records, ordered by start time (ascending; listings read
/// from the newest end). Ids are unique; records never leave.
pub struct ExecutionStore {
    records: Vec<Execution>,
}

impl View for ExecutionStore {
    type V = Seq<Execution>;

    closed spec fn view(&self) -> Seq<Execution> {
        self.records@
    }
}

/// Ids unique, start times ascending.
pub open spec fn records_wf(recs: Seq<Execution>) -> bool {
    &&& (forall|i: int, j: int| 0 <= i < j < recs.len() ==> recs[i].id@ != recs[j].id@)
    &&& (forall|i: int, j: int|
        0 <= i < j < recs.len() ==> recs[i].started_at <= recs[j].started_at)
}

impl ExecutionStore {
    /// Ids unique, start times ascending.
    pub open spec fn wf(self) -> bool {
        records_wf(self@)
    }

    /// An empty store.
    pub fn new() -> (s: Self)
        ensures
            s.wf(),
            s@ == Seq::<Execution>::empty(),
    {
        ExecutionStore { records: Vec::new() }
    }

    /// Appends a fresh execution record; refused when its id is already
    /// present, so completed history is never overwritten.
    pub fn insert_execution(&mut self, exec: Execution) -> (r: Result<(), StoreError>)
        requires
            old(self).wf(),
        ensures
            final(self).wf(),
            r is Ok <==> find_by_id(old(self)@, exec.id@) is None,
            r is Ok ==> final(self)@ == old(self)@.insert(
                insert_pos(old(self)@, exec.started_at),
                exec,
            ),
            r is Err ==> final(self)@ == old(self)@,
    {
        let n = self.records.len();
        let mut i: usize = 0;
        proof {
            assert(self@.skip(0) =~= self@);
        }
        while i < n
            invariant
                n == self@.len(),
                i <= n,
                find_by_id(self@, exec.id@) == find_by_id(self@.skip(i as int), exec.id@),
            decreases n - i,
        {
            if str_eq(self.records[i].id.as_str(), exec.id.as_str()) {
                proof {
                    assert(self@.skip(i as int)[0].id@ == exec.id@);
                }
                return Err(StoreError::DuplicateId);
            }
            proof {
                assert(self@.skip(i as int).drop_first() =~= self@.skip(i + 1));
            }
            i += 1;
        }
        proof {
            assert(self@.skip(n as int) =~= Seq::<Execution>::empty());
            assert(self@.take(n as int) =~= self@);
        }
        let mut pos: usize = n;
        while pos > 0 && self.records[pos - 1].started_at > exec.started_at
            invariant
                n == self@.len(),
                pos <= n,
                insert_pos(self@, exec.started_at) == insert_pos(
                    self@.take(pos as int),
                    exec.started_at,
                ),
                forall|j: int| pos <= j < n ==> self@[j].started_at > exec.started_at,
            decreases pos,
        {
            proof {
                assert(self@.take(pos as int).last() == self@[pos - 1]);
                assert(self@.take(pos as int).drop_last() =~= self@.take(pos - 1));
            }
            pos -= 1;
        }
        proof {
            if pos == 0 {
                assert(self@.take(0) =~= Seq::<Execution>::empty());
            } else {
                assert(self@.take(pos as int).last() == self@[pos - 1]);
            }
            assert(insert_pos(self@, exec.started_at) == pos);
        }
        let ghost old_recs = self@;
        let ghost p = pos as int;
        self.records.insert(pos, exec);
        proof {
            lemma_find_by_id_insert_other(old_recs, exec, p);
            lemma_find_by_id_absent(old_recs, exec.id@);
            lemma_insert_preserves_wf(old_recs, exec, p);
        }
        Ok(())
    }

    /// Completes the record carrying `id`: status, finish time and exit
    /// code set together, in one update. Unknown ids are a no-op.
    pub fn update_execution_finished(
        &mut self,
        id: &str,
        status: ExecutionStatus,
        finished_at: i64,
        exit_code: i32,
    )
        requires
            old(self).wf(),
            !(status is Running),
        ensures
            final(self).wf(),
            final(self)@ == with_completion(old(self)@, id@, status, finished_at, exit_code),
    {
        let ghost orig = self@;
        let n = self.records.len();
        let mut i: usize = 0;
        while i < n
            invariant
                self@ == orig,
                n == orig.len(),
                i <= n,
                forall|k: int| 0 <= k < i ==> orig[k].id@ != id@,
            decreases n - i,
        {
            if str_eq(self.records[i].id.as_str(), id) {
                let mut e = self.records[i].clone();
                e.status = status;
                e.finished_at = Some(finished_at);
                e.exit_code = Some(exit_code);
                proof {
                    assert(e.started_at == orig[i as int].started_at);
                    assert(e.id@ == orig[i as int].id@);
                }
                self.records[i] = e;
                proof {
                    lemma_with_completion_at(orig, id@, status, finished_at, exit_code, i as int);
                    assert(e =~= complete_rec(orig[i as int], status, finished_at, exit_code));
                    lemma_update_preserves_wf(orig, i as int, e);
                }
                return ;
            }
            i += 1;
        }
        proof {
            lemma_with_completion_absent(orig, id@, status, finished_at, exit_code);
        }
    }

    /// Up to `limit` records of `workflow`, most recent first: the newest
    /// end of the stored order, filtered to the workflow.
    pub fn get_executions(&self, workflow: &str, limit: usize) -> (r: Vec<Execution>)
        ensures
            r@ == recent_for(self@, workflow@, limit as nat),
    {
        let mut r: Vec<Execution> = Vec::new();
        let mut i = self.records.len();
        proof {
            assert(self@.take(i as int) =~= self@);
            assert(Seq::<Execution>::empty() + recent_for(self@, workflow@, limit as nat)
                =~= recent_for(self@, workflow@, limit as nat));
        }
        while i > 0 && r.len() < limit
            invariant
                i <= self@.len(),
                r@.len() <= limit,
                recent_for(self@, workflow@, limit as nat) == r@ + recent_for(
                    self@.take(i as int),
                    workflow@,
                    (limit - r@.len()) as nat,
                ),
            decreases i,
        {
            proof {
                assert(self@.take(i as int).last() == self@[i - 1]);
                assert(self@.take(i as int).drop_last() =~= self@.take(i - 1));
            }
            if str_eq(self.records[i - 1].workflow.as_str(), workflow) {
                r.push(self.records[i - 1].clone());
                proof {
                    let k = (limit - r@.len() + 1) as nat;
                    let rest = recent_for(self@.take(i - 1), workflow@, (k - 1) as nat);
                    assert(recent_for(self@.take(i as int), workflow@, k) == seq![
                        self@[i - 1],
                    ] + rest);
                    assert(r@.drop_last() + (seq![self@[i - 1]] + rest) =~= r@ + rest);
                }
            }
            i -= 1;
        }
        proof {
            if i == 0 {
                assert(self@.take(0) =~= Seq::<Execution>::empty());
            }
            assert(recent_for(self@, workflow@, limit as nat) =~= r@);
        }
        r
    }

    /// The most recent record of `workflow`, if any.
    pub fn get_last_execution(&self, workflow: &str) -> (r: Option<Execution>)
        ensures
            r == latest_for(self@, workflow@),
    {
        let mut v = self.get_executions(workflow, 1);
        proof {
            lemma_recent_for_len(self@, workflow@, 1);
        }
        v.pop()
    }

    /// The record carrying `id`, if any.
    pub fn get_execution_by_id(&self, id: &str) -> (r: Option<Execution>)
        ensures
            r == find_by_id(self@, id@),
    {
        let n = self.records.len();
        let mut i: usize = 0;
        proof {
            assert(self@.skip(0) =~= self@);
        }
        while i < n
            invariant
                n == self@.len(),
                i <= n,
                find_by_id(self@, id@) == find_by_id(self@.skip(i as int), id@),
            decreases n - i,
        {
            if str_eq(self.records[i].id.as_str(), id) {
                proof {
                    assert(self@.skip(i as int)[0] == self@[i as int]);
                }
                return Some(self.records[i].clone());
            }
            proof {
                assert(self@.skip(i as int).drop_first() =~= self@.skip(i + 1));
            }
            i += 1;
        }
        proof {
            assert(self@.skip(n as int) =~= Seq::<Execution>::empty());
        }
        None
    }
}

/// An absent id is absent from every record.
pub proof fn lemma_find_by_id_absent(recs: Seq<Execution>, id: Seq<char>)
    requires
        find_by_id(recs, id) is None,
    ensures
        forall|i: int| 0 <= i < recs.len() ==> recs[i].id@ != id,
    decreases recs.len(),
{
    if recs.len() > 0 {
        lemma_find_by_id_absent(recs.drop_first(), id);
        assert forall|i: int| 0 <= i < recs.len() implies recs[i].id@ != id by {
            if i > 0 {
                assert(recs.drop_first()[i - 1] == recs[i]);
            }
        }
    }
}

/// Inserting a record with a fresh id makes it the one found under that
/// id and leaves every other lookup unchanged.
pub proof fn lemma_find_by_id_insert_other(recs: Seq<Execution>, e: Execution, p: int)
    requires
        0 <= p <= recs.len(),
        find_by_id(recs, e.id@) is None,
    ensures
        find_by_id(recs.insert(p, e), e.id@) == Some(e),
        forall|id: Seq<char>|
            id != e.id@ ==> #[trigger] find_by_id(recs.insert(p, e), id) == find_by_id(recs, id),
    decreases recs.len(),
{
    let r2 = recs.insert(p, e);
    if p == 0 {
        assert(r2[0] == e);
        assert(r2.drop_first() =~= recs);
    } else {
        assert(r2[0] == recs[0]);
        assert(recs[0].id@ != e.id@);
        lemma_find_by_id_insert_other(recs.drop_first(), e, p - 1);
        assert(r2.drop_first() =~= recs.drop_first().insert(p - 1, e));
        assert(find_by_id(r2, e.id@) == Some(e));
        assert forall|id: Seq<char>|
            id != e.id@ implies #[trigger] find_by_id(r2, id) == find_by_id(recs, id) by {
            if recs[0].id@ == id {
            } else {
                assert(find_by_id(r2, id) == find_by_id(r2.drop_first(), id));
                assert(find_by_id(recs, id) == find_by_id(recs.drop_first(), id));
            }
        }
    }
}

/// Completion keeps every position: the record carrying `id` (first such
/// position, though ids are unique in a well-formed store) gains the
/// finish data; all others are kept as they stand.
proof fn lemma_with_completion_at(
    recs: Seq<Execution>,
    id: Seq<char>,
    st: ExecutionStatus,
    t: i64,
    c: i32,
    i: int,
)
    requires
        0 <= i < recs.len(),
        recs[i].id@ == id,
        forall|k: int| 0 <= k < i ==> recs[k].id@ != id,
    ensures
        with_completion(recs, id, st, t, c) =~= recs.update(i, complete_rec(recs[i], st, t, c)),
    decreases recs.len(),
{
    if i == 0 {
        assert(seq![complete_rec(recs[0], st, t, c)] + recs.drop_first() =~= recs.update(
            0,
            complete_rec(recs[0], st, t, c),
        ));
    } else {
        assert(recs[0].id@ != id);
        lemma_with_completion_at(recs.drop_first(), id, st, t, c, i - 1);
        assert(seq![recs[0]] + recs.drop_first().update(
            i - 1,
            complete_rec(recs[i], st, t, c),
        ) =~= recs.update(i, complete_rec(recs[i], st, t, c)));
    }
}

/// Completing an id that no record carries changes nothing.
proof fn lemma_with_completion_absent(
    recs: Seq<Execution>,
    id: Seq<char>,
    st: ExecutionStatus,
    t: i64,
    c: i32,
)
    requires
        forall|k: int| 0 <= k < recs.len() ==> recs[k].id@ != id,
    ensures
        with_completion(recs, id, st, t, c) =~= recs,
    decreases recs.len(),
{
    if recs.len() > 0 {
        assert(forall|k: int|
            0 <= k < recs.drop_first().len() ==> #[trigger] recs.drop_first()[k] == recs[k + 1]);
        lemma_with_completion_absent(recs.drop_first(), id, st, t, c);
        assert(seq![recs[0]] + recs.drop_first() =~= recs);
    }
}

/// Filing a fresh record at its position keeps ids unique and start
/// times ascending.
#[verifier::rlimit(50)]
proof fn lemma_insert_preserves_wf(recs: Seq<Execution>, e: Execution, p: int)
    requires
        records_wf(recs),
        0 <= p <= recs.len(),
        forall|k: int| 0 <= k < recs.len() ==> recs[k].id@ != e.id@,
        p == 0 || recs[p - 1].started_at <= e.started_at,
        forall|k: int| p <= k < recs.len() ==> recs[k].started_at > e.started_at,
    ensures
        records_wf(recs.insert(p, e)),
{
    recs.insert_ensures(p, e);
    let r2 = recs.insert(p, e);
    assert forall|i: int, j: int|
        0 <= i < j < r2.len() implies r2[i].id@ != r2[j].id@ && r2[i].started_at <= r2[
        j
    ].started_at by {
        if i == p {
            assert(r2[i] == e);
            assert(r2[j] == recs[j - 1]);
        } else if j == p {
            assert(r2[j] == e);
            assert(r2[i] == recs[i]);
            assert(recs[i].started_at <= recs[p - 1].started_at || i == p - 1);
        } else if i < p && j < p {
            assert(r2[i] == recs[i]);
            assert(r2[j] == recs[j]);
        } else if i < p {
            assert(r2[i] == recs[i]);
            assert(r2[j] == recs[j - 1]);
        } else {
            assert(r2[i] == recs[i - 1]);
            assert(r2[j] == recs[j - 1]);
        }
    }
}

/// Completing a record in place (same id, same start time) keeps ids
/// unique and start times ascending.
proof fn lemma_update_preserves_wf(recs: Seq<Execution>, i: int, e: Execution)
    requires
        records_wf(recs),
        0 <= i < recs.len(),
        e.id@ == recs[i].id@,
        e.started_at == recs[i].started_at,
    ensures
        records_wf(recs.update(i, e)),
{
    let r2 = recs.update(i, e);
    assert forall|a: int, b: int|
        0 <= a < b < r2.len() implies r2[a].id@ != r2[b].id@ && r2[a].started_at <= r2[
        b
    ].started_at by {
        assert(recs[a].id@ != recs[b].id@);
        assert(recs[a].started_at <= recs[b].started_at);
    }
}

/// A listing never exceeds its limit.
pub proof fn lemma_recent_for_len(recs: Seq<Execution>, w: Seq<char>, k: nat)
    ensures
        recent_for(recs, w, k).len() <= k,
    decreases recs.len(),
{
    if recs.len() > 0 && k > 0 {
        if recs.last().workflow@ == w {
            lemma_recent_for_len(recs.drop_last(), w, (k - 1) as nat);
        } else {
            lemma_recent_for_len(recs.drop_last(), w, k);
        }
    }
}

/// The filing position never passes the end.
proof fn lemma_insert_pos_le(recs: Seq<Execution>, t: i64)
    ensures
        0 <= insert_pos(recs, t) <= recs.len(),
    decreases recs.len(),
{
    if !(recs.len() == 0 || recs.last().started_at <= t) {
        lemma_insert_pos_le(recs.drop_last(), t);
    }
}

} // verus!
