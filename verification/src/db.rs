use crate::rows::Checkpoint;
use crate::rows::CheckpointV;
use crate::rows::Event;
use crate::rows::EventV;
use crate::rows::MigrationRecord;
use crate::rows::MigrationRecordV;
use crate::rows::Queue;
use crate::rows::QueueV;
use crate::rows::Run;
use crate::rows::RunV;
use crate::rows::Task;
use crate::rows::TaskV;
use crate::rows::Wait;
use crate::rows::WaitV;
use crate::state::task_state_of_run;
use crate::state::RunState;
use crate::state::TaskState;
use vstd::prelude::*;

verus! {

/// The whole relational store of the engine: queues, tasks, runs,
/// checkpoints, events, waits, migration history and the settings row that
/// overrides the clock. Every engine operation is a transaction on one
/// value of this type.
pub struct Db {
    pub queues: Vec<Queue>,
    pub tasks: Vec<Task>,
    pub runs: Vec<Run>,
    pub checkpoints: Vec<Checkpoint>,
    pub events: Vec<Event>,
    pub waits: Vec<Wait>,
    pub migrations: Vec<MigrationRecord>,
    /// The `fake_now` settings row, if present.
    pub fake_now: Option<i64>,
}

/// Mathematical image of the store.
pub struct DbV {
    pub queues: Seq<QueueV>,
    pub tasks: Seq<TaskV>,
    pub runs: Seq<RunV>,
    pub checkpoints: Seq<CheckpointV>,
    pub events: Seq<EventV>,
    pub waits: Seq<WaitV>,
    pub migrations: Seq<MigrationRecordV>,
    pub fake_now: Option<i64>,
}

impl View for Db {
    type V = DbV;

    open spec fn view(&self) -> DbV {
        DbV {
            queues: self.queues@.map_values(|x: Queue| x@),
            tasks: self.tasks@.map_values(|x: Task| x@),
            runs: self.runs@.map_values(|x: Run| x@),
            checkpoints: self.checkpoints@.map_values(|x: Checkpoint| x@),
            events: self.events@.map_values(|x: Event| x@),
            waits: self.waits@.map_values(|x: Wait| x@),
            migrations: self.migrations@.map_values(|x: MigrationRecord| x@),
            fake_now: self.fake_now,
        }
    }
}

impl Db {
    /// An empty store.
    pub fn new() -> (db: Db)
        ensures
            db@ == DbV::empty(),
            db@.wf(),
    {
        let db = Db {
            queues: Vec::new(),
            tasks: Vec::new(),
            runs: Vec::new(),
            checkpoints: Vec::new(),
            events: Vec::new(),
            waits: Vec::new(),
            migrations: Vec::new(),
            fake_now: None,
        };
        proof {
            assert(db@.queues =~= DbV::empty().queues);
            assert(db@.tasks =~= DbV::empty().tasks);
            assert(db@.runs =~= DbV::empty().runs);
            assert(db@.checkpoints =~= DbV::empty().checkpoints);
            assert(db@.events =~= DbV::empty().events);
            assert(db@.waits =~= DbV::empty().waits);
            assert(db@.migrations =~= DbV::empty().migrations);
        }
        db
    }
}

impl DbV {
    pub open spec fn empty() -> DbV {
        DbV {
            queues: Seq::empty(),
            tasks: Seq::empty(),
            runs: Seq::empty(),
            checkpoints: Seq::empty(),
            events: Seq::empty(),
            waits: Seq::empty(),
            migrations: Seq::empty(),
            fake_now: None,
        }
    }

    // ---- lookups -----------------------------------------------------

    pub open spec fn has_queue(self, q: Seq<char>) -> bool {
        exists|i: int| 0 <= i < self.queues.len() && self.queues[i].queue_name == q
    }

    pub open spec fn queue_idx(self, q: Seq<char>) -> int {
        choose|i: int| 0 <= i < self.queues.len() && self.queues[i].queue_name == q
    }

    pub open spec fn is_task_at(self, i: int, q: Seq<char>, tid: Seq<char>) -> bool {
        0 <= i < self.tasks.len() && self.tasks[i].queue_name == q && self.tasks[i].task_id == tid
    }

    pub open spec fn has_task(self, q: Seq<char>, tid: Seq<char>) -> bool {
        exists|i: int| self.is_task_at(i, q, tid)
    }

    pub open spec fn task_idx(self, q: Seq<char>, tid: Seq<char>) -> int {
        choose|i: int| self.is_task_at(i, q, tid)
    }

    pub open spec fn task_at(self, q: Seq<char>, tid: Seq<char>) -> TaskV {
        self.tasks[self.task_idx(q, tid)]
    }

    pub open spec fn is_run_at(self, i: int, q: Seq<char>, rid: Seq<char>) -> bool {
        0 <= i < self.runs.len() && self.runs[i].queue_name == q && self.runs[i].run_id == rid
    }

    pub open spec fn has_run(self, q: Seq<char>, rid: Seq<char>) -> bool {
        exists|i: int| self.is_run_at(i, q, rid)
    }

    pub open spec fn run_idx(self, q: Seq<char>, rid: Seq<char>) -> int {
        choose|i: int| self.is_run_at(i, q, rid)
    }

    pub open spec fn run_at(self, q: Seq<char>, rid: Seq<char>) -> RunV {
        self.runs[self.run_idx(q, rid)]
    }

    pub open spec fn has_event(self, q: Seq<char>, name: Seq<char>) -> bool {
        exists|i: int|
            0 <= i < self.events.len() && self.events[i].queue_name == q && self.events[i].event_name
                == name
    }

    pub open spec fn event_idx(self, q: Seq<char>, name: Seq<char>) -> int {
        choose|i: int|
            0 <= i < self.events.len() && self.events[i].queue_name == q && self.events[i].event_name
                == name
    }

    pub open spec fn event_at(self, q: Seq<char>, name: Seq<char>) -> EventV {
        self.events[self.event_idx(q, name)]
    }

    pub open spec fn has_checkpoint(self, q: Seq<char>, tid: Seq<char>, name: Seq<char>) -> bool {
        exists|i: int|
            0 <= i < self.checkpoints.len() && self.checkpoints[i].queue_name == q
                && self.checkpoints[i].task_id == tid && self.checkpoints[i].checkpoint_name == name
    }

    pub open spec fn checkpoint_idx(self, q: Seq<char>, tid: Seq<char>, name: Seq<char>) -> int {
        choose|i: int|
            0 <= i < self.checkpoints.len() && self.checkpoints[i].queue_name == q
                && self.checkpoints[i].task_id == tid && self.checkpoints[i].checkpoint_name == name
    }

    pub open spec fn checkpoint_at(self, q: Seq<char>, tid: Seq<char>, name: Seq<char>) -> CheckpointV {
        self.checkpoints[self.checkpoint_idx(q, tid, name)]
    }

    pub open spec fn has_wait(self, q: Seq<char>, rid: Seq<char>, step: Seq<char>) -> bool {
        exists|i: int|
            0 <= i < self.waits.len() && self.waits[i].queue_name == q && self.waits[i].run_id == rid
                && self.waits[i].step_name == step
    }

    pub open spec fn wait_idx(self, q: Seq<char>, rid: Seq<char>, step: Seq<char>) -> int {
        choose|i: int|
            0 <= i < self.waits.len() && self.waits[i].queue_name == q && self.waits[i].run_id == rid
                && self.waits[i].step_name == step
    }

    pub open spec fn has_task_key(self, q: Seq<char>, key: Seq<char>) -> bool {
        exists|i: int|
            0 <= i < self.tasks.len() && self.tasks[i].queue_name == q && self.tasks[i].idempotency_key
                == Some(key)
    }

    pub open spec fn keyed_task_idx(self, q: Seq<char>, key: Seq<char>) -> int {
        choose|i: int|
            0 <= i < self.tasks.len() && self.tasks[i].queue_name == q && self.tasks[i].idempotency_key
                == Some(key)
    }

    // ---- well-formedness ---------------------------------------------

    /// Each table's primary key is unique, and idempotency keys are unique
    /// per queue.
    pub open spec fn keys_unique(self) -> bool {
        &&& forall|i: int, j: int|
            0 <= i < self.queues.len() && 0 <= j < self.queues.len()
                && self.queues[i].queue_name == self.queues[j].queue_name ==> i == j
        &&& forall|i: int, j: int|
            0 <= i < self.tasks.len() && 0 <= j < self.tasks.len()
                && self.tasks[i].queue_name == self.tasks[j].queue_name && self.tasks[i].task_id
                == self.tasks[j].task_id ==> i == j
        &&& forall|i: int, j: int|
            0 <= i < self.runs.len() && 0 <= j < self.runs.len() && self.runs[i].queue_name
                == self.runs[j].queue_name && self.runs[i].run_id == self.runs[j].run_id ==> i == j
        &&& forall|i: int, j: int|
            0 <= i < self.checkpoints.len() && 0 <= j < self.checkpoints.len()
                && self.checkpoints[i].queue_name == self.checkpoints[j].queue_name
                && self.checkpoints[i].task_id == self.checkpoints[j].task_id
                && self.checkpoints[i].checkpoint_name == self.checkpoints[j].checkpoint_name ==> i
                == j
        &&& forall|i: int, j: int|
            0 <= i < self.events.len() && 0 <= j < self.events.len() && self.events[i].queue_name
                == self.events[j].queue_name && self.events[i].event_name
                == self.events[j].event_name ==> i == j
        &&& forall|i: int, j: int|
            0 <= i < self.waits.len() && 0 <= j < self.waits.len() && self.waits[i].queue_name
                == self.waits[j].queue_name && self.waits[i].run_id == self.waits[j].run_id
                && self.waits[i].step_name == self.waits[j].step_name ==> i == j
        &&& forall|i: int, j: int|
            0 <= i < self.tasks.len() && 0 <= j < self.tasks.len() && self.tasks[i].queue_name
                == self.tasks[j].queue_name && self.tasks[i].idempotency_key is Some
                && self.tasks[i].idempotency_key == self.tasks[j].idempotency_key ==> i == j
        &&& forall|i: int, j: int|
            0 <= i < self.migrations.len() && 0 <= j < self.migrations.len()
                && self.migrations[i].id == self.migrations[j].id ==> i == j
    }

    /// The invariants of one task row: its latest run exists and carries
    /// the task's highest attempt number, a live task mirrors the state of
    /// that run, and a terminal task pins down how its history ended.
    pub open spec fn task_ok(self, t: TaskV) -> bool {
        &&& t.attempts >= 1
        &&& self.has_run(t.queue_name, t.last_attempt_run)
        &&& {
            let lr = self.run_at(t.queue_name, t.last_attempt_run);
            &&& lr.task_id == t.task_id
            &&& lr.attempt == t.attempts
            &&& (!t.state.spec_is_terminal() ==> !lr.state.spec_is_terminal() && t.state
                == task_state_of_run(lr.state))
            &&& (t.state == TaskState::Completed ==> lr.state == RunState::Completed
                && lr.completed_at is Some)
            &&& (t.state == TaskState::Failed ==> lr.state == RunState::Failed
                && lr.failed_at is Some)
            &&& (t.state == TaskState::Cancelled ==> lr.state == RunState::Cancelled || lr.state
                == RunState::Failed)
        }
        &&& (t.state == TaskState::Cancelled <==> t.cancelled_at is Some)
        &&& (t.state.spec_is_terminal() ==> forall|i: int|
            0 <= i < self.runs.len() && self.runs[i].queue_name == t.queue_name
                && self.runs[i].task_id == t.task_id ==> (#[trigger] self.runs[i]).state.spec_is_terminal())
    }

    /// The invariants of one run row: it belongs to an existing task, has a
    /// 1-based attempt, and is claimed exactly while it is running.
    pub open spec fn run_ok(self, r: RunV) -> bool {
        &&& r.attempt >= 1
        &&& self.has_task(r.queue_name, r.task_id)
        &&& (r.state == RunState::Running <==> r.claimed_by is Some)
    }

    /// The invariants of one wait row: it suspends an existing, live run of
    /// the task it names.
    pub open spec fn wait_ok(self, w: WaitV) -> bool {
        &&& self.has_run(w.queue_name, w.run_id)
        &&& {
            let r = self.run_at(w.queue_name, w.run_id);
            &&& !r.state.spec_is_terminal()
            &&& r.task_id == w.task_id
        }
    }

    /// At most one run per task is live (`pending`, `running` or
    /// `sleeping`) at any time.
    pub open spec fn single_active(self) -> bool {
        forall|i: int, j: int|
            0 <= i < self.runs.len() && 0 <= j < self.runs.len() && self.runs[i].queue_name
                == self.runs[j].queue_name && self.runs[i].task_id == self.runs[j].task_id
                && !(#[trigger] self.runs[i]).state.spec_is_terminal()
                && !(#[trigger] self.runs[j]).state.spec_is_terminal() ==> i == j
    }

    /// Well-formedness of the whole store: what holds after every
    /// successful top-level call.
    pub open spec fn wf(self) -> bool {
        &&& self.keys_unique()
        &&& self.single_active()
        &&& forall|i: int| 0 <= i < self.tasks.len() ==> self.task_ok(#[trigger] self.tasks[i])
        &&& forall|i: int| 0 <= i < self.runs.len() ==> self.run_ok(#[trigger] self.runs[i])
        &&& forall|i: int| 0 <= i < self.waits.len() ==> self.wait_ok(#[trigger] self.waits[i])
    }
}

impl DbV {
    /// Under unique keys, a witness index for a run key is the index every
    /// lookup resolves to.
    pub proof fn lemma_run_idx_is(self, i: int, q: Seq<char>, rid: Seq<char>)
        requires
            self.keys_unique(),
            self.is_run_at(i, q, rid),
        ensures
            self.has_run(q, rid),
            self.run_idx(q, rid) == i,
            self.run_at(q, rid) == self.runs[i],
    {
        assert(self.is_run_at(self.run_idx(q, rid), q, rid));
    }

    /// Under unique keys, a witness index for a task key is the index every
    /// lookup resolves to.
    pub proof fn lemma_task_idx_is(self, i: int, q: Seq<char>, tid: Seq<char>)
        requires
            self.keys_unique(),
            self.is_task_at(i, q, tid),
        ensures
            self.has_task(q, tid),
            self.task_idx(q, tid) == i,
            self.task_at(q, tid) == self.tasks[i],
    {
        assert(self.is_task_at(self.task_idx(q, tid), q, tid));
    }

    /// Under unique keys, a witness index for an event key is the index
    /// every lookup resolves to.
    pub proof fn lemma_event_idx_is(self, i: int, q: Seq<char>, name: Seq<char>)
        requires
            self.keys_unique(),
            0 <= i < self.events.len(),
            self.events[i].queue_name == q,
            self.events[i].event_name == name,
        ensures
            self.has_event(q, name),
            self.event_idx(q, name) == i,
            self.event_at(q, name) == self.events[i],
    {
        let j = self.event_idx(q, name);
        assert(0 <= j < self.events.len() && self.events[j].queue_name == q
            && self.events[j].event_name == name);
    }

    /// Under unique keys, a witness index for a wait key is the index
    /// every lookup resolves to.
    pub proof fn lemma_wait_idx_is(self, i: int, q: Seq<char>, rid: Seq<char>, step: Seq<char>)
        requires
            self.keys_unique(),
            0 <= i < self.waits.len(),
            self.waits[i].queue_name == q,
            self.waits[i].run_id == rid,
            self.waits[i].step_name == step,
        ensures
            self.has_wait(q, rid, step),
            self.wait_idx(q, rid, step) == i,
    {
        let j = self.wait_idx(q, rid, step);
        assert(0 <= j < self.waits.len() && self.waits[j].queue_name == q && self.waits[j].run_id
            == rid && self.waits[j].step_name == step);
    }

    /// Under unique keys, a witness index for a checkpoint key is the index
    /// every lookup resolves to.
    pub proof fn lemma_checkpoint_idx_is(self, i: int, q: Seq<char>, tid: Seq<char>, name: Seq<char>)
        requires
            self.keys_unique(),
            0 <= i < self.checkpoints.len(),
            self.checkpoints[i].queue_name == q,
            self.checkpoints[i].task_id == tid,
            self.checkpoints[i].checkpoint_name == name,
        ensures
            self.has_checkpoint(q, tid, name),
            self.checkpoint_idx(q, tid, name) == i,
            self.checkpoint_at(q, tid, name) == self.checkpoints[i],
    {
        let j = self.checkpoint_idx(q, tid, name);
        assert(0 <= j < self.checkpoints.len() && self.checkpoints[j].queue_name == q
            && self.checkpoints[j].task_id == tid && self.checkpoints[j].checkpoint_name == name);
    }
}

/// A sequence whose elements have pairwise-distinct keys stays
/// key-distinct after filtering.
pub proof fn lemma_filter_key_unique<A, K>(s: Seq<A>, pred: spec_fn(A) -> bool, key: spec_fn(A) -> K)
    requires
        forall|i: int, j: int|
            0 <= i < s.len() && 0 <= j < s.len() && #[trigger] key(s[i]) == #[trigger] key(s[j])
                ==> i == j,
    ensures
        forall|i: int, j: int|
            0 <= i < s.filter(pred).len() && 0 <= j < s.filter(pred).len() && #[trigger] key(
                s.filter(pred)[i],
            ) == #[trigger] key(s.filter(pred)[j]) ==> i == j,
{
    assert forall|i: int, j: int|
        0 <= i < s.len() && 0 <= j < s.len() && i != j implies s[i] != s[j] by {
        if s[i] == s[j] {
            assert(key(s[i]) == key(s[j]));
        }
    }
    lemma_filter_sub(s, pred);
    lemma_filter_no_dups(s, pred);
    let f = s.filter(pred);
    assert forall|i: int, j: int|
        0 <= i < f.len() && 0 <= j < f.len() && #[trigger] key(f[i]) == #[trigger] key(f[j])
        implies i == j by {
        if i != j {
            assert(s.contains(f[i]));
            assert(s.contains(f[j]));
            let a = choose|a: int| 0 <= a < s.len() && s[a] == f[i];
            let b = choose|b: int| 0 <= b < s.len() && s[b] == f[j];
            assert(key(s[a]) == key(s[b]));
            assert(f[i] == f[j]);
        }
    }
}

/// Filtering the wait table preserves the uniqueness of its primary key.
pub proof fn lemma_waits_filter_key_unique(s: Seq<WaitV>, pred: spec_fn(WaitV) -> bool)
    requires
        forall|i: int, j: int|
            0 <= i < s.len() && 0 <= j < s.len() && s[i].queue_name == s[j].queue_name
                && s[i].run_id == s[j].run_id && s[i].step_name == s[j].step_name ==> i == j,
    ensures
        forall|i: int, j: int|
            0 <= i < s.filter(pred).len() && 0 <= j < s.filter(pred).len() && s.filter(
                pred,
            )[i].queue_name == s.filter(pred)[j].queue_name && s.filter(pred)[i].run_id == s.filter(
                pred,
            )[j].run_id && s.filter(pred)[i].step_name == s.filter(pred)[j].step_name ==> i == j,
{
    let key = |w: WaitV| (w.queue_name, w.run_id, w.step_name);
    assert forall|i: int, j: int|
        0 <= i < s.len() && 0 <= j < s.len() && #[trigger] key(s[i]) == #[trigger] key(s[j])
        implies i == j by {
        assert(s[i].queue_name == s[j].queue_name && s[i].run_id == s[j].run_id && s[i].step_name
            == s[j].step_name);
    }
    lemma_filter_key_unique(s, pred, key);
    let f = s.filter(pred);
    assert forall|i: int, j: int|
        0 <= i < f.len() && 0 <= j < f.len() && f[i].queue_name == f[j].queue_name && f[i].run_id
            == f[j].run_id && f[i].step_name == f[j].step_name implies i == j by {
        assert(key(f[i]) == key(f[j]));
    }
}

/// Every element of a filtered sequence occurs in the sequence it was
/// filtered from.
pub proof fn lemma_filter_sub<A>(s: Seq<A>, pred: spec_fn(A) -> bool)
    ensures
        forall|k: int|
            0 <= k < s.filter(pred).len() ==> s.contains(#[trigger] s.filter(pred)[k]),
    decreases s.len(),
{
    reveal(Seq::filter);
    if s.len() > 0 {
        let dl = s.drop_last();
        lemma_filter_sub(dl, pred);
        assert forall|k: int| 0 <= k < s.filter(pred).len() implies s.contains(
            #[trigger] s.filter(pred)[k],
        ) by {
            if k < dl.filter(pred).len() {
                assert(dl.contains(dl.filter(pred)[k]));
                let w = choose|w: int| 0 <= w < dl.len() && dl[w] == dl.filter(pred)[k];
                assert(s[w] == s.filter(pred)[k]);
            } else {
                assert(s.filter(pred)[k] == s.last());
                assert(s[s.len() - 1] == s.last());
            }
        }
    }
}

/// Filtering a sequence without duplicate values yields a sequence without
/// duplicate values.
pub proof fn lemma_filter_no_dups<A>(s: Seq<A>, pred: spec_fn(A) -> bool)
    requires
        forall|i: int, j: int| 0 <= i < s.len() && 0 <= j < s.len() && i != j ==> s[i] != s[j],
    ensures
        forall|i: int, j: int|
            0 <= i < s.filter(pred).len() && 0 <= j < s.filter(pred).len() && i != j
                ==> s.filter(pred)[i] != s.filter(pred)[j],
    decreases s.len(),
{
    reveal(Seq::filter);
    if s.len() > 0 {
        let dl = s.drop_last();
        lemma_filter_no_dups(dl, pred);
        lemma_filter_sub(dl, pred);
        assert forall|i: int, j: int|
            0 <= i < s.filter(pred).len() && 0 <= j < s.filter(pred).len() && i != j implies s.filter(
            pred,
        )[i] != s.filter(pred)[j] by {
            let f = s.filter(pred);
            let df = dl.filter(pred);
            if pred(s.last()) {
                // `f` is `df` with `s.last()` appended; an element of `df`
                // never equals `s.last()` because values never repeat.
                if i < df.len() && j < df.len() {
                } else {
                    let k = if i < df.len() {
                        i
                    } else {
                        j
                    };
                    assert(dl.contains(df[k]));
                    let w = choose|w: int| 0 <= w < dl.len() && dl[w] == df[k];
                    assert(s[w] == df[k]);
                    assert(s[s.len() - 1] == s.last());
                }
            }
        }
    }
}

/// One step of building a filtered sequence element by element.
pub proof fn lemma_filter_step<A>(s: Seq<A>, pred: spec_fn(A) -> bool, i: int)
    requires
        0 <= i < s.len(),
    ensures
        pred(s[i]) ==> s.subrange(0, i + 1).filter(pred) == s.subrange(0, i).filter(pred).push(
            s[i],
        ),
        !pred(s[i]) ==> s.subrange(0, i + 1).filter(pred) == s.subrange(0, i).filter(pred),
{
    reveal(Seq::filter);
    let t = s.subrange(0, i + 1);
    assert(t.drop_last() =~= s.subrange(0, i));
    assert(t.last() == s[i]);
    assert(t.len() > 0);
}

impl Db {
    /// Index of the task keyed `(queue_name, task_id)`, if present.
    pub fn find_task(&self, q: &String, tid: &String) -> (r: Option<usize>)
        ensures
            (match r {
                Some(i) => self@.is_task_at(i as int, q@, tid@),
                None => !self@.has_task(q@, tid@),
            }),
    {
        let mut i: usize = 0;
        while i < self.tasks.len()
            invariant
                0 <= i <= self.tasks.len(),
                forall|j: int| 0 <= j < i ==> !self@.is_task_at(j, q@, tid@),
            decreases self.tasks.len() - i,
        {
            if self.tasks[i].queue_name.eq(q) && self.tasks[i].task_id.eq(tid) {
                return Some(i);
            }
            i = i + 1;
        }
        None
    }

    /// Index of the run keyed `(queue_name, run_id)`, if present.
    pub fn find_run(&self, q: &String, rid: &String) -> (r: Option<usize>)
        ensures
            (match r {
                Some(i) => self@.is_run_at(i as int, q@, rid@),
                None => !self@.has_run(q@, rid@),
            }),
    {
        let mut i: usize = 0;
        while i < self.runs.len()
            invariant
                0 <= i <= self.runs.len(),
                forall|j: int| 0 <= j < i ==> !self@.is_run_at(j, q@, rid@),
            decreases self.runs.len() - i,
        {
            if self.runs[i].queue_name.eq(q) && self.runs[i].run_id.eq(rid) {
                return Some(i);
            }
            i = i + 1;
        }
        None
    }

    /// Index of the event keyed `(queue_name, event_name)`, if present.
    pub fn find_event(&self, q: &String, name: &String) -> (r: Option<usize>)
        ensures
            (match r {
                Some(i) => 0 <= i < self@.events.len() && self@.events[i as int].queue_name == q@
                    && self@.events[i as int].event_name == name@,
                None => !self@.has_event(q@, name@),
            }),
    {
        let mut i: usize = 0;
        while i < self.events.len()
            invariant
                0 <= i <= self.events.len(),
                forall|j: int|
                    0 <= j < i ==> !(self@.events[j].queue_name == q@ && self@.events[j].event_name
                        == name@),
            decreases self.events.len() - i,
        {
            if self.events[i].queue_name.eq(q) && self.events[i].event_name.eq(name) {
                return Some(i);
            }
            i = i + 1;
        }
        None
    }

    /// Index of the checkpoint keyed `(queue_name, task_id, name)`, if
    /// present.
    pub fn find_checkpoint(&self, q: &String, tid: &String, name: &String) -> (r: Option<usize>)
        ensures
            (match r {
                Some(i) => 0 <= i < self@.checkpoints.len() && self@.checkpoints[i as int].queue_name
                    == q@ && self@.checkpoints[i as int].task_id == tid@
                    && self@.checkpoints[i as int].checkpoint_name == name@,
                None => !self@.has_checkpoint(q@, tid@, name@),
            }),
    {
        let mut i: usize = 0;
        while i < self.checkpoints.len()
            invariant
                0 <= i <= self.checkpoints.len(),
                forall|j: int|
                    0 <= j < i ==> !(self@.checkpoints[j].queue_name == q@
                        && self@.checkpoints[j].task_id == tid@
                        && self@.checkpoints[j].checkpoint_name == name@),
            decreases self.checkpoints.len() - i,
        {
            if self.checkpoints[i].queue_name.eq(q) && self.checkpoints[i].task_id.eq(tid)
                && self.checkpoints[i].checkpoint_name.eq(name) {
                return Some(i);
            }
            i = i + 1;
        }
        None
    }

    /// Replace the run at index `i`.
    pub fn set_run(&mut self, i: usize, r: Run)
        requires
            i < old(self).runs.len(),
        ensures
            final(self)@ == (DbV { runs: old(self)@.runs.update(i as int, r@), ..old(self)@ }),
    {
        let mut out: Vec<Run> = Vec::new();
        let mut j: usize = 0;
        while j < self.runs.len()
            invariant
                0 <= j <= self.runs.len(),
                i < self.runs.len(),
                out@.len() == j,
                forall|k: int|
                    0 <= k < j ==> out@[k]@ == (if k == i as int {
                        r@
                    } else {
                        self.runs@[k]@
                    }),
            decreases self.runs.len() - j,
        {
            if j == i {
                out.push(r.duplicate());
            } else {
                out.push(self.runs[j].duplicate());
            }
            j = j + 1;
        }
        self.runs = out;
        proof {
            assert(self@.runs =~= old(self)@.runs.update(i as int, r@));
        }
    }

    /// Replace the task at index `i`.
    pub fn set_task(&mut self, i: usize, t: Task)
        requires
            i < old(self).tasks.len(),
        ensures
            final(self)@ == (DbV { tasks: old(self)@.tasks.update(i as int, t@), ..old(self)@ }),
    {
        let mut out: Vec<Task> = Vec::new();
        let mut j: usize = 0;
        while j < self.tasks.len()
            invariant
                0 <= j <= self.tasks.len(),
                i < self.tasks.len(),
                out@.len() == j,
                forall|k: int|
                    0 <= k < j ==> out@[k]@ == (if k == i as int {
                        t@
                    } else {
                        self.tasks@[k]@
                    }),
            decreases self.tasks.len() - j,
        {
            if j == i {
                out.push(t.duplicate());
            } else {
                out.push(self.tasks[j].duplicate());
            }
            j = j + 1;
        }
        self.tasks = out;
        proof {
            assert(self@.tasks =~= old(self)@.tasks.update(i as int, t@));
        }
    }

    /// Replace the event at index `i`.
    pub fn set_event(&mut self, i: usize, e: Event)
        requires
            i < old(self).events.len(),
        ensures
            final(self)@ == (DbV { events: old(self)@.events.update(i as int, e@), ..old(self)@ }),
    {
        let mut out: Vec<Event> = Vec::new();
        let mut j: usize = 0;
        while j < self.events.len()
            invariant
                0 <= j <= self.events.len(),
                i < self.events.len(),
                out@.len() == j,
                forall|k: int|
                    0 <= k < j ==> out@[k]@ == (if k == i as int {
                        e@
                    } else {
                        self.events@[k]@
                    }),
            decreases self.events.len() - j,
        {
            if j == i {
                out.push(e.duplicate());
            } else {
                out.push(self.events[j].duplicate());
            }
            j = j + 1;
        }
        self.events = out;
        proof {
            assert(self@.events =~= old(self)@.events.update(i as int, e@));
        }
    }

    /// Replace the checkpoint at index `i`.
    pub fn set_checkpoint(&mut self, i: usize, c: Checkpoint)
        requires
            i < old(self).checkpoints.len(),
        ensures
            final(self)@ == (DbV {
                checkpoints: old(self)@.checkpoints.update(i as int, c@),
                ..old(self)@
            }),
    {
        let mut out: Vec<Checkpoint> = Vec::new();
        let mut j: usize = 0;
        while j < self.checkpoints.len()
            invariant
                0 <= j <= self.checkpoints.len(),
                i < self.checkpoints.len(),
                out@.len() == j,
                forall|k: int|
                    0 <= k < j ==> out@[k]@ == (if k == i as int {
                        c@
                    } else {
                        self.checkpoints@[k]@
                    }),
            decreases self.checkpoints.len() - j,
        {
            if j == i {
                out.push(c.duplicate());
            } else {
                out.push(self.checkpoints[j].duplicate());
            }
            j = j + 1;
        }
        self.checkpoints = out;
        proof {
            assert(self@.checkpoints =~= old(self)@.checkpoints.update(i as int, c@));
        }
    }

    /// Append a run.
    pub fn push_run(&mut self, r: Run)
        ensures
            final(self)@ == (DbV { runs: old(self)@.runs.push(r@), ..old(self)@ }),
    {
        let ghost before = self@.runs;
        let ghost rv = r@;
        self.runs.push(r);
        proof {
            assert(self@.runs =~= before.push(rv));
        }
    }

    /// Append a task.
    pub fn push_task(&mut self, t: Task)
        ensures
            final(self)@ == (DbV { tasks: old(self)@.tasks.push(t@), ..old(self)@ }),
    {
        let ghost before = self@.tasks;
        let ghost tv = t@;
        self.tasks.push(t);
        proof {
            assert(self@.tasks =~= before.push(tv));
        }
    }

    /// Append an event.
    pub fn push_event(&mut self, e: Event)
        ensures
            final(self)@ == (DbV { events: old(self)@.events.push(e@), ..old(self)@ }),
    {
        let ghost before = self@.events;
        let ghost ev = e@;
        self.events.push(e);
        proof {
            assert(self@.events =~= before.push(ev));
        }
    }

    /// Append a checkpoint.
    pub fn push_checkpoint(&mut self, c: Checkpoint)
        ensures
            final(self)@ == (DbV { checkpoints: old(self)@.checkpoints.push(c@), ..old(self)@ }),
    {
        let ghost before = self@.checkpoints;
        let ghost cv = c@;
        self.checkpoints.push(c);
        proof {
            assert(self@.checkpoints =~= before.push(cv));
        }
    }

    /// Append a wait.
    pub fn push_wait(&mut self, w: Wait)
        ensures
            final(self)@ == (DbV { waits: old(self)@.waits.push(w@), ..old(self)@ }),
    {
        let ghost before = self@.waits;
        let ghost wv = w@;
        self.waits.push(w);
        proof {
            assert(self@.waits =~= before.push(wv));
        }
    }

    /// Delete every wait of one run.
    pub fn delete_waits_of_run(&mut self, q: &String, rid: &String)
        ensures
            final(self)@ == (DbV {
                waits: old(self)@.waits.filter(
                    |w: WaitV| !(w.queue_name == q@ && w.run_id == rid@),
                ),
                ..old(self)@
            }),
    {
        let ghost pred = |w: WaitV| !(w.queue_name == q@ && w.run_id == rid@);
        let mut out: Vec<Wait> = Vec::new();
        let mut j: usize = 0;
        while j < self.waits.len()
            invariant
                0 <= j <= self.waits.len(),
                out@.map_values(|x: Wait| x@) == self@.waits.subrange(0, j as int).filter(pred),
                pred == (|w: WaitV| !(w.queue_name == q@ && w.run_id == rid@)),
            decreases self.waits.len() - j,
        {
            proof {
                lemma_filter_step(self@.waits, pred, j as int);
            }
            let keep = !(self.waits[j].queue_name.eq(q) && self.waits[j].run_id.eq(rid));
            if keep {
                let ghost before = out@.map_values(|x: Wait| x@);
                out.push(self.waits[j].duplicate());
                proof {
                    assert(out@.map_values(|x: Wait| x@) =~= before.push(self@.waits[j as int]));
                }
            }
            j = j + 1;
        }
        proof {
            assert(self@.waits.subrange(0, self@.waits.len() as int) =~= self@.waits);
        }
        self.waits = out;
    }

    /// Delete every wait of one task.
    pub fn delete_waits_of_task(&mut self, q: &String, tid: &String)
        ensures
            final(self)@ == (DbV {
                waits: old(self)@.waits.filter(
                    |w: WaitV| !(w.queue_name == q@ && w.task_id == tid@),
                ),
                ..old(self)@
            }),
    {
        let ghost pred = |w: WaitV| !(w.queue_name == q@ && w.task_id == tid@);
        let mut out: Vec<Wait> = Vec::new();
        let mut j: usize = 0;
        while j < self.waits.len()
            invariant
                0 <= j <= self.waits.len(),
                out@.map_values(|x: Wait| x@) == self@.waits.subrange(0, j as int).filter(pred),
                pred == (|w: WaitV| !(w.queue_name == q@ && w.task_id == tid@)),
            decreases self.waits.len() - j,
        {
            proof {
                lemma_filter_step(self@.waits, pred, j as int);
            }
            let keep = !(self.waits[j].queue_name.eq(q) && self.waits[j].task_id.eq(tid));
            if keep {
                let ghost before = out@.map_values(|x: Wait| x@);
                out.push(self.waits[j].duplicate());
                proof {
                    assert(out@.map_values(|x: Wait| x@) =~= before.push(self@.waits[j as int]));
                }
            }
            j = j + 1;
        }
        proof {
            assert(self@.waits.subrange(0, self@.waits.len() as int) =~= self@.waits);
        }
        self.waits = out;
    }

    /// Index of the wait keyed `(queue_name, run_id, step_name)`, if
    /// present.
    pub fn find_wait(&self, q: &String, rid: &String, step: &String) -> (r: Option<usize>)
        ensures
            (match r {
                Some(i) => 0 <= i < self@.waits.len() && self@.waits[i as int].queue_name == q@
                    && self@.waits[i as int].run_id == rid@ && self@.waits[i as int].step_name
                    == step@,
                None => !self@.has_wait(q@, rid@, step@),
            }),
    {
        let mut i: usize = 0;
        while i < self.waits.len()
            invariant
                0 <= i <= self.waits.len(),
                forall|j: int|
                    0 <= j < i ==> !(self@.waits[j].queue_name == q@ && self@.waits[j].run_id
                        == rid@ && self@.waits[j].step_name == step@),
            decreases self.waits.len() - i,
        {
            if self.waits[i].queue_name.eq(q) && self.waits[i].run_id.eq(rid)
                && self.waits[i].step_name.eq(step) {
                return Some(i);
            }
            i = i + 1;
        }
        None
    }

    /// Replace the wait at index `i`.
    pub fn set_wait(&mut self, i: usize, w: Wait)
        requires
            i < old(self).waits.len(),
        ensures
            final(self)@ == (DbV { waits: old(self)@.waits.update(i as int, w@), ..old(self)@ }),
    {
        let mut out: Vec<Wait> = Vec::new();
        let mut j: usize = 0;
        while j < self.waits.len()
            invariant
                0 <= j <= self.waits.len(),
                i < self.waits.len(),
                out@.len() == j,
                forall|k: int|
                    0 <= k < j ==> out@[k]@ == (if k == i as int {
                        w@
                    } else {
                        self.waits@[k]@
                    }),
            decreases self.waits.len() - j,
        {
            if j == i {
                out.push(w.duplicate());
            } else {
                out.push(self.waits[j].duplicate());
            }
            j = j + 1;
        }
        self.waits = out;
        proof {
            assert(self@.waits =~= old(self)@.waits.update(i as int, w@));
        }
    }

    /// Index of the task holding the idempotency key `(queue_name, key)`,
    /// if present.
    pub fn find_task_by_key(&self, q: &String, key: &String) -> (r: Option<usize>)
        ensures
            (match r {
                Some(i) => 0 <= i < self@.tasks.len() && self@.tasks[i as int].queue_name == q@
                    && self@.tasks[i as int].idempotency_key == Some(key@),
                None => !self@.has_task_key(q@, key@),
            }),
    {
        let mut i: usize = 0;
        while i < self.tasks.len()
            invariant
                0 <= i <= self.tasks.len(),
                forall|j: int|
                    0 <= j < i ==> !(self@.tasks[j].queue_name == q@
                        && self@.tasks[j].idempotency_key == Some(key@)),
            decreases self.tasks.len() - i,
        {
            let hit = match &self.tasks[i].idempotency_key {
                Some(k) => self.tasks[i].queue_name.eq(q) && k.eq(key),
                None => false,
            };
            if hit {
                return Some(i);
            }
            i = i + 1;
        }
        None
    }
}

} // verus!
