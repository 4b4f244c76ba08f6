use crate::db::lemma_filter_sub;
use crate::db::lemma_waits_filter_key_unique;
use crate::db::Db;
use crate::db::DbV;
use crate::rows::Run;
use crate::rows::RunV;
use crate::rows::Task;
use crate::rows::TaskV;
use crate::rows::Wait;
use crate::rows::WaitV;
use crate::state::clone_opt_string;
use crate::state::Cancellation;
use crate::state::EngineError;
use crate::state::FailureReason;
use crate::state::FailureReasonV;
use crate::state::RetryStrategy;
use crate::state::RunState;
use crate::state::TaskState;
use crate::validate;
use crate::validate::spec_queue_name_ok;
use vstd::prelude::*;

verus! {

// ---- ordering of claim candidates ------------------------------------

/// Strict lexicographic order on character sequences, by code point; the
/// order `order by run_id` gives to identifiers.
pub open spec fn seq_char_lt(a: Seq<char>, b: Seq<char>) -> bool
    decreases a.len(),
{
    if b.len() == 0 {
        false
    } else if a.len() == 0 {
        true
    } else if a[0] == b[0] {
        seq_char_lt(a.skip(1), b.skip(1))
    } else {
        a[0] < b[0]
    }
}

/// The candidate order of `claim`: by `available_at`, then by run id.
pub open spec fn run_key_lt(a: RunV, b: RunV) -> bool {
    a.available_at < b.available_at || (a.available_at == b.available_at && seq_char_lt(
        a.run_id,
        b.run_id,
    ))
}

/// Two sequences are equal, or one is smaller — never both.
pub proof fn lemma_seq_char_lt_trichotomy(a: Seq<char>, b: Seq<char>)
    ensures
        a == b || seq_char_lt(a, b) || seq_char_lt(b, a),
        !(seq_char_lt(a, b) && seq_char_lt(b, a)),
        !seq_char_lt(a, a),
    decreases a.len(),
{
    if a.len() == 0 || b.len() == 0 {
        if a.len() == 0 && b.len() == 0 {
            assert(a =~= b);
        }
        if a.len() == 0 {
            assert(!seq_char_lt(a, a));
        } else {
            lemma_seq_char_lt_trichotomy(a.skip(1), a.skip(1));
        }
    } else {
        lemma_seq_char_lt_trichotomy(a.skip(1), b.skip(1));
        lemma_seq_char_lt_trichotomy(a.skip(1), a.skip(1));
        if a[0] == b[0] && a.skip(1) == b.skip(1) {
            assert forall|i: int| 0 <= i < a.len() implies a[i] == b[i] by {
                if i >= 1 {
                    assert(a.skip(1)[i - 1] == b.skip(1)[i - 1]);
                }
            }
            assert(a =~= b);
        }
    }
}

/// The lexicographic order is transitive.
pub proof fn lemma_seq_char_lt_trans(a: Seq<char>, b: Seq<char>, c: Seq<char>)
    requires
        seq_char_lt(a, b),
        seq_char_lt(b, c),
    ensures
        seq_char_lt(a, c),
    decreases a.len(),
{
    if c.len() == 0 {
    } else if a.len() == 0 {
    } else if b.len() == 0 {
    } else {
        if a[0] == b[0] && b[0] == c[0] {
            lemma_seq_char_lt_trans(a.skip(1), b.skip(1), c.skip(1));
        }
    }
}

/// The candidate order is transitive over runs.
pub proof fn lemma_run_key_lt_trans(a: RunV, b: RunV, c: RunV)
    requires
        run_key_lt(a, b),
        run_key_lt(b, c),
    ensures
        run_key_lt(a, c),
{
    if a.available_at == b.available_at && b.available_at == c.available_at {
        lemma_seq_char_lt_trans(a.run_id, b.run_id, c.run_id);
    }
}

/// Distinct run ids are strictly ordered one way or the other.
pub proof fn lemma_run_key_connex(a: RunV, b: RunV)
    requires
        a.run_id != b.run_id,
    ensures
        run_key_lt(a, b) || run_key_lt(b, a),
        !(run_key_lt(a, b) && run_key_lt(b, a)),
{
    lemma_seq_char_lt_trichotomy(a.run_id, b.run_id);
}

/// Compare two identifiers in the lexicographic order, executably.
pub fn str_seq_lt(a: &String, b: &String) -> (r: bool)
    ensures
        r == seq_char_lt(a@, b@),
{
    let sa = a.as_str();
    let sb = b.as_str();
    let na = sa.unicode_len();
    let nb = sb.unicode_len();
    let mut i: usize = 0;
    proof {
        assert(sa@.skip(0) =~= sa@);
        assert(sb@.skip(0) =~= sb@);
    }
    loop
        invariant
            0 <= i <= na,
            0 <= i <= nb,
            na == sa@.len(),
            nb == sb@.len(),
            sa@ == a@,
            sb@ == b@,
            seq_char_lt(a@, b@) == seq_char_lt(sa@.skip(i as int), sb@.skip(i as int)),
        decreases na - i,
    {
        if i >= nb {
            proof {
                assert(sb@.skip(i as int).len() == 0);
            }
            return false;
        }
        if i >= na {
            proof {
                assert(sa@.skip(i as int).len() == 0);
                assert(sb@.skip(i as int).len() > 0);
            }
            return true;
        }
        let ca = sa.get_char(i);
        let cb = sb.get_char(i);
        proof {
            assert(sa@.skip(i as int)[0] == sa@[i as int]);
            assert(sb@.skip(i as int)[0] == sb@[i as int]);
        }
        if ca == cb {
            proof {
                assert(sa@.skip(i as int).skip(1) =~= sa@.skip(i as int + 1));
                assert(sb@.skip(i as int).skip(1) =~= sb@.skip(i as int + 1));
            }
            i = i + 1;
        } else {
            return ca < cb;
        }
    }
}

// ---- stage one: the cancellation sweep -------------------------------

/// Whether the cancellation windows of a live task have closed: it never
/// started within `max_delay`, or it has run longer than `max_duration`.
pub open spec fn cancel_due(t: TaskV, q: Seq<char>, now: i64) -> bool {
    &&& t.queue_name == q
    &&& (t.state == TaskState::Pending || t.state == TaskState::Sleeping || t.state
        == TaskState::Running)
    &&& ((t.cancellation.max_delay_secs matches Some(d) && t.first_started_at is None && now
        - t.enqueue_at >= crate::spec_secs_to_ms(d as int)) || (t.cancellation.max_duration_secs
        matches Some(d) && t.first_started_at matches Some(f) && now - f >= crate::spec_secs_to_ms(
        d as int,
    )))
}

/// The task table after the sweep: every due task is cancelled.
pub open spec fn sweep_tasks(tasks: Seq<TaskV>, q: Seq<char>, now: i64) -> Seq<TaskV> {
    Seq::new(
        tasks.len(),
        |k: int|
            if cancel_due(tasks[k], q, now) {
                TaskV {
                    state: TaskState::Cancelled,
                    cancelled_at: match tasks[k].cancelled_at {
                        Some(v) => Some(v),
                        None => Some(now),
                    },
                    ..tasks[k]
                }
            } else {
                tasks[k]
            },
    )
}

/// Whether the task table holds a cancelled task under this key.
pub open spec fn task_cancelled_in(tasks: Seq<TaskV>, q: Seq<char>, tid: Seq<char>) -> bool {
    exists|j: int|
        0 <= j < tasks.len() && tasks[j].queue_name == q && tasks[j].task_id == tid && tasks[j].state
            == TaskState::Cancelled
}

/// The run table after the sweep: every live run of a cancelled task is
/// cancelled and released.
pub open spec fn sweep_runs(runs: Seq<RunV>, tasks2: Seq<TaskV>, q: Seq<char>, now: i64) -> Seq<
    RunV,
> {
    Seq::new(
        runs.len(),
        |k: int|
            if runs[k].queue_name == q && !runs[k].state.spec_is_terminal() && task_cancelled_in(
                tasks2,
                q,
                runs[k].task_id,
            ) {
                RunV {
                    state: RunState::Cancelled,
                    claimed_by: None,
                    claim_expires_at: None,
                    available_at: now,
                    wake_event: None,
                    ..runs[k]
                }
            } else {
                runs[k]
            },
    )
}

/// Stage one of `claim`: cancel every task whose cancellation window has
/// closed, cancel and release the live runs of cancelled tasks, and drop
/// the waits of cancelled tasks.
pub open spec fn sweep_tr(db: DbV, q: Seq<char>, now: i64) -> DbV {
    let tasks2 = sweep_tasks(db.tasks, q, now);
    DbV {
        tasks: tasks2,
        runs: sweep_runs(db.runs, tasks2, q, now),
        waits: db.waits.filter(
            |w: WaitV| !(w.queue_name == q && task_cancelled_in(tasks2, q, w.task_id)),
        ),
        ..db
    }
}

/// The sweep preserves well-formedness.
pub proof fn lemma_sweep_wf(db: DbV, q: Seq<char>, now: i64)
    requires
        db.wf(),
    ensures
        sweep_tr(db, q, now).wf(),
        sweep_tr(db, q, now).runs.len() == db.runs.len(),
{
    let db2 = sweep_tr(db, q, now);
    let tasks2 = sweep_tasks(db.tasks, q, now);
    let pred = |w: WaitV| !(w.queue_name == q && task_cancelled_in(tasks2, q, w.task_id));
    lemma_waits_filter_key_unique(db.waits, pred);
    lemma_filter_sub(db.waits, pred);
    assert(db2.keys_unique());
    assert(db2.single_active());
    assert forall|k: int| 0 <= k < db2.tasks.len() implies db2.task_ok(#[trigger] db2.tasks[k]) by {
        let tk = db2.tasks[k];
        let old_tk = db.tasks[k];
        assert(db.task_ok(old_tk));
        let oli = db.run_idx(old_tk.queue_name, old_tk.last_attempt_run);
        assert(db.is_run_at(oli, old_tk.queue_name, old_tk.last_attempt_run));
        db2.lemma_run_idx_is(oli, tk.queue_name, tk.last_attempt_run);
        if old_tk.state.spec_is_terminal() {
            // terminal tasks are not swept; their runs are terminal and
            // therefore not rewritten
            assert(tk == old_tk);
            assert forall|m: int|
                0 <= m < db2.runs.len() && db2.runs[m].queue_name == tk.queue_name
                    && db2.runs[m].task_id == tk.task_id implies (
            #[trigger] db2.runs[m]).state.spec_is_terminal() by {
                assert(db.runs[m].queue_name == tk.queue_name && db.runs[m].task_id == tk.task_id);
                assert(db.runs[m].state.spec_is_terminal());
            }
        } else {
            if cancel_due(old_tk, q, now) {
                // the swept task: cancelled, and all its runs are now
                // terminal
                assert(0 <= k < tasks2.len() && tasks2[k].queue_name == q && tasks2[k].task_id
                    == old_tk.task_id && tasks2[k].state == TaskState::Cancelled);
                assert(task_cancelled_in(tasks2, q, old_tk.task_id));
                assert forall|m: int|
                    0 <= m < db2.runs.len() && db2.runs[m].queue_name == tk.queue_name
                        && db2.runs[m].task_id == tk.task_id implies (
                #[trigger] db2.runs[m]).state.spec_is_terminal() by {
                    assert(db.runs[m].queue_name == q && db.runs[m].task_id == old_tk.task_id);
                }
            } else {
                // an untouched live task: its latest run is not
                // rewritten, because in this queue no cancelled task
                // shares its key
                assert(tk == old_tk);
                if db.runs[oli].queue_name == q && task_cancelled_in(tasks2, q, old_tk.task_id) {
                    let j = choose|j: int|
                        0 <= j < tasks2.len() && tasks2[j].queue_name == q && tasks2[j].task_id
                            == old_tk.task_id && tasks2[j].state == TaskState::Cancelled;
                    assert(db.tasks[j].queue_name == q && db.tasks[j].task_id == old_tk.task_id);
                    assert(db.runs[oli].task_id == old_tk.task_id && db.runs[oli].queue_name
                        == old_tk.queue_name);
                    assert(j == k);
                }
                assert(db2.runs[oli] == db.runs[oli]);
            }
        }
    }
    assert forall|k: int| 0 <= k < db2.runs.len() implies db2.run_ok(#[trigger] db2.runs[k]) by {
        assert(db.run_ok(db.runs[k]));
        let tki = db.task_idx(db.runs[k].queue_name, db.runs[k].task_id);
        assert(db.is_task_at(tki, db.runs[k].queue_name, db.runs[k].task_id));
        assert(db2.is_task_at(tki, db2.runs[k].queue_name, db2.runs[k].task_id));
    }
    assert forall|k: int| 0 <= k < db2.waits.len() implies db2.wait_ok(#[trigger] db2.waits[k]) by {
        assert(db.waits.contains(db2.waits[k]));
        let wk = db2.waits[k];
        assert(pred(wk));
        assert(db.wait_ok(wk));
        let ri = db.run_idx(wk.queue_name, wk.run_id);
        assert(db.is_run_at(ri, wk.queue_name, wk.run_id));
        db2.lemma_run_idx_is(ri, wk.queue_name, wk.run_id);
        // the wait's task is not cancelled, so its run is not rewritten
        let r = db.runs[ri];
        assert(r.task_id == wk.task_id);
        if r.queue_name == q && task_cancelled_in(tasks2, q, r.task_id) {
            assert(!pred(wk));
        }
        assert(db2.runs[ri] == r);
    }
}

// ---- stage two: claim-expiry retries ---------------------------------

/// Whether a run's claim deadline has passed.
pub open spec fn claim_expired(r: RunV, q: Seq<char>, now: i64) -> bool {
    r.queue_name == q && r.state == RunState::Running && (r.claim_expires_at matches Some(e) && e
        <= now)
}

/// The synthetic failure reason recorded when a claim expires; hosts
/// render its name as the literal `$ClaimTimeout`.
pub open spec fn timeout_reason(r: RunV) -> FailureReasonV {
    FailureReasonV::ClaimTimeout {
        worker_id: r.claimed_by,
        claim_expired_at: match r.claim_expires_at {
            Some(e) => if e == 0 {
                None
            } else {
                Some(e)
            },
            None => None,
        },
        attempt: r.attempt,
    }
}

/// Stage two of `claim`, walking the run table from index `m` to `n`:
/// each run whose claim deadline has passed is failed with the synthetic
/// timeout reason and rescheduled under the next fresh identifier.
pub open spec fn expire_rec(
    db: DbV,
    q: Seq<char>,
    now: i64,
    ids: Seq<Seq<char>>,
    c: int,
    m: int,
    n: int,
) -> DbV
    decreases n - m,
{
    if m >= n {
        db
    } else if 0 <= m < db.runs.len() && claim_expired(db.runs[m], q, now) && 0 <= c < ids.len() {
        expire_rec(
            crate::retry::fail_and_reschedule(db, m, timeout_reason(db.runs[m]), now, None, ids[c]),
            q,
            now,
            ids,
            c + 1,
            m + 1,
            n,
        )
    } else {
        expire_rec(db, q, now, ids, c, m + 1, n)
    }
}

/// Stage two over the whole run table.
pub open spec fn expire_tr(db: DbV, q: Seq<char>, now: i64, ids: Seq<Seq<char>>) -> DbV {
    expire_rec(db, q, now, ids, 0, 0, db.runs.len() as int)
}

/// Stage two preserves well-formedness when enough distinct fresh
/// identifiers are supplied.
pub proof fn lemma_expire_rec_wf(
    db: DbV,
    q: Seq<char>,
    now: i64,
    ids: Seq<Seq<char>>,
    c: int,
    m: int,
    n: int,
)
    requires
        db.wf(),
        0 <= m,
        n <= db.runs.len(),
        0 <= c <= ids.len(),
        ids.len() - c >= n - m,
        forall|x: int, y: int| c <= x < ids.len() && c <= y < ids.len() && x != y ==> ids[x] != ids[y],
        forall|x: int| c <= x < ids.len() ==> !db.has_run(q, #[trigger] ids[x]),
    ensures
        expire_rec(db, q, now, ids, c, m, n).wf(),
        expire_rec(db, q, now, ids, c, m, n).runs.len() >= db.runs.len(),
    decreases n - m,
{
    if m >= n {
    } else if 0 <= m < db.runs.len() && claim_expired(db.runs[m], q, now) && 0 <= c < ids.len() {
        let r = db.runs[m];
        assert(!db.has_run(q, ids[c]));
        crate::retry::lemma_fail_and_reschedule_wf(db, m, timeout_reason(r), now, None, ids[c]);
        let db1 = crate::retry::fail_and_reschedule(db, m, timeout_reason(r), now, None, ids[c]);
        let rn = db.runs.len() as int;
        assert(db1.runs.len() >= rn);
        assert forall|x: int| c + 1 <= x < ids.len() implies !db1.has_run(q, #[trigger] ids[x]) by {
            if db1.has_run(q, ids[x]) {
                let w = db1.run_idx(q, ids[x]);
                assert(db1.is_run_at(w, q, ids[x]));
                if w < rn {
                    assert(db1.runs[w].run_id == db.runs[w].run_id);
                    assert(db.is_run_at(w, q, ids[x]));
                } else {
                    assert(db1.runs[w].run_id == ids[c]);
                }
            }
        }
        lemma_expire_rec_wf(db1, q, now, ids, c + 1, m + 1, n);
    } else {
        lemma_expire_rec_wf(db, q, now, ids, c, m + 1, n);
    }
}

impl Db {
    /// Stage one of `claim`, executably.
    pub fn sweep_cancellations(&mut self, queue: &String, now: i64)
        requires
            old(self)@.wf(),
        ensures
            final(self)@ == sweep_tr(old(self)@, queue@, now),
            final(self)@.wf(),
    {
        proof {
            lemma_sweep_wf(self@, queue@, now);
        }
        let ghost pre = self@;
        let ghost tasks2 = sweep_tasks(pre.tasks, queue@, now);

        // cancel every task whose window has closed
        let mut out_tasks: Vec<Task> = Vec::new();
        let mut j: usize = 0;
        while j < self.tasks.len()
            invariant
                0 <= j <= self.tasks.len(),
                out_tasks@.len() == j,
                pre == self@,
                tasks2 == sweep_tasks(pre.tasks, queue@, now),
                forall|k: int| 0 <= k < j ==> out_tasks@[k]@ == tasks2[k],
            decreases self.tasks.len() - j,
        {
            let t = &self.tasks[j];
            let overdue = match t.cancellation.max_delay_secs {
                Some(d) => t.first_started_at.is_none() && crate::retry::ge_after_sub(
                    now,
                    t.enqueue_at,
                    crate::secs_to_ms(d),
                ),
                None => false,
            };
            let overlong = match (t.cancellation.max_duration_secs, t.first_started_at) {
                (Some(d), Some(f)) => crate::retry::ge_after_sub(now, f, crate::secs_to_ms(d)),
                _ => false,
            };
            let live = matches!(
                t.state,
                TaskState::Pending | TaskState::Sleeping | TaskState::Running
            );
            if t.queue_name.eq(queue) && live && (overdue || overlong) {
                let cancelled_at = match t.cancelled_at {
                    Some(v) => Some(v),
                    None => Some(now),
                };
                out_tasks.push(
                    Task { state: TaskState::Cancelled, cancelled_at, ..self.tasks[j].duplicate() },
                );
            } else {
                out_tasks.push(self.tasks[j].duplicate());
            }
            j = j + 1;
        }
        self.tasks = out_tasks;
        proof {
            assert(self@.tasks =~= tasks2);
            assert(self@ == (DbV { tasks: tasks2, ..pre }));
            // keys survive the sweep, so lookups in the new table are
            // unambiguous
            assert forall|a: int, b: int|
                0 <= a < tasks2.len() && 0 <= b < tasks2.len() && tasks2[a].queue_name
                    == tasks2[b].queue_name && tasks2[a].task_id == tasks2[b].task_id implies a
                == b by {
                assert(pre.tasks[a].queue_name == tasks2[a].queue_name && pre.tasks[a].task_id
                    == tasks2[a].task_id);
                assert(pre.tasks[b].queue_name == tasks2[b].queue_name && pre.tasks[b].task_id
                    == tasks2[b].task_id);
            }
        }

        // cancel and release the live runs of cancelled tasks
        let mut out_runs: Vec<Run> = Vec::new();
        let mut m: usize = 0;
        while m < self.runs.len()
            invariant
                0 <= m <= self.runs.len(),
                out_runs@.len() == m,
                self@ == (DbV { tasks: tasks2, ..pre }),
                tasks2 == sweep_tasks(pre.tasks, queue@, now),
                forall|a: int, b: int|
                    0 <= a < tasks2.len() && 0 <= b < tasks2.len() && tasks2[a].queue_name
                        == tasks2[b].queue_name && tasks2[a].task_id == tasks2[b].task_id ==> a
                        == b,
                forall|k: int|
                    0 <= k < m ==> out_runs@[k]@ == sweep_runs(pre.runs, tasks2, queue@, now)[k],
            decreases self.runs.len() - m,
        {
            let cancelled_task = match self.find_task(queue, &self.runs[m].task_id) {
                Some(ti) => matches!(self.tasks[ti].state, TaskState::Cancelled),
                None => false,
            };
            proof {
                if cancelled_task {
                    assert(task_cancelled_in(tasks2, queue@, self@.runs[m as int].task_id));
                } else {
                    if task_cancelled_in(tasks2, queue@, self@.runs[m as int].task_id) {
                        let w = choose|w: int|
                            0 <= w < tasks2.len() && tasks2[w].queue_name == queue@
                                && tasks2[w].task_id == self@.runs[m as int].task_id && tasks2[w].state
                                == TaskState::Cancelled;
                        assert(self@.is_task_at(w, queue@, self@.runs[m as int].task_id));
                    }
                }
            }
            let hit = self.runs[m].queue_name.eq(queue) && !self.runs[m].state.is_terminal()
                && cancelled_task;
            if hit {
                out_runs.push(
                    Run {
                        state: RunState::Cancelled,
                        claimed_by: None,
                        claim_expires_at: None,
                        available_at: now,
                        wake_event: None,
                        ..self.runs[m].duplicate()
                    },
                );
            } else {
                out_runs.push(self.runs[m].duplicate());
            }
            m = m + 1;
        }
        self.runs = out_runs;
        proof {
            assert(self@.runs =~= sweep_runs(pre.runs, tasks2, queue@, now));
        }

        // drop the waits of cancelled tasks
        let ghost pred = |w: WaitV| !(w.queue_name == queue@ && task_cancelled_in(
            tasks2,
            queue@,
            w.task_id,
        ));
        let mut out_waits: Vec<Wait> = Vec::new();
        let mut x: usize = 0;
        while x < self.waits.len()
            invariant
                0 <= x <= self.waits.len(),
                self@.waits == pre.waits,
                self@.tasks == tasks2,
                tasks2 == sweep_tasks(pre.tasks, queue@, now),
                forall|a: int, b: int|
                    0 <= a < tasks2.len() && 0 <= b < tasks2.len() && tasks2[a].queue_name
                        == tasks2[b].queue_name && tasks2[a].task_id == tasks2[b].task_id ==> a
                        == b,
                pred == (|w: WaitV| !(w.queue_name == queue@ && task_cancelled_in(
                    tasks2,
                    queue@,
                    w.task_id,
                ))),
                out_waits@.map_values(|w: Wait| w@) == pre.waits.subrange(0, x as int).filter(pred),
            decreases self.waits.len() - x,
        {
            proof {
                crate::db::lemma_filter_step(pre.waits, pred, x as int);
            }
            let cancelled_task = match self.find_task(queue, &self.waits[x].task_id) {
                Some(ti) => matches!(self.tasks[ti].state, TaskState::Cancelled),
                None => false,
            };
            proof {
                if cancelled_task {
                    assert(task_cancelled_in(tasks2, queue@, self@.waits[x as int].task_id));
                } else {
                    if task_cancelled_in(tasks2, queue@, self@.waits[x as int].task_id) {
                        let w = choose|w: int|
                            0 <= w < tasks2.len() && tasks2[w].queue_name == queue@
                                && tasks2[w].task_id == self@.waits[x as int].task_id && tasks2[w].state
                                == TaskState::Cancelled;
                        assert(self@.is_task_at(w, queue@, self@.waits[x as int].task_id));
                    }
                }
            }
            let keep = !(self.waits[x].queue_name.eq(queue) && cancelled_task);
            if keep {
                let ghost before = out_waits@.map_values(|w: Wait| w@);
                out_waits.push(self.waits[x].duplicate());
                proof {
                    assert(out_waits@.map_values(|w: Wait| w@) =~= before.push(
                        pre.waits[x as int],
                    ));
                }
            }
            x = x + 1;
        }
        proof {
            assert(pre.waits.subrange(0, pre.waits.len() as int) =~= pre.waits);
        }
        self.waits = out_waits;
    }

    /// Stage two of `claim`, executably: fail and reschedule every run in
    /// the queue whose claim deadline has passed, drawing fresh run
    /// identifiers from `ids`.
    pub fn expire_claims(&mut self, queue: &String, now: i64, ids: &Vec<String>)
        requires
            old(self)@.wf(),
            ids.deep_view().len() >= old(self)@.runs.len(),
            forall|x: int, y: int|
                0 <= x < ids.deep_view().len() && 0 <= y < ids.deep_view().len() && x != y
                    ==> ids.deep_view()[x] != ids.deep_view()[y],
            forall|x: int|
                0 <= x < ids.deep_view().len() ==> !old(self)@.has_run(
                    queue@,
                    #[trigger] ids.deep_view()[x],
                ),
        ensures
            final(self)@ == expire_tr(old(self)@, queue@, now, ids.deep_view()),
            final(self)@.wf(),
    {
        let ghost pre = self@;
        let ghost idsv = ids.deep_view();
        let id_count = ids.len();
        let n = self.runs.len();
        let mut m: usize = 0;
        let mut c: usize = 0;
        proof {
            lemma_expire_rec_wf(pre, queue@, now, idsv, 0, 0, n as int);
        }
        while m < n
            invariant
                0 <= m <= n,
                0 <= c <= idsv.len(),
                idsv.len() == id_count,
                idsv == ids.deep_view(),
                idsv.len() - c >= n - m,
                n <= self@.runs.len(),
                self@.wf(),
                forall|x: int, y: int|
                    0 <= x < idsv.len() && 0 <= y < idsv.len() && x != y ==> idsv[x] != idsv[y],
                forall|x: int|
                    c <= x < idsv.len() ==> !self@.has_run(queue@, #[trigger] idsv[x]),
                expire_rec(pre, queue@, now, idsv, 0, 0, n as int) == expire_rec(
                    self@,
                    queue@,
                    now,
                    idsv,
                    c as int,
                    m as int,
                    n as int,
                ),
            decreases n - m,
        {
            let hit = self.runs[m].queue_name.eq(queue) && matches!(
                self.runs[m].state,
                RunState::Running
            ) && (match self.runs[m].claim_expires_at {
                Some(e) => e <= now,
                None => false,
            });
            if hit {
                let ghost cur = self@;
                let reason = FailureReason::ClaimTimeout {
                    worker_id: clone_opt_string(&self.runs[m].claimed_by),
                    claim_expired_at: match self.runs[m].claim_expires_at {
                        Some(e) => if e == 0 {
                            None
                        } else {
                            Some(e)
                        },
                        None => None,
                    },
                    attempt: self.runs[m].attempt,
                };
                proof {
                    assert(claim_expired(cur.runs[m as int], queue@, now));
                    assert(reason@ == timeout_reason(cur.runs[m as int]));
                }
                self.apply_fail_and_reschedule(m, reason, now, None, ids[c].clone());
                proof {
                    let db1 = crate::retry::fail_and_reschedule(
                        cur,
                        m as int,
                        timeout_reason(cur.runs[m as int]),
                        now,
                        None,
                        idsv[c as int],
                    );
                    assert(self@ == db1);
                    crate::retry::lemma_fail_and_reschedule_wf(
                        cur,
                        m as int,
                        timeout_reason(cur.runs[m as int]),
                        now,
                        None,
                        idsv[c as int],
                    );
                    let rn = cur.runs.len() as int;
                    assert forall|x: int| c + 1 <= x < idsv.len() implies !self@.has_run(
                        queue@,
                        #[trigger] idsv[x],
                    ) by {
                        if self@.has_run(queue@, idsv[x]) {
                            let w = self@.run_idx(queue@, idsv[x]);
                            assert(self@.is_run_at(w, queue@, idsv[x]));
                            if w < rn {
                                assert(self@.runs[w].run_id == cur.runs[w].run_id);
                                assert(cur.is_run_at(w, queue@, idsv[x]));
                            } else {
                                assert(self@.runs[w].run_id == idsv[c as int]);
                            }
                        }
                    }
                    assert(expire_rec(cur, queue@, now, idsv, c as int, m as int, n as int)
                        == expire_rec(self@, queue@, now, idsv, c as int + 1, m as int + 1,
                    n as int));
                }
                c = c + 1;
            } else {
                proof {
                    assert(!claim_expired(self@.runs[m as int], queue@, now));
                    assert(expire_rec(self@, queue@, now, idsv, c as int, m as int, n as int)
                        == expire_rec(self@, queue@, now, idsv, c as int, m as int + 1, n as int));
                }
            }
            m = m + 1;
        }
        proof {
            assert(expire_rec(self@, queue@, now, idsv, c as int, n as int, n as int) == self@);
        }
    }
}

// ---- eligibility and the claim of one candidate ----------------------

/// Whether the run at index `k` can be claimed now: a live, due run of a
/// live task.
pub open spec fn eligible(db: DbV, k: int, q: Seq<char>, now: i64) -> bool {
    &&& 0 <= k < db.runs.len()
    &&& {
        let r = db.runs[k];
        &&& r.queue_name == q
        &&& (r.state == RunState::Pending || r.state == RunState::Sleeping)
        &&& r.available_at <= now
        &&& {
            let t = db.tasks[db.task_idx(q, r.task_id)];
            t.state == TaskState::Pending || t.state == TaskState::Sleeping || t.state
                == TaskState::Running
        }
    }
}

/// The claimed copy of a candidate run.
pub open spec fn claimed_run(r: RunV, worker: Seq<char>, expires: Option<i64>, now: i64) -> RunV {
    RunV {
        state: RunState::Running,
        claimed_by: Some(worker),
        claim_expires_at: expires,
        started_at: if r.state == RunState::Sleeping {
            Some(now)
        } else {
            match r.started_at {
                Some(s) => Some(s),
                None => Some(now),
            }
        },
        available_at: now,
        ..r
    }
}

/// The claimed copy of the candidate's task.
pub open spec fn claimed_task(t: TaskV, r: RunV, now: i64) -> TaskV {
    TaskV {
        state: TaskState::Running,
        attempts: if t.attempts < r.attempt {
            r.attempt
        } else {
            t.attempts
        },
        first_started_at: match t.first_started_at {
            Some(f) => Some(f),
            None => Some(now),
        },
        last_attempt_run: r.run_id,
        ..t
    }
}

/// Claim the eligible run at index `k`: run and task become `running`,
/// and the run's expired waits are dropped.
pub open spec fn claim_one(
    db: DbV,
    k: int,
    q: Seq<char>,
    worker: Seq<char>,
    expires: Option<i64>,
    now: i64,
) -> DbV {
    let r = db.runs[k];
    let ti = db.task_idx(q, r.task_id);
    let t = db.tasks[ti];
    DbV {
        runs: db.runs.update(k, claimed_run(r, worker, expires, now)),
        tasks: db.tasks.update(ti, claimed_task(t, r, now)),
        waits: db.waits.filter(
            |w: WaitV|
                !(w.queue_name == q && w.run_id == r.run_id && (w.timeout_at matches Some(to)
                    && to <= now)),
        ),
        ..db
    }
}

/// Claiming an eligible run preserves well-formedness, keeps every other
/// run's eligibility, and makes the claimed run ineligible.
pub proof fn lemma_claim_one_wf(
    db: DbV,
    k: int,
    q: Seq<char>,
    worker: Seq<char>,
    expires: Option<i64>,
    now: i64,
)
    requires
        db.wf(),
        eligible(db, k, q, now),
    ensures
        claim_one(db, k, q, worker, expires, now).wf(),
        claim_one(db, k, q, worker, expires, now).runs.len() == db.runs.len(),
        forall|j: int|
            j != k ==> eligible(claim_one(db, k, q, worker, expires, now), j, q, now) == eligible(
                db,
                j,
                q,
                now,
            ),
        !eligible(claim_one(db, k, q, worker, expires, now), k, q, now),
        forall|j: int|
            0 <= j < db.runs.len() && j != k ==> claim_one(db, k, q, worker, expires, now).runs[j]
                == db.runs[j],
        claim_one(db, k, q, worker, expires, now).runs[k] == claimed_run(
            db.runs[k],
            worker,
            expires,
            now,
        ),
{
    let r = db.runs[k];
    crate::run::lemma_live_run_is_latest(db, k);
    let ti = db.task_idx(q, r.task_id);
    assert(db.is_task_at(ti, q, r.task_id));
    let t = db.tasks[ti];
    let db2 = claim_one(db, k, q, worker, expires, now);
    let pred = |w: WaitV|
        !(w.queue_name == q && w.run_id == r.run_id && (w.timeout_at matches Some(to) && to
            <= now));
    lemma_waits_filter_key_unique(db.waits, pred);
    lemma_filter_sub(db.waits, pred);
    assert(db2.keys_unique());
    assert(db2.single_active());
    assert forall|x: int| 0 <= x < db2.tasks.len() implies db2.task_ok(#[trigger] db2.tasks[x]) by {
        let tx = db2.tasks[x];
        if x == ti {
            db2.lemma_run_idx_is(k, q, r.run_id);
        } else {
            let old_tx = db.tasks[x];
            assert(db.task_ok(old_tx));
            let oli = db.run_idx(old_tx.queue_name, old_tx.last_attempt_run);
            assert(db.is_run_at(oli, old_tx.queue_name, old_tx.last_attempt_run));
            if oli == k {
                assert(db.runs[k].task_id == old_tx.task_id);
                assert(db.is_task_at(x, q, r.task_id));
            }
            db2.lemma_run_idx_is(oli, tx.queue_name, tx.last_attempt_run);
            if tx.state.spec_is_terminal() {
                assert forall|m: int|
                    0 <= m < db2.runs.len() && db2.runs[m].queue_name == tx.queue_name
                        && db2.runs[m].task_id == tx.task_id implies (
                #[trigger] db2.runs[m]).state.spec_is_terminal() by {
                    if m == k {
                        assert(db.is_task_at(x, q, r.task_id));
                    } else {
                        assert(db.runs[m].state.spec_is_terminal());
                    }
                }
            }
        }
    }
    assert forall|x: int| 0 <= x < db2.runs.len() implies db2.run_ok(#[trigger] db2.runs[x]) by {
        assert(db.run_ok(db.runs[x]));
        let txi = db.task_idx(db.runs[x].queue_name, db.runs[x].task_id);
        assert(db.is_task_at(txi, db.runs[x].queue_name, db.runs[x].task_id));
        assert(db2.is_task_at(txi, db2.runs[x].queue_name, db2.runs[x].task_id));
    }
    assert forall|x: int| 0 <= x < db2.waits.len() implies db2.wait_ok(#[trigger] db2.waits[x]) by {
        assert(db.waits.contains(db2.waits[x]));
        let wx = db2.waits[x];
        assert(db.wait_ok(wx));
        let ri = db.run_idx(wx.queue_name, wx.run_id);
        assert(db.is_run_at(ri, wx.queue_name, wx.run_id));
        db2.lemma_run_idx_is(ri, wx.queue_name, wx.run_id);
    }
    assert forall|j: int| j != k implies eligible(db2, j, q, now) == eligible(db, j, q, now) by {
        if 0 <= j < db.runs.len() {
            let rj = db.runs[j];
            assert(db2.runs[j] == rj);
            if rj.queue_name == q {
                assert(db.run_ok(rj));
                let tji = db.task_idx(q, rj.task_id);
                assert(db.is_task_at(tji, q, rj.task_id));
                db2.lemma_task_idx_is(tji, q, rj.task_id);
                if tji == ti {
                    // its task is the claimed task, now running: still a
                    // claimable task state
                    assert(db2.tasks[tji].state == TaskState::Running);
                }
            }
        }
    }
}

// ---- stage three: select and claim candidates ------------------------

/// One row of the claim result, handed to the worker.
pub struct ClaimRow {
    pub run_id: String,
    pub task_id: String,
    pub attempt: i64,
    pub task_name: String,
    pub params: String,
    pub retry_strategy: RetryStrategy,
    pub max_attempts: Option<i64>,
    pub headers: Option<String>,
    pub wake_event: Option<String>,
    pub event_payload: Option<String>,
}

pub struct ClaimRowV {
    pub run_id: Seq<char>,
    pub task_id: Seq<char>,
    pub attempt: i64,
    pub task_name: Seq<char>,
    pub params: Seq<char>,
    pub retry_strategy: RetryStrategy,
    pub max_attempts: Option<i64>,
    pub headers: Option<Seq<char>>,
    pub wake_event: Option<Seq<char>>,
    pub event_payload: Option<Seq<char>>,
}

impl View for ClaimRow {
    type V = ClaimRowV;

    open spec fn view(&self) -> ClaimRowV {
        ClaimRowV {
            run_id: self.run_id@,
            task_id: self.task_id@,
            attempt: self.attempt,
            task_name: self.task_name@,
            params: self.params@,
            retry_strategy: self.retry_strategy,
            max_attempts: self.max_attempts,
            headers: self.headers.deep_view(),
            wake_event: self.wake_event.deep_view(),
            event_payload: self.event_payload.deep_view(),
        }
    }
}

/// The result row for the candidate at index `k`, drawn from the run and
/// its task as they stand when the candidate is picked.
pub open spec fn claim_row_of(db: DbV, k: int) -> ClaimRowV {
    let r = db.runs[k];
    let t = db.tasks[db.task_idx(r.queue_name, r.task_id)];
    ClaimRowV {
        run_id: r.run_id,
        task_id: r.task_id,
        attempt: r.attempt,
        task_name: t.task_name,
        params: t.params,
        retry_strategy: t.retry_strategy,
        max_attempts: t.max_attempts,
        headers: t.headers,
        wake_event: r.wake_event,
        event_payload: r.event_payload,
    }
}

/// Claim the candidates at the picked indices, in order.
pub open spec fn apply_claims(
    db: DbV,
    picked: Seq<int>,
    q: Seq<char>,
    worker: Seq<char>,
    expires: Option<i64>,
    now: i64,
) -> DbV
    decreases picked.len(),
{
    if picked.len() == 0 {
        db
    } else {
        apply_claims(claim_one(db, picked[0], q, worker, expires, now), picked.skip(1), q, worker,
            expires, now)
    }
}

/// Claiming one more candidate extends the fold by one step.
pub proof fn lemma_apply_claims_push(
    db: DbV,
    picked: Seq<int>,
    k: int,
    q: Seq<char>,
    worker: Seq<char>,
    expires: Option<i64>,
    now: i64,
)
    ensures
        apply_claims(db, picked.push(k), q, worker, expires, now) == claim_one(
            apply_claims(db, picked, q, worker, expires, now),
            k,
            q,
            worker,
            expires,
            now,
        ),
    decreases picked.len(),
{
    if picked.len() == 0 {
        assert(picked.push(k).len() == 1);
        assert(picked.push(k)[0] == k);
        assert(picked.push(k).skip(1) =~= Seq::<int>::empty());
        let one = claim_one(db, k, q, worker, expires, now);
        assert(apply_claims(one, Seq::<int>::empty(), q, worker, expires, now) == one);
        assert(apply_claims(db, picked, q, worker, expires, now) == db);
    } else {
        assert(picked.push(k)[0] == picked[0]);
        assert(picked.push(k).skip(1) =~= picked.skip(1).push(k));
        let one = claim_one(db, picked[0], q, worker, expires, now);
        lemma_apply_claims_push(one, picked.skip(1), k, q, worker, expires, now);
        assert(apply_claims(db, picked.push(k), q, worker, expires, now) == apply_claims(
            one,
            picked.skip(1).push(k),
            q,
            worker,
            expires,
            now,
        ));
        assert(apply_claims(db, picked, q, worker, expires, now) == apply_claims(
            one,
            picked.skip(1),
            q,
            worker,
            expires,
            now,
        ));
    }
}

/// The fields of a task that no claim changes.
pub open spec fn task_static_eq(a: TaskV, b: TaskV) -> bool {
    &&& a.queue_name == b.queue_name
    &&& a.task_id == b.task_id
    &&& a.task_name == b.task_name
    &&& a.params == b.params
    &&& a.retry_strategy == b.retry_strategy
    &&& a.max_attempts == b.max_attempts
    &&& a.headers == b.headers
}

/// What `claim` returns and leaves behind, given the store `db2` that the
/// sweep and the expiry stages produced: the picked candidates are the
/// first `min(qty, all)` eligible runs in `(available_at, run_id)` order,
/// each claimed for the worker, and one result row is built per pick.
pub open spec fn claim_post(
    db2: DbV,
    q: Seq<char>,
    now: i64,
    worker: Seq<char>,
    expires: Option<i64>,
    qty: i64,
    picked: Seq<int>,
    dbf: DbV,
    rows: Seq<ClaimRowV>,
) -> bool {
    &&& picked.len() == rows.len()
    &&& picked.len() <= qty
    &&& (forall|a: int| 0 <= a < picked.len() ==> eligible(db2, #[trigger] picked[a], q, now))
    &&& (forall|a: int, b: int|
        0 <= a < b < picked.len() ==> run_key_lt(
            db2.runs[#[trigger] picked[a]],
            db2.runs[#[trigger] picked[b]],
        ))
    &&& (forall|a: int, j: int|
        #![trigger picked[a], eligible(db2, j, q, now)]
        0 <= a < picked.len() && eligible(db2, j, q, now) && !picked.contains(j) ==> run_key_lt(
            db2.runs[picked[a]],
            db2.runs[j],
        ))
    &&& (picked.len() == qty || (forall|j: int|
        eligible(db2, j, q, now) ==> picked.contains(j)))
    &&& dbf == apply_claims(db2, picked, q, worker, expires, now)
    &&& (forall|a: int| 0 <= a < picked.len() ==> rows[a] == claim_row_of(db2, #[trigger] picked[a]))
}

impl Db {
    /// Whether the run at index `j` is an eligible claim candidate.
    fn check_eligible(&self, j: usize, queue: &String, now: i64) -> (b: bool)
        requires
            self@.wf(),
            j < self@.runs.len(),
        ensures
            b == eligible(self@, j as int, queue@, now),
    {
        let r = &self.runs[j];
        if !r.queue_name.eq(queue) {
            return false;
        }
        if !matches!(r.state, RunState::Pending | RunState::Sleeping) {
            return false;
        }
        if !(r.available_at <= now) {
            return false;
        }
        proof {
            assert(self@.run_ok(self@.runs[j as int]));
        }
        match self.find_task(queue, &r.task_id) {
            Some(ti) => {
                proof {
                    self@.lemma_task_idx_is(ti as int, queue@, self@.runs[j as int].task_id);
                }
                matches!(
                    self.tasks[ti].state,
                    TaskState::Pending | TaskState::Sleeping | TaskState::Running
                )
            },
            None => {
                proof {
                    assert(false);
                }
                false
            },
        }
    }

    /// The eligible candidate first in `(available_at, run_id)` order, if
    /// any.
    fn find_best_candidate(&self, queue: &String, now: i64) -> (r: Option<usize>)
        requires
            self@.wf(),
        ensures
            (match r {
                Some(k) => eligible(self@, k as int, queue@, now) && (forall|j: int|
                    eligible(self@, j, queue@, now) && j != k as int ==> run_key_lt(
                        self@.runs[k as int],
                        self@.runs[j],
                    )),
                None => forall|j: int| !eligible(self@, j, queue@, now),
            }),
    {
        let mut best: Option<usize> = None;
        let mut j: usize = 0;
        while j < self.runs.len()
            invariant
                self@.wf(),
                0 <= j <= self@.runs.len(),
                (match best {
                    Some(b) => b < j && eligible(self@, b as int, queue@, now) && (forall|x: int|
                        eligible(self@, x, queue@, now) && 0 <= x < j && x != b as int
                            ==> run_key_lt(self@.runs[b as int], self@.runs[x])),
                    None => forall|x: int| 0 <= x < j ==> !eligible(self@, x, queue@, now),
                }),
            decreases self@.runs.len() - j,
        {
            if self.check_eligible(j, queue, now) {
                match best {
                    None => {
                        best = Some(j);
                    },
                    Some(b) => {
                        let better = self.runs[j].available_at < self.runs[b].available_at
                            || (self.runs[j].available_at == self.runs[b].available_at
                            && str_seq_lt(&self.runs[j].run_id, &self.runs[b].run_id));
                        proof {
                            let rb = self@.runs[b as int];
                            let rj = self@.runs[j as int];
                            assert(rb.run_id != rj.run_id);
                            lemma_run_key_connex(rb, rj);
                            if better {
                                assert(run_key_lt(rj, rb));
                                assert forall|x: int|
                                    eligible(self@, x, queue@, now) && 0 <= x < j + 1 && x
                                        != j as int implies run_key_lt(rj, self@.runs[x]) by {
                                    if x != b as int {
                                        lemma_run_key_lt_trans(rj, rb, self@.runs[x]);
                                    }
                                }
                            } else {
                                assert(run_key_lt(rb, rj));
                            }
                        }
                        if better {
                            best = Some(j);
                        }
                    },
                }
            }
            j = j + 1;
        }
        best
    }

    /// Drop the expired waits of one run.
    fn delete_expired_waits_of_run(&mut self, q: &String, rid: &String, now: i64)
        ensures
            final(self)@ == (DbV {
                waits: old(self)@.waits.filter(
                    |w: WaitV|
                        !(w.queue_name == q@ && w.run_id == rid@ && (w.timeout_at matches Some(to)
                            && to <= now)),
                ),
                ..old(self)@
            }),
    {
        let ghost pred = |w: WaitV|
            !(w.queue_name == q@ && w.run_id == rid@ && (w.timeout_at matches Some(to) && to
                <= now));
        let mut out: Vec<Wait> = Vec::new();
        let mut j: usize = 0;
        while j < self.waits.len()
            invariant
                0 <= j <= self.waits.len(),
                out@.map_values(|x: Wait| x@) == self@.waits.subrange(0, j as int).filter(pred),
                pred == (|w: WaitV|
                    !(w.queue_name == q@ && w.run_id == rid@ && (w.timeout_at matches Some(to)
                        && to <= now))),
            decreases self.waits.len() - j,
        {
            proof {
                crate::db::lemma_filter_step(self@.waits, pred, j as int);
            }
            let expired_wait = match self.waits[j].timeout_at {
                Some(to) => to <= now,
                None => false,
            };
            let keep = !(self.waits[j].queue_name.eq(q) && self.waits[j].run_id.eq(rid)
                && expired_wait);
            if keep {
                let ghost before = out@.map_values(|x: Wait| x@);
                out.push(self.waits[j].duplicate());
                proof {
                    assert(out@.map_values(|x: Wait| x@) =~= before.push(self@.waits[j as int]));
                }
            }
            j = j + 1;
        }
        proof {
            assert(self@.waits.subrange(0, self@.waits.len() as int) =~= self@.waits);
        }
        self.waits = out;
    }

    /// Claim up to `qty` due runs for a worker: first reconcile
    /// cancellation windows, then reconcile expired claims, then pick the
    /// due runs in `(available_at, run_id)` order and mark each `running`
    /// under the worker with a deadline of `claim_timeout_secs` (no
    /// deadline when it is zero). A blank worker name stands for the
    /// literal name `worker`; `qty` is at least one. Fresh run
    /// identifiers for rescheduled attempts are drawn from `ids`.
    #[verifier::rlimit(100)]
    pub fn claim_task(
        &mut self,
        queue: &String,
        worker_id: &String,
        claim_timeout_secs: i64,
        qty: i64,
        now: i64,
        ids: &Vec<String>,
    ) -> (r: Result<Vec<ClaimRow>, EngineError>)
        requires
            old(self)@.wf(),
            ids.deep_view().len() >= old(self)@.runs.len(),
            forall|x: int, y: int|
                0 <= x < ids.deep_view().len() && 0 <= y < ids.deep_view().len() && x != y
                    ==> ids.deep_view()[x] != ids.deep_view()[y],
            forall|x: int|
                0 <= x < ids.deep_view().len() ==> !old(self)@.has_run(
                    queue@,
                    #[trigger] ids.deep_view()[x],
                ),
        ensures
            final(self)@.wf(),
            r is Err ==> final(self)@ == old(self)@ && r == Err::<Vec<ClaimRow>, EngineError>(
                EngineError::Validation,
            ) && !spec_queue_name_ok(queue@),
            ({
                r matches Ok(rows) ==> {
                    let worker = if crate::validate::spec_is_blank(worker_id@) {
                        "worker"@
                    } else {
                        worker_id@
                    };
                    let timeout = if claim_timeout_secs < 0 {
                        0
                    } else {
                        claim_timeout_secs
                    };
                    let expires = if timeout > 0 {
                        Some(crate::clamp_i64(now + crate::spec_secs_to_ms(timeout as int)) as i64)
                    } else {
                        None
                    };
                    let want = if qty < 1 {
                        1
                    } else {
                        qty
                    };
                    let db2 = expire_tr(
                        sweep_tr(old(self)@, queue@, now),
                        queue@,
                        now,
                        ids.deep_view(),
                    );
                    &&& spec_queue_name_ok(queue@)
                    &&& exists|picked: Seq<int>|
                        #![trigger picked.len()]
                        claim_post(
                            db2,
                            queue@,
                            now,
                            worker,
                            expires,
                            want,
                            picked,
                            final(self)@,
                            rows@.map_values(|x: ClaimRow| x@),
                        )
                }
            }),
    {
        match validate::queue_name(queue.as_str()) {
            Err(e) => {
                return Err(e);
            },
            Ok(u) => {},
        }
        let worker: String = if validate::is_blank(worker_id.as_str()) {
            "worker".to_owned()
        } else {
            worker_id.clone()
        };
        let timeout = if claim_timeout_secs < 0 {
            0
        } else {
            claim_timeout_secs
        };
        let expires: Option<i64> = if timeout > 0 {
            Some(crate::add_sat(now, crate::secs_to_ms(timeout)))
        } else {
            None
        };
        let want: i64 = if qty < 1 {
            1
        } else {
            qty
        };

        self.sweep_cancellations(queue, now);
        proof {
            let db1 = self@;
            let old0 = old(self)@;
            assert forall|x: int|
                0 <= x < ids.deep_view().len() implies !db1.has_run(
                queue@,
                #[trigger] ids.deep_view()[x],
            ) by {
                if db1.has_run(queue@, ids.deep_view()[x]) {
                    let w = db1.run_idx(queue@, ids.deep_view()[x]);
                    assert(db1.is_run_at(w, queue@, ids.deep_view()[x]));
                    assert(db1.runs[w].run_id == old0.runs[w].run_id);
                    assert(db1.runs[w].queue_name == old0.runs[w].queue_name);
                    assert(old0.is_run_at(w, queue@, ids.deep_view()[x]));
                }
            }
        }
        self.expire_claims(queue, now, ids);

        let ghost db2 = self@;
        let ghost workerv = worker@;
        let mut rows: Vec<ClaimRow> = Vec::new();
        let ghost mut picked: Seq<int> = Seq::empty();
        let mut taken: i64 = 0;
        let mut exhausted: bool = false;
        proof {
            assert(apply_claims(db2, picked, queue@, workerv, expires, now) == db2);
        }
        while taken < want && !exhausted
            invariant
                self@.wf(),
                db2.wf(),
                0 <= taken <= want,
                taken == rows@.len(),
                picked.len() == rows@.len(),
                worker@ == workerv,
                self@ == apply_claims(db2, picked, queue@, workerv, expires, now),
                exhausted ==> (forall|j: int| !eligible(self@, j, queue@, now)),
                self@.tasks.len() == db2.tasks.len(),
                forall|x: int|
                    0 <= x < db2.tasks.len() ==> task_static_eq(
                        #[trigger] self@.tasks[x],
                        db2.tasks[x],
                    ),
                forall|j: int|
                    #![trigger eligible(self@, j, queue@, now)]
                    eligible(self@, j, queue@, now) ==> (eligible(db2, j, queue@, now)
                        && !picked.contains(j)),
                forall|j: int|
                    #![trigger eligible(db2, j, queue@, now)]
                    eligible(db2, j, queue@, now) && !picked.contains(j) ==> eligible(
                        self@,
                        j,
                        queue@,
                        now,
                    ),
                forall|j: int|
                    #![trigger db2.runs[j]]
                    eligible(db2, j, queue@, now) && !picked.contains(j) ==> self@.runs[j]
                        == db2.runs[j],
                forall|a: int| 0 <= a < picked.len() ==> eligible(db2, #[trigger] picked[a], queue@, now),
                forall|a: int, b: int|
                    0 <= a < b < picked.len() ==> run_key_lt(
                        db2.runs[#[trigger] picked[a]],
                        db2.runs[#[trigger] picked[b]],
                    ),
                forall|a: int, j: int|
                    #![trigger picked[a], eligible(db2, j, queue@, now)]
                    0 <= a < picked.len() && eligible(db2, j, queue@, now) && !picked.contains(j)
                        ==> run_key_lt(db2.runs[picked[a]], db2.runs[j]),
                forall|a: int|
                    0 <= a < picked.len() ==> rows@.map_values(|x: ClaimRow| x@)[a] == claim_row_of(
                        db2,
                        #[trigger] picked[a],
                    ),
            decreases want - taken + (if exhausted {
                0int
            } else {
                1int
            }),
        {
            let found = self.find_best_candidate(queue, now);
            if found.is_none() {
                exhausted = true;
                continue ;
            }
            let k = match found {
                Some(k) => k,
                None => {
                    return Err(EngineError::Validation);
                },
            };
            let ghost cur = self@;
            proof {
                assert(eligible(cur, k as int, queue@, now));
                assert(eligible(db2, k as int, queue@, now) && !picked.contains(k as int));
                assert(cur.runs[k as int] == db2.runs[k as int]);
                assert(cur.run_ok(cur.runs[k as int]));
            }
            let ti = match self.find_task(queue, &self.runs[k].task_id) {
                Some(ti) => ti,
                None => {
                    proof {
                        assert(false);
                    }
                    return Err(EngineError::Validation);
                },
            };
            proof {
                self@.lemma_task_idx_is(ti as int, queue@, self@.runs[k as int].task_id);
                lemma_claim_one_wf(cur, k as int, queue@, workerv, expires, now);
            }
            let row = ClaimRow {
                run_id: self.runs[k].run_id.clone(),
                task_id: self.runs[k].task_id.clone(),
                attempt: self.runs[k].attempt,
                task_name: self.tasks[ti].task_name.clone(),
                params: self.tasks[ti].params.clone(),
                retry_strategy: self.tasks[ti].retry_strategy,
                max_attempts: self.tasks[ti].max_attempts,
                headers: clone_opt_string(&self.tasks[ti].headers),
                wake_event: clone_opt_string(&self.runs[k].wake_event),
                event_payload: clone_opt_string(&self.runs[k].event_payload),
            };
            let started_at = if matches!(self.runs[k].state, RunState::Sleeping) {
                Some(now)
            } else {
                match self.runs[k].started_at {
                    Some(s) => Some(s),
                    None => Some(now),
                }
            };
            let r2 = Run {
                state: RunState::Running,
                claimed_by: Some(worker.clone()),
                claim_expires_at: expires,
                started_at,
                available_at: now,
                ..self.runs[k].duplicate()
            };
            let old_attempts = self.tasks[ti].attempts;
            let run_attempt = self.runs[k].attempt;
            let t2 = Task {
                state: TaskState::Running,
                attempts: if old_attempts < run_attempt {
                    run_attempt
                } else {
                    old_attempts
                },
                first_started_at: match self.tasks[ti].first_started_at {
                    Some(f) => Some(f),
                    None => Some(now),
                },
                last_attempt_run: self.runs[k].run_id.clone(),
                ..self.tasks[ti].duplicate()
            };
            let rid = self.runs[k].run_id.clone();
            self.set_run(k, r2);
            self.set_task(ti, t2);
            self.delete_expired_waits_of_run(queue, &rid, now);
            proof {
                assert(self@ == claim_one(cur, k as int, queue@, workerv, expires, now));
                lemma_apply_claims_push(db2, picked, k as int, queue@, workerv, expires, now);
                assert(row@ == claim_row_of(db2, k as int)) by {
                    assert(eligible(db2, k as int, queue@, now) && !picked.contains(k as int));
                    assert(cur.runs[k as int] == db2.runs[k as int]);
                    assert(cur.is_task_at(ti as int, queue@, cur.runs[k as int].task_id));
                    assert(task_static_eq(cur.tasks[ti as int], db2.tasks[ti as int]));
                    assert(db2.is_task_at(ti as int, queue@, db2.runs[k as int].task_id));
                    db2.lemma_task_idx_is(ti as int, queue@, db2.runs[k as int].task_id);
                }
                // the claim rewrites no static task field
                assert forall|x: int|
                    0 <= x < db2.tasks.len() implies task_static_eq(
                    #[trigger] self@.tasks[x],
                    db2.tasks[x],
                ) by {
                    assert(task_static_eq(cur.tasks[x], db2.tasks[x]));
                }
            }
            let ghost picked_new = picked.push(k as int);
            proof {
                // the freshly claimed candidate keeps every older pick
                // strictly smaller, and the remaining candidates strictly
                // larger
                assert forall|a: int, b: int|
                    0 <= a < b < picked_new.len() implies run_key_lt(
                    db2.runs[#[trigger] picked_new[a]],
                    db2.runs[#[trigger] picked_new[b]],
                ) by {
                    if b == picked_new.len() - 1 {
                        assert(picked_new[b] == k as int);
                        assert(eligible(db2, k as int, queue@, now) && !picked.contains(k as int));
                        assert(run_key_lt(db2.runs[picked[a]], db2.runs[k as int]));
                    }
                }
                assert forall|j: int|
                    #![trigger eligible(self@, j, queue@, now)]
                    eligible(self@, j, queue@, now) implies (eligible(db2, j, queue@, now)
                    && !picked_new.contains(j)) by {
                    if j == k as int {
                        assert(!eligible(self@, k as int, queue@, now));
                    } else {
                        assert(eligible(self@, j, queue@, now) == eligible(cur, j, queue@, now));
                        assert(eligible(cur, j, queue@, now));
                        if picked_new.contains(j) {
                            let w = choose|w: int| 0 <= w < picked_new.len() && picked_new[w] == j;
                            if w < picked.len() {
                                assert(picked.contains(j));
                            } else {
                                assert(j == k as int);
                            }
                        }
                    }
                }
                assert forall|j: int|
                    #![trigger eligible(db2, j, queue@, now)]
                    eligible(db2, j, queue@, now) && !picked_new.contains(j) implies eligible(
                    self@,
                    j,
                    queue@,
                    now,
                ) by {
                    assert(!picked.contains(j)) by {
                        if picked.contains(j) {
                            let w = choose|w: int| 0 <= w < picked.len() && picked[w] == j;
                            assert(picked_new[w] == j);
                            assert(picked_new.contains(j));
                        }
                    }
                    assert(j != k as int) by {
                        assert(picked_new[picked_new.len() - 1] == k as int);
                    }
                    assert(eligible(cur, j, queue@, now));
                }
                assert forall|j: int|
                    #![trigger db2.runs[j]]
                    eligible(db2, j, queue@, now) && !picked_new.contains(j) implies self@.runs[j]
                    == db2.runs[j] by {
                    assert(!picked.contains(j)) by {
                        if picked.contains(j) {
                            let w = choose|w: int| 0 <= w < picked.len() && picked[w] == j;
                            assert(picked_new[w] == j);
                        }
                    }
                    assert(j != k as int) by {
                        assert(picked_new[picked_new.len() - 1] == k as int);
                    }
                    assert(cur.runs[j] == db2.runs[j]);
                    assert(self@.runs[j] == cur.runs[j]);
                }
                assert forall|a: int, j: int|
                    #![trigger picked_new[a], eligible(db2, j, queue@, now)]
                    0 <= a < picked_new.len() && eligible(db2, j, queue@, now)
                        && !picked_new.contains(j) implies run_key_lt(
                    db2.runs[picked_new[a]],
                    db2.runs[j],
                ) by {
                    assert(!picked.contains(j)) by {
                        if picked.contains(j) {
                            let w = choose|w: int| 0 <= w < picked.len() && picked[w] == j;
                            assert(picked_new[w] == j);
                        }
                    }
                    assert(j != k as int) by {
                        assert(picked_new[picked_new.len() - 1] == k as int);
                    }
                    if a == picked_new.len() - 1 {
                        assert(picked_new[a] == k as int);
                        assert(eligible(cur, j, queue@, now));
                        assert(cur.runs[j] == db2.runs[j]);
                        assert(cur.runs[k as int] == db2.runs[k as int]);
                        assert(run_key_lt(cur.runs[k as int], cur.runs[j]));
                    }
                }
            }
            let ghost rows_before = rows@;
            rows.push(row);
            proof {
                picked = picked_new;
                assert forall|a: int|
                    0 <= a < picked.len() implies rows@.map_values(|x: ClaimRow| x@)[a]
                    == claim_row_of(db2, #[trigger] picked[a]) by {
                    if a < picked.len() - 1 {
                        assert(rows_before.map_values(|x: ClaimRow| x@)[a] == claim_row_of(
                            db2,
                            picked[a],
                        ));
                        assert(rows@[a] == rows_before[a]);
                    } else {
                        assert(rows@[a]@ == claim_row_of(db2, k as int));
                    }
                }
            }
            taken = taken + 1;
        }
        proof {
            if taken < want {
                // the scan found nothing: everything eligible was picked
                assert forall|j: int|
                    eligible(db2, j, queue@, now) implies picked.contains(j) by {
                    if !picked.contains(j) {
                        assert(eligible(self@, j, queue@, now));
                    }
                }
            }
            assert(picked.len() >= 0);
            assert(claim_post(
                db2,
                queue@,
                now,
                workerv,
                expires,
                want,
                picked,
                self@,
                rows@.map_values(|x: ClaimRow| x@),
            ));
        }
        Ok(rows)
    }
}

} // verus!
