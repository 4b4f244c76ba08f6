use crate::db::lemma_filter_no_dups;
use crate::db::lemma_filter_step;
use crate::db::lemma_filter_sub;
use crate::db::Db;
use crate::db::DbV;
use crate::rows::Checkpoint;
use crate::rows::CheckpointV;
use crate::rows::Event;
use crate::rows::EventV;
use crate::rows::Run;
use crate::rows::RunV;
use crate::rows::Task;
use crate::rows::TaskV;
use crate::rows::Wait;
use crate::rows::WaitV;
use crate::state::EngineError;
use crate::state::TaskState;
use crate::validate;
use crate::validate::spec_queue_name_ok;
use vstd::prelude::*;

verus! {

/// When a task reached its terminal state: the latest run's completion or
/// failure stamp, or the task's cancellation stamp.
pub open spec fn terminal_at(db: DbV, t: TaskV) -> Option<i64> {
    match t.state {
        TaskState::Completed => db.run_at(t.queue_name, t.last_attempt_run).completed_at,
        TaskState::Failed => db.run_at(t.queue_name, t.last_attempt_run).failed_at,
        TaskState::Cancelled => t.cancelled_at,
        _ => None,
    }
}

/// Whether a task is old enough to reap: terminal since before the
/// cutoff.
pub open spec fn reapable(db: DbV, t: TaskV, q: Seq<char>, cutoff: i64) -> bool {
    &&& t.queue_name == q
    &&& t.state.spec_is_terminal()
    &&& (terminal_at(db, t) matches Some(ts) && ts < cutoff)
}

/// The ids of the first `limit` reapable tasks, in table order.
pub open spec fn doomed_rec(db: DbV, q: Seq<char>, cutoff: i64, limit: int, i: int) -> Seq<
    Seq<char>,
>
    decreases db.tasks.len() - i,
{
    if i < 0 || i >= db.tasks.len() || limit <= 0 {
        Seq::empty()
    } else if reapable(db, db.tasks[i], q, cutoff) {
        seq![db.tasks[i].task_id] + doomed_rec(db, q, cutoff, limit - 1, i + 1)
    } else {
        doomed_rec(db, q, cutoff, limit, i + 1)
    }
}

/// Whether an id is among the doomed ones.
pub open spec fn in_ids(ids: Seq<Seq<char>>, tid: Seq<char>) -> bool {
    exists|x: int| 0 <= x < ids.len() && ids[x] == tid
}

/// `cleanup_tasks`: drop the doomed tasks with their runs, waits and
/// checkpoints.
pub open spec fn cleanup_tasks_tr(db: DbV, q: Seq<char>, cutoff: i64, limit: i64) -> DbV {
    let del = doomed_rec(db, q, cutoff, limit as int, 0);
    DbV {
        tasks: db.tasks.filter(|t: TaskV| !(t.queue_name == q && in_ids(del, t.task_id))),
        runs: db.runs.filter(|r: RunV| !(r.queue_name == q && in_ids(del, r.task_id))),
        waits: db.waits.filter(|w: WaitV| !(w.queue_name == q && in_ids(del, w.task_id))),
        checkpoints: db.checkpoints.filter(
            |c: CheckpointV| !(c.queue_name == q && in_ids(del, c.task_id)),
        ),
        ..db
    }
}

/// Reaping terminal tasks preserves well-formedness.
#[verifier::rlimit(100)]
#[verifier::spinoff_prover]
pub proof fn lemma_cleanup_tasks_wf(db: DbV, q: Seq<char>, cutoff: i64, limit: i64)
    requires
        db.wf(),
    ensures
        cleanup_tasks_tr(db, q, cutoff, limit).wf(),
{
    let db2 = cleanup_tasks_tr(db, q, cutoff, limit);
    let del = doomed_rec(db, q, cutoff, limit as int, 0);
    let tp = |t: TaskV| !(t.queue_name == q && in_ids(del, t.task_id));
    let rp = |r: RunV| !(r.queue_name == q && in_ids(del, r.task_id));
    let wp = |w: WaitV| !(w.queue_name == q && in_ids(del, w.task_id));
    let cp = |c: CheckpointV| !(c.queue_name == q && in_ids(del, c.task_id));
    lemma_filter_sub(db.tasks, tp);
    lemma_filter_sub(db.runs, rp);
    lemma_filter_sub(db.waits, wp);
    lemma_filter_sub(db.checkpoints, cp);
    assert forall|i: int, j: int|
        0 <= i < db.tasks.len() && 0 <= j < db.tasks.len() && i != j implies db.tasks[i]
        != db.tasks[j] by {
        if db.tasks[i] == db.tasks[j] {
            assert(db.tasks[i].queue_name == db.tasks[j].queue_name && db.tasks[i].task_id
                == db.tasks[j].task_id);
        }
    }
    assert forall|i: int, j: int|
        0 <= i < db.runs.len() && 0 <= j < db.runs.len() && i != j implies db.runs[i]
        != db.runs[j] by {
        if db.runs[i] == db.runs[j] {
            assert(db.runs[i].queue_name == db.runs[j].queue_name && db.runs[i].run_id
                == db.runs[j].run_id);
        }
    }
    assert forall|i: int, j: int|
        0 <= i < db.waits.len() && 0 <= j < db.waits.len() && i != j implies db.waits[i]
        != db.waits[j] by {
        if db.waits[i] == db.waits[j] {
            assert(db.waits[i].queue_name == db.waits[j].queue_name && db.waits[i].run_id
                == db.waits[j].run_id && db.waits[i].step_name == db.waits[j].step_name);
        }
    }
    assert forall|i: int, j: int|
        0 <= i < db.checkpoints.len() && 0 <= j < db.checkpoints.len() && i != j implies db.checkpoints[i]
        != db.checkpoints[j] by {
        if db.checkpoints[i] == db.checkpoints[j] {
            assert(db.checkpoints[i].queue_name == db.checkpoints[j].queue_name
                && db.checkpoints[i].task_id == db.checkpoints[j].task_id
                && db.checkpoints[i].checkpoint_name == db.checkpoints[j].checkpoint_name);
        }
    }
    lemma_filter_no_dups(db.tasks, tp);
    lemma_filter_no_dups(db.runs, rp);
    lemma_filter_no_dups(db.waits, wp);
    lemma_filter_no_dups(db.checkpoints, cp);
    assert(db2.keys_unique()) by {
        assert forall|i: int, j: int|
            0 <= i < db2.tasks.len() && 0 <= j < db2.tasks.len() && db2.tasks[i].queue_name
                == db2.tasks[j].queue_name && db2.tasks[i].task_id == db2.tasks[j].task_id
            implies i == j by {
            if i != j {
                let a = choose|a: int| 0 <= a < db.tasks.len() && db.tasks[a] == db2.tasks[i];
                let b = choose|b: int| 0 <= b < db.tasks.len() && db.tasks[b] == db2.tasks[j];
                assert(a == b);
            }
        }
        assert forall|i: int, j: int|
            0 <= i < db2.tasks.len() && 0 <= j < db2.tasks.len() && db2.tasks[i].queue_name
                == db2.tasks[j].queue_name && db2.tasks[i].idempotency_key is Some
                && db2.tasks[i].idempotency_key == db2.tasks[j].idempotency_key implies i == j by {
            if i != j {
                let a = choose|a: int| 0 <= a < db.tasks.len() && db.tasks[a] == db2.tasks[i];
                let b = choose|b: int| 0 <= b < db.tasks.len() && db.tasks[b] == db2.tasks[j];
                assert(a == b);
            }
        }
        assert forall|i: int, j: int|
            0 <= i < db2.runs.len() && 0 <= j < db2.runs.len() && db2.runs[i].queue_name
                == db2.runs[j].queue_name && db2.runs[i].run_id == db2.runs[j].run_id implies i
            == j by {
            if i != j {
                let a = choose|a: int| 0 <= a < db.runs.len() && db.runs[a] == db2.runs[i];
                let b = choose|b: int| 0 <= b < db.runs.len() && db.runs[b] == db2.runs[j];
                assert(a == b);
            }
        }
        assert forall|i: int, j: int|
            0 <= i < db2.waits.len() && 0 <= j < db2.waits.len() && db2.waits[i].queue_name
                == db2.waits[j].queue_name && db2.waits[i].run_id == db2.waits[j].run_id
                && db2.waits[i].step_name == db2.waits[j].step_name implies i == j by {
            if i != j {
                let a = choose|a: int| 0 <= a < db.waits.len() && db.waits[a] == db2.waits[i];
                let b = choose|b: int| 0 <= b < db.waits.len() && db.waits[b] == db2.waits[j];
                assert(a == b);
            }
        }
        assert forall|i: int, j: int|
            0 <= i < db2.checkpoints.len() && 0 <= j < db2.checkpoints.len()
                && db2.checkpoints[i].queue_name == db2.checkpoints[j].queue_name
                && db2.checkpoints[i].task_id == db2.checkpoints[j].task_id
                && db2.checkpoints[i].checkpoint_name == db2.checkpoints[j].checkpoint_name
            implies i == j by {
            if i != j {
                let a = choose|a: int|
                    0 <= a < db.checkpoints.len() && db.checkpoints[a] == db2.checkpoints[i];
                let b = choose|b: int|
                    0 <= b < db.checkpoints.len() && db.checkpoints[b] == db2.checkpoints[j];
                assert(a == b);
            }
        }
    }
    assert(db2.single_active()) by {
        assert forall|i: int, j: int|
            0 <= i < db2.runs.len() && 0 <= j < db2.runs.len() && db2.runs[i].queue_name
                == db2.runs[j].queue_name && db2.runs[i].task_id == db2.runs[j].task_id && !(
            #[trigger] db2.runs[i]).state.spec_is_terminal() && !(
            #[trigger] db2.runs[j]).state.spec_is_terminal() implies i == j by {
            if i != j {
                let a = choose|a: int| 0 <= a < db.runs.len() && db.runs[a] == db2.runs[i];
                let b = choose|b: int| 0 <= b < db.runs.len() && db.runs[b] == db2.runs[j];
                assert(a == b);
            }
        }
    }
    assert forall|k: int| 0 <= k < db2.tasks.len() implies db2.task_ok(#[trigger] db2.tasks[k]) by {
        let tk = db2.tasks[k];
        db.tasks.lemma_filter_pred(tp, k);
        assert(db.task_ok(tk));
        let oli = db.run_idx(tk.queue_name, tk.last_attempt_run);
        assert(db.is_run_at(oli, tk.queue_name, tk.last_attempt_run));
        let lr = db.runs[oli];
        assert(lr.task_id == tk.task_id);
        assert(rp(lr));
        db.runs.lemma_filter_contains(rp, oli);
        let ni = choose|ni: int| 0 <= ni < db2.runs.len() && db2.runs[ni] == lr;
        db2.lemma_run_idx_is(ni, tk.queue_name, tk.last_attempt_run);
        if tk.state.spec_is_terminal() {
            assert forall|m: int|
                0 <= m < db2.runs.len() && db2.runs[m].queue_name == tk.queue_name
                    && db2.runs[m].task_id == tk.task_id implies (
            #[trigger] db2.runs[m]).state.spec_is_terminal() by {
                let a = choose|a: int| 0 <= a < db.runs.len() && db.runs[a] == db2.runs[m];
                assert(db.runs[a].state.spec_is_terminal());
            }
        }
    }
    assert forall|k: int| 0 <= k < db2.runs.len() implies db2.run_ok(#[trigger] db2.runs[k]) by {
        let rk = db2.runs[k];
        db.runs.lemma_filter_pred(rp, k);
        assert(db.run_ok(rk));
        let tki = db.task_idx(rk.queue_name, rk.task_id);
        assert(db.is_task_at(tki, rk.queue_name, rk.task_id));
        let ot = db.tasks[tki];
        assert(tp(ot));
        db.tasks.lemma_filter_contains(tp, tki);
        let ni = choose|ni: int| 0 <= ni < db2.tasks.len() && db2.tasks[ni] == ot;
        assert(db2.is_task_at(ni, rk.queue_name, rk.task_id));
    }
    assert forall|k: int| 0 <= k < db2.waits.len() implies db2.wait_ok(#[trigger] db2.waits[k]) by {
        let wk = db2.waits[k];
        db.waits.lemma_filter_pred(wp, k);
        assert(db.wait_ok(wk));
        let ri = db.run_idx(wk.queue_name, wk.run_id);
        assert(db.is_run_at(ri, wk.queue_name, wk.run_id));
        let orun = db.runs[ri];
        assert(orun.task_id == wk.task_id);
        assert(rp(orun));
        db.runs.lemma_filter_contains(rp, ri);
        let ni = choose|ni: int| 0 <= ni < db2.runs.len() && db2.runs[ni] == orun;
        db2.lemma_run_idx_is(ni, wk.queue_name, wk.run_id);
    }
}

impl Db {
    /// Whether the task at index `k` is reapable, executably.
    fn check_reapable(&self, k: usize, queue: &String, cutoff: i64) -> (b: bool)
        requires
            self@.wf(),
            k < self@.tasks.len(),
        ensures
            b == reapable(self@, self@.tasks[k as int], queue@, cutoff),
    {
        let t = &self.tasks[k];
        if !t.queue_name.eq(queue) {
            return false;
        }
        if !t.state.is_terminal() {
            return false;
        }
        proof {
            assert(self@.task_ok(self@.tasks[k as int]));
        }
        let ts: Option<i64> = match t.state {
            TaskState::Cancelled => t.cancelled_at,
            TaskState::Completed | TaskState::Failed => {
                match self.find_run(queue, &t.last_attempt_run) {
                    Some(ri) => {
                        proof {
                            self@.lemma_run_idx_is(ri as int, queue@,
                                self@.tasks[k as int].last_attempt_run);
                        }
                        if matches!(t.state, TaskState::Completed) {
                            self.runs[ri].completed_at
                        } else {
                            self.runs[ri].failed_at
                        }
                    },
                    None => {
                        proof {
                            assert(false);
                        }
                        None
                    },
                }
            },
            _ => None,
        };
        match ts {
            Some(v) => v < cutoff,
            None => false,
        }
    }

    /// Reap up to `limit` (default 1000) tasks of the queue that have
    /// been terminal for longer than `ttl_secs`, deleting each together
    /// with its runs, waits and checkpoints, and return how many went
    /// away.
    #[verifier::rlimit(100)]
    #[verifier::spinoff_prover]
    pub fn cleanup_tasks(
        &mut self,
        queue: &String,
        ttl_secs: i64,
        limit: Option<i64>,
        now: i64,
    ) -> (r: Result<i64, EngineError>)
        requires
            old(self)@.wf(),
        ensures
            final(self)@.wf(),
            r is Err ==> final(self)@ == old(self)@,
            ({
                let lim = match limit {
                    Some(v) => v,
                    None => 1000,
                };
                if !spec_queue_name_ok(queue@) || ttl_secs < 0 || lim < 1 {
                    r == Err::<i64, EngineError>(EngineError::Validation)
                } else {
                    let cutoff = crate::clamp_i64(
                        now - crate::spec_secs_to_ms(ttl_secs as int),
                    ) as i64;
                    &&& final(self)@ == cleanup_tasks_tr(old(self)@, queue@, cutoff, lim)
                    &&& r == Ok::<i64, EngineError>(
                        doomed_rec(old(self)@, queue@, cutoff, lim as int, 0).len() as i64,
                    )
                }
            }),
    {
        match validate::queue_name(queue.as_str()) {
            Err(e) => {
                return Err(e);
            },
            Ok(u) => {},
        }
        if ttl_secs < 0 {
            return Err(EngineError::Validation);
        }
        let lim: i64 = match limit {
            Some(v) => v,
            None => 1000,
        };
        if lim < 1 {
            return Err(EngineError::Validation);
        }
        let ghost pre = self@;
        let ms = crate::secs_to_ms(ttl_secs);
        let cutoff = crate::add_sat(now, -ms);
        proof {
            assert(cutoff == crate::clamp_i64(now - crate::spec_secs_to_ms(ttl_secs as int)));
        }

        // pick the doomed ids in table order, within the budget
        let mut del: Vec<String> = Vec::new();
        let mut budget: i64 = lim;
        let mut k: usize = 0;
        while k < self.tasks.len() && budget != 0
            invariant
                0 <= k <= self.tasks.len(),
                self@ == pre,
                self@.wf(),
                0 <= budget <= lim,
                budget == lim - del@.len(),
                doomed_rec(pre, queue@, cutoff, lim as int, 0) == del.deep_view() + doomed_rec(
                    pre,
                    queue@,
                    cutoff,
                    budget as int,
                    k as int,
                ),
            decreases self.tasks.len() - k,
        {
            let hit = self.check_reapable(k, queue, cutoff);
            if hit {
                let ghost before = del.deep_view();
                del.push(self.tasks[k].task_id.clone());
                proof {
                    assert(del.deep_view() =~= before.push(pre.tasks[k as int].task_id));
                    assert(seq![pre.tasks[k as int].task_id] + doomed_rec(
                        pre,
                        queue@,
                        cutoff,
                        budget as int - 1,
                        k as int + 1,
                    ) =~= Seq::<Seq<char>>::empty().push(pre.tasks[k as int].task_id) + doomed_rec(
                        pre,
                        queue@,
                        cutoff,
                        budget as int - 1,
                        k as int + 1,
                    ));
                    assert(before + (Seq::<Seq<char>>::empty().push(pre.tasks[k as int].task_id)
                        + doomed_rec(pre, queue@, cutoff, budget as int - 1, k as int + 1))
                        =~= del.deep_view() + doomed_rec(
                        pre,
                        queue@,
                        cutoff,
                        budget as int - 1,
                        k as int + 1,
                    ));
                }
                budget = budget - 1;
            }
            k = k + 1;
        }
        proof {
            assert(doomed_rec(pre, queue@, cutoff, budget as int, k as int) =~= Seq::<
                Seq<char>,
            >::empty());
            assert(del.deep_view() + Seq::<Seq<char>>::empty() =~= del.deep_view());
            assert(del.deep_view() == doomed_rec(pre, queue@, cutoff, lim as int, 0));
            lemma_cleanup_tasks_wf(pre, queue@, cutoff, lim);
        }
        let ghost delv = del.deep_view();
        let count: i64 = lim - budget;

        // drop the doomed tasks and everything under them
        let ghost tp = |t: TaskV| !(t.queue_name == queue@ && in_ids(delv, t.task_id));
        let mut out_tasks: Vec<Task> = Vec::new();
        let mut j: usize = 0;
        while j < self.tasks.len()
            invariant
                0 <= j <= self.tasks.len(),
                self@.tasks == pre.tasks,
                delv == del.deep_view(),
                tp == (|t: TaskV| !(t.queue_name == queue@ && in_ids(delv, t.task_id))),
                out_tasks@.map_values(|t: Task| t@) == pre.tasks.subrange(0, j as int).filter(tp),
            decreases self.tasks.len() - j,
        {
            proof {
                lemma_filter_step(pre.tasks, tp, j as int);
            }
            let keep = !(self.tasks[j].queue_name.eq(queue) && contains_id(
                &del,
                &self.tasks[j].task_id,
            ));
            if keep {
                let ghost before = out_tasks@.map_values(|t: Task| t@);
                out_tasks.push(self.tasks[j].duplicate());
                proof {
                    assert(out_tasks@.map_values(|t: Task| t@) =~= before.push(
                        pre.tasks[j as int],
                    ));
                }
            }
            j = j + 1;
        }
        proof {
            assert(pre.tasks.subrange(0, pre.tasks.len() as int) =~= pre.tasks);
        }
        self.tasks = out_tasks;

        let ghost rp = |x: RunV| !(x.queue_name == queue@ && in_ids(delv, x.task_id));
        let mut out_runs: Vec<Run> = Vec::new();
        let mut j2: usize = 0;
        while j2 < self.runs.len()
            invariant
                0 <= j2 <= self.runs.len(),
                self@.runs == pre.runs,
                delv == del.deep_view(),
                rp == (|x: RunV| !(x.queue_name == queue@ && in_ids(delv, x.task_id))),
                out_runs@.map_values(|x: Run| x@) == pre.runs.subrange(0, j2 as int).filter(rp),
            decreases self.runs.len() - j2,
        {
            proof {
                lemma_filter_step(pre.runs, rp, j2 as int);
            }
            let keep = !(self.runs[j2].queue_name.eq(queue) && contains_id(
                &del,
                &self.runs[j2].task_id,
            ));
            if keep {
                let ghost before = out_runs@.map_values(|x: Run| x@);
                out_runs.push(self.runs[j2].duplicate());
                proof {
                    assert(out_runs@.map_values(|x: Run| x@) =~= before.push(pre.runs[j2 as int]));
                }
            }
            j2 = j2 + 1;
        }
        proof {
            assert(pre.runs.subrange(0, pre.runs.len() as int) =~= pre.runs);
        }
        self.runs = out_runs;

        let ghost wp = |x: WaitV| !(x.queue_name == queue@ && in_ids(delv, x.task_id));
        let mut out_waits: Vec<Wait> = Vec::new();
        let mut j3: usize = 0;
        while j3 < self.waits.len()
            invariant
                0 <= j3 <= self.waits.len(),
                self@.waits == pre.waits,
                delv == del.deep_view(),
                wp == (|x: WaitV| !(x.queue_name == queue@ && in_ids(delv, x.task_id))),
                out_waits@.map_values(|x: Wait| x@) == pre.waits.subrange(0, j3 as int).filter(wp),
            decreases self.waits.len() - j3,
        {
            proof {
                lemma_filter_step(pre.waits, wp, j3 as int);
            }
            let keep = !(self.waits[j3].queue_name.eq(queue) && contains_id(
                &del,
                &self.waits[j3].task_id,
            ));
            if keep {
                let ghost before = out_waits@.map_values(|x: Wait| x@);
                out_waits.push(self.waits[j3].duplicate());
                proof {
                    assert(out_waits@.map_values(|x: Wait| x@) =~= before.push(
                        pre.waits[j3 as int],
                    ));
                }
            }
            j3 = j3 + 1;
        }
        proof {
            assert(pre.waits.subrange(0, pre.waits.len() as int) =~= pre.waits);
        }
        self.waits = out_waits;

        let ghost cpred = |x: CheckpointV| !(x.queue_name == queue@ && in_ids(delv, x.task_id));
        let mut out_cps: Vec<Checkpoint> = Vec::new();
        let mut j4: usize = 0;
        while j4 < self.checkpoints.len()
            invariant
                0 <= j4 <= self.checkpoints.len(),
                self@.checkpoints == pre.checkpoints,
                delv == del.deep_view(),
                cpred == (|x: CheckpointV| !(x.queue_name == queue@ && in_ids(delv, x.task_id))),
                out_cps@.map_values(|x: Checkpoint| x@) == pre.checkpoints.subrange(
                    0,
                    j4 as int,
                ).filter(cpred),
            decreases self.checkpoints.len() - j4,
        {
            proof {
                lemma_filter_step(pre.checkpoints, cpred, j4 as int);
            }
            let keep = !(self.checkpoints[j4].queue_name.eq(queue) && contains_id(
                &del,
                &self.checkpoints[j4].task_id,
            ));
            if keep {
                let ghost before = out_cps@.map_values(|x: Checkpoint| x@);
                out_cps.push(self.checkpoints[j4].duplicate());
                proof {
                    assert(out_cps@.map_values(|x: Checkpoint| x@) =~= before.push(
                        pre.checkpoints[j4 as int],
                    ));
                }
            }
            j4 = j4 + 1;
        }
        proof {
            assert(pre.checkpoints.subrange(0, pre.checkpoints.len() as int) =~= pre.checkpoints);
        }
        self.checkpoints = out_cps;
        Ok(count)
    }

    /// Delete up to `limit` (default 1000) events of the queue emitted
    /// before `now - ttl_secs`, in table order, and return how many went
    /// away.
    #[verifier::rlimit(100)]
    #[verifier::spinoff_prover]
    pub fn cleanup_events(
        &mut self,
        queue: &String,
        ttl_secs: i64,
        limit: Option<i64>,
        now: i64,
    ) -> (r: Result<i64, EngineError>)
        requires
            old(self)@.wf(),
        ensures
            final(self)@.wf(),
            r is Err ==> final(self)@ == old(self)@,
            ({
                let lim = match limit {
                    Some(v) => v,
                    None => 1000,
                };
                if !spec_queue_name_ok(queue@) || ttl_secs < 0 || lim < 1 {
                    r == Err::<i64, EngineError>(EngineError::Validation)
                } else {
                    let cutoff = crate::clamp_i64(
                        now - crate::spec_secs_to_ms(ttl_secs as int),
                    ) as i64;
                    let del = doomed_event_names(old(self)@.events, queue@, cutoff, lim as int, 0);
                    &&& r == Ok::<i64, EngineError>(del.len() as i64)
                    &&& final(self)@ == (DbV {
                        events: old(self)@.events.filter(
                            |x: EventV| !(x.queue_name == queue@ && in_ids(del, x.event_name)),
                        ),
                        ..old(self)@
                    })
                }
            }),
    {
        match validate::queue_name(queue.as_str()) {
            Err(e) => {
                return Err(e);
            },
            Ok(u) => {},
        }
        if ttl_secs < 0 {
            return Err(EngineError::Validation);
        }
        let lim: i64 = match limit {
            Some(v) => v,
            None => 1000,
        };
        if lim < 1 {
            return Err(EngineError::Validation);
        }
        let ghost pre = self@;
        let ms = crate::secs_to_ms(ttl_secs);
        let cutoff = crate::add_sat(now, -ms);
        proof {
            assert(cutoff == crate::clamp_i64(now - crate::spec_secs_to_ms(ttl_secs as int)));
        }

        // pick the doomed event names in table order, within the budget
        let mut del: Vec<String> = Vec::new();
        let mut budget: i64 = lim;
        let mut k: usize = 0;
        while k < self.events.len() && budget != 0
            invariant
                0 <= k <= self.events.len(),
                self@ == pre,
                self@.wf(),
                0 <= budget <= lim,
                budget == lim - del@.len(),
                doomed_event_names(pre.events, queue@, cutoff, lim as int, 0) == del.deep_view()
                    + doomed_event_names(pre.events, queue@, cutoff, budget as int, k as int),
            decreases self.events.len() - k,
        {
            let hit = self.events[k].queue_name.eq(queue) && self.events[k].emitted_at < cutoff;
            if hit {
                let ghost before = del.deep_view();
                del.push(self.events[k].event_name.clone());
                proof {
                    assert(del.deep_view() =~= before.push(pre.events[k as int].event_name));
                    assert(seq![pre.events[k as int].event_name] + doomed_event_names(
                        pre.events,
                        queue@,
                        cutoff,
                        budget as int - 1,
                        k as int + 1,
                    ) =~= Seq::<Seq<char>>::empty().push(pre.events[k as int].event_name)
                        + doomed_event_names(
                        pre.events,
                        queue@,
                        cutoff,
                        budget as int - 1,
                        k as int + 1,
                    ));
                    assert(before + (Seq::<Seq<char>>::empty().push(
                        pre.events[k as int].event_name,
                    ) + doomed_event_names(pre.events, queue@, cutoff, budget as int - 1, k as int
                        + 1)) =~= del.deep_view() + doomed_event_names(
                        pre.events,
                        queue@,
                        cutoff,
                        budget as int - 1,
                        k as int + 1,
                    ));
                }
                budget = budget - 1;
            }
            k = k + 1;
        }
        proof {
            assert(doomed_event_names(pre.events, queue@, cutoff, budget as int, k as int)
                =~= Seq::<Seq<char>>::empty());
            assert(del.deep_view() + Seq::<Seq<char>>::empty() =~= del.deep_view());
            assert(del.deep_view() == doomed_event_names(pre.events, queue@, cutoff, lim as int, 0));
        }
        let ghost delv = del.deep_view();
        let count: i64 = lim - budget;

        // drop the doomed events
        let ghost ep = |x: EventV| !(x.queue_name == queue@ && in_ids(delv, x.event_name));
        let mut out: Vec<Event> = Vec::new();
        let mut j: usize = 0;
        while j < self.events.len()
            invariant
                0 <= j <= self.events.len(),
                self@.events == pre.events,
                delv == del.deep_view(),
                ep == (|x: EventV| !(x.queue_name == queue@ && in_ids(delv, x.event_name))),
                out@.map_values(|x: Event| x@) == pre.events.subrange(0, j as int).filter(ep),
            decreases self.events.len() - j,
        {
            proof {
                lemma_filter_step(pre.events, ep, j as int);
            }
            let keep = !(self.events[j].queue_name.eq(queue) && contains_id(
                &del,
                &self.events[j].event_name,
            ));
            if keep {
                let ghost before = out@.map_values(|x: Event| x@);
                out.push(self.events[j].duplicate());
                proof {
                    assert(out@.map_values(|x: Event| x@) =~= before.push(pre.events[j as int]));
                }
            }
            j = j + 1;
        }
        proof {
            assert(pre.events.subrange(0, pre.events.len() as int) =~= pre.events);
        }
        self.events = out;
        proof {
            let db2 = self@;
            assert forall|a: int, b: int|
                0 <= a < pre.events.len() && 0 <= b < pre.events.len() && a != b
                implies pre.events[a] != pre.events[b] by {
                if pre.events[a] == pre.events[b] {
                    assert(pre.events[a].queue_name == pre.events[b].queue_name
                        && pre.events[a].event_name == pre.events[b].event_name);
                }
            }
            lemma_filter_no_dups(pre.events, ep);
            lemma_filter_sub(pre.events, ep);
            assert(db2.keys_unique()) by {
                assert forall|a: int, b: int|
                    0 <= a < db2.events.len() && 0 <= b < db2.events.len()
                        && db2.events[a].queue_name == db2.events[b].queue_name
                        && db2.events[a].event_name == db2.events[b].event_name implies a == b by {
                    if a != b {
                        let x = choose|x: int|
                            0 <= x < pre.events.len() && pre.events[x] == db2.events[a];
                        let y = choose|y: int|
                            0 <= y < pre.events.len() && pre.events[y] == db2.events[b];
                        assert(x == y);
                    }
                }
            }
            assert forall|kk: int| 0 <= kk < db2.tasks.len() implies db2.task_ok(
                #[trigger] db2.tasks[kk],
            ) by {
                let tk = db2.tasks[kk];
                assert(pre.task_ok(tk));
                let oli = pre.run_idx(tk.queue_name, tk.last_attempt_run);
                assert(pre.is_run_at(oli, tk.queue_name, tk.last_attempt_run));
                db2.lemma_run_idx_is(oli, tk.queue_name, tk.last_attempt_run);
            }
            assert forall|kk: int| 0 <= kk < db2.runs.len() implies db2.run_ok(
                #[trigger] db2.runs[kk],
            ) by {
                assert(pre.run_ok(pre.runs[kk]));
                let tki = pre.task_idx(pre.runs[kk].queue_name, pre.runs[kk].task_id);
                assert(pre.is_task_at(tki, pre.runs[kk].queue_name, pre.runs[kk].task_id));
                assert(db2.is_task_at(tki, db2.runs[kk].queue_name, db2.runs[kk].task_id));
            }
            assert forall|kk: int| 0 <= kk < db2.waits.len() implies db2.wait_ok(
                #[trigger] db2.waits[kk],
            ) by {
                let wk = db2.waits[kk];
                assert(pre.wait_ok(wk));
                let ri = pre.run_idx(wk.queue_name, wk.run_id);
                assert(pre.is_run_at(ri, wk.queue_name, wk.run_id));
                db2.lemma_run_idx_is(ri, wk.queue_name, wk.run_id);
            }
        }
        Ok(count)
    }
}

/// The names of the first `limit` doomed events, in table order.
pub open spec fn doomed_event_names(
    events: Seq<EventV>,
    q: Seq<char>,
    cutoff: i64,
    limit: int,
    i: int,
) -> Seq<Seq<char>>
    decreases events.len() - i,
{
    if i < 0 || i >= events.len() || limit <= 0 {
        Seq::empty()
    } else if events[i].queue_name == q && events[i].emitted_at < cutoff {
        seq![events[i].event_name] + doomed_event_names(events, q, cutoff, limit - 1, i + 1)
    } else {
        doomed_event_names(events, q, cutoff, limit, i + 1)
    }
}

/// Membership of an id in the doomed list.
fn contains_id(ids: &Vec<String>, tid: &String) -> (b: bool)
    ensures
        b == in_ids(ids.deep_view(), tid@),
{
    let mut i: usize = 0;
    while i < ids.len()
        invariant
            0 <= i <= ids.len(),
            forall|x: int| 0 <= x < i ==> ids.deep_view()[x] != tid@,
        decreases ids.len() - i,
    {
        if ids[i].eq(tid) {
            proof {
                assert(ids.deep_view()[i as int] == tid@);
            }
            return true;
        }
        i = i + 1;
    }
    false
}

} // verus!
