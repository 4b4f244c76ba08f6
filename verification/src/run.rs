use crate::db::Db;
use crate::db::DbV;
use crate::db::lemma_filter_sub;
use crate::db::lemma_waits_filter_key_unique;
use crate::json::is_json;
use crate::rows::Run;
use crate::rows::RunV;
use crate::rows::Task;
use crate::rows::TaskV;
use crate::rows::WaitV;
use crate::state::EngineError;
use crate::state::RunState;
use crate::state::TaskState;
use crate::validate;
use crate::validate::spec_is_blank;
use crate::validate::spec_queue_name_ok;
use vstd::prelude::*;

verus! {

/// An absent or blank payload argument stands for "no payload".
pub open spec fn payload_norm(p: Option<Seq<char>>) -> Option<Seq<char>> {
    match p {
        Some(s) => if spec_is_blank(s) {
            None
        } else {
            Some(s)
        },
        None => None,
    }
}

/// Normalize an optional payload argument, copying the text.
pub fn payload_arg(p: &Option<String>) -> (r: Option<String>)
    ensures
        r.deep_view() == payload_norm(p.deep_view()),
{
    match p {
        Some(s) => {
            if validate::is_blank(s.as_str()) {
                None
            } else {
                Some(s.clone())
            }
        },
        None => None,
    }
}

/// The completed copy of a running run: terminal, stamped, its result
/// stored and its claim released.
pub open spec fn completed_run(r: RunV, payload: Option<Seq<char>>, now: i64) -> RunV {
    RunV {
        state: RunState::Completed,
        completed_at: Some(now),
        result: payload,
        claimed_by: None,
        claim_expires_at: None,
        ..r
    }
}

/// The completed copy of the task owning the run.
pub open spec fn completed_task(t: TaskV, rid: Seq<char>, payload: Option<Seq<char>>) -> TaskV {
    TaskV { state: TaskState::Completed, completed_payload: payload, last_attempt_run: rid, ..t }
}

/// All waits of one run, dropped.
pub open spec fn drop_run_waits(waits: Seq<WaitV>, q: Seq<char>, rid: Seq<char>) -> Seq<WaitV> {
    waits.filter(|w: WaitV| !(w.queue_name == q && w.run_id == rid))
}

/// `complete_run`: require the run to exist and to be `running`; mark run
/// and task `completed`, store the result on both, and drop the run's
/// waits.
pub open spec fn complete_tr(
    db: DbV,
    q: Seq<char>,
    rid: Seq<char>,
    payload: Option<Seq<char>>,
    now: i64,
) -> Result<DbV, EngineError> {
    if !db.has_run(q, rid) {
        Err(EngineError::NotFound)
    } else {
        let i = db.run_idx(q, rid);
        let r = db.runs[i];
        if r.state != RunState::Running {
            Err(EngineError::WrongState)
        } else {
            let ti = db.task_idx(q, r.task_id);
            let t = db.tasks[ti];
            Ok(
                DbV {
                    runs: db.runs.update(i, completed_run(r, payload, now)),
                    tasks: db.tasks.update(ti, completed_task(t, rid, payload)),
                    waits: drop_run_waits(db.waits, q, rid),
                    ..db
                },
            )
        }
    }
}

/// In a well-formed store, a live (non-terminal) run is the latest run of
/// its task, and that task is live in the matching state.
pub proof fn lemma_live_run_is_latest(db: DbV, i: int)
    requires
        db.wf(),
        0 <= i < db.runs.len(),
        !db.runs[i].state.spec_is_terminal(),
    ensures
        db.has_task(db.runs[i].queue_name, db.runs[i].task_id),
        ({
            let t = db.tasks[db.task_idx(db.runs[i].queue_name, db.runs[i].task_id)];
            &&& !t.state.spec_is_terminal()
            &&& t.state == crate::state::task_state_of_run(db.runs[i].state)
            &&& t.last_attempt_run == db.runs[i].run_id
            &&& t.attempts == db.runs[i].attempt
            &&& t.cancelled_at is None
        }),
{
    let r = db.runs[i];
    assert(db.run_ok(r));
    let ti = db.task_idx(r.queue_name, r.task_id);
    assert(db.is_task_at(ti, r.queue_name, r.task_id));
    let t = db.tasks[ti];
    assert(db.task_ok(t));
    if t.state.spec_is_terminal() {
        assert(db.runs[i].state.spec_is_terminal());
    }
    let li = db.run_idx(t.queue_name, t.last_attempt_run);
    assert(db.is_run_at(li, t.queue_name, t.last_attempt_run));
    let lr = db.runs[li];
    assert(!lr.state.spec_is_terminal());
    assert(lr.task_id == t.task_id);
    assert(li == i);
}

/// Completing a running run preserves well-formedness.
pub proof fn lemma_complete_wf(
    db: DbV,
    q: Seq<char>,
    rid: Seq<char>,
    payload: Option<Seq<char>>,
    now: i64,
)
    requires
        db.wf(),
        db.has_run(q, rid),
        db.runs[db.run_idx(q, rid)].state == RunState::Running,
    ensures
        complete_tr(db, q, rid, payload, now) matches Ok(db2) && db2.wf(),
{
    let i = db.run_idx(q, rid);
    assert(db.is_run_at(i, q, rid));
    let r = db.runs[i];
    lemma_live_run_is_latest(db, i);
    let ti = db.task_idx(q, r.task_id);
    assert(db.is_task_at(ti, q, r.task_id));
    let t = db.tasks[ti];
    let r2 = completed_run(r, payload, now);
    let t2 = completed_task(t, rid, payload);
    let db2 = complete_tr(db, q, rid, payload, now)->Ok_0;
    assert(db2.runs == db.runs.update(i, r2));
    assert(db2.tasks == db.tasks.update(ti, t2));

    // Unique keys carry over: updates keep their keys, deletion only
    // removes rows.
    lemma_waits_filter_key_unique(db.waits, |w: WaitV| !(w.queue_name == q && w.run_id == rid));
    lemma_filter_sub(db.waits, |w: WaitV| !(w.queue_name == q && w.run_id == rid));
    assert(db2.keys_unique());
    assert(db2.single_active());

    assert forall|k: int| 0 <= k < db2.tasks.len() implies db2.task_ok(#[trigger] db2.tasks[k]) by {
        let tk = db2.tasks[k];
        let old_tk = db.tasks[k];
        assert(db.task_ok(old_tk));
        let oli = db.run_idx(old_tk.queue_name, old_tk.last_attempt_run);
        assert(db.is_run_at(oli, old_tk.queue_name, old_tk.last_attempt_run));
        if k == ti {
            db2.lemma_run_idx_is(i, q, rid);
        } else {
            // another task; its latest run is not the run at `i`
            if oli == i {
                assert(db.runs[i].task_id == old_tk.task_id);
                assert(db.is_task_at(k, q, r.task_id));
            }
            db2.lemma_run_idx_is(oli, tk.queue_name, tk.last_attempt_run);
        }
    }

    assert forall|k: int| 0 <= k < db2.runs.len() implies db2.run_ok(#[trigger] db2.runs[k]) by {
        let rk = db2.runs[k];
        assert(db.run_ok(db.runs[k]));
        assert(db.is_task_at(db.task_idx(db.runs[k].queue_name, db.runs[k].task_id),
            db.runs[k].queue_name, db.runs[k].task_id));
        let tki = db.task_idx(db.runs[k].queue_name, db.runs[k].task_id);
        assert(db2.is_task_at(tki, rk.queue_name, rk.task_id));
    }

    assert forall|k: int| 0 <= k < db2.waits.len() implies db2.wait_ok(#[trigger] db2.waits[k]) by {
        let pred = |w: WaitV| !(w.queue_name == q && w.run_id == rid);
        assert(db.waits.contains(db2.waits[k]));
        let wk = db2.waits[k];
        assert(pred(wk));
        let a = choose|a: int| 0 <= a < db.waits.len() && db.waits[a] == wk;
        assert(db.wait_ok(wk));
        let ri = db.run_idx(wk.queue_name, wk.run_id);
        assert(db.is_run_at(ri, wk.queue_name, wk.run_id));
        assert(ri != i);
        db2.lemma_run_idx_is(ri, wk.queue_name, wk.run_id);
    }
}

/// `schedule_run`: require the run to exist and to be `running`; move the
/// run to `sleeping` until `wake_at`, release its claim and pending wake
/// event, and move the task to `sleeping`.
pub open spec fn schedule_tr(db: DbV, q: Seq<char>, rid: Seq<char>, wake_at: i64) -> Result<
    DbV,
    EngineError,
> {
    if !db.has_run(q, rid) {
        Err(EngineError::NotFound)
    } else {
        let i = db.run_idx(q, rid);
        let r = db.runs[i];
        if r.state != RunState::Running {
            Err(EngineError::WrongState)
        } else {
            let ti = db.task_idx(q, r.task_id);
            let t = db.tasks[ti];
            let r2 = RunV {
                state: RunState::Sleeping,
                claimed_by: None,
                claim_expires_at: None,
                available_at: wake_at,
                wake_event: None,
                ..r
            };
            let t2 = TaskV { state: TaskState::Sleeping, ..t };
            Ok(DbV { runs: db.runs.update(i, r2), tasks: db.tasks.update(ti, t2), ..db })
        }
    }
}

/// Scheduling a running run preserves well-formedness.
pub proof fn lemma_schedule_wf(db: DbV, q: Seq<char>, rid: Seq<char>, wake_at: i64)
    requires
        db.wf(),
        db.has_run(q, rid),
        db.runs[db.run_idx(q, rid)].state == RunState::Running,
    ensures
        schedule_tr(db, q, rid, wake_at) matches Ok(db2) && db2.wf(),
{
    let i = db.run_idx(q, rid);
    assert(db.is_run_at(i, q, rid));
    let r = db.runs[i];
    lemma_live_run_is_latest(db, i);
    let ti = db.task_idx(q, r.task_id);
    assert(db.is_task_at(ti, q, r.task_id));
    let t = db.tasks[ti];
    let db2 = schedule_tr(db, q, rid, wake_at)->Ok_0;
    assert(db2.keys_unique());
    assert(db2.single_active());
    assert forall|k: int| 0 <= k < db2.tasks.len() implies db2.task_ok(#[trigger] db2.tasks[k]) by {
        let tk = db2.tasks[k];
        let old_tk = db.tasks[k];
        assert(db.task_ok(old_tk));
        let oli = db.run_idx(old_tk.queue_name, old_tk.last_attempt_run);
        assert(db.is_run_at(oli, old_tk.queue_name, old_tk.last_attempt_run));
        if k == ti {
            db2.lemma_run_idx_is(i, q, rid);
        } else {
            if oli == i {
                assert(db.runs[i].task_id == old_tk.task_id);
                assert(db.is_task_at(k, q, r.task_id));
            }
            db2.lemma_run_idx_is(oli, tk.queue_name, tk.last_attempt_run);
        }
    }
    assert forall|k: int| 0 <= k < db2.runs.len() implies db2.run_ok(#[trigger] db2.runs[k]) by {
        assert(db.run_ok(db.runs[k]));
        let tki = db.task_idx(db.runs[k].queue_name, db.runs[k].task_id);
        assert(db.is_task_at(tki, db.runs[k].queue_name, db.runs[k].task_id));
        assert(db2.is_task_at(tki, db2.runs[k].queue_name, db2.runs[k].task_id));
    }
    assert forall|k: int| 0 <= k < db2.waits.len() implies db2.wait_ok(#[trigger] db2.waits[k]) by {
        let wk = db2.waits[k];
        assert(db.wait_ok(wk));
        let ri = db.run_idx(wk.queue_name, wk.run_id);
        assert(db.is_run_at(ri, wk.queue_name, wk.run_id));
        db2.lemma_run_idx_is(ri, wk.queue_name, wk.run_id);
    }
}

/// `extend_claim`: require the run to exist, its task not to be
/// cancelled, and the run to be `running` under a deadline; move the
/// deadline to `now + extend_by` seconds.
pub open spec fn extend_claim_tr(
    db: DbV,
    q: Seq<char>,
    rid: Seq<char>,
    extend_by_secs: i64,
    now: i64,
) -> Result<DbV, EngineError> {
    if !db.has_run(q, rid) {
        Err(EngineError::NotFound)
    } else {
        let i = db.run_idx(q, rid);
        let r = db.runs[i];
        let t = db.tasks[db.task_idx(q, r.task_id)];
        if t.state == TaskState::Cancelled {
            Err(EngineError::Cancelled)
        } else if r.state != RunState::Running || r.claim_expires_at is None {
            Err(EngineError::WrongState)
        } else {
            let deadline = crate::clamp_i64(now + crate::spec_secs_to_ms(extend_by_secs as int));
            let r2 = RunV { claim_expires_at: Some(deadline as i64), ..r };
            Ok(DbV { runs: db.runs.update(i, r2), ..db })
        }
    }
}

/// Extending a claim preserves well-formedness.
pub proof fn lemma_extend_claim_wf(
    db: DbV,
    q: Seq<char>,
    rid: Seq<char>,
    extend_by_secs: i64,
    now: i64,
)
    requires
        db.wf(),
        extend_claim_tr(db, q, rid, extend_by_secs, now) is Ok,
    ensures
        extend_claim_tr(db, q, rid, extend_by_secs, now) matches Ok(db2) && db2.wf(),
{
    let i = db.run_idx(q, rid);
    assert(db.is_run_at(i, q, rid));
    let r = db.runs[i];
    lemma_live_run_is_latest(db, i);
    let db2 = extend_claim_tr(db, q, rid, extend_by_secs, now)->Ok_0;
    assert(db2.keys_unique());
    assert(db2.single_active());
    assert forall|k: int| 0 <= k < db2.tasks.len() implies db2.task_ok(#[trigger] db2.tasks[k]) by {
        let tk = db2.tasks[k];
        assert(db.task_ok(tk));
        let oli = db.run_idx(tk.queue_name, tk.last_attempt_run);
        assert(db.is_run_at(oli, tk.queue_name, tk.last_attempt_run));
        db2.lemma_run_idx_is(oli, tk.queue_name, tk.last_attempt_run);
    }
    assert forall|k: int| 0 <= k < db2.runs.len() implies db2.run_ok(#[trigger] db2.runs[k]) by {
        assert(db.run_ok(db.runs[k]));
        let tki = db.task_idx(db.runs[k].queue_name, db.runs[k].task_id);
        assert(db.is_task_at(tki, db.runs[k].queue_name, db.runs[k].task_id));
        assert(db2.is_task_at(tki, db2.runs[k].queue_name, db2.runs[k].task_id));
    }
    assert forall|k: int| 0 <= k < db2.waits.len() implies db2.wait_ok(#[trigger] db2.waits[k]) by {
        let wk = db2.waits[k];
        assert(db.wait_ok(wk));
        let ri = db.run_idx(wk.queue_name, wk.run_id);
        assert(db.is_run_at(ri, wk.queue_name, wk.run_id));
        db2.lemma_run_idx_is(ri, wk.queue_name, wk.run_id);
    }
}

/// The cancelled copy of the run table: every live run of the task is
/// cancelled and released.
pub open spec fn cancel_runs_map(runs: Seq<RunV>, q: Seq<char>, tid: Seq<char>) -> Seq<RunV> {
    Seq::new(
        runs.len(),
        |k: int|
            if runs[k].queue_name == q && runs[k].task_id == tid
                && !runs[k].state.spec_is_terminal() {
                RunV {
                    state: RunState::Cancelled,
                    claimed_by: None,
                    claim_expires_at: None,
                    ..runs[k]
                }
            } else {
                runs[k]
            },
    )
}

/// `cancel_task`: a missing task is an error; a terminal task is left
/// alone; otherwise the task and its live runs become `cancelled` and the
/// task's waits are dropped.
pub open spec fn cancel_task_tr(db: DbV, q: Seq<char>, tid: Seq<char>, now: i64) -> Result<
    DbV,
    EngineError,
> {
    if !db.has_task(q, tid) {
        Err(EngineError::NotFound)
    } else {
        let ti = db.task_idx(q, tid);
        let t = db.tasks[ti];
        if t.state.spec_is_terminal() {
            Ok(db)
        } else {
            let t2 = TaskV {
                state: TaskState::Cancelled,
                cancelled_at: match t.cancelled_at {
                    Some(v) => Some(v),
                    None => Some(now),
                },
                ..t
            };
            Ok(
                DbV {
                    tasks: db.tasks.update(ti, t2),
                    runs: cancel_runs_map(db.runs, q, tid),
                    waits: db.waits.filter(|w: WaitV| !(w.queue_name == q && w.task_id == tid)),
                    ..db
                },
            )
        }
    }
}

/// Cancelling a task preserves well-formedness.
pub proof fn lemma_cancel_task_wf(db: DbV, q: Seq<char>, tid: Seq<char>, now: i64)
    requires
        db.wf(),
        db.has_task(q, tid),
    ensures
        cancel_task_tr(db, q, tid, now) matches Ok(db2) && db2.wf(),
{
    let ti = db.task_idx(q, tid);
    assert(db.is_task_at(ti, q, tid));
    let t = db.tasks[ti];
    if t.state.spec_is_terminal() {
    } else {
        let db2 = cancel_task_tr(db, q, tid, now)->Ok_0;
        lemma_waits_filter_key_unique(db.waits, |w: WaitV| !(w.queue_name == q && w.task_id == tid));
        lemma_filter_sub(db.waits, |w: WaitV| !(w.queue_name == q && w.task_id == tid));
        assert(db2.keys_unique());
        assert(db2.single_active());
        assert forall|k: int| 0 <= k < db2.tasks.len() implies db2.task_ok(
            #[trigger] db2.tasks[k],
        ) by {
            let tk = db2.tasks[k];
            let old_tk = db.tasks[k];
            assert(db.task_ok(old_tk));
            let oli = db.run_idx(old_tk.queue_name, old_tk.last_attempt_run);
            assert(db.is_run_at(oli, old_tk.queue_name, old_tk.last_attempt_run));
            db2.lemma_run_idx_is(oli, tk.queue_name, tk.last_attempt_run);
            if k == ti {
                assert(db2.runs[oli].state.spec_is_terminal());
                assert forall|m: int|
                    0 <= m < db2.runs.len() && db2.runs[m].queue_name == tk.queue_name
                        && db2.runs[m].task_id == tk.task_id implies (
                #[trigger] db2.runs[m]).state.spec_is_terminal() by {
                    assert(db.runs[m].queue_name == q && db.runs[m].task_id == tid);
                }
            } else {
                // a different task: none of its runs is rewritten
                assert(!(old_tk.queue_name == q && old_tk.task_id == tid));
                if db.runs[oli].queue_name == q && db.runs[oli].task_id == tid {
                    assert(db.is_task_at(ti, old_tk.queue_name, old_tk.task_id));
                }
                assert(db2.runs[oli] == db.runs[oli]);
                if tk.state.spec_is_terminal() {
                    assert forall|m: int|
                        0 <= m < db2.runs.len() && db2.runs[m].queue_name == tk.queue_name
                            && db2.runs[m].task_id == tk.task_id implies (
                    #[trigger] db2.runs[m]).state.spec_is_terminal() by {
                        assert(db.runs[m].queue_name == tk.queue_name && db.runs[m].task_id
                            == tk.task_id);
                        assert(db.runs[m].state.spec_is_terminal());
                    }
                }
            }
        }
        assert forall|k: int| 0 <= k < db2.runs.len() implies db2.run_ok(#[trigger] db2.runs[k]) by {
            assert(db.run_ok(db.runs[k]));
            let tki = db.task_idx(db.runs[k].queue_name, db.runs[k].task_id);
            assert(db.is_task_at(tki, db.runs[k].queue_name, db.runs[k].task_id));
            assert(db2.is_task_at(tki, db2.runs[k].queue_name, db2.runs[k].task_id));
        }
        assert forall|k: int| 0 <= k < db2.waits.len() implies db2.wait_ok(
            #[trigger] db2.waits[k],
        ) by {
            let pred = |w: WaitV| !(w.queue_name == q && w.task_id == tid);
            assert(db.waits.contains(db2.waits[k]));
            let wk = db2.waits[k];
            assert(pred(wk));
            assert(db.wait_ok(wk));
            let ri = db.run_idx(wk.queue_name, wk.run_id);
            assert(db.is_run_at(ri, wk.queue_name, wk.run_id));
            assert(db2.runs[ri] == db.runs[ri]);
            db2.lemma_run_idx_is(ri, wk.queue_name, wk.run_id);
        }
    }
}

impl Db {
    /// Mark a running run completed, store `state_json` as its result and
    /// the task's final payload, and drop the run's waits. A blank or
    /// absent `state_json` stores no payload; a non-blank one must be
    /// valid JSON.
    pub fn complete_run(
        &mut self,
        queue: &String,
        run_id: &String,
        state_json: &Option<String>,
        now: i64,
    ) -> (r: Result<(), EngineError>)
        requires
            old(self)@.wf(),
        ensures
            final(self)@.wf(),
            r is Err ==> final(self)@ == old(self)@,
            ({
                let payload = payload_norm(state_json.deep_view());
                if !spec_queue_name_ok(queue@) {
                    r == Err::<(), EngineError>(EngineError::Validation)
                } else if payload matches Some(p) && !is_json(p) {
                    r == Err::<(), EngineError>(EngineError::Validation)
                } else {
                    match complete_tr(old(self)@, queue@, run_id@, payload, now) {
                        Ok(db2) => r == Ok::<(), EngineError>(()) && final(self)@ == db2,
                        Err(e) => r == Err::<(), EngineError>(e),
                    }
                }
            }),
    {
        match validate::queue_name(queue.as_str()) {
            Err(e) => {
                return Err(e);
            },
            Ok(u) => {
                proof {
                    assert(spec_queue_name_ok(queue@));
                }
            },
        }
        let payload = payload_arg(state_json);
        if let Some(p) = &payload {
            if !crate::json::check_json(p) {
                return Err(EngineError::Validation);
            }
        }
        let i = match self.find_run(queue, run_id) {
            Some(i) => i,
            None => {
                return Err(EngineError::NotFound);
            },
        };
        proof {
            self@.lemma_run_idx_is(i as int, queue@, run_id@);
        }
        if !matches!(self.runs[i].state, RunState::Running) {
            return Err(EngineError::WrongState);
        }
        let ti = match self.find_task(queue, &self.runs[i].task_id) {
            Some(ti) => ti,
            None => {
                proof {
                    assert(self@.run_ok(self@.runs[i as int]));
                    assert(false);
                }
                return Err(EngineError::NotFound);
            },
        };
        proof {
            self@.lemma_task_idx_is(ti as int, queue@, self@.runs[i as int].task_id);
            lemma_complete_wf(self@, queue@, run_id@, payload.deep_view(), now);
        }
        let r2 = Run {
            state: RunState::Completed,
            completed_at: Some(now),
            result: crate::state::clone_opt_string(&payload),
            claimed_by: None,
            claim_expires_at: None,
            ..self.runs[i].duplicate()
        };
        let t2 = Task {
            state: TaskState::Completed,
            completed_payload: payload,
            last_attempt_run: run_id.clone(),
            ..self.tasks[ti].duplicate()
        };
        self.set_run(i, r2);
        self.set_task(ti, t2);
        self.delete_waits_of_run(queue, run_id);
        Ok(())
    }

    /// Move a running run to `sleeping` until `wake_at`, releasing its
    /// claim, and move its task to `sleeping`.
    pub fn schedule_run(&mut self, queue: &String, run_id: &String, wake_at: i64) -> (r: Result<
        (),
        EngineError,
    >)
        requires
            old(self)@.wf(),
        ensures
            final(self)@.wf(),
            r is Err ==> final(self)@ == old(self)@,
            ({
                if !spec_queue_name_ok(queue@) {
                    r == Err::<(), EngineError>(EngineError::Validation)
                } else {
                    match schedule_tr(old(self)@, queue@, run_id@, wake_at) {
                        Ok(db2) => r == Ok::<(), EngineError>(()) && final(self)@ == db2,
                        Err(e) => r == Err::<(), EngineError>(e),
                    }
                }
            }),
    {
        match validate::queue_name(queue.as_str()) {
            Err(e) => {
                return Err(e);
            },
            Ok(u) => {},
        }
        let i = match self.find_run(queue, run_id) {
            Some(i) => i,
            None => {
                return Err(EngineError::NotFound);
            },
        };
        proof {
            self@.lemma_run_idx_is(i as int, queue@, run_id@);
        }
        if !matches!(self.runs[i].state, RunState::Running) {
            return Err(EngineError::WrongState);
        }
        let ti = match self.find_task(queue, &self.runs[i].task_id) {
            Some(ti) => ti,
            None => {
                proof {
                    assert(self@.run_ok(self@.runs[i as int]));
                    assert(false);
                }
                return Err(EngineError::NotFound);
            },
        };
        proof {
            self@.lemma_task_idx_is(ti as int, queue@, self@.runs[i as int].task_id);
            lemma_schedule_wf(self@, queue@, run_id@, wake_at);
        }
        let r2 = Run {
            state: RunState::Sleeping,
            claimed_by: None,
            claim_expires_at: None,
            available_at: wake_at,
            wake_event: None,
            ..self.runs[i].duplicate()
        };
        let t2 = Task { state: TaskState::Sleeping, ..self.tasks[ti].duplicate() };
        self.set_run(i, r2);
        self.set_task(ti, t2);
        Ok(())
    }

    /// Push a running run's claim deadline to `now + extend_by_secs`,
    /// unless its task was cancelled.
    pub fn extend_claim(
        &mut self,
        queue: &String,
        run_id: &String,
        extend_by_secs: i64,
        now: i64,
    ) -> (r: Result<(), EngineError>)
        requires
            old(self)@.wf(),
        ensures
            final(self)@.wf(),
            r is Err ==> final(self)@ == old(self)@,
            ({
                if !spec_queue_name_ok(queue@) {
                    r == Err::<(), EngineError>(EngineError::Validation)
                } else {
                    match extend_claim_tr(old(self)@, queue@, run_id@, extend_by_secs, now) {
                        Ok(db2) => r == Ok::<(), EngineError>(()) && final(self)@ == db2,
                        Err(e) => r == Err::<(), EngineError>(e),
                    }
                }
            }),
    {
        match validate::queue_name(queue.as_str()) {
            Err(e) => {
                return Err(e);
            },
            Ok(u) => {},
        }
        let i = match self.find_run(queue, run_id) {
            Some(i) => i,
            None => {
                return Err(EngineError::NotFound);
            },
        };
        proof {
            self@.lemma_run_idx_is(i as int, queue@, run_id@);
        }
        let ti = match self.find_task(queue, &self.runs[i].task_id) {
            Some(ti) => ti,
            None => {
                proof {
                    assert(self@.run_ok(self@.runs[i as int]));
                    assert(false);
                }
                return Err(EngineError::NotFound);
            },
        };
        proof {
            self@.lemma_task_idx_is(ti as int, queue@, self@.runs[i as int].task_id);
        }
        if matches!(self.tasks[ti].state, TaskState::Cancelled) {
            return Err(EngineError::Cancelled);
        }
        let has_deadline = self.runs[i].claim_expires_at.is_some();
        if !matches!(self.runs[i].state, RunState::Running) || !has_deadline {
            return Err(EngineError::WrongState);
        }
        let deadline = crate::add_sat(now, crate::secs_to_ms(extend_by_secs));
        proof {
            lemma_extend_claim_wf(self@, queue@, run_id@, extend_by_secs, now);
        }
        let r2 = Run { claim_expires_at: Some(deadline), ..self.runs[i].duplicate() };
        self.set_run(i, r2);
        Ok(())
    }

    /// Cancel a task: a terminal task is left alone; otherwise the task
    /// and all its live runs become `cancelled` and its waits are dropped.
    pub fn cancel_task(&mut self, queue: &String, task_id: &String, now: i64) -> (r: Result<
        (),
        EngineError,
    >)
        requires
            old(self)@.wf(),
        ensures
            final(self)@.wf(),
            r is Err ==> final(self)@ == old(self)@,
            ({
                if !spec_queue_name_ok(queue@) {
                    r == Err::<(), EngineError>(EngineError::Validation)
                } else {
                    match cancel_task_tr(old(self)@, queue@, task_id@, now) {
                        Ok(db2) => r == Ok::<(), EngineError>(()) && final(self)@ == db2,
                        Err(e) => r == Err::<(), EngineError>(e),
                    }
                }
            }),
    {
        match validate::queue_name(queue.as_str()) {
            Err(e) => {
                return Err(e);
            },
            Ok(u) => {},
        }
        let ti = match self.find_task(queue, task_id) {
            Some(ti) => ti,
            None => {
                return Err(EngineError::NotFound);
            },
        };
        proof {
            self@.lemma_task_idx_is(ti as int, queue@, task_id@);
            lemma_cancel_task_wf(self@, queue@, task_id@, now);
        }
        if self.tasks[ti].state.is_terminal() {
            return Ok(());
        }
        let cancelled_at = match self.tasks[ti].cancelled_at {
            Some(v) => Some(v),
            None => Some(now),
        };
        let t2 = Task {
            state: TaskState::Cancelled,
            cancelled_at,
            ..self.tasks[ti].duplicate()
        };
        self.set_task(ti, t2);
        let ghost pre_runs = self@.runs;
        proof {
            assert(pre_runs == old(self)@.runs);
        }
        let mut out: Vec<Run> = Vec::new();
        let mut j: usize = 0;
        while j < self.runs.len()
            invariant
                0 <= j <= self.runs.len(),
                out@.len() == j,
                pre_runs == self@.runs,
                forall|k: int|
                    0 <= k < j ==> out@[k]@ == cancel_runs_map(pre_runs, queue@, task_id@)[k],
            decreases self.runs.len() - j,
        {
            let hit = self.runs[j].queue_name.eq(queue) && self.runs[j].task_id.eq(task_id)
                && !self.runs[j].state.is_terminal();
            if hit {
                out.push(
                    Run {
                        state: RunState::Cancelled,
                        claimed_by: None,
                        claim_expires_at: None,
                        ..self.runs[j].duplicate()
                    },
                );
            } else {
                out.push(self.runs[j].duplicate());
            }
            j = j + 1;
        }
        self.runs = out;
        proof {
            assert(self@.runs =~= cancel_runs_map(pre_runs, queue@, task_id@));
        }
        self.delete_waits_of_task(queue, task_id);
        Ok(())
    }
}

} // verus!
