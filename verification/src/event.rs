use crate::checkpoint::committed_checkpoint;
use crate::checkpoint::lemma_upsert_checkpoint_wf;
use crate::checkpoint::upsert_checkpoint;
use crate::db::lemma_filter_sub;
use crate::db::lemma_filter_step;
use crate::db::lemma_waits_filter_key_unique;
use crate::db::Db;
use crate::db::DbV;
use crate::json::is_json;
use crate::rows::Event;
use crate::rows::EventV;
use crate::rows::Run;
use crate::rows::RunV;
use crate::rows::Task;
use crate::rows::TaskV;
use crate::rows::Wait;
use crate::rows::WaitV;
use crate::state::EngineError;
use crate::state::RunState;
use crate::state::TaskState;
use crate::validate;
use crate::validate::spec_is_blank;
use crate::validate::spec_name_ok;
use crate::validate::spec_queue_name_ok;
use vstd::prelude::*;

verus! {

/// The wake instant of a run sleeping on an event with no timeout: far
/// enough in the future never to be claimed by the clock.
pub const FAR_FUTURE_MS: i64 = 9223372036854775000;

/// What an await call tells the worker: suspend, or continue with the
/// resolved payload.
pub struct AwaitResult {
    pub should_suspend: i64,
    pub payload: Option<String>,
}

pub struct AwaitResultV {
    pub should_suspend: i64,
    pub payload: Option<Seq<char>>,
}

impl View for AwaitResult {
    type V = AwaitResultV;

    open spec fn view(&self) -> AwaitResultV {
        AwaitResultV { should_suspend: self.should_suspend, payload: self.payload.deep_view() }
    }
}

/// Make sure an event row exists so that later emits overwrite it: absent
/// events get a placeholder with no payload.
pub open spec fn ensure_event(db: DbV, q: Seq<char>, event: Seq<char>) -> DbV {
    if db.has_event(q, event) {
        db
    } else {
        DbV {
            events: db.events.push(
                EventV { queue_name: q, event_name: event, payload: None, emitted_at: 0 },
            ),
            ..db
        }
    }
}

/// Adding an event placeholder preserves well-formedness.
pub proof fn lemma_ensure_event_wf(db: DbV, q: Seq<char>, event: Seq<char>)
    requires
        db.wf(),
    ensures
        ensure_event(db, q, event).wf(),
        ensure_event(db, q, event).has_event(q, event),
{
    let db2 = ensure_event(db, q, event);
    if db.has_event(q, event) {
    } else {
        let n = db.events.len() as int;
        assert(db2.events[n].queue_name == q && db2.events[n].event_name == event);
        assert forall|i: int, j: int|
            0 <= i < db2.events.len() && 0 <= j < db2.events.len() && db2.events[i].queue_name
                == db2.events[j].queue_name && db2.events[i].event_name == db2.events[j].event_name
            implies i == j by {
            if i < n && j == n {
                assert(db.has_event(q, event));
            }
            if j < n && i == n {
                assert(db.has_event(q, event));
            }
        }
        assert(db2.keys_unique());
        assert forall|k: int| 0 <= k < db2.tasks.len() implies db2.task_ok(
            #[trigger] db2.tasks[k],
        ) by {
            let tk = db2.tasks[k];
            assert(db.task_ok(tk));
            let oli = db.run_idx(tk.queue_name, tk.last_attempt_run);
            assert(db.is_run_at(oli, tk.queue_name, tk.last_attempt_run));
            db2.lemma_run_idx_is(oli, tk.queue_name, tk.last_attempt_run);
        }
        assert forall|k: int| 0 <= k < db2.runs.len() implies db2.run_ok(#[trigger] db2.runs[k]) by {
            assert(db.run_ok(db.runs[k]));
            let tki = db.task_idx(db.runs[k].queue_name, db.runs[k].task_id);
            assert(db.is_task_at(tki, db.runs[k].queue_name, db.runs[k].task_id));
            assert(db2.is_task_at(tki, db2.runs[k].queue_name, db2.runs[k].task_id));
        }
        assert forall|k: int| 0 <= k < db2.waits.len() implies db2.wait_ok(
            #[trigger] db2.waits[k],
        ) by {
            let wk = db2.waits[k];
            assert(db.wait_ok(wk));
            let ri = db.run_idx(wk.queue_name, wk.run_id);
            assert(db.is_run_at(ri, wk.queue_name, wk.run_id));
            db2.lemma_run_idx_is(ri, wk.queue_name, wk.run_id);
        }
    }
}

/// Insert the wait row, or overwrite the row under the same key.
pub open spec fn upsert_wait(db: DbV, w: WaitV) -> DbV {
    if db.has_wait(w.queue_name, w.run_id, w.step_name) {
        DbV { waits: db.waits.update(db.wait_idx(w.queue_name, w.run_id, w.step_name), w), ..db }
    } else {
        DbV { waits: db.waits.push(w), ..db }
    }
}

/// The deadline an awaited event gets, and the matching wake instant.
pub open spec fn spec_timeout_at(timeout_secs: Option<i64>, now: i64) -> Option<i64> {
    match timeout_secs {
        Some(s) => Some(crate::clamp_i64(now + crate::spec_secs_to_ms(s as int)) as i64),
        None => None,
    }
}

/// `await_event`: replay a committed checkpoint if one exists; otherwise
/// the run must be a live worker of an uncancelled task. A pending or
/// freshly emitted payload resolves the step at once and is memoized as a
/// checkpoint; a re-await of a wake without payload resolves to nothing;
/// otherwise the run suspends on the event under a wait row.
pub open spec fn await_tr(
    db: DbV,
    q: Seq<char>,
    tid: Seq<char>,
    rid: Seq<char>,
    step: Seq<char>,
    event: Seq<char>,
    timeout_secs: Option<i64>,
    now: i64,
) -> Result<(DbV, AwaitResultV), EngineError> {
    if db.has_checkpoint(q, tid, step) && db.checkpoint_at(q, tid, step).state is Some {
        Ok((db, AwaitResultV { should_suspend: 0, payload: db.checkpoint_at(q, tid, step).state }))
    } else if !db.has_run(q, rid) {
        Err(EngineError::NotFound)
    } else {
        let i = db.run_idx(q, rid);
        let r = db.runs[i];
        if r.task_id != tid {
            Err(EngineError::NotFound)
        } else {
            let t = db.tasks[db.task_idx(q, r.task_id)];
            if t.state == TaskState::Cancelled {
                Err(EngineError::Cancelled)
            } else if r.state != RunState::Running {
                Err(EngineError::WrongState)
            } else {
                let db1 = ensure_event(db, q, event);
                let ev_payload = db1.event_at(q, event).payload;
                let had_pending = r.event_payload is Some;
                let db2 = if had_pending {
                    DbV { runs: db1.runs.update(i, RunV { event_payload: None, ..r }), ..db1 }
                } else {
                    db1
                };
                match ev_payload {
                    Some(p) => Ok(
                        (
                            upsert_checkpoint(
                                db2,
                                committed_checkpoint(q, tid, step, Some(p), rid, now),
                            ),
                            AwaitResultV { should_suspend: 0, payload: Some(p) },
                        ),
                    ),
                    None => {
                        if r.wake_event == Some(event) && !had_pending {
                            Ok(
                                (
                                    DbV {
                                        runs: db2.runs.update(i, RunV { wake_event: None, ..r }),
                                        ..db2
                                    },
                                    AwaitResultV { should_suspend: 0, payload: None },
                                ),
                            )
                        } else {
                            let timeout_at = spec_timeout_at(timeout_secs, now);
                            let avail = match timeout_at {
                                Some(v) => v,
                                None => FAR_FUTURE_MS,
                            };
                            let w = WaitV {
                                queue_name: q,
                                run_id: rid,
                                step_name: step,
                                task_id: r.task_id,
                                event_name: event,
                                timeout_at: timeout_at,
                                created_at: now,
                            };
                            let db3 = upsert_wait(db2, w);
                            let r2 = RunV {
                                state: RunState::Sleeping,
                                claimed_by: None,
                                claim_expires_at: None,
                                available_at: avail,
                                wake_event: Some(event),
                                event_payload: None,
                                ..r
                            };
                            let t2 = TaskV { state: TaskState::Sleeping, ..t };
                            Ok(
                                (
                                    DbV {
                                        runs: db3.runs.update(i, r2),
                                        tasks: db3.tasks.update(db.task_idx(q, r.task_id), t2),
                                        ..db3
                                    },
                                    AwaitResultV { should_suspend: 1, payload: None },
                                ),
                            )
                        }
                    },
                }
            }
        }
    }
}

/// Awaiting preserves well-formedness.
#[verifier::rlimit(100)]
#[verifier::spinoff_prover]
pub proof fn lemma_await_wf(
    db: DbV,
    q: Seq<char>,
    tid: Seq<char>,
    rid: Seq<char>,
    step: Seq<char>,
    event: Seq<char>,
    timeout_secs: Option<i64>,
    now: i64,
)
    requires
        db.wf(),
    ensures
        await_tr(db, q, tid, rid, step, event, timeout_secs, now) matches Ok(o) ==> o.0.wf(),
{
    if await_tr(db, q, tid, rid, step, event, timeout_secs, now) is Err {
    } else if db.has_checkpoint(q, tid, step) && db.checkpoint_at(q, tid, step).state is Some {
    } else {
        let i = db.run_idx(q, rid);
        assert(db.is_run_at(i, q, rid));
        let r = db.runs[i];
        crate::run::lemma_live_run_is_latest(db, i);
        let ti = db.task_idx(q, r.task_id);
        assert(db.is_task_at(ti, q, r.task_id));
        let t = db.tasks[ti];
        lemma_ensure_event_wf(db, q, event);
        let db1 = ensure_event(db, q, event);
        assert(db1.runs == db.runs && db1.tasks == db.tasks && db1.waits == db.waits);
        let had_pending = r.event_payload is Some;
        let db2 = if had_pending {
            DbV { runs: db1.runs.update(i, RunV { event_payload: None, ..r }), ..db1 }
        } else {
            db1
        };
        // clearing the pending payload touches no field any invariant
        // reads
        assert(db2.wf()) by {
            assert(db2.keys_unique());
            assert(db2.single_active());
            assert forall|k: int| 0 <= k < db2.tasks.len() implies db2.task_ok(
                #[trigger] db2.tasks[k],
            ) by {
                let tk = db2.tasks[k];
                assert(db1.task_ok(tk));
                let oli = db1.run_idx(tk.queue_name, tk.last_attempt_run);
                assert(db1.is_run_at(oli, tk.queue_name, tk.last_attempt_run));
                db2.lemma_run_idx_is(oli, tk.queue_name, tk.last_attempt_run);
            }
            assert forall|k: int| 0 <= k < db2.runs.len() implies db2.run_ok(
                #[trigger] db2.runs[k],
            ) by {
                assert(db1.run_ok(db1.runs[k]));
                let tki = db1.task_idx(db1.runs[k].queue_name, db1.runs[k].task_id);
                assert(db1.is_task_at(tki, db1.runs[k].queue_name, db1.runs[k].task_id));
                assert(db2.is_task_at(tki, db2.runs[k].queue_name, db2.runs[k].task_id));
            }
            assert forall|k: int| 0 <= k < db2.waits.len() implies db2.wait_ok(
                #[trigger] db2.waits[k],
            ) by {
                let wk = db2.waits[k];
                assert(db1.wait_ok(wk));
                let ri = db1.run_idx(wk.queue_name, wk.run_id);
                assert(db1.is_run_at(ri, wk.queue_name, wk.run_id));
                db2.lemma_run_idx_is(ri, wk.queue_name, wk.run_id);
            }
        }
        let ev_payload = db1.event_at(q, event).payload;
        match ev_payload {
            Some(p) => {
                lemma_upsert_checkpoint_wf(
                    db2,
                    committed_checkpoint(q, tid, step, Some(p), rid, now),
                );
            },
            None => {
                if r.wake_event == Some(event) && !had_pending {
                    let db3 = DbV {
                        runs: db2.runs.update(i, RunV { wake_event: None, ..r }),
                        ..db2
                    };
                    assert(db3.wf()) by {
                        assert(db3.keys_unique());
                        assert(db3.single_active());
                        assert forall|k: int| 0 <= k < db3.tasks.len() implies db3.task_ok(
                            #[trigger] db3.tasks[k],
                        ) by {
                            let tk = db3.tasks[k];
                            assert(db.task_ok(tk));
                            let oli = db.run_idx(tk.queue_name, tk.last_attempt_run);
                            assert(db.is_run_at(oli, tk.queue_name, tk.last_attempt_run));
                            db3.lemma_run_idx_is(oli, tk.queue_name, tk.last_attempt_run);
                        }
                        assert forall|k: int| 0 <= k < db3.runs.len() implies db3.run_ok(
                            #[trigger] db3.runs[k],
                        ) by {
                            assert(db.run_ok(db.runs[k]));
                            let tki = db.task_idx(db.runs[k].queue_name, db.runs[k].task_id);
                            assert(db.is_task_at(tki, db.runs[k].queue_name, db.runs[k].task_id));
                            assert(db3.is_task_at(tki, db3.runs[k].queue_name, db3.runs[k].task_id));
                        }
                        assert forall|k: int| 0 <= k < db3.waits.len() implies db3.wait_ok(
                            #[trigger] db3.waits[k],
                        ) by {
                            let wk = db3.waits[k];
                            assert(db.wait_ok(wk));
                            let ri = db.run_idx(wk.queue_name, wk.run_id);
                            assert(db.is_run_at(ri, wk.queue_name, wk.run_id));
                            db3.lemma_run_idx_is(ri, wk.queue_name, wk.run_id);
                        }
                    }
                } else {
                    let timeout_at = spec_timeout_at(timeout_secs, now);
                    let w = WaitV {
                        queue_name: q,
                        run_id: rid,
                        step_name: step,
                        task_id: r.task_id,
                        event_name: event,
                        timeout_at: timeout_at,
                        created_at: now,
                    };
                    let db3 = upsert_wait(db2, w);
                    let wn = db2.waits.len() as int;
                    assert(db3.keys_unique()) by {
                        if db2.has_wait(q, rid, step) {
                            let wi = db2.wait_idx(q, rid, step);
                            assert(0 <= wi < db2.waits.len() && db2.waits[wi].queue_name == q
                                && db2.waits[wi].run_id == rid && db2.waits[wi].step_name == step);
                        } else {
                            assert forall|a: int, b: int|
                                0 <= a < db3.waits.len() && 0 <= b < db3.waits.len()
                                    && db3.waits[a].queue_name == db3.waits[b].queue_name
                                    && db3.waits[a].run_id == db3.waits[b].run_id
                                    && db3.waits[a].step_name == db3.waits[b].step_name implies a
                                == b by {
                                if a < wn && b == wn {
                                    assert(db2.has_wait(q, rid, step));
                                }
                                if b < wn && a == wn {
                                    assert(db2.has_wait(q, rid, step));
                                }
                            }
                        }
                    }
                    let o = await_tr(db, q, tid, rid, step, event, timeout_secs, now);
                    let dbf = o->Ok_0.0;
                    assert(dbf.runs == db3.runs.update(i, dbf.runs[i]));
                    assert(dbf.keys_unique());
                    assert(dbf.single_active());
                    assert forall|k: int| 0 <= k < dbf.tasks.len() implies dbf.task_ok(
                        #[trigger] dbf.tasks[k],
                    ) by {
                        let tk = dbf.tasks[k];
                        if k == ti {
                            dbf.lemma_run_idx_is(i, q, rid);
                        } else {
                            let old_tk = db.tasks[k];
                            assert(db.task_ok(old_tk));
                            let oli = db.run_idx(old_tk.queue_name, old_tk.last_attempt_run);
                            assert(db.is_run_at(oli, old_tk.queue_name, old_tk.last_attempt_run));
                            if oli == i {
                                assert(db.runs[i].task_id == old_tk.task_id);
                                assert(db.is_task_at(k, q, r.task_id));
                            }
                            dbf.lemma_run_idx_is(oli, tk.queue_name, tk.last_attempt_run);
                            if tk.state.spec_is_terminal() {
                                assert forall|m: int|
                                    0 <= m < dbf.runs.len() && dbf.runs[m].queue_name
                                        == tk.queue_name && dbf.runs[m].task_id == tk.task_id
                                    implies (#[trigger] dbf.runs[m]).state.spec_is_terminal() by {
                                    if m == i {
                                        assert(db.is_task_at(k, q, r.task_id));
                                    } else {
                                        assert(db.runs[m].state.spec_is_terminal());
                                    }
                                }
                            }
                        }
                    }
                    assert forall|k: int| 0 <= k < dbf.runs.len() implies dbf.run_ok(
                        #[trigger] dbf.runs[k],
                    ) by {
                        assert(db.run_ok(db.runs[k]));
                        let tki = db.task_idx(db.runs[k].queue_name, db.runs[k].task_id);
                        assert(db.is_task_at(tki, db.runs[k].queue_name, db.runs[k].task_id));
                        assert(dbf.is_task_at(tki, dbf.runs[k].queue_name, dbf.runs[k].task_id));
                    }
                    assert forall|k: int| 0 <= k < dbf.waits.len() implies dbf.wait_ok(
                        #[trigger] dbf.waits[k],
                    ) by {
                        let wk = dbf.waits[k];
                        if wk == w {
                            dbf.lemma_run_idx_is(i, q, rid);
                        } else {
                            if db2.has_wait(q, rid, step) {
                                assert(dbf.waits == db.waits.update(db.wait_idx(q, rid, step), w));
                                assert(wk == db.waits[k]);
                            } else {
                                assert(wk == db.waits[k]);
                            }
                            assert(db.wait_ok(wk));
                            let ri = db.run_idx(wk.queue_name, wk.run_id);
                            assert(db.is_run_at(ri, wk.queue_name, wk.run_id));
                            if ri == i {
                                assert(wk.queue_name == q && wk.run_id == rid);
                            }
                            dbf.lemma_run_idx_is(ri, wk.queue_name, wk.run_id);
                        }
                    }
                }
            },
        }
    }
}

impl Db {
    /// Await a named event from a running worker: replay the step's
    /// committed checkpoint if one exists; resolve at once when a payload
    /// is pending or already emitted, memoizing it; otherwise suspend the
    /// run on a wait row until the event or the timeout.
    #[verifier::rlimit(100)]
    #[verifier::spinoff_prover]
    pub fn await_event(
        &mut self,
        queue: &String,
        task_id: &String,
        run_id: &String,
        step_name: &String,
        event_name: &String,
        timeout_secs: Option<i64>,
        now: i64,
    ) -> (r: Result<AwaitResult, EngineError>)
        requires
            old(self)@.wf(),
        ensures
            final(self)@.wf(),
            r is Err ==> final(self)@ == old(self)@,
            ({
                if !spec_queue_name_ok(queue@) || !spec_name_ok(step_name@) || !spec_name_ok(
                    event_name@,
                ) {
                    r == Err::<AwaitResult, EngineError>(EngineError::Validation)
                } else if timeout_secs matches Some(t) && t < 0 {
                    r == Err::<AwaitResult, EngineError>(EngineError::Validation)
                } else {
                    match await_tr(old(self)@, queue@, task_id@, run_id@, step_name@, event_name@,
                        timeout_secs, now) {
                        Ok(o) => r matches Ok(got) && got@ == o.1 && final(self)@ == o.0,
                        Err(e) => r == Err::<AwaitResult, EngineError>(e),
                    }
                }
            }),
    {
        match validate::queue_name(queue.as_str()) {
            Err(e) => {
                return Err(e);
            },
            Ok(u) => {},
        }
        match validate::step_name(step_name.as_str()) {
            Err(e) => {
                return Err(e);
            },
            Ok(u) => {},
        }
        match validate::event_name(event_name.as_str()) {
            Err(e) => {
                return Err(e);
            },
            Ok(u) => {},
        }
        match timeout_secs {
            Some(t) => {
                if t < 0 {
                    return Err(EngineError::Validation);
                }
            },
            None => {},
        }
        proof {
            lemma_await_wf(
                self@,
                queue@,
                task_id@,
                run_id@,
                step_name@,
                event_name@,
                timeout_secs,
                now,
            );
        }

        // checkpoint replay
        match self.find_checkpoint(queue, task_id, step_name) {
            Some(ci) => {
                proof {
                    self@.lemma_checkpoint_idx_is(ci as int, queue@, task_id@, step_name@);
                }
                match &self.checkpoints[ci].state {
                    Some(s) => {
                        return Ok(AwaitResult { should_suspend: 0, payload: Some(s.clone()) });
                    },
                    None => {},
                }
            },
            None => {},
        }

        let i = match self.find_run(queue, run_id) {
            Some(i) => i,
            None => {
                return Err(EngineError::NotFound);
            },
        };
        proof {
            self@.lemma_run_idx_is(i as int, queue@, run_id@);
        }
        if !self.runs[i].task_id.eq(task_id) {
            return Err(EngineError::NotFound);
        }
        let ti = match self.find_task(queue, &self.runs[i].task_id) {
            Some(ti) => ti,
            None => {
                proof {
                    assert(self@.run_ok(self@.runs[i as int]));
                    assert(false);
                }
                return Err(EngineError::NotFound);
            },
        };
        proof {
            self@.lemma_task_idx_is(ti as int, queue@, self@.runs[i as int].task_id);
        }
        if matches!(self.tasks[ti].state, TaskState::Cancelled) {
            return Err(EngineError::Cancelled);
        }
        if !matches!(self.runs[i].state, RunState::Running) {
            return Err(EngineError::WrongState);
        }

        // make sure the event row exists, then read its payload
        let ghost pre = self@;
        if self.find_event(queue, event_name).is_none() {
            self.push_event(
                Event {
                    queue_name: queue.clone(),
                    event_name: event_name.clone(),
                    payload: None,
                    emitted_at: 0,
                },
            );
        }
        proof {
            assert(self@ == ensure_event(pre, queue@, event_name@));
            lemma_ensure_event_wf(pre, queue@, event_name@);
        }
        let ei = match self.find_event(queue, event_name) {
            Some(ei) => ei,
            None => {
                proof {
                    assert(false);
                }
                return Err(EngineError::NotFound);
            },
        };
        proof {
            self@.lemma_event_idx_is(ei as int, queue@, event_name@);
        }
        let ev_payload = crate::state::clone_opt_string(&self.events[ei].payload);
        let had_pending = self.runs[i].event_payload.is_some();
        let ghost db1 = self@;
        let ghost rv = self@.runs[i as int];

        match ev_payload {
            Some(p) => {
                // resolve now: memoize the payload for replays
                let r2 = Run { event_payload: None, ..self.runs[i].duplicate() };
                self.apply_upsert_checkpoint(
                    queue,
                    task_id,
                    step_name,
                    Some(p.clone()),
                    run_id,
                    now,
                );
                if had_pending {
                    self.set_run(i, r2);
                }
                proof {
                    let db2 = if had_pending {
                        DbV { runs: db1.runs.update(i as int, RunV { event_payload: None, ..rv }), ..db1 }
                    } else {
                        db1
                    };
                    let c = committed_checkpoint(
                        queue@,
                        task_id@,
                        step_name@,
                        Some(p@),
                        run_id@,
                        now,
                    );
                    assert(db2.has_checkpoint(c.queue_name, c.task_id, c.checkpoint_name)
                        == db1.has_checkpoint(c.queue_name, c.task_id, c.checkpoint_name));
                    assert(db2.checkpoint_idx(c.queue_name, c.task_id, c.checkpoint_name)
                        == db1.checkpoint_idx(c.queue_name, c.task_id, c.checkpoint_name));
                    assert(self@ == upsert_checkpoint(db2, c));
                }
                Ok(AwaitResult { should_suspend: 0, payload: Some(p) })
            },
            None => {
                let spurious_wake = match &self.runs[i].wake_event {
                    Some(we) => we.eq(event_name) && !had_pending,
                    None => false,
                };
                if spurious_wake {
                    let r2 = Run { wake_event: None, ..self.runs[i].duplicate() };
                    self.set_run(i, r2);
                    return Ok(AwaitResult { should_suspend: 0, payload: None });
                }
                // suspend: record the wait and put run and task to sleep
                let timeout_at: Option<i64> = match timeout_secs {
                    Some(s) => Some(crate::add_sat(now, crate::secs_to_ms(s))),
                    None => None,
                };
                let avail: i64 = match timeout_at {
                    Some(v) => v,
                    None => FAR_FUTURE_MS,
                };
                let w = Wait {
                    queue_name: queue.clone(),
                    run_id: run_id.clone(),
                    step_name: step_name.clone(),
                    task_id: self.runs[i].task_id.clone(),
                    event_name: event_name.clone(),
                    timeout_at,
                    created_at: now,
                };
                let r2 = Run {
                    state: RunState::Sleeping,
                    claimed_by: None,
                    claim_expires_at: None,
                    available_at: avail,
                    wake_event: Some(event_name.clone()),
                    event_payload: None,
                    ..self.runs[i].duplicate()
                };
                let t2 = Task { state: TaskState::Sleeping, ..self.tasks[ti].duplicate() };
                match self.find_wait(queue, run_id, step_name) {
                    Some(wi) => {
                        proof {
                            self@.lemma_wait_idx_is(wi as int, queue@, run_id@, step_name@);
                        }
                        self.set_wait(wi, w);
                    },
                    None => {
                        self.push_wait(w);
                    },
                }
                self.set_run(i, r2);
                self.set_task(ti, t2);
                proof {
                    let db2 = if had_pending {
                        DbV { runs: db1.runs.update(i as int, RunV { event_payload: None, ..rv }), ..db1 }
                    } else {
                        db1
                    };
                    let wv = WaitV {
                        queue_name: queue@,
                        run_id: run_id@,
                        step_name: step_name@,
                        task_id: rv.task_id,
                        event_name: event_name@,
                        timeout_at: spec_timeout_at(timeout_secs, now),
                        created_at: now,
                    };
                    assert(w@ == wv);
                    assert(db2.has_wait(queue@, run_id@, step_name@) == db1.has_wait(
                        queue@,
                        run_id@,
                        step_name@,
                    ));
                    assert(db2.wait_idx(queue@, run_id@, step_name@) == db1.wait_idx(
                        queue@,
                        run_id@,
                        step_name@,
                    ));
                    let db3 = upsert_wait(db2, wv);
                    assert(self@.waits == db3.waits);
                    assert(self@.runs =~= db3.runs.update(i as int, r2@)) by {
                        assert(db3.runs == db2.runs);
                    }
                    assert(self@.tasks == db3.tasks.update(ti as int, t2@));
                    assert(self@ == (DbV {
                        runs: db3.runs.update(i as int, r2@),
                        tasks: db3.tasks.update(ti as int, t2@),
                        ..db3
                    }));
                }
                Ok(AwaitResult { should_suspend: 1, payload: None })
            },
        }
    }
}

// ---- emit ------------------------------------------------------------

/// The event row an emit writes, and the timed-out waits it discards.
pub open spec fn emit_prepared(db: DbV, q: Seq<char>, event: Seq<char>, payload: Seq<char>, now: i64) -> DbV {
    let ev = EventV { queue_name: q, event_name: event, payload: Some(payload), emitted_at: now };
    let db_ev = if db.has_event(q, event) {
        DbV { events: db.events.update(db.event_idx(q, event), ev), ..db }
    } else {
        DbV { events: db.events.push(ev), ..db }
    };
    DbV {
        waits: db_ev.waits.filter(
            |w: WaitV|
                !(w.queue_name == q && w.event_name == event && (w.timeout_at matches Some(to)
                    && to <= now)),
        ),
        ..db_ev
    }
}

/// Storing the event and discarding its timed-out waits preserves
/// well-formedness.
pub proof fn lemma_emit_prepared_wf(db: DbV, q: Seq<char>, event: Seq<char>, payload: Seq<char>, now: i64)
    requires
        db.wf(),
    ensures
        emit_prepared(db, q, event, payload, now).wf(),
{
    let db2 = emit_prepared(db, q, event, payload, now);
    let pred = |w: WaitV|
        !(w.queue_name == q && w.event_name == event && (w.timeout_at matches Some(to) && to
            <= now));
    lemma_waits_filter_key_unique(db.waits, pred);
    lemma_filter_sub(db.waits, pred);
    let en = db.events.len() as int;
    assert(db2.keys_unique()) by {
        if db.has_event(q, event) {
            let ei = db.event_idx(q, event);
            assert(0 <= ei < db.events.len() && db.events[ei].queue_name == q
                && db.events[ei].event_name == event);
        } else {
            assert forall|a: int, b: int|
                0 <= a < db2.events.len() && 0 <= b < db2.events.len() && db2.events[a].queue_name
                    == db2.events[b].queue_name && db2.events[a].event_name
                    == db2.events[b].event_name implies a == b by {
                if a < en && b == en {
                    assert(db.has_event(q, event));
                }
                if b < en && a == en {
                    assert(db.has_event(q, event));
                }
            }
        }
    }
    assert(db2.single_active());
    assert forall|k: int| 0 <= k < db2.tasks.len() implies db2.task_ok(#[trigger] db2.tasks[k]) by {
        let tk = db2.tasks[k];
        assert(db.task_ok(tk));
        let oli = db.run_idx(tk.queue_name, tk.last_attempt_run);
        assert(db.is_run_at(oli, tk.queue_name, tk.last_attempt_run));
        db2.lemma_run_idx_is(oli, tk.queue_name, tk.last_attempt_run);
    }
    assert forall|k: int| 0 <= k < db2.runs.len() implies db2.run_ok(#[trigger] db2.runs[k]) by {
        assert(db.run_ok(db.runs[k]));
        let tki = db.task_idx(db.runs[k].queue_name, db.runs[k].task_id);
        assert(db.is_task_at(tki, db.runs[k].queue_name, db.runs[k].task_id));
        assert(db2.is_task_at(tki, db2.runs[k].queue_name, db2.runs[k].task_id));
    }
    assert forall|k: int| 0 <= k < db2.waits.len() implies db2.wait_ok(#[trigger] db2.waits[k]) by {
        assert(db.waits.contains(db2.waits[k]));
        let wk = db2.waits[k];
        assert(db.wait_ok(wk));
        let ri = db.run_idx(wk.queue_name, wk.run_id);
        assert(db.is_run_at(ri, wk.queue_name, wk.run_id));
        db2.lemma_run_idx_is(ri, wk.queue_name, wk.run_id);
    }
}

/// Wake the sleeping run behind one wait: the run returns to `pending`
/// carrying the payload, the step is memoized as a checkpoint, the task
/// returns to `pending`, and the run's waits on this event are dropped.
pub open spec fn wake_one(db: DbV, q: Seq<char>, w: WaitV, payload: Seq<char>, now: i64) -> DbV {
    let ri = db.run_idx(q, w.run_id);
    let r = db.runs[ri];
    let r2 = RunV {
        state: RunState::Pending,
        available_at: now,
        wake_event: None,
        event_payload: Some(payload),
        claimed_by: None,
        claim_expires_at: None,
        ..r
    };
    let db_a = DbV { runs: db.runs.update(ri, r2), ..db };
    let db_b = upsert_checkpoint(
        db_a,
        committed_checkpoint(q, w.task_id, w.step_name, Some(payload), w.run_id, now),
    );
    let ti = db.task_idx(q, w.task_id);
    let db_c = DbV {
        tasks: db_b.tasks.update(ti, TaskV { state: TaskState::Pending, ..db.tasks[ti] }),
        ..db_b
    };
    DbV {
        waits: db_c.waits.filter(
            |x: WaitV| !(x.queue_name == q && x.run_id == w.run_id && x.event_name == w.event_name),
        ),
        ..db_c
    }
}

/// Walk the snapshot of this event's waits: each wait whose run is still
/// sleeping wakes it; the others are skipped.
pub open spec fn wake_rec(
    db: DbV,
    q: Seq<char>,
    payload: Seq<char>,
    now: i64,
    ws: Seq<WaitV>,
    i: int,
) -> DbV
    decreases ws.len() - i,
{
    if i < 0 || i >= ws.len() {
        db
    } else {
        let w = ws[i];
        if db.has_run(q, w.run_id) && db.run_at(q, w.run_id).state == RunState::Sleeping {
            wake_rec(wake_one(db, q, w, payload, now), q, payload, now, ws, i + 1)
        } else {
            wake_rec(db, q, payload, now, ws, i + 1)
        }
    }
}

/// `emit_event`: overwrite the event with the payload, discard its
/// timed-out waits, and wake every sleeping run waiting on it.
pub open spec fn emit_tr(db: DbV, q: Seq<char>, event: Seq<char>, payload: Seq<char>, now: i64) -> DbV {
    let db1 = emit_prepared(db, q, event, payload, now);
    let ws = db1.waits.filter(|w: WaitV| w.queue_name == q && w.event_name == event);
    wake_rec(db1, q, payload, now, ws, 0)
}

/// Waking one wait of a sleeping run preserves well-formedness.
#[verifier::rlimit(100)]
#[verifier::spinoff_prover]
pub proof fn lemma_wake_one_wf(db: DbV, q: Seq<char>, w: WaitV, payload: Seq<char>, now: i64)
    requires
        db.wf(),
        db.has_run(q, w.run_id),
        db.run_at(q, w.run_id).state == RunState::Sleeping,
        w.task_id == db.run_at(q, w.run_id).task_id,
        w.queue_name == q,
    ensures
        wake_one(db, q, w, payload, now).wf(),
        wake_one(db, q, w, payload, now).runs.len() == db.runs.len(),
        forall|j: int|
            0 <= j < db.runs.len() && j != db.run_idx(q, w.run_id) ==> wake_one(
                db,
                q,
                w,
                payload,
                now,
            ).runs[j] == db.runs[j],
        wake_one(db, q, w, payload, now).runs[db.run_idx(q, w.run_id)].state == RunState::Pending,
        wake_one(db, q, w, payload, now).waits == db.waits.filter(
            |x: WaitV| !(x.queue_name == q && x.run_id == w.run_id && x.event_name == w.event_name),
        ),
    decreases 0int,
{
    let ri = db.run_idx(q, w.run_id);
    assert(db.is_run_at(ri, q, w.run_id));
    let r = db.runs[ri];
    crate::run::lemma_live_run_is_latest(db, ri);
    let ti = db.task_idx(q, r.task_id);
    assert(db.is_task_at(ti, q, r.task_id));
    assert(db.task_idx(q, w.task_id) == ti);
    let db2 = wake_one(db, q, w, payload, now);
    let pred = |x: WaitV|
        !(x.queue_name == q && x.run_id == w.run_id && x.event_name == w.event_name);
    lemma_waits_filter_key_unique(db.waits, pred);
    lemma_filter_sub(db.waits, pred);
    let cn = db.checkpoints.len() as int;
    assert(db2.keys_unique()) by {
        if !db.has_checkpoint(q, w.task_id, w.step_name) {
            assert forall|a: int, b: int|
                0 <= a < db2.checkpoints.len() && 0 <= b < db2.checkpoints.len()
                    && db2.checkpoints[a].queue_name == db2.checkpoints[b].queue_name
                    && db2.checkpoints[a].task_id == db2.checkpoints[b].task_id
                    && db2.checkpoints[a].checkpoint_name == db2.checkpoints[b].checkpoint_name
                implies a == b by {
                if a < cn && b == cn {
                    assert(db.has_checkpoint(q, w.task_id, w.step_name));
                }
                if b < cn && a == cn {
                    assert(db.has_checkpoint(q, w.task_id, w.step_name));
                }
            }
        } else {
            let ci = db.checkpoint_idx(q, w.task_id, w.step_name);
            assert(0 <= ci < db.checkpoints.len() && db.checkpoints[ci].queue_name == q
                && db.checkpoints[ci].task_id == w.task_id && db.checkpoints[ci].checkpoint_name
                == w.step_name);
        }
    }
    assert(db2.single_active());
    assert forall|k: int| 0 <= k < db2.tasks.len() implies db2.task_ok(#[trigger] db2.tasks[k]) by {
        let tk = db2.tasks[k];
        if k == ti {
            db2.lemma_run_idx_is(ri, q, w.run_id);
        } else {
            let old_tk = db.tasks[k];
            assert(db.task_ok(old_tk));
            let oli = db.run_idx(old_tk.queue_name, old_tk.last_attempt_run);
            assert(db.is_run_at(oli, old_tk.queue_name, old_tk.last_attempt_run));
            if oli == ri {
                assert(db.runs[ri].task_id == old_tk.task_id);
                assert(db.is_task_at(k, q, r.task_id));
            }
            db2.lemma_run_idx_is(oli, tk.queue_name, tk.last_attempt_run);
            if tk.state.spec_is_terminal() {
                assert forall|m: int|
                    0 <= m < db2.runs.len() && db2.runs[m].queue_name == tk.queue_name
                        && db2.runs[m].task_id == tk.task_id implies (
                #[trigger] db2.runs[m]).state.spec_is_terminal() by {
                    if m == ri {
                        assert(db.is_task_at(k, q, r.task_id));
                    } else {
                        assert(db.runs[m].state.spec_is_terminal());
                    }
                }
            }
        }
    }
    assert forall|k: int| 0 <= k < db2.runs.len() implies db2.run_ok(#[trigger] db2.runs[k]) by {
        assert(db.run_ok(db.runs[k]));
        let tki = db.task_idx(db.runs[k].queue_name, db.runs[k].task_id);
        assert(db.is_task_at(tki, db.runs[k].queue_name, db.runs[k].task_id));
        assert(db2.is_task_at(tki, db2.runs[k].queue_name, db2.runs[k].task_id));
    }
    assert forall|k: int| 0 <= k < db2.waits.len() implies db2.wait_ok(#[trigger] db2.waits[k]) by {
        assert(db.waits.contains(db2.waits[k]));
        let wk = db2.waits[k];
        assert(db.wait_ok(wk));
        let rx = db.run_idx(wk.queue_name, wk.run_id);
        assert(db.is_run_at(rx, wk.queue_name, wk.run_id));
        db2.lemma_run_idx_is(rx, wk.queue_name, wk.run_id);
    }
}

impl Db {
    /// Drop one run's waits on one event.
    fn delete_event_waits_of_run(&mut self, q: &String, rid: &String, event: &String)
        ensures
            final(self)@ == (DbV {
                waits: old(self)@.waits.filter(
                    |w: WaitV|
                        !(w.queue_name == q@ && w.run_id == rid@ && w.event_name == event@),
                ),
                ..old(self)@
            }),
    {
        let ghost pred = |w: WaitV|
            !(w.queue_name == q@ && w.run_id == rid@ && w.event_name == event@);
        let mut out: Vec<Wait> = Vec::new();
        let mut j: usize = 0;
        while j < self.waits.len()
            invariant
                0 <= j <= self.waits.len(),
                out@.map_values(|x: Wait| x@) == self@.waits.subrange(0, j as int).filter(pred),
                pred == (|w: WaitV|
                    !(w.queue_name == q@ && w.run_id == rid@ && w.event_name == event@)),
            decreases self.waits.len() - j,
        {
            proof {
                lemma_filter_step(self@.waits, pred, j as int);
            }
            let keep = !(self.waits[j].queue_name.eq(q) && self.waits[j].run_id.eq(rid)
                && self.waits[j].event_name.eq(event));
            if keep {
                let ghost before = out@.map_values(|x: Wait| x@);
                out.push(self.waits[j].duplicate());
                proof {
                    assert(out@.map_values(|x: Wait| x@) =~= before.push(self@.waits[j as int]));
                }
            }
            j = j + 1;
        }
        proof {
            assert(self@.waits.subrange(0, self@.waits.len() as int) =~= self@.waits);
        }
        self.waits = out;
    }

    /// Emit a named event: store its payload (the JSON text `null` when
    /// none is given), discard the event's timed-out waits, and wake
    /// every run still sleeping on it, delivering the payload and
    /// memoizing it per waiting step.
    #[verifier::rlimit(100)]
    #[verifier::spinoff_prover]
    pub fn emit_event(
        &mut self,
        queue: &String,
        event_name: &String,
        payload: &Option<String>,
        now: i64,
    ) -> (r: Result<(), EngineError>)
        requires
            old(self)@.wf(),
        ensures
            final(self)@.wf(),
            r is Err ==> final(self)@ == old(self)@,
            ({
                if !spec_queue_name_ok(queue@) || !spec_name_ok(event_name@) {
                    r == Err::<(), EngineError>(EngineError::Validation)
                } else if payload matches Some(p) && (spec_is_blank(p@) || !is_json(p@)) {
                    r == Err::<(), EngineError>(EngineError::Validation)
                } else {
                    let text = match payload.deep_view() {
                        Some(p) => p,
                        None => "null"@,
                    };
                    r == Ok::<(), EngineError>(()) && final(self)@ == emit_tr(old(self)@, queue@,
                        event_name@, text, now)
                }
            }),
    {
        match validate::queue_name(queue.as_str()) {
            Err(e) => {
                return Err(e);
            },
            Ok(u) => {},
        }
        match validate::event_name(event_name.as_str()) {
            Err(e) => {
                return Err(e);
            },
            Ok(u) => {},
        }
        let text: String = match payload {
            Some(p) => {
                if validate::is_blank(p.as_str()) {
                    return Err(EngineError::Validation);
                }
                if !crate::json::check_json(p) {
                    return Err(EngineError::Validation);
                }
                p.clone()
            },
            None => "null".to_owned(),
        };
        let ghost pre = self@;
        let ghost textv = text@;

        // store the event
        let ev = Event {
            queue_name: queue.clone(),
            event_name: event_name.clone(),
            payload: Some(text.clone()),
            emitted_at: now,
        };
        match self.find_event(queue, event_name) {
            Some(ei) => {
                proof {
                    self@.lemma_event_idx_is(ei as int, queue@, event_name@);
                }
                self.set_event(ei, ev);
            },
            None => {
                self.push_event(ev);
            },
        }

        // discard the event's timed-out waits
        let ghost tpred = |w: WaitV|
            !(w.queue_name == queue@ && w.event_name == event_name@ && (w.timeout_at matches Some(
                to,
            ) && to <= now));
        let mut out: Vec<Wait> = Vec::new();
        let mut j: usize = 0;
        while j < self.waits.len()
            invariant
                0 <= j <= self.waits.len(),
                out@.map_values(|x: Wait| x@) == self@.waits.subrange(0, j as int).filter(tpred),
                tpred == (|w: WaitV|
                    !(w.queue_name == queue@ && w.event_name == event_name@ && (w.timeout_at
                        matches Some(to) && to <= now))),
            decreases self.waits.len() - j,
        {
            proof {
                lemma_filter_step(self@.waits, tpred, j as int);
            }
            let expired_wait = match self.waits[j].timeout_at {
                Some(to) => to <= now,
                None => false,
            };
            let keep = !(self.waits[j].queue_name.eq(queue) && self.waits[j].event_name.eq(
                event_name,
            ) && expired_wait);
            if keep {
                let ghost before = out@.map_values(|x: Wait| x@);
                out.push(self.waits[j].duplicate());
                proof {
                    assert(out@.map_values(|x: Wait| x@) =~= before.push(self@.waits[j as int]));
                }
            }
            j = j + 1;
        }
        proof {
            assert(self@.waits.subrange(0, self@.waits.len() as int) =~= self@.waits);
        }
        self.waits = out;
        let ghost db1 = self@;
        proof {
            assert(db1 == emit_prepared(pre, queue@, event_name@, textv, now));
            lemma_emit_prepared_wf(pre, queue@, event_name@, textv, now);
        }

        // snapshot the event's remaining waits
        let ghost spred = |w: WaitV| w.queue_name == queue@ && w.event_name == event_name@;
        let mut snap: Vec<Wait> = Vec::new();
        let mut x: usize = 0;
        while x < self.waits.len()
            invariant
                0 <= x <= self.waits.len(),
                snap@.map_values(|w: Wait| w@) == self@.waits.subrange(0, x as int).filter(spred),
                spred == (|w: WaitV| w.queue_name == queue@ && w.event_name == event_name@),
            decreases self.waits.len() - x,
        {
            proof {
                lemma_filter_step(self@.waits, spred, x as int);
            }
            if self.waits[x].queue_name.eq(queue) && self.waits[x].event_name.eq(event_name) {
                let ghost before = snap@.map_values(|w: Wait| w@);
                snap.push(self.waits[x].duplicate());
                proof {
                    assert(snap@.map_values(|w: Wait| w@) =~= before.push(self@.waits[x as int]));
                }
            }
            x = x + 1;
        }
        proof {
            assert(self@.waits.subrange(0, self@.waits.len() as int) =~= self@.waits);
        }
        let ghost ws = snap@.map_values(|w: Wait| w@);
        proof {
            assert(ws == db1.waits.filter(spred));
            crate::db::lemma_filter_sub(db1.waits, spred);
            assert forall|y: int| 0 <= y < ws.len() implies (#[trigger] ws[y]).queue_name == queue@
                && ws[y].event_name == event_name@ by {
                db1.waits.lemma_filter_pred(spred, y);
            }
            lemma_wake_rec_wf(db1, queue@, textv, now, ws, 0);
        }

        // wake the runs still sleeping on the event
        let mut k: usize = 0;
        while k < snap.len()
            invariant
                0 <= k <= snap.len(),
                self@.wf(),
                ws == snap@.map_values(|w: Wait| w@),
                ws.len() == snap@.len(),
                textv == text@,
                forall|y: int|
                    0 <= y < ws.len() ==> (#[trigger] ws[y]).queue_name == queue@
                        && ws[y].event_name == event_name@,
                forall|y: int|
                    k <= y < ws.len() && self@.has_run(queue@, (#[trigger] ws[y]).run_id)
                        && self@.run_at(queue@, ws[y].run_id).state == RunState::Sleeping
                        ==> self@.waits.contains(ws[y]),
                wake_rec(db1, queue@, textv, now, ws, 0) == wake_rec(
                    self@,
                    queue@,
                    textv,
                    now,
                    ws,
                    k as int,
                ),
            decreases snap.len() - k,
        {
            let ghost cur = self@;
            let wake = match self.find_run(queue, &snap[k].run_id) {
                Some(ri) => {
                    proof {
                        self@.lemma_run_idx_is(ri as int, queue@, ws[k as int].run_id);
                    }
                    if matches!(self.runs[ri].state, RunState::Sleeping) {
                        Some(ri)
                    } else {
                        None
                    }
                },
                None => None,
            };
            match wake {
                Some(ri) => {
                    proof {
                        assert(cur.has_run(queue@, ws[k as int].run_id) && cur.run_at(
                            queue@,
                            ws[k as int].run_id,
                        ).state == RunState::Sleeping);
                        assert(cur.waits.contains(ws[k as int]));
                        let wi = choose|wi: int|
                            0 <= wi < cur.waits.len() && cur.waits[wi] == ws[k as int];
                        assert(cur.wait_ok(cur.waits[wi]));
                        lemma_wake_one_wf(cur, queue@, ws[k as int], textv, now);
                    }
                    let w_task = snap[k].task_id.clone();
                    let w_step = snap[k].step_name.clone();
                    let w_run = snap[k].run_id.clone();
                    let r2 = Run {
                        state: RunState::Pending,
                        available_at: now,
                        wake_event: None,
                        event_payload: Some(text.clone()),
                        claimed_by: None,
                        claim_expires_at: None,
                        ..self.runs[ri].duplicate()
                    };
                    self.apply_upsert_checkpoint(queue, &w_task, &w_step, Some(text.clone()),
                        &w_run, now);
                    let ti = match self.find_task(queue, &w_task) {
                        Some(ti) => ti,
                        None => {
                            proof {
                                assert(cur.run_ok(cur.runs[ri as int]));
                                assert(false);
                            }
                            return Err(EngineError::NotFound);
                        },
                    };
                    proof {
                        self@.lemma_task_idx_is(ti as int, queue@, ws[k as int].task_id);
                        cur.lemma_task_idx_is(ti as int, queue@, ws[k as int].task_id);
                    }
                    let t2 = Task { state: TaskState::Pending, ..self.tasks[ti].duplicate() };
                    self.set_run(ri, r2);
                    self.set_task(ti, t2);
                    self.delete_event_waits_of_run(queue, &w_run, event_name);
                    proof {
                        let c = committed_checkpoint(
                            queue@,
                            ws[k as int].task_id,
                            ws[k as int].step_name,
                            Some(textv),
                            ws[k as int].run_id,
                            now,
                        );
                        let db_a = DbV {
                            runs: cur.runs.update(ri as int, r2@),
                            ..cur
                        };
                        assert(db_a.has_checkpoint(c.queue_name, c.task_id, c.checkpoint_name)
                            == cur.has_checkpoint(c.queue_name, c.task_id, c.checkpoint_name));
                        assert(db_a.checkpoint_idx(c.queue_name, c.task_id, c.checkpoint_name)
                            == cur.checkpoint_idx(c.queue_name, c.task_id, c.checkpoint_name));
                        assert(self@ == wake_one(cur, queue@, ws[k as int], textv, now));
                        assert(wake_rec(cur, queue@, textv, now, ws, k as int) == wake_rec(
                            self@,
                            queue@,
                            textv,
                            now,
                            ws,
                            k as int + 1,
                        ));
                        // maintain: unvisited waits of still-sleeping runs
                        // are still on file
                        assert forall|y: int|
                            k + 1 <= y < ws.len() && self@.has_run(queue@, (#[trigger] ws[y]).run_id)
                                && self@.run_at(queue@, ws[y].run_id).state == RunState::Sleeping
                            implies self@.waits.contains(ws[y]) by {
                            let rj = self@.run_idx(queue@, ws[y].run_id);
                            assert(self@.is_run_at(rj, queue@, ws[y].run_id));
                            assert(cur.is_run_at(rj, queue@, ws[y].run_id)) by {
                                if rj == cur.run_idx(queue@, ws[k as int].run_id) {
                                    assert(self@.runs[rj].state == RunState::Pending);
                                }
                                assert(self@.runs[rj] == cur.runs[rj]);
                            }
                            cur.lemma_run_idx_is(rj, queue@, ws[y].run_id);
                            assert(cur.runs[rj].state == RunState::Sleeping);
                            assert(cur.waits.contains(ws[y]));
                            let wj = choose|wj: int|
                                0 <= wj < cur.waits.len() && cur.waits[wj] == ws[y];
                            let pred = |x: WaitV|
                                !(x.queue_name == queue@ && x.run_id == ws[k as int].run_id
                                    && x.event_name == ws[k as int].event_name);
                            assert(pred(ws[y])) by {
                                if ws[y].run_id == ws[k as int].run_id {
                                    assert(cur.is_run_at(rj, queue@, ws[k as int].run_id));
                                    cur.lemma_run_idx_is(rj, queue@, ws[k as int].run_id);
                                    assert(cur.run_at(queue@, ws[k as int].run_id).state
                                        == RunState::Sleeping);
                                    assert(self@.runs[rj].state == RunState::Pending);
                                }
                            }
                            cur.waits.lemma_filter_contains(pred, wj);
                            assert(self@.waits == cur.waits.filter(pred));
                        }
                    }
                },
                None => {
                    proof {
                        assert(wake_rec(cur, queue@, textv, now, ws, k as int) == wake_rec(
                            cur,
                            queue@,
                            textv,
                            now,
                            ws,
                            k as int + 1,
                        ));
                    }
                },
            }
            k = k + 1;
        }
        proof {
            assert(wake_rec(self@, queue@, textv, now, ws, snap@.len() as int) == self@);
        }
        Ok(())
    }
}

/// Walking the wait snapshot preserves well-formedness, as long as every
/// not-yet-visited wait whose run still sleeps is still on file.
pub proof fn lemma_wake_rec_wf(
    db: DbV,
    q: Seq<char>,
    payload: Seq<char>,
    now: i64,
    ws: Seq<WaitV>,
    i: int,
)
    requires
        db.wf(),
        forall|j: int| i <= j < ws.len() ==> (#[trigger] ws[j]).queue_name == q,
        forall|j: int|
            i <= j < ws.len() && db.has_run(q, (#[trigger] ws[j]).run_id) && db.run_at(
                q,
                ws[j].run_id,
            ).state == RunState::Sleeping ==> db.waits.contains(ws[j]),
    ensures
        wake_rec(db, q, payload, now, ws, i).wf(),
    decreases ws.len() - i,
{
    if i < 0 || i >= ws.len() {
    } else {
        let w = ws[i];
        if db.has_run(q, w.run_id) && db.run_at(q, w.run_id).state == RunState::Sleeping {
            assert(db.waits.contains(w));
            let wi = choose|wi: int| 0 <= wi < db.waits.len() && db.waits[wi] == w;
            assert(db.wait_ok(db.waits[wi]));
            let ri = db.run_idx(q, w.run_id);
            assert(db.is_run_at(ri, q, w.run_id));
            lemma_wake_one_wf(db, q, w, payload, now);
            let db2 = wake_one(db, q, w, payload, now);
            let pred = |x: WaitV|
                !(x.queue_name == q && x.run_id == w.run_id && x.event_name == w.event_name);
            assert forall|j: int|
                i + 1 <= j < ws.len() && db2.has_run(q, (#[trigger] ws[j]).run_id) && db2.run_at(
                    q,
                    ws[j].run_id,
                ).state == RunState::Sleeping implies db2.waits.contains(ws[j]) by {
                let rj = db2.run_idx(q, ws[j].run_id);
                assert(db2.is_run_at(rj, q, ws[j].run_id));
                assert(db.is_run_at(rj, q, ws[j].run_id)) by {
                    if rj == ri {
                        assert(db2.runs[ri].state == RunState::Pending);
                    }
                    assert(db2.runs[rj] == db.runs[rj]);
                }
                db.lemma_run_idx_is(rj, q, ws[j].run_id);
                assert(rj != ri) by {
                    if rj == ri {
                        assert(db2.runs[ri].state == RunState::Pending);
                    }
                }
                assert(db.runs[rj].state == RunState::Sleeping);
                assert(db.waits.contains(ws[j]));
                let wj = choose|wj: int| 0 <= wj < db.waits.len() && db.waits[wj] == ws[j];
                assert(pred(ws[j])) by {
                    if ws[j].run_id == w.run_id {
                        assert(db.is_run_at(ri, q, ws[j].run_id));
                        assert(rj == ri);
                    }
                }
                db.waits.lemma_filter_contains(pred, wj);
            }
            lemma_wake_rec_wf(db2, q, payload, now, ws, i + 1);
        } else {
            lemma_wake_rec_wf(db, q, payload, now, ws, i + 1);
        }
    }
}

} // verus!
