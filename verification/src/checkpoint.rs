use crate::db::Db;
use crate::db::DbV;
use crate::json::is_json;
use crate::rows::Checkpoint;
use crate::rows::CheckpointV;
use crate::rows::Run;
use crate::rows::RunV;
use crate::state::clone_opt_string;
use crate::state::EngineError;
use crate::state::RunState;
use crate::state::TaskState;
use crate::validate;
use crate::validate::spec_is_blank;
use crate::validate::spec_name_ok;
use crate::validate::spec_queue_name_ok;
use vstd::prelude::*;

verus! {

/// The committed checkpoint row written for `(queue, task, step)`.
pub open spec fn committed_checkpoint(
    q: Seq<char>,
    tid: Seq<char>,
    step: Seq<char>,
    state: Option<Seq<char>>,
    owner: Seq<char>,
    now: i64,
) -> CheckpointV {
    CheckpointV {
        queue_name: q,
        task_id: tid,
        checkpoint_name: step,
        state: state,
        status: "committed"@,
        owner_run_id: Some(owner),
        updated_at: now,
    }
}

/// Insert the checkpoint row, or overwrite the row under the same key.
pub open spec fn upsert_checkpoint(db: DbV, c: CheckpointV) -> DbV {
    if db.has_checkpoint(c.queue_name, c.task_id, c.checkpoint_name) {
        DbV {
            checkpoints: db.checkpoints.update(
                db.checkpoint_idx(c.queue_name, c.task_id, c.checkpoint_name),
                c,
            ),
            ..db
        }
    } else {
        DbV { checkpoints: db.checkpoints.push(c), ..db }
    }
}

/// Upserting a checkpoint preserves well-formedness: no other table
/// changes.
pub proof fn lemma_upsert_checkpoint_wf(db: DbV, c: CheckpointV)
    requires
        db.wf(),
    ensures
        upsert_checkpoint(db, c).wf(),
{
    let db2 = upsert_checkpoint(db, c);
    if db.has_checkpoint(c.queue_name, c.task_id, c.checkpoint_name) {
        let i = db.checkpoint_idx(c.queue_name, c.task_id, c.checkpoint_name);
        assert(0 <= i < db.checkpoints.len() && db.checkpoints[i].queue_name == c.queue_name
            && db.checkpoints[i].task_id == c.task_id && db.checkpoints[i].checkpoint_name
            == c.checkpoint_name);
    } else {
        let n = db.checkpoints.len() as int;
        assert forall|i: int, j: int|
            0 <= i < db2.checkpoints.len() && 0 <= j < db2.checkpoints.len()
                && db2.checkpoints[i].queue_name == db2.checkpoints[j].queue_name
                && db2.checkpoints[i].task_id == db2.checkpoints[j].task_id
                && db2.checkpoints[i].checkpoint_name == db2.checkpoints[j].checkpoint_name
            implies i == j by {
            if i < n && j == n {
                assert(db.has_checkpoint(c.queue_name, c.task_id, c.checkpoint_name));
            }
            if j < n && i == n {
                assert(db.has_checkpoint(c.queue_name, c.task_id, c.checkpoint_name));
            }
        }
    }
    assert(db2.keys_unique());
    assert(db2.single_active());
    assert forall|k: int| 0 <= k < db2.tasks.len() implies db2.task_ok(#[trigger] db2.tasks[k]) by {
        let tk = db2.tasks[k];
        assert(db.task_ok(tk));
        let oli = db.run_idx(tk.queue_name, tk.last_attempt_run);
        assert(db.is_run_at(oli, tk.queue_name, tk.last_attempt_run));
        db2.lemma_run_idx_is(oli, tk.queue_name, tk.last_attempt_run);
    }
    assert forall|k: int| 0 <= k < db2.runs.len() implies db2.run_ok(#[trigger] db2.runs[k]) by {
        assert(db.run_ok(db.runs[k]));
        let tki = db.task_idx(db.runs[k].queue_name, db.runs[k].task_id);
        assert(db.is_task_at(tki, db.runs[k].queue_name, db.runs[k].task_id));
        assert(db2.is_task_at(tki, db2.runs[k].queue_name, db2.runs[k].task_id));
    }
    assert forall|k: int| 0 <= k < db2.waits.len() implies db2.wait_ok(#[trigger] db2.waits[k]) by {
        let wk = db2.waits[k];
        assert(db.wait_ok(wk));
        let ri = db.run_idx(wk.queue_name, wk.run_id);
        assert(db.is_run_at(ri, wk.queue_name, wk.run_id));
        db2.lemma_run_idx_is(ri, wk.queue_name, wk.run_id);
    }
}

impl Db {
    /// Upsert a committed checkpoint row, executably.
    pub fn apply_upsert_checkpoint(
        &mut self,
        queue: &String,
        task_id: &String,
        step_name: &String,
        state: Option<String>,
        owner_run_id: &String,
        now: i64,
    )
        requires
            old(self)@.wf(),
        ensures
            final(self)@ == upsert_checkpoint(
                old(self)@,
                committed_checkpoint(
                    queue@,
                    task_id@,
                    step_name@,
                    state.deep_view(),
                    owner_run_id@,
                    now,
                ),
            ),
            final(self)@.wf(),
    {
        proof {
            lemma_upsert_checkpoint_wf(
                self@,
                committed_checkpoint(
                    queue@,
                    task_id@,
                    step_name@,
                    state.deep_view(),
                    owner_run_id@,
                    now,
                ),
            );
        }
        let row = Checkpoint {
            queue_name: queue.clone(),
            task_id: task_id.clone(),
            checkpoint_name: step_name.clone(),
            state,
            status: "committed".to_owned(),
            owner_run_id: Some(owner_run_id.clone()),
            updated_at: now,
        };
        match self.find_checkpoint(queue, task_id, step_name) {
            Some(i) => {
                proof {
                    self@.lemma_checkpoint_idx_is(i as int, queue@, task_id@, step_name@);
                }
                self.set_checkpoint(i, row);
            },
            None => {
                self.push_checkpoint(row);
            },
        }
    }
}

/// `set_task_checkpoint_state`: require the owner run to exist under a
/// task that is not cancelled; optionally extend a live claim; then
/// write the checkpoint, unless a newer attempt already owns it.
pub open spec fn set_checkpoint_tr(
    db: DbV,
    q: Seq<char>,
    tid: Seq<char>,
    step: Seq<char>,
    state: Seq<char>,
    owner: Seq<char>,
    extend_claim_by: Option<i64>,
    now: i64,
) -> Result<DbV, EngineError> {
    if !db.has_run(q, owner) {
        Err(EngineError::NotFound)
    } else {
        let i = db.run_idx(q, owner);
        let r = db.runs[i];
        let t = db.tasks[db.task_idx(q, r.task_id)];
        if t.state == TaskState::Cancelled {
            Err(EngineError::Cancelled)
        } else {
            let extend = match extend_claim_by {
                Some(e) => e > 0,
                None => false,
            };
            let db1 = if extend && r.state == RunState::Running && r.claim_expires_at is Some {
                let deadline = crate::clamp_i64(
                    now + crate::spec_secs_to_ms(extend_claim_by->Some_0 as int),
                ) as i64;
                DbV {
                    runs: db.runs.update(i, RunV { claim_expires_at: Some(deadline), ..r }),
                    ..db
                }
            } else {
                db
            };
            let stale = db1.has_checkpoint(q, tid, step) && (match db1.checkpoint_at(
                q,
                tid,
                step,
            ).owner_run_id {
                Some(o) => db1.has_run(q, o) && db1.run_at(q, o).attempt > r.attempt,
                None => false,
            });
            if stale {
                Ok(db1)
            } else {
                Ok(upsert_checkpoint(db1, committed_checkpoint(q, tid, step, Some(state), owner, now)))
            }
        }
    }
}

/// The claim-extension half of `set_task_checkpoint_state` preserves
/// well-formedness.
proof fn lemma_extend_for_checkpoint_wf(db: DbV, i: int, deadline: i64)
    requires
        db.wf(),
        0 <= i < db.runs.len(),
        db.runs[i].state == RunState::Running,
    ensures
        (DbV {
            runs: db.runs.update(i, RunV { claim_expires_at: Some(deadline), ..db.runs[i] }),
            ..db
        }).wf(),
{
    let db2 = DbV {
        runs: db.runs.update(i, RunV { claim_expires_at: Some(deadline), ..db.runs[i] }),
        ..db
    };
    assert(db2.keys_unique());
    assert(db2.single_active());
    assert forall|k: int| 0 <= k < db2.tasks.len() implies db2.task_ok(#[trigger] db2.tasks[k]) by {
        let tk = db2.tasks[k];
        assert(db.task_ok(tk));
        let oli = db.run_idx(tk.queue_name, tk.last_attempt_run);
        assert(db.is_run_at(oli, tk.queue_name, tk.last_attempt_run));
        db2.lemma_run_idx_is(oli, tk.queue_name, tk.last_attempt_run);
    }
    assert forall|k: int| 0 <= k < db2.runs.len() implies db2.run_ok(#[trigger] db2.runs[k]) by {
        assert(db.run_ok(db.runs[k]));
        let tki = db.task_idx(db.runs[k].queue_name, db.runs[k].task_id);
        assert(db.is_task_at(tki, db.runs[k].queue_name, db.runs[k].task_id));
        assert(db2.is_task_at(tki, db2.runs[k].queue_name, db2.runs[k].task_id));
    }
    assert forall|k: int| 0 <= k < db2.waits.len() implies db2.wait_ok(#[trigger] db2.waits[k]) by {
        let wk = db2.waits[k];
        assert(db.wait_ok(wk));
        let ri = db.run_idx(wk.queue_name, wk.run_id);
        assert(db.is_run_at(ri, wk.queue_name, wk.run_id));
        db2.lemma_run_idx_is(ri, wk.queue_name, wk.run_id);
    }
}

impl Db {
    /// Store step-scoped memoized output for a task: the checkpoint is
    /// committed under `(queue, task, step)` on behalf of `owner_run_id`,
    /// extending that run's claim first when asked to, and discarded only
    /// when a run of a newer attempt already owns the checkpoint. The
    /// state must be non-blank, valid JSON.
    pub fn set_task_checkpoint_state(
        &mut self,
        queue: &String,
        task_id: &String,
        step_name: &String,
        state_json: &String,
        owner_run_id: &String,
        extend_claim_by: Option<i64>,
        now: i64,
    ) -> (r: Result<(), EngineError>)
        requires
            old(self)@.wf(),
        ensures
            final(self)@.wf(),
            r is Err ==> final(self)@ == old(self)@,
            ({
                if !spec_queue_name_ok(queue@) || !spec_name_ok(step_name@) {
                    r == Err::<(), EngineError>(EngineError::Validation)
                } else if spec_is_blank(state_json@) || !is_json(state_json@) {
                    r == Err::<(), EngineError>(EngineError::Validation)
                } else {
                    match set_checkpoint_tr(old(self)@, queue@, task_id@, step_name@, state_json@,
                        owner_run_id@, extend_claim_by, now) {
                        Ok(db2) => r == Ok::<(), EngineError>(()) && final(self)@ == db2,
                        Err(e) => r == Err::<(), EngineError>(e),
                    }
                }
            }),
    {
        match validate::queue_name(queue.as_str()) {
            Err(e) => {
                return Err(e);
            },
            Ok(u) => {},
        }
        match validate::step_name(step_name.as_str()) {
            Err(e) => {
                return Err(e);
            },
            Ok(u) => {},
        }
        if validate::is_blank(state_json.as_str()) {
            return Err(EngineError::Validation);
        }
        if !crate::json::check_json(state_json) {
            return Err(EngineError::Validation);
        }
        let i = match self.find_run(queue, owner_run_id) {
            Some(i) => i,
            None => {
                return Err(EngineError::NotFound);
            },
        };
        proof {
            self@.lemma_run_idx_is(i as int, queue@, owner_run_id@);
        }
        let ti = match self.find_task(queue, &self.runs[i].task_id) {
            Some(ti) => ti,
            None => {
                proof {
                    assert(self@.run_ok(self@.runs[i as int]));
                    assert(false);
                }
                return Err(EngineError::NotFound);
            },
        };
        proof {
            self@.lemma_task_idx_is(ti as int, queue@, self@.runs[i as int].task_id);
        }
        if matches!(self.tasks[ti].state, TaskState::Cancelled) {
            return Err(EngineError::Cancelled);
        }
        let run_attempt = self.runs[i].attempt;
        let extend = match extend_claim_by {
            Some(e) => e > 0,
            None => false,
        };
        if extend && matches!(self.runs[i].state, RunState::Running)
            && self.runs[i].claim_expires_at.is_some() {
            let e = match extend_claim_by {
                Some(e) => e,
                None => 0,
            };
            let deadline = crate::add_sat(now, crate::secs_to_ms(e));
            proof {
                lemma_extend_for_checkpoint_wf(self@, i as int, deadline);
            }
            let r2 = Run { claim_expires_at: Some(deadline), ..self.runs[i].duplicate() };
            self.set_run(i, r2);
        }
        let stale = match self.find_checkpoint(queue, task_id, step_name) {
            Some(ci) => {
                proof {
                    self@.lemma_checkpoint_idx_is(ci as int, queue@, task_id@, step_name@);
                }
                match &self.checkpoints[ci].owner_run_id {
                    Some(o) => {
                        match self.find_run(queue, o) {
                            Some(oi) => {
                                proof {
                                    self@.lemma_run_idx_is(oi as int, queue@,
                                        self@.checkpoints[ci as int].owner_run_id->Some_0);
                                }
                                self.runs[oi].attempt > run_attempt
                            },
                            None => false,
                        }
                    },
                    None => false,
                }
            },
            None => false,
        };
        if stale {
            return Ok(());
        }
        self.apply_upsert_checkpoint(
            queue,
            task_id,
            step_name,
            Some(state_json.clone()),
            owner_run_id,
            now,
        );
        Ok(())
    }

    /// The checkpoint stored under `(queue, task, step)`, if any.
    pub fn get_task_checkpoint_state(
        &self,
        queue: &String,
        task_id: &String,
        step_name: &String,
    ) -> (r: Result<Option<Checkpoint>, EngineError>)
        requires
            self@.wf(),
        ensures
            ({
                if !spec_queue_name_ok(queue@) || !spec_name_ok(step_name@) {
                    r == Err::<Option<Checkpoint>, EngineError>(EngineError::Validation)
                } else if self@.has_checkpoint(queue@, task_id@, step_name@) {
                    r matches Ok(Some(c)) && c@ == self@.checkpoint_at(queue@, task_id@, step_name@)
                } else {
                    r matches Ok(c) && c is None
                }
            }),
    {
        match validate::queue_name(queue.as_str()) {
            Err(e) => {
                return Err(e);
            },
            Ok(u) => {},
        }
        match validate::step_name(step_name.as_str()) {
            Err(e) => {
                return Err(e);
            },
            Ok(u) => {},
        }
        match self.find_checkpoint(queue, task_id, step_name) {
            Some(i) => {
                proof {
                    self@.lemma_checkpoint_idx_is(i as int, queue@, task_id@, step_name@);
                }
                Ok(Some(self.checkpoints[i].duplicate()))
            },
            None => Ok(None),
        }
    }

    /// All checkpoints of one task, in storage order.
    pub fn get_task_checkpoint_states(&self, queue: &String, task_id: &String) -> (r: Result<
        Vec<Checkpoint>,
        EngineError,
    >)
        ensures
            ({
                if !spec_queue_name_ok(queue@) {
                    r == Err::<Vec<Checkpoint>, EngineError>(EngineError::Validation)
                } else {
                    r matches Ok(rows) && rows@.map_values(|c: Checkpoint| c@)
                        == self@.checkpoints.filter(
                        |c: CheckpointV| c.queue_name == queue@ && c.task_id == task_id@,
                    )
                }
            }),
    {
        match validate::queue_name(queue.as_str()) {
            Err(e) => {
                return Err(e);
            },
            Ok(u) => {},
        }
        let ghost pred = |c: CheckpointV| c.queue_name == queue@ && c.task_id == task_id@;
        let mut out: Vec<Checkpoint> = Vec::new();
        let mut j: usize = 0;
        while j < self.checkpoints.len()
            invariant
                0 <= j <= self.checkpoints.len(),
                out@.map_values(|c: Checkpoint| c@) == self@.checkpoints.subrange(
                    0,
                    j as int,
                ).filter(pred),
                pred == (|c: CheckpointV| c.queue_name == queue@ && c.task_id == task_id@),
            decreases self.checkpoints.len() - j,
        {
            proof {
                crate::db::lemma_filter_step(self@.checkpoints, pred, j as int);
            }
            if self.checkpoints[j].queue_name.eq(queue) && self.checkpoints[j].task_id.eq(task_id) {
                let ghost before = out@.map_values(|c: Checkpoint| c@);
                out.push(self.checkpoints[j].duplicate());
                proof {
                    assert(out@.map_values(|c: Checkpoint| c@) =~= before.push(
                        self@.checkpoints[j as int],
                    ));
                }
            }
            j = j + 1;
        }
        proof {
            assert(self@.checkpoints.subrange(0, self@.checkpoints.len() as int)
                =~= self@.checkpoints);
        }
        Ok(out)
    }
}

} // verus!
