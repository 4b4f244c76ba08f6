use crate::db::lemma_filter_sub;
use crate::db::lemma_waits_filter_key_unique;
use crate::db::Db;
use crate::db::DbV;
use crate::json::is_json;
use crate::rows::Run;
use crate::rows::RunV;
use crate::rows::Task;
use crate::rows::TaskV;
use crate::rows::WaitV;
use crate::run::drop_run_waits;
use crate::state::task_state_of_run;
use crate::state::spec_max_duration_ms;
use crate::state::spec_retry_delay_ms;
use crate::state::EngineError;
use crate::state::FailureReason;
use crate::state::FailureReasonV;
use crate::state::RunState;
use crate::state::TaskState;
use crate::validate;
use crate::validate::spec_queue_name_ok;
use vstd::prelude::*;

verus! {

/// What becomes of a task when one of its runs fails.
pub enum RetryDecision {
    /// The attempt cap is exhausted: the task fails.
    TaskFailed,
    /// The next attempt would land beyond the cancellation window: the
    /// task is cancelled instead.
    TaskCancelled,
    /// A fresh run is scheduled, `pending` when due at once, `sleeping`
    /// when due later.
    Retry { run_state: RunState },
}

/// When the next attempt would run: the explicit retry instant when one
/// was given, else `now` plus the strategy's delay, and never in the
/// past.
pub open spec fn spec_next_available(
    t: TaskV,
    attempt: i64,
    retry_at: Option<i64>,
    now: i64,
) -> int {
    let base = match retry_at {
        Some(ra) => if ra > 0 {
            ra as int
        } else {
            crate::clamp_i64(now + spec_retry_delay_ms(t.retry_strategy, attempt))
        },
        None => crate::clamp_i64(now + spec_retry_delay_ms(t.retry_strategy, attempt)),
    };
    if base < now {
        now as int
    } else {
        base
    }
}

/// The attempt number after `attempt`, clamped to the integer range.
pub open spec fn spec_next_attempt(attempt: i64) -> int {
    crate::clamp_i64(attempt + 1)
}

/// Decide among failing the task, cancelling it, and scheduling a retry.
pub open spec fn retry_decision(t: TaskV, attempt: i64, now: i64, next_available: int) -> RetryDecision {
    let allow_retry = match t.max_attempts {
        None => true,
        Some(m) => spec_next_attempt(attempt) <= m,
    };
    if !allow_retry {
        RetryDecision::TaskFailed
    } else {
        let cancel = match (spec_max_duration_ms(t.cancellation), t.first_started_at) {
            (Some(d), Some(f)) => f > 0 && next_available - f >= d,
            _ => false,
        };
        if cancel {
            RetryDecision::TaskCancelled
        } else {
            RetryDecision::Retry {
                run_state: if next_available > now {
                    RunState::Sleeping
                } else {
                    RunState::Pending
                },
            }
        }
    }
}

/// The failed copy of a run, stamped with its failure reason and released.
pub open spec fn failed_run(r: RunV, reason: FailureReasonV, now: i64) -> RunV {
    RunV {
        state: RunState::Failed,
        wake_event: None,
        failed_at: Some(now),
        failure_reason: Some(reason),
        claimed_by: None,
        claim_expires_at: None,
        ..r
    }
}

/// The retry run that continues a task after a failure.
pub open spec fn retry_run(
    r: RunV,
    new_id: Seq<char>,
    st: RunState,
    next_available: int,
    now: i64,
) -> RunV {
    RunV {
        queue_name: r.queue_name,
        run_id: new_id,
        task_id: r.task_id,
        attempt: spec_next_attempt(r.attempt) as i64,
        state: st,
        available_at: next_available as i64,
        claimed_by: None,
        claim_expires_at: None,
        started_at: None,
        completed_at: None,
        failed_at: None,
        result: None,
        failure_reason: None,
        wake_event: None,
        event_payload: None,
        created_at: now,
    }
}

/// Mark the run at index `i` failed with `reason`, drop its waits, and
/// apply the retry rule: raise the task's attempt count, and
/// either fail the task, cancel it, or append the next run.
pub open spec fn fail_and_reschedule(
    db: DbV,
    i: int,
    reason: FailureReasonV,
    now: i64,
    retry_at: Option<i64>,
    new_id: Seq<char>,
) -> DbV {
    let r = db.runs[i];
    let ti = db.task_idx(r.queue_name, r.task_id);
    let t = db.tasks[ti];
    let runs1 = db.runs.update(i, failed_run(r, reason, now));
    let waits1 = drop_run_waits(db.waits, r.queue_name, r.run_id);
    let next_available = spec_next_available(t, r.attempt, retry_at, now);
    match retry_decision(t, r.attempt, now, next_available) {
        RetryDecision::TaskFailed => {
            let t2 = TaskV {
                state: TaskState::Failed,
                attempts: if t.attempts < r.attempt {
                    r.attempt
                } else {
                    t.attempts
                },
                last_attempt_run: r.run_id,
                cancelled_at: None,
                ..t
            };
            DbV { runs: runs1, tasks: db.tasks.update(ti, t2), waits: waits1, ..db }
        },
        RetryDecision::TaskCancelled => {
            let t2 = TaskV {
                state: TaskState::Cancelled,
                attempts: if t.attempts < r.attempt {
                    r.attempt
                } else {
                    t.attempts
                },
                last_attempt_run: r.run_id,
                cancelled_at: Some(now),
                ..t
            };
            DbV { runs: runs1, tasks: db.tasks.update(ti, t2), waits: waits1, ..db }
        },
        RetryDecision::Retry { run_state } => {
            let nr = retry_run(r, new_id, run_state, next_available, now);
            let na = spec_next_attempt(r.attempt) as i64;
            let t2 = TaskV {
                state: task_state_of_run(run_state),
                attempts: if t.attempts < na {
                    na
                } else {
                    t.attempts
                },
                last_attempt_run: new_id,
                cancelled_at: None,
                ..t
            };
            DbV { runs: runs1.push(nr), tasks: db.tasks.update(ti, t2), waits: waits1, ..db }
        },
    }
}

/// Failing a live run and applying the retry rule preserves
/// well-formedness.
pub proof fn lemma_fail_and_reschedule_wf(
    db: DbV,
    i: int,
    reason: FailureReasonV,
    now: i64,
    retry_at: Option<i64>,
    new_id: Seq<char>,
)
    requires
        db.wf(),
        0 <= i < db.runs.len(),
        db.runs[i].state == RunState::Running || db.runs[i].state == RunState::Sleeping,
        !db.has_run(db.runs[i].queue_name, new_id),
    ensures
        fail_and_reschedule(db, i, reason, now, retry_at, new_id).wf(),
{
    let r = db.runs[i];
    let q = r.queue_name;
    crate::run::lemma_live_run_is_latest(db, i);
    let ti = db.task_idx(q, r.task_id);
    assert(db.is_task_at(ti, q, r.task_id));
    let t = db.tasks[ti];
    let db2 = fail_and_reschedule(db, i, reason, now, retry_at, new_id);
    let rn = db.runs.len() as int;
    let pred = |w: WaitV| !(w.queue_name == q && w.run_id == r.run_id);
    lemma_waits_filter_key_unique(db.waits, pred);
    lemma_filter_sub(db.waits, pred);

    let next_available = spec_next_available(t, r.attempt, retry_at, now);
    let retried = retry_decision(t, r.attempt, now, next_available) matches RetryDecision::Retry {
        ..
    };

    assert forall|a: int, b: int|
        0 <= a < db2.runs.len() && 0 <= b < db2.runs.len() && db2.runs[a].queue_name
            == db2.runs[b].queue_name && db2.runs[a].run_id == db2.runs[b].run_id implies a == b by {
        if a < rn && b < rn {
        } else if a < rn && b == rn {
            assert(db.is_run_at(a, q, new_id));
        } else if b < rn && a == rn {
            assert(db.is_run_at(b, q, new_id));
        }
    }
    assert(db2.keys_unique());

    // no second live run of the failing run's task exists besides index `i`
    assert forall|m: int|
        0 <= m < rn && m != i && db2.runs[m].queue_name == q && db2.runs[m].task_id == r.task_id
        implies (#[trigger] db2.runs[m]).state.spec_is_terminal() by {
        assert(db2.runs[m] == db.runs[m]);
        if !db.runs[m].state.spec_is_terminal() {
            assert(!db.runs[i].state.spec_is_terminal());
        }
    }
    assert(db2.single_active());

    assert forall|k: int| 0 <= k < db2.tasks.len() implies db2.task_ok(#[trigger] db2.tasks[k]) by {
        let tk = db2.tasks[k];
        if k == ti {
            if retried {
                db2.lemma_run_idx_is(rn, q, new_id);
            } else {
                db2.lemma_run_idx_is(i, q, r.run_id);
            }
        } else {
            let old_tk = db.tasks[k];
            assert(db.task_ok(old_tk));
            let oli = db.run_idx(old_tk.queue_name, old_tk.last_attempt_run);
            assert(db.is_run_at(oli, old_tk.queue_name, old_tk.last_attempt_run));
            if oli == i {
                assert(db.runs[i].task_id == old_tk.task_id);
                assert(db.is_task_at(k, q, r.task_id));
            }
            db2.lemma_run_idx_is(oli, tk.queue_name, tk.last_attempt_run);
            if tk.state.spec_is_terminal() {
                assert forall|m: int|
                    0 <= m < db2.runs.len() && db2.runs[m].queue_name == tk.queue_name
                        && db2.runs[m].task_id == tk.task_id implies (
                #[trigger] db2.runs[m]).state.spec_is_terminal() by {
                    if m < rn {
                        assert(db.runs[m].queue_name == tk.queue_name && db.runs[m].task_id
                            == tk.task_id);
                        assert(db.runs[m].state.spec_is_terminal());
                    } else {
                        assert(db2.runs[m].task_id == r.task_id);
                        assert(db.is_task_at(k, q, r.task_id));
                    }
                }
            }
        }
    }
    assert forall|k: int| 0 <= k < db2.runs.len() implies db2.run_ok(#[trigger] db2.runs[k]) by {
        if k < rn {
            assert(db.run_ok(db.runs[k]));
            let tki = db.task_idx(db.runs[k].queue_name, db.runs[k].task_id);
            assert(db.is_task_at(tki, db.runs[k].queue_name, db.runs[k].task_id));
            assert(db2.is_task_at(tki, db2.runs[k].queue_name, db2.runs[k].task_id));
        } else {
            assert(db2.is_task_at(ti, q, r.task_id));
        }
    }
    assert forall|k: int| 0 <= k < db2.waits.len() implies db2.wait_ok(#[trigger] db2.waits[k]) by {
        assert(db.waits.contains(db2.waits[k]));
        let wk = db2.waits[k];
        assert(pred(wk));
        assert(db.wait_ok(wk));
        let ri = db.run_idx(wk.queue_name, wk.run_id);
        assert(db.is_run_at(ri, wk.queue_name, wk.run_id));
        assert(ri != i);
        db2.lemma_run_idx_is(ri, wk.queue_name, wk.run_id);
    }
}

/// `fail_run`: require the run to exist and to be `running` or
/// `sleeping`; mark it failed with the caller's reason and apply the
/// retry rule.
pub open spec fn fail_tr(
    db: DbV,
    q: Seq<char>,
    rid: Seq<char>,
    reason: Seq<char>,
    retry_at: Option<i64>,
    now: i64,
    new_id: Seq<char>,
) -> Result<DbV, EngineError> {
    if !db.has_run(q, rid) {
        Err(EngineError::NotFound)
    } else {
        let i = db.run_idx(q, rid);
        let r = db.runs[i];
        if !(r.state == RunState::Running || r.state == RunState::Sleeping) {
            Err(EngineError::NotFound)
        } else {
            Ok(
                fail_and_reschedule(
                    db,
                    i,
                    FailureReasonV::Reported { json: reason },
                    now,
                    retry_at,
                    new_id,
                ),
            )
        }
    }
}

/// Executable twin of `spec_next_available`.
pub fn next_available_at(t: &Task, attempt: i64, retry_at: Option<i64>, now: i64) -> (r: i64)
    ensures
        r == spec_next_available(t@, attempt, retry_at, now),
{
    let base: i64 = match retry_at {
        Some(ra) => {
            if ra > 0 {
                ra
            } else {
                crate::add_sat(now, crate::state::retry_delay_ms(&t.retry_strategy, attempt))
            }
        },
        None => crate::add_sat(now, crate::state::retry_delay_ms(&t.retry_strategy, attempt)),
    };
    if base < now {
        now
    } else {
        base
    }
}

/// Executable twin of `retry_decision`.
pub fn decide_retry(t: &Task, attempt: i64, now: i64, next_available: i64) -> (r: RetryDecision)
    ensures
        r == retry_decision(t@, attempt, now, next_available as int),
{
    let next_attempt = crate::add_sat(attempt, 1);
    let allow_retry = match t.max_attempts {
        None => true,
        Some(m) => next_attempt <= m,
    };
    if !allow_retry {
        RetryDecision::TaskFailed
    } else {
        let cancel = match (crate::state::max_duration_ms(&t.cancellation), t.first_started_at) {
            (Some(d), Some(f)) => f > 0 && ge_after_sub(next_available, f, d),
            _ => false,
        };
        if cancel {
            RetryDecision::TaskCancelled
        } else {
            RetryDecision::Retry {
                run_state: if next_available > now {
                    RunState::Sleeping
                } else {
                    RunState::Pending
                },
            }
        }
    }
}

/// Whether `a - b >= c` over unbounded integers.
pub fn ge_after_sub(a: i64, b: i64, c: i64) -> (r: bool)
    ensures
        r == (a - b >= c),
{
    match a.checked_sub(b) {
        Some(d) => d >= c,
        None => a >= 0,
    }
}

impl Db {
    /// Mark a live run failed with `reason_json` (which must be valid
    /// JSON) and apply the retry rule: schedule the next attempt at
    /// `retry_at` or after the task's retry delay, unless the attempt cap
    /// or the cancellation window ends the task instead. The fresh
    /// identifier for the possible retry run is supplied by the caller.
    pub fn fail_run(
        &mut self,
        queue: &String,
        run_id: &String,
        reason_json: &String,
        retry_at: Option<i64>,
        now: i64,
        new_run_id: String,
    ) -> (r: Result<(), EngineError>)
        requires
            old(self)@.wf(),
            !old(self)@.has_run(queue@, new_run_id@),
        ensures
            final(self)@.wf(),
            r is Err ==> final(self)@ == old(self)@,
            ({
                if !spec_queue_name_ok(queue@) {
                    r == Err::<(), EngineError>(EngineError::Validation)
                } else if !is_json(reason_json@) {
                    r == Err::<(), EngineError>(EngineError::Validation)
                } else {
                    match fail_tr(old(self)@, queue@, run_id@, reason_json@, retry_at, now,
                        new_run_id@) {
                        Ok(db2) => r == Ok::<(), EngineError>(()) && final(self)@ == db2,
                        Err(e) => r == Err::<(), EngineError>(e),
                    }
                }
            }),
    {
        match validate::queue_name(queue.as_str()) {
            Err(e) => {
                return Err(e);
            },
            Ok(u) => {},
        }
        if !crate::json::check_json(reason_json) {
            return Err(EngineError::Validation);
        }
        let i = match self.find_run(queue, run_id) {
            Some(i) => i,
            None => {
                return Err(EngineError::NotFound);
            },
        };
        proof {
            self@.lemma_run_idx_is(i as int, queue@, run_id@);
        }
        let live = matches!(self.runs[i].state, RunState::Running | RunState::Sleeping);
        if !live {
            return Err(EngineError::NotFound);
        }
        let reason = FailureReason::Reported { json: reason_json.clone() };
        self.apply_fail_and_reschedule(i, reason, now, retry_at, new_run_id);
        Ok(())
    }

    /// Apply `fail_and_reschedule` to the run at index `i`.
    pub fn apply_fail_and_reschedule(
        &mut self,
        i: usize,
        reason: FailureReason,
        now: i64,
        retry_at: Option<i64>,
        new_run_id: String,
    )
        requires
            old(self)@.wf(),
            i < old(self)@.runs.len(),
            old(self)@.runs[i as int].state == RunState::Running || old(self)@.runs[i as int].state
                == RunState::Sleeping,
            !old(self)@.has_run(old(self)@.runs[i as int].queue_name, new_run_id@),
        ensures
            final(self)@ == fail_and_reschedule(old(self)@, i as int, reason@, now, retry_at,
                new_run_id@),
            final(self)@.wf(),
    {
        proof {
            lemma_fail_and_reschedule_wf(self@, i as int, reason@, now, retry_at, new_run_id@);
            crate::run::lemma_live_run_is_latest(self@, i as int);
        }
        let queue = self.runs[i].queue_name.clone();
        let rid = self.runs[i].run_id.clone();
        let attempt = self.runs[i].attempt;
        let ti = match self.find_task(&queue, &self.runs[i].task_id) {
            Some(ti) => ti,
            None => {
                proof {
                    assert(self@.run_ok(self@.runs[i as int]));
                    assert(false);
                }
                return ;
            },
        };
        proof {
            self@.lemma_task_idx_is(ti as int, queue@, self@.runs[i as int].task_id);
        }
        let fr = Run {
            state: RunState::Failed,
            wake_event: None,
            failed_at: Some(now),
            failure_reason: Some(reason),
            claimed_by: None,
            claim_expires_at: None,
            ..self.runs[i].duplicate()
        };
        let next_available = next_available_at(&self.tasks[ti], attempt, retry_at, now);
        let decision = decide_retry(&self.tasks[ti], attempt, now, next_available);
        let next_attempt = crate::add_sat(attempt, 1);
        let old_attempts = self.tasks[ti].attempts;
        match decision {
            RetryDecision::TaskFailed => {
                let t2 = Task {
                    state: TaskState::Failed,
                    attempts: if old_attempts < attempt {
                        attempt
                    } else {
                        old_attempts
                    },
                    last_attempt_run: rid.clone(),
                    cancelled_at: None,
                    ..self.tasks[ti].duplicate()
                };
                self.set_run(i, fr);
                self.set_task(ti, t2);
                self.delete_waits_of_run(&queue, &rid);
            },
            RetryDecision::TaskCancelled => {
                let t2 = Task {
                    state: TaskState::Cancelled,
                    attempts: if old_attempts < attempt {
                        attempt
                    } else {
                        old_attempts
                    },
                    last_attempt_run: rid.clone(),
                    cancelled_at: Some(now),
                    ..self.tasks[ti].duplicate()
                };
                self.set_run(i, fr);
                self.set_task(ti, t2);
                self.delete_waits_of_run(&queue, &rid);
            },
            RetryDecision::Retry { run_state } => {
                let nr = Run {
                    queue_name: queue.clone(),
                    run_id: new_run_id.clone(),
                    task_id: self.runs[i].task_id.clone(),
                    attempt: next_attempt,
                    state: run_state,
                    available_at: next_available,
                    claimed_by: None,
                    claim_expires_at: None,
                    started_at: None,
                    completed_at: None,
                    failed_at: None,
                    result: None,
                    failure_reason: None,
                    wake_event: None,
                    event_payload: None,
                    created_at: now,
                };
                let t2 = Task {
                    state: match run_state {
                        RunState::Sleeping => TaskState::Sleeping,
                        _ => TaskState::Pending,
                    },
                    attempts: if old_attempts < next_attempt {
                        next_attempt
                    } else {
                        old_attempts
                    },
                    last_attempt_run: new_run_id,
                    cancelled_at: None,
                    ..self.tasks[ti].duplicate()
                };
                self.set_run(i, fr);
                self.push_run(nr);
                self.set_task(ti, t2);
                self.delete_waits_of_run(&queue, &rid);
            },
        }
    }
}

} // verus!
