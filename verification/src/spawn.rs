use crate::db::Db;
use crate::db::DbV;
use crate::json::is_json;
use crate::rows::Run;
use crate::rows::RunV;
use crate::rows::Task;
use crate::rows::TaskV;
use crate::state::clone_opt_string;
use crate::state::Cancellation;
use crate::state::EngineError;
use crate::state::RetryStrategy;
use crate::state::RunState;
use crate::state::TaskState;
use crate::validate;
use crate::validate::spec_is_blank;
use crate::validate::spec_name_ok;
use crate::validate::spec_queue_name_ok;
use vstd::prelude::*;

verus! {

/// The options a spawn call may carry.
pub struct SpawnOptions {
    /// Header JSON attached verbatim to the task.
    pub headers: Option<String>,
    pub retry_strategy: RetryStrategy,
    pub cancellation: Cancellation,
    /// Must be at least 1 when present.
    pub max_attempts: Option<i64>,
    /// Tasks spawned twice under one key are created once.
    pub idempotency_key: Option<String>,
}

pub struct SpawnOptionsV {
    pub headers: Option<Seq<char>>,
    pub retry_strategy: RetryStrategy,
    pub cancellation: Cancellation,
    pub max_attempts: Option<i64>,
    pub idempotency_key: Option<Seq<char>>,
}

impl View for SpawnOptions {
    type V = SpawnOptionsV;

    open spec fn view(&self) -> SpawnOptionsV {
        SpawnOptionsV {
            headers: self.headers.deep_view(),
            retry_strategy: self.retry_strategy,
            cancellation: self.cancellation,
            max_attempts: self.max_attempts,
            idempotency_key: self.idempotency_key.deep_view(),
        }
    }
}

impl SpawnOptions {
    /// Options carrying nothing: no headers, no retry strategy, no
    /// attempt cap, no cancellation window, no idempotency key.
    pub fn plain() -> (r: SpawnOptions)
        ensures
            r@ == (SpawnOptionsV {
                headers: None,
                retry_strategy: RetryStrategy::Unspecified,
                cancellation: Cancellation { max_delay_secs: None, max_duration_secs: None },
                max_attempts: None,
                idempotency_key: None,
            }),
    {
        SpawnOptions {
            headers: None,
            retry_strategy: RetryStrategy::Unspecified,
            cancellation: Cancellation { max_delay_secs: None, max_duration_secs: None },
            max_attempts: None,
            idempotency_key: None,
        }
    }
}

/// What a spawn call returns: the task, the run of its first (or latest)
/// attempt, that attempt number, and whether a new task was created.
pub struct SpawnResult {
    pub task_id: String,
    pub run_id: String,
    pub attempt: i64,
    pub created: i64,
}

pub struct SpawnResultV {
    pub task_id: Seq<char>,
    pub run_id: Seq<char>,
    pub attempt: i64,
    pub created: i64,
}

impl View for SpawnResult {
    type V = SpawnResultV;

    open spec fn view(&self) -> SpawnResultV {
        SpawnResultV {
            task_id: self.task_id@,
            run_id: self.run_id@,
            attempt: self.attempt,
            created: self.created,
        }
    }
}

/// A blank params argument stands for the JSON text `null`.
pub open spec fn params_norm(p: Seq<char>) -> Seq<char> {
    if spec_is_blank(p) {
        "null"@
    } else {
        p
    }
}

/// The task row a spawn inserts.
pub open spec fn spawned_task(
    q: Seq<char>,
    task_name: Seq<char>,
    params: Seq<char>,
    opts: SpawnOptionsV,
    now: i64,
    tid: Seq<char>,
    rid: Seq<char>,
) -> TaskV {
    TaskV {
        queue_name: q,
        task_id: tid,
        task_name: task_name,
        params: params_norm(params),
        headers: opts.headers,
        retry_strategy: opts.retry_strategy,
        max_attempts: opts.max_attempts,
        cancellation: opts.cancellation,
        enqueue_at: now,
        first_started_at: None,
        state: TaskState::Pending,
        attempts: 1,
        last_attempt_run: rid,
        completed_payload: None,
        cancelled_at: None,
        idempotency_key: opts.idempotency_key,
    }
}

/// The run row a spawn inserts: the first attempt, pending and available
/// at once.
pub open spec fn spawned_run(q: Seq<char>, tid: Seq<char>, rid: Seq<char>, now: i64) -> RunV {
    RunV {
        queue_name: q,
        run_id: rid,
        task_id: tid,
        attempt: 1,
        state: RunState::Pending,
        available_at: now,
        claimed_by: None,
        claim_expires_at: None,
        started_at: None,
        completed_at: None,
        failed_at: None,
        result: None,
        failure_reason: None,
        wake_event: None,
        event_payload: None,
        created_at: now,
    }
}

/// Whether a spawn call's idempotency key already names a task.
pub open spec fn spawn_hits_key(db: DbV, q: Seq<char>, opts: SpawnOptionsV) -> bool {
    opts.idempotency_key matches Some(key) && db.has_task_key(q, key)
}

/// `spawn_task`: with an idempotency key already present, return the
/// existing task untouched with `created = 0`; otherwise insert a task in
/// `pending` with a first pending run, and return `created = 1`.
pub open spec fn spawn_tr(
    db: DbV,
    q: Seq<char>,
    task_name: Seq<char>,
    params: Seq<char>,
    opts: SpawnOptionsV,
    now: i64,
    tid: Seq<char>,
    rid: Seq<char>,
) -> (DbV, SpawnResultV) {
    if spawn_hits_key(db, q, opts) {
        let t = db.tasks[db.keyed_task_idx(q, opts.idempotency_key->Some_0)];
        (
            db,
            SpawnResultV {
                task_id: t.task_id,
                run_id: t.last_attempt_run,
                attempt: t.attempts,
                created: 0,
            },
        )
    } else {
        let db2 = DbV {
            tasks: db.tasks.push(spawned_task(q, task_name, params, opts, now, tid, rid)),
            runs: db.runs.push(spawned_run(q, tid, rid, now)),
            ..db
        };
        (db2, SpawnResultV { task_id: tid, run_id: rid, attempt: 1, created: 1 })
    }
}

/// Spawning preserves well-formedness when the new identifiers are fresh.
pub proof fn lemma_spawn_wf(
    db: DbV,
    q: Seq<char>,
    task_name: Seq<char>,
    params: Seq<char>,
    opts: SpawnOptionsV,
    now: i64,
    tid: Seq<char>,
    rid: Seq<char>,
)
    requires
        db.wf(),
        !db.has_task(q, tid),
        !db.has_run(q, rid),
    ensures
        spawn_tr(db, q, task_name, params, opts, now, tid, rid).0.wf(),
{
    if spawn_hits_key(db, q, opts) {
    } else {
        let db2 = spawn_tr(db, q, task_name, params, opts, now, tid, rid).0;
        let nt = spawned_task(q, task_name, params, opts, now, tid, rid);
        let nr = spawned_run(q, tid, rid, now);
        let tn = db.tasks.len() as int;
        let rn = db.runs.len() as int;
        assert forall|i: int, j: int|
            0 <= i < db2.tasks.len() && 0 <= j < db2.tasks.len() && db2.tasks[i].queue_name
                == db2.tasks[j].queue_name && db2.tasks[i].task_id == db2.tasks[j].task_id
            implies i == j by {
            if i < tn && j == tn {
                assert(db.is_task_at(i, q, tid));
            }
            if j < tn && i == tn {
                assert(db.is_task_at(j, q, tid));
            }
        }
        assert forall|i: int, j: int|
            0 <= i < db2.runs.len() && 0 <= j < db2.runs.len() && db2.runs[i].queue_name
                == db2.runs[j].queue_name && db2.runs[i].run_id == db2.runs[j].run_id
            implies i == j by {
            if i < rn && j == rn {
                assert(db.is_run_at(i, q, rid));
            }
            if j < rn && i == rn {
                assert(db.is_run_at(j, q, rid));
            }
        }
        assert forall|i: int, j: int|
            0 <= i < db2.tasks.len() && 0 <= j < db2.tasks.len() && db2.tasks[i].queue_name
                == db2.tasks[j].queue_name && db2.tasks[i].idempotency_key is Some
                && db2.tasks[i].idempotency_key == db2.tasks[j].idempotency_key implies i == j by {
            if opts.idempotency_key is Some {
                let key = opts.idempotency_key->Some_0;
                if i < tn && j == tn {
                    assert(0 <= i < db.tasks.len() && db.tasks[i].queue_name == q
                        && db.tasks[i].idempotency_key == Some(key));
                }
                if j < tn && i == tn {
                    assert(0 <= j < db.tasks.len() && db.tasks[j].queue_name == q
                        && db.tasks[j].idempotency_key == Some(key));
                }
            }
        }
        assert(db2.keys_unique());

        // no existing run belongs to the fresh task id
        assert forall|i: int|
            0 <= i < rn && db.runs[i].queue_name == q implies db.runs[i].task_id != tid by {
            assert(db.run_ok(db.runs[i]));
            if db.runs[i].task_id == tid {
                let w = db.task_idx(q, tid);
                assert(db.is_task_at(w, q, tid));
            }
        }
        assert(db2.single_active());

        assert forall|k: int| 0 <= k < db2.tasks.len() implies db2.task_ok(
            #[trigger] db2.tasks[k],
        ) by {
            let tk = db2.tasks[k];
            if k == tn {
                db2.lemma_run_idx_is(rn, q, rid);
                assert(db2.run_at(q, rid) == nr);
            } else {
                assert(db.task_ok(tk));
                let oli = db.run_idx(tk.queue_name, tk.last_attempt_run);
                assert(db.is_run_at(oli, tk.queue_name, tk.last_attempt_run));
                db2.lemma_run_idx_is(oli, tk.queue_name, tk.last_attempt_run);
                if tk.state.spec_is_terminal() {
                    assert forall|m: int|
                        0 <= m < db2.runs.len() && db2.runs[m].queue_name == tk.queue_name
                            && db2.runs[m].task_id == tk.task_id implies (
                    #[trigger] db2.runs[m]).state.spec_is_terminal() by {
                        if m < rn {
                            assert(db.runs[m].state.spec_is_terminal());
                        } else {
                            assert(db.is_task_at(k, q, tid));
                        }
                    }
                }
            }
        }
        assert forall|k: int| 0 <= k < db2.runs.len() implies db2.run_ok(#[trigger] db2.runs[k]) by {
            if k < rn {
                assert(db.run_ok(db.runs[k]));
                let tki = db.task_idx(db.runs[k].queue_name, db.runs[k].task_id);
                assert(db.is_task_at(tki, db.runs[k].queue_name, db.runs[k].task_id));
                assert(db2.is_task_at(tki, db2.runs[k].queue_name, db2.runs[k].task_id));
            } else {
                assert(db2.is_task_at(tn, q, tid));
            }
        }
        assert forall|k: int| 0 <= k < db2.waits.len() implies db2.wait_ok(
            #[trigger] db2.waits[k],
        ) by {
            let wk = db2.waits[k];
            assert(db.wait_ok(wk));
            let ri = db.run_idx(wk.queue_name, wk.run_id);
            assert(db.is_run_at(ri, wk.queue_name, wk.run_id));
            db2.lemma_run_idx_is(ri, wk.queue_name, wk.run_id);
        }
    }
}

impl Db {
    /// Spawn a task: create it in `pending` with one pending run, unless
    /// an idempotency key in `options` already names an existing task, in
    /// which case that task is returned with `created = 0`. The two fresh
    /// identifiers are supplied by the caller.
    pub fn spawn_task(
        &mut self,
        queue: &String,
        task_name: &String,
        params: &String,
        options: &SpawnOptions,
        now: i64,
        task_id: String,
        run_id: String,
    ) -> (r: Result<SpawnResult, EngineError>)
        requires
            old(self)@.wf(),
            !old(self)@.has_task(queue@, task_id@),
            !old(self)@.has_run(queue@, run_id@),
        ensures
            final(self)@.wf(),
            r is Err ==> final(self)@ == old(self)@,
            ({
                if !spec_queue_name_ok(queue@) || !spec_name_ok(task_name@) {
                    r == Err::<SpawnResult, EngineError>(EngineError::Validation)
                } else if options@.max_attempts matches Some(m) && m < 1 {
                    r == Err::<SpawnResult, EngineError>(EngineError::Validation)
                } else if !spec_is_blank(params@) && !is_json(params@) {
                    r == Err::<SpawnResult, EngineError>(EngineError::Validation)
                } else if options@.headers matches Some(h) && !is_json(h) {
                    r == Err::<SpawnResult, EngineError>(EngineError::Validation)
                } else {
                    let (db2, res) = spawn_tr(
                        old(self)@,
                        queue@,
                        task_name@,
                        params@,
                        options@,
                        now,
                        task_id@,
                        run_id@,
                    );
                    r matches Ok(got) && got@ == res && final(self)@ == db2
                }
            }),
    {
        match validate::queue_name(queue.as_str()) {
            Err(e) => {
                return Err(e);
            },
            Ok(u) => {},
        }
        match validate::task_name(task_name.as_str()) {
            Err(e) => {
                return Err(e);
            },
            Ok(u) => {},
        }
        match options.max_attempts {
            Some(m) => {
                if m < 1 {
                    return Err(EngineError::Validation);
                }
            },
            None => {},
        }
        let params_blank = validate::is_blank(params.as_str());
        if !params_blank && !crate::json::check_json(params) {
            return Err(EngineError::Validation);
        }
        match &options.headers {
            Some(h) => {
                if !crate::json::check_json(h) {
                    return Err(EngineError::Validation);
                }
            },
            None => {},
        }
        match &options.idempotency_key {
            Some(key) => {
                match self.find_task_by_key(queue, key) {
                    Some(ti) => {
                        let t = &self.tasks[ti];
                        proof {
                            let keyed = self@.keyed_task_idx(queue@, key@);
                            assert(0 <= keyed < self@.tasks.len() && self@.tasks[keyed].queue_name
                                == queue@ && self@.tasks[keyed].idempotency_key == Some(key@));
                            assert(self@.is_task_at(ti as int, queue@, self@.tasks[ti as int].task_id));
                            assert(self@.is_task_at(keyed, queue@, self@.tasks[keyed].task_id));
                        }
                        return Ok(
                            SpawnResult {
                                task_id: t.task_id.clone(),
                                run_id: t.last_attempt_run.clone(),
                                attempt: t.attempts,
                                created: 0,
                            },
                        );
                    },
                    None => {},
                }
            },
            None => {},
        }
        proof {
            lemma_spawn_wf(
                self@,
                queue@,
                task_name@,
                params@,
                options@,
                now,
                task_id@,
                run_id@,
            );
        }
        let params_value = if params_blank {
            "null".to_owned()
        } else {
            params.clone()
        };
        let task = Task {
            queue_name: queue.clone(),
            task_id: task_id.clone(),
            task_name: task_name.clone(),
            params: params_value,
            headers: clone_opt_string(&options.headers),
            retry_strategy: options.retry_strategy,
            max_attempts: options.max_attempts,
            cancellation: options.cancellation,
            enqueue_at: now,
            first_started_at: None,
            state: TaskState::Pending,
            attempts: 1,
            last_attempt_run: run_id.clone(),
            completed_payload: None,
            cancelled_at: None,
            idempotency_key: clone_opt_string(&options.idempotency_key),
        };
        let run = Run {
            queue_name: queue.clone(),
            run_id: run_id.clone(),
            task_id: task_id.clone(),
            attempt: 1,
            state: RunState::Pending,
            available_at: now,
            claimed_by: None,
            claim_expires_at: None,
            started_at: None,
            completed_at: None,
            failed_at: None,
            result: None,
            failure_reason: None,
            wake_event: None,
            event_payload: None,
            created_at: now,
        };
        self.push_task(task);
        self.push_run(run);
        Ok(SpawnResult { task_id, run_id, attempt: 1, created: 1 })
    }
}

} // verus!
