use crate::claim::claim_post;
use crate::claim::claim_expired;
use crate::claim::eligible;
use crate::claim::timeout_reason;
use crate::db::DbV;
use crate::retry::fail_and_reschedule;
use crate::retry::retry_decision;
use crate::retry::spec_next_attempt;
use crate::retry::spec_next_available;
use crate::retry::RetryDecision;
use crate::rows::RunV;
use crate::spawn::spawn_tr;
use crate::spawn::SpawnOptionsV;
use crate::state::FailureReasonV;
use crate::state::RunState;
use crate::state::TaskState;
use vstd::prelude::*;

verus! {

/// After every successful call the store is well-formed, and the
/// well-formed store satisfies the engine's five cross-table invariants:
/// at most one live run per task; the latest-run back-reference is sound
/// and carries the highest attempt number; a terminal task is matched by
/// a terminal run of the right kind; a run is claimed exactly while it
/// runs; and no wait suspends a terminal run.
pub proof fn lemma_store_invariants(db: DbV)
    requires
        db.wf(),
    ensures
        // at most one run per task is pending, running or sleeping
        forall|i: int, j: int|
            0 <= i < db.runs.len() && 0 <= j < db.runs.len() && db.runs[i].queue_name
                == db.runs[j].queue_name && db.runs[i].task_id == db.runs[j].task_id && !(
            #[trigger] db.runs[i]).state.spec_is_terminal() && !(
            #[trigger] db.runs[j]).state.spec_is_terminal() ==> i == j,
        // the latest-run reference exists and carries the attempt count
        forall|i: int|
            0 <= i < db.tasks.len() ==> db.has_run(
                (#[trigger] db.tasks[i]).queue_name,
                db.tasks[i].last_attempt_run,
            ) && db.run_at(db.tasks[i].queue_name, db.tasks[i].last_attempt_run).attempt
                == db.tasks[i].attempts && db.run_at(
                db.tasks[i].queue_name,
                db.tasks[i].last_attempt_run,
            ).task_id == db.tasks[i].task_id,
        // a completed task has a completed run; a failed task a failed
        // run; a cancelled task a cancelled or failed run
        forall|i: int|
            0 <= i < db.tasks.len() && (#[trigger] db.tasks[i]).state == TaskState::Completed
                ==> db.run_at(db.tasks[i].queue_name, db.tasks[i].last_attempt_run).state
                == RunState::Completed,
        forall|i: int|
            0 <= i < db.tasks.len() && (#[trigger] db.tasks[i]).state == TaskState::Failed
                ==> db.run_at(db.tasks[i].queue_name, db.tasks[i].last_attempt_run).state
                == RunState::Failed,
        forall|i: int|
            0 <= i < db.tasks.len() && (#[trigger] db.tasks[i]).state == TaskState::Cancelled
                ==> db.run_at(db.tasks[i].queue_name, db.tasks[i].last_attempt_run).state
                == RunState::Cancelled || db.run_at(
                db.tasks[i].queue_name,
                db.tasks[i].last_attempt_run,
            ).state == RunState::Failed,
        // a run is claimed exactly while it runs
        forall|i: int|
            0 <= i < db.runs.len() ==> ((#[trigger] db.runs[i]).state == RunState::Running
                <==> db.runs[i].claimed_by is Some),
        // no wait suspends a terminal run
        forall|i: int|
            0 <= i < db.waits.len() ==> db.has_run(
                (#[trigger] db.waits[i]).queue_name,
                db.waits[i].run_id,
            ) && !db.run_at(db.waits[i].queue_name, db.waits[i].run_id).state.spec_is_terminal(),
{
    assert forall|i: int|
        0 <= i < db.tasks.len() implies db.has_run(
        (#[trigger] db.tasks[i]).queue_name,
        db.tasks[i].last_attempt_run,
    ) && db.run_at(db.tasks[i].queue_name, db.tasks[i].last_attempt_run).attempt
        == db.tasks[i].attempts && db.run_at(
        db.tasks[i].queue_name,
        db.tasks[i].last_attempt_run,
    ).task_id == db.tasks[i].task_id && (db.tasks[i].state == TaskState::Completed ==> db.run_at(
        db.tasks[i].queue_name,
        db.tasks[i].last_attempt_run,
    ).state == RunState::Completed) && (db.tasks[i].state == TaskState::Failed ==> db.run_at(
        db.tasks[i].queue_name,
        db.tasks[i].last_attempt_run,
    ).state == RunState::Failed) && (db.tasks[i].state == TaskState::Cancelled ==> db.run_at(
        db.tasks[i].queue_name,
        db.tasks[i].last_attempt_run,
    ).state == RunState::Cancelled || db.run_at(
        db.tasks[i].queue_name,
        db.tasks[i].last_attempt_run,
    ).state == RunState::Failed) by {
        assert(db.task_ok(db.tasks[i]));
    }
    assert forall|i: int|
        0 <= i < db.runs.len() implies ((#[trigger] db.runs[i]).state == RunState::Running
        <==> db.runs[i].claimed_by is Some) by {
        assert(db.run_ok(db.runs[i]));
    }
    assert forall|i: int|
        0 <= i < db.waits.len() implies db.has_run(
        (#[trigger] db.waits[i]).queue_name,
        db.waits[i].run_id,
    ) && !db.run_at(db.waits[i].queue_name, db.waits[i].run_id).state.spec_is_terminal() by {
        assert(db.wait_ok(db.waits[i]));
    }
}

/// Spawn idempotence: two spawns under one idempotency key return the
/// same task, and only the first reports `created = 1`; the second
/// leaves the store untouched.
pub proof fn lemma_spawn_idempotent(
    db: DbV,
    q: Seq<char>,
    name1: Seq<char>,
    params1: Seq<char>,
    opts1: SpawnOptionsV,
    now1: i64,
    tid1: Seq<char>,
    rid1: Seq<char>,
    name2: Seq<char>,
    params2: Seq<char>,
    opts2: SpawnOptionsV,
    now2: i64,
    tid2: Seq<char>,
    rid2: Seq<char>,
)
    requires
        db.wf(),
        !db.has_task(q, tid1),
        !db.has_run(q, rid1),
        opts1.idempotency_key is Some,
        opts2.idempotency_key == opts1.idempotency_key,
        !db.has_task_key(q, opts1.idempotency_key->Some_0),
    ensures
        ({
            let (db1, r1) = spawn_tr(db, q, name1, params1, opts1, now1, tid1, rid1);
            let (db2, r2) = spawn_tr(db1, q, name2, params2, opts2, now2, tid2, rid2);
            &&& r1.created == 1
            &&& r2.created == 0
            &&& r2.task_id == r1.task_id
            &&& db2 == db1
        }),
{
    let key = opts1.idempotency_key->Some_0;
    let (db1, r1) = spawn_tr(db, q, name1, params1, opts1, now1, tid1, rid1);
    crate::spawn::lemma_spawn_wf(db, q, name1, params1, opts1, now1, tid1, rid1);
    let tn = db.tasks.len() as int;
    assert(db1.tasks[tn].queue_name == q && db1.tasks[tn].idempotency_key == Some(key));
    assert(db1.has_task_key(q, key));
    assert(crate::spawn::spawn_hits_key(db1, q, opts2));
    let kt = db1.keyed_task_idx(q, key);
    assert(0 <= kt < db1.tasks.len() && db1.tasks[kt].queue_name == q
        && db1.tasks[kt].idempotency_key == Some(key));
    assert(kt == tn);
    assert(db1.tasks[tn].task_id == tid1);
}

/// Retry monotonicity: when a failure schedules a retry, the fresh run
/// carries the next attempt number and never becomes available in the
/// past.
pub proof fn lemma_retry_monotonic(
    db: DbV,
    i: int,
    reason: FailureReasonV,
    now: i64,
    retry_at: Option<i64>,
    new_id: Seq<char>,
)
    requires
        db.wf(),
        0 <= i < db.runs.len(),
        db.runs[i].state == RunState::Running || db.runs[i].state == RunState::Sleeping,
        !db.has_run(db.runs[i].queue_name, new_id),
        ({
            let r = db.runs[i];
            let t = db.tasks[db.task_idx(r.queue_name, r.task_id)];
            retry_decision(t, r.attempt, now, spec_next_available(t, r.attempt, retry_at, now))
                matches RetryDecision::Retry { .. }
        }),
    ensures
        ({
            let out = fail_and_reschedule(db, i, reason, now, retry_at, new_id);
            let nr = out.runs.last();
            &&& out.runs.len() == db.runs.len() + 1
            &&& nr.run_id == new_id
            &&& nr.attempt == spec_next_attempt(db.runs[i].attempt)
            &&& db.runs[i].attempt < i64::MAX ==> nr.attempt == db.runs[i].attempt + 1
            &&& nr.available_at >= now
            &&& out.runs[i].state == RunState::Failed
        }),
{
    let r = db.runs[i];
    let t = db.tasks[db.task_idx(r.queue_name, r.task_id)];
    let na = spec_next_available(t, r.attempt, retry_at, now);
    let out = fail_and_reschedule(db, i, reason, now, retry_at, new_id);
    assert(out.runs.last() == crate::retry::retry_run(
        r,
        new_id,
        retry_decision(t, r.attempt, now, na)->Retry_run_state,
        na,
        now,
    ));
}

/// Claim-timeout reconciliation: a run whose claim deadline has passed is
/// failed with the synthetic timeout reason, and — within the attempt cap
/// and the cancellation window — a fresh retry run is scheduled.
pub proof fn lemma_claim_timeout_reconciled(db: DbV, i: int, q: Seq<char>, now: i64, new_id: Seq<char>)
    requires
        db.wf(),
        0 <= i < db.runs.len(),
        claim_expired(db.runs[i], q, now),
        !db.has_run(q, new_id),
    ensures
        ({
            let out = fail_and_reschedule(db, i, timeout_reason(db.runs[i]), now, None, new_id);
            let r = db.runs[i];
            let t = db.tasks[db.task_idx(r.queue_name, r.task_id)];
            &&& out.runs[i].state == RunState::Failed
            &&& out.runs[i].failure_reason == Some(timeout_reason(r))
            &&& out.runs[i].claimed_by is None
            &&& (retry_decision(t, r.attempt, now, spec_next_available(t, r.attempt, None, now))
                matches RetryDecision::Retry { .. } ==> out.runs.len() == db.runs.len() + 1
                && out.runs.last().attempt == spec_next_attempt(r.attempt)
                && out.runs.last().available_at >= now)
        }),
{
    let r = db.runs[i];
    let t = db.tasks[db.task_idx(r.queue_name, r.task_id)];
    let na = spec_next_available(t, r.attempt, None, now);
    if retry_decision(t, r.attempt, now, na) matches RetryDecision::Retry { .. } {
        lemma_retry_monotonic(db, i, timeout_reason(r), now, None, new_id);
    }
}

/// Exactly-once claim: within one claim call the picked candidates are
/// pairwise distinct eligible runs, each ends up running under the
/// worker, and none of them is eligible afterwards — so no later claim
/// can take them again.
pub proof fn lemma_claims_exclusive(
    db2: DbV,
    q: Seq<char>,
    now: i64,
    worker: Seq<char>,
    expires: Option<i64>,
    qty: i64,
    picked: Seq<int>,
    dbf: DbV,
    rows: Seq<crate::claim::ClaimRowV>,
)
    requires
        db2.wf(),
        claim_post(db2, q, now, worker, expires, qty, picked, dbf, rows),
    ensures
        forall|a: int, b: int|
            #![trigger picked[a], picked[b]]
            0 <= a < picked.len() && 0 <= b < picked.len() && a != b ==> picked[a] != picked[b],
        forall|a: int| 0 <= a < picked.len() ==> eligible(db2, #[trigger] picked[a], q, now),
        forall|a: int|
            0 <= a < picked.len() ==> (#[trigger] dbf.runs[picked[a]]).state == RunState::Running
                && dbf.runs[picked[a]].claimed_by == Some(worker) && !eligible(
                dbf,
                picked[a],
                q,
                now,
            ),
{
    assert forall|a: int, b: int|
        #![trigger picked[a], picked[b]]
        0 <= a < picked.len() && 0 <= b < picked.len() && a != b implies picked[a] != picked[b] by {
        if picked[a] == picked[b] {
            if a < b {
                assert(crate::claim::run_key_lt(db2.runs[picked[a]], db2.runs[picked[b]]));
            } else {
                assert(crate::claim::run_key_lt(db2.runs[picked[b]], db2.runs[picked[a]]));
            }
            crate::claim::lemma_seq_char_lt_trichotomy(
                db2.runs[picked[a]].run_id,
                db2.runs[picked[a]].run_id,
            );
        }
    }
    lemma_apply_claims_running(db2, picked, q, worker, expires, now, dbf);
}

/// After the fold of single claims, every picked run is running under
/// the worker and no longer eligible.
proof fn lemma_apply_claims_running(
    db: DbV,
    picked: Seq<int>,
    q: Seq<char>,
    worker: Seq<char>,
    expires: Option<i64>,
    now: i64,
    dbf: DbV,
)
    requires
        db.wf(),
        forall|a: int| 0 <= a < picked.len() ==> eligible(db, #[trigger] picked[a], q, now),
        forall|a: int, b: int|
            0 <= a < b < picked.len() ==> crate::claim::run_key_lt(
                db.runs[#[trigger] picked[a]],
                db.runs[#[trigger] picked[b]],
            ),
        dbf == crate::claim::apply_claims(db, picked, q, worker, expires, now),
    ensures
        dbf.runs.len() == db.runs.len(),
        forall|a: int|
            0 <= a < picked.len() ==> (#[trigger] dbf.runs[picked[a]]).state == RunState::Running
                && dbf.runs[picked[a]].claimed_by == Some(worker) && !eligible(
                dbf,
                picked[a],
                q,
                now,
            ),
        forall|j: int|
            0 <= j < db.runs.len() && !picked.contains(j) ==> #[trigger] dbf.runs[j] == db.runs[j],
        dbf.wf(),
    decreases picked.len(),
{
    if picked.len() == 0 {
    } else {
        let k = picked[0];
        crate::claim::lemma_claim_one_wf(db, k, q, worker, expires, now);
        let db1 = crate::claim::claim_one(db, k, q, worker, expires, now);
        assert forall|a: int|
            0 <= a < picked.skip(1).len() implies eligible(
            db1,
            #[trigger] picked.skip(1)[a],
            q,
            now,
        ) by {
            assert(picked.skip(1)[a] == picked[a + 1]);
            assert(eligible(db, picked[a + 1], q, now));
            assert(picked[a + 1] != k) by {
                if picked[a + 1] == k {
                    assert(crate::claim::run_key_lt(db.runs[k], db.runs[picked[a + 1]]));
                    crate::claim::lemma_seq_char_lt_trichotomy(
                        db.runs[k].run_id,
                        db.runs[k].run_id,
                    );
                }
            }
        }
        assert forall|a: int, b: int|
            0 <= a < b < picked.skip(1).len() implies crate::claim::run_key_lt(
            db1.runs[#[trigger] picked.skip(1)[a]],
            db1.runs[#[trigger] picked.skip(1)[b]],
        ) by {
            assert(picked.skip(1)[a] == picked[a + 1]);
            assert(picked.skip(1)[b] == picked[b + 1]);
            assert(crate::claim::run_key_lt(db.runs[picked[a + 1]], db.runs[picked[b + 1]]));
            assert(picked[a + 1] != k && picked[b + 1] != k) by {
                if picked[a + 1] == k {
                    assert(crate::claim::run_key_lt(db.runs[k], db.runs[picked[a + 1]]));
                }
                if picked[b + 1] == k {
                    assert(crate::claim::run_key_lt(db.runs[k], db.runs[picked[b + 1]]));
                }
                crate::claim::lemma_seq_char_lt_trichotomy(db.runs[k].run_id, db.runs[k].run_id);
            }
            assert(db1.runs[picked[a + 1]] == db.runs[picked[a + 1]]);
            assert(db1.runs[picked[b + 1]] == db.runs[picked[b + 1]]);
        }
        lemma_apply_claims_running(db1, picked.skip(1), q, worker, expires, now, dbf);
        assert forall|a: int|
            0 <= a < picked.len() implies (#[trigger] dbf.runs[picked[a]]).state
            == RunState::Running && dbf.runs[picked[a]].claimed_by == Some(worker) && !eligible(
            dbf,
            picked[a],
            q,
            now,
        ) by {
            if a == 0 {
                assert(db1.runs[k] == crate::claim::claimed_run(db.runs[k], worker, expires, now));
                assert(!picked.skip(1).contains(k)) by {
                    if picked.skip(1).contains(k) {
                        let w = choose|w: int|
                            0 <= w < picked.skip(1).len() && picked.skip(1)[w] == k;
                        assert(picked[w + 1] == k);
                        assert(crate::claim::run_key_lt(db.runs[k], db.runs[picked[w + 1]]));
                        crate::claim::lemma_seq_char_lt_trichotomy(
                            db.runs[k].run_id,
                            db.runs[k].run_id,
                        );
                    }
                }
                assert(dbf.runs[k] == db1.runs[k]);
                assert(!eligible(db1, k, q, now));
                assert(!eligible(dbf, k, q, now)) by {
                    if eligible(dbf, k, q, now) {
                        assert(dbf.runs[k].state == RunState::Running);
                    }
                }
            } else {
                assert(picked.skip(1)[a - 1] == picked[a]);
            }
        }
        assert forall|j: int|
            0 <= j < db.runs.len() && !picked.contains(j) implies #[trigger] dbf.runs[j]
            == db.runs[j] by {
            assert(j != k) by {
                if j == k {
                    assert(picked[0] == j);
                }
            }
            assert(!picked.skip(1).contains(j)) by {
                if picked.skip(1).contains(j) {
                    let w = choose|w: int| 0 <= w < picked.skip(1).len() && picked.skip(1)[w] == j;
                    assert(picked[w + 1] == j);
                }
            }
            assert(db1.runs[j] == db.runs[j]);
        }
    }
}

/// Await replay: once a step's checkpoint is committed with a payload,
/// every later await of that step returns it at once and changes
/// nothing — this is what makes a worker restart safe.
pub proof fn lemma_await_replay(
    db: DbV,
    q: Seq<char>,
    tid: Seq<char>,
    rid: Seq<char>,
    step: Seq<char>,
    event: Seq<char>,
    timeout_secs: Option<i64>,
    now: i64,
)
    requires
        db.wf(),
        db.has_checkpoint(q, tid, step),
        db.checkpoint_at(q, tid, step).state is Some,
    ensures
        crate::event::await_tr(db, q, tid, rid, step, event, timeout_secs, now) matches Ok(o)
            && o.0 == db && o.1.should_suspend == 0 && o.1.payload == db.checkpoint_at(
            q,
            tid,
            step,
        ).state,
{
}

/// Await resolution: with no checkpoint yet, a running run awaiting an
/// event that has already been emitted resolves at once to the emitted
/// payload, and that payload is memoized as the step's checkpoint —
/// together with `lemma_await_replay`, the await/emit round trip.
pub proof fn lemma_await_resolves_emitted(
    db: DbV,
    q: Seq<char>,
    tid: Seq<char>,
    rid: Seq<char>,
    step: Seq<char>,
    event: Seq<char>,
    timeout_secs: Option<i64>,
    now: i64,
)
    requires
        db.wf(),
        !db.has_checkpoint(q, tid, step),
        db.has_run(q, rid),
        db.run_at(q, rid).task_id == tid,
        db.run_at(q, rid).state == RunState::Running,
        db.tasks[db.task_idx(q, tid)].state != TaskState::Cancelled,
        db.has_event(q, event),
        db.event_at(q, event).payload is Some,
    ensures
        crate::event::await_tr(db, q, tid, rid, step, event, timeout_secs, now) matches Ok(o) && {
            let payload = db.event_at(q, event).payload;
            &&& o.1.should_suspend == 0
            &&& o.1.payload == payload
            &&& o.0.has_checkpoint(q, tid, step)
            &&& o.0.checkpoint_at(q, tid, step).state == payload
        },
{
    let i = db.run_idx(q, rid);
    assert(db.is_run_at(i, q, rid));
    let r = db.runs[i];
    assert(db.task_idx(q, r.task_id) == db.task_idx(q, tid));
    let db1 = crate::event::ensure_event(db, q, event);
    assert(db1 == db);
    let p = db.event_at(q, event).payload->Some_0;
    let o = crate::event::await_tr(db, q, tid, rid, step, event, timeout_secs, now);
    let had_pending = r.event_payload is Some;
    let db2 = if had_pending {
        DbV { runs: db1.runs.update(i, RunV { event_payload: None, ..r }), ..db1 }
    } else {
        db1
    };
    let c = crate::checkpoint::committed_checkpoint(q, tid, step, Some(p), rid, now);
    assert(o->Ok_0.0 == crate::checkpoint::upsert_checkpoint(db2, c));
    assert(!db2.has_checkpoint(q, tid, step));
    let dbf = o->Ok_0.0;
    let cn = db2.checkpoints.len() as int;
    assert(dbf.checkpoints[cn] == c);
    assert(dbf.has_checkpoint(q, tid, step));
    assert forall|a: int, b: int|
        0 <= a < dbf.checkpoints.len() && 0 <= b < dbf.checkpoints.len()
            && dbf.checkpoints[a].queue_name == dbf.checkpoints[b].queue_name
            && dbf.checkpoints[a].task_id == dbf.checkpoints[b].task_id
            && dbf.checkpoints[a].checkpoint_name == dbf.checkpoints[b].checkpoint_name implies a
        == b by {
        if a < cn && b == cn {
            assert(db2.has_checkpoint(q, tid, step));
        }
        if b < cn && a == cn {
            assert(db2.has_checkpoint(q, tid, step));
        }
    }
    let ci = dbf.checkpoint_idx(q, tid, step);
    assert(0 <= ci < dbf.checkpoints.len() && dbf.checkpoints[ci].queue_name == q
        && dbf.checkpoints[ci].task_id == tid && dbf.checkpoints[ci].checkpoint_name == step);
    assert(ci == cn);
}

} // verus!
