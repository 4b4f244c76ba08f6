use absurd_sqlite::claim::ClaimRow;
use absurd_sqlite::db::Db;
use absurd_sqlite::rows::{Run, Task};
use absurd_sqlite::spawn::{SpawnOptions, SpawnResult};
use absurd_sqlite::state::{
    Cancellation, EngineError, FailureReason, RetryStrategy, RunState, TaskState,
};
use absurd_sqlite::state::retry_delay_ms;
use absurd_sqlite::time::{time_input_ms, TimeInput};

fn s(v: &str) -> String {
    v.to_string()
}

fn plain_opts() -> SpawnOptions {
    SpawnOptions {
        headers: None,
        retry_strategy: RetryStrategy::Unspecified,
        cancellation: Cancellation {
            max_delay_secs: None,
            max_duration_secs: None,
        },
        max_attempts: None,
        idempotency_key: None,
    }
}

fn spawn_demo(db: &mut Db, opts: SpawnOptions, now: i64, tag: &str) -> SpawnResult {
    db.spawn_task(
        &s("alpha"),
        &s("demo"),
        &s("{}"),
        &opts,
        now,
        format!("task-{tag}"),
        format!("run-{tag}"),
    )
    .expect("spawn")
}

fn claim_one(db: &mut Db, now: i64, tag: &str) -> Vec<ClaimRow> {
    let ids = vec![format!("retry-{tag}-a"), format!("retry-{tag}-b")];
    let mut all = ids;
    while all.len() < db.runs.len() {
        let n = all.len();
        all.push(format!("retry-{tag}-{n}"));
    }
    db.claim_task(&s("alpha"), &s("worker"), 30, 1, now, &all)
        .expect("claim")
}

fn run_index(db: &Db, run_id: &str) -> usize {
    db.runs
        .iter()
        .position(|r| r.run_id == run_id)
        .expect("run exists")
}

fn task_index(db: &Db, task_id: &str) -> usize {
    db.tasks
        .iter()
        .position(|t| t.task_id == task_id)
        .expect("task exists")
}

#[test]
fn test_spawn_task_basic() {
    let mut db = Db::new();
    db.create_queue(&s("alpha"), 1).unwrap();
    let row = spawn_demo(&mut db, plain_opts(), 100, "a");
    assert_eq!(row.attempt, 1);
    assert_eq!(row.created, 1);
}

#[test]
fn test_claim_task_basic() {
    let mut db = Db::new();
    db.create_queue(&s("alpha"), 1).unwrap();
    let opts = SpawnOptions {
        headers: Some(s(r#"{"x":1}"#)),
        ..plain_opts()
    };
    let row = spawn_demo(&mut db, opts, 100, "a");

    let claims = claim_one(&mut db, 200, "a");
    assert_eq!(claims.len(), 1);
    assert_eq!(claims[0].run_id, row.run_id);
    assert_eq!(claims[0].task_id, row.task_id);
    assert_eq!(claims[0].attempt, 1);
    assert_eq!(claims[0].task_name, "demo");

    let ri = run_index(&db, &row.run_id);
    assert_eq!(db.runs[ri].state, RunState::Running);
}

#[test]
fn test_claim_task_json_outputs() {
    let mut db = Db::new();
    db.create_queue(&s("alpha"), 1).unwrap();
    let opts = SpawnOptions {
        headers: Some(s(r#"{"x":1}"#)),
        retry_strategy: RetryStrategy::Fixed {
            base_seconds: Some(1),
        },
        ..plain_opts()
    };
    spawn_demo(&mut db, opts, 100, "a");

    let claims = claim_one(&mut db, 200, "a");
    assert_eq!(claims.len(), 1);
    let row = &claims[0];
    assert!(serde_json::from_str::<serde_json::Value>(&row.params).is_ok());
    assert!(serde_json::from_str::<serde_json::Value>(row.headers.as_deref().unwrap()).is_ok());
    assert_eq!(
        row.retry_strategy,
        RetryStrategy::Fixed {
            base_seconds: Some(1)
        }
    );
    assert!(row.event_payload.is_none());
}

#[test]
fn test_claim_task_params_decode_client_side() {
    let mut db = Db::new();
    db.create_queue(&s("alpha"), 1).unwrap();
    db.spawn_task(
        &s("alpha"),
        &s("demo"),
        &s(r#"{"x":1}"#),
        &plain_opts(),
        100,
        s("task-a"),
        s("run-a"),
    )
    .unwrap();

    let claims = claim_one(&mut db, 200, "a");
    let parsed: serde_json::Value = serde_json::from_str(&claims[0].params).unwrap();
    assert_eq!(parsed.get("x").and_then(|v| v.as_i64()), Some(1));
}

#[test]
fn test_schedule_run_basic() {
    let mut db = Db::new();
    db.create_queue(&s("alpha"), 1).unwrap();
    let row = spawn_demo(&mut db, plain_opts(), 100, "a");
    claim_one(&mut db, 200, "a");

    let wake_at = 123456_i64;
    db.schedule_run(&s("alpha"), &row.run_id, wake_at).unwrap();

    let ri = run_index(&db, &row.run_id);
    assert_eq!(db.runs[ri].state, RunState::Sleeping);
    assert_eq!(db.runs[ri].available_at, wake_at);

    let ti = task_index(&db, &row.task_id);
    assert_eq!(db.tasks[ti].state, TaskState::Sleeping);
}

#[test]
fn test_fail_run_basic() {
    let mut db = Db::new();
    db.create_queue(&s("alpha"), 1).unwrap();
    let opts = SpawnOptions {
        retry_strategy: RetryStrategy::Fixed {
            base_seconds: Some(0),
        },
        max_attempts: Some(2),
        ..plain_opts()
    };
    let row = spawn_demo(&mut db, opts, 100, "a");
    claim_one(&mut db, 200, "a");

    let retry_at = time_input_ms(&TimeInput::Rfc3339(s("1970-01-01T00:00:00Z"))).unwrap();
    db.fail_run(
        &s("alpha"),
        &row.run_id,
        &s(r#"{"name":"err","message":"boom"}"#),
        Some(retry_at),
        300,
        s("run-a2"),
    )
    .unwrap();

    let ri = run_index(&db, &row.run_id);
    assert_eq!(db.runs[ri].state, RunState::Failed);

    let next = db
        .runs
        .iter()
        .find(|r| r.task_id == row.task_id && r.attempt == 2)
        .expect("retry run");
    assert_eq!(next.attempt, 2);
    assert_eq!(next.state, RunState::Pending);
}

#[test]
fn test_complete_run_basic() {
    let mut db = Db::new();
    db.create_queue(&s("alpha"), 1).unwrap();
    let row = spawn_demo(&mut db, plain_opts(), 100, "a");
    claim_one(&mut db, 200, "a");

    let state = s(r#"{"ok":true}"#);
    db.complete_run(&s("alpha"), &row.run_id, &Some(state.clone()), 300)
        .unwrap();

    let ri = run_index(&db, &row.run_id);
    assert_eq!(db.runs[ri].state, RunState::Completed);
    assert_eq!(db.runs[ri].result.as_deref(), Some(state.as_str()));

    let ti = task_index(&db, &row.task_id);
    assert_eq!(db.tasks[ti].state, TaskState::Completed);
    assert_eq!(db.tasks[ti].completed_payload.as_deref(), Some(state.as_str()));
}

#[test]
fn test_extend_claim_basic() {
    let mut db = Db::new();
    db.create_queue(&s("alpha"), 1).unwrap();
    let row = spawn_demo(&mut db, plain_opts(), 100, "a");
    claim_one(&mut db, 200, "a");

    let ri = run_index(&db, &row.run_id);
    let before = db.runs[ri].claim_expires_at.unwrap_or(0);

    db.extend_claim(&s("alpha"), &row.run_id, 60, 200).unwrap();

    let after = db.runs[ri].claim_expires_at.unwrap_or(0);
    assert!(after >= before);
}

#[test]
fn test_checkpoint_roundtrip() {
    let mut db = Db::new();
    db.create_queue(&s("alpha"), 1).unwrap();
    let row = spawn_demo(&mut db, plain_opts(), 100, "a");
    claim_one(&mut db, 200, "a");

    let payload = s(r#"{"step":1}"#);
    db.set_task_checkpoint_state(
        &s("alpha"),
        &row.task_id,
        &s("stepA"),
        &payload,
        &row.run_id,
        None,
        300,
    )
    .unwrap();

    let cp = db
        .get_task_checkpoint_state(&s("alpha"), &row.task_id, &s("stepA"))
        .unwrap()
        .expect("checkpoint exists");
    assert_eq!(cp.checkpoint_name, "stepA");
    assert_eq!(cp.state.as_deref(), Some(payload.as_str()));
    assert_eq!(cp.status, "committed");

    let all = db
        .get_task_checkpoint_states(&s("alpha"), &row.task_id)
        .unwrap();
    assert_eq!(all.len(), 1);
}

#[test]
fn test_await_and_emit_event() {
    let mut db = Db::new();
    db.create_queue(&s("alpha"), 1).unwrap();
    let row = spawn_demo(&mut db, plain_opts(), 100, "a");
    claim_one(&mut db, 200, "a");

    let first = db
        .await_event(
            &s("alpha"),
            &row.task_id,
            &row.run_id,
            &s("stepA"),
            &s("eventA"),
            None,
            300,
        )
        .unwrap();
    assert_eq!(first.should_suspend, 1);
    assert!(first.payload.is_none());

    let payload = s(r#"{"ok":true}"#);
    db.emit_event(&s("alpha"), &s("eventA"), &Some(payload.clone()), 400)
        .unwrap();

    let claims = claim_one(&mut db, 500, "b");
    assert_eq!(claims[0].run_id, row.run_id);

    let second = db
        .await_event(
            &s("alpha"),
            &row.task_id,
            &row.run_id,
            &s("stepA"),
            &s("eventA"),
            None,
            600,
        )
        .unwrap();
    assert_eq!(second.should_suspend, 0);
    assert_eq!(second.payload.as_deref(), Some(payload.as_str()));
}

#[test]
fn test_cleanup_tasks_and_events() {
    let mut db = Db::new();
    db.create_queue(&s("alpha"), 1).unwrap();
    let row = spawn_demo(&mut db, plain_opts(), 100, "a");
    claim_one(&mut db, 200, "a");
    db.complete_run(&s("alpha"), &row.run_id, &Some(s(r#"{"ok":true}"#)), 300)
        .unwrap();

    let ri = run_index(&db, &row.run_id);
    db.runs[ri].completed_at = Some(1);

    db.emit_event(&s("alpha"), &s("eventA"), &None, 400).unwrap();
    let ei = db
        .events
        .iter()
        .position(|e| e.event_name == "eventA")
        .unwrap();
    db.events[ei].emitted_at = 1;

    let now = 10_000_000;
    let deleted_tasks = db
        .cleanup_tasks(&s("alpha"), 1, Some(100), now)
        .unwrap();
    assert_eq!(deleted_tasks, 1);

    let deleted_events = db
        .cleanup_events(&s("alpha"), 1, Some(100), now)
        .unwrap();
    assert_eq!(deleted_events, 1);
}

#[test]
fn test_cleanup_large_batches() {
    let mut db = Db::new();
    db.create_queue(&s("alpha"), 1).unwrap();

    let total_tasks = 12_000;
    let total_events = 12_000;

    for index in 0..total_tasks {
        let task_id = format!("task_{index}");
        let run_id = format!("run_{index}");
        db.tasks.push(Task {
            queue_name: s("alpha"),
            task_id: task_id.clone(),
            task_name: s("demo"),
            params: s("{}"),
            headers: None,
            retry_strategy: RetryStrategy::Unspecified,
            max_attempts: None,
            cancellation: Cancellation {
                max_delay_secs: None,
                max_duration_secs: None,
            },
            enqueue_at: 1,
            first_started_at: Some(1),
            state: TaskState::Completed,
            attempts: 1,
            last_attempt_run: run_id.clone(),
            completed_payload: None,
            cancelled_at: None,
            idempotency_key: None,
        });
        db.runs.push(Run {
            queue_name: s("alpha"),
            run_id,
            task_id,
            attempt: 1,
            state: RunState::Completed,
            available_at: 1,
            claimed_by: None,
            claim_expires_at: None,
            started_at: Some(1),
            completed_at: Some(1),
            failed_at: None,
            result: None,
            failure_reason: None,
            wake_event: None,
            event_payload: None,
            created_at: 1,
        });
    }
    for index in 0..total_events {
        db.emit_event(&s("alpha"), &format!("event_{index}"), &None, 1)
            .unwrap();
    }

    let now = 10_000_000;
    let mut deleted_tasks = 0;
    loop {
        let deleted = db.cleanup_tasks(&s("alpha"), 1, Some(500), now).unwrap();
        deleted_tasks += deleted;
        if deleted == 0 {
            break;
        }
    }
    assert_eq!(deleted_tasks, total_tasks);
    assert_eq!(db.tasks.len(), 0);

    let mut deleted_events = 0;
    loop {
        let deleted = db.cleanup_events(&s("alpha"), 1, Some(500), now).unwrap();
        deleted_events += deleted;
        if deleted == 0 {
            break;
        }
    }
    assert_eq!(deleted_events, total_events);
    assert_eq!(db.events.len(), 0);
}

#[test]
fn test_cancel_task_basic() {
    let mut db = Db::new();
    db.create_queue(&s("alpha"), 1).unwrap();
    let row = spawn_demo(&mut db, plain_opts(), 100, "a");

    db.cancel_task(&s("alpha"), &row.task_id, 200).unwrap();

    let ti = task_index(&db, &row.task_id);
    assert_eq!(db.tasks[ti].state, TaskState::Cancelled);

    let ri = run_index(&db, &row.run_id);
    assert_eq!(db.runs[ri].state, RunState::Cancelled);
}

#[test]
fn spawn_is_idempotent_under_one_key() {
    let mut db = Db::new();
    db.create_queue(&s("alpha"), 1).unwrap();
    let opts = SpawnOptions {
        idempotency_key: Some(s("key-1")),
        ..plain_opts()
    };
    let first = db
        .spawn_task(&s("alpha"), &s("demo"), &s("{}"), &opts, 100, s("t1"), s("r1"))
        .unwrap();
    let opts2 = SpawnOptions {
        idempotency_key: Some(s("key-1")),
        ..plain_opts()
    };
    let second = db
        .spawn_task(&s("alpha"), &s("demo"), &s("{}"), &opts2, 200, s("t2"), s("r2"))
        .unwrap();
    assert_eq!(first.created, 1);
    assert_eq!(second.created, 0);
    assert_eq!(second.task_id, first.task_id);
    assert_eq!(second.run_id, first.run_id);
    assert_eq!(db.tasks.len(), 1);
}

#[test]
fn claim_timeout_failure_reason_names_claim_timeout() {
    let mut db = Db::new();
    db.create_queue(&s("alpha"), 1).unwrap();
    let opts = SpawnOptions {
        retry_strategy: RetryStrategy::Fixed {
            base_seconds: Some(60),
        },
        max_attempts: Some(2),
        ..plain_opts()
    };
    let row = spawn_demo(&mut db, opts, 100, "a");
    claim_one(&mut db, 200, "a");

    // let the claim deadline pass, then reconcile on the next claim
    let later = 200 + 30 * 1000 + 1;
    let ids: Vec<String> = (0..db.runs.len()).map(|i| format!("fresh-{i}")).collect();
    db.claim_task(&s("alpha"), &s("worker2"), 30, 1, later, &ids)
        .unwrap();

    let ri = run_index(&db, &row.run_id);
    assert_eq!(db.runs[ri].state, RunState::Failed);
    match db.runs[ri].failure_reason.as_ref().expect("reason") {
        FailureReason::ClaimTimeout {
            worker_id,
            claim_expired_at,
            attempt,
        } => {
            assert_eq!(worker_id.as_deref(), Some("worker"));
            assert_eq!(*claim_expired_at, Some(200 + 30 * 1000));
            assert_eq!(*attempt, 1);
        }
        other => panic!("unexpected reason {other:?}"),
    }

    let retry = db
        .runs
        .iter()
        .find(|r| r.task_id == row.task_id && r.attempt == 2)
        .expect("retry run");
    assert_eq!(retry.state, RunState::Sleeping);
}

#[test]
fn errors_name_their_causes() {
    let mut db = Db::new();
    db.create_queue(&s("alpha"), 1).unwrap();
    let row = spawn_demo(&mut db, plain_opts(), 100, "a");

    // invalid JSON reason is rejected before anything changes
    let bad = db.fail_run(
        &s("alpha"),
        &row.run_id,
        &s("not json"),
        None,
        200,
        s("rx"),
    );
    assert_eq!(bad, Err(EngineError::Validation));

    // completing a run that is not running is a state error
    let not_running = db.complete_run(&s("alpha"), &row.run_id, &None, 200);
    assert_eq!(not_running, Err(EngineError::WrongState));

    // a missing run is not found
    let missing = db.complete_run(&s("alpha"), &s("nope"), &None, 200);
    assert_eq!(missing, Err(EngineError::NotFound));

    // a blank queue name is rejected
    let blank = db.cancel_task(&s("   "), &row.task_id, 200);
    assert_eq!(blank, Err(EngineError::Validation));

    // max_attempts below one is rejected
    let opts = SpawnOptions {
        max_attempts: Some(0),
        ..plain_opts()
    };
    let zero = db.spawn_task(&s("alpha"), &s("demo"), &s("{}"), &opts, 100, s("t9"), s("r9"));
    assert!(matches!(zero, Err(EngineError::Validation)));

    // operations on a cancelled task report the cancellation
    claim_one(&mut db, 300, "a");
    db.cancel_task(&s("alpha"), &row.task_id, 400).unwrap();
    let cancelled = db.extend_claim(&s("alpha"), &row.run_id, 60, 500);
    assert_eq!(cancelled, Err(EngineError::Cancelled));
}

#[test]
fn retry_delay_follows_the_strategy() {
    assert_eq!(retry_delay_ms(&RetryStrategy::Unspecified, 1), 0);
    assert_eq!(
        retry_delay_ms(&RetryStrategy::Fixed { base_seconds: None }, 3),
        60_000
    );
    assert_eq!(
        retry_delay_ms(
            &RetryStrategy::Fixed {
                base_seconds: Some(2)
            },
            5
        ),
        2_000
    );
    assert_eq!(
        retry_delay_ms(
            &RetryStrategy::Exponential {
                base_seconds: Some(3),
                factor: Some(2),
                max_seconds: None
            },
            3
        ),
        12_000
    );
    assert_eq!(
        retry_delay_ms(
            &RetryStrategy::Exponential {
                base_seconds: Some(3),
                factor: Some(2),
                max_seconds: Some(10)
            },
            3
        ),
        10_000
    );
}

#[test]
fn cancellation_window_cancels_instead_of_retry() {
    let mut db = Db::new();
    db.create_queue(&s("alpha"), 1).unwrap();
    let opts = SpawnOptions {
        retry_strategy: RetryStrategy::Fixed {
            base_seconds: Some(60),
        },
        cancellation: Cancellation {
            max_delay_secs: None,
            max_duration_secs: Some(10),
        },
        ..plain_opts()
    };
    let row = spawn_demo(&mut db, opts, 100, "a");
    claim_one(&mut db, 200, "a");

    // failing now would schedule the retry past the duration window
    db.fail_run(
        &s("alpha"),
        &row.run_id,
        &s(r#"{"name":"err"}"#),
        None,
        300,
        s("rx"),
    )
    .unwrap();

    let ti = task_index(&db, &row.task_id);
    assert_eq!(db.tasks[ti].state, TaskState::Cancelled);
    assert_eq!(db.tasks[ti].cancelled_at, Some(300));
}

#[test]
fn fresh_ids_are_distinct_uuids() {
    let db = Db::new();
    let ids = db
        .fresh_run_ids(&s("alpha"), 3)
        .expect("no collision expected");
    assert_eq!(ids.len(), 3);
    assert_eq!(ids[0].len(), 36);
    assert_ne!(ids[0], ids[1]);
    assert_ne!(ids[1], ids[2]);
    assert_ne!(ids[0], ids[2]);
}

#[test]
fn rfc3339_times_become_milliseconds() {
    assert_eq!(
        time_input_ms(&TimeInput::Rfc3339("1970-01-01T00:01:27Z".to_string())),
        Ok(87_000)
    );
    assert_eq!(time_input_ms(&TimeInput::Millis(87_000)), Ok(87_000));
    assert_eq!(
        time_input_ms(&TimeInput::Rfc3339("yesterday".to_string())),
        Err(EngineError::Validation)
    );
}
