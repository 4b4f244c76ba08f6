use absurd_sqlite::db::Db;
use absurd_sqlite::spawn::{SpawnOptions, SpawnResult};
use absurd_sqlite::state::{
    Cancellation, FailureReason, RetryStrategy, RunState, TaskState,
};
use absurd_sqlite::time::{time_input_ms, TimeInput};

fn name(v: &str) -> String {
    v.to_string()
}

fn bare_opts() -> SpawnOptions {
    SpawnOptions {
        headers: None,
        retry_strategy: RetryStrategy::Unspecified,
        cancellation: Cancellation {
            max_delay_secs: None,
            max_duration_secs: None,
        },
        max_attempts: None,
        idempotency_key: None,
    }
}

fn fresh_store() -> Db {
    let mut db = Db::new();
    db.create_queue(&name("alpha"), 1).unwrap();
    db
}

fn spawn_at(db: &mut Db, opts: SpawnOptions, now: i64, tag: &str) -> SpawnResult {
    db.spawn_task(
        &name("alpha"),
        &name("demo"),
        &name("{}"),
        &opts,
        now,
        format!("itask-{tag}"),
        format!("irun-{tag}"),
    )
    .unwrap()
}

fn claim_with(db: &mut Db, worker: &str, now: i64, tag: &str) -> Vec<absurd_sqlite::claim::ClaimRow> {
    let ids: Vec<String> = (0..db.runs.len().max(1))
        .map(|i| format!("iretry-{tag}-{i}"))
        .collect();
    db.claim_task(&name("alpha"), &name(worker), 30, 1, now, &ids)
        .unwrap()
}

fn run_pos(db: &Db, run_id: &str) -> usize {
    db.runs.iter().position(|r| r.run_id == run_id).unwrap()
}

fn task_pos(db: &Db, task_id: &str) -> usize {
    db.tasks.iter().position(|t| t.task_id == task_id).unwrap()
}

#[test]
fn test_extension_with_real_db() {
    let mut db = fresh_store();
    let row = spawn_at(&mut db, bare_opts(), 100, "a");
    assert_eq!(row.attempt, 1);
    assert_eq!(row.created, 1);
    assert_eq!(db.tasks.len(), 1);

    let claims = claim_with(&mut db, "worker", 200, "a");
    assert_eq!(claims[0].run_id, row.run_id);
    assert_eq!(claims[0].task_id, row.task_id);
    assert_eq!(claims[0].attempt, 1);
    assert_eq!(claims[0].task_name, "demo");

    let ri = run_pos(&db, &row.run_id);
    assert_eq!(db.runs[ri].claimed_by.as_deref(), Some("worker"));
    assert!(db.runs[ri].claim_expires_at.unwrap_or(0) > 0);
}

#[test]
fn test_claim_timeout_creates_retry_run() {
    let mut db = fresh_store();
    let opts = SpawnOptions {
        retry_strategy: RetryStrategy::Fixed {
            base_seconds: Some(60),
        },
        max_attempts: Some(2),
        ..bare_opts()
    };
    let row = spawn_at(&mut db, opts, 100, "a");

    // put the run under an already expired claim
    let ri = run_pos(&db, &row.run_id);
    db.runs[ri].state = RunState::Running;
    db.runs[ri].claimed_by = Some("worker".to_string());
    db.runs[ri].claim_expires_at = Some(1);
    db.runs[ri].started_at = Some(1);
    let ti = task_pos(&db, &row.task_id);
    db.tasks[ti].state = TaskState::Running;
    db.tasks[ti].first_started_at = Some(1);

    claim_with(&mut db, "worker2", 100_000, "a");

    let ri = run_pos(&db, &row.run_id);
    assert_eq!(db.runs[ri].state, RunState::Failed);
    assert!(matches!(
        db.runs[ri].failure_reason,
        Some(FailureReason::ClaimTimeout { .. })
    ));

    let retry = db
        .runs
        .iter()
        .find(|r| r.task_id == row.task_id && r.attempt == 2)
        .expect("retry run");
    assert_eq!(retry.attempt, 2);
    assert_eq!(retry.state, RunState::Sleeping);

    let ti = task_pos(&db, &row.task_id);
    assert_eq!(db.tasks[ti].state, TaskState::Sleeping);
}

#[test]
fn test_schedule_and_fail_run_integration() {
    let mut db = fresh_store();
    let opts = SpawnOptions {
        retry_strategy: RetryStrategy::Fixed {
            base_seconds: Some(0),
        },
        max_attempts: Some(2),
        ..bare_opts()
    };
    let row = spawn_at(&mut db, opts, 100, "a");

    let claim1 = claim_with(&mut db, "worker", 200, "a");
    assert_eq!(claim1[0].run_id, row.run_id);

    db.fail_run(
        &name("alpha"),
        &row.run_id,
        &name(r#"{"name":"err","message":"boom"}"#),
        None,
        300,
        name("irun-a2"),
    )
    .unwrap();

    let ri = run_pos(&db, &row.run_id);
    assert_eq!(db.runs[ri].state, RunState::Failed);

    let claim2 = claim_with(&mut db, "worker", 400, "b");
    assert_eq!(claim2[0].attempt, 2);

    let wake_at = time_input_ms(&TimeInput::Rfc3339(name("1970-01-01T00:01:27Z"))).unwrap();
    db.schedule_run(&name("alpha"), &claim2[0].run_id, wake_at)
        .unwrap();

    let ri2 = run_pos(&db, &claim2[0].run_id);
    assert_eq!(db.runs[ri2].state, RunState::Sleeping);
    assert_eq!(db.runs[ri2].available_at, 87_000);

    let ti = task_pos(&db, &row.task_id);
    assert_eq!(db.tasks[ti].state, TaskState::Sleeping);
}

#[test]
fn test_complete_and_extend_claim_integration() {
    let mut db = fresh_store();
    let row = spawn_at(&mut db, bare_opts(), 100, "a");
    claim_with(&mut db, "worker", 200, "a");

    let ri = run_pos(&db, &row.run_id);
    let before = db.runs[ri].claim_expires_at.unwrap_or(0);

    db.extend_claim(&name("alpha"), &row.run_id, 60, 250).unwrap();
    let after = db.runs[ri].claim_expires_at.unwrap_or(0);
    assert!(after >= before);

    let state = name(r#"{"ok":true}"#);
    db.complete_run(&name("alpha"), &row.run_id, &Some(state.clone()), 300)
        .unwrap();

    assert_eq!(db.runs[ri].state, RunState::Completed);
    assert_eq!(db.runs[ri].result.as_deref(), Some(state.as_str()));

    let ti = task_pos(&db, &row.task_id);
    assert_eq!(db.tasks[ti].state, TaskState::Completed);
    assert_eq!(
        db.tasks[ti].completed_payload.as_deref(),
        Some(state.as_str())
    );
}

#[test]
fn test_checkpoint_and_event_integration() {
    let mut db = fresh_store();
    let row = spawn_at(&mut db, bare_opts(), 100, "a");
    claim_with(&mut db, "worker", 200, "a");

    let payload = name(r#"{"step":1}"#);
    db.set_task_checkpoint_state(
        &name("alpha"),
        &row.task_id,
        &name("stepA"),
        &payload,
        &row.run_id,
        None,
        300,
    )
    .unwrap();

    let cp = db
        .get_task_checkpoint_state(&name("alpha"), &row.task_id, &name("stepA"))
        .unwrap()
        .expect("checkpoint");
    assert_eq!(cp.checkpoint_name, "stepA");
    assert_eq!(cp.state.as_deref(), Some(payload.as_str()));

    let first = db
        .await_event(
            &name("alpha"),
            &row.task_id,
            &row.run_id,
            &name("stepB"),
            &name("eventB"),
            None,
            400,
        )
        .unwrap();
    assert_eq!(first.should_suspend, 1);
    assert!(first.payload.is_none());

    let event_payload = name(r#"{"ok":true}"#);
    db.emit_event(&name("alpha"), &name("eventB"), &Some(event_payload.clone()), 500)
        .unwrap();

    let reclaim = claim_with(&mut db, "worker", 600, "b");
    assert_eq!(reclaim[0].run_id, row.run_id);

    let second = db
        .await_event(
            &name("alpha"),
            &row.task_id,
            &row.run_id,
            &name("stepB"),
            &name("eventB"),
            None,
            700,
        )
        .unwrap();
    assert_eq!(second.should_suspend, 0);
    assert_eq!(second.payload.as_deref(), Some(event_payload.as_str()));
}

#[test]
fn test_cleanup_integration() {
    let mut db = fresh_store();
    let row = spawn_at(&mut db, bare_opts(), 100, "a");
    claim_with(&mut db, "worker", 200, "a");
    db.complete_run(&name("alpha"), &row.run_id, &Some(name(r#"{"ok":true}"#)), 300)
        .unwrap();

    let ri = run_pos(&db, &row.run_id);
    db.runs[ri].completed_at = Some(1);

    db.emit_event(&name("alpha"), &name("eventA"), &None, 400)
        .unwrap();
    let ei = db
        .events
        .iter()
        .position(|e| e.event_name == "eventA")
        .unwrap();
    db.events[ei].emitted_at = 1;

    let now = 10_000_000;
    assert_eq!(db.cleanup_tasks(&name("alpha"), 1, Some(100), now), Ok(1));
    assert_eq!(db.cleanup_events(&name("alpha"), 1, Some(100), now), Ok(1));
}

#[test]
fn test_cancel_task_integration() {
    let mut db = fresh_store();
    let row = spawn_at(&mut db, bare_opts(), 100, "a");

    db.cancel_task(&name("alpha"), &row.task_id, 200).unwrap();

    let ti = task_pos(&db, &row.task_id);
    assert_eq!(db.tasks[ti].state, TaskState::Cancelled);

    let ri = run_pos(&db, &row.run_id);
    assert_eq!(db.runs[ri].state, RunState::Cancelled);

    // cancelling again is a no-op
    db.cancel_task(&name("alpha"), &row.task_id, 300).unwrap();
    assert_eq!(db.tasks[ti].state, TaskState::Cancelled);
}
