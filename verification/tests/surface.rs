use absurd_sqlite::db::Db;
use absurd_sqlite::migrate::{version, MigrationInfo};
use absurd_sqlite::monitor::{map_task_status, DatabaseHandle, Source, TaskStatus};
use absurd_sqlite::rows::{Event, Run, Task};
use absurd_sqlite::state::{Cancellation, EngineError, RetryStrategy, RunState, TaskState};

fn q(v: &str) -> String {
    v.to_string()
}

fn known_migrations() -> Vec<MigrationInfo> {
    vec![MigrationInfo {
        id: 1,
        introduced_version: "0.1.0".to_string(),
    }]
}

#[test]
fn test_absurd_version() {
    assert_eq!(version(), "absurd-sqlite/0.1.0");
}

#[test]
fn test_apply_migrations_and_records() {
    let mut db = Db::new();
    let applied = db
        .apply_migrations(&known_migrations(), None, 777)
        .unwrap();
    assert!(applied >= 1);

    let records = db.migration_records();
    assert!(records.len() >= 1);
    assert_eq!(records[0].id, 1);
    assert!(!records[0].introduced_version.trim().is_empty());
    assert!(records[0].applied_time > 0);

    let applied_again = db
        .apply_migrations(&known_migrations(), None, 888)
        .unwrap();
    assert_eq!(applied_again, 0);

    assert_eq!(db.create_queue(&q("alpha"), 999), Ok(1));
}

#[test]
fn test_set_fake_now() {
    let mut db = Db::new();
    assert_eq!(db.set_fake_now(Some(12345)), 1);
    let now = db.now_ms_from_db();
    db.apply_migrations(&known_migrations(), None, now).unwrap();
    let records = db.migration_records();
    assert_eq!(records[0].applied_time, 12345);

    assert_eq!(db.set_fake_now(None), 1);
    assert!(db.now_ms_from_db() >= 0);
}

#[test]
fn test_apply_migrations_to_target() {
    let mut db = Db::new();
    let applied = db
        .apply_migrations(&known_migrations(), Some(1), 777)
        .unwrap();
    assert_eq!(applied, 1);
}

#[test]
fn migration_targets_are_checked() {
    let mut db = Db::new();
    db.apply_migrations(&known_migrations(), Some(1), 777)
        .unwrap();
    // older than what is applied
    assert_eq!(
        db.apply_migrations(&known_migrations(), Some(0), 777),
        Err(EngineError::Validation)
    );
    // newer than what is known
    assert_eq!(
        db.apply_migrations(&known_migrations(), Some(2), 777),
        Err(EngineError::Validation)
    );
}

#[test]
fn test_list_queues() {
    let mut db = Db::new();
    db.apply_migrations(&known_migrations(), None, 1).unwrap();
    db.create_queue(&q("alpha"), 10).unwrap();
    db.create_queue(&q("beta"), 20).unwrap();

    let queues: Vec<String> = db
        .list_queues()
        .into_iter()
        .map(|row| row.queue_name)
        .collect();
    assert_eq!(queues, vec!["alpha".to_string(), "beta".to_string()]);
}

#[test]
fn test_drop_queue() {
    let mut db = Db::new();
    db.apply_migrations(&known_migrations(), None, 1).unwrap();
    db.create_queue(&q("alpha"), 10).unwrap();

    assert_eq!(db.drop_queue(&q("alpha")), Ok(1));
    assert_eq!(db.list_queues().len(), 0);
    assert_eq!(db.drop_queue(&q("alpha")), Ok(0));
}

fn seed_monitor_rows(db: &mut Db, now_ms: i64) {
    db.create_queue(&q("default"), now_ms - 1000).unwrap();
    let params = r#"{"tenant":"absurd","retries":2}"#.to_string();

    let mut push_task = |task_id: &str, name: &str, enqueue: i64, state: TaskState, run: &str| {
        db.tasks.push(Task {
            queue_name: q("default"),
            task_id: task_id.to_string(),
            task_name: name.to_string(),
            params: params.clone(),
            headers: None,
            retry_strategy: RetryStrategy::Unspecified,
            max_attempts: None,
            cancellation: Cancellation {
                max_delay_secs: None,
                max_duration_secs: None,
            },
            enqueue_at: enqueue,
            first_started_at: None,
            state,
            attempts: 1,
            last_attempt_run: run.to_string(),
            completed_payload: None,
            cancelled_at: None,
            idempotency_key: None,
        });
    };
    push_task(
        "task_pending",
        "pending",
        now_ms - 10_000,
        TaskState::Pending,
        "run_pending",
    );
    push_task(
        "task_running",
        "running",
        now_ms - 20_000,
        TaskState::Running,
        "run_running",
    );
    push_task(
        "task_completed",
        "completed",
        now_ms - 30_000,
        TaskState::Completed,
        "run_completed",
    );
    push_task(
        "task_cancelled",
        "cancelled",
        now_ms - 15_000,
        TaskState::Cancelled,
        "run_cancelled",
    );

    let mut push_run = |run_id: &str, task_id: &str, state: RunState, avail: i64, worker: Option<&str>| {
        db.runs.push(Run {
            queue_name: q("default"),
            run_id: run_id.to_string(),
            task_id: task_id.to_string(),
            attempt: 1,
            state,
            available_at: avail,
            claimed_by: worker.map(|w| w.to_string()),
            claim_expires_at: None,
            started_at: None,
            completed_at: None,
            failed_at: None,
            result: None,
            failure_reason: None,
            wake_event: None,
            event_payload: None,
            created_at: avail,
        });
    };
    push_run(
        "run_running",
        "task_running",
        RunState::Running,
        now_ms - 5_000,
        Some("worker-1"),
    );
    push_run(
        "run_completed",
        "task_completed",
        RunState::Completed,
        now_ms - 25_000,
        None,
    );
    push_run(
        "run_pending",
        "task_pending",
        RunState::Pending,
        now_ms - 1_000,
        None,
    );
    push_run(
        "run_cancelled",
        "task_cancelled",
        RunState::Cancelled,
        now_ms - 1_000,
        None,
    );

    db.events.push(Event {
        queue_name: q("default"),
        event_name: "task.completed".to_string(),
        payload: Some(r#"{"taskId":"task_completed"}"#.to_string()),
        emitted_at: now_ms - 2_000,
    });
}

#[test]
fn overview_metrics_counts() {
    let now_ms = 1_700_000_000_000;
    let mut db = Db::new();
    seed_monitor_rows(&mut db, now_ms);

    let metrics = db.overview_metrics(now_ms);
    assert_eq!(metrics.active_queues, 1);
    assert_eq!(metrics.messages_processed, 2);
    assert_eq!(metrics.messages_in_queue, 1);
    assert_eq!(metrics.visible_now, 1);
}

#[test]
fn queue_metrics_show_ages_and_counts() {
    let now_ms = 1_700_000_000_000;
    let mut db = Db::new();
    seed_monitor_rows(&mut db, now_ms);

    let metric = db.queue_metric(
        &q("default"),
        now_ms,
        "10s".to_string(),
        "30s".to_string(),
        "now".to_string(),
    );
    assert_eq!(metric.name, "default");
    assert_eq!(metric.in_queue, 1);
    assert_eq!(metric.visible, 1);
    assert_eq!(metric.total_seen, 4);
    assert_eq!(metric.newest_age, "10s");
    assert_eq!(metric.oldest_age, "30s");
    assert_eq!(metric.scraped_at, "now");
}

#[test]
fn queue_summaries_include_state_counts() {
    let now_ms = 1_700_000_000_000;
    let mut db = Db::new();
    seed_monitor_rows(&mut db, now_ms);

    let summary = db.queue_summary(&q("default"), "Created earlier".to_string(), "1s ago".to_string());
    assert_eq!(summary.name, "default");
    assert_eq!(summary.stats.len(), 6);
    assert_eq!(summary.stats[0].label, "Pending");
    assert_eq!(summary.stats[0].value, 1);
    assert_eq!(summary.stats[5].label, "Cancelled");
    assert_eq!(summary.stats[5].value, 1);
}

#[test]
fn events_and_filters_work() {
    let now_ms = 1_700_000_000_000;
    let mut db = Db::new();
    seed_monitor_rows(&mut db, now_ms);

    let defaults = db.event_filter_defaults("All queues".to_string());
    assert_eq!(defaults.event_name_placeholder, "task.completed");
    assert_eq!(defaults.queue_label, "All queues");
    assert_eq!(
        defaults.queue_options,
        vec!["All queues".to_string(), "default".to_string()]
    );
}

#[test]
fn task_status_labels_match_states() {
    assert_eq!(map_task_status(TaskState::Running), TaskStatus::Running);
    assert_eq!(map_task_status(TaskState::Failed), TaskStatus::Failed);
    assert_eq!(map_task_status(TaskState::Completed), TaskStatus::Completed);
    assert_eq!(map_task_status(TaskState::Sleeping), TaskStatus::Sleeping);
    assert_eq!(map_task_status(TaskState::Pending), TaskStatus::Pending);
    assert_eq!(map_task_status(TaskState::Cancelled), TaskStatus::Cancelled);
}

#[test]
fn database_handle_remembers_its_path() {
    let handle = DatabaseHandle::from_path(&"/tmp/store.db".to_string());
    match handle.source {
        Source::Path(p) => assert_eq!(p, "/tmp/store.db"),
        Source::AppData => panic!("expected a path"),
    }
}
