use crate::state::clone_opt_string;
use crate::state::Cancellation;
use crate::state::FailureReason;
use crate::state::FailureReasonV;
use crate::state::RetryStrategy;
use crate::state::RunState;
use crate::state::TaskState;
use vstd::prelude::*;

verus! {

/// A named namespace; all other entities live under exactly one queue.
pub struct Queue {
    pub queue_name: String,
    pub created_at: i64,
}

pub struct QueueV {
    pub queue_name: Seq<char>,
    pub created_at: i64,
}

impl View for Queue {
    type V = QueueV;

    open spec fn view(&self) -> QueueV {
        QueueV { queue_name: self.queue_name@, created_at: self.created_at }
    }
}

/// A unit of work with parameters and policy; owns one or more runs.
pub struct Task {
    pub queue_name: String,
    pub task_id: String,
    pub task_name: String,
    /// Parameter JSON, as handed to spawn (`"null"` when absent).
    pub params: String,
    /// Header JSON, if any.
    pub headers: Option<String>,
    pub retry_strategy: RetryStrategy,
    pub max_attempts: Option<i64>,
    pub cancellation: Cancellation,
    pub enqueue_at: i64,
    pub first_started_at: Option<i64>,
    pub state: TaskState,
    /// The highest attempt number among the task's runs.
    pub attempts: i64,
    /// The run of the latest attempt; always references an existing run.
    pub last_attempt_run: String,
    pub completed_payload: Option<String>,
    pub cancelled_at: Option<i64>,
    pub idempotency_key: Option<String>,
}

pub struct TaskV {
    pub queue_name: Seq<char>,
    pub task_id: Seq<char>,
    pub task_name: Seq<char>,
    pub params: Seq<char>,
    pub headers: Option<Seq<char>>,
    pub retry_strategy: RetryStrategy,
    pub max_attempts: Option<i64>,
    pub cancellation: Cancellation,
    pub enqueue_at: i64,
    pub first_started_at: Option<i64>,
    pub state: TaskState,
    pub attempts: i64,
    pub last_attempt_run: Seq<char>,
    pub completed_payload: Option<Seq<char>>,
    pub cancelled_at: Option<i64>,
    pub idempotency_key: Option<Seq<char>>,
}

impl View for Task {
    type V = TaskV;

    open spec fn view(&self) -> TaskV {
        TaskV {
            queue_name: self.queue_name@,
            task_id: self.task_id@,
            task_name: self.task_name@,
            params: self.params@,
            headers: self.headers.deep_view(),
            retry_strategy: self.retry_strategy,
            max_attempts: self.max_attempts,
            cancellation: self.cancellation,
            enqueue_at: self.enqueue_at,
            first_started_at: self.first_started_at,
            state: self.state,
            attempts: self.attempts,
            last_attempt_run: self.last_attempt_run@,
            completed_payload: self.completed_payload.deep_view(),
            cancelled_at: self.cancelled_at,
            idempotency_key: self.idempotency_key.deep_view(),
        }
    }
}

/// One attempt at executing a task.
pub struct Run {
    pub queue_name: String,
    pub run_id: String,
    pub task_id: String,
    /// 1-based ordinal of this run within its task's retry history.
    pub attempt: i64,
    pub state: RunState,
    /// When the run becomes eligible for claiming, in ms since the epoch.
    pub available_at: i64,
    pub claimed_by: Option<String>,
    pub claim_expires_at: Option<i64>,
    pub started_at: Option<i64>,
    pub completed_at: Option<i64>,
    pub failed_at: Option<i64>,
    /// Result JSON stored by `complete_run`.
    pub result: Option<String>,
    pub failure_reason: Option<FailureReason>,
    /// The event this run is currently sleeping on, if any.
    pub wake_event: Option<String>,
    /// Payload delivered by an emit, consumed by the next await.
    pub event_payload: Option<String>,
    pub created_at: i64,
}

pub struct RunV {
    pub queue_name: Seq<char>,
    pub run_id: Seq<char>,
    pub task_id: Seq<char>,
    pub attempt: i64,
    pub state: RunState,
    pub available_at: i64,
    pub claimed_by: Option<Seq<char>>,
    pub claim_expires_at: Option<i64>,
    pub started_at: Option<i64>,
    pub completed_at: Option<i64>,
    pub failed_at: Option<i64>,
    pub result: Option<Seq<char>>,
    pub failure_reason: Option<FailureReasonV>,
    pub wake_event: Option<Seq<char>>,
    pub event_payload: Option<Seq<char>>,
    pub created_at: i64,
}

impl View for Run {
    type V = RunV;

    open spec fn view(&self) -> RunV {
        RunV {
            queue_name: self.queue_name@,
            run_id: self.run_id@,
            task_id: self.task_id@,
            attempt: self.attempt,
            state: self.state,
            available_at: self.available_at,
            claimed_by: self.claimed_by.deep_view(),
            claim_expires_at: self.claim_expires_at,
            started_at: self.started_at,
            completed_at: self.completed_at,
            failed_at: self.failed_at,
            result: self.result.deep_view(),
            failure_reason: match &self.failure_reason {
                Some(f) => Some(f@),
                None => None,
            },
            wake_event: self.wake_event.deep_view(),
            event_payload: self.event_payload.deep_view(),
            created_at: self.created_at,
        }
    }
}

/// A named wakeup primitive; at most one per (queue, name), overwritten by
/// each emit.
pub struct Event {
    pub queue_name: String,
    pub event_name: String,
    pub payload: Option<String>,
    pub emitted_at: i64,
}

pub struct EventV {
    pub queue_name: Seq<char>,
    pub event_name: Seq<char>,
    pub payload: Option<Seq<char>>,
    pub emitted_at: i64,
}

impl View for Event {
    type V = EventV;

    open spec fn view(&self) -> EventV {
        EventV {
            queue_name: self.queue_name@,
            event_name: self.event_name@,
            payload: self.payload.deep_view(),
            emitted_at: self.emitted_at,
        }
    }
}

/// A pending suspension record: one run awaiting one event under one step.
pub struct Wait {
    pub queue_name: String,
    pub run_id: String,
    pub step_name: String,
    pub task_id: String,
    pub event_name: String,
    pub timeout_at: Option<i64>,
    pub created_at: i64,
}

pub struct WaitV {
    pub queue_name: Seq<char>,
    pub run_id: Seq<char>,
    pub step_name: Seq<char>,
    pub task_id: Seq<char>,
    pub event_name: Seq<char>,
    pub timeout_at: Option<i64>,
    pub created_at: i64,
}

impl View for Wait {
    type V = WaitV;

    open spec fn view(&self) -> WaitV {
        WaitV {
            queue_name: self.queue_name@,
            run_id: self.run_id@,
            step_name: self.step_name@,
            task_id: self.task_id@,
            event_name: self.event_name@,
            timeout_at: self.timeout_at,
            created_at: self.created_at,
        }
    }
}

/// Step-scoped memoized output keyed by (queue, task, checkpoint name).
pub struct Checkpoint {
    pub queue_name: String,
    pub task_id: String,
    pub checkpoint_name: String,
    pub state: Option<String>,
    /// Always the literal status `committed`.
    pub status: String,
    pub owner_run_id: Option<String>,
    pub updated_at: i64,
}

pub struct CheckpointV {
    pub queue_name: Seq<char>,
    pub task_id: Seq<char>,
    pub checkpoint_name: Seq<char>,
    pub state: Option<Seq<char>>,
    pub status: Seq<char>,
    pub owner_run_id: Option<Seq<char>>,
    pub updated_at: i64,
}

impl View for Checkpoint {
    type V = CheckpointV;

    open spec fn view(&self) -> CheckpointV {
        CheckpointV {
            queue_name: self.queue_name@,
            task_id: self.task_id@,
            checkpoint_name: self.checkpoint_name@,
            state: self.state.deep_view(),
            status: self.status@,
            owner_run_id: self.owner_run_id.deep_view(),
            updated_at: self.updated_at,
        }
    }
}

/// One applied schema migration.
pub struct MigrationRecord {
    pub id: i64,
    pub introduced_version: String,
    pub applied_time: i64,
}

pub struct MigrationRecordV {
    pub id: i64,
    pub introduced_version: Seq<char>,
    pub applied_time: i64,
}

impl View for MigrationRecord {
    type V = MigrationRecordV;

    open spec fn view(&self) -> MigrationRecordV {
        MigrationRecordV {
            id: self.id,
            introduced_version: self.introduced_version@,
            applied_time: self.applied_time,
        }
    }
}

impl Queue {
    /// A field-for-field copy.
    pub fn duplicate(&self) -> (r: Queue)
        ensures
            r@ == self@,
    {
        Queue { queue_name: self.queue_name.clone(), created_at: self.created_at }
    }
}

impl Task {
    /// A field-for-field copy.
    pub fn duplicate(&self) -> (r: Task)
        ensures
            r@ == self@,
    {
        Task {
            queue_name: self.queue_name.clone(),
            task_id: self.task_id.clone(),
            task_name: self.task_name.clone(),
            params: self.params.clone(),
            headers: clone_opt_string(&self.headers),
            retry_strategy: self.retry_strategy,
            max_attempts: self.max_attempts,
            cancellation: self.cancellation,
            enqueue_at: self.enqueue_at,
            first_started_at: self.first_started_at,
            state: self.state,
            attempts: self.attempts,
            last_attempt_run: self.last_attempt_run.clone(),
            completed_payload: clone_opt_string(&self.completed_payload),
            cancelled_at: self.cancelled_at,
            idempotency_key: clone_opt_string(&self.idempotency_key),
        }
    }
}

impl Run {
    /// A field-for-field copy.
    pub fn duplicate(&self) -> (r: Run)
        ensures
            r@ == self@,
    {
        Run {
            queue_name: self.queue_name.clone(),
            run_id: self.run_id.clone(),
            task_id: self.task_id.clone(),
            attempt: self.attempt,
            state: self.state,
            available_at: self.available_at,
            claimed_by: clone_opt_string(&self.claimed_by),
            claim_expires_at: self.claim_expires_at,
            started_at: self.started_at,
            completed_at: self.completed_at,
            failed_at: self.failed_at,
            result: clone_opt_string(&self.result),
            failure_reason: match &self.failure_reason {
                Some(f) => Some(f.duplicate()),
                None => None,
            },
            wake_event: clone_opt_string(&self.wake_event),
            event_payload: clone_opt_string(&self.event_payload),
            created_at: self.created_at,
        }
    }
}

impl Event {
    /// A field-for-field copy.
    pub fn duplicate(&self) -> (r: Event)
        ensures
            r@ == self@,
    {
        Event {
            queue_name: self.queue_name.clone(),
            event_name: self.event_name.clone(),
            payload: clone_opt_string(&self.payload),
            emitted_at: self.emitted_at,
        }
    }
}

impl Wait {
    /// A field-for-field copy.
    pub fn duplicate(&self) -> (r: Wait)
        ensures
            r@ == self@,
    {
        Wait {
            queue_name: self.queue_name.clone(),
            run_id: self.run_id.clone(),
            step_name: self.step_name.clone(),
            task_id: self.task_id.clone(),
            event_name: self.event_name.clone(),
            timeout_at: self.timeout_at,
            created_at: self.created_at,
        }
    }
}

impl Checkpoint {
    /// A field-for-field copy.
    pub fn duplicate(&self) -> (r: Checkpoint)
        ensures
            r@ == self@,
    {
        Checkpoint {
            queue_name: self.queue_name.clone(),
            task_id: self.task_id.clone(),
            checkpoint_name: self.checkpoint_name.clone(),
            state: clone_opt_string(&self.state),
            status: self.status.clone(),
            owner_run_id: clone_opt_string(&self.owner_run_id),
            updated_at: self.updated_at,
        }
    }
}

impl MigrationRecord {
    /// A field-for-field copy.
    pub fn duplicate(&self) -> (r: MigrationRecord)
        ensures
            r@ == self@,
    {
        MigrationRecord {
            id: self.id,
            introduced_version: self.introduced_version.clone(),
            applied_time: self.applied_time,
        }
    }
}

} // verus!
