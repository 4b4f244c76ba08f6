use vstd::prelude::*;

verus! {

/// States a run moves through. `Completed`, `Failed` and `Cancelled` are
/// terminal sinks.
#[derive(Clone, Copy, PartialEq, Eq, Structural, Debug)]
pub enum RunState {
    Pending,
    Sleeping,
    Running,
    Completed,
    Failed,
    Cancelled,
}

impl RunState {
    pub open spec fn spec_is_terminal(self) -> bool {
        self == RunState::Completed || self == RunState::Failed || self == RunState::Cancelled
    }

    pub fn is_terminal(&self) -> (b: bool)
        ensures
            b == self.spec_is_terminal(),
    {
        matches!(*self, RunState::Completed | RunState::Failed | RunState::Cancelled)
    }
}

/// States a task moves through. `Completed`, `Failed` and `Cancelled` are
/// terminal sinks.
#[derive(Clone, Copy, PartialEq, Eq, Structural, Debug)]
pub enum TaskState {
    Pending,
    Running,
    Sleeping,
    Completed,
    Failed,
    Cancelled,
}

impl TaskState {
    pub open spec fn spec_is_terminal(self) -> bool {
        self == TaskState::Completed || self == TaskState::Failed || self
            == TaskState::Cancelled
    }

    pub fn is_terminal(&self) -> (b: bool)
        ensures
            b == self.spec_is_terminal(),
    {
        matches!(*self, TaskState::Completed | TaskState::Failed | TaskState::Cancelled)
    }
}

/// The task state that mirrors a non-terminal run state: after every
/// mutation a live task is in the state of its latest run.
pub open spec fn task_state_of_run(rs: RunState) -> TaskState {
    match rs {
        RunState::Pending => TaskState::Pending,
        RunState::Sleeping => TaskState::Sleeping,
        RunState::Running => TaskState::Running,
        RunState::Completed => TaskState::Completed,
        RunState::Failed => TaskState::Failed,
        RunState::Cancelled => TaskState::Cancelled,
    }
}

/// Failure classes surfaced by the engine; the host maps each to a
/// human-readable SQL error message.
#[derive(Clone, Copy, PartialEq, Eq, Structural, Debug)]
pub enum EngineError {
    /// Malformed name, invalid JSON, negative TTL, or a missing required
    /// argument.
    Validation,
    /// A referenced queue, task, run or event does not exist.
    NotFound,
    /// The operation requires the run or task to be in another state.
    WrongState,
    /// The task has been cancelled.
    Cancelled,
}

/// Retry policy, as the tagged variant behind the `retry_strategy`
/// configuration blob. An absent blob, an unknown `kind` or a non-object
/// blob all mean no delay.
#[derive(Clone, Copy, PartialEq, Eq, Debug)]
pub enum RetryStrategy {
    /// No strategy configured, or an unrecognised one: retry immediately.
    Unspecified,
    /// A constant delay of `base_seconds` (default 60).
    Fixed { base_seconds: Option<i64> },
    /// `base_seconds * factor^(attempt - 1)`, clamped to `max_seconds`.
    /// Defaults: base 30, factor 2, no cap.
    Exponential { base_seconds: Option<i64>, factor: Option<i64>, max_seconds: Option<i64> },
}

/// Cancellation windows, in seconds, from the `cancellation` configuration
/// blob.
#[derive(Clone, Copy, PartialEq, Eq, Debug)]
pub struct Cancellation {
    /// Cancel a task that has not started within this many seconds of being
    /// enqueued.
    pub max_delay_secs: Option<i64>,
    /// Cancel a task still unfinished this many seconds after it first
    /// started.
    pub max_duration_secs: Option<i64>,
}

impl Cancellation {
    /// No cancellation windows at all.
    pub fn unlimited() -> (c: Cancellation)
        ensures
            c == (Cancellation { max_delay_secs: None, max_duration_secs: None }),
    {
        Cancellation { max_delay_secs: None, max_duration_secs: None }
    }
}

/// Why a run failed: either the reason JSON a worker reported, or the
/// synthetic record written when a claim expired.
#[derive(Clone, PartialEq, Eq, Debug)]
pub enum FailureReason {
    /// Verbatim reason JSON handed to `fail_run`.
    Reported { json: String },
    /// Synthesised when the claim interval elapsed; rendered by hosts with
    /// the literal name `$ClaimTimeout`.
    ClaimTimeout { worker_id: Option<String>, claim_expired_at: Option<i64>, attempt: i64 },
}

/// Mathematical image of a `FailureReason`.
pub enum FailureReasonV {
    Reported { json: Seq<char> },
    ClaimTimeout { worker_id: Option<Seq<char>>, claim_expired_at: Option<i64>, attempt: i64 },
}

impl View for FailureReason {
    type V = FailureReasonV;

    open spec fn view(&self) -> FailureReasonV {
        match self {
            FailureReason::Reported { json } => FailureReasonV::Reported { json: json@ },
            FailureReason::ClaimTimeout { worker_id, claim_expired_at, attempt } =>
                FailureReasonV::ClaimTimeout {
                    worker_id: worker_id.deep_view(),
                    claim_expired_at: *claim_expired_at,
                    attempt: *attempt,
                },
        }
    }
}

impl FailureReason {
    /// A field-for-field copy.
    pub fn duplicate(&self) -> (r: FailureReason)
        ensures
            r@ == self@,
    {
        match self {
            FailureReason::Reported { json } => FailureReason::Reported { json: json.clone() },
            FailureReason::ClaimTimeout { worker_id, claim_expired_at, attempt } =>
                FailureReason::ClaimTimeout {
                    worker_id: clone_opt_string(worker_id),
                    claim_expired_at: *claim_expired_at,
                    attempt: *attempt,
                },
        }
    }
}

/// A copy of an optional string with the same view.
pub fn clone_opt_string(s: &Option<String>) -> (r: Option<String>)
    ensures
        r.deep_view() == s.deep_view(),
{
    match s {
        Some(v) => Some(v.clone()),
        None => None,
    }
}

/// `base * factor^exp`, saturating multiplication chain, clamped to `i64`.
pub open spec fn spec_pow_sat(base: int, factor: int, exp: nat) -> int
    decreases exp,
{
    if exp == 0 {
        base
    } else {
        crate::clamp_i64(spec_pow_sat(base, factor, (exp - 1) as nat) * factor)
    }
}

/// The retry delay in milliseconds for the given attempt, never negative.
pub open spec fn spec_retry_delay_ms(rs: RetryStrategy, attempt: i64) -> int {
    let secs = match rs {
        RetryStrategy::Unspecified => 0int,
        RetryStrategy::Fixed { base_seconds } => opt_or(base_seconds, 60),
        RetryStrategy::Exponential { base_seconds, factor, max_seconds } => {
            let base = opt_or(base_seconds, 30);
            let fac = opt_or(factor, 2);
            let exp = if attempt >= 1 {
                (attempt - 1) as nat
            } else {
                0nat
            };
            let raw = spec_pow_sat(base, fac, exp);
            match max_seconds {
                Some(m) => if raw > m {
                    m as int
                } else {
                    raw
                },
                None => raw,
            }
        },
    };
    let ms = crate::clamp_i64(crate::spec_secs_to_ms(secs));
    if ms < 0 {
        0int
    } else {
        ms
    }
}

pub open spec fn opt_or(v: Option<i64>, d: i64) -> int {
    match v {
        Some(x) => x as int,
        None => d as int,
    }
}

/// Compute the retry delay of `spec_retry_delay_ms` executably.
pub fn retry_delay_ms(rs: &RetryStrategy, attempt: i64) -> (r: i64)
    ensures
        r == spec_retry_delay_ms(*rs, attempt),
        r >= 0,
{
    let secs: i64 = match rs {
        RetryStrategy::Unspecified => 0,
        RetryStrategy::Fixed { base_seconds } => unwrap_or(base_seconds, 60),
        RetryStrategy::Exponential { base_seconds, factor, max_seconds } => {
            let base = unwrap_or(base_seconds, 30);
            let fac = unwrap_or(factor, 2);
            let exp: i64 = if attempt >= 1 {
                attempt - 1
            } else {
                0
            };
            let raw = pow_sat(base, fac, exp);
            match max_seconds {
                Some(m) => if raw > *m {
                    *m
                } else {
                    raw
                },
                None => raw,
            }
        },
    };
    let ms = crate::secs_to_ms(secs);
    if ms < 0 {
        0
    } else {
        ms
    }
}

fn unwrap_or(v: &Option<i64>, d: i64) -> (r: i64)
    ensures
        r == opt_or(*v, d),
{
    match v {
        Some(x) => *x,
        None => d,
    }
}

fn pow_sat(base: i64, factor: i64, exp: i64) -> (r: i64)
    requires
        exp >= 0,
    ensures
        r == spec_pow_sat(base as int, factor as int, exp as nat),
{
    let mut acc: i64 = base;
    let mut i: i64 = 0;
    while i < exp
        invariant
            0 <= i <= exp,
            acc == spec_pow_sat(base as int, factor as int, i as nat),
        decreases exp - i,
    {
        acc = mul_sat(acc, factor);
        i = i + 1;
    }
    acc
}

fn mul_sat(a: i64, b: i64) -> (r: i64)
    ensures
        r == crate::clamp_i64(a * b),
{
    proof {
        assert((a > 0 && b > 0) ==> a * b > 0) by (nonlinear_arith);
        assert((a < 0 && b < 0) ==> a * b > 0) by (nonlinear_arith);
        assert((a <= 0 && b >= 0) ==> a * b <= 0) by (nonlinear_arith);
        assert((a >= 0 && b <= 0) ==> a * b <= 0) by (nonlinear_arith);
    }
    match a.checked_mul(b) {
        Some(v) => v,
        None => {
            if (a > 0 && b > 0) || (a < 0 && b < 0) {
                i64::MAX
            } else {
                i64::MIN
            }
        },
    }
}

/// The cancellation `max_duration` window in milliseconds, if configured.
pub open spec fn spec_max_duration_ms(c: Cancellation) -> Option<int> {
    match c.max_duration_secs {
        Some(s) => Some(crate::spec_secs_to_ms(s as int)),
        None => None,
    }
}

/// Compute the `max_duration` window of `spec_max_duration_ms` executably.
pub fn max_duration_ms(c: &Cancellation) -> (r: Option<i64>)
    ensures
        (match (r, spec_max_duration_ms(*c)) {
            (Some(v), Some(w)) => v == w,
            (None, None) => true,
            _ => false,
        }),
{
    match c.max_duration_secs {
        Some(s) => Some(crate::secs_to_ms(s)),
        None => None,
    }
}

} // verus!
