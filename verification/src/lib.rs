//! A durable task-queue engine: tasks, runs, checkpoints, events and waits
//! live in one relational store, and a fixed set of operations (spawn, claim,
//! complete, fail, schedule, await/emit, checkpoint, cleanup) mutate them
//! while preserving the engine's cross-table invariants.

use vstd::prelude::*;

pub mod checkpoint;
pub mod claim;
pub mod cleanup;
pub mod db;
pub mod event;
pub mod ids;
pub mod json;
pub mod laws;
pub mod migrate;
pub mod monitor;
pub mod queue;
pub mod settings;
pub mod time;
pub mod retry;
pub mod rows;
pub mod run;
pub mod spawn;
pub mod state;
pub mod validate;

verus! {

/// Saturating conversion of a whole number of seconds into milliseconds,
/// clamped to the `i64` range.
pub open spec fn spec_secs_to_ms(secs: int) -> int {
    clamp_i64(secs * 1000)
}

/// Clamp an unbounded integer into the `i64` range.
pub open spec fn clamp_i64(v: int) -> int {
    if v > i64::MAX {
        i64::MAX as int
    } else if v < i64::MIN {
        i64::MIN as int
    } else {
        v
    }
}

/// Saturating `a + b` on `i64`.
pub fn add_sat(a: i64, b: i64) -> (r: i64)
    ensures
        r == clamp_i64(a + b),
{
    match a.checked_add(b) {
        Some(v) => v,
        None => {
            if b > 0 {
                i64::MAX
            } else {
                i64::MIN
            }
        },
    }
}

/// Saturating conversion of seconds to milliseconds.
pub fn secs_to_ms(secs: i64) -> (r: i64)
    ensures
        r == spec_secs_to_ms(secs as int),
{
    match secs.checked_mul(1000) {
        Some(v) => v,
        None => {
            if secs > 0 {
                i64::MAX
            } else {
                i64::MIN
            }
        },
    }
}

} // verus!
