use crate::db::Db;
use crate::db::DbV;
use vstd::prelude::*;

verus! {

/// Relies on `std::time::SystemTime::now`: wall-clock milliseconds since
/// the Unix epoch. The value depends on the machine's clock, so nothing
/// more is promised of it than that it is non-negative.
#[verifier::external_body]
pub fn now_ms() -> (r: i64)
    ensures
        r >= 0,
{
    let now = std::time::SystemTime::now()
        .duration_since(std::time::UNIX_EPOCH)
        .unwrap_or_default();
    let ms = now.as_millis();
    if ms > i64::MAX as u128 {
        i64::MAX
    } else {
        ms as i64
    }
}

impl Db {
    /// Store or clear the test clock override.
    pub fn set_fake_now(&mut self, fake_now: Option<i64>) -> (r: i64)
        requires
            old(self)@.wf(),
        ensures
            final(self)@.wf(),
            final(self)@ == (DbV { fake_now: fake_now, ..old(self)@ }),
            r == 1i64,
    {
        let ghost pre = self@;
        self.fake_now = fake_now;
        proof {
            let db2 = self@;
            assert(db2.keys_unique());
            assert forall|k: int| 0 <= k < db2.tasks.len() implies db2.task_ok(
                #[trigger] db2.tasks[k],
            ) by {
                let tk = db2.tasks[k];
                assert(pre.task_ok(tk));
                let oli = pre.run_idx(tk.queue_name, tk.last_attempt_run);
                assert(pre.is_run_at(oli, tk.queue_name, tk.last_attempt_run));
                db2.lemma_run_idx_is(oli, tk.queue_name, tk.last_attempt_run);
            }
            assert forall|k: int| 0 <= k < db2.runs.len() implies db2.run_ok(
                #[trigger] db2.runs[k],
            ) by {
                assert(pre.run_ok(pre.runs[k]));
                let tki = pre.task_idx(pre.runs[k].queue_name, pre.runs[k].task_id);
                assert(pre.is_task_at(tki, pre.runs[k].queue_name, pre.runs[k].task_id));
                assert(db2.is_task_at(tki, db2.runs[k].queue_name, db2.runs[k].task_id));
            }
            assert forall|k: int| 0 <= k < db2.waits.len() implies db2.wait_ok(
                #[trigger] db2.waits[k],
            ) by {
                let wk = db2.waits[k];
                assert(pre.wait_ok(wk));
                let ri = pre.run_idx(wk.queue_name, wk.run_id);
                assert(pre.is_run_at(ri, wk.queue_name, wk.run_id));
                db2.lemma_run_idx_is(ri, wk.queue_name, wk.run_id);
            }
        }
        1
    }

    /// The engine's notion of now: the `fake_now` override when set, else
    /// the wall clock.
    pub fn now_ms_from_db(&self) -> (r: i64)
        ensures
            self@.fake_now matches Some(t) ==> r == t,
            self@.fake_now is None ==> r >= 0,
    {
        match self.fake_now {
            Some(t) => t,
            None => now_ms(),
        }
    }
}

} // verus!
