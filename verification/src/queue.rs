use crate::db::lemma_filter_key_unique;
use crate::db::lemma_filter_step;
use crate::db::lemma_filter_sub;
use crate::db::Db;
use crate::db::DbV;
use crate::rows::Queue;
use crate::rows::QueueV;
use crate::state::EngineError;
use crate::validate;
use crate::validate::spec_queue_name_ok;
use vstd::prelude::*;

verus! {

impl Db {
    /// Create a queue if it does not exist yet; an existing queue is left
    /// alone.
    pub fn create_queue(&mut self, queue: &String, now: i64) -> (r: Result<i64, EngineError>)
        requires
            old(self)@.wf(),
        ensures
            final(self)@.wf(),
            r is Err ==> final(self)@ == old(self)@ && r == Err::<i64, EngineError>(
                EngineError::Validation,
            ) && !spec_queue_name_ok(queue@),
            r is Ok ==> spec_queue_name_ok(queue@) && r == Ok::<i64, EngineError>(1i64)
                && final(self)@ == (if old(self)@.has_queue(queue@) {
                old(self)@
            } else {
                DbV {
                    queues: old(self)@.queues.push(
                        QueueV { queue_name: queue@, created_at: now },
                    ),
                    ..old(self)@
                }
            }),
    {
        match validate::queue_name(queue.as_str()) {
            Err(e) => {
                return Err(e);
            },
            Ok(u) => {},
        }
        let mut i: usize = 0;
        while i < self.queues.len()
            invariant
                0 <= i <= self.queues.len(),
                self@ == old(self)@,
                self@.wf(),
                spec_queue_name_ok(queue@),
                forall|j: int| 0 <= j < i ==> self@.queues[j].queue_name != queue@,
            decreases self.queues.len() - i,
        {
            if self.queues[i].queue_name.eq(queue) {
                proof {
                    assert(0 <= i < self@.queues.len() && self@.queues[i as int].queue_name
                        == queue@);
                }
                return Ok(1);
            }
            i = i + 1;
        }
        let ghost pre = self@;
        let ghost qs = self@.queues;
        self.queues.push(Queue { queue_name: queue.clone(), created_at: now });
        proof {
            assert(self@.queues =~= qs.push(QueueV { queue_name: queue@, created_at: now }));
            let db2 = self@;
            let n = qs.len() as int;
            assert forall|a: int, b: int|
                0 <= a < db2.queues.len() && 0 <= b < db2.queues.len() && db2.queues[a].queue_name
                    == db2.queues[b].queue_name implies a == b by {}
            assert(db2.keys_unique());
            assert forall|k: int| 0 <= k < db2.tasks.len() implies db2.task_ok(
                #[trigger] db2.tasks[k],
            ) by {
                let tk = db2.tasks[k];
                assert(pre.task_ok(tk));
                let oli = pre.run_idx(tk.queue_name, tk.last_attempt_run);
                assert(pre.is_run_at(oli, tk.queue_name, tk.last_attempt_run));
                db2.lemma_run_idx_is(oli, tk.queue_name, tk.last_attempt_run);
            }
            assert forall|k: int| 0 <= k < db2.runs.len() implies db2.run_ok(
                #[trigger] db2.runs[k],
            ) by {
                assert(pre.run_ok(pre.runs[k]));
                let tki = pre.task_idx(pre.runs[k].queue_name, pre.runs[k].task_id);
                assert(pre.is_task_at(tki, pre.runs[k].queue_name, pre.runs[k].task_id));
                assert(db2.is_task_at(tki, db2.runs[k].queue_name, db2.runs[k].task_id));
            }
            assert forall|k: int| 0 <= k < db2.waits.len() implies db2.wait_ok(
                #[trigger] db2.waits[k],
            ) by {
                let wk = db2.waits[k];
                assert(pre.wait_ok(wk));
                let ri = pre.run_idx(wk.queue_name, wk.run_id);
                assert(pre.is_run_at(ri, wk.queue_name, wk.run_id));
                db2.lemma_run_idx_is(ri, wk.queue_name, wk.run_id);
            }
        }
        Ok(1)
    }

    /// Delete a queue row, returning how many rows went away. Entities
    /// under the queue are left untouched.
    pub fn drop_queue(&mut self, queue: &String) -> (r: Result<i64, EngineError>)
        requires
            old(self)@.wf(),
        ensures
            final(self)@.wf(),
            r is Err ==> final(self)@ == old(self)@ && r == Err::<i64, EngineError>(
                EngineError::Validation,
            ) && !spec_queue_name_ok(queue@),
            r is Ok ==> spec_queue_name_ok(queue@) && final(self)@ == (DbV {
                queues: old(self)@.queues.filter(|x: QueueV| x.queue_name != queue@),
                ..old(self)@
            }) && r == Ok::<i64, EngineError>(
                if old(self)@.has_queue(queue@) {
                    1i64
                } else {
                    0i64
                },
            ),
    {
        match validate::queue_name(queue.as_str()) {
            Err(e) => {
                return Err(e);
            },
            Ok(u) => {},
        }
        let ghost pre = self@;
        let ghost pred = |x: QueueV| x.queue_name != queue@;
        let mut out: Vec<Queue> = Vec::new();
        let mut found: i64 = 0;
        let mut j: usize = 0;
        while j < self.queues.len()
            invariant
                0 <= j <= self.queues.len(),
                out@.map_values(|x: Queue| x@) == self@.queues.subrange(0, j as int).filter(pred),
                pred == (|x: QueueV| x.queue_name != queue@),
                found == 1i64 <==> (exists|w: int|
                    0 <= w < j && self@.queues[w].queue_name == queue@),
                found == 0 || found == 1,
            decreases self.queues.len() - j,
        {
            proof {
                lemma_filter_step(self@.queues, pred, j as int);
            }
            if self.queues[j].queue_name.eq(queue) {
                found = 1;
            } else {
                let ghost before = out@.map_values(|x: Queue| x@);
                out.push(self.queues[j].duplicate());
                proof {
                    assert(out@.map_values(|x: Queue| x@) =~= before.push(self@.queues[j as int]));
                }
            }
            j = j + 1;
        }
        proof {
            assert(self@.queues.subrange(0, self@.queues.len() as int) =~= self@.queues);
        }
        self.queues = out;
        proof {
            lemma_filter_key_unique(pre.queues, pred, |x: QueueV| x.queue_name);
            lemma_filter_sub(pre.queues, pred);
            let db2 = self@;
            assert forall|a: int, b: int|
                0 <= a < db2.queues.len() && 0 <= b < db2.queues.len() && db2.queues[a].queue_name
                    == db2.queues[b].queue_name implies a == b by {
                let key = |x: QueueV| x.queue_name;
                assert(key(pre.queues.filter(pred)[a]) == key(pre.queues.filter(pred)[b]));
            }
            assert(db2.keys_unique());
            assert forall|k: int| 0 <= k < db2.tasks.len() implies db2.task_ok(
                #[trigger] db2.tasks[k],
            ) by {
                let tk = db2.tasks[k];
                assert(pre.task_ok(tk));
                let oli = pre.run_idx(tk.queue_name, tk.last_attempt_run);
                assert(pre.is_run_at(oli, tk.queue_name, tk.last_attempt_run));
                db2.lemma_run_idx_is(oli, tk.queue_name, tk.last_attempt_run);
            }
            assert forall|k: int| 0 <= k < db2.runs.len() implies db2.run_ok(
                #[trigger] db2.runs[k],
            ) by {
                assert(pre.run_ok(pre.runs[k]));
                let tki = pre.task_idx(pre.runs[k].queue_name, pre.runs[k].task_id);
                assert(pre.is_task_at(tki, pre.runs[k].queue_name, pre.runs[k].task_id));
                assert(db2.is_task_at(tki, db2.runs[k].queue_name, db2.runs[k].task_id));
            }
            assert forall|k: int| 0 <= k < db2.waits.len() implies db2.wait_ok(
                #[trigger] db2.waits[k],
            ) by {
                let wk = db2.waits[k];
                assert(pre.wait_ok(wk));
                let ri = pre.run_idx(wk.queue_name, wk.run_id);
                assert(pre.is_run_at(ri, wk.queue_name, wk.run_id));
                db2.lemma_run_idx_is(ri, wk.queue_name, wk.run_id);
            }
        }
        Ok(found)
    }

    /// All queues, in storage order.
    pub fn list_queues(&self) -> (r: Vec<Queue>)
        ensures
            r@.len() == self@.queues.len(),
            forall|i: int| 0 <= i < r@.len() ==> (#[trigger] r@[i])@ == self@.queues[i],
    {
        let mut out: Vec<Queue> = Vec::new();
        let mut j: usize = 0;
        while j < self.queues.len()
            invariant
                0 <= j <= self.queues.len(),
                out@.len() == j,
                forall|i: int| 0 <= i < j ==> (#[trigger] out@[i])@ == self@.queues[i],
            decreases self.queues.len() - j,
        {
            out.push(self.queues[j].duplicate());
            j = j + 1;
        }
        out
    }
}

} // verus!
