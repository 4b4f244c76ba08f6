use crate::db::Db;
use crate::db::DbV;
use crate::rows::MigrationRecord;
use crate::rows::MigrationRecordV;
use crate::state::EngineError;
use vstd::prelude::*;

verus! {

/// One known schema migration: its numeric id and the library version
/// that introduced it. The SQL body lives with the host.
pub struct MigrationInfo {
    pub id: i64,
    pub introduced_version: String,
}

pub struct MigrationInfoV {
    pub id: i64,
    pub introduced_version: Seq<char>,
}

impl View for MigrationInfo {
    type V = MigrationInfoV;

    open spec fn view(&self) -> MigrationInfoV {
        MigrationInfoV { id: self.id, introduced_version: self.introduced_version@ }
    }
}

/// Whether a migration id has been applied.
pub open spec fn applied(db: DbV, id: i64) -> bool {
    exists|i: int| 0 <= i < db.migrations.len() && db.migrations[i].id == id
}

/// The records an apply run appends: every known migration up to the
/// target that is not applied yet, in order.
pub open spec fn plan(db: DbV, known: Seq<MigrationInfoV>, target: i64, now: i64) -> Seq<
    MigrationRecordV,
> {
    known.filter(|m: MigrationInfoV| m.id <= target && !applied(db, m.id)).map_values(
        |m: MigrationInfoV|
            MigrationRecordV {
                id: m.id,
                introduced_version: m.introduced_version,
                applied_time: now,
            },
    )
}

/// The largest applied migration id, or zero.
pub open spec fn max_applied(db: DbV) -> int {
    max_applied_rec(db.migrations, db.migrations.len() as int)
}

pub open spec fn max_applied_rec(ms: Seq<MigrationRecordV>, n: int) -> int
    decreases n,
{
    if n <= 0 {
        0
    } else {
        let rest = max_applied_rec(ms, n - 1);
        if ms[n - 1].id > rest {
            ms[n - 1].id as int
        } else {
            rest
        }
    }
}

impl Db {
    /// Apply the known migrations in ascending id order, up to `target`
    /// (all of them when no target is given): each unapplied one with
    /// `id <= target` is recorded with `applied_time = now`, and the
    /// count of newly applied migrations is returned. A target below the
    /// highest applied id, or above the highest known one, is rejected.
    pub fn apply_migrations(
        &mut self,
        known: &Vec<MigrationInfo>,
        target: Option<i64>,
        now: i64,
    ) -> (r: Result<i64, EngineError>)
        requires
            old(self)@.wf(),
            known@.len() <= 0x7fffffff,
            forall|x: int, y: int|
                0 <= x < y < known@.len() ==> (#[trigger] known@[x])@.id < (
                #[trigger] known@[y])@.id,
        ensures
            final(self)@.wf(),
            r is Err ==> final(self)@ == old(self)@,
            ({
                let knownv = known@.map_values(|m: MigrationInfo| m@);
                let max_known: i64 = if knownv.len() == 0 {
                    0
                } else {
                    knownv.last().id
                };
                let goal: i64 = match target {
                    Some(t) => t,
                    None => max_known,
                };
                if goal < max_applied(old(self)@) || goal > max_known {
                    r == Err::<i64, EngineError>(EngineError::Validation)
                } else {
                    let appended = plan(old(self)@, knownv, goal, now);
                    &&& r == Ok::<i64, EngineError>(appended.len() as i64)
                    &&& final(self)@ == (DbV {
                        migrations: old(self)@.migrations + appended,
                        ..old(self)@
                    })
                }
            }),
    {
        let ghost pre = self@;
        let ghost knownv = known@.map_values(|m: MigrationInfo| m@);
        let max_known: i64 = if known.len() == 0 {
            0
        } else {
            known[known.len() - 1].id
        };
        proof {
            if knownv.len() > 0 {
                assert(knownv.last() == known@[known@.len() - 1]@);
            }
        }
        let goal: i64 = match target {
            Some(t) => t,
            None => max_known,
        };

        // the highest applied id
        let mut top: i64 = 0;
        let mut i: usize = 0;
        while i < self.migrations.len()
            invariant
                0 <= i <= self.migrations.len(),
                top == max_applied_rec(self@.migrations, i as int),
            decreases self.migrations.len() - i,
        {
            if self.migrations[i].id > top {
                top = self.migrations[i].id;
            }
            i = i + 1;
        }
        if goal < top || goal > max_known {
            return Err(EngineError::Validation);
        }

        proof {
            assert forall|x: int, y: int|
                0 <= x < y < knownv.len() implies knownv[x].id < knownv[y].id by {
                assert(knownv[x] == known@[x]@);
                assert(knownv[y] == known@[y]@);
            }
        }
        let ghost mpred = |m: MigrationInfoV| m.id <= goal && !applied(pre, m.id);
        let ghost to_rec = |m: MigrationInfoV|
            MigrationRecordV { id: m.id, introduced_version: m.introduced_version, applied_time: now };
        let mut count: i64 = 0;
        let mut j: usize = 0;
        while j < known.len()
            invariant
                0 <= j <= known.len(),
                knownv == known@.map_values(|m: MigrationInfo| m@),
                knownv.len() == known@.len(),
                mpred == (|m: MigrationInfoV| m.id <= goal && !applied(pre, m.id)),
                to_rec == (|m: MigrationInfoV|
                    MigrationRecordV {
                        id: m.id,
                        introduced_version: m.introduced_version,
                        applied_time: now,
                    }),
                self@ == (DbV {
                    migrations: pre.migrations + knownv.subrange(0, j as int).filter(
                        mpred,
                    ).map_values(to_rec),
                    ..pre
                }),
                count == knownv.subrange(0, j as int).filter(mpred).len(),
                count <= j,
                known@.len() <= 0x7fffffff,
                forall|x: int, y: int|
                    0 <= x < y < knownv.len() ==> knownv[x].id < knownv[y].id,
            decreases known.len() - j,
        {
            proof {
                crate::db::lemma_filter_step(knownv, mpred, j as int);
            }
            let mid = known[j].id;
            let mut seen: bool = false;
            let mut x: usize = 0;
            while x < self.migrations.len()
                invariant
                    0 <= x <= self.migrations.len(),
                    seen <==> (exists|w: int| 0 <= w < x && self@.migrations[w].id == mid),
                decreases self.migrations.len() - x,
            {
                if self.migrations[x].id == mid {
                    proof {
                        assert(0 <= x < x + 1 && self@.migrations[x as int].id == mid);
                    }
                    seen = true;
                }
                x = x + 1;
            }
            proof {
                // a record for `mid` exists now exactly when one existed
                // before this call: appended records all carry unapplied
                // ids below... they carry ids of earlier known entries,
                // which are smaller than `mid`; smaller ids never collide
                assert(seen <==> applied(self@, mid));
                let appended = knownv.subrange(0, j as int).filter(mpred).map_values(to_rec);
                crate::db::lemma_filter_sub(knownv.subrange(0, j as int), mpred);
                assert forall|w: int|
                    0 <= w < appended.len() implies (#[trigger] appended[w]).id != mid by {
                    let fs = knownv.subrange(0, j as int).filter(mpred);
                    assert(knownv.subrange(0, j as int).contains(fs[w]));
                    let src = choose|src: int|
                        0 <= src < knownv.subrange(0, j as int).len() && knownv.subrange(
                            0,
                            j as int,
                        )[src] == fs[w];
                    assert(knownv[src] == fs[w]);
                    assert(src < j as int);
                    assert(knownv[src].id < knownv[j as int].id);
                }
                assert(applied(self@, mid) <==> applied(pre, mid)) by {
                    if applied(self@, mid) {
                        let w = choose|w: int|
                            0 <= w < self@.migrations.len() && self@.migrations[w].id == mid;
                        if w < pre.migrations.len() {
                            assert(applied(pre, mid));
                        } else {
                            assert(appended[w - pre.migrations.len()].id == mid);
                        }
                    }
                    if applied(pre, mid) {
                        let w = choose|w: int|
                            0 <= w < pre.migrations.len() && pre.migrations[w].id == mid;
                        assert(self@.migrations[w].id == mid);
                    }
                }
                assert(knownv[j as int] == known@[j as int]@);
            }
            if mid <= goal && !seen {
                let ghost before = self@.migrations;
                self.migrations.push(
                    MigrationRecord {
                        id: mid,
                        introduced_version: known[j].introduced_version.clone(),
                        applied_time: now,
                    },
                );
                proof {
                    assert(self@.migrations =~= before.push(to_rec(knownv[j as int])));
                    assert(pre.migrations + knownv.subrange(0, j as int + 1).filter(
                        mpred,
                    ).map_values(to_rec) =~= self@.migrations);
                }
                count = count + 1;
            } else {
                proof {
                    assert(knownv.subrange(0, j as int + 1).filter(mpred) == knownv.subrange(
                        0,
                        j as int,
                    ).filter(mpred));
                }
            }
            j = j + 1;
        }
        proof {
            assert(knownv.subrange(0, knownv.len() as int) =~= knownv);
            let db2 = self@;
            let appended = plan(pre, knownv, goal, now);
            assert(db2.migrations == pre.migrations + appended);
            // appended ids are pairwise distinct and unapplied before
            crate::db::lemma_filter_no_dups(knownv, mpred);
            crate::db::lemma_filter_sub(knownv, mpred);
            let fs = knownv.filter(mpred);
            assert forall|a: int, b: int|
                0 <= a < db2.migrations.len() && 0 <= b < db2.migrations.len()
                    && db2.migrations[a].id == db2.migrations[b].id implies a == b by {
                let pn = pre.migrations.len() as int;
                assert forall|x: int, y: int| 0 <= x < y < knownv.len() implies knownv[x].id
                    < knownv[y].id by {
                    assert(knownv[x] == known@[x]@);
                    assert(knownv[y] == known@[y]@);
                }
                if a < pn && b >= pn {
                    knownv.lemma_filter_pred(mpred, b - pn);
                    assert(applied(pre, fs[b - pn].id));
                } else if b < pn && a >= pn {
                    knownv.lemma_filter_pred(mpred, a - pn);
                    assert(applied(pre, fs[a - pn].id));
                } else if a >= pn && b >= pn {
                    if a != b {
                        assert(knownv.contains(fs[a - pn]));
                        assert(knownv.contains(fs[b - pn]));
                        let wa = choose|w: int| 0 <= w < knownv.len() && knownv[w] == fs[a - pn];
                        let wb = choose|w: int| 0 <= w < knownv.len() && knownv[w] == fs[b - pn];
                        assert(fs[a - pn] != fs[b - pn]);
                        if wa < wb {
                            assert(knownv[wa].id < knownv[wb].id);
                        } else if wb < wa {
                            assert(knownv[wb].id < knownv[wa].id);
                        }
                    }
                }
            }
            assert(db2.keys_unique());
            assert forall|k: int| 0 <= k < db2.tasks.len() implies db2.task_ok(
                #[trigger] db2.tasks[k],
            ) by {
                let tk = db2.tasks[k];
                assert(pre.task_ok(tk));
                let oli = pre.run_idx(tk.queue_name, tk.last_attempt_run);
                assert(pre.is_run_at(oli, tk.queue_name, tk.last_attempt_run));
                db2.lemma_run_idx_is(oli, tk.queue_name, tk.last_attempt_run);
            }
            assert forall|k: int| 0 <= k < db2.runs.len() implies db2.run_ok(
                #[trigger] db2.runs[k],
            ) by {
                assert(pre.run_ok(pre.runs[k]));
                let tki = pre.task_idx(pre.runs[k].queue_name, pre.runs[k].task_id);
                assert(pre.is_task_at(tki, pre.runs[k].queue_name, pre.runs[k].task_id));
                assert(db2.is_task_at(tki, db2.runs[k].queue_name, db2.runs[k].task_id));
            }
            assert forall|k: int| 0 <= k < db2.waits.len() implies db2.wait_ok(
                #[trigger] db2.waits[k],
            ) by {
                let wk = db2.waits[k];
                assert(pre.wait_ok(wk));
                let ri = pre.run_idx(wk.queue_name, wk.run_id);
                assert(pre.is_run_at(ri, wk.queue_name, wk.run_id));
                db2.lemma_run_idx_is(ri, wk.queue_name, wk.run_id);
            }
        }
        Ok(count)
    }

    /// The applied migration records, in application order.
    pub fn migration_records(&self) -> (r: Vec<MigrationRecord>)
        ensures
            r@.len() == self@.migrations.len(),
            forall|i: int| 0 <= i < r@.len() ==> (#[trigger] r@[i])@ == self@.migrations[i],
    {
        let mut out: Vec<MigrationRecord> = Vec::new();
        let mut j: usize = 0;
        while j < self.migrations.len()
            invariant
                0 <= j <= self.migrations.len(),
                out@.len() == j,
                forall|i: int| 0 <= i < j ==> (#[trigger] out@[i])@ == self@.migrations[i],
            decreases self.migrations.len() - j,
        {
            out.push(self.migrations[j].duplicate());
            j = j + 1;
        }
        out
    }
}

/// The crate's version banner.
pub fn version() -> (r: String)
    ensures
        r@ == "absurd-sqlite/0.1.0"@,
{
    "absurd-sqlite/0.1.0".to_owned()
}

} // verus!
