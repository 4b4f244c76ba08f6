use crate::db::Db;
use crate::db::DbV;
use crate::rows::EventV;
use crate::rows::QueueV;
use crate::rows::RunV;
use crate::rows::TaskV;
use crate::state::RunState;
use crate::state::TaskState;
use vstd::prelude::*;

verus! {

/// A task's status as a monitoring surface presents it.
#[derive(Clone, Copy, PartialEq, Eq, Structural, Debug)]
pub enum TaskStatus {
    Running,
    Failed,
    Completed,
    Sleeping,
    Pending,
    Cancelled,
}

/// The status label for a task state.
pub fn map_task_status(state: TaskState) -> (r: TaskStatus)
    ensures
        r == spec_task_status(state),
{
    match state {
        TaskState::Running => TaskStatus::Running,
        TaskState::Failed => TaskStatus::Failed,
        TaskState::Completed => TaskStatus::Completed,
        TaskState::Sleeping => TaskStatus::Sleeping,
        TaskState::Pending => TaskStatus::Pending,
        TaskState::Cancelled => TaskStatus::Cancelled,
    }
}

pub open spec fn spec_task_status(state: TaskState) -> TaskStatus {
    match state {
        TaskState::Running => TaskStatus::Running,
        TaskState::Failed => TaskStatus::Failed,
        TaskState::Completed => TaskStatus::Completed,
        TaskState::Sleeping => TaskStatus::Sleeping,
        TaskState::Pending => TaskStatus::Pending,
        TaskState::Cancelled => TaskStatus::Cancelled,
    }
}

/// Store-wide counters for a monitoring overview.
pub struct OverviewMetrics {
    /// Queues with at least one live task.
    pub active_queues: i64,
    /// Tasks that reached a terminal state.
    pub messages_processed: i64,
    /// Tasks waiting in `pending`.
    pub messages_in_queue: i64,
    /// Pending runs already due.
    pub visible_now: i64,
}

/// Whether a task is live.
pub open spec fn task_live(t: TaskV) -> bool {
    t.state == TaskState::Pending || t.state == TaskState::Running || t.state
        == TaskState::Sleeping
}

/// Queues counted once each, by the first live task that names them.
pub open spec fn count_active_queues(tasks: Seq<TaskV>, n: int) -> int
    decreases n,
{
    if n <= 0 {
        0
    } else {
        let fresh = task_live(tasks[n - 1]) && !(exists|j: int|
            0 <= j < n - 1 && task_live(#[trigger] tasks[j]) && tasks[j].queue_name == tasks[n
                - 1].queue_name);
        count_active_queues(tasks, n - 1) + if fresh {
            1int
        } else {
            0int
        }
    }
}

impl Db {
    /// The overview counters, computed over the whole store.
    pub fn overview_metrics(&self, now: i64) -> (r: OverviewMetrics)
        requires
            self@.tasks.len() <= 0x7fffffffffffff,
            self@.runs.len() <= 0x7fffffffffffff,
        ensures
            r.active_queues == count_active_queues(self@.tasks, self@.tasks.len() as int),
            r.messages_processed == self@.tasks.filter(
                |t: TaskV| t.state.spec_is_terminal(),
            ).len(),
            r.messages_in_queue == self@.tasks.filter(
                |t: TaskV| t.state == TaskState::Pending,
            ).len(),
            r.visible_now == self@.runs.filter(
                |x: RunV| x.state == RunState::Pending && x.available_at <= now,
            ).len(),
    {
        let ghost donep = |t: TaskV| t.state.spec_is_terminal();
        let ghost pendp = |t: TaskV| t.state == TaskState::Pending;
        let ghost duep = |x: RunV| x.state == RunState::Pending && x.available_at <= now;
        let mut active_queues: i64 = 0;
        let mut messages_processed: i64 = 0;
        let mut messages_in_queue: i64 = 0;
        let mut visible_now: i64 = 0;
        let mut i: usize = 0;
        while i < self.tasks.len()
            invariant
                0 <= i <= self.tasks.len(),
                donep == (|t: TaskV| t.state.spec_is_terminal()),
                pendp == (|t: TaskV| t.state == TaskState::Pending),
                self@.tasks.len() <= 0x7fffffffffffff,
                active_queues == count_active_queues(self@.tasks, i as int),
                messages_processed == self@.tasks.subrange(0, i as int).filter(donep).len(),
                messages_in_queue == self@.tasks.subrange(0, i as int).filter(pendp).len(),
                0 <= active_queues <= i,
                0 <= messages_processed <= i,
                0 <= messages_in_queue <= i,
            decreases self.tasks.len() - i,
        {
            proof {
                crate::db::lemma_filter_step(self@.tasks, donep, i as int);
                crate::db::lemma_filter_step(self@.tasks, pendp, i as int);
                self@.tasks.subrange(0, i as int).lemma_filter_len(donep);
                self@.tasks.subrange(0, i as int).lemma_filter_len(pendp);
                self@.tasks.subrange(0, i as int + 1).lemma_filter_len(donep);
                self@.tasks.subrange(0, i as int + 1).lemma_filter_len(pendp);
            }
            let live = matches!(
                self.tasks[i].state,
                TaskState::Pending | TaskState::Running | TaskState::Sleeping
            );
            if live {
                let mut seen = false;
                let mut j: usize = 0;
                while j < i
                    invariant
                        0 <= j <= i,
                        i < self@.tasks.len(),
                        seen <==> (exists|w: int|
                            0 <= w < j && task_live(#[trigger] self@.tasks[w])
                                && self@.tasks[w].queue_name == self@.tasks[i as int].queue_name),
                    decreases i - j,
                {
                    let hit = matches!(
                        self.tasks[j].state,
                        TaskState::Pending | TaskState::Running | TaskState::Sleeping
                    ) && self.tasks[j].queue_name.eq(&self.tasks[i].queue_name);
                    if hit {
                        proof {
                            assert(task_live(self@.tasks[j as int]) && self@.tasks[j as int].queue_name
                                == self@.tasks[i as int].queue_name);
                        }
                        seen = true;
                    }
                    j = j + 1;
                }
                if !seen {
                    active_queues = active_queues + 1;
                }
            }
            if self.tasks[i].state.is_terminal() {
                messages_processed = messages_processed + 1;
            }
            if matches!(self.tasks[i].state, TaskState::Pending) {
                messages_in_queue = messages_in_queue + 1;
            }
            i = i + 1;
        }
        proof {
            assert(self@.tasks.subrange(0, self@.tasks.len() as int) =~= self@.tasks);
        }
        let mut k: usize = 0;
        while k < self.runs.len()
            invariant
                0 <= k <= self.runs.len(),
                duep == (|x: RunV| x.state == RunState::Pending && x.available_at <= now),
                self@.runs.len() <= 0x7fffffffffffff,
                visible_now == self@.runs.subrange(0, k as int).filter(duep).len(),
                0 <= visible_now <= k,
            decreases self.runs.len() - k,
        {
            proof {
                crate::db::lemma_filter_step(self@.runs, duep, k as int);
                self@.runs.subrange(0, k as int).lemma_filter_len(duep);
                self@.runs.subrange(0, k as int + 1).lemma_filter_len(duep);
            }
            if matches!(self.runs[k].state, RunState::Pending) && self.runs[k].available_at <= now {
                visible_now = visible_now + 1;
            }
            k = k + 1;
        }
        proof {
            assert(self@.runs.subrange(0, self@.runs.len() as int) =~= self@.runs);
        }
        OverviewMetrics { active_queues, messages_processed, messages_in_queue, visible_now }
    }
}

/// Per-queue counters for a monitoring surface; the age and timestamp
/// labels are rendered by the host.
pub struct QueueMetric {
    pub name: String,
    pub in_queue: i64,
    pub visible: i64,
    pub newest_age: String,
    pub oldest_age: String,
    pub total_seen: i64,
    pub scraped_at: String,
}

/// One labelled counter of a queue summary.
pub struct QueueSummaryStat {
    pub label: String,
    pub value: i64,
}

/// A queue with its six per-state task counters; the rendered labels come
/// from the host.
pub struct QueueSummary {
    pub name: String,
    pub created_at: String,
    pub age: String,
    pub stats: Vec<QueueSummaryStat>,
}

/// Defaults for an event-browsing filter form.
pub struct EventFilterDefaults {
    pub event_name_placeholder: String,
    pub queue_label: String,
    pub queue_options: Vec<String>,
}

impl Db {
    /// The per-queue counters: pending tasks, due pending runs, and runs
    /// ever seen. The rendered labels are passed through.
    pub fn queue_metric(
        &self,
        name: &String,
        now: i64,
        newest_age: String,
        oldest_age: String,
        scraped_at: String,
    ) -> (r: QueueMetric)
        requires
            self@.tasks.len() <= 0x7fffffffffffff,
            self@.runs.len() <= 0x7fffffffffffff,
        ensures
            r.name@ == name@,
            r.in_queue == self@.tasks.filter(
                |t: TaskV| t.queue_name == name@ && t.state == TaskState::Pending,
            ).len(),
            r.visible == self@.runs.filter(
                |x: RunV| x.queue_name == name@ && x.state == RunState::Pending && x.available_at
                    <= now,
            ).len(),
            r.total_seen == self@.runs.filter(|x: RunV| x.queue_name == name@).len(),
            r.newest_age@ == newest_age@,
            r.oldest_age@ == oldest_age@,
            r.scraped_at@ == scraped_at@,
    {
        let ghost pendp = |t: TaskV| t.queue_name == name@ && t.state == TaskState::Pending;
        let ghost duep = |x: RunV|
            x.queue_name == name@ && x.state == RunState::Pending && x.available_at <= now;
        let ghost seenp = |x: RunV| x.queue_name == name@;
        let mut in_queue: i64 = 0;
        let mut i: usize = 0;
        while i < self.tasks.len()
            invariant
                0 <= i <= self.tasks.len(),
                pendp == (|t: TaskV| t.queue_name == name@ && t.state == TaskState::Pending),
                self@.tasks.len() <= 0x7fffffffffffff,
                in_queue == self@.tasks.subrange(0, i as int).filter(pendp).len(),
                0 <= in_queue <= i,
            decreases self.tasks.len() - i,
        {
            proof {
                crate::db::lemma_filter_step(self@.tasks, pendp, i as int);
                self@.tasks.subrange(0, i as int).lemma_filter_len(pendp);
                self@.tasks.subrange(0, i as int + 1).lemma_filter_len(pendp);
            }
            if self.tasks[i].queue_name.eq(name) && matches!(
                self.tasks[i].state,
                TaskState::Pending
            ) {
                in_queue = in_queue + 1;
            }
            i = i + 1;
        }
        let mut visible: i64 = 0;
        let mut total_seen: i64 = 0;
        let mut k: usize = 0;
        while k < self.runs.len()
            invariant
                0 <= k <= self.runs.len(),
                duep == (|x: RunV|
                    x.queue_name == name@ && x.state == RunState::Pending && x.available_at
                        <= now),
                seenp == (|x: RunV| x.queue_name == name@),
                self@.runs.len() <= 0x7fffffffffffff,
                visible == self@.runs.subrange(0, k as int).filter(duep).len(),
                total_seen == self@.runs.subrange(0, k as int).filter(seenp).len(),
                0 <= visible <= k,
                0 <= total_seen <= k,
            decreases self.runs.len() - k,
        {
            proof {
                crate::db::lemma_filter_step(self@.runs, duep, k as int);
                crate::db::lemma_filter_step(self@.runs, seenp, k as int);
                self@.runs.subrange(0, k as int).lemma_filter_len(duep);
                self@.runs.subrange(0, k as int).lemma_filter_len(seenp);
                self@.runs.subrange(0, k as int + 1).lemma_filter_len(duep);
                self@.runs.subrange(0, k as int + 1).lemma_filter_len(seenp);
            }
            if self.runs[k].queue_name.eq(name) {
                total_seen = total_seen + 1;
                if matches!(self.runs[k].state, RunState::Pending) && self.runs[k].available_at
                    <= now {
                    visible = visible + 1;
                }
            }
            k = k + 1;
        }
        proof {
            assert(self@.tasks.subrange(0, self@.tasks.len() as int) =~= self@.tasks);
            assert(self@.runs.subrange(0, self@.runs.len() as int) =~= self@.runs);
        }
        QueueMetric {
            name: name.clone(),
            in_queue,
            visible,
            newest_age,
            oldest_age,
            total_seen,
            scraped_at,
        }
    }

    /// How many tasks of the queue are in the given state.
    pub fn count_tasks_in_state(&self, name: &String, state: TaskState) -> (r: i64)
        requires
            self@.tasks.len() <= 0x7fffffffffffff,
        ensures
            r == self@.tasks.filter(
                |t: TaskV| t.queue_name == name@ && t.state == state,
            ).len(),
    {
        let ghost p = |t: TaskV| t.queue_name == name@ && t.state == state;
        let mut count: i64 = 0;
        let mut i: usize = 0;
        while i < self.tasks.len()
            invariant
                0 <= i <= self.tasks.len(),
                p == (|t: TaskV| t.queue_name == name@ && t.state == state),
                self@.tasks.len() <= 0x7fffffffffffff,
                count == self@.tasks.subrange(0, i as int).filter(p).len(),
                0 <= count <= i,
            decreases self.tasks.len() - i,
        {
            proof {
                crate::db::lemma_filter_step(self@.tasks, p, i as int);
                self@.tasks.subrange(0, i as int).lemma_filter_len(p);
                self@.tasks.subrange(0, i as int + 1).lemma_filter_len(p);
            }
            if self.tasks[i].queue_name.eq(name) && self.tasks[i].state == state {
                count = count + 1;
            }
            i = i + 1;
        }
        proof {
            assert(self@.tasks.subrange(0, self@.tasks.len() as int) =~= self@.tasks);
        }
        count
    }

    /// The six labelled per-state counters of a queue summary.
    pub fn queue_stats(&self, name: &String) -> (r: Vec<QueueSummaryStat>)
        requires
            self@.tasks.len() <= 0x7fffffffffffff,
        ensures
            r@.len() == 6,
    {
        let mut out: Vec<QueueSummaryStat> = Vec::new();
        out.push(
            QueueSummaryStat {
                label: "Pending".to_owned(),
                value: self.count_tasks_in_state(name, TaskState::Pending),
            },
        );
        out.push(
            QueueSummaryStat {
                label: "Running".to_owned(),
                value: self.count_tasks_in_state(name, TaskState::Running),
            },
        );
        out.push(
            QueueSummaryStat {
                label: "Sleeping".to_owned(),
                value: self.count_tasks_in_state(name, TaskState::Sleeping),
            },
        );
        out.push(
            QueueSummaryStat {
                label: "Completed".to_owned(),
                value: self.count_tasks_in_state(name, TaskState::Completed),
            },
        );
        out.push(
            QueueSummaryStat {
                label: "Failed".to_owned(),
                value: self.count_tasks_in_state(name, TaskState::Failed),
            },
        );
        out.push(
            QueueSummaryStat {
                label: "Cancelled".to_owned(),
                value: self.count_tasks_in_state(name, TaskState::Cancelled),
            },
        );
        out
    }

    /// A queue summary: the passthrough labels with the six counters.
    pub fn queue_summary(&self, name: &String, created_at: String, age: String) -> (r:
        QueueSummary)
        requires
            self@.tasks.len() <= 0x7fffffffffffff,
        ensures
            r.name@ == name@,
            r.created_at@ == created_at@,
            r.age@ == age@,
            r.stats@.len() == 6,
    {
        QueueSummary {
            name: name.clone(),
            created_at,
            age,
            stats: self.queue_stats(name),
        }
    }

    /// Filter-form defaults: the most recently emitted event's name as
    /// the placeholder, and the queue options behind the given label.
    pub fn event_filter_defaults(&self, queue_label: String) -> (r: EventFilterDefaults)
        ensures
            self@.events.len() == 0 ==> r.event_name_placeholder@ == "payment.completed"@,
            self@.events.len() > 0 ==> (exists|i: int|
                0 <= i < self@.events.len() && r.event_name_placeholder@ == (
                #[trigger] self@.events[i]).event_name && (forall|j: int|
                    0 <= j < self@.events.len() ==> (#[trigger] self@.events[j]).emitted_at
                        <= self@.events[i].emitted_at)),
            r.queue_options@.len() == self@.queues.len() + 1,
    {
        let mut placeholder: String = "payment.completed".to_owned();
        let mut best: Option<usize> = None;
        let mut i: usize = 0;
        while i < self.events.len()
            invariant
                0 <= i <= self.events.len(),
                (match best {
                    Some(b) => b < i && (forall|j: int|
                        0 <= j < i ==> (#[trigger] self@.events[j]).emitted_at
                            <= self@.events[b as int].emitted_at),
                    None => i == 0,
                }),
            decreases self.events.len() - i,
        {
            let better = match best {
                Some(b) => self.events[i].emitted_at > self.events[b].emitted_at,
                None => true,
            };
            if better {
                best = Some(i);
            }
            i = i + 1;
        }
        match best {
            Some(b) => {
                placeholder = self.events[b].event_name.clone();
                proof {
                    assert(0 <= b < self@.events.len() && placeholder@
                        == self@.events[b as int].event_name);
                }
            },
            None => {},
        }
        let mut queue_options: Vec<String> = Vec::new();
        queue_options.push("All queues".to_owned());
        let mut k: usize = 0;
        while k < self.queues.len()
            invariant
                0 <= k <= self.queues.len(),
                queue_options@.len() == k + 1,
            decreases self.queues.len() - k,
        {
            queue_options.push(self.queues[k].queue_name.clone());
            k = k + 1;
        }
        EventFilterDefaults { event_name_placeholder: placeholder, queue_label, queue_options }
    }
}

/// Where a monitoring host finds its store: an explicit path, or the
/// application's data directory.
pub enum Source {
    Path(String),
    AppData,
}

/// A handle naming the store a monitoring host opens.
pub struct DatabaseHandle {
    pub source: Source,
}

impl DatabaseHandle {
    /// A handle for an explicit path.
    pub fn from_path(path: &String) -> (r: DatabaseHandle)
        ensures
            (r.source matches Source::Path(p) && p@ == path@),
    {
        DatabaseHandle { source: Source::Path(path.clone()) }
    }
}

} // verus!
