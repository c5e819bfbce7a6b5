//! The processing pipeline's task queue: tasks wait by priority (highest first,
//! first come first served within a priority), move to processing when taken,
//! and end up completed, or failed after their third failure; earlier failures
//! requeue them. Also the errors of the pipeline's processors.
use crate::text::owned;
use vstd::prelude::*;

verus! {

/// A task fails for good on this failure.
pub const MAX_TASK_ATTEMPTS: u32 = 3;

#[derive(Debug, Clone, Copy, PartialEq, Eq, Structural)]
pub enum TaskStatus {
    Pending,
    Processing,
    Completed,
    Failed,
}

/// The kinds of work done on a newly imported archive.
#[derive(Debug, Clone, Copy, PartialEq, Eq, Structural)]
pub enum TaskType {
    MetadataExtraction,
    ThumbnailGeneration,
    AIAnalysis,
}

/// A unit of work on one archive. `created_at_ms` is the creation time in
/// milliseconds since the Unix epoch.
#[derive(Debug)]
pub struct ProcessingTask {
    pub id: String,
    pub archive_id: String,
    pub task_type: TaskType,
    pub priority: i32,
    pub status: TaskStatus,
    pub created_at_ms: i64,
    pub retry_count: u32,
}

pub fn copy_task(t: &ProcessingTask) -> (r: ProcessingTask)
    ensures
        r == *t,
{
    ProcessingTask {
        id: t.id.clone(),
        archive_id: t.archive_id.clone(),
        task_type: t.task_type,
        priority: t.priority,
        status: t.status,
        created_at_ms: t.created_at_ms,
        retry_count: t.retry_count,
    }
}

/// A new pending task.
pub open spec fn new_task(
    id: Seq<char>,
    archive_id: Seq<char>,
    task_type: TaskType,
    priority: i32,
    created_at_ms: i64,
    t: ProcessingTask,
) -> bool {
    &&& t.id@ == id
    &&& t.archive_id@ == archive_id
    &&& t.task_type == task_type
    &&& t.priority == priority
    &&& t.status == TaskStatus::Pending
    &&& t.created_at_ms == created_at_ms
    &&& t.retry_count == 0
}

/// The work queued for a newly imported archive, with the given task ids:
/// metadata extraction and thumbnail generation at priority 1, AI analysis
/// after them at priority 0.
pub fn archive_tasks(
    archive_id: &str,
    metadata_id: String,
    thumbnail_id: String,
    analysis_id: String,
    created_at_ms: i64,
) -> (r: Vec<ProcessingTask>)
    ensures
        r@.len() == 3,
        new_task(metadata_id@, archive_id@, TaskType::MetadataExtraction, 1, created_at_ms, r@[0]),
        new_task(thumbnail_id@, archive_id@, TaskType::ThumbnailGeneration, 1, created_at_ms, r@[1]),
        new_task(analysis_id@, archive_id@, TaskType::AIAnalysis, 0, created_at_ms, r@[2]),
{
    let mut r: Vec<ProcessingTask> = Vec::new();
    r.push(ProcessingTask {
        id: metadata_id,
        archive_id: owned(archive_id),
        task_type: TaskType::MetadataExtraction,
        priority: 1,
        status: TaskStatus::Pending,
        created_at_ms,
        retry_count: 0,
    });
    r.push(ProcessingTask {
        id: thumbnail_id,
        archive_id: owned(archive_id),
        task_type: TaskType::ThumbnailGeneration,
        priority: 1,
        status: TaskStatus::Pending,
        created_at_ms,
        retry_count: 0,
    });
    r.push(ProcessingTask {
        id: analysis_id,
        archive_id: owned(archive_id),
        task_type: TaskType::AIAnalysis,
        priority: 0,
        status: TaskStatus::Pending,
        created_at_ms,
        retry_count: 0,
    });
    r
}

pub open spec fn with_status(t: ProcessingTask, s: TaskStatus) -> ProcessingTask {
    ProcessingTask { status: s, ..t }
}

/// `i` is the task to take next: it has the highest priority, and no earlier
/// task has that priority.
pub open spec fn is_next(q: Seq<ProcessingTask>, i: int) -> bool {
    &&& 0 <= i < q.len()
    &&& forall|j: int| 0 <= j < q.len() ==> #[trigger] q[j].priority <= q[i].priority
    &&& forall|j: int| 0 <= j < i ==> #[trigger] q[j].priority < q[i].priority
}

/// The processing table after storing `t` under its id, replacing a task with the same id.
pub open spec fn store(p: Seq<ProcessingTask>, t: ProcessingTask) -> Seq<ProcessingTask> {
    if exists|i: int| 0 <= i < p.len() && #[trigger] p[i].id@ == t.id@ {
        p.update(choose|i: int| 0 <= i < p.len() && #[trigger] p[i].id@ == t.id@, t)
    } else {
        p.push(t)
    }
}

pub open spec fn ids_unique(p: Seq<ProcessingTask>) -> bool {
    forall|a: int, b: int| 0 <= a < b < p.len() ==> #[trigger] p[a].id@ != #[trigger] p[b].id@
}

/// The task after one more failure: requeued as pending while it has failed
/// fewer than `MAX_TASK_ATTEMPTS` times, failed for good otherwise.
pub open spec fn after_failure(t: ProcessingTask) -> ProcessingTask {
    let retries = if t.retry_count < u32::MAX {
        (t.retry_count + 1) as u32
    } else {
        u32::MAX
    };
    ProcessingTask {
        retry_count: retries,
        status: if retries < MAX_TASK_ATTEMPTS {
            TaskStatus::Pending
        } else {
            TaskStatus::Failed
        },
        ..t
    }
}

pub struct TaskQueue {
    pending: Vec<ProcessingTask>,
    processing: Vec<ProcessingTask>,
    completed: Vec<ProcessingTask>,
    failed: Vec<ProcessingTask>,
}

impl TaskQueue {
    /// Tasks waiting, in the order they were enqueued.
    pub closed spec fn pending(&self) -> Seq<ProcessingTask> {
        self.pending@
    }

    /// Tasks taken and not yet finished, one per id.
    pub closed spec fn processing(&self) -> Seq<ProcessingTask> {
        self.processing@
    }

    pub closed spec fn completed(&self) -> Seq<ProcessingTask> {
        self.completed@
    }

    pub closed spec fn failed(&self) -> Seq<ProcessingTask> {
        self.failed@
    }

    pub closed spec fn wf(&self) -> bool {
        ids_unique(self.processing@)
    }

    pub fn new() -> (r: Self)
        ensures
            r.wf(),
            r.pending().len() == 0,
            r.processing().len() == 0,
            r.completed().len() == 0,
            r.failed().len() == 0,
    {
        TaskQueue {
            pending: Vec::new(),
            processing: Vec::new(),
            completed: Vec::new(),
            failed: Vec::new(),
        }
    }

    /// The tasks waiting, in the order they were enqueued.
    pub fn pending_tasks(&self) -> (r: &Vec<ProcessingTask>)
        ensures
            r@ == self.pending(),
    {
        &self.pending
    }

    /// The tasks taken and not finished.
    pub fn processing_tasks(&self) -> (r: &Vec<ProcessingTask>)
        ensures
            r@ == self.processing(),
    {
        &self.processing
    }

    /// The finished tasks, in the order they finished.
    pub fn completed_tasks(&self) -> (r: &Vec<ProcessingTask>)
        ensures
            r@ == self.completed(),
    {
        &self.completed
    }

    /// The tasks that failed for good, in the order they failed.
    pub fn failed_tasks(&self) -> (r: &Vec<ProcessingTask>)
        ensures
            r@ == self.failed(),
    {
        &self.failed
    }

    /// Puts a task at the end of the waiting line of its priority.
    pub fn enqueue(&mut self, task: ProcessingTask)
        requires
            old(self).wf(),
        ensures
            final(self).wf(),
            final(self).pending() == old(self).pending().push(task),
            final(self).processing() == old(self).processing(),
            final(self).completed() == old(self).completed(),
            final(self).failed() == old(self).failed(),
    {
        self.pending.push(task);
    }

    fn next_index(&self) -> (r: Option<usize>)
        ensures
            match r {
                Some(i) => is_next(self.pending@, i as int),
                None => self.pending@.len() == 0,
            },
    {
        if self.pending.len() == 0 {
            return None;
        }
        let mut best: usize = 0;
        let mut i: usize = 1;
        while i < self.pending.len()
            invariant
                0 < i <= self.pending@.len(),
                best < i,
                forall|j: int| 0 <= j < i ==> #[trigger] self.pending@[j].priority
                    <= self.pending@[best as int].priority,
                forall|j: int| 0 <= j < best ==> #[trigger] self.pending@[j].priority
                    < self.pending@[best as int].priority,
            decreases self.pending@.len() - i,
        {
            if self.pending[i].priority > self.pending[best].priority {
                best = i;
            }
            i = i + 1;
        }
        Some(best)
    }

    fn find_processing(&self, id: &str) -> (r: Option<usize>)
        ensures
            match r {
                Some(i) => i < self.processing@.len() && self.processing@[i as int].id@ == id@,
                None => forall|j: int|
                    0 <= j < self.processing@.len() ==> #[trigger] self.processing@[j].id@ != id@,
            },
    {
        let mut i: usize = 0;
        while i < self.processing.len()
            invariant
                i <= self.processing@.len(),
                forall|j: int| 0 <= j < i ==> #[trigger] self.processing@[j].id@ != id@,
            decreases self.processing@.len() - i,
        {
            if crate::text::str_eq(self.processing[i].id.as_str(), id) {
                return Some(i);
            }
            i = i + 1;
        }
        None
    }

    /// Takes the next task: the highest priority, first come first served among
    /// equals. It is marked processing, stored in the processing table under its
    /// id (replacing a task with the same id) and returned.
    pub fn dequeue(&mut self) -> (r: Option<ProcessingTask>)
        requires
            old(self).wf(),
        ensures
            final(self).wf(),
            final(self).completed() == old(self).completed(),
            final(self).failed() == old(self).failed(),
            r is None <==> old(self).pending().len() == 0,
            r is None ==> final(self).pending() == old(self).pending() && final(self).processing()
                == old(self).processing(),
            r matches Some(t) ==> exists|i: int|
                is_next(old(self).pending(), i) && t == with_status(
                    #[trigger] old(self).pending()[i],
                    TaskStatus::Processing,
                ) && final(self).pending() == old(self).pending().remove(i)
                    && final(self).processing() == store(old(self).processing(), t),
    {
        match self.next_index() {
            None => None,
            Some(i) => {
                let mut task = self.pending.remove(i);
                task.status = TaskStatus::Processing;
                let copy = copy_task(&task);
                let ghost p = self.processing@;
                match self.find_processing(task.id.as_str()) {
                    Some(j) => {
                        self.processing.set(j, task);
                        proof {
                            let w = choose|k: int| 0 <= k < p.len() && #[trigger] p[k].id@ == copy.id@;
                            assert(w == j as int) by {
                                if w != j as int {
                                    if w < j as int {
                                        assert(p[w].id@ != p[j as int].id@);
                                    } else {
                                        assert(p[j as int].id@ != p[w].id@);
                                    }
                                }
                            }
                            let q = self.processing@;
                            assert forall|a: int, b: int| 0 <= a < b < q.len() implies #[trigger] q[a].id@
                                != #[trigger] q[b].id@ by {
                                if a != j && b != j {
                                    assert(q[a] == p[a] && q[b] == p[b]);
                                } else if a == j {
                                    assert(q[b] == p[b]);
                                    assert(p[j as int].id@ != p[b].id@);
                                } else {
                                    assert(q[a] == p[a]);
                                    assert(p[a].id@ != p[j as int].id@);
                                }
                            }
                        }
                    },
                    None => {
                        proof {
                            assert(!exists|k: int| 0 <= k < p.len() && #[trigger] p[k].id@ == copy.id@) by {
                                assert forall|k: int| 0 <= k < p.len() implies #[trigger] p[k].id@
                                    != copy.id@ by {
                                    assert(p[k].id@ != task.id@);
                                }
                            }
                        }
                        self.processing.push(task);
                        proof {
                            let q = self.processing@;
                            assert forall|a: int, b: int| 0 <= a < b < q.len() implies #[trigger] q[a].id@
                                != #[trigger] q[b].id@ by {
                                assert(q[a] == p[a]);
                                if b < p.len() {
                                    assert(q[b] == p[b]);
                                    assert(p[a].id@ != p[b].id@);
                                } else {
                                    assert(q[b] == task);
                                    assert(p[a].id@ != copy.id@);
                                }
                            }
                        }
                    },
                }
                proof {
                    assert(with_status(old(self).pending@[i as int], TaskStatus::Processing) == copy);
                }
                Some(copy)
            },
        }
    }

    fn take_processing(&mut self, task_id: &str) -> (r: Option<ProcessingTask>)
        requires
            old(self).wf(),
        ensures
            final(self).wf(),
            final(self).pending == old(self).pending,
            final(self).completed == old(self).completed,
            final(self).failed == old(self).failed,
            match r {
                None => final(self).processing == old(self).processing && forall|j: int|
                    0 <= j < old(self).processing@.len() ==> #[trigger] old(self).processing@[j].id@
                        != task_id@,
                Some(t) => exists|i: int|
                    0 <= i < old(self).processing@.len() && #[trigger] old(self).processing@[i] == t
                        && t.id@ == task_id@ && final(self).processing@ == old(self).processing@.remove(i),
            },
    {
        match self.find_processing(task_id) {
            None => None,
            Some(i) => {
                let ghost p = self.processing@;
                let t = self.processing.remove(i);
                proof {
                    let q = self.processing@;
                    assert forall|a: int, b: int| 0 <= a < b < q.len() implies #[trigger] q[a].id@
                        != #[trigger] q[b].id@ by {
                        let a2 = if a < i { a } else { a + 1 };
                        let b2 = if b < i { b } else { b + 1 };
                        assert(q[a] == p[a2]);
                        assert(q[b] == p[b2]);
                    }
                }
                Some(t)
            },
        }
    }

    /// Finishes the processing task `task_id`: it moves to the completed list.
    /// An unknown id changes nothing.
    pub fn mark_completed(&mut self, task_id: &str)
        requires
            old(self).wf(),
        ensures
            final(self).wf(),
            final(self).pending() == old(self).pending(),
            final(self).failed() == old(self).failed(),
            (forall|j: int|
                0 <= j < old(self).processing().len() ==> #[trigger] old(self).processing()[j].id@
                    != task_id@) ==> final(self).processing() == old(self).processing()
                && final(self).completed() == old(self).completed(),
            forall|i: int|
                0 <= i < old(self).processing().len() && #[trigger] old(self).processing()[i].id@
                    == task_id@ ==> final(self).processing() == old(self).processing().remove(i)
                    && final(self).completed() == old(self).completed().push(
                    with_status(old(self).processing()[i], TaskStatus::Completed),
                ),
    {
        let ghost p = self.processing@;
        match self.take_processing(task_id) {
            None => {},
            Some(mut task) => {
                task.status = TaskStatus::Completed;
                self.completed.push(task);
                proof {
                    lemma_unique_index(p, task_id@);
                }
            },
        }
    }

    /// Records a failure of the processing task `task_id`: it is requeued as
    /// pending while it has failed fewer than three times, and moves to the
    /// failed list on its third failure. An unknown id changes nothing.
    pub fn mark_failed(&mut self, task_id: &str)
        requires
            old(self).wf(),
        ensures
            final(self).wf(),
            final(self).completed() == old(self).completed(),
            (forall|j: int|
                0 <= j < old(self).processing().len() ==> #[trigger] old(self).processing()[j].id@
                    != task_id@) ==> final(self).processing() == old(self).processing()
                && final(self).pending() == old(self).pending() && final(self).failed()
                == old(self).failed(),
            forall|i: int|
                0 <= i < old(self).processing().len() && #[trigger] old(self).processing()[i].id@
                    == task_id@ ==> {
                    let t = after_failure(old(self).processing()[i]);
                    &&& final(self).processing() == old(self).processing().remove(i)
                    &&& if t.status == TaskStatus::Pending {
                        final(self).pending() == old(self).pending().push(t) && final(self).failed()
                            == old(self).failed()
                    } else {
                        final(self).pending() == old(self).pending() && final(self).failed()
                            == old(self).failed().push(t)
                    }
                },
    {
        let ghost p = self.processing@;
        match self.take_processing(task_id) {
            None => {},
            Some(mut task) => {
                task.status = TaskStatus::Failed;
                task.retry_count = task.retry_count.saturating_add(1);
                if task.retry_count < MAX_TASK_ATTEMPTS {
                    task.status = TaskStatus::Pending;
                    self.pending.push(task);
                } else {
                    self.failed.push(task);
                }
                proof {
                    lemma_unique_index(p, task_id@);
                }
            },
        }
    }
}

/// With unique ids, at most one index holds a given id.
pub proof fn lemma_unique_index(p: Seq<ProcessingTask>, id: Seq<char>)
    requires
        ids_unique(p),
    ensures
        forall|a: int, b: int|
            0 <= a < p.len() && 0 <= b < p.len() && #[trigger] p[a].id@ == id && #[trigger] p[b].id@
                == id ==> a == b,
{
    assert forall|a: int, b: int|
        0 <= a < p.len() && 0 <= b < p.len() && #[trigger] p[a].id@ == id && #[trigger] p[b].id@
            == id implies a == b by {
        if a < b {
            assert(p[a].id@ != p[b].id@);
        } else if b < a {
            assert(p[b].id@ != p[a].id@);
        }
    }
}


/// The next task is determined: at most one index of a queue is the next one.
pub proof fn law_next_is_unique(q: Seq<ProcessingTask>, i: int, j: int)
    requires
        is_next(q, i),
        is_next(q, j),
    ensures
        i == j,
{
    if i < j {
        assert(q[i].priority < q[j].priority);
    } else if j < i {
        assert(q[j].priority < q[i].priority);
    }
}

/// Tasks are taken by priority and, within a priority, in the order they were
/// enqueued: the next task of a queue keeps being next when a task of no higher
/// priority is enqueued behind it, and a task of higher priority than every
/// waiting one becomes next.
pub proof fn law_priority_then_arrival(q: Seq<ProcessingTask>, i: int, t: ProcessingTask)
    ensures
        is_next(q, i) && t.priority <= q[i].priority ==> is_next(q.push(t), i),
        (forall|j: int| 0 <= j < q.len() ==> #[trigger] q[j].priority < t.priority) ==> is_next(
            q.push(t),
            q.len() as int,
        ),
{
    let r = q.push(t);
    if is_next(q, i) && t.priority <= q[i].priority {
        assert forall|j: int| 0 <= j < r.len() implies #[trigger] r[j].priority <= r[i].priority by {
            if j < q.len() {
                assert(r[j] == q[j]);
            }
        }
        assert forall|j: int| 0 <= j < i implies #[trigger] r[j].priority < r[i].priority by {
            assert(r[j] == q[j]);
        }
    }
    if forall|j: int| 0 <= j < q.len() ==> #[trigger] q[j].priority < t.priority {
        assert forall|j: int| 0 <= j < r.len() implies #[trigger] r[j].priority <= r[q.len() as int].priority by {
            if j < q.len() {
                assert(r[j] == q[j]);
            }
        }
        assert forall|j: int| 0 <= j < q.len() implies #[trigger] r[j].priority < r[q.len() as int].priority by {
            assert(r[j] == q[j]);
        }
    }
}

/// A failed task is retried while it has failed fewer than `MAX_TASK_ATTEMPTS`
/// times: a fresh task is requeued after its first and second failure and fails
/// for good on its third; every failure is counted.
pub proof fn law_retry_budget(t: ProcessingTask)
    requires
        t.retry_count < u32::MAX,
    ensures
        after_failure(t).retry_count == t.retry_count + 1,
        after_failure(t).status == TaskStatus::Pending <==> t.retry_count + 1 < MAX_TASK_ATTEMPTS,
        after_failure(t).status == TaskStatus::Failed <==> t.retry_count + 1 >= MAX_TASK_ATTEMPTS,
        after_failure(t).id == t.id && after_failure(t).priority == t.priority,
        t.retry_count == 0 ==> after_failure(t).status == TaskStatus::Pending && after_failure(
            after_failure(t),
        ).status == TaskStatus::Pending && after_failure(after_failure(after_failure(t))).status
            == TaskStatus::Failed,
{
}


// ---------------------------------------------------------------------------
// Processor errors
// ---------------------------------------------------------------------------
#[derive(Debug)]
pub enum MetadataError {
    ExtractionFailed(String),
    UnsupportedFormat { format: String },
}

#[derive(Debug)]
pub enum ThumbnailError {
    GenerationFailed(String),
    UnsupportedFormat { format: String },
}

#[derive(Debug)]
pub enum AIError {
    AnalysisFailed(String),
    ModelUnavailable,
    Network(String),
}

fn prefixed(prefix: &str, detail: &str) -> (r: String)
    ensures
        r@ == prefix@ + detail@,
{
    let mut s = String::from_str(prefix);
    s.append(detail);
    s
}

impl MetadataError {
    pub fn message(&self) -> (r: String)
        ensures
            r@ == match self {
                MetadataError::ExtractionFailed(d) => "提取失败: "@ + d@,
                MetadataError::UnsupportedFormat { format } => "不支持的格式: "@ + format@,
            },
    {
        match self {
            MetadataError::ExtractionFailed(d) => prefixed("提取失败: ", d.as_str()),
            MetadataError::UnsupportedFormat { format } => prefixed("不支持的格式: ", format.as_str()),
        }
    }
}

impl ThumbnailError {
    pub fn message(&self) -> (r: String)
        ensures
            r@ == match self {
                ThumbnailError::GenerationFailed(d) => "生成失败: "@ + d@,
                ThumbnailError::UnsupportedFormat { format } => "不支持的格式: "@ + format@,
            },
    {
        match self {
            ThumbnailError::GenerationFailed(d) => prefixed("生成失败: ", d.as_str()),
            ThumbnailError::UnsupportedFormat { format } => prefixed("不支持的格式: ", format.as_str()),
        }
    }
}

impl AIError {
    pub fn message(&self) -> (r: String)
        ensures
            r@ == match self {
                AIError::AnalysisFailed(d) => "分析失败: "@ + d@,
                AIError::ModelUnavailable => "模型不可用"@,
                AIError::Network(d) => "网络错误: "@ + d@,
            },
    {
        match self {
            AIError::AnalysisFailed(d) => prefixed("分析失败: ", d.as_str()),
            AIError::ModelUnavailable => String::from_str("模型不可用"),
            AIError::Network(d) => prefixed("网络错误: ", d.as_str()),
        }
    }
}

} // verus!
