//! Import/export pipeline: job lifecycle and a priority job queue.
use vstd::prelude::*;
use vstd::string::*;

verus! {

/// Pipeline job status.
#[derive(Debug, Clone, Copy, PartialEq, Eq, Structural)]
pub enum JobStatus {
    Pending,
    Running,
    Done,
    Failed,
}

impl JobStatus {
    /// The label of each status.
    pub open spec fn spec_label(self) -> Seq<char> {
        match self {
            JobStatus::Pending => "pending"@,
            JobStatus::Running => "running"@,
            JobStatus::Done => "done"@,
            JobStatus::Failed => "failed"@,
        }
    }

    /// Human-readable label.
    pub fn label(&self) -> (s: &'static str)
        ensures
            s@ == self.spec_label(),
    {
        match self {
            JobStatus::Pending => "pending",
            JobStatus::Running => "running",
            JobStatus::Done => "done",
            JobStatus::Failed => "failed",
        }
    }
}

/// Priority level for a job, from lowest to highest.
#[derive(Debug, Clone, Copy, PartialEq, Eq, Structural, PartialOrd, Ord)]
pub enum Priority {
    Low,
    Normal,
    High,
}

/// The numeric level of a priority: `Low` 0, `Normal` 1, `High` 2.
pub open spec fn level(p: Priority) -> int {
    match p {
        Priority::Low => 0,
        Priority::Normal => 1,
        Priority::High => 2,
    }
}

impl Priority {
    /// The numeric level of this priority; a higher priority has a higher
    /// level.
    pub fn level(&self) -> (n: u8)
        ensures
            n == level(*self),
            *self is Low ==> n == 0,
            *self is Normal ==> n == 1,
            *self is High ==> n == 2,
    {
        match self {
            Priority::Low => 0,
            Priority::Normal => 1,
            Priority::High => 2,
        }
    }
}

/// Priorities rank `Low` below `Normal` below `High`, and levels order them
/// that way: one priority's level is below another's exactly when it ranks
/// lower.
pub proof fn lemma_level_ranks(p: Priority, q: Priority)
    ensures
        level(p) < level(q) <==> ((p is Low && !(q is Low)) || (p is Normal && q is High)),
        level(p) == level(q) <==> p == q,
{
}

/// An import/export job.
#[derive(Debug, Clone)]
pub struct ImportJob {
    pub id: u64,
    pub path: String,
    pub status: JobStatus,
    pub priority: Priority,
    pub error: Option<String>,
    pub entity_count: usize,
    pub duration_ms: u64,
}

impl ImportJob {
    /// A pending job of normal priority with no result yet.
    pub fn new(id: u64, path: &str) -> (j: Self)
        ensures
            j.id == id,
            j.path@ == path@,
            j.status == JobStatus::Pending,
            j.priority == Priority::Normal,
            j.error == None::<String>,
            j.entity_count == 0,
            j.duration_ms == 0,
    {
        ImportJob {
            id,
            path: String::from_str(path),
            status: JobStatus::Pending,
            priority: Priority::Normal,
            error: None,
            entity_count: 0,
            duration_ms: 0,
        }
    }

    /// Mark the job as running.
    pub fn start(&mut self)
        ensures
            *final(self) == (ImportJob { status: JobStatus::Running, ..*old(self) }),
    {
        self.status = JobStatus::Running;
    }

    /// Mark the job as done with its result.
    pub fn complete(&mut self, entity_count: usize, duration_ms: u64)
        ensures
            *final(self) == (ImportJob { status: JobStatus::Done, entity_count, duration_ms, ..*old(self) }),
    {
        self.status = JobStatus::Done;
        self.entity_count = entity_count;
        self.duration_ms = duration_ms;
    }

    /// Mark the job as failed with an error message.
    pub fn fail(&mut self, error: &str)
        ensures
            final(self).status == JobStatus::Failed,
            final(self).error matches Some(e) && e@ == error@,
            final(self).id == old(self).id,
            final(self).path == old(self).path,
            final(self).priority == old(self).priority,
            final(self).entity_count == old(self).entity_count,
            final(self).duration_ms == old(self).duration_ms,
    {
        self.status = JobStatus::Failed;
        self.error = Some(String::from_str(error));
    }
}

/// The job `dequeue` picks: a pending job of the highest priority among
/// pending jobs, the last such one in queue order.
pub open spec fn is_next_job(jobs: Seq<ImportJob>, k: int) -> bool {
    &&& 0 <= k < jobs.len()
    &&& jobs[k].status == JobStatus::Pending
    &&& forall|i: int|
        0 <= i < jobs.len() && (#[trigger] jobs[i]).status == JobStatus::Pending ==> level(jobs[i].priority)
            <= level(jobs[k].priority)
    &&& forall|i: int|
        k < i < jobs.len() && (#[trigger] jobs[i]).status == JobStatus::Pending ==> level(jobs[i].priority)
            < level(jobs[k].priority)
}

/// The first job with id `id` is at `k`.
pub open spec fn is_first_with_id(jobs: Seq<ImportJob>, id: u64, k: int) -> bool {
    &&& 0 <= k < jobs.len()
    &&& jobs[k].id == id
    &&& forall|i: int| 0 <= i < k ==> (#[trigger] jobs[i]).id != id
}

/// Every job id lies below `n`.
pub open spec fn ids_below(jobs: Seq<ImportJob>, n: u64) -> bool {
    forall|i: int| 0 <= i < jobs.len() ==> (#[trigger] jobs[i]).id < n
}

/// The job chosen next is pending and no pending job outranks it: a `Low`
/// job is chosen only when every pending job is `Low`, a `Normal` one only
/// when no pending job is `High`; among pending jobs of its priority it is
/// the last.
pub proof fn lemma_next_job_outranks(jobs: Seq<ImportJob>, k: int)
    requires
        is_next_job(jobs, k),
    ensures
        jobs[k].status == JobStatus::Pending,
        forall|i: int|
            0 <= i < jobs.len() && (#[trigger] jobs[i]).status == JobStatus::Pending ==> {
                &&& jobs[k].priority is Low ==> jobs[i].priority is Low
                &&& jobs[k].priority is Normal ==> !(jobs[i].priority is High)
                &&& k < i ==> jobs[i].priority != jobs[k].priority
            },
{
    assert forall|i: int| 0 <= i < jobs.len() && (#[trigger] jobs[i]).status == JobStatus::Pending implies {
        &&& jobs[k].priority is Low ==> jobs[i].priority is Low
        &&& jobs[k].priority is Normal ==> !(jobs[i].priority is High)
        &&& k < i ==> jobs[i].priority != jobs[k].priority
    } by {
        lemma_level_ranks(jobs[i].priority, jobs[k].priority);
    }
}

/// A queue of import/export jobs.
#[derive(Debug)]
pub struct JobQueue {
    jobs: Vec<ImportJob>,
    next_id: u64,
}

impl View for JobQueue {
    type V = Seq<ImportJob>;

    closed spec fn view(&self) -> Seq<ImportJob> {
        self.jobs@
    }
}

impl JobQueue {
    /// The id the next enqueued job gets.
    pub closed spec fn next_id(&self) -> u64 {
        self.next_id
    }

    /// An empty queue.
    pub fn new() -> (q: Self)
        ensures
            q@ == Seq::<ImportJob>::empty(),
            q.next_id() == 1,
            ids_below(q@, q.next_id()),
    {
        JobQueue { jobs: Vec::new(), next_id: 1 }
    }

    /// Enqueue a pending job for `path`; returns its id.
    pub fn enqueue(&mut self, path: &str, priority: Priority) -> (id: u64)
        requires
            old(self).next_id() < u64::MAX,
        ensures
            id == old(self).next_id(),
            final(self).next_id() == old(self).next_id() + 1,
            final(self)@.len() == old(self)@.len() + 1,
            final(self)@.drop_last() == old(self)@,
            final(self)@.last().id == id,
            final(self)@.last().path@ == path@,
            final(self)@.last().status == JobStatus::Pending,
            final(self)@.last().priority == priority,
            final(self)@.last().error == None::<String>,
            final(self)@.last().entity_count == 0,
            final(self)@.last().duration_ms == 0,
            ids_below(old(self)@, old(self).next_id()) ==> ids_below(final(self)@, final(self).next_id()),
            ids_below(old(self)@, old(self).next_id()) ==> forall|i: int|
                0 <= i < old(self)@.len() ==> #[trigger] old(self)@[i].id != id,
            final(self)@.filter(|j: ImportJob| j.status == JobStatus::Pending).len() == old(self)@.filter(
                |j: ImportJob| j.status == JobStatus::Pending,
            ).len() + 1,
    {
        let id = self.next_id;
        self.next_id = self.next_id + 1;
        let mut job = ImportJob::new(id, path);
        job.priority = priority;
        self.jobs.push(job);
        assert(self@.drop_last() =~= old(self)@);
        proof {
            let pending = |j: ImportJob| j.status == JobStatus::Pending;
            assert(self@ =~= old(self)@.push(self@.last()));
            old(self)@.lemma_filter_push(self@.last(), pending);
            if ids_below(old(self)@, old(self).next_id) {
                assert forall|i: int| 0 <= i < self@.len() implies (#[trigger] self@[i]).id < self.next_id by {
                    if i < old(self)@.len() {
                        assert(self@[i] == old(self)@[i]);
                    }
                }
            }
        }
        id
    }

    /// The next pending job to process: the highest priority, and among
    /// equals the last enqueued; `None` when no job is pending.
    pub fn dequeue(&mut self) -> (r: Option<&mut ImportJob>)
        ensures
            match r {
                Some(j) => (exists|k: int|
                    is_next_job(old(self)@, k) && *j == old(self)@[k] && final(self)@ == old(self)@.update(
                        k,
                        *final(j),
                    )) && j.status == JobStatus::Pending && forall|i: int|
                    0 <= i < old(self)@.len() && (#[trigger] old(self)@[i]).status == JobStatus::Pending ==> {
                        &&& j.priority is Low ==> old(self)@[i].priority is Low
                        &&& j.priority is Normal ==> !(old(self)@[i].priority is High)
                    },
                None => final(self)@ == old(self)@ && forall|i: int|
                    0 <= i < old(self)@.len() ==> (#[trigger] old(self)@[i]).status != JobStatus::Pending,
            },
            final(self).next_id() == old(self).next_id(),
    {
        let mut best: Option<usize> = None;
        let mut i: usize = 0;
        while i < self.jobs.len()
            invariant
                i <= self.jobs@.len(),
                match best {
                    Some(k) => k < i && is_next_job(self.jobs@.take(i as int), k as int),
                    None => forall|m: int| 0 <= m < i ==> (#[trigger] self.jobs@[m]).status != JobStatus::Pending,
                },
            decreases self.jobs@.len() - i,
        {
            let ghost t = self.jobs@.take(i + 1);
            assert(forall|m: int| 0 <= m < i ==> t[m] == self.jobs@.take(i as int)[m]);
            assert(t[i as int] == self.jobs@[i as int]);
            if self.jobs[i].status == JobStatus::Pending {
                match best {
                    None => {
                        best = Some(i);
                    },
                    Some(k) => {
                        if self.jobs[i].priority.level() >= self.jobs[k].priority.level() {
                            best = Some(i);
                        }
                    },
                }
            }
            i = i + 1;
        }
        assert(self.jobs@.take(i as int) =~= self.jobs@);
        match best {
            Some(k) => {
                proof {
                    lemma_next_job_outranks(self.jobs@, k as int);
                }
                Some(&mut self.jobs[k])
            },
            None => None,
        }
    }

    /// Position of the first job with id `id`.
    fn find(&self, id: u64) -> (r: Option<usize>)
        ensures
            match r {
                Some(k) => is_first_with_id(self@, id, k as int),
                None => forall|i: int| 0 <= i < self@.len() ==> (#[trigger] self@[i]).id != id,
            },
    {
        let mut i: usize = 0;
        while i < self.jobs.len()
            invariant
                i <= self.jobs@.len(),
                forall|m: int| 0 <= m < i ==> (#[trigger] self.jobs@[m]).id != id,
            decreases self.jobs@.len() - i,
        {
            if self.jobs[i].id == id {
                return Some(i);
            }
            i = i + 1;
        }
        None
    }

    /// The first job with id `id`.
    pub fn get(&self, id: u64) -> (r: Option<&ImportJob>)
        ensures
            match r {
                Some(j) => exists|k: int| is_first_with_id(self@, id, k) && *j == self@[k],
                None => forall|i: int| 0 <= i < self@.len() ==> (#[trigger] self@[i]).id != id,
            },
    {
        match self.find(id) {
            Some(k) => Some(&self.jobs[k]),
            None => None,
        }
    }

    /// Mutable access to the first job with id `id`.
    pub fn get_mut(&mut self, id: u64) -> (r: Option<&mut ImportJob>)
        ensures
            final(self).next_id() == old(self).next_id(),
            match r {
                Some(j) => exists|k: int|
                    is_first_with_id(old(self)@, id, k) && *j == old(self)@[k] && final(self)@ == old(
                        self,
                    )@.update(k, *final(j)),
                None => final(self)@ == old(self)@ && forall|i: int|
                    0 <= i < old(self)@.len() ==> (#[trigger] old(self)@[i]).id != id,
            },
    {
        match self.find(id) {
            Some(k) => Some(&mut self.jobs[k]),
            None => None,
        }
    }

    /// Number of jobs with the given status.
    pub fn count_by_status(&self, status: JobStatus) -> (n: usize)
        ensures
            n == self@.filter(|j: ImportJob| j.status == status).len(),
    {
        let ghost pred = |j: ImportJob| j.status == status;
        let mut n: usize = 0;
        let mut i: usize = 0;
        while i < self.jobs.len()
            invariant
                i <= self.jobs@.len(),
                pred == (|j: ImportJob| j.status == status),
                n == self.jobs@.take(i as int).filter(pred).len(),
                n <= i,
            decreases self.jobs@.len() - i,
        {
            proof {
                assert(self.jobs@.take(i + 1) =~= self.jobs@.take(i as int).push(self.jobs@[i as int]));
                self.jobs@.take(i as int).lemma_filter_push(self.jobs@[i as int], pred);
            }
            if self.jobs[i].status == status {
                n = n + 1;
            }
            i = i + 1;
        }
        assert(self.jobs@.take(i as int) =~= self.jobs@);
        n
    }

    /// Number of jobs.
    pub fn len(&self) -> (n: usize)
        ensures
            n == self@.len(),
    {
        self.jobs.len()
    }

    /// Whether the queue holds no job.
    pub fn is_empty(&self) -> (b: bool)
        ensures
            b == (self@.len() == 0),
    {
        self.jobs.len() == 0
    }
}

} // verus!
