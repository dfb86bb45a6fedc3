use rebit::pipeline::{ImportJob, JobQueue, JobStatus, Priority};

#[test]
fn job_starts_pending() {
    assert_eq!(ImportJob::new(1, "t.ifc").status, JobStatus::Pending);
}

#[test]
fn job_lifecycle() {
    let mut job = ImportJob::new(1, "t.ifc");
    job.start();
    assert_eq!(job.status, JobStatus::Running);
    job.complete(42, 100);
    assert_eq!(job.status, JobStatus::Done);
    assert_eq!(job.entity_count, 42);
}

#[test]
fn job_queue_priority() {
    let mut queue = JobQueue::new();
    queue.enqueue("a.ifc", Priority::Normal);
    queue.enqueue("b.ifc", Priority::High);
    queue.enqueue("c.ifc", Priority::Low);
    let next = queue.dequeue().unwrap();
    assert_eq!(next.path, "b.ifc");
    assert_eq!(next.priority, Priority::High);
}

#[test]
fn job_queue_status_count() {
    let mut queue = JobQueue::new();
    queue.enqueue("a.ifc", Priority::Normal);
    queue.enqueue("b.ifc", Priority::Normal);
    assert_eq!(queue.count_by_status(JobStatus::Pending), 2);
}

#[test]
fn dequeue_picks_last_of_equal_priority_and_skips_started() {
    let mut queue = JobQueue::new();
    let a = queue.enqueue("a.ifc", Priority::High);
    let b = queue.enqueue("b.ifc", Priority::High);
    queue.enqueue("c.ifc", Priority::Low);
    assert_eq!(queue.dequeue().unwrap().id, b);
    queue.get_mut(b).unwrap().start();
    assert_eq!(queue.dequeue().unwrap().id, a);
    queue.get_mut(a).unwrap().fail("bad file");
    assert_eq!(queue.get(a).unwrap().error.as_deref(), Some("bad file"));
    assert_eq!(queue.dequeue().unwrap().path, "c.ifc");
    queue.dequeue().unwrap().complete(1, 2);
    assert!(queue.dequeue().is_none());
    assert_eq!(queue.count_by_status(JobStatus::Failed), 1);
    assert_eq!(queue.count_by_status(JobStatus::Done), 1);
    assert_eq!(queue.count_by_status(JobStatus::Running), 1);
    assert_eq!(queue.len(), 3);
    assert!(queue.get(99).is_none());
}

#[test]
fn labels_and_levels() {
    assert_eq!(JobStatus::Pending.label(), "pending");
    assert_eq!(JobStatus::Running.label(), "running");
    assert_eq!(JobStatus::Done.label(), "done");
    assert_eq!(JobStatus::Failed.label(), "failed");
    assert_eq!(Priority::Low.level(), 0);
    assert_eq!(Priority::High.level(), 2);
    assert!(JobQueue::new().is_empty());
}

#[test]
fn enqueue_ids_count_up_and_add_pending_jobs() {
    let mut q = JobQueue::new();
    let a = q.enqueue("a.ifc", Priority::Low);
    let b = q.enqueue("b.ifc", Priority::High);
    let c = q.enqueue("c.ifc", Priority::Normal);
    assert_eq!((a, b, c), (1, 2, 3));
    assert_eq!(q.count_by_status(JobStatus::Pending), 3);
    assert_eq!(q.get(b).unwrap().path, "b.ifc");
}
