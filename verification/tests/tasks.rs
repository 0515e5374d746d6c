use std::cell::{Cell, RefCell};
use std::collections::HashMap;
use std::rc::Rc;

use danbooru_tools::tasks::{
    parse_task_status, task_status_name, TaskFailure, TaskManager, TaskManagerError, TaskSnapshot,
    TaskStatus, TaskStore, TaskStoreError,
};

#[derive(Clone, Default)]
struct MemoryTaskStore {
    tasks: Rc<RefCell<HashMap<String, TaskSnapshot>>>,
}

impl TaskStore for MemoryTaskStore {
    fn insert(&self, task: TaskSnapshot) -> Result<(), TaskStoreError> {
        self.tasks.borrow_mut().insert(task.id.clone(), task);
        Ok(())
    }

    fn get(&self, id: &str) -> Result<Option<TaskSnapshot>, TaskStoreError> {
        Ok(self.tasks.borrow().get(id).cloned())
    }

    fn update(&self, task: TaskSnapshot) -> Result<(), TaskStoreError> {
        self.insert(task)
    }

    fn delete(&self, id: &str) -> Result<bool, TaskStoreError> {
        Ok(self.tasks.borrow_mut().remove(id).is_some())
    }

    fn list(&self) -> Result<Vec<TaskSnapshot>, TaskStoreError> {
        Ok(self.tasks.borrow().values().cloned().collect())
    }
}

#[derive(Clone, Default)]
struct FailingTaskStore;

impl TaskStore for FailingTaskStore {
    fn insert(&self, _task: TaskSnapshot) -> Result<(), TaskStoreError> {
        Err(TaskStoreError::new("injected insert failure".to_string()))
    }

    fn get(&self, _id: &str) -> Result<Option<TaskSnapshot>, TaskStoreError> {
        Ok(None)
    }

    fn update(&self, _task: TaskSnapshot) -> Result<(), TaskStoreError> {
        Err(TaskStoreError::new("injected update failure".to_string()))
    }

    fn delete(&self, _id: &str) -> Result<bool, TaskStoreError> {
        Err(TaskStoreError::new("injected delete failure".to_string()))
    }

    fn list(&self) -> Result<Vec<TaskSnapshot>, TaskStoreError> {
        Ok(Vec::new())
    }
}

#[derive(Clone, Default)]
struct CountingTaskStore {
    inner: MemoryTaskStore,
    get_calls: Rc<Cell<usize>>,
}

impl CountingTaskStore {
    fn reset_get_calls(&self) {
        self.get_calls.set(0);
    }

    fn get_calls(&self) -> usize {
        self.get_calls.get()
    }
}

impl TaskStore for CountingTaskStore {
    fn insert(&self, task: TaskSnapshot) -> Result<(), TaskStoreError> {
        self.inner.insert(task)
    }

    fn get(&self, id: &str) -> Result<Option<TaskSnapshot>, TaskStoreError> {
        self.get_calls.set(self.get_calls.get() + 1);
        self.inner.get(id)
    }

    fn update(&self, task: TaskSnapshot) -> Result<(), TaskStoreError> {
        self.inner.update(task)
    }

    fn delete(&self, id: &str) -> Result<bool, TaskStoreError> {
        self.inner.delete(id)
    }

    fn list(&self) -> Result<Vec<TaskSnapshot>, TaskStoreError> {
        self.inner.list()
    }
}

fn fraction(task: &TaskSnapshot) -> f64 {
    if task.progress.total == 0 {
        0.0
    } else {
        task.progress.completed as f64 / task.progress.total as f64
    }
}

fn create<S: TaskStore>(manager: &mut TaskManager<S>, kind: &str, payload: &str) -> TaskSnapshot {
    manager.create(kind.to_string(), payload.to_string()).unwrap()
}

#[test]
fn failed_insert_does_not_create_or_emit_a_task() {
    let mut manager = TaskManager::new(FailingTaskStore);

    let result = manager.create("download".to_string(), "{}".to_string());

    assert!(matches!(result, Err(TaskManagerError::Persistence { .. })));
    assert!(manager.take_events().is_empty());
    assert!(manager.snapshot().is_empty());
}

#[test]
fn new_task_is_persisted_as_queued() {
    let store = MemoryTaskStore::default();
    let mut manager = TaskManager::new(store);

    let task = create(&mut manager, "download", r#"{"query":"cat"}"#);

    assert_eq!(task.status, TaskStatus::Queued);
    assert_eq!(task.revision, 1);
    assert_eq!(manager.get(&task.id).unwrap().unwrap(), task);
}

#[test]
fn new_task_ids_are_hyphenated_version_four_uuids() {
    let mut manager = TaskManager::new(MemoryTaskStore::default());
    let first = create(&mut manager, "download", "{}");
    let second = create(&mut manager, "download", "{}");
    for id in [&first.id, &second.id] {
        let chars: Vec<char> = id.chars().collect();
        assert_eq!(chars.len(), 36);
        for (i, c) in chars.iter().enumerate() {
            if i == 8 || i == 13 || i == 18 || i == 23 {
                assert_eq!(*c, '-');
            } else {
                assert!(c.is_ascii_digit() || ('a'..='f').contains(c));
            }
        }
        assert_eq!(chars[14], '4');
    }
    assert_ne!(first.id, second.id);
}

#[test]
fn events_have_monotonic_global_sequence_and_task_revision() {
    let mut manager = TaskManager::new(MemoryTaskStore::default());

    let first = create(&mut manager, "download", "{}");
    let second = create(&mut manager, "index", "{}");
    let events = manager.take_events();

    assert_eq!(
        (events[0].sequence, events[0].task_id.clone(), events[0].revision),
        (1, first.id, 1)
    );
    assert_eq!(
        (events[1].sequence, events[1].task_id.clone(), events[1].revision),
        (2, second.id, 1)
    );
}

#[test]
fn running_task_can_be_paused_without_losing_snapshot() {
    let mut manager = TaskManager::new(MemoryTaskStore::default());
    let task = create(&mut manager, "download", r#"{"query":"cat"}"#);

    manager.start(&task.id).unwrap();
    let requested = manager.pause(&task.id).unwrap();

    assert_eq!(requested.status, TaskStatus::Pausing);
    assert_eq!(requested.revision, 3);
    assert_eq!(manager.get(&task.id).unwrap().unwrap().payload, r#"{"query":"cat"}"#);
}

#[test]
fn running_pause_request_waits_for_worker_acknowledgement() {
    let mut manager = TaskManager::new(MemoryTaskStore::default());
    let task = create(&mut manager, "download", "{}");
    manager.start(&task.id).unwrap();

    let requested = manager.pause(&task.id).unwrap();

    assert_eq!(task_status_name(requested.status), "pausing");
    assert_ne!(requested.status, TaskStatus::Paused);
}

#[test]
fn worker_acknowledgement_finishes_a_pause_request() {
    let mut manager = TaskManager::new(MemoryTaskStore::default());
    let task = create(&mut manager, "download", "{}");
    manager.start(&task.id).unwrap();
    manager.pause(&task.id).unwrap();

    let paused = manager.acknowledge_stop(&task.id).unwrap();

    assert_eq!(paused.status, TaskStatus::Paused);
    assert_eq!(paused.speed_bytes_per_sec, 0);
    assert_eq!(paused.eta_seconds, None);
}

#[test]
fn paused_task_resumes_to_the_queue() {
    let mut manager = TaskManager::new(MemoryTaskStore::default());
    let task = create(&mut manager, "download", "{}");
    manager.pause(&task.id).unwrap();

    let resumed = manager.resume(&task.id).unwrap();

    assert_eq!(resumed.status, TaskStatus::Queued);
    assert_eq!(resumed.revision, 3);
}

#[test]
fn running_cancel_waits_for_worker_ack_before_becoming_terminal() {
    let mut manager = TaskManager::new(MemoryTaskStore::default());
    let task = create(&mut manager, "download", "{}");
    manager.start(&task.id).unwrap();

    let requested = manager.cancel(&task.id).unwrap();

    assert_eq!(requested.status, TaskStatus::Cancelling);
    let cancelled = manager.acknowledge_stop(&task.id).unwrap();
    assert_eq!(cancelled.status, TaskStatus::Cancelled);
    assert!(matches!(
        manager.resume(&task.id),
        Err(TaskManagerError::InvalidTransition { .. })
    ));
}

#[test]
fn progress_snapshot_contains_speed_bytes_and_eta() {
    let mut manager = TaskManager::new(MemoryTaskStore::default());
    let task = create(&mut manager, "download", "{}");
    manager.start(&task.id).unwrap();

    let progress = manager.progress(&task.id, 4, 10, 1_000, 200).unwrap();

    assert_eq!(fraction(&progress), 0.4);
    assert_eq!(progress.bytes_processed, 1_000);
    assert_eq!(progress.speed_bytes_per_sec, 200);
    assert_eq!(progress.eta_seconds, Some(8));
    assert_eq!(progress.revision, 3);
}

#[test]
fn stream_progress_uses_the_cached_task_snapshot_between_persist_intervals() {
    let store = CountingTaskStore::default();
    let mut manager = TaskManager::new(store.clone());
    let task = create(&mut manager, "download", "{}");
    manager.start(&task.id).unwrap();
    store.reset_get_calls();

    manager.stream_progress(&task.id, 128, 128, Some(10)).unwrap();
    manager.stream_progress(&task.id, 256, 256, Some(5)).unwrap();

    assert_eq!(store.get_calls(), 0);
}

#[test]
fn rapid_progress_updates_do_not_flood_task_events() {
    let mut manager = TaskManager::new(MemoryTaskStore::default());
    let task = create(&mut manager, "index_library", "{}");
    manager.start(&task.id).unwrap();
    manager.take_events();

    manager.progress(&task.id, 1, 100, 0, 0).unwrap();
    let first = manager.take_events();
    manager.progress(&task.id, 2, 100, 0, 0).unwrap();

    assert_eq!(first.len(), 1);
    assert_eq!(first[0].task.completed_items, 1);
    assert!(manager.take_events().is_empty());
}

#[test]
fn completion_persists_a_terminal_result() {
    let mut manager = TaskManager::new(MemoryTaskStore::default());
    let task = create(&mut manager, "index", "{}");
    manager.start(&task.id).unwrap();

    let completed = manager.complete(&task.id, r#"{"indexed":42}"#.to_string()).unwrap();

    assert_eq!(completed.status, TaskStatus::Completed);
    assert_eq!(fraction(&completed), 1.0);
    assert_eq!(completed.result.as_deref(), Some(r#"{"indexed":42}"#));
}

#[test]
fn retry_clears_retryable_failure_and_requeues_task() {
    let mut manager = TaskManager::new(MemoryTaskStore::default());
    let task = create(&mut manager, "download", "{}");
    manager.start(&task.id).unwrap();
    manager
        .fail(
            &task.id,
            TaskFailure {
                code: "rate_limited".into(),
                message: "later".into(),
                retryable: true,
            },
        )
        .unwrap();

    let retried = manager.retry(&task.id).unwrap();

    assert_eq!(retried.status, TaskStatus::Queued);
    assert_eq!(retried.attempts, 1);
    assert_eq!(retried.error, None);
    assert_eq!(fraction(&retried), 0.0);
}

#[test]
fn destructive_task_waits_for_confirmation_with_a_preview() {
    let mut manager = TaskManager::new(MemoryTaskStore::default());
    let task = create(&mut manager, "deduplicate", "{}");
    manager.start(&task.id).unwrap();

    let waiting = manager
        .await_confirmation(&task.id, r#"{"candidates":["a.jpg"]}"#.to_string())
        .unwrap();

    assert_eq!(waiting.status, TaskStatus::AwaitingConfirmation);
    assert_eq!(waiting.preview.as_deref(), Some(r#"{"candidates":["a.jpg"]}"#));
    assert_eq!(manager.confirm(&task.id).unwrap().status, TaskStatus::Queued);
}

#[test]
fn snapshot_lists_all_tasks_for_late_subscribers() {
    let mut manager = TaskManager::new(MemoryTaskStore::default());
    let first = create(&mut manager, "download", "{}");
    let second = create(&mut manager, "index", "{}");

    let snapshot = manager.snapshot();

    assert_eq!(snapshot.len(), 2);
    assert!(snapshot.iter().any(|task| task.id == first.id));
    assert!(snapshot.iter().any(|task| task.id == second.id));
}

#[test]
fn restart_pauses_downloads_and_training_but_fails_other_interrupted_tasks() {
    let store = MemoryTaskStore::default();
    let mut manager = TaskManager::new(store.clone());
    let download = create(&mut manager, "download", "{}");
    let training = create(&mut manager, "training", "{}");
    let resize = create(&mut manager, "resize", "{}");
    manager.start(&download.id).unwrap();
    manager.start(&training.id).unwrap();
    manager.start(&resize.id).unwrap();

    let mut restarted = TaskManager::new(store);
    restarted.recover_interrupted().unwrap();

    assert_eq!(restarted.get(&download.id).unwrap().unwrap().status, TaskStatus::Paused);
    assert_eq!(restarted.get(&training.id).unwrap().unwrap().status, TaskStatus::Paused);
    let failed_resize = restarted.get(&resize.id).unwrap().unwrap();
    assert_eq!(failed_resize.status, TaskStatus::Failed);
    assert_eq!(failed_resize.error.unwrap().code, "interrupted");
}

#[test]
fn restart_acknowledges_a_pending_pause_after_the_worker_is_gone() {
    let store = MemoryTaskStore::default();
    let mut manager = TaskManager::new(store.clone());
    let task = create(&mut manager, "resize", "{}");
    manager.start(&task.id).unwrap();
    manager.pause(&task.id).unwrap();

    let mut restarted = TaskManager::new(store);
    restarted.recover_interrupted().unwrap();

    assert_eq!(restarted.get(&task.id).unwrap().unwrap().status, TaskStatus::Paused);
}

#[test]
fn restart_acknowledges_a_pending_cancellation_after_the_worker_is_gone() {
    let store = MemoryTaskStore::default();
    let mut manager = TaskManager::new(store.clone());
    let task = create(&mut manager, "resize", "{}");
    manager.start(&task.id).unwrap();
    manager.cancel(&task.id).unwrap();

    let mut restarted = TaskManager::new(store);
    restarted.recover_interrupted().unwrap();

    assert_eq!(restarted.get(&task.id).unwrap().unwrap().status, TaskStatus::Cancelled);
}

#[test]
fn recent_events_can_be_replayed_after_reconnect() {
    let mut manager = TaskManager::new(MemoryTaskStore::default());
    create(&mut manager, "download", r#"{"n":1}"#);
    create(&mut manager, "download", r#"{"n":2}"#);
    create(&mut manager, "download", r#"{"n":3}"#);

    let replay = manager.events_after(1);

    assert_eq!(manager.last_sequence(), 3);
    assert_eq!(replay.iter().map(|event| event.sequence).collect::<Vec<_>>(), vec![2, 3]);
}

#[test]
fn replay_window_reports_when_the_requested_sequence_has_fallen_out() {
    let mut manager = TaskManager::new(MemoryTaskStore::default());
    for number in 0..4_100 {
        create(&mut manager, "download", &format!(r#"{{"number":{number}}}"#));
        manager.take_events();
    }

    let replay = manager.replay_after(1);

    assert!(replay.requires_resync);
    assert_eq!(replay.latest_sequence, 4_100);
    assert_eq!(replay.events.len(), 4_096);
    assert_eq!(replay.events[0].sequence, 5);
}

#[test]
fn event_after_an_atomic_snapshot_boundary_is_replayable() {
    let mut manager = TaskManager::new(MemoryTaskStore::default());
    let first = create(&mut manager, "download", r#"{"n":1}"#);

    let (snapshot, sequence) = manager.snapshot_with_sequence();
    let second = create(&mut manager, "download", r#"{"n":2}"#);
    let replay = manager.events_after(sequence);

    assert_eq!(sequence, 1);
    assert_eq!(snapshot.iter().map(|task| &task.id).collect::<Vec<_>>(), vec![&first.id]);
    assert_eq!(replay.iter().map(|event| &event.task_id).collect::<Vec<_>>(), vec![&second.id]);
    assert_eq!(replay[0].sequence, sequence + 1);
}

#[test]
fn manager_restart_keeps_event_sequences_above_persisted_history() {
    let store = MemoryTaskStore::default();
    let mut manager = TaskManager::new(store.clone());
    let first = create(&mut manager, "download", "{}");
    manager.start(&first.id).unwrap();
    create(&mut manager, "download", "{}");
    let previous_sequence = manager.last_sequence();
    drop(manager);

    let mut restarted = TaskManager::new(store);
    create(&mut restarted, "download", "{}");
    let events = restarted.take_events();

    assert!(events[0].sequence > previous_sequence);
}

#[test]
fn status_names_round_trip() {
    for status in [
        TaskStatus::Queued,
        TaskStatus::Running,
        TaskStatus::Pausing,
        TaskStatus::Paused,
        TaskStatus::Cancelling,
        TaskStatus::AwaitingConfirmation,
        TaskStatus::Completed,
        TaskStatus::Failed,
        TaskStatus::Cancelled,
    ] {
        assert_eq!(parse_task_status(task_status_name(status)), Some(status));
    }
    assert_eq!(task_status_name(TaskStatus::AwaitingConfirmation), "awaiting_confirmation");
    assert_eq!(parse_task_status("finished"), None);
}

#[test]
fn unknown_task_is_not_found() {
    let mut manager = TaskManager::new(MemoryTaskStore::default());
    assert_eq!(manager.start("missing"), Err(TaskManagerError::NotFound));
    assert_eq!(manager.get("missing").unwrap(), None);
}

#[test]
fn completed_task_cannot_be_started_again() {
    let mut manager = TaskManager::new(MemoryTaskStore::default());
    let task = create(&mut manager, "index", "{}");
    manager.start(&task.id).unwrap();
    manager.complete(&task.id, "{}".to_string()).unwrap();

    assert_eq!(
        manager.start(&task.id),
        Err(TaskManagerError::InvalidTransition {
            from: TaskStatus::Completed,
            to: TaskStatus::Running,
        })
    );
}

#[test]
fn only_terminal_tasks_are_deleted() {
    let mut manager = TaskManager::new(MemoryTaskStore::default());
    let task = create(&mut manager, "index", "{}");
    assert!(manager.delete_terminal(&task.id).is_err());
    manager.start(&task.id).unwrap();
    manager.complete(&task.id, "{}".to_string()).unwrap();

    let deleted = manager.delete_terminal(&task.id).unwrap();

    assert_eq!(deleted.status, TaskStatus::Completed);
    assert_eq!(manager.get(&task.id).unwrap(), None);
}

#[test]
fn failed_update_leaves_the_cached_task_unchanged() {
    let mut manager = TaskManager::new(FailingTaskStore);
    assert!(matches!(manager.start("missing"), Err(TaskManagerError::NotFound)));
    assert!(manager.snapshot().is_empty());
}

#[test]
fn a_manager_from_a_listing_caches_the_last_snapshot_of_each_task() {
    let store = MemoryTaskStore::default();
    let mut manager = TaskManager::new(store.clone());
    let first = create(&mut manager, "download", "{}");
    let second = create(&mut manager, "training", "{}");
    let started = manager.start(&first.id).unwrap();
    let listed = vec![first.clone(), second.clone(), started.clone()];
    let rebuilt = TaskManager::from_listed(store, listed);
    let (tasks, sequence) = rebuilt.snapshot_with_sequence();
    assert_eq!(sequence, 1 + 1 + 2);
    assert_eq!(tasks.len(), 2);
    assert!(tasks.iter().any(|task| task == &started));
    assert!(tasks.iter().any(|task| task == &second));
}

#[test]
fn a_manager_over_a_listing_that_fails_starts_empty() {
    let manager = TaskManager::new(FailingTaskStore);
    let (tasks, sequence) = manager.snapshot_with_sequence();
    assert!(tasks.is_empty());
    assert_eq!(sequence, 0);
}

#[test]
fn recovery_returns_exactly_the_tasks_it_changed() {
    let store = MemoryTaskStore::default();
    let mut manager = TaskManager::new(store.clone());
    let running = create(&mut manager, "resize", "{}");
    manager.start(&running.id).unwrap();
    let queued = create(&mut manager, "download", "{}");
    let mut restarted = TaskManager::new(store);
    let recovered = restarted.recover_interrupted().unwrap();
    assert_eq!(recovered.len(), 1);
    assert_eq!(recovered[0].id, running.id);
    assert_eq!(recovered[0].status, TaskStatus::Failed);
    assert_eq!(restarted.get(&queued.id).unwrap().unwrap().status, TaskStatus::Queued);
}
