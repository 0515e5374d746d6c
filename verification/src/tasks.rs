//! Persistent background-task state machine.
//!
//! Every task moves through a fixed lifecycle (`Queued`, `Running`, ...).
//! [`task_step`] states, as a pure function of the previous snapshot, what
//! each control command does; [`TaskManager`] applies the commands against a
//! snapshot cache and a user-supplied [`TaskStore`], numbers every change with
//! a global event sequence and keeps a bounded replay window of recent events.
use vstd::prelude::*;
use std::collections::VecDeque;

use crate::text::{copy_optional_string, copy_string, lex_lt, owned, str_equal, str_less};

verus! {

/// Lifecycle state of a background task.
#[derive(Debug, Clone, Copy, PartialEq, Eq, Structural)]
pub enum TaskStatus {
    Queued,
    Running,
    Pausing,
    Paused,
    Cancelling,
    AwaitingConfirmation,
    Completed,
    Failed,
    Cancelled,
}

/// Fraction of a task that is done: `completed / total`, or zero when
/// `total` is zero.
#[derive(Debug, Clone, Copy, PartialEq, Eq, Structural)]
pub struct TaskProgress {
    pub completed: u64,
    pub total: u64,
}

/// A failure recorded on a task.
#[derive(Debug, Clone, PartialEq, Eq)]
pub struct TaskFailure {
    pub code: String,
    pub message: String,
    pub retryable: bool,
}

impl TaskFailure {
    /// A copy with the same fields.
    pub fn duplicate(&self) -> (copy: TaskFailure)
        ensures
            copy@ == self@,
    {
        TaskFailure {
            code: copy_string(&self.code),
            message: copy_string(&self.message),
            retryable: self.retryable,
        }
    }
}

/// Plain model of a [`TaskFailure`].
pub struct FailureView {
    pub code: Seq<char>,
    pub message: Seq<char>,
    pub retryable: bool,
}

impl View for TaskFailure {
    type V = FailureView;

    open spec fn view(&self) -> FailureView {
        FailureView { code: self.code@, message: self.message@, retryable: self.retryable }
    }
}

/// One task as stored and broadcast.  JSON documents (payload, preview,
/// confirmation decision, result) are carried as JSON text.
#[derive(Debug, Clone, PartialEq, Eq)]
pub struct TaskSnapshot {
    pub id: String,
    pub kind: String,
    pub status: TaskStatus,
    pub revision: u64,
    pub created_at: u64,
    pub updated_at: u64,
    pub progress: TaskProgress,
    pub completed_items: u64,
    pub total_items: Option<u64>,
    pub bytes_processed: u64,
    pub speed_bytes_per_sec: u64,
    pub eta_seconds: Option<u64>,
    pub attempts: u32,
    pub stage: String,
    pub payload: String,
    pub preview: Option<String>,
    pub confirm_decision: Option<String>,
    pub result: Option<String>,
    pub error: Option<TaskFailure>,
}

/// Plain model of a [`TaskSnapshot`]: every string by its characters.
pub struct SnapshotView {
    pub id: Seq<char>,
    pub kind: Seq<char>,
    pub status: TaskStatus,
    pub revision: u64,
    pub created_at: u64,
    pub updated_at: u64,
    pub progress: TaskProgress,
    pub completed_items: u64,
    pub total_items: Option<u64>,
    pub bytes_processed: u64,
    pub speed_bytes_per_sec: u64,
    pub eta_seconds: Option<u64>,
    pub attempts: u32,
    pub stage: Seq<char>,
    pub payload: Seq<char>,
    pub preview: Option<Seq<char>>,
    pub confirm_decision: Option<Seq<char>>,
    pub result: Option<Seq<char>>,
    pub error: Option<FailureView>,
}

pub open spec fn opt_view(value: Option<String>) -> Option<Seq<char>> {
    match value {
        Some(text) => Some(text@),
        None => None,
    }
}

pub open spec fn failure_opt_view(value: Option<TaskFailure>) -> Option<FailureView> {
    match value {
        Some(failure) => Some(failure@),
        None => None,
    }
}

impl View for TaskSnapshot {
    type V = SnapshotView;

    open spec fn view(&self) -> SnapshotView {
        SnapshotView {
            id: self.id@,
            kind: self.kind@,
            status: self.status,
            revision: self.revision,
            created_at: self.created_at,
            updated_at: self.updated_at,
            progress: self.progress,
            completed_items: self.completed_items,
            total_items: self.total_items,
            bytes_processed: self.bytes_processed,
            speed_bytes_per_sec: self.speed_bytes_per_sec,
            eta_seconds: self.eta_seconds,
            attempts: self.attempts,
            stage: self.stage@,
            payload: self.payload@,
            preview: opt_view(self.preview),
            confirm_decision: opt_view(self.confirm_decision),
            result: opt_view(self.result),
            error: failure_opt_view(self.error),
        }
    }
}

fn copy_failure_option(value: &Option<TaskFailure>) -> (copy: Option<TaskFailure>)
    ensures
        failure_opt_view(copy) == failure_opt_view(*value),
{
    match value {
        Some(failure) => Some(failure.duplicate()),
        None => None,
    }
}

impl TaskSnapshot {
    /// A copy with the same fields.
    pub fn duplicate(&self) -> (copy: TaskSnapshot)
        ensures
            copy@ == self@,
    {
        TaskSnapshot {
            id: copy_string(&self.id),
            kind: copy_string(&self.kind),
            status: self.status,
            revision: self.revision,
            created_at: self.created_at,
            updated_at: self.updated_at,
            progress: self.progress,
            completed_items: self.completed_items,
            total_items: self.total_items,
            bytes_processed: self.bytes_processed,
            speed_bytes_per_sec: self.speed_bytes_per_sec,
            eta_seconds: self.eta_seconds,
            attempts: self.attempts,
            stage: copy_string(&self.stage),
            payload: copy_string(&self.payload),
            preview: copy_optional_string(&self.preview),
            confirm_decision: copy_optional_string(&self.confirm_decision),
            result: copy_optional_string(&self.result),
            error: copy_failure_option(&self.error),
        }
    }
}

/// Errors of the task manager.
#[derive(Debug, Clone, PartialEq, Eq)]
pub enum TaskManagerError {
    NotFound,
    InvalidTransition { from: TaskStatus, to: TaskStatus },
    Persistence { message: String },
}

/// An error reported by a [`TaskStore`].
#[derive(Debug, Clone, PartialEq, Eq)]
pub struct TaskStoreError {
    message: String,
}

impl TaskStoreError {
    pub fn new(message: String) -> (error: TaskStoreError)
        ensures
            error.message_view() == message@,
    {
        TaskStoreError { message }
    }

    pub closed spec fn message_view(&self) -> Seq<char> {
        self.message@
    }

    pub fn message(&self) -> (message: &str)
        ensures
            message@ == self.message_view(),
    {
        self.message.as_str()
    }
}

/// The manager-level error for a store failure (`From<TaskStoreError>`).
pub fn persistence_error(error: TaskStoreError) -> (converted: TaskManagerError)
    ensures
        converted matches TaskManagerError::Persistence { message } && message@
            == error.message_view(),
{
    TaskManagerError::Persistence { message: error.message }
}

/// A change notification: the global sequence number, the task's revision
/// and the task as it stands after the change.
#[derive(Debug, Clone, PartialEq, Eq)]
pub struct TaskEvent {
    pub sequence: u64,
    pub task_id: String,
    pub revision: u64,
    pub event: String,
    pub task: TaskSnapshot,
}

/// Events newer than a client's last seen sequence.
#[derive(Debug, Clone, PartialEq, Eq)]
pub struct TaskEventReplay {
    pub events: Vec<TaskEvent>,
    pub requires_resync: bool,
    pub latest_sequence: u64,
}

/// Durable storage of task snapshots, implemented by the application
/// (a database table, or an in-memory map in tests).
pub trait TaskStore {
    fn insert(&self, task: TaskSnapshot) -> Result<(), TaskStoreError>;

    fn get(&self, id: &str) -> Result<Option<TaskSnapshot>, TaskStoreError>;

    fn update(&self, task: TaskSnapshot) -> Result<(), TaskStoreError>;

    fn delete(&self, id: &str) -> Result<bool, TaskStoreError>;

    fn list(&self) -> Result<Vec<TaskSnapshot>, TaskStoreError>;
}

/// Storage name of a status.
pub open spec fn status_name_spec(status: TaskStatus) -> Seq<char> {
    match status {
        TaskStatus::Queued => "queued"@,
        TaskStatus::Running => "running"@,
        TaskStatus::Pausing => "pausing"@,
        TaskStatus::Paused => "paused"@,
        TaskStatus::Cancelling => "cancelling"@,
        TaskStatus::AwaitingConfirmation => "awaiting_confirmation"@,
        TaskStatus::Completed => "completed"@,
        TaskStatus::Failed => "failed"@,
        TaskStatus::Cancelled => "cancelled"@,
    }
}

/// The name under which a status is stored.
pub fn task_status_name(status: TaskStatus) -> (name: &'static str)
    ensures
        name@ == status_name_spec(status),
{
    match status {
        TaskStatus::Queued => "queued",
        TaskStatus::Running => "running",
        TaskStatus::Pausing => "pausing",
        TaskStatus::Paused => "paused",
        TaskStatus::Cancelling => "cancelling",
        TaskStatus::AwaitingConfirmation => "awaiting_confirmation",
        TaskStatus::Completed => "completed",
        TaskStatus::Failed => "failed",
        TaskStatus::Cancelled => "cancelled",
    }
}

/// Parses a stored status name; `None` for any other text.
pub fn parse_task_status(name: &str) -> (status: Option<TaskStatus>)
    ensures
        match status {
            Some(s) => status_name_spec(s) == name@,
            None => forall|s: TaskStatus| status_name_spec(s) != name@,
        },
{
    let candidates = [
        TaskStatus::Queued,
        TaskStatus::Running,
        TaskStatus::Pausing,
        TaskStatus::Paused,
        TaskStatus::Cancelling,
        TaskStatus::AwaitingConfirmation,
        TaskStatus::Completed,
        TaskStatus::Failed,
        TaskStatus::Cancelled,
    ];
    let mut index: usize = 0;
    while index < 9
        invariant
            index <= 9,
            candidates@.len() == 9,
            forall|s: TaskStatus| candidates@.contains(s),
            forall|i: int| 0 <= i < index ==> status_name_spec(#[trigger] candidates@[i]) != name@,
        decreases 9 - index,
    {
        let candidate = candidates[index];
        if str_equal(task_status_name(candidate), name) {
            return Some(candidate);
        }
        index += 1;
    }
    assert forall|s: TaskStatus| status_name_spec(s) != name@ by {
        assert(candidates@.contains(s));
        let k = choose|k: int| 0 <= k < 9 && candidates@[k] == s;
        assert(status_name_spec(candidates@[k]) != name@);
    }
    None
}

/// Commands that move a task through its lifecycle.
#[derive(Debug, Clone, PartialEq, Eq)]
pub enum TaskCommand {
    Start,
    Pause,
    Resume,
    Cancel,
    AcknowledgeStop,
    Complete { result: String },
    Fail { failure: TaskFailure },
    Retry,
    AwaitConfirmation { preview: String },
    Confirm,
    ConfirmWithDecision { decision: Option<String> },
}

/// `prev` after a change: next revision and the new update time.
pub open spec fn touched(prev: SnapshotView, now: u64) -> SnapshotView {
    SnapshotView {
        revision: vstd::wrapping::u64_specs::wrapping_add(prev.revision, 1),
        updated_at: now,
        ..prev
    }
}

/// What a command does to a task: the new snapshot and the event name, or
/// the rejected transition.
pub open spec fn task_step(prev: SnapshotView, command: TaskCommand, now: u64) -> Result<
    (SnapshotView, Seq<char>),
    TaskManagerError,
> {
    let next = touched(prev, now);
    match command {
        TaskCommand::Start => if prev.status == TaskStatus::Queued {
            Ok((SnapshotView { status: TaskStatus::Running, ..next }, "started"@))
        } else {
            Err(TaskManagerError::InvalidTransition { from: prev.status, to: TaskStatus::Running })
        },
        TaskCommand::Pause => if prev.status == TaskStatus::Queued {
            Ok((SnapshotView { status: TaskStatus::Paused, ..next }, "paused"@))
        } else if prev.status == TaskStatus::Running {
            Ok((SnapshotView { status: TaskStatus::Pausing, ..next }, "pause_requested"@))
        } else {
            Err(TaskManagerError::InvalidTransition { from: prev.status, to: TaskStatus::Pausing })
        },
        TaskCommand::Resume => if prev.status == TaskStatus::Paused || prev.status
            == TaskStatus::Pausing {
            Ok((SnapshotView { status: TaskStatus::Queued, ..next }, "resumed"@))
        } else {
            Err(TaskManagerError::InvalidTransition { from: prev.status, to: TaskStatus::Queued })
        },
        TaskCommand::Cancel => if prev.status == TaskStatus::Running || prev.status
            == TaskStatus::Pausing {
            Ok((SnapshotView { status: TaskStatus::Cancelling, ..next }, "cancel_requested"@))
        } else if prev.status == TaskStatus::Queued || prev.status == TaskStatus::Paused
            || prev.status == TaskStatus::AwaitingConfirmation {
            Ok((SnapshotView { status: TaskStatus::Cancelled, ..next }, "cancelled"@))
        } else {
            Err(
                TaskManagerError::InvalidTransition {
                    from: prev.status,
                    to: TaskStatus::Cancelling,
                },
            )
        },
        TaskCommand::AcknowledgeStop => if prev.status == TaskStatus::Pausing {
            Ok(
                (
                    SnapshotView {
                        status: TaskStatus::Paused,
                        speed_bytes_per_sec: 0,
                        eta_seconds: None,
                        ..next
                    },
                    "paused"@,
                ),
            )
        } else if prev.status == TaskStatus::Cancelling {
            Ok(
                (
                    SnapshotView {
                        status: TaskStatus::Cancelled,
                        speed_bytes_per_sec: 0,
                        eta_seconds: None,
                        ..next
                    },
                    "cancelled"@,
                ),
            )
        } else {
            Err(TaskManagerError::InvalidTransition { from: prev.status, to: TaskStatus::Paused })
        },
        TaskCommand::Complete { result } => if prev.status == TaskStatus::Running {
            Ok(
                (
                    SnapshotView {
                        status: TaskStatus::Completed,
                        progress: TaskProgress { completed: 1, total: 1 },
                        completed_items: match prev.total_items {
                            Some(total) => total,
                            None => prev.completed_items,
                        },
                        eta_seconds: Some(0),
                        result: Some(result@),
                        error: None,
                        ..next
                    },
                    "completed"@,
                ),
            )
        } else {
            Err(
                TaskManagerError::InvalidTransition {
                    from: prev.status,
                    to: TaskStatus::Completed,
                },
            )
        },
        TaskCommand::Fail { failure } => if prev.status == TaskStatus::Queued || prev.status
            == TaskStatus::Running {
            Ok(
                (
                    SnapshotView {
                        status: TaskStatus::Failed,
                        error: Some(failure@),
                        eta_seconds: None,
                        ..next
                    },
                    "failed"@,
                ),
            )
        } else {
            Err(TaskManagerError::InvalidTransition { from: prev.status, to: TaskStatus::Failed })
        },
        TaskCommand::Retry => if prev.status == TaskStatus::Failed && (prev.error matches Some(
            f,
        ) && f.retryable) {
            Ok(
                (
                    SnapshotView {
                        status: TaskStatus::Queued,
                        progress: TaskProgress { completed: 0, total: 0 },
                        completed_items: 0,
                        bytes_processed: 0,
                        speed_bytes_per_sec: 0,
                        eta_seconds: None,
                        attempts: vstd::wrapping::u32_specs::wrapping_add(prev.attempts, 1),
                        error: None,
                        result: None,
                        ..next
                    },
                    "retried"@,
                ),
            )
        } else {
            Err(TaskManagerError::InvalidTransition { from: prev.status, to: TaskStatus::Queued })
        },
        TaskCommand::AwaitConfirmation { preview } => if prev.status == TaskStatus::Running {
            Ok(
                (
                    SnapshotView {
                        status: TaskStatus::AwaitingConfirmation,
                        preview: Some(preview@),
                        ..next
                    },
                    "confirmation_required"@,
                ),
            )
        } else {
            Err(
                TaskManagerError::InvalidTransition {
                    from: prev.status,
                    to: TaskStatus::AwaitingConfirmation,
                },
            )
        },
        TaskCommand::Confirm => if prev.status == TaskStatus::AwaitingConfirmation {
            Ok((SnapshotView { status: TaskStatus::Queued, ..next }, "confirmed"@))
        } else {
            Err(TaskManagerError::InvalidTransition { from: prev.status, to: TaskStatus::Queued })
        },
        TaskCommand::ConfirmWithDecision { decision } => if prev.status
            == TaskStatus::AwaitingConfirmation {
            Ok(
                (
                    SnapshotView {
                        status: TaskStatus::Running,
                        confirm_decision: opt_view(decision),
                        ..next
                    },
                    "confirmed"@,
                ),
            )
        } else {
            Err(TaskManagerError::InvalidTransition { from: prev.status, to: TaskStatus::Running })
        },
    }
}

fn invalid(from: TaskStatus, to: TaskStatus) -> (error: TaskManagerError)
    ensures
        error == (TaskManagerError::InvalidTransition { from, to }),
{
    TaskManagerError::InvalidTransition { from, to }
}

/// Applies a command to a snapshot (see [`task_step`]).
pub fn plan_task_step(prev: &TaskSnapshot, command: TaskCommand, now: u64) -> (outcome: Result<
    (TaskSnapshot, String),
    TaskManagerError,
>)
    ensures
        match outcome {
            Ok((next, event)) => task_step(prev@, command, now) == Ok::<
                (SnapshotView, Seq<char>),
                TaskManagerError,
            >((next@, event@)),
            Err(error) => task_step(prev@, command, now) == Err::<
                (SnapshotView, Seq<char>),
                TaskManagerError,
            >(error),
        },
{
    let mut next = prev.duplicate();
    next.revision = prev.revision.wrapping_add(1);
    next.updated_at = now;
    let status = prev.status;
    let event: &str;
    match command {
        TaskCommand::Start => {
            if status != TaskStatus::Queued {
                return Err(invalid(status, TaskStatus::Running));
            }
            next.status = TaskStatus::Running;
            event = "started";
        },
        TaskCommand::Pause => {
            if status == TaskStatus::Queued {
                next.status = TaskStatus::Paused;
                event = "paused";
            } else if status == TaskStatus::Running {
                next.status = TaskStatus::Pausing;
                event = "pause_requested";
            } else {
                return Err(invalid(status, TaskStatus::Pausing));
            }
        },
        TaskCommand::Resume => {
            if status != TaskStatus::Paused && status != TaskStatus::Pausing {
                return Err(invalid(status, TaskStatus::Queued));
            }
            next.status = TaskStatus::Queued;
            event = "resumed";
        },
        TaskCommand::Cancel => {
            if status == TaskStatus::Running || status == TaskStatus::Pausing {
                next.status = TaskStatus::Cancelling;
                event = "cancel_requested";
            } else if status == TaskStatus::Queued || status == TaskStatus::Paused || status
                == TaskStatus::AwaitingConfirmation {
                next.status = TaskStatus::Cancelled;
                event = "cancelled";
            } else {
                return Err(invalid(status, TaskStatus::Cancelling));
            }
        },
        TaskCommand::AcknowledgeStop => {
            if status == TaskStatus::Pausing {
                next.status = TaskStatus::Paused;
                event = "paused";
            } else if status == TaskStatus::Cancelling {
                next.status = TaskStatus::Cancelled;
                event = "cancelled";
            } else {
                return Err(invalid(status, TaskStatus::Paused));
            }
            next.speed_bytes_per_sec = 0;
            next.eta_seconds = None;
        },
        TaskCommand::Complete { result } => {
            if status != TaskStatus::Running {
                return Err(invalid(status, TaskStatus::Completed));
            }
            next.status = TaskStatus::Completed;
            next.progress = TaskProgress { completed: 1, total: 1 };
            if let Some(total) = prev.total_items {
                next.completed_items = total;
            }
            next.eta_seconds = Some(0);
            next.result = Some(result);
            next.error = None;
            event = "completed";
        },
        TaskCommand::Fail { failure } => {
            if status != TaskStatus::Queued && status != TaskStatus::Running {
                return Err(invalid(status, TaskStatus::Failed));
            }
            next.status = TaskStatus::Failed;
            next.error = Some(failure);
            next.eta_seconds = None;
            event = "failed";
        },
        TaskCommand::Retry => {
            let retryable = match &prev.error {
                Some(failure) => failure.retryable,
                None => false,
            };
            if status != TaskStatus::Failed || !retryable {
                return Err(invalid(status, TaskStatus::Queued));
            }
            next.status = TaskStatus::Queued;
            next.progress = TaskProgress { completed: 0, total: 0 };
            next.completed_items = 0;
            next.bytes_processed = 0;
            next.speed_bytes_per_sec = 0;
            next.eta_seconds = None;
            next.attempts = prev.attempts.wrapping_add(1);
            next.error = None;
            next.result = None;
            event = "retried";
        },
        TaskCommand::AwaitConfirmation { preview } => {
            if status != TaskStatus::Running {
                return Err(invalid(status, TaskStatus::AwaitingConfirmation));
            }
            next.status = TaskStatus::AwaitingConfirmation;
            next.preview = Some(preview);
            event = "confirmation_required";
        },
        TaskCommand::Confirm => {
            if status != TaskStatus::AwaitingConfirmation {
                return Err(invalid(status, TaskStatus::Queued));
            }
            next.status = TaskStatus::Queued;
            event = "confirmed";
        },
        TaskCommand::ConfirmWithDecision { decision } => {
            if status != TaskStatus::AwaitingConfirmation {
                return Err(invalid(status, TaskStatus::Running));
            }
            next.status = TaskStatus::Running;
            next.confirm_decision = decision;
            event = "confirmed";
        },
    }
    Ok((next, owned(event)))
}


/// Plain model of a [`TaskEvent`].
pub struct EventView {
    pub sequence: u64,
    pub task_id: Seq<char>,
    pub revision: u64,
    pub event: Seq<char>,
    pub task: SnapshotView,
}

impl View for TaskEvent {
    type V = EventView;

    open spec fn view(&self) -> EventView {
        EventView {
            sequence: self.sequence,
            task_id: self.task_id@,
            revision: self.revision,
            event: self.event@,
            task: self.task@,
        }
    }
}

impl TaskEvent {
    /// A copy with the same fields.
    pub fn duplicate(&self) -> (copy: TaskEvent)
        ensures
            copy@ == self@,
    {
        TaskEvent {
            sequence: self.sequence,
            task_id: copy_string(&self.task_id),
            revision: self.revision,
            event: copy_string(&self.event),
            task: self.task.duplicate(),
        }
    }
}

pub open spec fn event_views(events: Seq<TaskEvent>) -> Seq<EventView> {
    events.map_values(|e: TaskEvent| e@)
}

pub open spec fn snapshot_views(tasks: Seq<TaskSnapshot>) -> Seq<SnapshotView> {
    tasks.map_values(|t: TaskSnapshot| t@)
}

/// Largest number of events kept for replay after a reconnect.
pub const REPLAY_CAPACITY: usize = 4096;

/// Minimum spacing of persisted progress updates, in milliseconds.
pub const TASK_PROGRESS_PERSIST_INTERVAL_MILLIS: u64 = 250;

#[verifier::external_type_specification]
#[verifier::external_body]
pub struct ExInstant(std::time::Instant);

/// Seconds since the Unix epoch.
///
/// Trusted: wraps `SystemTime::now` and `duration_since(UNIX_EPOCH)`; the
/// clock is outside the program, so nothing is promised of the value.
#[verifier::external_body]
pub fn unix_timestamp() -> u64 {
    std::time::SystemTime::now()
        .duration_since(std::time::UNIX_EPOCH)
        .unwrap_or_default()
        .as_secs()
}

/// The current monotonic instant.
///
/// Trusted: wraps `Instant::now`; nothing is promised of the value.
#[verifier::external_body]
fn instant_now() -> std::time::Instant {
    std::time::Instant::now()
}

/// Whole milliseconds elapsed since `since` (the largest `u64` when more
/// have passed).
///
/// Trusted: wraps `Instant::elapsed` and `Duration::as_millis`; the answer
/// depends on the clock, so nothing is promised of it.
#[verifier::external_body]
fn elapsed_millis(since: &std::time::Instant) -> u64 {
    u64::try_from(since.elapsed().as_millis()).unwrap_or(u64::MAX)
}

/// Whether a text has the hyphenated lowercase form of a version-4 UUID:
/// 36 characters, hyphens at 8, 13, 18 and 23, lowercase hexadecimal digits
/// elsewhere, and the version digit `4` at 14.
pub open spec fn is_v4_uuid_text(text: Seq<char>) -> bool {
    &&& text.len() == 36
    &&& forall|i: int| 0 <= i < 36 ==> uuid_char_fits(i, #[trigger] text[i])
    &&& text[14] == '4'
}

/// Whether a character fits position `i` of a hyphenated UUID.
pub open spec fn uuid_char_fits(i: int, c: char) -> bool {
    if i == 8 || i == 13 || i == 18 || i == 23 {
        c == '-'
    } else {
        ('0' <= c && c <= '9') || ('a' <= c && c <= 'f')
    }
}

/// A fresh random task identifier.
///
/// Trusted: wraps `uuid::Uuid::new_v4` and its string form, which is the
/// hyphenated lowercase one; the value is random, so only that form is
/// promised.
#[verifier::external_body]
pub(crate) fn new_task_id() -> (id: String)
    ensures
        is_v4_uuid_text(id@),
{
    uuid::Uuid::new_v4().to_string()
}

struct ProgressStamp {
    task_id: String,
    at: std::time::Instant,
}

/// Events with a sequence number above `sequence`.
pub open spec fn newer_than(sequence: u64) -> spec_fn(EventView) -> bool {
    |e: EventView| e.sequence > sequence
}

/// Completed, failed and cancelled tasks are finished.
pub open spec fn is_terminal(status: TaskStatus) -> bool {
    status == TaskStatus::Completed || status == TaskStatus::Failed || status
        == TaskStatus::Cancelled
}

/// A newly created task.
pub open spec fn new_task_view(id: Seq<char>, kind: Seq<char>, payload: Seq<char>, now: u64) -> SnapshotView {
    SnapshotView {
        id,
        kind,
        status: TaskStatus::Queued,
        revision: 1,
        created_at: now,
        updated_at: now,
        progress: TaskProgress { completed: 0, total: 0 },
        completed_items: 0,
        total_items: None,
        bytes_processed: 0,
        speed_bytes_per_sec: 0,
        eta_seconds: None,
        attempts: 0,
        stage: Seq::empty(),
        payload,
        preview: None,
        confirm_decision: None,
        result: None,
        error: None,
    }
}

pub proof fn lemma_listed_before_transitive(a: SnapshotView, b: SnapshotView, c: SnapshotView)
    requires
        listed_before(a, b),
        listed_before(b, c),
    ensures
        listed_before(a, c),
{
    if a.updated_at == b.updated_at && b.updated_at == c.updated_at {
        crate::text::lemma_lex_transitive(c.id, b.id, a.id);
    }
}

pub proof fn lemma_listed_before_irreflexive(a: SnapshotView)
    ensures
        !listed_before(a, a),
{
    crate::text::lemma_lex_irreflexive(a.id);
}

proof fn lemma_insert_keeps_order(before: Seq<SnapshotView>, p: int, x: SnapshotView)
    requires
        newest_first(before),
        0 <= p <= before.len(),
        forall|k: int| 0 <= k < p ==> !listed_before(x, before[k]),
        p < before.len() ==> listed_before(x, before[p]),
    ensures
        newest_first(before.insert(p, x)),
{
    let after = before.insert(p, x);
    before.insert_ensures(p, x);
    assert forall|i: int, j: int| 0 <= i < j < after.len() implies !listed_before(
        after[j],
        after[i],
    ) by {
        if j < p {
            assert(after[i] == before[i] && after[j] == before[j]);
        } else if j == p {
            assert(after[i] == before[i]);
        } else if i == p {
            assert(after[j] == before[j - 1]);
            if listed_before(before[j - 1], x) {
                if p < j - 1 {
                    assert(!listed_before(before[j - 1], before[p]));
                    lemma_listed_before_transitive(before[j - 1], x, before[p]);
                } else {
                    lemma_listed_before_transitive(before[j - 1], x, before[p]);
                    lemma_listed_before_irreflexive(before[p]);
                }
            }
        } else if i < p {
            assert(after[i] == before[i] && after[j] == before[j - 1]);
        } else {
            assert(after[i] == before[i - 1] && after[j] == before[j - 1]);
        }
    }
}

/// Inserts `task` where [`listed_before`] puts it; returns its position.
fn insert_listed(sorted: &mut Vec<TaskSnapshot>, task: TaskSnapshot) -> (position: usize)
    requires
        newest_first(snapshot_views(old(sorted)@)),
        ids_unique(old(sorted)@),
        forall|k: int| 0 <= k < old(sorted)@.len() ==> old(sorted)@[k].id@ != task.id@,
    ensures
        position <= old(sorted)@.len(),
        final(sorted)@ == old(sorted)@.insert(position as int, task),
        newest_first(snapshot_views(final(sorted)@)),
        ids_unique(final(sorted)@),
{
    let mut position: usize = 0;
    while position < sorted.len() && !listed_before_exec(&task, &sorted[position])
        invariant
            position <= sorted@.len(),
            sorted@ == old(sorted)@,
            forall|k: int| 0 <= k < position ==> !listed_before(task@, sorted@[k]@),
        decreases sorted.len() - position,
    {
        position += 1;
    }
    let ghost before = sorted@;
    proof {
        assert forall|k: int| 0 <= k < position implies !listed_before(
            task@,
            snapshot_views(before)[k],
        ) by {
            assert(snapshot_views(before)[k] == before[k]@);
        }
        if position < before.len() {
            assert(snapshot_views(before)[position as int] == before[position as int]@);
        }
        lemma_insert_keeps_order(snapshot_views(before), position as int, task@);
    }
    sorted.insert(position, task);
    proof {
        let after = sorted@;
        let p = position as int;
        before.insert_ensures(p, task);
        assert(snapshot_views(after) =~= snapshot_views(before).insert(p, task@));
        assert forall|i: int, j: int|
            0 <= i < after.len() && 0 <= j < after.len() && i != j implies #[trigger] after[i].id@
            != #[trigger] after[j].id@ by {
            let oi = if i < p {
                i
            } else {
                i - 1
            };
            let oj = if j < p {
                j
            } else {
                j - 1
            };
            if i != p && j != p {
                assert(after[i] == before[oi] && after[j] == before[oj]);
            } else if i == p {
                assert(after[j] == before[oj]);
            } else {
                assert(after[i] == before[oi]);
            }
        }
    }
    position
}

fn listed_before_exec(a: &TaskSnapshot, b: &TaskSnapshot) -> (before: bool)
    ensures
        before == listed_before(a@, b@),
{
    a.updated_at > b.updated_at || (a.updated_at == b.updated_at && str_less(
        b.id.as_str(),
        a.id.as_str(),
    ))
}

/// No two snapshots in `tasks` share an id.
pub open spec fn ids_unique(tasks: Seq<TaskSnapshot>) -> bool {
    forall|i: int, j: int|
        0 <= i < tasks.len() && 0 <= j < tasks.len() && i != j ==> #[trigger] tasks[i].id@
            != #[trigger] tasks[j].id@
}

/// The event that a change to `task` under `sequence` is announced by.
pub open spec fn announcement(sequence: u64, task: SnapshotView, name: Seq<char>) -> EventView {
    EventView { sequence, task_id: task.id, revision: task.revision, event: name, task }
}

/// `window` after `event` is appended and the oldest event dropped when the
/// window is full.
pub open spec fn replay_push(window: Seq<EventView>, event: EventView) -> Seq<EventView> {
    if window.len() >= REPLAY_CAPACITY {
        window.drop_first().push(event)
    } else {
        window.push(event)
    }
}

/// Tasks ordered newest first: by update time, then by id, both descending.
pub open spec fn listed_before(a: SnapshotView, b: SnapshotView) -> bool {
    a.updated_at > b.updated_at || (a.updated_at == b.updated_at && lex_lt(b.id, a.id))
}

/// `tasks` is in the order that [`TaskManager::snapshot`] lists.
pub open spec fn newest_first(tasks: Seq<SnapshotView>) -> bool {
    forall|i: int, j: int| 0 <= i < j < tasks.len() ==> !listed_before(tasks[j], tasks[i])
}

/// Kinds whose interrupted run can be resumed after a restart.
pub open spec fn resumable_kind(kind: Seq<char>) -> bool {
    kind == "download"@ || kind == "training"@ || kind == "reindex_library"@
}

/// What start-up recovery does to a task left in a transitional state:
/// `None` for a task it leaves alone.
pub open spec fn recovery_step(prev: SnapshotView, now: u64) -> Option<SnapshotView> {
    let next = touched(prev, now);
    if prev.status == TaskStatus::Pausing {
        Some(SnapshotView { status: TaskStatus::Paused, error: None, ..next })
    } else if prev.status == TaskStatus::Cancelling {
        Some(SnapshotView { status: TaskStatus::Cancelled, error: None, ..next })
    } else if prev.status == TaskStatus::Running && resumable_kind(prev.kind) {
        Some(SnapshotView { status: TaskStatus::Paused, error: None, ..next })
    } else if prev.status == TaskStatus::Running {
        Some(
            SnapshotView {
                status: TaskStatus::Failed,
                error: Some(
                    FailureView {
                        code: "interrupted"@,
                        message: "应用退出时任务仍在运行"@,
                        retryable: false,
                    },
                ),
                ..next
            },
        )
    } else {
        None
    }
}

/// Saturating product of two `u64` values.
pub open spec fn saturating_product(a: u64, b: u64) -> u64 {
    if a * b > u64::MAX {
        u64::MAX
    } else {
        (a * b) as u64
    }
}

/// `a / b` rounded up.
pub open spec fn ceiling_div(a: u64, b: u64) -> u64 {
    (a / b + if a % b == 0 {
        0int
    } else {
        1int
    }) as u64
}

/// Estimated seconds left: the bytes per item seen so far times the items
/// left, at the current speed.
pub open spec fn eta_estimate(completed: u64, total: u64, bytes: u64, speed: u64) -> Option<u64> {
    if completed > 0 && speed > 0 {
        Some(
            ceiling_div(
                saturating_product(bytes, (total - completed) as u64) / completed,
                speed,
            ),
        )
    } else {
        None
    }
}

/// A progress report applied to a running task (before it is numbered).
pub open spec fn progress_report(
    prev: SnapshotView,
    completed_items: u64,
    total_items: u64,
    bytes_processed: u64,
    speed_bytes_per_sec: u64,
) -> SnapshotView {
    let completed = if completed_items < total_items {
        completed_items
    } else {
        total_items
    };
    SnapshotView {
        completed_items: completed,
        total_items: Some(total_items),
        progress: TaskProgress { completed, total: total_items },
        bytes_processed,
        speed_bytes_per_sec,
        eta_seconds: eta_estimate(completed, total_items, bytes_processed, speed_bytes_per_sec),
        ..prev
    }
}

/// A streamed transfer report applied to a running task (before it is
/// numbered).
pub open spec fn stream_report(
    prev: SnapshotView,
    bytes_processed: u64,
    speed_bytes_per_sec: u64,
    eta_seconds: Option<u64>,
) -> SnapshotView {
    SnapshotView {
        bytes_processed: if prev.bytes_processed < bytes_processed {
            bytes_processed
        } else {
            prev.bytes_processed
        },
        speed_bytes_per_sec,
        eta_seconds,
        ..prev
    }
}

fn eta_for(completed: u64, total: u64, bytes: u64, speed: u64) -> (eta: Option<u64>)
    requires
        completed <= total,
    ensures
        eta == eta_estimate(completed, total, bytes, speed),
{
    if completed > 0 && speed > 0 {
        let remaining = total - completed;
        let product = match bytes.checked_mul(remaining) {
            Some(value) => value,
            None => u64::MAX,
        };
        let estimated = product / completed;
        let extra: u64 = if estimated % speed == 0 {
            0
        } else {
            1
        };
        proof {
            assert(estimated / speed <= estimated) by (nonlinear_arith)
                requires
                    speed > 0,
            ;
            if extra == 1 {
                assert(estimated / speed < estimated || estimated / speed + 1 <= u64::MAX) by (
                nonlinear_arith)
                    requires
                        speed > 0,
                        estimated % speed != 0,
                        estimated <= u64::MAX,
                ;
            }
        }
        Some(estimated / speed + extra)
    } else {
        None
    }
}

/// The last listed snapshot of the task with the given id, if any.
pub open spec fn last_listed(tasks: Seq<SnapshotView>, id: Seq<char>) -> Option<SnapshotView>
    decreases tasks.len(),
{
    if tasks.len() == 0 {
        None
    } else if tasks.last().id == id {
        Some(tasks.last())
    } else {
        last_listed(tasks.drop_last(), id)
    }
}

/// The sum of the tasks' revisions, saturating at the largest `u64`.
pub open spec fn revision_sum(tasks: Seq<SnapshotView>) -> u64
    decreases tasks.len(),
{
    if tasks.len() == 0 {
        0
    } else {
        let earlier = revision_sum(tasks.drop_last());
        if earlier + tasks.last().revision > u64::MAX {
            u64::MAX
        } else {
            (earlier + tasks.last().revision) as u64
        }
    }
}

/// Runs task commands against a snapshot cache and a durable store.  Every
/// accepted change gets the next task revision and the next global event
/// sequence; the events wait in an outbox for the caller to broadcast.
pub struct TaskManager<S: TaskStore> {
    store: S,
    snapshots: Vec<TaskSnapshot>,
    progress_persisted_at: Vec<ProgressStamp>,
    sequence: u64,
    replay: VecDeque<TaskEvent>,
    outbox: Vec<TaskEvent>,
}

impl<S: TaskStore> TaskManager<S> {
    /// Well-formedness: cached ids are unique and the replay window is
    /// bounded.
    pub closed spec fn wf(&self) -> bool {
        &&& ids_unique(self.snapshots@)
        &&& self.replay@.len() <= REPLAY_CAPACITY
    }

    /// The cached snapshot of the task with the given id.
    pub closed spec fn cached(&self, id: Seq<char>) -> Option<SnapshotView> {
        if exists|i: int| 0 <= i < self.snapshots@.len() && self.snapshots@[i].id@ == id {
            let i = choose|i: int| 0 <= i < self.snapshots@.len() && self.snapshots@[i].id@ == id;
            Some(self.snapshots@[i]@)
        } else {
            None
        }
    }

    /// All cached snapshots, in cache order.
    pub closed spec fn cached_tasks(&self) -> Seq<SnapshotView> {
        snapshot_views(self.snapshots@)
    }

    /// The sequence number of the latest event.
    pub closed spec fn sequence(&self) -> u64 {
        self.sequence
    }

    /// Events emitted and not yet taken by [`TaskManager::take_events`].
    pub closed spec fn pending_events(&self) -> Seq<EventView> {
        event_views(self.outbox@)
    }

    /// The replay window of recent events, oldest first.
    pub closed spec fn replay_events(&self) -> Seq<EventView> {
        event_views(self.replay@)
    }

    /// Whether a progress report for `id` was persisted recently enough to
    /// be throttled.
    pub closed spec fn throttled(&self, id: Seq<char>) -> bool {
        exists|i: int|
            0 <= i < self.progress_persisted_at@.len() && self.progress_persisted_at@[i].task_id@
                == id
    }

    /// The state that the command methods never change.
    pub closed spec fn same_store(&self, other: &Self) -> bool {
        self.store == other.store
    }

    /// `post` is `self` with exactly one more event announcing `task`.
    pub open spec fn announced(self, post: Self, task: SnapshotView, name: Seq<char>) -> bool {
        let event = announcement(
            vstd::wrapping::u64_specs::wrapping_add(self.sequence(), 1),
            task,
            name,
        );
        &&& post.sequence() == event.sequence
        &&& post.pending_events() == self.pending_events().push(event)
        &&& post.replay_events() == replay_push(self.replay_events(), event)
    }

    /// `post` announced nothing new.
    pub open spec fn quiet(self, post: Self) -> bool {
        &&& post.sequence() == self.sequence()
        &&& post.pending_events() == self.pending_events()
        &&& post.replay_events() == self.replay_events()
    }

    /// What a command method guarantees, given the state before (`self`)
    /// and after (`post`).
    pub open spec fn command_outcome(
        self,
        post: Self,
        id: Seq<char>,
        command: TaskCommand,
        outcome: Result<TaskSnapshot, TaskManagerError>,
    ) -> bool {
        &&& post.wf()
        &&& post.same_store(&self)
        &&& match outcome {
            Ok(task) => {
                &&& post.cached(task.id@) == Some(task@)
                &&& forall|other: Seq<char>|
                    other != task.id@ ==> #[trigger] post.cached(other) == self.cached(other)
                &&& exists|prev: SnapshotView|
                    #[trigger] task_step(prev, command, task.updated_at) matches Ok((next, name))
                        && next == task@ && self.announced(post, task@, name)
                &&& self.cached(id) matches Some(prev) ==> task_step(
                    prev,
                    command,
                    task.updated_at,
                ) matches Ok((next, name)) && next == task@ && self.announced(post, task@, name)
            },
            Err(error) => {
                &&& self.quiet(post)
                &&& error == TaskManagerError::NotFound ==> self.cached(id) is None
                &&& self.cached(id) matches Some(prev) ==> (error is Persistence || task_step(
                    prev,
                    command,
                    0,
                ) == Err::<(SnapshotView, Seq<char>), TaskManagerError>(error))
            },
        }
        &&& self.cached(id) matches Some(prev) ==> {
            &&& outcome != Err::<TaskSnapshot, TaskManagerError>(TaskManagerError::NotFound)
            &&& task_step(prev, command, 0) matches Err(error) ==> outcome == Err::<
                TaskSnapshot,
                TaskManagerError,
            >(error) && post == self
        }
    }

    proof fn lemma_cached_at(&self, k: int)
        requires
            self.wf(),
            0 <= k < self.snapshots@.len(),
        ensures
            self.cached(self.snapshots@[k].id@) == Some(self.snapshots@[k]@),
    {
        let id = self.snapshots@[k].id@;
        let i = choose|i: int| 0 <= i < self.snapshots@.len() && self.snapshots@[i].id@ == id;
        assert(i == k);
    }

    proof fn lemma_not_cached(&self, id: Seq<char>)
        requires
            forall|i: int| 0 <= i < self.snapshots@.len() ==> self.snapshots@[i].id@ != id,
        ensures
            self.cached(id) is None,
    {
    }

    /// Creates a manager over `store`, caching what it lists (nothing when
    /// the listing fails) and starting the event sequence above every
    /// stored revision (see [`TaskManager::from_listed`]).
    pub fn new(store: S) -> (manager: Self)
        ensures
            manager.wf(),
            manager.pending_events().len() == 0,
            manager.replay_events().len() == 0,
            forall|id: Seq<char>| !#[trigger] manager.throttled(id),
            exists|listed: Seq<SnapshotView>|
                manager.sequence() == revision_sum(listed) && forall|id: Seq<char>|
                    #[trigger] manager.cached(id) == last_listed(listed, id),
    {
        let listed = match store.list() {
            Ok(tasks) => tasks,
            Err(_) => Vec::new(),
        };
        let ghost views = snapshot_views(listed@);
        let manager = Self::from_listed(store, listed);
        assert(manager.sequence() == revision_sum(views) && forall|id: Seq<char>|
            #[trigger] manager.cached(id) == last_listed(views, id));
        manager
    }

    /// A manager over `store` whose cache holds the listed tasks (the last
    /// listed snapshot of each id), with no events yet and its event
    /// sequence at the saturating sum of the listed revisions.
    pub fn from_listed(store: S, listed: Vec<TaskSnapshot>) -> (manager: Self)
        ensures
            manager.wf(),
            manager.pending_events().len() == 0,
            manager.replay_events().len() == 0,
            forall|id: Seq<char>| #[trigger] manager.cached(id) == last_listed(snapshot_views(listed@), id),
            manager.sequence() == revision_sum(snapshot_views(listed@)),
            forall|id: Seq<char>| !#[trigger] manager.throttled(id),
    {
        let ghost views = snapshot_views(listed@);
        let mut sequence: u64 = 0;
        let mut index: usize = 0;
        while index < listed.len()
            invariant
                index <= listed@.len(),
                views == snapshot_views(listed@),
                sequence == revision_sum(views.take(index as int)),
            decreases listed.len() - index,
        {
            proof {
                assert(views.take(index + 1).drop_last() =~= views.take(index as int));
                assert(views.take(index + 1).last() == listed@[index as int]@);
            }
            sequence = sequence.saturating_add(listed[index].revision);
            index += 1;
        }
        assert(views.take(index as int) =~= views);
        let mut manager = TaskManager {
            store,
            snapshots: Vec::new(),
            progress_persisted_at: Vec::new(),
            sequence,
            replay: VecDeque::new(),
            outbox: Vec::new(),
        };
        assert(event_views(manager.outbox@) =~= Seq::<EventView>::empty());
        assert(event_views(manager.replay@) =~= Seq::<EventView>::empty());
        let mut index: usize = 0;
        while index < listed.len()
            invariant
                index <= listed@.len(),
                views == snapshot_views(listed@),
                manager.wf(),
                manager.outbox@.len() == 0,
                manager.replay@.len() == 0,
                manager.progress_persisted_at@.len() == 0,
                manager.sequence == revision_sum(views),
                forall|id: Seq<char>| #[trigger] manager.cached(id) == last_listed(views.take(index as int), id),
            decreases listed.len() - index,
        {
            let ghost before = manager;
            let ghost task = listed@[index as int]@;
            manager.cache_task(listed[index].duplicate());
            proof {
                let next = views.take(index + 1);
                assert(next.drop_last() =~= views.take(index as int));
                assert(next.last() == task);
                assert forall|id: Seq<char>| #[trigger] manager.cached(id) == last_listed(next, id) by {
                    if id != task.id {
                        assert(manager.cached(id) == before.cached(id));
                    }
                }
            }
            index += 1;
        }
        assert(views.take(index as int) =~= views);
        assert(event_views(manager.outbox@) =~= Seq::<EventView>::empty());
        assert(event_views(manager.replay@) =~= Seq::<EventView>::empty());
        manager
    }

    fn find_cached(&self, id: &str) -> (found: Option<usize>)
        ensures
            match found {
                Some(i) => i < self.snapshots@.len() && self.snapshots@[i as int].id@ == id@,
                None => forall|i: int|
                    0 <= i < self.snapshots@.len() ==> self.snapshots@[i].id@ != id@,
            },
    {
        let mut index: usize = 0;
        while index < self.snapshots.len()
            invariant
                index <= self.snapshots@.len(),
                forall|i: int| 0 <= i < index ==> self.snapshots@[i].id@ != id@,
            decreases self.snapshots.len() - index,
        {
            if str_equal(self.snapshots[index].id.as_str(), id) {
                return Some(index);
            }
            index += 1;
        }
        None
    }

    fn cache_task(&mut self, task: TaskSnapshot)
        requires
            old(self).wf(),
        ensures
            final(self).wf(),
            final(self).cached(task.id@) == Some(task@),
            forall|other: Seq<char>|
                other != task.id@ ==> #[trigger] final(self).cached(other) == old(self).cached(
                    other,
                ),
            old(self).quiet(*final(self)),
            final(self).store == old(self).store,
            final(self).progress_persisted_at == old(self).progress_persisted_at,
            final(self).outbox == old(self).outbox,
            final(self).replay == old(self).replay,
    {
        let ghost id = task.id@;
        match self.find_cached(task.id.as_str()) {
            Some(index) => {
                self.snapshots.set(index, task);
                proof {
                    self.lemma_cached_at(index as int);
                    assert forall|other: Seq<char>| other != id implies #[trigger] self.cached(
                        other,
                    ) == old(self).cached(other) by {
                        if exists|i: int|
                            0 <= i < self.snapshots@.len() && self.snapshots@[i].id@ == other {
                            let k = choose|i: int|
                                0 <= i < self.snapshots@.len() && self.snapshots@[i].id@ == other;
                            old(self).lemma_cached_at(k);
                            self.lemma_cached_at(k);
                        } else {
                            assert forall|i: int|
                                0 <= i < old(self).snapshots@.len() implies old(
                                self,
                            ).snapshots@[i].id@ != other by {
                                if i != index {
                                    assert(self.snapshots@[i] == old(self).snapshots@[i]);
                                }
                            }
                        }
                    }
                }
            },
            None => {
                self.snapshots.push(task);
                proof {
                    let last = self.snapshots@.len() - 1;
                    self.lemma_cached_at(last);
                    assert forall|other: Seq<char>| other != id implies #[trigger] self.cached(
                        other,
                    ) == old(self).cached(other) by {
                        if exists|i: int|
                            0 <= i < self.snapshots@.len() && self.snapshots@[i].id@ == other {
                            let k = choose|i: int|
                                0 <= i < self.snapshots@.len() && self.snapshots@[i].id@ == other;
                            assert(k != last);
                            assert(self.snapshots@[k] == old(self).snapshots@[k]);
                            old(self).lemma_cached_at(k);
                            self.lemma_cached_at(k);
                        } else {
                            assert forall|i: int|
                                0 <= i < old(self).snapshots@.len() implies old(
                                self,
                            ).snapshots@[i].id@ != other by {
                                assert(self.snapshots@[i] == old(self).snapshots@[i]);
                            }
                        }
                    }
                }
            },
        }
    }

    /// The task with `id`: from the cache, else from the store (and then
    /// cached).
    fn load_task(&mut self, id: &str) -> (loaded: Result<Option<TaskSnapshot>, TaskManagerError>)
        requires
            old(self).wf(),
        ensures
            final(self).wf(),
            old(self).quiet(*final(self)),
            final(self).store == old(self).store,
            final(self).outbox == old(self).outbox,
            final(self).replay == old(self).replay,
            old(self).cached(id@) matches Some(t) ==> loaded matches Ok(Some(x)) && x@ == t
                && *final(self) == *old(self),
            loaded matches Ok(Some(x)) ==> final(self).cached(x.id@) == Some(x@),
            loaded matches Ok(Some(x)) ==> forall|other: Seq<char>|
                other != x.id@ ==> #[trigger] final(self).cached(other) == old(self).cached(
                    other,
                ),
            loaded matches Ok(None) ==> old(self).cached(id@) is None && *final(self) == *old(
                self,
            ),
            loaded matches Err(e) ==> e is Persistence && *final(self) == *old(self),
    {
        match self.find_cached(id) {
            Some(index) => {
                proof {
                    self.lemma_cached_at(index as int);
                }
                Ok(Some(self.snapshots[index].duplicate()))
            },
            None => {
                proof {
                    self.lemma_not_cached(id@);
                }
                match self.store.get(id) {
                    Err(error) => Err(persistence_error(error)),
                    Ok(None) => Ok(None),
                    Ok(Some(task)) => {
                        self.cache_task(task.duplicate());
                        Ok(Some(task))
                    },
                }
            },
        }
    }

    /// Stores a changed task and caches it.
    fn persist_task(&mut self, task: &TaskSnapshot) -> (persisted: Result<(), TaskManagerError>)
        requires
            old(self).wf(),
        ensures
            final(self).wf(),
            old(self).quiet(*final(self)),
            final(self).store == old(self).store,
            final(self).progress_persisted_at == old(self).progress_persisted_at,
            final(self).outbox == old(self).outbox,
            final(self).replay == old(self).replay,
            persisted is Ok ==> final(self).cached(task.id@) == Some(task@),
            persisted is Ok ==> forall|other: Seq<char>|
                other != task.id@ ==> #[trigger] final(self).cached(other) == old(self).cached(
                    other,
                ),
            persisted matches Err(e) ==> e is Persistence && *final(self) == *old(self),
    {
        match self.store.update(task.duplicate()) {
            Err(error) => Err(persistence_error(error)),
            Ok(()) => {
                self.cache_task(task.duplicate());
                Ok(())
            },
        }
    }

    /// Appends the event announcing `task` to the outbox and the replay
    /// window.
    fn emit(&mut self, event: &str, task: &TaskSnapshot)
        requires
            old(self).wf(),
        ensures
            final(self).wf(),
            old(self).announced(*final(self), task@, event@),
            final(self).store == old(self).store,
            final(self).snapshots == old(self).snapshots,
            final(self).progress_persisted_at == old(self).progress_persisted_at,
    {
        let sequence = self.sequence.wrapping_add(1);
        self.sequence = sequence;
        let record = TaskEvent {
            sequence,
            task_id: copy_string(&task.id),
            revision: task.revision,
            event: owned(event),
            task: task.duplicate(),
        };
        let ghost old_replay = self.replay@;
        if self.replay.len() >= REPLAY_CAPACITY {
            self.replay.pop_front();
            assert(self.replay@ =~= old_replay.drop_first());
        }
        self.replay.push_back(record.duplicate());
        self.outbox.push(record);
        proof {
            let ev = announcement(sequence, task@, event@);
            assert(event_views(self.outbox@) =~= event_views(old(self).outbox@).push(ev));
            assert(event_views(self.replay@) =~= replay_push(event_views(old(self).replay@), ev));
        }
    }

    fn clear_progress_throttle(&mut self, id: &str)
        ensures
            final(self).snapshots == old(self).snapshots,
            final(self).store == old(self).store,
            final(self).sequence == old(self).sequence,
            final(self).outbox == old(self).outbox,
            final(self).replay == old(self).replay,
            !final(self).throttled(id@),
    {
        let mut index: usize = 0;
        while index < self.progress_persisted_at.len()
            invariant
                index <= self.progress_persisted_at@.len(),
                forall|i: int| 0 <= i < index ==> self.progress_persisted_at@[i].task_id@ != id@,
                self.snapshots == old(self).snapshots,
                self.store == old(self).store,
                self.sequence == old(self).sequence,
                self.outbox == old(self).outbox,
                self.replay == old(self).replay,
            decreases self.progress_persisted_at.len() - index,
        {
            if str_equal(self.progress_persisted_at[index].task_id.as_str(), id) {
                self.progress_persisted_at.remove(index);
            } else {
                index += 1;
            }
        }
    }

    fn mark_progress_persisted(&mut self, id: &str)
        ensures
            final(self).snapshots == old(self).snapshots,
            final(self).store == old(self).store,
            final(self).sequence == old(self).sequence,
            final(self).outbox == old(self).outbox,
            final(self).replay == old(self).replay,
            final(self).throttled(id@),
    {
        self.clear_progress_throttle(id);
        self.progress_persisted_at.push(ProgressStamp { task_id: owned(id), at: instant_now() });
        assert(self.progress_persisted_at@[self.progress_persisted_at@.len() - 1].task_id@ == id@);
    }

    fn should_persist_progress(&self, id: &str) -> (persist: bool)
        ensures
            !self.throttled(id@) ==> persist,
    {
        let mut index: usize = 0;
        while index < self.progress_persisted_at.len()
            invariant
                index <= self.progress_persisted_at@.len(),
                forall|i: int| 0 <= i < index ==> self.progress_persisted_at@[i].task_id@ != id@,
            decreases self.progress_persisted_at.len() - index,
        {
            if str_equal(self.progress_persisted_at[index].task_id.as_str(), id) {
                return elapsed_millis(&self.progress_persisted_at[index].at) >= TASK_PROGRESS_PERSIST_INTERVAL_MILLIS;
            }
            index += 1;
        }
        true
    }

    fn apply_command(&mut self, id: &str, command: TaskCommand, clears_throttle: bool) -> (outcome:
        Result<TaskSnapshot, TaskManagerError>)
        requires
            old(self).wf(),
        ensures
            old(self).command_outcome(*final(self), id@, command, outcome),
            clears_throttle && outcome is Ok ==> !final(self).throttled(id@),
    {
        let ghost command_spec = command;
        let prev = match self.load_task(id) {
            Err(error) => return Err(error),
            Ok(None) => return Err(TaskManagerError::NotFound),
            Ok(Some(task)) => task,
        };
        let ghost loaded = *self;
        let now = unix_timestamp();
        let (task, event) = match plan_task_step(&prev, command, now) {
            Err(error) => {
                assert(task_step(prev@, command_spec, 0) == Err::<
                    (SnapshotView, Seq<char>),
                    TaskManagerError,
                >(error));
                return Err(error);
            },
            Ok(planned) => planned,
        };
        assert(task.id@ == prev.id@);
        match self.persist_task(&task) {
            Err(error) => return Err(error),
            Ok(()) => {},
        }
        let ghost after_persist = *self;
        if clears_throttle {
            self.clear_progress_throttle(id);
        }
        let ghost persisted = *self;
        self.emit(event.as_str(), &task);
        proof {
            assert(task_step(prev@, command_spec, task.updated_at) == Ok::<
                (SnapshotView, Seq<char>),
                TaskManagerError,
            >((task@, event@)));
            assert forall|other: Seq<char>| other != task.id@ implies #[trigger] self.cached(other)
                == old(self).cached(other) by {
                assert(self.cached(other) == persisted.cached(other));
                assert(persisted.cached(other) == after_persist.cached(other));
                assert(after_persist.cached(other) == loaded.cached(other));
                assert(loaded.cached(other) == old(self).cached(other));
            }
        }
        Ok(task)
    }

    /// Starts a queued task.
    pub fn start(&mut self, id: &str) -> (outcome: Result<TaskSnapshot, TaskManagerError>)
        requires
            old(self).wf(),
        ensures
            old(self).command_outcome(*final(self), id@, TaskCommand::Start, outcome),
            outcome is Ok ==> !final(self).throttled(id@),
    {
        self.apply_command(id, TaskCommand::Start, true)
    }

    /// Pauses a queued task at once, or asks a running one to pause.
    pub fn pause(&mut self, id: &str) -> (outcome: Result<TaskSnapshot, TaskManagerError>)
        requires
            old(self).wf(),
        ensures
            old(self).command_outcome(*final(self), id@, TaskCommand::Pause, outcome),
    {
        self.apply_command(id, TaskCommand::Pause, true)
    }

    /// Puts a paused (or pausing) task back in the queue.
    pub fn resume(&mut self, id: &str) -> (outcome: Result<TaskSnapshot, TaskManagerError>)
        requires
            old(self).wf(),
        ensures
            old(self).command_outcome(*final(self), id@, TaskCommand::Resume, outcome),
            outcome is Ok ==> !final(self).throttled(id@),
    {
        self.apply_command(id, TaskCommand::Resume, true)
    }

    /// Cancels an idle task at once, or asks a running one to stop.
    pub fn cancel(&mut self, id: &str) -> (outcome: Result<TaskSnapshot, TaskManagerError>)
        requires
            old(self).wf(),
        ensures
            old(self).command_outcome(*final(self), id@, TaskCommand::Cancel, outcome),
    {
        self.apply_command(id, TaskCommand::Cancel, true)
    }

    /// The worker acknowledges a pause or cancel request.
    pub fn acknowledge_stop(&mut self, id: &str) -> (outcome: Result<TaskSnapshot, TaskManagerError>)
        requires
            old(self).wf(),
        ensures
            old(self).command_outcome(*final(self), id@, TaskCommand::AcknowledgeStop, outcome),
    {
        self.apply_command(id, TaskCommand::AcknowledgeStop, true)
    }

    /// Completes a running task with its result (JSON text).
    pub fn complete(&mut self, id: &str, result: String) -> (outcome: Result<
        TaskSnapshot,
        TaskManagerError,
    >)
        requires
            old(self).wf(),
        ensures
            old(self).command_outcome(*final(self), id@, TaskCommand::Complete { result }, outcome),
    {
        self.apply_command(id, TaskCommand::Complete { result }, true)
    }

    /// Fails a queued or running task.
    pub fn fail(&mut self, id: &str, failure: TaskFailure) -> (outcome: Result<
        TaskSnapshot,
        TaskManagerError,
    >)
        requires
            old(self).wf(),
        ensures
            old(self).command_outcome(*final(self), id@, TaskCommand::Fail { failure }, outcome),
    {
        self.apply_command(id, TaskCommand::Fail { failure }, true)
    }

    /// Requeues a task that failed with a retryable error.
    pub fn retry(&mut self, id: &str) -> (outcome: Result<TaskSnapshot, TaskManagerError>)
        requires
            old(self).wf(),
        ensures
            old(self).command_outcome(*final(self), id@, TaskCommand::Retry, outcome),
            outcome is Ok ==> !final(self).throttled(id@),
    {
        self.apply_command(id, TaskCommand::Retry, true)
    }

    /// Holds a running task until the user confirms the preview (JSON text).
    pub fn await_confirmation(&mut self, id: &str, preview: String) -> (outcome: Result<
        TaskSnapshot,
        TaskManagerError,
    >)
        requires
            old(self).wf(),
        ensures
            old(self).command_outcome(
                *final(self),
                id@,
                TaskCommand::AwaitConfirmation { preview },
                outcome,
            ),
    {
        self.apply_command(id, TaskCommand::AwaitConfirmation { preview }, true)
    }

    /// Confirms a waiting task by putting it back in the queue.
    pub fn confirm(&mut self, id: &str) -> (outcome: Result<TaskSnapshot, TaskManagerError>)
        requires
            old(self).wf(),
        ensures
            old(self).command_outcome(*final(self), id@, TaskCommand::Confirm, outcome),
    {
        self.apply_command(id, TaskCommand::Confirm, false)
    }

    /// Confirms a waiting task whose worker is still alive, recording the
    /// user's decision (JSON text) for it.
    pub fn confirm_with_decision(&mut self, id: &str, decision: Option<String>) -> (outcome:
        Result<TaskSnapshot, TaskManagerError>)
        requires
            old(self).wf(),
        ensures
            old(self).command_outcome(
                *final(self),
                id@,
                TaskCommand::ConfirmWithDecision { decision },
                outcome,
            ),
    {
        self.apply_command(id, TaskCommand::ConfirmWithDecision { decision }, true)
    }

    /// Every cached task other than `id` is as in `self`.
    pub open spec fn others_unchanged(self, post: Self, id: Seq<char>) -> bool {
        forall|other: Seq<char>| other != id ==> #[trigger] post.cached(other) == self.cached(other)
    }

    /// Returns the task with `id`, from the cache or else from the store.
    pub fn get(&mut self, id: &str) -> (found: Result<Option<TaskSnapshot>, TaskManagerError>)
        requires
            old(self).wf(),
        ensures
            final(self).wf(),
            final(self).same_store(&old(self)),
            old(self).quiet(*final(self)),
            old(self).cached(id@) matches Some(t) ==> found matches Ok(Some(x)) && x@ == t,
            found matches Ok(Some(x)) ==> final(self).cached(x.id@) == Some(x@),
            found matches Ok(Some(x)) ==> old(self).others_unchanged(*final(self), x.id@),
            found matches Ok(None) ==> old(self).cached(id@) is None,
            found matches Err(e) ==> e is Persistence,
    {
        self.load_task(id)
    }

    /// Creates a queued task of `kind` with its payload (JSON text), stores
    /// it and announces it.
    pub fn create(&mut self, kind: String, payload: String) -> (outcome: Result<
        TaskSnapshot,
        TaskManagerError,
    >)
        requires
            old(self).wf(),
        ensures
            final(self).wf(),
            final(self).same_store(&old(self)),
            outcome matches Ok(task) ==> {
                &&& task@ == new_task_view(task.id@, kind@, payload@, task.created_at)
                &&& is_v4_uuid_text(task.id@)
                &&& final(self).cached(task.id@) == Some(task@)
                &&& old(self).others_unchanged(*final(self), task.id@)
                &&& old(self).announced(*final(self), task@, "created"@)
            },
            outcome matches Err(e) ==> e is Persistence && *final(self) == *old(self),
    {
        let now = unix_timestamp();
        let task = TaskSnapshot {
            id: new_task_id(),
            kind,
            status: TaskStatus::Queued,
            revision: 1,
            created_at: now,
            updated_at: now,
            progress: TaskProgress { completed: 0, total: 0 },
            completed_items: 0,
            total_items: None,
            bytes_processed: 0,
            speed_bytes_per_sec: 0,
            eta_seconds: None,
            attempts: 0,
            stage: String::new(),
            payload,
            preview: None,
            confirm_decision: None,
            result: None,
            error: None,
        };
        match self.store.insert(task.duplicate()) {
            Err(error) => return Err(persistence_error(error)),
            Ok(()) => {},
        }
        self.cache_task(task.duplicate());
        let ghost cached = *self;
        self.emit("created", &task);
        proof {
            assert forall|other: Seq<char>| other != task.id@ implies #[trigger] self.cached(other)
                == old(self).cached(other) by {
                assert(self.cached(other) == cached.cached(other));
            }
        }
        Ok(task)
    }

    /// Removes a finished (completed, failed or cancelled) task from the
    /// store and the cache, announcing the last snapshot as deleted.
    pub fn delete_terminal(&mut self, id: &str) -> (outcome: Result<TaskSnapshot, TaskManagerError>)
        requires
            old(self).wf(),
        ensures
            final(self).wf(),
            final(self).same_store(&old(self)),
            outcome matches Ok(task) ==> {
                &&& is_terminal(task.status)
                &&& final(self).cached(task.id@) is None
                &&& old(self).others_unchanged(*final(self), task.id@)
                &&& old(self).announced(*final(self), task@, "deleted"@)
                &&& old(self).cached(id@) matches Some(prev) ==> task@ == prev
            },
            outcome is Err ==> old(self).quiet(*final(self)),
            old(self).cached(id@) matches Some(prev) ==> (!is_terminal(prev.status) ==> outcome
                == Err::<TaskSnapshot, TaskManagerError>(
                TaskManagerError::InvalidTransition { from: prev.status, to: TaskStatus::Cancelled },
            ) && *final(self) == *old(self)),
    {
        let task = match self.load_task(id) {
            Err(error) => return Err(error),
            Ok(None) => return Err(TaskManagerError::NotFound),
            Ok(Some(task)) => task,
        };
        if !(task.status == TaskStatus::Completed || task.status == TaskStatus::Failed
            || task.status == TaskStatus::Cancelled) {
            return Err(invalid(task.status, TaskStatus::Cancelled));
        }
        match self.store.delete(id) {
            Err(error) => return Err(persistence_error(error)),
            Ok(false) => return Err(TaskManagerError::NotFound),
            Ok(true) => {},
        }
        let ghost loaded = *self;
        self.uncache_task(task.id.as_str());
        let ghost uncached = *self;
        self.clear_progress_throttle(id);
        let ghost removed = *self;
        self.emit("deleted", &task);
        proof {
            assert forall|other: Seq<char>| other != task.id@ implies #[trigger] self.cached(other)
                == old(self).cached(other) by {
                assert(self.cached(other) == removed.cached(other));
                assert(removed.cached(other) == uncached.cached(other));
                assert(uncached.cached(other) == loaded.cached(other));
                assert(loaded.cached(other) == old(self).cached(other));
            }
            assert(self.cached(task.id@) == removed.cached(task.id@));
            assert(removed.cached(task.id@) == uncached.cached(task.id@));
        }
        Ok(task)
    }

    fn uncache_task(&mut self, id: &str)
        requires
            old(self).wf(),
        ensures
            final(self).wf(),
            final(self).cached(id@) is None,
            old(self).others_unchanged(*final(self), id@),
            old(self).quiet(*final(self)),
            final(self).store == old(self).store,
            final(self).outbox == old(self).outbox,
            final(self).replay == old(self).replay,
    {
        match self.find_cached(id) {
            None => {
                proof {
                    self.lemma_not_cached(id@);
                }
            },
            Some(index) => {
                self.snapshots.remove(index);
                proof {
                    assert forall|i: int| 0 <= i < self.snapshots@.len() implies self.snapshots@[
                        i
                    ].id@ != id@ by {
                        if i < index {
                            assert(self.snapshots@[i] == old(self).snapshots@[i]);
                        } else {
                            assert(self.snapshots@[i] == old(self).snapshots@[i + 1]);
                        }
                    }
                    assert forall|i: int, j: int|
                        0 <= i < self.snapshots@.len() && 0 <= j < self.snapshots@.len() && i
                            != j implies #[trigger] self.snapshots@[i].id@
                        != #[trigger] self.snapshots@[j].id@ by {
                        let oi = if i < index {
                            i
                        } else {
                            i + 1
                        };
                        let oj = if j < index {
                            j
                        } else {
                            j + 1
                        };
                        assert(self.snapshots@[i] == old(self).snapshots@[oi]);
                        assert(self.snapshots@[j] == old(self).snapshots@[oj]);
                    }
                    self.lemma_not_cached(id@);
                    assert forall|other: Seq<char>| other != id@ implies #[trigger] self.cached(
                        other,
                    ) == old(self).cached(other) by {
                        if exists|i: int|
                            0 <= i < self.snapshots@.len() && self.snapshots@[i].id@ == other {
                            let k = choose|i: int|
                                0 <= i < self.snapshots@.len() && self.snapshots@[i].id@ == other;
                            let ok = if k < index {
                                k
                            } else {
                                k + 1
                            };
                            assert(self.snapshots@[k] == old(self).snapshots@[ok]);
                            old(self).lemma_cached_at(ok);
                            self.lemma_cached_at(k);
                        } else {
                            assert forall|i: int|
                                0 <= i < old(self).snapshots@.len() implies old(
                                self,
                            ).snapshots@[i].id@ != other by {
                                if i < index {
                                    assert(self.snapshots@[i] == old(self).snapshots@[i]);
                                } else if i > index {
                                    assert(self.snapshots@[i - 1] == old(self).snapshots@[i]);
                                }
                            }
                        }
                    }
                }
            },
        }
    }

    /// All cached tasks, newest first (by update time, then id, both
    /// descending).
    pub fn snapshot(&self) -> (tasks: Vec<TaskSnapshot>)
        requires
            self.wf(),
        ensures
            newest_first(snapshot_views(tasks@)),
            ids_unique(tasks@),
            forall|k: int|
                0 <= k < tasks@.len() ==> self.cached(#[trigger] tasks@[k].id@) == Some(
                    tasks@[k]@,
                ),
            forall|id: Seq<char>|
                #[trigger] self.cached(id) is Some ==> exists|k: int|
                    0 <= k < tasks@.len() && tasks@[k].id@ == id,
    {
        let mut sorted: Vec<TaskSnapshot> = Vec::new();
        let mut index: usize = 0;
        while index < self.snapshots.len()
            invariant
                self.wf(),
                index <= self.snapshots@.len(),
                newest_first(snapshot_views(sorted@)),
                ids_unique(sorted@),
                forall|k: int|
                    #![trigger sorted@[k]]
                    0 <= k < sorted@.len() ==> exists|m: int|
                        0 <= m < index && #[trigger] self.snapshots@[m]@ == sorted@[k]@,
                forall|m: int|
                    #![trigger self.snapshots@[m]]
                    0 <= m < index ==> exists|k: int|
                        0 <= k < sorted@.len() && #[trigger] sorted@[k]@ == self.snapshots@[m]@,
            decreases self.snapshots.len() - index,
        {
            let task = self.snapshots[index].duplicate();
            let ghost before = sorted@;
            proof {
                assert forall|k: int| 0 <= k < before.len() implies before[k].id@ != task.id@ by {
                    let m = choose|m: int|
                        0 <= m < index && #[trigger] self.snapshots@[m]@ == before[k]@;
                    assert(self.snapshots@[m].id@ == before[k].id@);
                    assert(m != index);
                }
            }
            let position = insert_listed(&mut sorted, task);
            proof {
                let after = sorted@;
                let p = position as int;
                before.insert_ensures(p, after[p]);
                assert forall|k: int| #![trigger after[k]] 0 <= k < after.len() implies exists|m: int|
                    0 <= m < index + 1 && #[trigger] self.snapshots@[m]@ == after[k]@ by {
                    if k == p {
                        assert(self.snapshots@[index as int]@ == after[k]@);
                    } else {
                        let ok = if k < p {
                            k
                        } else {
                            k - 1
                        };
                        assert(after[k] == before[ok]);
                        let m = choose|m: int|
                            0 <= m < index && #[trigger] self.snapshots@[m]@ == before[ok]@;
                        assert(self.snapshots@[m]@ == after[k]@);
                    }
                }
                assert forall|m: int| #![trigger self.snapshots@[m]] 0 <= m < index + 1 implies exists|k: int|
                    0 <= k < after.len() && #[trigger] after[k]@ == self.snapshots@[m]@ by {
                    if m == index {
                        assert(after[p]@ == self.snapshots@[m]@);
                    } else {
                        let k = choose|k: int|
                            0 <= k < before.len() && #[trigger] before[k]@ == self.snapshots@[m]@;
                        if k < p {
                            assert(after[k] == before[k]);
                        } else {
                            assert(after[k + 1] == before[k]);
                        }
                    }
                }
            }
            index += 1;
        }
        proof {
            assert forall|k: int| 0 <= k < sorted@.len() implies self.cached(
                #[trigger] sorted@[k].id@,
            ) == Some(sorted@[k]@) by {
                let m = choose|m: int|
                    0 <= m < index && #[trigger] self.snapshots@[m]@ == sorted@[k]@;
                self.lemma_cached_at(m);
            }
            assert forall|id: Seq<char>| #[trigger] self.cached(id) is Some implies exists|k: int|
                0 <= k < sorted@.len() && sorted@[k].id@ == id by {
                let m = choose|i: int|
                    0 <= i < self.snapshots@.len() && self.snapshots@[i].id@ == id;
                let k = choose|k: int|
                    0 <= k < sorted@.len() && #[trigger] sorted@[k]@ == self.snapshots@[m]@;
                assert(sorted@[k].id@ == id);
            }
        }
        sorted
    }

    /// [`TaskManager::snapshot`] together with the current event sequence.
    pub fn snapshot_with_sequence(&self) -> (listed: (Vec<TaskSnapshot>, u64))
        requires
            self.wf(),
        ensures
            newest_first(snapshot_views(listed.0@)),
            ids_unique(listed.0@),
            forall|k: int|
                0 <= k < listed.0@.len() ==> self.cached(#[trigger] listed.0@[k].id@) == Some(
                    listed.0@[k]@,
                ),
            forall|id: Seq<char>|
                #[trigger] self.cached(id) is Some ==> exists|k: int|
                    0 <= k < listed.0@.len() && listed.0@[k].id@ == id,
            listed.1 == self.sequence(),
    {
        (self.snapshot(), self.sequence)
    }

    /// Events of the replay window newer than `sequence`, and whether the
    /// client missed events that are no longer in the window.
    pub fn replay_after(&self, sequence: u64) -> (replay: TaskEventReplay)
        ensures
            replay.latest_sequence == self.sequence(),
            event_views(replay.events@) == self.replay_events().filter(newer_than(sequence)),
            replay.requires_resync == (sequence < self.sequence() && (self.replay_events().len()
                == 0 || (if sequence == u64::MAX {
                u64::MAX
            } else {
                (sequence + 1) as u64
            }) < self.replay_events()[0].sequence)),
    {
        let latest_sequence = self.sequence;
        let requires_resync = sequence < latest_sequence && (self.replay.len() == 0
            || sequence.saturating_add(1) < self.replay[0].sequence);
        let ghost pred = newer_than(sequence);
        let mut events: Vec<TaskEvent> = Vec::new();
        let mut index: usize = 0;
        proof {
            reveal(Seq::filter);
            assert(event_views(self.replay@).take(0).len() == 0);
            assert(event_views(events@) =~= event_views(self.replay@).take(0).filter(pred));
        }
        while index < self.replay.len()
            invariant
                index <= self.replay@.len(),
                pred == newer_than(sequence),
                event_views(events@) == event_views(self.replay@).take(index as int).filter(pred),
            decreases self.replay.len() - index,
        {
            let event = &self.replay[index];
            let ghost previous = events@;
            if event.sequence > sequence {
                events.push(event.duplicate());
                assert(event_views(events@) =~= event_views(previous).push(event@));
            }
            proof {
                let all = event_views(self.replay@);
                assert(all[index as int] == event@);
                assert(all.take(index + 1) =~= all.take(index as int).push(all[index as int]));
                all.take(index as int).lemma_filter_push(all[index as int], pred);
                assert(event@.sequence == event.sequence);
                assert(pred == newer_than(sequence));
                assert(newer_than(sequence)(event@) == (event@.sequence > sequence));
            }
            index += 1;
        }
        proof {
            assert(event_views(self.replay@).take(self.replay@.len() as int) =~= event_views(
                self.replay@,
            ));
        }
        TaskEventReplay { events, requires_resync, latest_sequence }
    }

    /// `task` is `report` of `prev`: either kept unnumbered and unpersisted
    /// (throttled), or numbered, cached and announced as `name`.
    pub open spec fn reported(
        self,
        post: Self,
        prev: SnapshotView,
        task: TaskSnapshot,
        report: SnapshotView,
        name: Seq<char>,
    ) -> bool {
        ||| (task@ == report && post.cached(task.id@) == Some(prev) && self.quiet(post))
        ||| (task@ == touched(report, task.updated_at) && post.cached(task.id@) == Some(task@)
            && self.announced(post, task@, name))
    }

    /// Records item progress of a running task: items done (capped at the
    /// total), bytes, speed and an estimated time left.  Reports closer
    /// together than the persist interval are returned but not stored.
    pub fn progress(
        &mut self,
        id: &str,
        completed_items: u64,
        total_items: u64,
        bytes_processed: u64,
        speed_bytes_per_sec: u64,
    ) -> (outcome: Result<TaskSnapshot, TaskManagerError>)
        requires
            old(self).wf(),
        ensures
            final(self).wf(),
            final(self).same_store(&old(self)),
            outcome matches Ok(task) ==> {
                &&& old(self).others_unchanged(*final(self), task.id@)
                &&& exists|prev: SnapshotView|
                    prev.status == TaskStatus::Running && old(self).reported(
                        *final(self),
                        prev,
                        task,
                        #[trigger] progress_report(
                            prev,
                            completed_items,
                            total_items,
                            bytes_processed,
                            speed_bytes_per_sec,
                        ),
                        "progress"@,
                    )
            },
            outcome is Err ==> old(self).quiet(*final(self)),
            old(self).cached(id@) matches Some(prev) ==> {
                &&& prev.status != TaskStatus::Running ==> outcome == Err::<
                    TaskSnapshot,
                    TaskManagerError,
                >(
                    TaskManagerError::InvalidTransition {
                        from: prev.status,
                        to: TaskStatus::Running,
                    },
                ) && *final(self) == *old(self)
                &&& prev.status == TaskStatus::Running ==> (outcome is Err ==> outcome->Err_0 is Persistence)
                &&& outcome matches Ok(task) ==> old(self).reported(
                    *final(self),
                    prev,
                    task,
                    progress_report(
                        prev,
                        completed_items,
                        total_items,
                        bytes_processed,
                        speed_bytes_per_sec,
                    ),
                    "progress"@,
                )
                &&& outcome matches Ok(task) ==> (!old(self).throttled(id@) ==> old(self).announced(
                    *final(self),
                    task@,
                    "progress"@,
                ))
            },
    {
        let mut task = match self.load_task(id) {
            Err(error) => return Err(error),
            Ok(None) => return Err(TaskManagerError::NotFound),
            Ok(Some(task)) => task,
        };
        if task.status != TaskStatus::Running {
            return Err(invalid(task.status, TaskStatus::Running));
        }
        let ghost prev = task@;
        let ghost loaded = *self;
        let completed = if completed_items < total_items {
            completed_items
        } else {
            total_items
        };
        task.completed_items = completed;
        task.total_items = Some(total_items);
        task.progress = TaskProgress { completed, total: total_items };
        task.bytes_processed = bytes_processed;
        task.speed_bytes_per_sec = speed_bytes_per_sec;
        task.eta_seconds = eta_for(completed, total_items, bytes_processed, speed_bytes_per_sec);
        assert(task@ == progress_report(
            prev,
            completed_items,
            total_items,
            bytes_processed,
            speed_bytes_per_sec,
        ));
        if !self.should_persist_progress(id) {
            return Ok(task);
        }
        task.revision = task.revision.wrapping_add(1);
        task.updated_at = unix_timestamp();
        match self.persist_task(&task) {
            Err(error) => return Err(error),
            Ok(()) => {},
        }
        let ghost after_persist = *self;
        if completed_items > 0 || bytes_processed > 0 {
            self.mark_progress_persisted(id);
        } else {
            self.clear_progress_throttle(id);
        }
        let ghost marked = *self;
        self.emit("progress", &task);
        proof {
            assert forall|other: Seq<char>| other != task.id@ implies #[trigger] self.cached(other)
                == old(self).cached(other) by {
                assert(self.cached(other) == marked.cached(other));
                assert(marked.cached(other) == after_persist.cached(other));
                assert(after_persist.cached(other) == loaded.cached(other));
            }
            assert(self.cached(task.id@) == marked.cached(task.id@));
            assert(marked.cached(task.id@) == after_persist.cached(task.id@));
        }
        Ok(task)
    }

    /// Records a streamed transfer of a running task: bytes never move
    /// backwards; the first bytes of a transfer are always stored.
    pub fn stream_progress(
        &mut self,
        id: &str,
        bytes_processed: u64,
        speed_bytes_per_sec: u64,
        eta_seconds: Option<u64>,
    ) -> (outcome: Result<TaskSnapshot, TaskManagerError>)
        requires
            old(self).wf(),
        ensures
            final(self).wf(),
            final(self).same_store(&old(self)),
            outcome matches Ok(task) ==> {
                &&& old(self).others_unchanged(*final(self), task.id@)
                &&& exists|prev: SnapshotView|
                    prev.status == TaskStatus::Running && old(self).reported(
                        *final(self),
                        prev,
                        task,
                        #[trigger] stream_report(prev, bytes_processed, speed_bytes_per_sec, eta_seconds),
                        "progress"@,
                    )
            },
            outcome is Err ==> old(self).quiet(*final(self)),
            old(self).cached(id@) matches Some(prev) ==> {
                &&& prev.status != TaskStatus::Running ==> outcome == Err::<
                    TaskSnapshot,
                    TaskManagerError,
                >(
                    TaskManagerError::InvalidTransition {
                        from: prev.status,
                        to: TaskStatus::Running,
                    },
                ) && *final(self) == *old(self)
                &&& prev.status == TaskStatus::Running ==> (outcome is Err ==> outcome->Err_0 is Persistence)
                &&& outcome matches Ok(task) ==> old(self).reported(
                    *final(self),
                    prev,
                    task,
                    stream_report(prev, bytes_processed, speed_bytes_per_sec, eta_seconds),
                    "progress"@,
                )
                &&& outcome matches Ok(task) ==> ((!old(self).throttled(id@) || (prev.bytes_processed
                    == 0 && bytes_processed > 0)) ==> old(self).announced(
                    *final(self),
                    task@,
                    "progress"@,
                ))
            },
    {
        let mut task = match self.load_task(id) {
            Err(error) => return Err(error),
            Ok(None) => return Err(TaskManagerError::NotFound),
            Ok(Some(task)) => task,
        };
        if task.status != TaskStatus::Running {
            return Err(invalid(task.status, TaskStatus::Running));
        }
        let ghost prev = task@;
        let ghost loaded = *self;
        let first_live_transfer = task.bytes_processed == 0 && bytes_processed > 0;
        if task.bytes_processed < bytes_processed {
            task.bytes_processed = bytes_processed;
        }
        task.speed_bytes_per_sec = speed_bytes_per_sec;
        task.eta_seconds = eta_seconds;
        assert(task@ == stream_report(prev, bytes_processed, speed_bytes_per_sec, eta_seconds));
        if !first_live_transfer && !self.should_persist_progress(id) {
            return Ok(task);
        }
        task.revision = task.revision.wrapping_add(1);
        task.updated_at = unix_timestamp();
        match self.persist_task(&task) {
            Err(error) => return Err(error),
            Ok(()) => {},
        }
        let ghost after_persist = *self;
        self.mark_progress_persisted(id);
        let ghost marked = *self;
        self.emit("progress", &task);
        proof {
            assert forall|other: Seq<char>| other != task.id@ implies #[trigger] self.cached(other)
                == old(self).cached(other) by {
                assert(self.cached(other) == marked.cached(other));
                assert(marked.cached(other) == after_persist.cached(other));
                assert(after_persist.cached(other) == loaded.cached(other));
            }
            assert(self.cached(task.id@) == marked.cached(task.id@));
            assert(marked.cached(task.id@) == after_persist.cached(task.id@));
        }
        Ok(task)
    }

    /// Reports the execution stage of a running task; an unchanged stage or
    /// a task that is not running is returned as it is.
    pub fn set_stage(&mut self, id: &str, stage: String) -> (outcome: Result<
        TaskSnapshot,
        TaskManagerError,
    >)
        requires
            old(self).wf(),
        ensures
            final(self).wf(),
            final(self).same_store(&old(self)),
            outcome matches Ok(task) ==> old(self).others_unchanged(*final(self), task.id@),
            outcome is Err ==> old(self).quiet(*final(self)),
            outcome matches Err(e) ==> e is Persistence || (e == TaskManagerError::NotFound
                && old(self).cached(id@) is None),
            old(self).cached(id@) matches Some(prev) ==> {
                &&& (prev.status != TaskStatus::Running || prev.stage == stage@) ==> (outcome
                    matches Ok(task) && task@ == prev && *final(self) == *old(self))
                &&& (prev.status == TaskStatus::Running && prev.stage != stage@) ==> (
                outcome matches Ok(task) ==> task@ == touched(
                    SnapshotView { stage: stage@, ..prev },
                    task.updated_at,
                ) && final(self).cached(task.id@) == Some(task@) && old(self).announced(
                    *final(self),
                    task@,
                    "stage"@,
                ))
            },
    {
        let mut task = match self.load_task(id) {
            Err(error) => return Err(error),
            Ok(None) => return Err(TaskManagerError::NotFound),
            Ok(Some(task)) => task,
        };
        let ghost loaded = *self;
        if task.status != TaskStatus::Running || str_equal(task.stage.as_str(), stage.as_str()) {
            return Ok(task);
        }
        task.stage = stage;
        task.revision = task.revision.wrapping_add(1);
        task.updated_at = unix_timestamp();
        match self.persist_task(&task) {
            Err(error) => return Err(error),
            Ok(()) => {},
        }
        let ghost after_persist = *self;
        self.emit("stage", &task);
        proof {
            assert forall|other: Seq<char>| other != task.id@ implies #[trigger] self.cached(other)
                == old(self).cached(other) by {
                assert(self.cached(other) == after_persist.cached(other));
                assert(after_persist.cached(other) == loaded.cached(other));
            }
            assert(self.cached(task.id@) == after_persist.cached(task.id@));
        }
        Ok(task)
    }

    /// Takes (and clears) the decision recorded by
    /// [`TaskManager::confirm_with_decision`], so that it is used once.
    pub fn take_confirm_decision(&mut self, id: &str) -> (outcome: Result<
        Option<String>,
        TaskManagerError,
    >)
        requires
            old(self).wf(),
        ensures
            final(self).wf(),
            final(self).same_store(&old(self)),
            outcome is Err ==> old(self).quiet(*final(self)),
            outcome matches Err(e) ==> e is Persistence || (e == TaskManagerError::NotFound
                && old(self).cached(id@) is None),
            old(self).cached(id@) matches Some(prev) ==> {
                &&& prev.confirm_decision is None ==> outcome == Ok::<
                    Option<String>,
                    TaskManagerError,
                >(None) && *final(self) == *old(self)
                &&& prev.confirm_decision matches Some(decision) ==> (outcome matches Ok(taken) ==> ({
                    &&& taken matches Some(text) && text@ == decision
                    &&& final(self).cached(id@) matches Some(next) && next == touched(
                        SnapshotView { confirm_decision: None, ..prev },
                        next.updated_at,
                    ) && old(self).announced(*final(self), next, "confirmed"@)
                    &&& old(self).others_unchanged(*final(self), id@)
                }))
            },
    {
        let mut task = match self.load_task(id) {
            Err(error) => return Err(error),
            Ok(None) => return Err(TaskManagerError::NotFound),
            Ok(Some(task)) => task,
        };
        let ghost loaded = *self;
        let decision = task.confirm_decision.take();
        if decision.is_none() {
            return Ok(None);
        }
        task.revision = task.revision.wrapping_add(1);
        task.updated_at = unix_timestamp();
        match self.persist_task(&task) {
            Err(error) => return Err(error),
            Ok(()) => {},
        }
        let ghost after_persist = *self;
        self.emit("confirmed", &task);
        proof {
            assert forall|other: Seq<char>| other != task.id@ implies #[trigger] self.cached(other)
                == old(self).cached(other) by {
                assert(self.cached(other) == after_persist.cached(other));
                assert(after_persist.cached(other) == loaded.cached(other));
            }
            assert(self.cached(task.id@) == after_persist.cached(task.id@));
        }
        Ok(decision)
    }

    /// `post.cached(id)` is `prev` after start-up recovery.
    pub open spec fn recovered_from(post: Self, id: Seq<char>, prev: SnapshotView) -> bool {
        match recovery_step(prev, 0) {
            None => post.cached(id) == Some(prev),
            Some(_) => post.cached(id) matches Some(next) && recovery_step(prev, next.updated_at)
                == Some(next),
        }
    }

    /// Settles tasks that were mid-flight when the application stopped:
    /// pending pauses become paused, pending cancellations cancelled,
    /// resumable running kinds paused and any other running task failed.
    /// Returns the changed tasks, newest first.
    pub fn recover_interrupted(&mut self) -> (outcome: Result<Vec<TaskSnapshot>, TaskManagerError>)
        requires
            old(self).wf(),
        ensures
            final(self).wf(),
            final(self).same_store(&old(self)),
            forall|id: Seq<char>| #[trigger] old(self).cached(id) is None ==> final(self).cached(id) is None,
            outcome is Ok ==> forall|id: Seq<char>|
                #[trigger] old(self).cached(id) matches Some(prev) ==> Self::recovered_from(
                    *final(self),
                    id,
                    prev,
                ),
            outcome matches Ok(recovered) ==> forall|k: int|
                0 <= k < recovered@.len() ==> final(self).cached(#[trigger] recovered@[k].id@)
                    == Some(recovered@[k]@),
            outcome matches Ok(recovered) ==> final(self).pending_events().len() == old(
                self,
            ).pending_events().len() + recovered@.len(),
            outcome matches Ok(recovered) ==> forall|k: int|
                0 <= k < recovered@.len() ==> (old(self).cached(#[trigger] recovered@[k].id@) matches Some(prev)
                    && recovery_step(prev, recovered@[k].updated_at) == Some(recovered@[k]@)),
            outcome matches Ok(recovered) ==> forall|id: Seq<char>|
                (#[trigger] old(self).cached(id) matches Some(prev) && recovery_step(prev, 0) is Some) ==> exists|k: int|
                    0 <= k < recovered@.len() && recovered@[k].id@ == id,
            outcome matches Err(e) ==> e is Persistence,
    {
        let listed = self.snapshot();
        let ghost start = *self;
        let mut recovered: Vec<TaskSnapshot> = Vec::new();
        let mut index: usize = 0;
        while index < listed.len()
            invariant
                self.wf(),
                self.same_store(&start),
                index <= listed@.len(),
                ids_unique(listed@),
                forall|k: int|
                    0 <= k < listed@.len() ==> start.cached(#[trigger] listed@[k].id@) == Some(
                        listed@[k]@,
                    ),
                forall|id: Seq<char>|
                    #[trigger] start.cached(id) is Some ==> exists|k: int|
                        0 <= k < listed@.len() && listed@[k].id@ == id,
                forall|k: int|
                    0 <= k < index ==> Self::recovered_from(
                        *self,
                        #[trigger] listed@[k].id@,
                        listed@[k]@,
                    ),
                forall|k: int|
                    index <= k < listed@.len() ==> self.cached(#[trigger] listed@[k].id@)
                        == Some(listed@[k]@),
                forall|id: Seq<char>| #[trigger] start.cached(id) is None ==> self.cached(id) is None,
                forall|k: int|
                    0 <= k < recovered@.len() ==> self.cached(#[trigger] recovered@[k].id@)
                        == Some(recovered@[k]@),
                forall|k: int|
                    #![trigger recovered@[k]]
                    0 <= k < recovered@.len() ==> exists|j: int|
                        0 <= j < index && #[trigger] listed@[j].id@ == recovered@[k].id@,
                self.pending_events().len() == start.pending_events().len() + recovered@.len(),
                start == *old(self),
                forall|k: int|
                    0 <= k < recovered@.len() ==> (start.cached(#[trigger] recovered@[k].id@) matches Some(prev)
                        && recovery_step(prev, recovered@[k].updated_at) == Some(recovered@[k]@)),
                forall|j: int|
                    0 <= j < index && recovery_step(#[trigger] listed@[j]@, 0) is Some ==> exists|k: int|
                        0 <= k < recovered@.len() && recovered@[k].id@ == listed@[j].id@,
            decreases listed.len() - index,
        {
            let mut task = listed[index].duplicate();
            let ghost prev = task@;
            let ghost before = *self;
            if task.status == TaskStatus::Pausing {
                task.status = TaskStatus::Paused;
                task.error = None;
            } else if task.status == TaskStatus::Cancelling {
                task.status = TaskStatus::Cancelled;
                task.error = None;
            } else if task.status == TaskStatus::Running && (str_equal(task.kind.as_str(), "download")
                || str_equal(task.kind.as_str(), "training") || str_equal(
                task.kind.as_str(),
                "reindex_library",
            )) {
                task.status = TaskStatus::Paused;
                task.error = None;
            } else if task.status == TaskStatus::Running {
                task.status = TaskStatus::Failed;
                task.error = Some(
                    TaskFailure {
                        code: owned("interrupted"),
                        message: owned("应用退出时任务仍在运行"),
                        retryable: false,
                    },
                );
            } else {
                proof {
                    assert(recovery_step(prev, 0) is None);
                }
                index += 1;
                continue;
            }
            task.revision = task.revision.wrapping_add(1);
            task.updated_at = unix_timestamp();
            assert(recovery_step(prev, task.updated_at) == Some(task@));
            match self.persist_task(&task) {
                Err(error) => return Err(error),
                Ok(()) => {},
            }
            let ghost after_persist = *self;
            self.emit("recovered", &task);
            proof {
                assert forall|other: Seq<char>| other != task.id@ implies #[trigger] self.cached(
                    other,
                ) == before.cached(other) by {
                    assert(self.cached(other) == after_persist.cached(other));
                }
                assert(self.cached(task.id@) == after_persist.cached(task.id@));
                assert forall|k: int| 0 <= k < index + 1 implies Self::recovered_from(
                    *self,
                    #[trigger] listed@[k].id@,
                    listed@[k]@,
                ) by {
                    if k < index {
                        assert(listed@[k].id@ != task.id@);
                        assert(self.cached(listed@[k].id@) == before.cached(listed@[k].id@));
                    }
                }
                assert forall|k: int| index + 1 <= k < listed@.len() implies self.cached(
                    #[trigger] listed@[k].id@,
                ) == Some(listed@[k]@) by {
                    assert(listed@[k].id@ != task.id@);
                    assert(self.cached(listed@[k].id@) == before.cached(listed@[k].id@));
                }
                assert forall|id: Seq<char>| #[trigger] start.cached(id) is None implies self.cached(
                    id,
                ) is None by {
                    assert(start.cached(task.id@) is Some);
                    assert(self.cached(id) == before.cached(id));
                }
                assert forall|k: int| 0 <= k < recovered@.len() implies self.cached(
                    #[trigger] recovered@[k].id@,
                ) == Some(recovered@[k]@) by {
                    let j = choose|j: int|
                        0 <= j < index && #[trigger] listed@[j].id@ == recovered@[k].id@;
                    assert(recovered@[k].id@ != task.id@);
                    assert(self.cached(recovered@[k].id@) == before.cached(recovered@[k].id@));
                }
            }
            let ghost recovered_before = recovered@;
            recovered.push(task);
            proof {
                assert forall|k: int| #![trigger recovered@[k]] 0 <= k < recovered@.len() implies exists|j: int|
                    0 <= j < index + 1 && #[trigger] listed@[j].id@ == recovered@[k].id@ by {
                    if k < recovered_before.len() {
                        assert(recovered@[k] == recovered_before[k]);
                        let j = choose|j: int|
                            0 <= j < index && #[trigger] listed@[j].id@ == recovered_before[k].id@;
                    } else {
                        assert(listed@[index as int].id@ == recovered@[k].id@);
                    }
                }
                assert forall|j: int|
                    0 <= j < index + 1 && recovery_step(#[trigger] listed@[j]@, 0) is Some implies exists|k: int|
                        0 <= k < recovered@.len() && recovered@[k].id@ == listed@[j].id@ by {
                    if j < index {
                        let k = choose|k: int| 0 <= k < recovered_before.len() && recovered_before[k].id@ == listed@[j].id@;
                        assert(recovered@[k] == recovered_before[k]);
                    } else {
                        assert(recovered@[recovered@.len() - 1].id@ == listed@[j].id@);
                    }
                }
            }
            index += 1;
        }
        proof {
            assert forall|id: Seq<char>| #[trigger] old(self).cached(id) is Some implies Self::recovered_from(
                *self,
                id,
                old(self).cached(id).unwrap(),
            ) by {
                let k = choose|k: int| 0 <= k < listed@.len() && listed@[k].id@ == id;
                assert(start.cached(listed@[k].id@) == Some(listed@[k]@));
            }
            assert forall|id: Seq<char>|
                (#[trigger] old(self).cached(id) matches Some(prev) && recovery_step(prev, 0) is Some) implies exists|k: int|
                    0 <= k < recovered@.len() && recovered@[k].id@ == id by {
                let j = choose|j: int| 0 <= j < listed@.len() && listed@[j].id@ == id;
                assert(start.cached(listed@[j].id@) == Some(listed@[j]@));
                assert(recovery_step(listed@[j]@, 0) is Some);
            }
        }
        Ok(recovered)
    }

    /// Events of the replay window newer than `sequence`.
    pub fn events_after(&self, sequence: u64) -> (events: Vec<TaskEvent>)
        ensures
            event_views(events@) == self.replay_events().filter(newer_than(sequence)),
    {
        self.replay_after(sequence).events
    }

    /// Empties the replay window (the next reconnect must resynchronise).
    pub fn clear_replay_for_test(&mut self)
        requires
            old(self).wf(),
        ensures
            final(self).wf(),
            final(self).replay_events().len() == 0,
            final(self).sequence() == old(self).sequence(),
            forall|id: Seq<char>| #[trigger] final(self).cached(id) == old(self).cached(id),
    {
        self.replay = VecDeque::new();
    }

    /// Hands the broadcaster every event emitted since the last call.
    pub fn take_events(&mut self) -> (events: Vec<TaskEvent>)
        requires
            old(self).wf(),
        ensures
            final(self).wf(),
            event_views(events@) == old(self).pending_events(),
            final(self).pending_events().len() == 0,
            final(self).sequence() == old(self).sequence(),
            final(self).replay_events() == old(self).replay_events(),
            forall|id: Seq<char>| #[trigger] final(self).cached(id) == old(self).cached(id),
    {
        let mut events = Vec::new();
        std::mem::swap(&mut events, &mut self.outbox);
        events
    }

    /// The sequence number of the latest event.
    pub fn last_sequence(&self) -> (sequence: u64)
        ensures
            sequence == self.sequence(),
    {
        self.sequence
    }
}

} // verus!

verus! {

/// A running task asked to pause is first `Pausing`; once its worker
/// acknowledges, it is `Paused`.
pub proof fn law_pause_waits_for_acknowledgement(prev: SnapshotView, asked: u64, acknowledged: u64)
    requires
        prev.status == TaskStatus::Running,
    ensures
        task_step(prev, TaskCommand::Pause, asked) is Ok,
        task_step(prev, TaskCommand::Pause, asked)->Ok_0.0.status == TaskStatus::Pausing,
        task_step(task_step(prev, TaskCommand::Pause, asked)->Ok_0.0, TaskCommand::AcknowledgeStop, acknowledged) is Ok,
        task_step(
            task_step(prev, TaskCommand::Pause, asked)->Ok_0.0,
            TaskCommand::AcknowledgeStop,
            acknowledged,
        )->Ok_0.0.status == TaskStatus::Paused,
{
}

/// Pausing a task waiting in the queue pauses it at once, announced as
/// "paused"; only a running task goes through `Pausing`, announced as
/// "pause_requested" and waiting for its worker.  No other task can be
/// paused.
pub proof fn law_queued_task_pauses_at_once(prev: SnapshotView, now: u64)
    ensures
        prev.status == TaskStatus::Queued ==> (task_step(prev, TaskCommand::Pause, now) matches Ok((next, event))
            && next.status == TaskStatus::Paused && event == "paused"@),
        prev.status == TaskStatus::Running ==> (task_step(prev, TaskCommand::Pause, now) matches Ok((next, event))
            && next.status == TaskStatus::Pausing && event == "pause_requested"@),
        (task_step(prev, TaskCommand::Pause, now) matches Ok((next, _)) && next.status == TaskStatus::Pausing)
            ==> prev.status == TaskStatus::Running,
        (task_step(prev, TaskCommand::Pause, now) is Ok) == (prev.status == TaskStatus::Queued || prev.status
            == TaskStatus::Running),
{
}

/// A command was accepted, moving the task to `status` with event `event`.
pub open spec fn moves_to(
    step: Result<(SnapshotView, Seq<char>), TaskManagerError>,
    status: TaskStatus,
    event: Seq<char>,
) -> bool {
    step matches Ok((next, name)) && next.status == status && name == event
}

/// The lifecycle of a task, command by command: from which statuses each
/// command is accepted (every other status refuses it), the status it
/// moves the task to and the event it announces.
pub proof fn law_command_transitions(prev: SnapshotView, now: u64, result: String, failure: TaskFailure, preview: String, decision: Option<String>)
    ensures
        (task_step(prev, TaskCommand::Start, now) is Ok) == (prev.status == TaskStatus::Queued),
        prev.status == TaskStatus::Queued ==> moves_to(task_step(prev, TaskCommand::Start, now), TaskStatus::Running, "started"@),
        (task_step(prev, TaskCommand::Resume, now) is Ok) == (prev.status == TaskStatus::Paused || prev.status == TaskStatus::Pausing),
        (prev.status == TaskStatus::Paused || prev.status == TaskStatus::Pausing) ==> moves_to(
            task_step(prev, TaskCommand::Resume, now),
            TaskStatus::Queued,
            "resumed"@,
        ),
        (task_step(prev, TaskCommand::Cancel, now) is Ok) == !(is_terminal(prev.status) || prev.status == TaskStatus::Cancelling),
        (prev.status == TaskStatus::Running || prev.status == TaskStatus::Pausing) ==> moves_to(
            task_step(prev, TaskCommand::Cancel, now),
            TaskStatus::Cancelling,
            "cancel_requested"@,
        ),
        (prev.status == TaskStatus::Queued || prev.status == TaskStatus::Paused || prev.status == TaskStatus::AwaitingConfirmation)
            ==> moves_to(task_step(prev, TaskCommand::Cancel, now), TaskStatus::Cancelled, "cancelled"@),
        (task_step(prev, TaskCommand::AcknowledgeStop, now) is Ok) == (prev.status == TaskStatus::Pausing || prev.status
            == TaskStatus::Cancelling),
        prev.status == TaskStatus::Pausing ==> moves_to(task_step(prev, TaskCommand::AcknowledgeStop, now), TaskStatus::Paused, "paused"@),
        prev.status == TaskStatus::Cancelling ==> moves_to(
            task_step(prev, TaskCommand::AcknowledgeStop, now),
            TaskStatus::Cancelled,
            "cancelled"@,
        ),
        (task_step(prev, TaskCommand::Complete { result }, now) is Ok) == (prev.status == TaskStatus::Running),
        prev.status == TaskStatus::Running ==> moves_to(
            task_step(prev, TaskCommand::Complete { result }, now),
            TaskStatus::Completed,
            "completed"@,
        ),
        (task_step(prev, TaskCommand::Fail { failure }, now) is Ok) == (prev.status == TaskStatus::Queued || prev.status
            == TaskStatus::Running),
        (prev.status == TaskStatus::Queued || prev.status == TaskStatus::Running) ==> moves_to(
            task_step(prev, TaskCommand::Fail { failure }, now),
            TaskStatus::Failed,
            "failed"@,
        ) && task_step(prev, TaskCommand::Fail { failure }, now)->Ok_0.0.error == Some(failure@),
        (task_step(prev, TaskCommand::Retry, now) is Ok) ==> moves_to(task_step(prev, TaskCommand::Retry, now), TaskStatus::Queued, "retried"@),
        (task_step(prev, TaskCommand::AwaitConfirmation { preview }, now) is Ok) == (prev.status == TaskStatus::Running),
        prev.status == TaskStatus::Running ==> moves_to(
            task_step(prev, TaskCommand::AwaitConfirmation { preview }, now),
            TaskStatus::AwaitingConfirmation,
            "confirmation_required"@,
        ) && task_step(prev, TaskCommand::AwaitConfirmation { preview }, now)->Ok_0.0.preview == Some(preview@),
        (task_step(prev, TaskCommand::Confirm, now) is Ok) == (prev.status == TaskStatus::AwaitingConfirmation),
        prev.status == TaskStatus::AwaitingConfirmation ==> moves_to(task_step(prev, TaskCommand::Confirm, now), TaskStatus::Queued, "confirmed"@),
        (task_step(prev, TaskCommand::ConfirmWithDecision { decision }, now) is Ok) == (prev.status
            == TaskStatus::AwaitingConfirmation),
        prev.status == TaskStatus::AwaitingConfirmation ==> moves_to(
            task_step(prev, TaskCommand::ConfirmWithDecision { decision }, now),
            TaskStatus::Running,
            "confirmed"@,
        ),
{
}

/// A running task asked to cancel only becomes `Cancelled` once its worker
/// acknowledges; idle tasks are cancelled at once.
pub proof fn law_cancel_waits_for_running_worker(prev: SnapshotView, asked: u64, acknowledged: u64)
    ensures
        prev.status == TaskStatus::Running ==> {
            &&& task_step(prev, TaskCommand::Cancel, asked)->Ok_0.0.status == TaskStatus::Cancelling
            &&& task_step(
                task_step(prev, TaskCommand::Cancel, asked)->Ok_0.0,
                TaskCommand::AcknowledgeStop,
                acknowledged,
            )->Ok_0.0.status == TaskStatus::Cancelled
        },
        (prev.status == TaskStatus::Queued || prev.status == TaskStatus::Paused || prev.status
            == TaskStatus::AwaitingConfirmation) ==> task_step(
            prev,
            TaskCommand::Cancel,
            asked,
        )->Ok_0.0.status == TaskStatus::Cancelled,
{
}

/// A paused task resumes into the queue.
pub proof fn law_paused_task_resumes_to_queue(prev: SnapshotView, now: u64)
    requires
        prev.status == TaskStatus::Paused,
    ensures
        task_step(prev, TaskCommand::Resume, now) is Ok,
        task_step(prev, TaskCommand::Resume, now)->Ok_0.0.status == TaskStatus::Queued,
{
}

/// Every accepted command advances the revision by one and keeps the
/// task's identity (id, kind, creation time and payload).
pub proof fn law_accepted_commands_advance_revision(
    prev: SnapshotView,
    command: TaskCommand,
    now: u64,
)
    requires
        task_step(prev, command, now) is Ok,
    ensures
        task_step(prev, command, now)->Ok_0.0.revision == vstd::wrapping::u64_specs::wrapping_add(
            prev.revision,
            1,
        ),
        task_step(prev, command, now)->Ok_0.0.updated_at == now,
        task_step(prev, command, now)->Ok_0.0.id == prev.id,
        task_step(prev, command, now)->Ok_0.0.kind == prev.kind,
        task_step(prev, command, now)->Ok_0.0.created_at == prev.created_at,
        task_step(prev, command, now)->Ok_0.0.payload == prev.payload,
{
}

/// Completed and cancelled tasks accept no command; a failed task accepts
/// only a retry, and only when its failure is retryable.
pub proof fn law_finished_tasks_are_final(prev: SnapshotView, command: TaskCommand, now: u64)
    ensures
        (prev.status == TaskStatus::Completed || prev.status == TaskStatus::Cancelled) ==> task_step(
            prev,
            command,
            now,
        ) is Err,
        prev.status == TaskStatus::Failed && task_step(prev, command, now) is Ok ==> command
            == TaskCommand::Retry && (prev.error matches Some(f) && f.retryable),
{
}

/// A rejected command leaves the status named in the error as it was.
pub proof fn law_rejection_reports_current_status(prev: SnapshotView, command: TaskCommand, now: u64)
    requires
        task_step(prev, command, now) is Err,
    ensures
        task_step(prev, command, now)->Err_0 matches TaskManagerError::InvalidTransition { from, to }
            && from == prev.status,
{
}

/// Retrying a failed task clears its failure, result and counters, counts
/// the attempt and puts it back in the queue.
pub proof fn law_retry_requeues_and_counts_attempt(prev: SnapshotView, now: u64)
    requires
        prev.status == TaskStatus::Failed,
        prev.error matches Some(f) && f.retryable,
    ensures
        task_step(prev, TaskCommand::Retry, now) is Ok,
        ({
            let next = task_step(prev, TaskCommand::Retry, now)->Ok_0.0;
            &&& next.status == TaskStatus::Queued
            &&& next.error is None
            &&& next.result is None
            &&& next.completed_items == 0
            &&& next.bytes_processed == 0
            &&& next.attempts == vstd::wrapping::u32_specs::wrapping_add(prev.attempts, 1)
        }),
{
}

/// Completing a running task records the result, marks it fully done and
/// clears any failure.
pub proof fn law_completion_is_terminal_with_result(prev: SnapshotView, result: String, now: u64)
    requires
        prev.status == TaskStatus::Running,
    ensures
        ({
            let next = task_step(prev, TaskCommand::Complete { result }, now)->Ok_0.0;
            &&& next.status == TaskStatus::Completed
            &&& is_terminal(next.status)
            &&& next.result == Some(result@)
            &&& next.error is None
            &&& next.progress == (TaskProgress { completed: 1, total: 1 })
            &&& next.eta_seconds == Some(0u64)
        }),
{
}

/// After start-up recovery no task is left running, pausing or cancelling.
pub proof fn law_recovery_leaves_no_task_in_flight<S: TaskStore>(
    before: TaskManager<S>,
    after: TaskManager<S>,
    id: Seq<char>,
)
    requires
        forall|other: Seq<char>| #[trigger] before.cached(other) is None ==> after.cached(other) is None,
        forall|other: Seq<char>|
            #[trigger] before.cached(other) matches Some(prev) ==> TaskManager::recovered_from(
                after,
                other,
                prev,
            ),
        after.cached(id) is Some,
    ensures
        after.cached(id)->Some_0.status != TaskStatus::Running,
        after.cached(id)->Some_0.status != TaskStatus::Pausing,
        after.cached(id)->Some_0.status != TaskStatus::Cancelling,
{
    assert(before.cached(id) is Some);
}

/// Two changes in a row are announced with consecutive sequence numbers.
pub proof fn law_event_sequences_are_consecutive<S: TaskStore>(
    first: TaskManager<S>,
    second: TaskManager<S>,
    third: TaskManager<S>,
    a: SnapshotView,
    b: SnapshotView,
    name_a: Seq<char>,
    name_b: Seq<char>,
)
    requires
        first.announced(second, a, name_a),
        second.announced(third, b, name_b),
    ensures
        third.pending_events().len() == first.pending_events().len() + 2,
        third.pending_events()[third.pending_events().len() - 1].sequence
            == vstd::wrapping::u64_specs::wrapping_add(
            third.pending_events()[third.pending_events().len() - 2].sequence,
            1,
        ),
        third.pending_events()[third.pending_events().len() - 1].revision == b.revision,
{
}

} // verus!
