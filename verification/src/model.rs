//! Data model of the time-tracking core: tags, tasks, timed events, the
//! associative event-tag relation, the request/response shapes of the
//! boundary layer, and the error taxonomy.

use vstd::prelude::*;

verus! {

/// A user-defined label attachable to events. Immutable after creation.
#[derive(Debug, Clone)]
pub struct Tag {
    pub id: i64,
    pub name: String,
    /// Seconds since the epoch; always present for rows this core creates.
    pub created_at: Option<i64>,
}

/// A unit of work an event records time against. Immutable after creation.
#[derive(Debug, Clone)]
pub struct Task {
    pub id: i64,
    pub task: String,
    /// Seconds since the epoch; always present for rows this core creates.
    pub created_at: Option<i64>,
}

/// A stored event row: a time interval against one task, open while
/// `stopped_at` is `None`. Once `stopped_at` is set the row is terminal.
#[derive(Debug, Clone, Copy, PartialEq, Eq, Structural)]
pub struct EventRow {
    pub id: i64,
    pub task_id: i64,
    /// Seconds since the epoch.
    pub created_at: i64,
    /// `None` while the event is running; set exactly once by a stop.
    pub stopped_at: Option<i64>,
}

/// One row of the many-to-many relation between events and tags,
/// created only at event-creation time and never mutated.
#[derive(Debug, Clone, Copy, PartialEq, Eq, Structural)]
pub struct EventTagLink {
    pub event_id: i64,
    pub tag_id: i64,
}

/// A read-time view of an event with its referenced task and tags attached.
#[derive(Debug)]
pub struct TimedEvent {
    pub id: i64,
    pub task_id: i64,
    pub task: Option<Task>,
    pub tags: Vec<Tag>,
    pub created_at: Option<i64>,
    pub stopped_at: Option<i64>,
}

#[derive(Debug)]
pub struct CreateTagRequest {
    pub name: String,
}

#[derive(Debug)]
pub struct CreateTaskRequest {
    pub task: String,
}

#[derive(Debug)]
pub struct CreateTagResponse {
    pub id: i64,
    pub name: String,
    pub message: String,
}

#[derive(Debug)]
pub struct CreateTaskResponse {
    pub id: i64,
    pub task: String,
    pub message: String,
}

#[derive(Debug)]
pub struct GetTagsResponse {
    pub tags: Vec<Tag>,
    pub count: usize,
}

#[derive(Debug)]
pub struct GetTasksResponse {
    pub tasks: Vec<Task>,
    pub count: usize,
}

#[derive(Debug)]
pub struct CreateTimedEventRequest {
    pub tag_ids: Vec<i64>,
    pub task_id: i64,
}

#[derive(Debug)]
pub struct CreateTimedEventResponse {
    pub id: i64,
    pub message: String,
}

#[derive(Debug)]
pub struct GetEventsResponse {
    pub events: Vec<TimedEvent>,
    pub count: usize,
}

#[derive(Debug)]
pub struct StopEventResponse {
    pub id: i64,
    pub message: String,
    pub duration_seconds: i64,
}

/// Why a start request was rejected before anything was written.
#[derive(Debug, Clone, Copy, PartialEq, Eq, Structural)]
pub enum ValidationError {
    /// The requested task id references no stored task.
    MissingTask,
    /// The carried id is the first requested tag id that references no
    /// stored tag.
    MissingTag(i64),
}

/// The error taxonomy of the lifecycle core.
#[derive(Debug, Clone, Copy, PartialEq, Eq, Structural)]
pub enum LifecycleError {
    /// A referential check failed; nothing was written.
    Validation(ValidationError),
    /// The stop target does not exist or is already stopped; the two cases
    /// are indistinguishable to the caller by design.
    NotFound,
    /// A unique constraint was violated.
    Conflict,
    /// Any other persistence failure; the operation left no partial writes.
    Storage,
}

impl LifecycleError {
    /// The boundary status code each error kind maps to.
    pub fn status_code(&self) -> (r: u16)
        ensures
            r == match *self {
                LifecycleError::Validation(_) => 400u16,
                LifecycleError::NotFound => 404u16,
                LifecycleError::Conflict => 409u16,
                LifecycleError::Storage => 500u16,
            },
    {
        match self {
            LifecycleError::Validation(_) => 400,
            LifecycleError::NotFound => 404,
            LifecycleError::Conflict => 409,
            LifecycleError::Storage => 500,
        }
    }
}

} // verus!
