//! End-to-end tests of the event lifecycle: tag/task creation, starting and
//! stopping events, and listing running events with hydration.

use rustimenator::model::{
    CreateTagRequest, CreateTaskRequest, CreateTimedEventRequest, LifecycleError, ValidationError,
};
use rustimenator::store::Store;

fn tag_req(name: &str) -> CreateTagRequest {
    CreateTagRequest { name: name.to_string() }
}

fn task_req(task: &str) -> CreateTaskRequest {
    CreateTaskRequest { task: task.to_string() }
}

fn event_req(task_id: i64, tag_ids: Vec<i64>) -> CreateTimedEventRequest {
    CreateTimedEventRequest { tag_ids, task_id }
}

#[test]
fn test_create_tag() {
    let mut store = Store::new();
    let resp = store.create_tag(tag_req("database-tag")).unwrap();
    assert_eq!(resp.id, 1);
    assert_eq!(resp.name, "database-tag");
    assert_eq!(resp.message, "Tag created successfully");

    let listed = store.get_tags();
    assert_eq!(listed.count, 1);
    assert_eq!(listed.tags.len(), 1);
    assert_eq!(listed.tags[0].id, 1);
    assert_eq!(listed.tags[0].name, "database-tag");
    assert!(listed.tags[0].created_at.is_some());
}

#[test]
fn test_create_task() {
    let mut store = Store::new();
    let resp = store.create_task(task_req("database-task")).unwrap();
    assert_eq!(resp.id, 1);
    assert_eq!(resp.task, "database-task");
    assert_eq!(resp.message, "Task created successfully");

    let listed = store.get_tasks();
    assert_eq!(listed.count, 1);
    assert_eq!(listed.tasks.len(), 1);
    assert_eq!(listed.tasks[0].id, 1);
    assert_eq!(listed.tasks[0].task, "database-task");
    assert!(listed.tasks[0].created_at.is_some());
}

#[test]
fn test_create_and_stop_event() {
    let mut store = Store::new();
    let tag = store.create_tag(tag_req("work")).unwrap();
    assert_eq!(tag.id, 1);
    let task = store.create_task(task_req("Write documentation")).unwrap();
    assert_eq!(task.id, 1);

    let started = store.create_event(&event_req(1, vec![1])).unwrap();
    assert_eq!(started.id, 1);
    assert_eq!(started.message, "Event started successfully");

    let listed = store.get_events();
    assert_eq!(listed.count, 1);
    let event = &listed.events[0];
    assert_eq!(event.id, 1);
    assert_eq!(event.task_id, 1);
    assert_eq!(event.task.as_ref().unwrap().task, "Write documentation");
    assert_eq!(event.tags.len(), 1);
    assert_eq!(event.tags[0].name, "work");
    assert!(event.stopped_at.is_none());

    let stopped = store.stop_event(1).unwrap();
    assert_eq!(stopped.id, 1);
    assert_eq!(stopped.message, "Event stopped successfully");
    assert!(stopped.duration_seconds >= 0);

    let listed = store.get_events();
    assert_eq!(listed.count, 0);
    assert!(listed.events.is_empty());
}

#[test]
fn test_create_event_with_multiple_tags() {
    let mut store = Store::new();
    store.create_tag(tag_req("urgent")).unwrap();
    store.create_tag(tag_req("bug-fix")).unwrap();
    store.create_task(task_req("Fix critical bug")).unwrap();

    let started = store.create_event(&event_req(1, vec![1, 2])).unwrap();
    assert_eq!(started.id, 1);
    assert_eq!(started.message, "Event started successfully");

    let listed = store.get_events();
    assert_eq!(listed.count, 1);
    let event = &listed.events[0];
    assert_eq!(event.tags.len(), 2);
    assert_eq!(event.tags[0].name, "urgent");
    assert_eq!(event.tags[1].name, "bug-fix");
}

#[test]
fn test_create_event_with_invalid_task() {
    let mut store = Store::new();
    store.create_tag(tag_req("test-tag")).unwrap();

    let err = store.create_event(&event_req(9999, vec![1])).unwrap_err();
    assert_eq!(err, LifecycleError::Validation(ValidationError::MissingTask));

    // Nothing was persisted.
    let listed = store.get_events();
    assert_eq!(listed.count, 0);
}

#[test]
fn test_create_event_with_invalid_tag() {
    let mut store = Store::new();
    store.create_task(task_req("test-task")).unwrap();

    let err = store.create_event(&event_req(1, vec![9999])).unwrap_err();
    assert_eq!(err, LifecycleError::Validation(ValidationError::MissingTag(9999)));

    let listed = store.get_events();
    assert_eq!(listed.count, 0);
}

#[test]
fn test_stop_non_existent_event() {
    let mut store = Store::new();
    let err = store.stop_event(9999).unwrap_err();
    assert_eq!(err, LifecycleError::NotFound);
}

#[test]
fn test_stop_already_stopped_event() {
    let mut store = Store::new();
    store.create_tag(tag_req("test")).unwrap();
    store.create_task(task_req("test task")).unwrap();
    store.create_event(&event_req(1, vec![1])).unwrap();

    assert!(store.stop_event(1).is_ok());
    // A second stop of the same id fails like a stop of an unknown id.
    assert_eq!(store.stop_event(1).unwrap_err(), LifecycleError::NotFound);
    // And so does a third.
    assert_eq!(store.stop_event(1).unwrap_err(), LifecycleError::NotFound);
}

#[test]
fn test_multiple_running_events() {
    let mut store = Store::new();
    store.create_tag(tag_req("development")).unwrap();
    store.create_tag(tag_req("testing")).unwrap();
    store.create_task(task_req("Implement feature X")).unwrap();
    store.create_task(task_req("Write unit tests")).unwrap();

    let first = store.create_event(&event_req(1, vec![1])).unwrap();
    let second = store.create_event(&event_req(2, vec![2])).unwrap();
    assert_eq!(first.id, 1);
    assert_eq!(second.id, 2);

    // Both run concurrently: no mutual exclusion across tasks.
    let listed = store.get_events();
    assert_eq!(listed.count, 2);
    // Newest created first.
    assert_eq!(listed.events[0].id, 2);
    assert_eq!(listed.events[1].id, 1);

    // Stopping one leaves the other running.
    store.stop_event(1).unwrap();
    let listed = store.get_events();
    assert_eq!(listed.count, 1);
    assert_eq!(listed.events[0].id, 2);
    assert_eq!(listed.events[0].task.as_ref().unwrap().task, "Write unit tests");

    store.stop_event(2).unwrap();
    assert_eq!(store.get_events().count, 0);
}

#[test]
fn test_duration_is_stop_minus_create() {
    let mut store = Store::new();
    store.create_tag_at(tag_req("work"), 5).unwrap();
    store.create_task_at(task_req("Write docs"), 6).unwrap();
    store.create_event_at(&event_req(1, vec![1]), 7).unwrap();

    let stopped = store.stop_event_at(1, 17).unwrap();
    assert_eq!(stopped.duration_seconds, 10);
    // The reported duration is exactly the stored stop time minus the
    // stored creation time.
    assert_eq!(store.events[0].created_at, 7);
    assert_eq!(store.events[0].stopped_at, Some(17));
}

#[test]
fn test_duration_never_negative() {
    let mut store = Store::new();
    store.create_task_at(task_req("Backdated"), 100).unwrap();
    store.create_event_at(&event_req(1, vec![]), 100).unwrap();

    // The wall clock moved backwards between start and stop; the store
    // clock does not, so the duration is clamped at zero, not negative.
    let stopped = store.stop_event_at(1, 50).unwrap();
    assert_eq!(stopped.duration_seconds, 0);
    assert_eq!(store.events[0].stopped_at, Some(100));
}

#[test]
fn test_validation_checks_task_before_tags() {
    let mut store = Store::new();
    // Both references are dangling; the missing task is reported.
    let err = store.create_event(&event_req(7, vec![9])).unwrap_err();
    assert_eq!(err, LifecycleError::Validation(ValidationError::MissingTask));
}

#[test]
fn test_first_missing_tag_is_reported() {
    let mut store = Store::new();
    store.create_tag(tag_req("present")).unwrap();
    store.create_task(task_req("job")).unwrap();
    // Tag ids are checked in request order: 1 exists, 9999 is the first
    // missing one, 8888 is never reached.
    let err = store.create_event(&event_req(1, vec![1, 9999, 8888])).unwrap_err();
    assert_eq!(err, LifecycleError::Validation(ValidationError::MissingTag(9999)));
}

#[test]
fn test_duplicate_tag_name_conflicts() {
    let mut store = Store::new();
    store.create_tag(tag_req("unique")).unwrap();
    let err = store.create_tag(tag_req("unique")).unwrap_err();
    assert_eq!(err, LifecycleError::Conflict);
    // Tasks carry no uniqueness constraint.
    store.create_task(task_req("twice")).unwrap();
    let again = store.create_task(task_req("twice")).unwrap();
    assert_eq!(again.id, 2);
}

#[test]
fn test_error_status_codes() {
    assert_eq!(LifecycleError::Validation(ValidationError::MissingTask).status_code(), 400);
    assert_eq!(LifecycleError::Validation(ValidationError::MissingTag(3)).status_code(), 400);
    assert_eq!(LifecycleError::NotFound.status_code(), 404);
    assert_eq!(LifecycleError::Conflict.status_code(), 409);
    assert_eq!(LifecycleError::Storage.status_code(), 500);
}

#[test]
fn test_event_without_tags() {
    let mut store = Store::new();
    store.create_task(task_req("untagged work")).unwrap();
    store.create_event(&event_req(1, vec![])).unwrap();

    let listed = store.get_events();
    assert_eq!(listed.count, 1);
    assert!(listed.events[0].tags.is_empty());
    assert_eq!(listed.events[0].task.as_ref().unwrap().task, "untagged work");
}

#[test]
fn test_listings_are_newest_first() {
    let mut store = Store::new();
    store.create_tag(tag_req("first")).unwrap();
    store.create_tag(tag_req("second")).unwrap();
    store.create_task(task_req("older")).unwrap();
    store.create_task(task_req("newer")).unwrap();

    let tags = store.get_tags();
    assert_eq!(tags.tags[0].name, "second");
    assert_eq!(tags.tags[1].name, "first");

    let tasks = store.get_tasks();
    assert_eq!(tasks.tasks[0].task, "newer");
    assert_eq!(tasks.tasks[1].task, "older");
}

#[test]
fn test_validate_has_no_side_effects() {
    let mut store = Store::new();
    store.create_tag(tag_req("t")).unwrap();
    store.create_task(task_req("w")).unwrap();
    assert!(store.validate(1, &vec![1]).is_ok());
    assert_eq!(store.validate(2, &vec![1]).unwrap_err(), ValidationError::MissingTask);
    assert_eq!(store.validate(1, &vec![2]).unwrap_err(), ValidationError::MissingTag(2));
    // No rows appeared.
    assert_eq!(store.get_tags().count, 1);
    assert_eq!(store.get_tasks().count, 1);
    assert_eq!(store.get_events().count, 0);
}

#[test]
fn test_listing_skips_stopped_events_and_keeps_order() {
    let mut store = Store::new();
    store.create_task(task_req("w")).unwrap();
    store.create_event(&event_req(1, vec![])).unwrap();
    store.create_event(&event_req(1, vec![])).unwrap();
    store.create_event(&event_req(1, vec![])).unwrap();

    // Stopping the middle event leaves the newest and the oldest running,
    // still newest first.
    store.stop_event(2).unwrap();
    let listed = store.get_events();
    assert_eq!(listed.count, 2);
    assert_eq!(listed.events[0].id, 3);
    assert_eq!(listed.events[1].id, 1);
    assert!(listed.events.iter().all(|e| e.stopped_at.is_none()));
}

#[test]
fn test_tags_stay_fixed_after_creation() {
    let mut store = Store::new();
    store.create_tag(tag_req("a")).unwrap();
    store.create_tag(tag_req("b")).unwrap();
    store.create_task(task_req("w")).unwrap();
    store.create_event(&event_req(1, vec![2, 1])).unwrap();

    // A later event with its own tags does not disturb the first one's
    // tag list or its order.
    store.create_event(&event_req(1, vec![1])).unwrap();
    let tags = store.list_tags_for(1);
    assert_eq!(tags.len(), 2);
    assert_eq!(tags[0].name, "b");
    assert_eq!(tags[1].name, "a");
}
