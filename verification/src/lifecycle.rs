//! Event Lifecycle Service: the operations the boundary layer calls. Each
//! one reads the wall clock once and then performs the corresponding store
//! transition, which is specified exactly in the observed time; here the
//! contracts state everything that holds whatever the clock returned.

use vstd::prelude::*;

use crate::model::{
    CreateTagRequest, CreateTagResponse, CreateTaskRequest, CreateTaskResponse,
    CreateTimedEventRequest, CreateTimedEventResponse, LifecycleError, StopEventResponse,
};
use crate::store::Store;

verus! {

/// Relies on chrono::Utc::now and chrono::DateTime::timestamp: the current
/// time as whole seconds since the epoch. Nothing is promised of the value;
/// the callers state what holds of every outcome. Aborts if the system
/// clock is set before the epoch.
#[verifier::external_body]
fn now_seconds() -> (r: i64) {
    chrono::Utc::now().timestamp()
}

impl Store {
    /// Creates a tag named by the request, timestamped with the current
    /// time; rejected with a conflict when the name is already taken.
    pub fn create_tag(&mut self, req: CreateTagRequest) -> (r: Result<
        CreateTagResponse,
        LifecycleError,
    >)
        requires
            old(self)@.wf(),
        ensures
            final(self)@.wf(),
            r is Ok <==> (!old(self)@.has_tag_name(req.name@) && old(self)@.tags.len()
                < i64::MAX),
            (r matches Ok(resp) ==> {
                &&& resp.id == old(self)@.tags.len() + 1
                &&& resp.name == req.name
                &&& resp.message@ == "Tag created successfully"@
                &&& exists|now: i64| final(self)@ == old(self)@.tag_added(req.name, now)
            }),
            (r matches Err(e) ==> {
                &&& final(self)@ == old(self)@
                &&& e == (if old(self)@.has_tag_name(req.name@) {
                    LifecycleError::Conflict
                } else {
                    LifecycleError::Storage
                })
            }),
    {
        let now = now_seconds();
        let r = self.create_tag_at(req, now);
        proof {
            if r is Ok {
                assert(self@ == old(self)@.tag_added(r->Ok_0.name, now));
            }
        }
        r
    }

    /// Creates a task described by the request, timestamped with the
    /// current time.
    pub fn create_task(&mut self, req: CreateTaskRequest) -> (r: Result<
        CreateTaskResponse,
        LifecycleError,
    >)
        requires
            old(self)@.wf(),
        ensures
            final(self)@.wf(),
            r is Ok <==> old(self)@.tasks.len() < i64::MAX,
            (r matches Ok(resp) ==> {
                &&& resp.id == old(self)@.tasks.len() + 1
                &&& resp.task == req.task
                &&& resp.message@ == "Task created successfully"@
                &&& exists|now: i64| final(self)@ == old(self)@.task_added(req.task, now)
            }),
            (r matches Err(e) ==> e == LifecycleError::Storage && final(self)@ == old(self)@),
    {
        let now = now_seconds();
        let r = self.create_task_at(req, now);
        proof {
            if r is Ok {
                assert(self@ == old(self)@.task_added(r->Ok_0.task, now));
            }
        }
        r
    }

    /// Starts an event at the current time: validation and the multi-row
    /// write happen as one atomic unit against this store — on any error
    /// the store is unchanged, and whether the request is accepted does not
    /// depend on the clock.
    pub fn create_event(&mut self, req: &CreateTimedEventRequest) -> (r: Result<
        CreateTimedEventResponse,
        LifecycleError,
    >)
        requires
            old(self)@.wf(),
        ensures
            final(self)@.wf(),
            r is Ok <==> (old(self)@.start_validation(req.task_id, req.tag_ids@) is None
                && old(self)@.events.len() < i64::MAX),
            (r matches Ok(resp) ==> {
                &&& resp.id == old(self)@.new_event_id()
                &&& resp.message@ == "Event started successfully"@
                &&& exists|now: i64|
                    final(self)@ == old(self)@.start_applied(req.task_id, req.tag_ids@, now)
            }),
            (r matches Err(e) ==> {
                &&& final(self)@ == old(self)@
                &&& e == (match old(self)@.start_validation(req.task_id, req.tag_ids@) {
                    Some(ve) => LifecycleError::Validation(ve),
                    None => LifecycleError::Storage,
                })
            }),
    {
        let now = now_seconds();
        let r = self.create_event_at(req, now);
        proof {
            if r is Ok {
                assert(self@ == old(self)@.start_applied(req.task_id, req.tag_ids@, now));
            }
        }
        r
    }

    /// Stops an event at the current time: one atomic conditional
    /// transition, so of concurrent stop requests on one id exactly the one
    /// that finds the row still running succeeds. The reported duration is
    /// the stored stop time minus the stored creation time, never negative.
    pub fn stop_event(&mut self, event_id: i64) -> (r: Result<
        StopEventResponse,
        LifecycleError,
    >)
        requires
            old(self)@.wf(),
        ensures
            final(self)@.wf(),
            r is Ok <==> old(self)@.event_open(event_id),
            (r matches Ok(resp) ==> {
                &&& resp.id == event_id
                &&& resp.message@ == "Event stopped successfully"@
                &&& resp.duration_seconds >= 0
                &&& final(self)@.events[event_id - 1].stopped_at matches Some(s)
                    && resp.duration_seconds == s - old(self)@.events[event_id - 1].created_at
                &&& !final(self)@.event_open(event_id)
                &&& exists|now: i64| final(self)@ == old(self)@.stop_applied(event_id, now)
            }),
            (r matches Err(e) ==> e == LifecycleError::NotFound && final(self)@ == old(self)@),
    {
        let now = now_seconds();
        let r = self.stop_event_at(event_id, now);
        proof {
            if r is Ok {
                assert(self@ == old(self)@.stop_applied(event_id, now));
            }
        }
        r
    }
}

} // verus!
