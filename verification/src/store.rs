//! The event store: owns the tag, task, event and event-tag relations and
//! provides validated atomic event creation, the atomic running-to-stopped
//! transition, and the hydrated listing of currently-open events.
//!
//! Every operation takes the current time as an explicit argument, so each
//! is a deterministic, fully specified transition on the store state.

use vstd::prelude::*;

use crate::model::{
    CreateTagRequest, CreateTagResponse, CreateTaskRequest, CreateTaskResponse,
    CreateTimedEventRequest, CreateTimedEventResponse, EventRow, EventTagLink, GetEventsResponse,
    GetTagsResponse, GetTasksResponse, LifecycleError, StopEventResponse, Tag, Task, TimedEvent,
    ValidationError,
};

verus! {

broadcast use vstd::string::group_string_axioms;

/// The mathematical state of a store: the four relations and the largest
/// timestamp the store has seen (all rows carry timestamps bounded by it).
#[verifier::ext_equal]
pub ghost struct StoreView {
    pub tags: Seq<Tag>,
    pub tasks: Seq<Task>,
    pub events: Seq<EventRow>,
    pub links: Seq<EventTagLink>,
    pub clock: int,
}

impl StoreView {
    /// A task row with this id exists. Ids are assigned densely from 1 in
    /// creation order, so existence is a range check (see
    /// `lemma_has_task_means_row`).
    pub open spec fn has_task(self, id: i64) -> bool {
        1 <= id <= self.tasks.len()
    }

    /// A tag row with this id exists.
    pub open spec fn has_tag(self, id: i64) -> bool {
        1 <= id <= self.tags.len()
    }

    /// An event row with this id exists.
    pub open spec fn has_event(self, id: i64) -> bool {
        1 <= id <= self.events.len()
    }

    /// A tag with exactly this name is already stored.
    pub open spec fn has_tag_name(self, name: Seq<char>) -> bool {
        exists|i: int| 0 <= i < self.tags.len() && (#[trigger] self.tags[i]).name@ == name
    }

    /// The event with this id exists and is still running.
    pub open spec fn event_open(self, event_id: i64) -> bool {
        &&& self.has_event(event_id)
        &&& self.events[event_id - 1].stopped_at is None
    }

    /// Well-formedness: ids are dense and positional, every timestamp lies
    /// between zero and the clock, timestamps never decrease along creation
    /// order, tag names are unique, a stop time never precedes the creation
    /// time, and the relations are referentially intact.
    pub open spec fn wf(self) -> bool {
        &&& 0 <= self.clock <= i64::MAX
        &&& self.tags.len() <= i64::MAX
        &&& self.tasks.len() <= i64::MAX
        &&& self.events.len() <= i64::MAX
        &&& forall|i: int| 0 <= i < self.tags.len() ==> (#[trigger] self.tags[i]).id == i + 1
        &&& forall|i: int| 0 <= i < self.tags.len()
            ==> ((#[trigger] self.tags[i]).created_at matches Some(t) && 0 <= t <= self.clock)
        &&& forall|i: int, j: int| #![trigger self.tags[i], self.tags[j]]
            0 <= i < j < self.tags.len() ==> self.tags[i].name@ != self.tags[j].name@
        &&& forall|i: int| 0 <= i < self.tasks.len() ==> (#[trigger] self.tasks[i]).id == i + 1
        &&& forall|i: int| 0 <= i < self.tasks.len()
            ==> ((#[trigger] self.tasks[i]).created_at matches Some(t) && 0 <= t <= self.clock)
        &&& forall|i: int| 0 <= i < self.events.len() ==> (#[trigger] self.events[i]).id == i + 1
        &&& forall|i: int| 0 <= i < self.events.len()
            ==> self.has_task((#[trigger] self.events[i]).task_id)
        &&& forall|i: int| 0 <= i < self.events.len()
            ==> 0 <= (#[trigger] self.events[i]).created_at <= self.clock
        &&& forall|i: int| 0 <= i < self.events.len()
            ==> ((#[trigger] self.events[i]).stopped_at matches Some(s)
                ==> self.events[i].created_at <= s <= self.clock)
        &&& forall|i: int, j: int| #![trigger self.events[i], self.events[j]]
            0 <= i < j < self.events.len()
            ==> self.events[i].created_at <= self.events[j].created_at
        &&& forall|i: int| 0 <= i < self.links.len()
            ==> self.has_event((#[trigger] self.links[i]).event_id)
                && self.has_tag(self.links[i].tag_id)
    }

    /// The clock after an operation that observed `now`: the clock never
    /// moves backwards, so timestamps are monotone along creation order.
    pub open spec fn advanced(self, now: i64) -> int {
        if now > self.clock {
            now as int
        } else {
            self.clock
        }
    }

    /// The first requested tag id that references no stored tag, in request
    /// order, if any.
    pub open spec fn first_missing_tag(self, tag_ids: Seq<i64>) -> Option<i64>
        decreases tag_ids.len(),
    {
        if tag_ids.len() == 0 {
            None
        } else if !self.has_tag(tag_ids[0]) {
            Some(tag_ids[0])
        } else {
            self.first_missing_tag(tag_ids.drop_first())
        }
    }

    /// The outcome of the referential checks a start request must pass:
    /// the task is checked first, then the tags in request order.
    pub open spec fn start_validation(self, task_id: i64, tag_ids: Seq<i64>) -> Option<
        ValidationError,
    > {
        if !self.has_task(task_id) {
            Some(ValidationError::MissingTask)
        } else {
            match self.first_missing_tag(tag_ids) {
                Some(tid) => Some(ValidationError::MissingTag(tid)),
                None => None,
            }
        }
    }

    /// The id the next created event receives.
    pub open spec fn new_event_id(self) -> int {
        self.events.len() as int + 1
    }

    /// The state after a successful start: one new running event row and one
    /// link row per requested tag id, in request order; nothing else changes.
    pub open spec fn start_applied(self, task_id: i64, tag_ids: Seq<i64>, now: i64) -> StoreView {
        let t = self.advanced(now);
        let id = self.new_event_id() as i64;
        StoreView {
            events: self.events.push(
                EventRow { id, task_id, created_at: t as i64, stopped_at: None },
            ),
            links: self.links + tag_ids.map(|k: int, tid: i64| EventTagLink { event_id: id, tag_id: tid }),
            clock: t,
            ..self
        }
    }

    /// The state after a successful stop: the one row flips from running to
    /// stopped, timestamped with the advanced clock; nothing else changes.
    pub open spec fn stop_applied(self, event_id: i64, now: i64) -> StoreView {
        let t = self.advanced(now);
        let e = self.events[event_id - 1];
        StoreView {
            events: self.events.update(
                event_id - 1,
                EventRow { stopped_at: Some(t as i64), ..e },
            ),
            clock: t,
            ..self
        }
    }

    /// The ids of the tags linked to this event among the first `n` link
    /// rows, in link order — the order the tags were requested in when the
    /// event was created.
    pub open spec fn event_tag_ids_upto(self, event_id: i64, n: int) -> Seq<i64>
        decreases n,
    {
        if n <= 0 {
            Seq::empty()
        } else {
            let rest = self.event_tag_ids_upto(event_id, n - 1);
            if self.links[n - 1].event_id == event_id {
                rest.push(self.links[n - 1].tag_id)
            } else {
                rest
            }
        }
    }

    /// The ids of the tags linked to this event, in link order.
    pub open spec fn event_tag_ids(self, event_id: i64) -> Seq<i64> {
        self.event_tag_ids_upto(event_id, self.links.len() as int)
    }

    /// The tag rows linked to this event among the first `n` link rows, in
    /// link order.
    pub open spec fn tags_of_event_upto(self, event_id: i64, n: int) -> Seq<Tag> {
        self.event_tag_ids_upto(event_id, n).map(|k: int, tid: i64| self.tags[tid - 1])
    }

    /// The tag rows linked to this event, in link order.
    pub open spec fn tags_of_event(self, event_id: i64) -> Seq<Tag> {
        self.tags_of_event_upto(event_id, self.links.len() as int)
    }

    /// The still-running events among those with index at least `n`, newest
    /// created (that is, highest index) first.
    pub open spec fn open_desc_from(self, n: int) -> Seq<EventRow>
        decreases self.events.len() - n,
    {
        if n < 0 || n >= self.events.len() {
            Seq::empty()
        } else {
            let rest = self.open_desc_from(n + 1);
            if self.events[n].stopped_at is None {
                rest.push(self.events[n])
            } else {
                rest
            }
        }
    }

    /// All still-running events, newest created first.
    pub open spec fn open_events_desc(self) -> Seq<EventRow> {
        self.open_desc_from(0)
    }

    /// How many events are currently running.
    pub open spec fn open_count(self) -> int {
        self.open_events_desc().len() as int
    }

    /// `te` is the hydrated read-time view of the stored row `e`: the same
    /// event fields, the referenced task attached when it exists, and the
    /// full linked tag list in link order.
    pub open spec fn hydrates(self, e: EventRow, te: TimedEvent) -> bool {
        &&& te.id == e.id
        &&& te.task_id == e.task_id
        &&& te.created_at == Some(e.created_at)
        &&& te.stopped_at == e.stopped_at
        &&& if self.has_task(e.task_id) {
            te.task matches Some(t) && t == self.tasks[e.task_id - 1]
        } else {
            te.task is None
        }
        &&& te.tags@ == self.tags_of_event(e.id)
    }

    /// The state after a successful tag creation: one new tag row;
    /// nothing else changes.
    pub open spec fn tag_added(self, name: String, now: i64) -> StoreView {
        let t = self.advanced(now);
        StoreView {
            tags: self.tags.push(
                Tag { id: (self.tags.len() as int + 1) as i64, name, created_at: Some(t as i64) },
            ),
            clock: t,
            ..self
        }
    }

    /// The state after a successful task creation: one new task row;
    /// nothing else changes.
    pub open spec fn task_added(self, task: String, now: i64) -> StoreView {
        let t = self.advanced(now);
        StoreView {
            tasks: self.tasks.push(
                Task { id: (self.tasks.len() as int + 1) as i64, task, created_at: Some(t as i64) },
            ),
            clock: t,
            ..self
        }
    }

    /// The store with no rows and the clock at zero.
    pub open spec fn empty() -> StoreView {
        StoreView {
            tags: Seq::empty(),
            tasks: Seq::empty(),
            events: Seq::empty(),
            links: Seq::empty(),
            clock: 0,
        }
    }
}

impl StoreView {
    /// Checking a prefix of the tag ids and finding every one present moves
    /// the search for the first missing id past that prefix.
    pub proof fn lemma_first_missing_prefix(self, s: Seq<i64>, i: int)
        requires
            0 <= i <= s.len(),
            forall|k: int| 0 <= k < i ==> self.has_tag(#[trigger] s[k]),
        ensures
            self.first_missing_tag(s) == self.first_missing_tag(s.skip(i)),
        decreases i,
    {
        if i == 0 {
            assert(s.skip(0) =~= s);
        } else {
            assert(self.has_tag(s[0]));
            assert(s.drop_first() =~= s.skip(1));
            assert forall|k: int| 0 <= k < i - 1 implies self.has_tag(#[trigger] s.skip(1)[k]) by {
                assert(s.skip(1)[k] == s[k + 1]);
            }
            self.lemma_first_missing_prefix(s.skip(1), i - 1);
            assert(s.skip(1).skip(i - 1) =~= s.skip(i));
        }
    }

    /// Every entry of the open-events listing is a still-running row of the
    /// event relation (with an index at least `n`).
    pub proof fn lemma_open_desc_entries(self, n: int)
        ensures
            forall|k: int| 0 <= k < self.open_desc_from(n).len()
                ==> (#[trigger] self.open_desc_from(n)[k]).stopped_at is None
                    && exists|j: int|
                        n <= j < self.events.len() && self.events[j] == self.open_desc_from(n)[k],
        decreases self.events.len() - n,
    {
        if 0 <= n < self.events.len() {
            self.lemma_open_desc_entries(n + 1);
            let rest = self.open_desc_from(n + 1);
            assert forall|k: int| 0 <= k < self.open_desc_from(n).len() implies (
                #[trigger] self.open_desc_from(n)[k]).stopped_at is None && exists|j: int|
                n <= j < self.events.len() && self.events[j] == self.open_desc_from(n)[k] by {
                if k < rest.len() {
                    assert(self.open_desc_from(n)[k] == rest[k]);
                    let j = choose|j: int|
                        n + 1 <= j < self.events.len() && self.events[j] == rest[k];
                    assert(n <= j < self.events.len() && self.events[j] == self.open_desc_from(
                        n,
                    )[k]);
                } else {
                    assert(self.open_desc_from(n)[k] == self.events[n]);
                }
            }
        }
    }

    /// Every still-running row of the event relation (with an index at least
    /// `n`) appears in the open-events listing.
    pub proof fn lemma_open_desc_contains(self, n: int, j: int)
        requires
            0 <= n <= j < self.events.len(),
            self.events[j].stopped_at is None,
        ensures
            self.open_desc_from(n).contains(self.events[j]),
        decreases j - n,
    {
        let rest = self.open_desc_from(n + 1);
        if j == n {
            assert(self.open_desc_from(n)[rest.len() as int] == self.events[n]);
        } else {
            self.lemma_open_desc_contains(n + 1, j);
            let i = choose|i: int| 0 <= i < rest.len() && rest[i] == self.events[j];
            assert(self.open_desc_from(n)[i] == self.events[j]);
        }
    }

    /// When no tag id is reported missing, every requested tag id is present.
    pub proof fn lemma_first_missing_none_all_present(self, s: Seq<i64>)
        requires
            self.first_missing_tag(s) is None,
        ensures
            forall|k: int| 0 <= k < s.len() ==> self.has_tag(#[trigger] s[k]),
        decreases s.len(),
    {
        if s.len() > 0 {
            self.lemma_first_missing_none_all_present(s.drop_first());
            assert forall|k: int| 0 <= k < s.len() implies self.has_tag(#[trigger] s[k]) by {
                if k > 0 {
                    assert(s.drop_first()[k - 1] == s[k]);
                }
            }
        }
    }
}

/// Under well-formedness, `has_task` says exactly that a row with the id
/// exists in the task relation.
pub proof fn lemma_has_task_means_row(v: StoreView, id: i64)
    requires
        v.wf(),
    ensures
        v.has_task(id) <==> exists|i: int|
            0 <= i < v.tasks.len() && (#[trigger] v.tasks[i]).id == id,
{
    if v.has_task(id) {
        assert(v.tasks[id - 1].id == id);
    }
}

/// Under well-formedness, `has_tag` says exactly that a row with the id
/// exists in the tag relation.
pub proof fn lemma_has_tag_means_row(v: StoreView, id: i64)
    requires
        v.wf(),
    ensures
        v.has_tag(id) <==> exists|i: int|
            0 <= i < v.tags.len() && (#[trigger] v.tags[i]).id == id,
{
    if v.has_tag(id) {
        assert(v.tags[id - 1].id == id);
    }
}

/// The in-memory store. Ids are row numbers starting at one, in creation
/// order; the clock field carries the largest timestamp seen so far.
pub struct Store {
    pub tags: Vec<Tag>,
    pub tasks: Vec<Task>,
    pub events: Vec<EventRow>,
    pub links: Vec<EventTagLink>,
    pub clock: i64,
}

impl View for Store {
    type V = StoreView;

    open spec fn view(&self) -> StoreView {
        StoreView {
            tags: self.tags@,
            tasks: self.tasks@,
            events: self.events@,
            links: self.links@,
            clock: self.clock as int,
        }
    }
}

impl Store {
    /// A store with no rows.
    pub fn new() -> (r: Store)
        ensures
            r@ == StoreView::empty(),
            r@.wf(),
    {
        let r = Store {
            tags: Vec::new(),
            tasks: Vec::new(),
            events: Vec::new(),
            links: Vec::new(),
            clock: 0,
        };
        proof {
            assert(r@ =~= StoreView::empty());
        }
        r
    }

    /// Creates a tag: rejected with a conflict when the name is already
    /// taken (tag names are unique); otherwise appends one tag row.
    pub fn create_tag_at(&mut self, req: CreateTagRequest, now: i64) -> (r: Result<
        CreateTagResponse,
        LifecycleError,
    >)
        requires
            old(self)@.wf(),
        ensures
            final(self)@.wf(),
            r is Ok <==> (!old(self)@.has_tag_name(req.name@) && old(self)@.tags.len()
                < i64::MAX),
            (r matches Ok(resp) ==> {
                &&& resp.id == old(self)@.tags.len() + 1
                &&& resp.name == req.name
                &&& resp.message@ == "Tag created successfully"@
                &&& final(self)@ == old(self)@.tag_added(req.name, now)
            }),
            (r matches Err(e) ==> {
                &&& final(self)@ == old(self)@
                &&& e == (if old(self)@.has_tag_name(req.name@) {
                    LifecycleError::Conflict
                } else {
                    LifecycleError::Storage
                })
            }),
    {
        let mut i: usize = 0;
        while i < self.tags.len()
            invariant
                self@.wf(),
                i <= self.tags.len(),
                forall|k: int| 0 <= k < i ==> (#[trigger] self@.tags[k]).name@ != req.name@,
            decreases self.tags.len() - i,
        {
            if self.tags[i].name == req.name {
                proof {
                    assert(self@.tags[i as int].name@ == req.name@);
                }
                return Err(LifecycleError::Conflict);
            }
            i += 1;
        }
        if self.tags.len() as u64 >= i64::MAX as u64 {
            return Err(LifecycleError::Storage);
        }
        let eff: i64 = if now > self.clock {
            now
        } else {
            self.clock
        };
        let id: i64 = self.tags.len() as i64 + 1;
        self.clock = eff;
        let stored_name = req.name.clone();
        self.tags.push(Tag { id, name: stored_name, created_at: Some(eff) });
        proof {
            assert(self@ =~= old(self)@.tag_added(req.name, now));
            assert(self@.wf()) by {
                assert forall|a: int| 0 <= a < self@.tags.len() implies (
                #[trigger] self@.tags[a]).id == a + 1 by {
                    if a < old(self)@.tags.len() {
                        assert(self@.tags[a] == old(self)@.tags[a]);
                    }
                }
            }
        }
        Ok(CreateTagResponse { id, name: req.name, message: "Tag created successfully".to_string() })
    }

    /// Creates a task: appends one task row (task descriptions carry no
    /// uniqueness constraint).
    pub fn create_task_at(&mut self, req: CreateTaskRequest, now: i64) -> (r: Result<
        CreateTaskResponse,
        LifecycleError,
    >)
        requires
            old(self)@.wf(),
        ensures
            final(self)@.wf(),
            r is Ok <==> old(self)@.tasks.len() < i64::MAX,
            (r matches Ok(resp) ==> {
                &&& resp.id == old(self)@.tasks.len() + 1
                &&& resp.task == req.task
                &&& resp.message@ == "Task created successfully"@
                &&& final(self)@ == old(self)@.task_added(req.task, now)
            }),
            (r matches Err(e) ==> e == LifecycleError::Storage && final(self)@ == old(self)@),
    {
        if self.tasks.len() as u64 >= i64::MAX as u64 {
            return Err(LifecycleError::Storage);
        }
        let eff: i64 = if now > self.clock {
            now
        } else {
            self.clock
        };
        let id: i64 = self.tasks.len() as i64 + 1;
        self.clock = eff;
        let stored_task = req.task.clone();
        self.tasks.push(Task { id, task: stored_task, created_at: Some(eff) });
        proof {
            assert(self@ =~= old(self)@.task_added(req.task, now));
            assert(self@.wf()) by {
                assert forall|a: int| 0 <= a < self@.tasks.len() implies (
                #[trigger] self@.tasks[a]).id == a + 1 by {
                    if a < old(self)@.tasks.len() {
                        assert(self@.tasks[a] == old(self)@.tasks[a]);
                    }
                }
            }
        }
        Ok(
            CreateTaskResponse {
                id,
                task: req.task,
                message: "Task created successfully".to_string(),
            },
        )
    }

    /// Lists all tags, newest created first.
    pub fn get_tags(&self) -> (r: GetTagsResponse)
        requires
            self@.wf(),
        ensures
            r.count == r.tags@.len(),
            r.tags@.len() == self@.tags.len(),
            forall|k: int| 0 <= k < r.tags@.len() ==> #[trigger] r.tags@[k] == self@.tags[
                self@.tags.len() - 1 - k
            ],
    {
        let mut tags: Vec<Tag> = Vec::new();
        let mut idx: usize = self.tags.len();
        while idx > 0
            invariant
                self@.wf(),
                idx <= self.tags.len(),
                tags@.len() == self@.tags.len() - idx,
                forall|k: int| 0 <= k < tags@.len() ==> #[trigger] tags@[k] == self@.tags[
                    self@.tags.len() - 1 - k
                ],
            decreases idx,
        {
            idx -= 1;
            let t = &self.tags[idx];
            tags.push(Tag { id: t.id, name: t.name.clone(), created_at: t.created_at });
        }
        let count: usize = tags.len();
        GetTagsResponse { tags, count }
    }

    /// Lists all tasks, newest created first.
    pub fn get_tasks(&self) -> (r: GetTasksResponse)
        requires
            self@.wf(),
        ensures
            r.count == r.tasks@.len(),
            r.tasks@.len() == self@.tasks.len(),
            forall|k: int| 0 <= k < r.tasks@.len() ==> #[trigger] r.tasks@[k] == self@.tasks[
                self@.tasks.len() - 1 - k
            ],
    {
        let mut tasks: Vec<Task> = Vec::new();
        let mut idx: usize = self.tasks.len();
        while idx > 0
            invariant
                self@.wf(),
                idx <= self.tasks.len(),
                tasks@.len() == self@.tasks.len() - idx,
                forall|k: int| 0 <= k < tasks@.len() ==> #[trigger] tasks@[k] == self@.tasks[
                    self@.tasks.len() - 1 - k
                ],
            decreases idx,
        {
            idx -= 1;
            let t = &self.tasks[idx];
            tasks.push(Task { id: t.id, task: t.task.clone(), created_at: t.created_at });
        }
        let count: usize = tasks.len();
        GetTasksResponse { tasks, count }
    }

    /// Reference Validator: checks that the task id and every requested tag
    /// id reference stored rows. The task is checked first, then the tag ids
    /// in request order; the first absent tag id is the one reported. No
    /// side effects.
    pub fn validate(&self, task_id: i64, tag_ids: &Vec<i64>) -> (r: Result<(), ValidationError>)
        requires
            self@.wf(),
        ensures
            match r {
                Ok(()) => self@.start_validation(task_id, tag_ids@) is None,
                Err(ve) => self@.start_validation(task_id, tag_ids@) == Some(ve),
            },
    {
        if task_id < 1 || task_id > self.tasks.len() as i64 {
            return Err(ValidationError::MissingTask);
        }
        let mut i: usize = 0;
        while i < tag_ids.len()
            invariant
                self@.wf(),
                self@.has_task(task_id),
                i <= tag_ids.len(),
                forall|k: int| 0 <= k < i ==> self@.has_tag(#[trigger] tag_ids@[k]),
            decreases tag_ids.len() - i,
        {
            let tid = tag_ids[i];
            if tid < 1 || tid > self.tags.len() as i64 {
                proof {
                    self@.lemma_first_missing_prefix(tag_ids@, i as int);
                    let rest = tag_ids@.skip(i as int);
                    assert(rest.len() == tag_ids@.len() - i);
                    assert(rest[0] == tag_ids@[i as int]);
                    assert(!self@.has_tag(rest[0]));
                    assert(self@.first_missing_tag(rest) == Some(rest[0]));
                }
                return Err(ValidationError::MissingTag(tid));
            }
            i += 1;
        }
        proof {
            self@.lemma_first_missing_prefix(tag_ids@, tag_ids@.len() as int);
            assert(tag_ids@.skip(tag_ids@.len() as int) =~= Seq::<i64>::empty());
        }
        Ok(())
    }

    /// Starts an event: runs the referential checks and, only when they all
    /// pass, appends one running event row and one link row per requested
    /// tag id, as one atomic unit — on any error the store is unchanged.
    pub fn create_event_at(&mut self, req: &CreateTimedEventRequest, now: i64) -> (r: Result<
        CreateTimedEventResponse,
        LifecycleError,
    >)
        requires
            old(self)@.wf(),
        ensures
            final(self)@.wf(),
            r is Ok <==> (old(self)@.start_validation(req.task_id, req.tag_ids@) is None
                && old(self)@.events.len() < i64::MAX),
            (r matches Ok(resp) ==> {
                &&& resp.id == old(self)@.new_event_id()
                &&& resp.message@ == "Event started successfully"@
                &&& final(self)@ == old(self)@.start_applied(req.task_id, req.tag_ids@, now)
            }),
            (r matches Err(e) ==> {
                &&& final(self)@ == old(self)@
                &&& e == (match old(self)@.start_validation(req.task_id, req.tag_ids@) {
                    Some(ve) => LifecycleError::Validation(ve),
                    None => LifecycleError::Storage,
                })
            }),
    {
        match self.validate(req.task_id, &req.tag_ids) {
            Err(ve) => {
                return Err(LifecycleError::Validation(ve));
            },
            Ok(()) => {},
        }
        if self.events.len() as u64 >= i64::MAX as u64 {
            return Err(LifecycleError::Storage);
        }
        proof {
            old(self)@.lemma_first_missing_none_all_present(req.tag_ids@);
        }
        let eff: i64 = if now > self.clock {
            now
        } else {
            self.clock
        };
        let event_id: i64 = self.events.len() as i64 + 1;
        self.clock = eff;
        self.events.push(
            EventRow { id: event_id, task_id: req.task_id, created_at: eff, stopped_at: None },
        );
        let ghost pre = old(self)@;
        let ghost new_row = EventRow {
            id: pre.new_event_id() as i64,
            task_id: req.task_id,
            created_at: pre.advanced(now) as i64,
            stopped_at: None,
        };
        let mut i: usize = 0;
        while i < req.tag_ids.len()
            invariant
                pre.wf(),
                pre.start_validation(req.task_id, req.tag_ids@) is None,
                forall|k: int| 0 <= k < req.tag_ids@.len() ==> pre.has_tag(#[trigger] req.tag_ids@[k]),
                pre.events.len() < i64::MAX,
                i <= req.tag_ids.len(),
                self.tags@ == pre.tags,
                self.tasks@ == pre.tasks,
                self.events@ == pre.events.push(new_row),
                self.clock as int == pre.advanced(now),
                event_id == pre.new_event_id(),
                self.links@.len() == pre.links.len() + i,
                forall|k: int| 0 <= k < pre.links.len() ==> self.links@[k] == pre.links[k],
                forall|k: int|
                    0 <= k < i ==> self.links@[pre.links.len() + k] == (EventTagLink {
                        event_id: pre.new_event_id() as i64,
                        tag_id: #[trigger] req.tag_ids@[k],
                    }),
            decreases req.tag_ids.len() - i,
        {
            let tid = req.tag_ids[i];
            self.links.push(EventTagLink { event_id, tag_id: tid });
            i += 1;
        }
        proof {
            let target = pre.start_applied(req.task_id, req.tag_ids@, now);
            assert(self@.events =~= target.events);
            assert forall|k: int| 0 <= k < target.links.len() implies self@.links[k]
                == target.links[k] by {
                if k >= pre.links.len() {
                    assert(target.links[k] == req.tag_ids@.map(
                        |j: int, tid: i64| EventTagLink {
                            event_id: pre.new_event_id() as i64,
                            tag_id: tid,
                        },
                    )[k - pre.links.len()]);
                }
            }
            assert(self@.links =~= target.links);
            assert(self@ =~= target);
            assert(target.wf()) by {
                assert forall|a: int| 0 <= a < target.events.len() implies (
                    #[trigger] target.events[a]).id == a + 1 by {
                    if a < pre.events.len() {
                        assert(target.events[a] == pre.events[a]);
                    }
                }
            }
        }
        Ok(CreateTimedEventResponse { id: event_id, message: "Event started successfully".to_string() })
    }

    /// Read helper for the hydrator: the task row with this id, if any.
    pub fn get_task(&self, task_id: i64) -> (r: Option<Task>)
        requires
            self@.wf(),
        ensures
            match r {
                Some(t) => self@.has_task(task_id) && t == self@.tasks[task_id - 1],
                None => !self@.has_task(task_id),
            },
    {
        if task_id < 1 || task_id > self.tasks.len() as i64 {
            return None;
        }
        let idx: usize = (task_id - 1) as usize;
        let t = &self.tasks[idx];
        Some(Task { id: t.id, task: t.task.clone(), created_at: t.created_at })
    }

    /// Read helper for the hydrator: the tag rows linked to this event, in
    /// link order — the order the tags were requested in at creation.
    pub fn list_tags_for(&self, event_id: i64) -> (r: Vec<Tag>)
        requires
            self@.wf(),
        ensures
            r@ == self@.tags_of_event(event_id),
    {
        let mut r: Vec<Tag> = Vec::new();
        let mut i: usize = 0;
        while i < self.links.len()
            invariant
                self@.wf(),
                i <= self.links.len(),
                r@ == self@.tags_of_event_upto(event_id, i as int),
            decreases self.links.len() - i,
        {
            let l = self.links[i];
            proof {
                assert(l == self@.links[i as int]);
            }
            if l.event_id == event_id {
                proof {
                    assert(self@.has_tag(l.tag_id));
                    assert(self.tags.len() == self@.tags.len());
                }
                let tidx: usize = (l.tag_id - 1) as usize;
                let t = &self.tags[tidx];
                let new_tag = Tag { id: t.id, name: t.name.clone(), created_at: t.created_at };
                proof {
                    assert(new_tag == self@.tags[l.tag_id - 1]);
                }
                r.push(new_tag);
                proof {
                    let ids0 = self@.event_tag_ids_upto(event_id, i as int);
                    let ids1 = self@.event_tag_ids_upto(event_id, i as int + 1);
                    assert(ids1 == ids0.push(l.tag_id));
                    assert(self@.tags_of_event_upto(event_id, i as int + 1)
                        =~= self@.tags_of_event_upto(event_id, i as int).push(
                        self@.tags[l.tag_id - 1],
                    ));
                }
            } else {
                proof {
                    assert(self@.event_tag_ids_upto(event_id, i as int + 1)
                        == self@.event_tag_ids_upto(event_id, i as int));
                }
            }
            i += 1;
        }
        r
    }

    /// Lists the currently-open events, newest created first, each hydrated
    /// with its referenced task and its full tag list. Read-only: a returned
    /// event is never one whose stop time is set.
    pub fn get_events(&self) -> (r: GetEventsResponse)
        requires
            self@.wf(),
        ensures
            r.count == r.events@.len(),
            r.events@.len() == self@.open_events_desc().len(),
            forall|k: int| 0 <= k < r.events@.len()
                ==> self@.hydrates(self@.open_events_desc()[k], #[trigger] r.events@[k]),
            forall|k: int| 0 <= k < r.events@.len()
                ==> (#[trigger] r.events@[k]).stopped_at is None,
    {
        let mut events_with_details: Vec<TimedEvent> = Vec::new();
        let mut idx: usize = self.events.len();
        while idx > 0
            invariant
                self@.wf(),
                idx <= self.events.len(),
                events_with_details@.len() == self@.open_desc_from(idx as int).len(),
                forall|k: int| 0 <= k < events_with_details@.len()
                    ==> self@.hydrates(
                        self@.open_desc_from(idx as int)[k],
                        #[trigger] events_with_details@[k],
                    ),
            decreases idx,
        {
            idx -= 1;
            let e = self.events[idx];
            if e.stopped_at.is_none() {
                let task = self.get_task(e.task_id);
                let tags = self.list_tags_for(e.id);
                let te = TimedEvent {
                    id: e.id,
                    task_id: e.task_id,
                    task,
                    tags,
                    created_at: Some(e.created_at),
                    stopped_at: e.stopped_at,
                };
                events_with_details.push(te);
            }
        }
        proof {
            self@.lemma_open_desc_entries(0);
        }
        let count: usize = events_with_details.len();
        GetEventsResponse { events: events_with_details, count }
    }

    /// Stops an event: one atomic conditional transition — the row flips
    /// from running to stopped only if it exists and is still running, and
    /// the duration is computed from the creation time read in the same
    /// step. An absent id and an already-stopped id fail alike, by design.
    pub fn stop_event_at(&mut self, event_id: i64, now: i64) -> (r: Result<
        StopEventResponse,
        LifecycleError,
    >)
        requires
            old(self)@.wf(),
        ensures
            final(self)@.wf(),
            r is Ok <==> old(self)@.event_open(event_id),
            (r matches Ok(resp) ==> {
                &&& final(self)@ == old(self)@.stop_applied(event_id, now)
                &&& resp.id == event_id
                &&& resp.message@ == "Event stopped successfully"@
                &&& resp.duration_seconds >= 0
                &&& final(self)@.events[event_id - 1].stopped_at matches Some(s)
                    && resp.duration_seconds == s - old(self)@.events[event_id - 1].created_at
                &&& !final(self)@.event_open(event_id)
            }),
            (r matches Err(e) ==> e == LifecycleError::NotFound && final(self)@ == old(self)@),
    {
        if event_id < 1 || event_id > self.events.len() as i64 {
            return Err(LifecycleError::NotFound);
        }
        let idx: usize = (event_id - 1) as usize;
        let e = self.events[idx];
        if e.stopped_at.is_some() {
            return Err(LifecycleError::NotFound);
        }
        let eff: i64 = if now > self.clock {
            now
        } else {
            self.clock
        };
        self.clock = eff;
        self.events[idx] = EventRow { stopped_at: Some(eff), ..e };
        let duration_seconds: i64 = eff - e.created_at;
        proof {
            assert(self@ =~= old(self)@.stop_applied(event_id, now));
            assert(self@.wf()) by {
                assert forall|i: int| 0 <= i < self@.events.len() implies (
                    #[trigger] self@.events[i]).id == i + 1 by {
                    if i != idx {
                        assert(self@.events[i] == old(self)@.events[i]);
                    }
                }
            }
        }
        Ok(
            StopEventResponse {
                id: event_id,
                message: "Event stopped successfully".to_string(),
                duration_seconds,
            },
        )
    }
}

} // verus!
