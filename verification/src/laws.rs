//! Laws of the event lifecycle that relate several operations, stated over
//! the store model and proved once for every store state.

use vstd::prelude::*;

use crate::model::EventRow;
use crate::store::StoreView;

verus! {

/// Replacing one running row by a stopped version of itself shortens the
/// open-events listing by exactly one entry.
proof fn lemma_open_desc_update_stopped(pre: StoreView, post: StoreView, idx: int, n: int)
    requires
        0 <= idx < pre.events.len(),
        pre.events[idx].stopped_at is None,
        post.events.len() == pre.events.len(),
        !(post.events[idx].stopped_at is None),
        forall|k: int|
            0 <= k < pre.events.len() && k != idx ==> post.events[k] == #[trigger] pre.events[k],
        0 <= n <= pre.events.len(),
    ensures
        post.open_desc_from(n).len() as int == pre.open_desc_from(n).len() as int - (
        if n <= idx {
            1int
        } else {
            0int
        }),
    decreases pre.events.len() - n,
{
    if n < pre.events.len() {
        lemma_open_desc_update_stopped(pre, post, idx, n + 1);
    }
}

/// Stopping a running event removes exactly that event from the running
/// set: the count of running events drops by one, the stopped event is no
/// longer open, and every other event keeps its state.
pub proof fn lemma_stop_shrinks_open_listing(pre: StoreView, event_id: i64, now: i64)
    requires
        pre.wf(),
        pre.event_open(event_id),
    ensures
        pre.stop_applied(event_id, now).open_count() == pre.open_count() - 1,
        !pre.stop_applied(event_id, now).event_open(event_id),
        forall|id: i64|
            id != event_id ==> pre.stop_applied(event_id, now).event_open(id) == pre.event_open(
                id,
            ),
{
    let post = pre.stop_applied(event_id, now);
    lemma_open_desc_update_stopped(pre, post, event_id - 1, 0);
}

/// After stopping the only running event, the listing of running events is
/// empty.
pub proof fn lemma_stop_last_open_empties_listing(pre: StoreView, event_id: i64, now: i64)
    requires
        pre.wf(),
        pre.event_open(event_id),
        pre.open_count() == 1,
    ensures
        pre.stop_applied(event_id, now).open_events_desc() == Seq::<EventRow>::empty(),
{
    lemma_stop_shrinks_open_listing(pre, event_id, now);
    assert(pre.stop_applied(event_id, now).open_events_desc() =~= Seq::<EventRow>::empty());
}

/// The open-events listing is ordered newest-created-first: along the
/// listing the creation timestamps never increase.
pub proof fn lemma_open_listing_newest_first(v: StoreView, n: int)
    requires
        v.wf(),
        0 <= n,
    ensures
        forall|k1: int, k2: int|
            0 <= k1 <= k2 < v.open_desc_from(n).len() ==> (#[trigger] v.open_desc_from(n)[k1])
                .created_at >= (#[trigger] v.open_desc_from(n)[k2]).created_at,
    decreases v.events.len() - n,
{
    if n < v.events.len() {
        lemma_open_listing_newest_first(v, n + 1);
        v.lemma_open_desc_entries(n + 1);
        let rest = v.open_desc_from(n + 1);
        assert forall|k1: int, k2: int|
            0 <= k1 <= k2 < v.open_desc_from(n).len() implies (#[trigger] v.open_desc_from(
            n,
        )[k1]).created_at >= (#[trigger] v.open_desc_from(n)[k2]).created_at by {
            if k2 < rest.len() {
                assert(v.open_desc_from(n)[k1] == rest[k1]);
                assert(v.open_desc_from(n)[k2] == rest[k2]);
            } else if k1 < rest.len() {
                // the last entry is the row at index n; every earlier entry
                // comes from a later row, created no earlier
                assert(v.open_desc_from(n)[k2] == v.events[n]);
                assert(v.open_desc_from(n)[k1] == rest[k1]);
                let j = choose|j: int|
                    n + 1 <= j < v.events.len() && v.events[j] == rest[k1];
                assert(v.events[n].created_at <= v.events[j].created_at);
            }
        }
    }
}

/// A stopped event is terminal: no operation reopens it — a start only
/// appends a new row, and a stop (of this or of any other event) only sets
/// a stop time.
pub proof fn lemma_stopped_stays_stopped(
    pre: StoreView,
    event_id: i64,
    task_id: i64,
    tag_ids: Seq<i64>,
    other_id: i64,
    now: i64,
)
    requires
        pre.has_event(event_id),
        !pre.event_open(event_id),
        pre.has_event(other_id),
    ensures
        pre.start_applied(task_id, tag_ids, now).has_event(event_id),
        !pre.start_applied(task_id, tag_ids, now).event_open(event_id),
        !pre.stop_applied(other_id, now).event_open(event_id),
        pre.start_applied(task_id, tag_ids, now).events[event_id - 1] == pre.events[event_id
            - 1],
        other_id != event_id ==> pre.stop_applied(other_id, now).events[event_id - 1]
            == pre.events[event_id - 1],
{
}

/// Link rows with indices in `[m, n)` that belong to other events contribute
/// nothing to this event's tag-id list.
proof fn lemma_event_tag_ids_stable(v: StoreView, id: i64, m: int, n: int)
    requires
        0 <= m <= n,
        forall|k: int| m <= k < n ==> (#[trigger] v.links[k]).event_id != id,
    ensures
        v.event_tag_ids_upto(id, n) == v.event_tag_ids_upto(id, m),
    decreases n - m,
{
    if m < n {
        lemma_event_tag_ids_stable(v, id, m, n - 1);
    }
}

/// Two stores whose first `n` link rows agree assign this event the same
/// tag-id list over those rows.
proof fn lemma_event_tag_ids_prefix(a: StoreView, b: StoreView, id: i64, n: int)
    requires
        0 <= n,
        forall|k: int| 0 <= k < n ==> (#[trigger] a.links[k]) == b.links[k],
    ensures
        a.event_tag_ids_upto(id, n) == b.event_tag_ids_upto(id, n),
    decreases n,
{
    if n > 0 {
        lemma_event_tag_ids_prefix(a, b, id, n - 1);
    }
}

/// An existing event's tag set, once created, is fixed: a start (the only
/// operation that adds link rows) links only the new event and changes no
/// stored tag, and a stop touches no link at all.
pub proof fn lemma_event_tags_fixed(
    pre: StoreView,
    id: i64,
    task_id: i64,
    tag_ids: Seq<i64>,
    other_id: i64,
    now: i64,
)
    requires
        pre.wf(),
        pre.events.len() < i64::MAX,
        pre.has_event(id),
        pre.has_event(other_id),
    ensures
        pre.start_applied(task_id, tag_ids, now).tags_of_event(id) == pre.tags_of_event(id),
        pre.stop_applied(other_id, now).tags_of_event(id) == pre.tags_of_event(id),
{
    let after_start = pre.start_applied(task_id, tag_ids, now);
    lemma_event_tag_ids_prefix(after_start, pre, id, pre.links.len() as int);
    assert forall|k: int|
        pre.links.len() <= k < after_start.links.len() implies (#[trigger] after_start.links[k])
        .event_id != id by {
        assert(after_start.links[k].event_id == pre.new_event_id() as i64);
    }
    lemma_event_tag_ids_stable(
        after_start,
        id,
        pre.links.len() as int,
        after_start.links.len() as int,
    );
    assert(after_start.tags_of_event(id) =~= pre.tags_of_event(id));

    let after_stop = pre.stop_applied(other_id, now);
    lemma_event_tag_ids_prefix(after_stop, pre, id, pre.links.len() as int);
    assert(after_stop.tags_of_event(id) =~= pre.tags_of_event(id));
}

/// Events run independently: two events started in turn, each for its own
/// task, receive distinct ids, both appear among the running events, and
/// stopping the first leaves the second running — there is no mutual
/// exclusion across tasks.
pub proof fn lemma_independent_events(
    s0: StoreView,
    s1: StoreView,
    s2: StoreView,
    s3: StoreView,
    task_a: i64,
    tags_a: Seq<i64>,
    now_a: i64,
    task_b: i64,
    tags_b: Seq<i64>,
    now_b: i64,
    id_a: i64,
    id_b: i64,
    now_c: i64,
)
    requires
        s0.wf(),
        s0.events.len() + 2 <= i64::MAX,
        task_a != task_b,
        s0.start_validation(task_a, tags_a) is None,
        id_a == s0.new_event_id(),
        s1 == s0.start_applied(task_a, tags_a, now_a),
        s1.start_validation(task_b, tags_b) is None,
        id_b == s1.new_event_id(),
        s2 == s1.start_applied(task_b, tags_b, now_b),
        s3 == s2.stop_applied(id_a, now_c),
    ensures
        id_a != id_b,
        s2.event_open(id_a),
        s2.event_open(id_b),
        s2.open_events_desc().contains(s2.events[id_a - 1]),
        s2.open_events_desc().contains(s2.events[id_b - 1]),
        !s3.event_open(id_a),
        s3.event_open(id_b),
{
    assert(s2.events[id_a - 1].stopped_at is None);
    assert(s2.events[id_b - 1].stopped_at is None);
    s2.lemma_open_desc_contains(0, id_a - 1);
    s2.lemma_open_desc_contains(0, id_b - 1);
}

} // verus!
