//! The poll repository: events with their time slots, scoped to the admin
//! who owns them.

use crate::auth::{require_admin, session_of};
use crate::model::{
    ApiError, CreateEventRequest, CreateEventResponse, DeletePollResponse, EventRow,
    EventSummaryResponse, ParticipantRow, TimeSlotInput, TimeSlotRow, UtcTime,
};
use crate::platform::{new_id, now_rfc3339, trim_of, trimmed};
use crate::store::{
    find_poll, has_slot, lemma_globals_after_push, lemma_globals_after_remove, poll_index,
    slot_ids_unique, slot_in_store, slots_sorted, store_has_slot, unchanged, PollStore, PollTables,
};
use vstd::multiset::group_multiset_axioms;
use vstd::prelude::*;
use vstd::seq_lib::{to_multiset_build, to_multiset_remove};

verus! {

pub open spec fn opt_view(o: Option<String>) -> Option<Seq<char>> {
    match o {
        Some(s) => Some(s@),
        None => None,
    }
}

/// A copy of an optional text.
pub fn copy_opt_text(o: &Option<String>) -> (r: Option<String>)
    ensures
        r == *o,
{
    match o {
        Some(s) => Some(s.clone()),
        None => None,
    }
}

/// The start and end of each time slot.
pub open spec fn slot_times(s: Seq<TimeSlotRow>) -> Seq<TimeSlotInput> {
    s.map_values(|t: TimeSlotRow| TimeSlotInput { starts_at: t.starts_at, ends_at: t.ends_at })
}

pub open spec fn inputs_sorted(s: Seq<TimeSlotInput>) -> bool {
    forall|i: int, j: int| 0 <= i <= j < s.len() ==> s[i].starts_at.spec_le(s[j].starts_at)
}

/// A title that is not blank and at least one time slot.
pub open spec fn poll_input_valid(payload: CreateEventRequest) -> bool {
    trim_of(payload.title@).len() > 0 && payload.time_slots@.len() > 0
}

/// The admin behind a token that `session_of` resolves.
pub open spec fn token_admin(store: PollStore, token: Option<String>) -> Seq<char> {
    store.sessions@[session_of(store, token)].admin_id@
}

/// The rows that creating the poll writes: the event owned by the admin, and
/// the requested time slots ordered by start, with no participants or votes.
pub open spec fn created_poll(p: PollTables, id: Seq<char>, admin_id: Seq<char>, payload: CreateEventRequest) -> bool {
    &&& p.event.id@ == id
    &&& p.event.title@ == payload.title@
    &&& opt_view(p.event.description) == opt_view(payload.description)
    &&& p.event.admin_id@ == admin_id
    &&& slot_times(p.slots@).to_multiset() == payload.time_slots@.to_multiset()
    &&& slots_sorted(p.slots@)
    &&& p.participants@.len() == 0
    &&& p.votes@.len() == 0
}

/// The events owned by the admin, newest first.
pub open spec fn owned_events(polls: Seq<PollTables>, admin_id: Seq<char>) -> Seq<EventRow>
    decreases polls.len(),
{
    if polls.len() == 0 {
        seq![]
    } else {
        let rest = owned_events(polls.drop_last(), admin_id);
        if polls.last().event.admin_id@ == admin_id {
            seq![polls.last().event] + rest
        } else {
            rest
        }
    }
}

pub open spec fn summary_matches(r: EventSummaryResponse, e: EventRow) -> bool {
    &&& r.id@ == e.id@
    &&& r.title@ == e.title@
    &&& opt_view(r.description) == opt_view(e.description)
    &&& r.created_at@ == e.created_at@
}

impl EventRow {
    /// A new event row under a fresh id, stamped with the current time;
    /// `None` where no id or time could be had.
    pub fn new(title: String, description: Option<String>, admin_id: String) -> (r: Option<EventRow>)
        ensures
            r matches Some(e) ==> e.title == title && e.description == description && e.admin_id
                == admin_id,
    {
        match (new_id(), now_rfc3339()) {
            (Some(id), Some(created_at)) => Some(EventRow { id, title, description, created_at, admin_id }),
            _ => None,
        }
    }
}

impl TimeSlotRow {
    /// A new time slot row of the event under a fresh id; `None` where no id
    /// could be had.
    pub fn new(event_id: &str, starts_at: UtcTime, ends_at: UtcTime) -> (r: Option<TimeSlotRow>)
        ensures
            r matches Some(t) ==> t.event_id@ == event_id@ && t.starts_at == starts_at && t.ends_at
                == ends_at,
    {
        match new_id() {
            Some(id) => Some(TimeSlotRow { id, event_id: event_id.to_owned(), starts_at, ends_at }),
            None => None,
        }
    }
}

impl ParticipantRow {
    /// A new participant row of the event under a fresh id, stamped with the
    /// current time; `None` where no id or time could be had.
    pub fn new(event_id: &str, name: String) -> (r: Option<ParticipantRow>)
        ensures
            r matches Some(q) ==> q.event_id@ == event_id@ && q.name == name,
    {
        match (new_id(), now_rfc3339()) {
            (Some(id), Some(created_at)) => Some(
                ParticipantRow { id, event_id: event_id.to_owned(), name, created_at },
            ),
            _ => None,
        }
    }
}

/// The time slots ordered by start time, ascending.
pub fn sort_by_start(v: &Vec<TimeSlotInput>) -> (r: Vec<TimeSlotInput>)
    ensures
        r@.to_multiset() == v@.to_multiset(),
        inputs_sorted(r@),
{
    broadcast use group_multiset_axioms;
    broadcast use to_multiset_build;
    broadcast use to_multiset_remove;

    let mut r: Vec<TimeSlotInput> = Vec::new();
    let mut i: usize = 0;
    assert(r@ =~= v@.take(0));
    while i < v.len()
        invariant
            i <= v@.len(),
            r@.to_multiset() == v@.take(i as int).to_multiset(),
            inputs_sorted(r@),
        decreases v.len() - i,
    {
        let x = v[i];
        let mut pos: usize = 0;
        while pos < r.len() && !x.starts_at.le(&r[pos].starts_at)
            invariant
                pos <= r@.len(),
                forall|k: int| 0 <= k < pos ==> r@[k].starts_at.spec_le(x.starts_at),
            decreases r.len() - pos,
        {
            pos = pos + 1;
        }
        let ghost before = r@;
        r.insert(pos, x);
        proof {
            let after = r@;
            assert(after.remove(pos as int) =~= before);
            assert(after[pos as int] == x);
            after.to_multiset_ensures();
            assert(after.to_multiset().contains(x));
            assert(before.to_multiset() == after.to_multiset().remove(x));
            assert(after.to_multiset() =~= before.to_multiset().insert(x));
            assert(v@.take(i + 1) =~= v@.take(i as int).push(x));
            to_multiset_build(v@.take(i as int), x);
            assert forall|a: int, b: int| 0 <= a <= b < after.len() implies after[a].starts_at.spec_le(
                after[b].starts_at,
            ) by {
                if a < pos && b < pos {
                    assert(after[a] == before[a] && after[b] == before[b]);
                } else if a < pos && b == pos {
                    assert(after[a] == before[a]);
                } else if a < pos {
                    assert(after[a] == before[a] && after[b] == before[b - 1]);
                    assert(before[a].starts_at.spec_le(x.starts_at));
                } else if a == pos && b > pos {
                    assert(after[b] == before[b - 1]);
                    assert(before[pos as int].starts_at.spec_le(before[b - 1].starts_at));
                } else if a > pos {
                    assert(after[a] == before[a - 1] && after[b] == before[b - 1]);
                }
            }
        }
        i = i + 1;
    }
    assert(v@.take(v@.len() as int) =~= v@);
    r
}

/// The ids are pairwise distinct and name no time slot of the store.
pub open spec fn ids_fresh(polls: Seq<PollTables>, ids: Seq<String>) -> bool {
    &&& forall|a: int, b: int| 0 <= a < ids.len() && 0 <= b < ids.len() && a != b ==> ids[a]@ != ids[b]@
    &&& forall|a: int| 0 <= a < ids.len() ==> !slot_in_store(polls, (#[trigger] ids[a])@)
}

/// Whether the ids are pairwise distinct and name no time slot of the store.
pub fn slot_ids_fresh(polls: &Vec<PollTables>, ids: &Vec<String>) -> (r: bool)
    ensures
        r == ids_fresh(polls@, ids@),
{
    let mut i: usize = 0;
    while i < ids.len()
        invariant
            i <= ids@.len(),
            forall|a: int, b: int| 0 <= a < i && 0 <= b < ids@.len() && a != b ==> ids@[a]@ != ids@[b]@,
            forall|a: int| 0 <= a < i ==> !slot_in_store(polls@, (#[trigger] ids@[a])@),
        decreases ids.len() - i,
    {
        if store_has_slot(polls, &ids[i]) {
            return false;
        }
        let mut j: usize = 0;
        while j < ids.len()
            invariant
                i < ids@.len(),
                j <= ids@.len(),
                forall|b: int| 0 <= b < j && b != i ==> ids@[i as int]@ != ids@[b]@,
            decreases ids.len() - j,
        {
            if j != i && ids[i] == ids[j] {
                return false;
            }
            j = j + 1;
        }
        i = i + 1;
    }
    true
}

/// `n` fresh random ids; `None` where no id could be had.
pub fn draw_ids(n: usize) -> (r: Option<Vec<String>>)
    ensures
        r matches Some(ids) ==> ids@.len() == n,
{
    let mut ids: Vec<String> = Vec::new();
    let mut i: usize = 0;
    while i < n
        invariant
            i <= n,
            ids@.len() == i,
        decreases n - i,
    {
        match new_id() {
            Some(id) => ids.push(id),
            None => {
                return None;
            },
        }
        i = i + 1;
    }
    Some(ids)
}

/// One row of the event per time slot, in order, under the given ids.
fn slot_rows(event_id: &String, ordered: &Vec<TimeSlotInput>, ids: &Vec<String>) -> (r: Vec<TimeSlotRow>)
    requires
        ids@.len() == ordered@.len(),
    ensures
        r@.len() == ordered@.len(),
        forall|k: int| 0 <= k < r@.len() ==> (#[trigger] r@[k]).id == ids@[k],
        forall|k: int| 0 <= k < r@.len() ==> (#[trigger] r@[k]).event_id@ == event_id@,
        forall|k: int|
            0 <= k < r@.len() ==> (#[trigger] r@[k]).starts_at == ordered@[k].starts_at
                && r@[k].ends_at == ordered@[k].ends_at,
{
    let mut slots: Vec<TimeSlotRow> = Vec::new();
    let mut i: usize = 0;
    while i < ordered.len()
        invariant
            i <= ordered@.len(),
            ids@.len() == ordered@.len(),
            slots@.len() == i,
            forall|k: int| 0 <= k < i ==> (#[trigger] slots@[k]).id == ids@[k],
            forall|k: int| 0 <= k < i ==> (#[trigger] slots@[k]).event_id@ == event_id@,
            forall|k: int|
                0 <= k < i ==> (#[trigger] slots@[k]).starts_at == ordered@[k].starts_at
                    && slots@[k].ends_at == ordered@[k].ends_at,
        decreases ordered.len() - i,
    {
        slots.push(
            TimeSlotRow {
                id: ids[i].clone(),
                event_id: event_id.clone(),
                starts_at: ordered[i].starts_at,
                ends_at: ordered[i].ends_at,
            },
        );
        i = i + 1;
    }
    slots
}

/// Writes the event row and one time slot per requested slot, ordered by
/// start, under the given ids, as one unit; an event id or slot id already in
/// use (or given twice) is a store failure.
pub fn insert_poll(
    store: &mut PollStore,
    event: EventRow,
    payload: &CreateEventRequest,
    slot_ids: Vec<String>,
) -> (r: Result<CreateEventResponse, ApiError>)
    requires
        old(store).wf(),
        slot_ids@.len() == payload.time_slots@.len(),
        event.title@ == payload.title@,
        opt_view(event.description) == opt_view(payload.description),
    ensures
        final(store).wf(),
        r is Err <==> poll_index(old(store).polls@, event.id@) >= 0 || !ids_fresh(
            old(store).polls@,
            slot_ids@,
        ),
        r is Err ==> r == Err::<CreateEventResponse, ApiError>(ApiError::Storage) && unchanged(
            *old(store),
            *final(store),
        ),
        r matches Ok(resp) ==> {
            &&& resp.id@ == event.id@
            &&& final(store).admins@ == old(store).admins@
            &&& final(store).sessions@ == old(store).sessions@
            &&& final(store).polls@.len() == old(store).polls@.len() + 1
            &&& final(store).polls@.drop_last() == old(store).polls@
            &&& final(store).polls@.last().event == event
            &&& created_poll(final(store).polls@.last(), event.id@, event.admin_id@, *payload)
            &&& forall|k: int|
                0 <= k < final(store).polls@.last().slots@.len() ==> !slot_in_store(
                    old(store).polls@,
                    (#[trigger] final(store).polls@.last().slots@[k]).id@,
                )
        },
{
    if find_poll(&store.polls, &event.id).is_some() || !slot_ids_fresh(&store.polls, &slot_ids) {
        return Err(ApiError::Storage);
    }
    let ordered = sort_by_start(&payload.time_slots);
    proof {
        ordered@.to_multiset_ensures();
        payload.time_slots@.to_multiset_ensures();
    }
    let slots = slot_rows(&event.id, &ordered, &slot_ids);
    let poll = PollTables { event, slots, participants: Vec::new(), votes: Vec::new() };
    proof {
        let times = slot_times(poll.slots@);
        assert(times =~= ordered@);
        assert forall|a: int, b: int|
            0 <= a < poll.slots@.len() && 0 <= b < poll.slots@.len() && a != b implies poll.slots@[a].id@
            != poll.slots@[b].id@ by {
            assert(poll.slots@[a].id == slot_ids@[a] && poll.slots@[b].id == slot_ids@[b]);
        }
        assert(poll.wf());
        assert forall|id: Seq<char>| #[trigger] has_slot(poll, id) implies !slot_in_store(
            store.polls@,
            id,
        ) by {
            let k = choose|k: int| 0 <= k < poll.slots@.len() && poll.slots@[k].id@ == id;
            assert(poll.slots@[k].id == slot_ids@[k]);
        }
        assert forall|k: int| 0 <= k < poll.slots@.len() implies !slot_in_store(
            store.polls@,
            (#[trigger] poll.slots@[k]).id@,
        ) by {
            assert(poll.slots@[k].id == slot_ids@[k]);
        }
        lemma_globals_after_push(store.polls@, poll);
    }
    let id = poll.event.id.clone();
    let ghost before = store.polls@;
    store.polls.push(poll);
    proof {
        let ps = store.polls@;
        assert(ps.drop_last() =~= before);
        assert forall|a: int, b: int|
            0 <= a < ps.len() && 0 <= b < ps.len() && a != b implies ps[a].event.id@
            != ps[b].event.id@ by {
            if a < before.len() && b < before.len() {
                assert(ps[a] == before[a] && ps[b] == before[b]);
            } else if a < before.len() {
                assert(ps[a] == before[a]);
            } else {
                assert(ps[b] == before[b]);
            }
        }
        assert forall|a: int| 0 <= a < ps.len() implies (#[trigger] ps[a]).wf() by {
            if a < before.len() {
                assert(ps[a] == before[a]);
            }
        }
    }
    Ok(CreateEventResponse { id })
}

/// Creates an event owned by the calling admin, with its time slots, as one
/// unit: either every row is written or none is.
pub fn create_poll(store: &mut PollStore, token: &Option<String>, payload: &CreateEventRequest) -> (r:
    Result<CreateEventResponse, ApiError>)
    requires
        old(store).wf(),
    ensures
        final(store).wf(),
        session_of(*old(store), *token) < 0 ==> r == Err::<CreateEventResponse, ApiError>(
            ApiError::Unauthorized,
        ),
        session_of(*old(store), *token) >= 0 && !poll_input_valid(*payload) ==> r == Err::<
            CreateEventResponse,
            ApiError,
        >(ApiError::Validation),
        session_of(*old(store), *token) >= 0 && poll_input_valid(*payload) ==> (r is Ok || r
            == Err::<CreateEventResponse, ApiError>(ApiError::Storage)),
        r is Err ==> unchanged(*old(store), *final(store)),
        r matches Ok(resp) ==> {
            &&& final(store).admins@ == old(store).admins@
            &&& final(store).sessions@ == old(store).sessions@
            &&& final(store).polls@.len() == old(store).polls@.len() + 1
            &&& final(store).polls@.drop_last() == old(store).polls@
            &&& poll_index(old(store).polls@, resp.id@) == -1
            &&& created_poll(
                final(store).polls@.last(),
                resp.id@,
                token_admin(*old(store), *token),
                *payload,
            )
            &&& forall|k: int|
                0 <= k < final(store).polls@.last().slots@.len() ==> !slot_in_store(
                    old(store).polls@,
                    (#[trigger] final(store).polls@.last().slots@[k]).id@,
                )
        },
{
    let admin = require_admin(store, token)?;
    let title = trimmed(payload.title.as_str());
    if title.as_str().is_empty() || payload.time_slots.len() == 0 {
        return Err(ApiError::Validation);
    }
    let event = match EventRow::new(
        payload.title.clone(),
        copy_opt_text(&payload.description),
        admin.admin_id.clone(),
    ) {
        Some(e) => e,
        None => {
            return Err(ApiError::Storage);
        },
    };
    let slot_ids = match draw_ids(payload.time_slots.len()) {
        Some(ids) => ids,
        None => {
            return Err(ApiError::Storage);
        },
    };
    insert_poll(store, event, payload, slot_ids)
}

/// Deletes an event of the calling admin, and with it the event's time slots,
/// participants and votes.
pub fn delete_poll(store: &mut PollStore, token: &Option<String>, id: &String) -> (r: Result<
    DeletePollResponse,
    ApiError,
>)
    requires
        old(store).wf(),
    ensures
        final(store).wf(),
        session_of(*old(store), *token) < 0 ==> r == Err::<DeletePollResponse, ApiError>(
            ApiError::Unauthorized,
        ),
        session_of(*old(store), *token) >= 0 && poll_index(old(store).polls@, id@) < 0 ==> r
            == Err::<DeletePollResponse, ApiError>(ApiError::NotFound),
        session_of(*old(store), *token) >= 0 && poll_index(old(store).polls@, id@) >= 0
            && old(store).polls@[poll_index(old(store).polls@, id@)].event.admin_id@
            != token_admin(*old(store), *token) ==> r == Err::<DeletePollResponse, ApiError>(
            ApiError::Forbidden,
        ),
        session_of(*old(store), *token) >= 0 && poll_index(old(store).polls@, id@) >= 0
            && old(store).polls@[poll_index(old(store).polls@, id@)].event.admin_id@
            == token_admin(*old(store), *token) ==> r is Ok,
        r is Err ==> unchanged(*old(store), *final(store)),
        r matches Ok(resp) ==> {
            &&& resp.id@ == id@
            &&& final(store).admins@ == old(store).admins@
            &&& final(store).sessions@ == old(store).sessions@
            &&& final(store).polls@ == old(store).polls@.remove(poll_index(old(store).polls@, id@))
        },
{
    let admin = require_admin(store, token)?;
    let i = match find_poll(&store.polls, id) {
        Some(i) => i,
        None => {
            return Err(ApiError::NotFound);
        },
    };
    if store.polls[i].event.admin_id != admin.admin_id {
        return Err(ApiError::Forbidden);
    }
    let ghost before = store.polls@;
    store.polls.remove(i);
    proof {
        lemma_globals_after_remove(before, i as int);
        let ps = store.polls@;
        assert forall|a: int, b: int|
            0 <= a < ps.len() && 0 <= b < ps.len() && a != b implies ps[a].event.id@
            != ps[b].event.id@ by {
            let a0 = if a < i { a } else { a + 1 };
            let b0 = if b < i { b } else { b + 1 };
            assert(ps[a] == before[a0] && ps[b] == before[b0]);
        }
        assert forall|a: int| 0 <= a < ps.len() implies (#[trigger] ps[a]).wf() by {
            let a0 = if a < i { a } else { a + 1 };
            assert(ps[a] == before[a0]);
        }
    }
    Ok(DeletePollResponse { id: id.clone() })
}

/// The events of the calling admin, newest first.
pub fn list_events(store: &PollStore, token: &Option<String>) -> (r: Result<
    Vec<EventSummaryResponse>,
    ApiError,
>)
    requires
        store.wf(),
    ensures
        r is Err <==> session_of(*store, *token) < 0,
        r is Err ==> r == Err::<Vec<EventSummaryResponse>, ApiError>(ApiError::Unauthorized),
        r matches Ok(list) ==> {
            let owned = owned_events(store.polls@, token_admin(*store, *token));
            &&& list@.len() == owned.len()
            &&& forall|j: int| 0 <= j < list@.len() ==> summary_matches(#[trigger] list@[j], owned[j])
        },
{
    let admin = require_admin(store, token)?;
    let ghost admin_id = admin.admin_id@;
    let mut list: Vec<EventSummaryResponse> = Vec::new();
    let mut i: usize = 0;
    while i < store.polls.len()
        invariant
            i <= store.polls@.len(),
            admin_id == admin.admin_id@,
            list@.len() == owned_events(store.polls@.take(i as int), admin_id).len(),
            forall|j: int|
                0 <= j < list@.len() ==> summary_matches(
                    #[trigger] list@[j],
                    owned_events(store.polls@.take(i as int), admin_id)[j],
                ),
        decreases store.polls.len() - i,
    {
        proof {
            assert(store.polls@.take(i + 1).drop_last() =~= store.polls@.take(i as int));
            assert(store.polls@.take(i + 1).last() == store.polls@[i as int]);
        }
        if store.polls[i].event.admin_id == admin.admin_id {
            let e = &store.polls[i].event;
            let summary = EventSummaryResponse {
                id: e.id.clone(),
                title: e.title.clone(),
                description: copy_opt_text(&e.description),
                created_at: e.created_at.clone(),
            };
            let ghost before = list@;
            list.insert(0, summary);
            proof {
                let owned = owned_events(store.polls@.take(i + 1), admin_id);
                assert forall|j: int| 0 <= j < list@.len() implies summary_matches(
                    #[trigger] list@[j],
                    owned[j],
                ) by {
                    if j > 0 {
                        assert(list@[j] == before[j - 1]);
                    }
                }
            }
        }
        i = i + 1;
    }
    assert(store.polls@.take(store.polls@.len() as int) =~= store.polls@);
    Ok(list)
}

} // verus!
