//! Poll assembly: the read model of one event, its time slots with their
//! tallies and its participants with their votes.

use crate::ledger::{count_available, count_available_votes, participant_votes, votes_of};
use crate::model::{
    ApiError, ParticipantResponse, ParticipantRow, PollResponse, TimeSlotResponse, TimeSlotRow,
    VoteRow,
};
use crate::repository::{copy_opt_text, opt_view};
use crate::store::{find_poll, poll_index, PollStore, PollTables};
use vstd::prelude::*;

verus! {

/// The response for a time slot: its own fields and the number of votes on
/// it that say available.
pub open spec fn slot_matches(r: TimeSlotResponse, s: TimeSlotRow, votes: Seq<VoteRow>) -> bool {
    &&& r.id@ == s.id@
    &&& r.starts_at == s.starts_at
    &&& r.ends_at == s.ends_at
    &&& r.available_count == count_available(votes, s.id@)
}

/// The response for a participant: its own fields and exactly its votes.
pub open spec fn participant_matches(r: ParticipantResponse, q: ParticipantRow, votes: Seq<VoteRow>) -> bool {
    &&& r.id@ == q.id@
    &&& r.name@ == q.name@
    &&& r.votes@.len() == votes_of(votes, q.id@).len()
    &&& forall|j: int|
        0 <= j < r.votes@.len() ==> (#[trigger] r.votes@[j]).time_slot_id@ == votes_of(votes, q.id@)[j].0
            && r.votes@[j].available == votes_of(votes, q.id@)[j].1
}

/// The read model of one event: the event's fields, every time slot in
/// start order with its tally, and every participant in creation order with
/// their votes.
pub open spec fn poll_matches(r: PollResponse, p: PollTables) -> bool {
    &&& r.id@ == p.event.id@
    &&& r.title@ == p.event.title@
    &&& opt_view(r.description) == opt_view(p.event.description)
    &&& r.created_at@ == p.event.created_at@
    &&& r.time_slots@.len() == p.slots@.len()
    &&& forall|k: int|
        0 <= k < r.time_slots@.len() ==> slot_matches(#[trigger] r.time_slots@[k], p.slots@[k], p.votes@)
    &&& r.participants@.len() == p.participants@.len()
    &&& forall|k: int|
        0 <= k < r.participants@.len() ==> participant_matches(
            #[trigger] r.participants@[k],
            p.participants@[k],
            p.votes@,
        )
}

/// The read model of one event's rows.
pub fn assemble_poll(p: &PollTables) -> (r: PollResponse)
    ensures
        poll_matches(r, *p),
{
    let mut time_slots: Vec<TimeSlotResponse> = Vec::new();
    let mut i: usize = 0;
    while i < p.slots.len()
        invariant
            i <= p.slots@.len(),
            time_slots@.len() == i,
            forall|k: int|
                0 <= k < i ==> slot_matches(#[trigger] time_slots@[k], p.slots@[k], p.votes@),
        decreases p.slots.len() - i,
    {
        let s = &p.slots[i];
        time_slots.push(
            TimeSlotResponse {
                id: s.id.clone(),
                starts_at: s.starts_at,
                ends_at: s.ends_at,
                available_count: count_available_votes(&p.votes, &s.id),
            },
        );
        i = i + 1;
    }
    let mut participants: Vec<ParticipantResponse> = Vec::new();
    let mut i: usize = 0;
    while i < p.participants.len()
        invariant
            i <= p.participants@.len(),
            participants@.len() == i,
            forall|k: int|
                0 <= k < i ==> participant_matches(
                    #[trigger] participants@[k],
                    p.participants@[k],
                    p.votes@,
                ),
        decreases p.participants.len() - i,
    {
        let q = &p.participants[i];
        participants.push(
            ParticipantResponse {
                id: q.id.clone(),
                name: q.name.clone(),
                votes: participant_votes(&p.votes, &q.id),
            },
        );
        i = i + 1;
    }
    PollResponse {
        id: p.event.id.clone(),
        title: p.event.title.clone(),
        description: copy_opt_text(&p.event.description),
        created_at: p.event.created_at.clone(),
        time_slots,
        participants,
    }
}

/// The read model of the event with the given id.
pub fn get_poll(store: &PollStore, event_id: &String) -> (r: Result<PollResponse, ApiError>)
    requires
        store.wf(),
    ensures
        r is Err <==> poll_index(store.polls@, event_id@) < 0,
        r is Err ==> r == Err::<PollResponse, ApiError>(ApiError::NotFound),
        r matches Ok(resp) ==> poll_matches(resp, store.polls@[poll_index(store.polls@, event_id@)]),
{
    match find_poll(&store.polls, event_id) {
        None => Err(ApiError::NotFound),
        Some(i) => Ok(assemble_poll(&store.polls[i])),
    }
}

} // verus!
