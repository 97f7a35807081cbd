//! The vote ledger's writes: a new participant's votes, and the full
//! replacement of an existing participant's votes.

use crate::ledger::{
    lemma_refers_with_more_participants, lemma_replaced_keys_unique, lemma_replaced_refers,
    lemma_upsert_refers, remove_participant_votes, replaced, rows_for, slots_distinct,
    upsert_all, upsert_vote, vote_row,
};
use crate::model::{
    ApiError, ParticipantRow, SubmitVoteRequest, SubmitVoteResponse,
    UpdateVotesRequest, UpdateVotesResponse, VoteInput, VoteRow,
};
use crate::platform::{trim_of, trimmed};
use crate::store::{
    find_poll, has_participant, lemma_globals_after_update, participant_in_store,
    poll_has_participant, poll_has_slot, store_has_participant, has_slot, participant_ids_unique,
    participant_listed, poll_index, slot_listed, unchanged, vote_keys_unique, votes_refer_to,
    PollStore, PollTables,
};
use vstd::prelude::*;

verus! {

/// Every input names a time slot of the event.
pub open spec fn slots_known(p: PollTables, inputs: Seq<VoteInput>) -> bool {
    forall|k: int| 0 <= k < inputs.len() ==> has_slot(p, (#[trigger] inputs[k]).time_slot_id@)
}

/// The polls with the one at `i` replaced by `q`.
pub open spec fn poll_replaced(before: PollStore, after: PollStore, i: int, q: PollTables) -> bool {
    &&& after.admins@ == before.admins@
    &&& after.sessions@ == before.sessions@
    &&& after.polls@ == before.polls@.update(i, q)
}

/// What a first submission writes: one more participant, named by the
/// trimmed name, and the inputs' votes upserted under the participant's id.
pub open spec fn submitted(p: PollTables, q: PollTables, name: Seq<char>, inputs: Seq<VoteInput>) -> bool {
    &&& q.event == p.event
    &&& q.slots@ == p.slots@
    &&& q.participants@.len() == p.participants@.len() + 1
    &&& q.participants@.drop_last() == p.participants@
    &&& q.participants@.last().name@ == name
    &&& !has_participant(p, q.participants@.last().id@)
    &&& q.votes@ == upsert_all(p.votes@, q.participants@.last().id, inputs)
}

/// What a replacement writes: the participant's votes replaced by the inputs'.
pub open spec fn votes_replaced(p: PollTables, q: PollTables, participant_id: String, inputs: Seq<VoteInput>) -> bool {
    &&& q.event == p.event
    &&& q.slots@ == p.slots@
    &&& q.participants@ == p.participants@
    &&& q.votes@ == replaced(p.votes@, participant_id, inputs)
}

/// Whether every input names a time slot of the event; the whole batch is
/// checked before anything is written.
pub fn all_slots_known(p: &PollTables, inputs: &Vec<VoteInput>) -> (r: bool)
    ensures
        r == slots_known(*p, inputs@),
{
    let mut i: usize = 0;
    while i < inputs.len()
        invariant
            i <= inputs@.len(),
            forall|k: int| 0 <= k < i ==> has_slot(*p, (#[trigger] inputs@[k]).time_slot_id@),
        decreases inputs.len() - i,
    {
        if !poll_has_slot(p, &inputs[i].time_slot_id) {
            return false;
        }
        i = i + 1;
    }
    true
}

/// Whether no two inputs name the same time slot.
pub fn inputs_distinct(inputs: &Vec<VoteInput>) -> (r: bool)
    ensures
        r == slots_distinct(inputs@),
{
    let mut i: usize = 0;
    while i < inputs.len()
        invariant
            i <= inputs@.len(),
            forall|a: int, b: int|
                0 <= a < i && 0 <= b < inputs@.len() && a != b ==> inputs@[a].time_slot_id@
                    != inputs@[b].time_slot_id@,
        decreases inputs.len() - i,
    {
        let mut j: usize = 0;
        while j < inputs.len()
            invariant
                i < inputs@.len(),
                j <= inputs@.len(),
                forall|a: int, b: int|
                    0 <= a < i && 0 <= b < inputs@.len() && a != b ==> inputs@[a].time_slot_id@
                        != inputs@[b].time_slot_id@,
                forall|b: int|
                    0 <= b < j && b != i ==> inputs@[i as int].time_slot_id@
                        != inputs@[b].time_slot_id@,
            decreases inputs.len() - j,
        {
            if j != i && inputs[i].time_slot_id == inputs[j].time_slot_id {
                return false;
            }
            j = j + 1;
        }
        i = i + 1;
    }
    true
}

/// Records the given new participant of the event at position `i` with
/// their votes, as one unit; a participant id already in use in the store is
/// a store failure.
pub fn record_submission(
    store: &mut PollStore,
    i: usize,
    participant: ParticipantRow,
    votes: &Vec<VoteInput>,
) -> (r: Result<SubmitVoteResponse, ApiError>)
    requires
        old(store).wf(),
        i < old(store).polls@.len(),
        participant.event_id@ == old(store).polls@[i as int].event.id@,
        slots_known(old(store).polls@[i as int], votes@),
    ensures
        final(store).wf(),
        r is Err <==> participant_in_store(old(store).polls@, participant.id@),
        r is Err ==> r == Err::<SubmitVoteResponse, ApiError>(ApiError::Storage) && unchanged(
            *old(store),
            *final(store),
        ),
        r matches Ok(resp) ==> {
            let q = final(store).polls@[i as int];
            &&& resp.participant_id@ == participant.id@
            &&& poll_replaced(*old(store), *final(store), i as int, q)
            &&& submitted(old(store).polls@[i as int], q, participant.name@, votes@)
            &&& q.participants@.last() == participant
        },
{
    if store_has_participant(&store.polls, &participant.id) {
        return Err(ApiError::Storage);
    }
    let ghost fresh = participant;
    proof {
        if has_participant(store.polls@[i as int], participant.id@) {
            assert(participant_in_store(store.polls@, participant.id@));
        }
    }
    let participant_id = participant.id.clone();
    let ghost before = store.polls@;
    let ghost p = store.polls@[i as int];
    let mut poll = store.polls.remove(i);
    proof {
        assert(poll.wf());
        lemma_refers_with_more_participants(poll.votes@, poll.participants@, poll.slots@, participant);
    }
    let ghost ps0 = poll.participants@;
    let ghost newp = participant;
    poll.participants.push(participant);
    let ghost pq = poll.participants@;
    proof {
        let ps = poll.participants@;
        assert(ps.drop_last() =~= ps0);
        assert(participant_listed(ps, participant_id@)) by {
            assert(ps[ps.len() - 1].id@ == participant_id@);
        }
        assert forall|a: int, b: int| 0 <= a < ps.len() && 0 <= b < ps.len() && a != b implies ps[a].id@
            != ps[b].id@ by {
            if a < ps0.len() && b < ps0.len() {
                assert(ps[a] == ps0[a] && ps[b] == ps0[b]);
            } else if a < ps0.len() {
                assert(ps[a] == ps0[a]);
            } else {
                assert(ps[b] == ps0[b]);
            }
        }
    }
    let mut k: usize = 0;
    while k < votes.len()
        invariant
            k <= votes@.len(),
            poll.event == p.event,
            poll.slots@ == p.slots@,
            p.wf(),
            poll.participants@ == pq,
            pq == p.participants@.push(newp),
            newp.id@ == participant_id@,
            newp.event_id@ == p.event.id@,
            newp == fresh,
            i < before.len(),
            p == before[i as int],
            !participant_in_store(before, participant_id@),
            !has_participant(p, participant_id@),
            participant_ids_unique(poll.participants@),
            participant_listed(poll.participants@, participant_id@),
            slots_known(p, votes@),
            poll.votes@ == upsert_all(p.votes@, participant_id, votes@.take(k as int)),
            vote_keys_unique(poll.votes@),
            votes_refer_to(poll.votes@, poll.participants@, poll.slots@),
        decreases votes.len() - k,
    {
        let row = VoteRow {
            participant_id: participant_id.clone(),
            time_slot_id: votes[k].time_slot_id.clone(),
            available: votes[k].available,
        };
        proof {
            let t = votes@.take(k + 1);
            assert(t.drop_last() =~= votes@.take(k as int));
            assert(t.last() == votes@[k as int]);
            assert(row == vote_row(participant_id, votes@[k as int]));
            assert(has_slot(p, votes@[k as int].time_slot_id@));
            lemma_upsert_refers(poll.votes@, poll.participants@, poll.slots@, row);
        }
        upsert_vote(&mut poll.votes, row);
        k = k + 1;
    }
    proof {
        assert(votes@.take(votes@.len() as int) =~= votes@);
        assert forall|a: int| 0 <= a < pq.len() implies (#[trigger] pq[a]).event_id@ == poll.event.id@ by {
            if a < p.participants@.len() {
                assert(pq[a] == p.participants@[a]);
            }
        }
        assert(poll.wf());
    }
    proof {
        assert forall|id: Seq<char>| #[trigger] has_participant(poll, id) implies has_participant(
            before[i as int],
            id,
        ) || !participant_in_store(before, id) by {
            let k = choose|k: int| 0 <= k < pq.len() && pq[k].id@ == id;
            if k < p.participants@.len() {
                assert(pq[k] == p.participants@[k]);
            } else {
                assert(pq[k] == newp);
            }
        }
        lemma_globals_after_update(before, i as int, poll);
    }
    store.polls.insert(i, poll);
    proof {
        let ps = store.polls@;
        assert(ps =~= before.update(i as int, poll));
        assert forall|a: int, b: int|
            0 <= a < ps.len() && 0 <= b < ps.len() && a != b implies ps[a].event.id@
            != ps[b].event.id@ by {
            assert(ps[a].event == before[a].event && ps[b].event == before[b].event);
        }
        assert forall|a: int| 0 <= a < ps.len() implies (#[trigger] ps[a]).wf() by {
            if a != i {
                assert(ps[a] == before[a]);
            }
        }
    }
    Ok(SubmitVoteResponse { participant_id })
}

/// Records a new participant of the event with their votes, as one unit.
pub fn submit_vote(store: &mut PollStore, event_id: &String, payload: &SubmitVoteRequest) -> (r:
    Result<SubmitVoteResponse, ApiError>)
    requires
        old(store).wf(),
    ensures
        final(store).wf(),
        trim_of(payload.participant_name@).len() == 0 ==> r == Err::<SubmitVoteResponse, ApiError>(
            ApiError::Validation,
        ),
        trim_of(payload.participant_name@).len() > 0 && poll_index(old(store).polls@, event_id@) < 0
            ==> r == Err::<SubmitVoteResponse, ApiError>(ApiError::NotFound),
        trim_of(payload.participant_name@).len() > 0 && poll_index(old(store).polls@, event_id@)
            >= 0 ==> {
            let p = old(store).polls@[poll_index(old(store).polls@, event_id@)];
            &&& !slots_known(p, payload.votes@) ==> r == Err::<SubmitVoteResponse, ApiError>(
                ApiError::Validation,
            )
            &&& slots_known(p, payload.votes@) ==> (r is Ok || r == Err::<
                SubmitVoteResponse,
                ApiError,
            >(ApiError::Storage))
        },
        r is Err ==> unchanged(*old(store), *final(store)),
        r matches Ok(resp) ==> {
            let i = poll_index(old(store).polls@, event_id@);
            let q = final(store).polls@[i];
            &&& 0 <= i < old(store).polls@.len()
            &&& !participant_in_store(old(store).polls@, resp.participant_id@)
            &&& poll_replaced(*old(store), *final(store), i, q)
            &&& submitted(
                old(store).polls@[i],
                q,
                trim_of(payload.participant_name@),
                payload.votes@,
            )
            &&& q.participants@.last().id@ == resp.participant_id@
            &&& q.participants@.last().event_id@ == event_id@
        },
{
    let name = trimmed(payload.participant_name.as_str());
    if name.as_str().is_empty() {
        return Err(ApiError::Validation);
    }
    let i = match find_poll(&store.polls, event_id) {
        Some(i) => i,
        None => {
            return Err(ApiError::NotFound);
        },
    };
    if !all_slots_known(&store.polls[i], &payload.votes) {
        return Err(ApiError::Validation);
    }
    let participant = match ParticipantRow::new(event_id.as_str(), name) {
        Some(q) => q,
        None => {
            return Err(ApiError::Storage);
        },
    };
    record_submission(store, i, participant, &payload.votes)
}

/// Replaces all votes of an existing participant of the event by the given
/// ones, as one unit: a time slot left out loses the participant's vote.
pub fn update_votes(
    store: &mut PollStore,
    event_id: &String,
    participant_id: &String,
    payload: &UpdateVotesRequest,
) -> (r: Result<UpdateVotesResponse, ApiError>)
    requires
        old(store).wf(),
    ensures
        final(store).wf(),
        ({
            let i = poll_index(old(store).polls@, event_id@);
            let p = old(store).polls@[i];
            let found = i >= 0 && has_participant(p, participant_id@);
            &&& payload.votes@.len() == 0 ==> r == Err::<UpdateVotesResponse, ApiError>(
                ApiError::Validation,
            )
            &&& payload.votes@.len() > 0 && !found ==> r == Err::<UpdateVotesResponse, ApiError>(
                ApiError::NotFound,
            )
            &&& payload.votes@.len() > 0 && found && !slots_known(p, payload.votes@) ==> r == Err::<
                UpdateVotesResponse,
                ApiError,
            >(ApiError::Validation)
            &&& payload.votes@.len() > 0 && found && slots_known(p, payload.votes@)
                && !slots_distinct(payload.votes@) ==> r == Err::<UpdateVotesResponse, ApiError>(
                ApiError::Storage,
            )
            &&& payload.votes@.len() > 0 && found && slots_known(p, payload.votes@) && slots_distinct(
                payload.votes@,
            ) ==> r is Ok
            &&& r matches Ok(resp) ==> {
                &&& resp.participant_id@ == participant_id@
                &&& poll_replaced(*old(store), *final(store), i, final(store).polls@[i])
                &&& votes_replaced(p, final(store).polls@[i], *participant_id, payload.votes@)
            }
        }),
        r is Err ==> unchanged(*old(store), *final(store)),
{
    if payload.votes.len() == 0 {
        return Err(ApiError::Validation);
    }
    let i = match find_poll(&store.polls, event_id) {
        Some(i) => i,
        None => {
            return Err(ApiError::NotFound);
        },
    };
    if !poll_has_participant(&store.polls[i], participant_id) {
        return Err(ApiError::NotFound);
    }
    if !all_slots_known(&store.polls[i], &payload.votes) {
        return Err(ApiError::Validation);
    }
    if !inputs_distinct(&payload.votes) {
        return Err(ApiError::Storage);
    }
    let ghost before = store.polls@;
    let ghost p = store.polls@[i as int];
    let mut poll = store.polls.remove(i);
    proof {
        assert(poll.wf());
    }
    let mut votes = remove_participant_votes(&poll.votes, participant_id);
    let mut k: usize = 0;
    while k < payload.votes.len()
        invariant
            k <= payload.votes@.len(),
            votes@ == crate::ledger::without_participant(p.votes@, participant_id@) + rows_for(
                *participant_id,
                payload.votes@.take(k as int),
            ),
        decreases payload.votes.len() - k,
    {
        let row = VoteRow {
            participant_id: participant_id.clone(),
            time_slot_id: payload.votes[k].time_slot_id.clone(),
            available: payload.votes[k].available,
        };
        let ghost v0 = votes@;
        votes.push(row);
        proof {
            let w = crate::ledger::without_participant(p.votes@, participant_id@);
            assert(rows_for(*participant_id, payload.votes@.take(k + 1)) =~= rows_for(
                *participant_id,
                payload.votes@.take(k as int),
            ).push(row));
            assert(votes@ =~= w + rows_for(*participant_id, payload.votes@.take(k + 1)));
        }
        k = k + 1;
    }
    proof {
        assert(payload.votes@.take(payload.votes@.len() as int) =~= payload.votes@);
        lemma_replaced_keys_unique(p.votes@, *participant_id, payload.votes@);
        assert forall|a: int| 0 <= a < payload.votes@.len() implies slot_listed(
            p.slots@,
            (#[trigger] payload.votes@[a]).time_slot_id@,
        ) by {
            assert(has_slot(p, payload.votes@[a].time_slot_id@));
        }
        lemma_replaced_refers(p.votes@, p.participants@, p.slots@, *participant_id, payload.votes@);
    }
    poll.votes = votes;
    proof {
        assert(poll.wf());
        lemma_globals_after_update(before, i as int, poll);
    }
    store.polls.insert(i, poll);
    proof {
        let ps = store.polls@;
        assert(ps =~= before.update(i as int, poll));
        assert forall|a: int, b: int|
            0 <= a < ps.len() && 0 <= b < ps.len() && a != b implies ps[a].event.id@
            != ps[b].event.id@ by {
            assert(ps[a].event == before[a].event && ps[b].event == before[b].event);
        }
        assert forall|a: int| 0 <= a < ps.len() implies (#[trigger] ps[a]).wf() by {
            if a != i {
                assert(ps[a] == before[a]);
            }
        }
    }
    Ok(UpdateVotesResponse { participant_id: participant_id.clone() })
}

} // verus!
