//! Laws that relate the operations: what a read shows after each write.

use crate::assembly::{participant_matches, poll_matches, slot_matches};
use crate::auth::credentials_given;
use crate::ledger::{
    count_available, input_count, input_pairs, lemma_count_concat, lemma_count_split,
    lemma_own_count_at_most_one, lemma_own_count_votes_of, lemma_rows_for,
    lemma_upsert_all_fresh, lemma_votes_of_concat, lemma_without_absent, lemma_without_concat,
    lemma_without_from, none_of, own_count, rows_for, slots_distinct, votes_of,
    without_participant,
};
use crate::model::{
    AdminAuthRequest, CreateEventRequest, ParticipantResponse, ParticipantRow, PollResponse,
    TimeSlotInput, TimeSlotResponse, VoteInput, VoteRow,
};
use crate::platform::{hash_parses, password_matches, trim_of};
use crate::repository::{created_poll, owned_events, slot_times};
use crate::store::{
    admin_index, has_participant, has_slot, participant_ids_unique, participant_listed,
    poll_index, slot_ids_global, vote_keys_unique, PollStore, PollTables,
};
use crate::voting::{slots_known, submitted, votes_replaced};
use vstd::prelude::*;

verus! {

/// The start and end of each time slot of a read model.
pub open spec fn response_times(s: Seq<TimeSlotResponse>) -> Seq<TimeSlotInput> {
    s.map_values(|t: TimeSlotResponse| TimeSlotInput { starts_at: t.starts_at, ends_at: t.ends_at })
}

/// Reading a poll right after creating it shows exactly the requested time
/// slots, ordered by start time, each with a tally of zero, and no
/// participants.
pub proof fn law_created_poll_reads_back(
    store: PollStore,
    id: Seq<char>,
    admin_id: Seq<char>,
    payload: CreateEventRequest,
    resp: PollResponse,
)
    requires
        store.wf(),
        store.polls@.len() > 0,
        store.polls@.last().event.id@ == id,
        created_poll(store.polls@.last(), id, admin_id, payload),
        poll_matches(resp, store.polls@[poll_index(store.polls@, id)]),
    ensures
        response_times(resp.time_slots@).to_multiset() == payload.time_slots@.to_multiset(),
        forall|i: int, j: int|
            0 <= i <= j < resp.time_slots@.len() ==> resp.time_slots@[i].starts_at.spec_le(
                resp.time_slots@[j].starts_at,
            ),
        forall|k: int| 0 <= k < resp.time_slots@.len() ==> (#[trigger] resp.time_slots@[k]).available_count == 0,
        resp.participants@.len() == 0,
{
    let ps = store.polls@;
    let last = ps.len() - 1;
    assert(ps[last] == ps.last());
    let i = poll_index(ps, id);
    assert(ps[i].event.id@ == ps[last].event.id@);
    assert(i == last);
    let p = ps[last];
    assert(response_times(resp.time_slots@) =~= slot_times(p.slots@));
    assert(p.votes@ =~= Seq::empty());
    assert forall|k: int| 0 <= k < resp.time_slots@.len() implies (#[trigger] resp.time_slots@[k]).available_count == 0 by {
        assert(resp.time_slots@[k].available_count == count_available(p.votes@, p.slots@[k].id@));
    }
}

/// A first submission adds a participant whose votes read back as exactly the
/// submitted ones, and raises each time slot's tally by one where the
/// submission says available, leaving it unchanged elsewhere. (Two inputs for
/// one time slot are not a set of votes: the later one wins.)
pub proof fn law_submission_reads_back(
    p: PollTables,
    q: PollTables,
    name: Seq<char>,
    inputs: Seq<VoteInput>,
)
    requires
        p.wf(),
        submitted(p, q, name, inputs),
        slots_distinct(inputs),
    ensures
        votes_of(q.votes@, q.participants@.last().id@) == input_pairs(inputs),
        forall|s: Seq<char>|
            #[trigger] count_available(q.votes@, s) == count_available(p.votes@, s) + input_count(
                inputs,
                s,
            ),
{
    let pid = q.participants@.last().id;
    assert(none_of(p.votes@, pid@)) by {
        assert forall|k: int| 0 <= k < p.votes@.len() implies (#[trigger] p.votes@[k]).participant_id@
            != pid@ by {
            assert(participant_listed(p.participants@, p.votes@[k].participant_id@));
            if p.votes@[k].participant_id@ == pid@ {
                assert(has_participant(p, pid@));
            }
        }
    }
    lemma_upsert_all_fresh(p.votes@, pid, inputs);
    let rows = rows_for(pid, inputs);
    lemma_votes_of_concat(p.votes@, rows, pid@);
    lemma_without_absent(p.votes@, pid@);
    assert forall|s: Seq<char>| #[trigger] count_available(q.votes@, s) == count_available(p.votes@, s)
        + input_count(inputs, s) by {
        lemma_count_concat(p.votes@, rows, s);
        lemma_rows_for(pid, inputs, s);
    }
    lemma_rows_for(pid, inputs, Seq::empty());
    assert(Seq::<(Seq<char>, bool)>::empty() + input_pairs(inputs) =~= input_pairs(inputs));
}

/// Replacing a participant's votes a second time with the same votes leaves
/// the event's rows, and so its read model, as the first replacement left
/// them.
pub proof fn law_replace_idempotent(
    p: PollTables,
    q1: PollTables,
    q2: PollTables,
    participant_id: String,
    inputs: Seq<VoteInput>,
)
    requires
        votes_replaced(p, q1, participant_id, inputs),
        votes_replaced(q1, q2, participant_id, inputs),
    ensures
        q2.event == q1.event,
        q2.slots@ == q1.slots@,
        q2.participants@ == q1.participants@,
        q2.votes@ == q1.votes@,
        forall|r: PollResponse| #[trigger] poll_matches(r, q1) <==> poll_matches(r, q2),
{
    let w = without_participant(p.votes@, participant_id@);
    let rows = rows_for(participant_id, inputs);
    lemma_without_from(p.votes@, participant_id@);
    assert(none_of(w, participant_id@)) by {
        assert forall|k: int| 0 <= k < w.len() implies (#[trigger] w[k]).participant_id@ != participant_id@ by {
        }
    }
    lemma_without_absent(w, participant_id@);
    lemma_without_concat(w, rows, participant_id@);
    lemma_rows_for(participant_id, inputs, Seq::empty());
    assert(w + Seq::<VoteRow>::empty() =~= w);
}

/// After a replacement the participant's votes read back as exactly the new
/// ones, and each time slot's tally loses the participant's earlier available
/// vote on it (at most one) and gains the new one: a time slot left out of the
/// new votes no longer counts this participant.
pub proof fn law_full_replace(p: PollTables, q: PollTables, participant_id: String, inputs: Seq<VoteInput>)
    requires
        p.wf(),
        votes_replaced(p, q, participant_id, inputs),
    ensures
        votes_of(q.votes@, participant_id@) == input_pairs(inputs),
        forall|s: Seq<char>|
            #[trigger] count_available(q.votes@, s) + own_count(p.votes@, participant_id@, s)
                == count_available(p.votes@, s) + input_count(inputs, s),
        forall|s: Seq<char>| #[trigger] own_count(p.votes@, participant_id@, s) <= 1,
        forall|s: Seq<char>|
            #[trigger] own_count(p.votes@, participant_id@, s) == if exists|j: int|
                0 <= j < votes_of(p.votes@, participant_id@).len() && votes_of(
                    p.votes@,
                    participant_id@,
                )[j] == (s, true) {
                1nat
            } else {
                0nat
            },
{
    let w = without_participant(p.votes@, participant_id@);
    let rows = rows_for(participant_id, inputs);
    lemma_without_from(p.votes@, participant_id@);
    assert(none_of(w, participant_id@)) by {
        assert forall|k: int| 0 <= k < w.len() implies (#[trigger] w[k]).participant_id@ != participant_id@ by {
        }
    }
    lemma_without_absent(w, participant_id@);
    lemma_votes_of_concat(w, rows, participant_id@);
    lemma_rows_for(participant_id, inputs, Seq::empty());
    assert(Seq::<(Seq<char>, bool)>::empty() + input_pairs(inputs) =~= input_pairs(inputs));
    assert forall|s: Seq<char>| #[trigger] count_available(q.votes@, s) + own_count(
        p.votes@,
        participant_id@,
        s,
    ) == count_available(p.votes@, s) + input_count(inputs, s) by {
        lemma_count_concat(w, rows, s);
        lemma_rows_for(participant_id, inputs, s);
        lemma_count_split(p.votes@, participant_id@, s);
    }
    assert forall|s: Seq<char>| #[trigger] own_count(p.votes@, participant_id@, s) <= 1 by {
        lemma_own_count_at_most_one(p.votes@, participant_id@, s);
    }
    assert forall|s: Seq<char>| #[trigger] own_count(p.votes@, participant_id@, s) == if exists|j: int|
        0 <= j < votes_of(p.votes@, participant_id@).len() && votes_of(p.votes@, participant_id@)[j]
            == (s, true) {
        1nat
    } else {
        0nat
    } by {
        lemma_own_count_votes_of(p.votes@, participant_id@, s);
    }
}

/// The number of participants, among those given, whose vote on the time
/// slot says available.
pub open spec fn participants_available(
    v: Seq<VoteRow>,
    participants: Seq<ParticipantRow>,
    slot_id: Seq<char>,
) -> nat
    decreases participants.len(),
{
    if participants.len() == 0 {
        0
    } else {
        participants_available(v, participants.drop_last(), slot_id) + own_count(
            v,
            participants.last().id@,
            slot_id,
        )
    }
}

proof fn lemma_own_count_without_other(
    v: Seq<VoteRow>,
    removed: Seq<char>,
    participant_id: Seq<char>,
    slot_id: Seq<char>,
)
    requires
        removed != participant_id,
    ensures
        own_count(without_participant(v, removed), participant_id, slot_id) == own_count(
            v,
            participant_id,
            slot_id,
        ),
    decreases v.len(),
{
    if v.len() > 0 {
        let d = v.drop_last();
        lemma_own_count_without_other(d, removed, participant_id, slot_id);
        let wd = without_participant(d, removed);
        assert(wd.push(v.last()).drop_last() =~= wd);
    }
}

proof fn lemma_participants_available_congruent(
    v1: Seq<VoteRow>,
    v2: Seq<VoteRow>,
    participants: Seq<ParticipantRow>,
    slot_id: Seq<char>,
)
    requires
        forall|k: int|
            0 <= k < participants.len() ==> own_count(v1, (#[trigger] participants[k]).id@, slot_id)
                == own_count(v2, participants[k].id@, slot_id),
    ensures
        participants_available(v1, participants, slot_id) == participants_available(
            v2,
            participants,
            slot_id,
        ),
    decreases participants.len(),
{
    if participants.len() > 0 {
        let d = participants.drop_last();
        assert forall|k: int| 0 <= k < d.len() implies own_count(v1, (#[trigger] d[k]).id@, slot_id)
            == own_count(v2, d[k].id@, slot_id) by {
            assert(d[k] == participants[k]);
        }
        lemma_participants_available_congruent(v1, v2, d, slot_id);
        assert(participants.last() == participants[participants.len() - 1]);
    }
}

proof fn lemma_tally_by_participants(
    v: Seq<VoteRow>,
    participants: Seq<ParticipantRow>,
    slot_id: Seq<char>,
)
    requires
        participant_ids_unique(participants),
        forall|i: int|
            0 <= i < v.len() ==> participant_listed(participants, (#[trigger] v[i]).participant_id@),
    ensures
        count_available(v, slot_id) == participants_available(v, participants, slot_id),
    decreases participants.len(),
{
    if participants.len() == 0 {
        if v.len() > 0 {
            assert(participant_listed(participants, v[0].participant_id@));
        }
        assert(v =~= Seq::<VoteRow>::empty());
    } else {
        let d = participants.drop_last();
        let last_id = participants.last().id@;
        let n = participants.len() - 1;
        assert(participants[n] == participants.last());
        let w = without_participant(v, last_id);
        lemma_without_from(v, last_id);
        assert(participant_ids_unique(d)) by {
            assert forall|i: int, j: int| 0 <= i < d.len() && 0 <= j < d.len() && i != j implies d[i].id@
                != d[j].id@ by {
                assert(d[i] == participants[i] && d[j] == participants[j]);
            }
        }
        assert forall|i: int| 0 <= i < w.len() implies participant_listed(
            d,
            (#[trigger] w[i]).participant_id@,
        ) by {
            let j = choose|j: int| 0 <= j < v.len() && w[i] == v[j];
            assert(participant_listed(participants, v[j].participant_id@));
            let k = choose|k: int|
                0 <= k < participants.len() && participants[k].id@ == v[j].participant_id@;
            assert(k != n);
            assert(d[k] == participants[k]);
        }
        lemma_tally_by_participants(w, d, slot_id);
        lemma_count_split(v, last_id, slot_id);
        assert forall|k: int| 0 <= k < d.len() implies own_count(w, (#[trigger] d[k]).id@, slot_id)
            == own_count(v, d[k].id@, slot_id) by {
            assert(d[k] == participants[k]);
            assert(participants[k].id@ != participants[n].id@);
            lemma_own_count_without_other(v, last_id, d[k].id@, slot_id);
        }
        lemma_participants_available_congruent(w, v, d, slot_id);
    }
}

/// In every event, a time slot's tally is the number of the event's
/// participants whose vote on it says available: each participant adds at
/// most one.
pub proof fn law_tally_counts_participants(p: PollTables, slot_id: Seq<char>)
    requires
        p.wf(),
    ensures
        count_available(p.votes@, slot_id) == participants_available(
            p.votes@,
            p.participants@,
            slot_id,
        ),
        forall|k: int|
            0 <= k < p.participants@.len() ==> #[trigger] own_count(
                p.votes@,
                p.participants@[k].id@,
                slot_id,
            ) <= 1,
{
    lemma_tally_by_participants(p.votes@, p.participants@, slot_id);
    assert forall|k: int| 0 <= k < p.participants@.len() implies #[trigger] own_count(
        p.votes@,
        p.participants@[k].id@,
        slot_id,
    ) <= 1 by {
        lemma_own_count_at_most_one(p.votes@, p.participants@[k].id@, slot_id);
    }
}

/// A participant of the read model has an available vote on the time slot.
pub open spec fn votes_available_on(q: ParticipantResponse, slot_id: Seq<char>) -> bool {
    exists|j: int|
        0 <= j < q.votes@.len() && q.votes@[j].time_slot_id@ == slot_id && q.votes@[j].available
}

/// The number of the read model's participants with an available vote on the
/// time slot.
pub open spec fn voters(participants: Seq<ParticipantResponse>, slot_id: Seq<char>) -> nat
    decreases participants.len(),
{
    if participants.len() == 0 {
        0
    } else {
        voters(participants.drop_last(), slot_id) + if votes_available_on(
            participants.last(),
            slot_id,
        ) {
            1nat
        } else {
            0nat
        }
    }
}

proof fn lemma_voters_match(
    v: Seq<VoteRow>,
    rows: Seq<ParticipantRow>,
    resps: Seq<ParticipantResponse>,
    slot_id: Seq<char>,
)
    requires
        vote_keys_unique(v),
        rows.len() == resps.len(),
        forall|k: int| 0 <= k < rows.len() ==> participant_matches(#[trigger] resps[k], rows[k], v),
    ensures
        participants_available(v, rows, slot_id) == voters(resps, slot_id),
    decreases rows.len(),
{
    if rows.len() > 0 {
        let n = rows.len() - 1;
        let dr = rows.drop_last();
        let ds = resps.drop_last();
        assert forall|k: int| 0 <= k < dr.len() implies participant_matches(#[trigger] ds[k], dr[k], v) by {
            assert(ds[k] == resps[k] && dr[k] == rows[k]);
        }
        lemma_voters_match(v, dr, ds, slot_id);
        let q = resps[n];
        let row = rows[n];
        assert(q == resps.last() && row == rows.last());
        assert(participant_matches(q, row, v));
        lemma_own_count_votes_of(v, row.id@, slot_id);
        let vo = votes_of(v, row.id@);
        if votes_available_on(q, slot_id) {
            let j = choose|j: int|
                0 <= j < q.votes@.len() && q.votes@[j].time_slot_id@ == slot_id && q.votes@[j].available;
            assert(vo[j] == (slot_id, true));
        }
        if exists|j: int| 0 <= j < vo.len() && vo[j] == (slot_id, true) {
            let j = choose|j: int| 0 <= j < vo.len() && vo[j] == (slot_id, true);
            assert(q.votes@[j].time_slot_id@ == slot_id && q.votes@[j].available);
        }
    }
}

/// In every read model of an event, each time slot's tally is the number of
/// listed participants whose votes hold an available vote on that slot.
pub proof fn law_read_model_tally(r: PollResponse, p: PollTables)
    requires
        p.wf(),
        poll_matches(r, p),
    ensures
        forall|k: int|
            0 <= k < r.time_slots@.len() ==> (#[trigger] r.time_slots@[k]).available_count == voters(
                r.participants@,
                r.time_slots@[k].id@,
            ),
{
    assert forall|k: int| 0 <= k < r.time_slots@.len() implies (#[trigger] r.time_slots@[k]).available_count
        == voters(r.participants@, r.time_slots@[k].id@) by {
        let s = p.slots@[k].id@;
        assert(slot_matches(r.time_slots@[k], p.slots@[k], p.votes@));
        law_tally_counts_participants(p, s);
        lemma_voters_match(p.votes@, p.participants@, r.participants@, s);
    }
}

/// A vote naming a time slot of another event names no time slot of this
/// one, so a batch holding it is rejected as a whole.
pub proof fn law_foreign_slot_rejected(
    store: PollStore,
    i: int,
    j: int,
    inputs: Seq<VoteInput>,
    k: int,
)
    requires
        store.wf(),
        0 <= i < store.polls@.len(),
        0 <= j < store.polls@.len(),
        i != j,
        0 <= k < inputs.len(),
        has_slot(store.polls@[j], inputs[k].time_slot_id@),
    ensures
        !has_slot(store.polls@[i], inputs[k].time_slot_id@),
        !slots_known(store.polls@[i], inputs),
{
    assert(slot_ids_global(store.polls@));
    let id = inputs[k].time_slot_id@;
    assert(has_slot(store.polls@[j], id) ==> !has_slot(store.polls@[i], id));
}

/// An admin whose stored hash was made from a password (as signing up stores
/// it) is found by the trimmed name, and that password checks out against
/// the hash: logging in with the same name and password succeeds unless the
/// store fails.
pub proof fn law_login_after_signup(store: PollStore, k: int, req: AdminAuthRequest)
    requires
        store.wf(),
        credentials_given(req),
        0 <= k < store.admins@.len(),
        store.admins@[k].name@ == trim_of(req.name@),
        hash_parses(store.admins@[k].password_hash@),
        password_matches(req.password@, store.admins@[k].password_hash@),
    ensures
        admin_index(store.admins@, trim_of(req.name@)) == k,
{
    let i = admin_index(store.admins@, trim_of(req.name@));
    assert(store.admins@[i].name@ == store.admins@[k].name@);
}

/// Listing shows an admin only the events that admin owns.
pub proof fn law_listing_only_owned(polls: Seq<PollTables>, admin_id: Seq<char>)
    ensures
        forall|k: int|
            0 <= k < owned_events(polls, admin_id).len() ==> (#[trigger] owned_events(
                polls,
                admin_id,
            )[k]).admin_id@ == admin_id,
    decreases polls.len(),
{
    if polls.len() > 0 {
        law_listing_only_owned(polls.drop_last(), admin_id);
        let rest = owned_events(polls.drop_last(), admin_id);
        let all = owned_events(polls, admin_id);
        if polls.last().event.admin_id@ == admin_id {
            assert forall|k: int| 0 <= k < all.len() implies (#[trigger] all[k]).admin_id@ == admin_id by {
                if k > 0 {
                    assert(all[k] == rest[k - 1]);
                }
            }
        }
    }
}

} // verus!
