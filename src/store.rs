//! The relational state: admins and their sessions, and per event the event
//! row with its time slots, participants and votes. Keeping each event's rows
//! together makes the cascade on deletion a single removal.

use crate::model::{AdminRow, EventRow, ParticipantRow, SessionRow, TimeSlotRow, VoteRow};
use vstd::prelude::*;

verus! {

/// The rows that belong to one event.
#[derive(Clone, Debug)]
pub struct PollTables {
    pub event: EventRow,
    /// Ordered by start time, ascending.
    pub slots: Vec<TimeSlotRow>,
    /// Ordered by creation.
    pub participants: Vec<ParticipantRow>,
    pub votes: Vec<VoteRow>,
}

/// The whole store, handed explicitly to every operation.
#[derive(Clone, Debug)]
pub struct PollStore {
    pub admins: Vec<AdminRow>,
    pub sessions: Vec<SessionRow>,
    /// Ordered by creation.
    pub polls: Vec<PollTables>,
}

pub open spec fn slot_ids_unique(s: Seq<TimeSlotRow>) -> bool {
    forall|i: int, j: int|
        0 <= i < s.len() && 0 <= j < s.len() && i != j ==> s[i].id@ != s[j].id@
}

pub open spec fn participant_ids_unique(s: Seq<ParticipantRow>) -> bool {
    forall|i: int, j: int|
        0 <= i < s.len() && 0 <= j < s.len() && i != j ==> s[i].id@ != s[j].id@
}

pub open spec fn event_ids_unique(s: Seq<PollTables>) -> bool {
    forall|i: int, j: int|
        0 <= i < s.len() && 0 <= j < s.len() && i != j ==> s[i].event.id@ != s[j].event.id@
}

pub open spec fn admins_unique(s: Seq<AdminRow>) -> bool {
    forall|i: int, j: int|
        0 <= i < s.len() && 0 <= j < s.len() && i != j ==> s[i].id@ != s[j].id@ && s[i].name@
            != s[j].name@
}

pub open spec fn session_ids_unique(s: Seq<SessionRow>) -> bool {
    forall|i: int, j: int|
        0 <= i < s.len() && 0 <= j < s.len() && i != j ==> s[i].id@ != s[j].id@
}

/// Two votes with the same participant and the same time slot.
pub open spec fn same_key(a: VoteRow, b: VoteRow) -> bool {
    a.participant_id@ == b.participant_id@ && a.time_slot_id@ == b.time_slot_id@
}

/// At most one vote per participant per time slot.
pub open spec fn vote_keys_unique(v: Seq<VoteRow>) -> bool {
    forall|i: int, j: int| 0 <= i < v.len() && 0 <= j < v.len() && i != j ==> !same_key(v[i], v[j])
}

pub open spec fn slots_sorted(s: Seq<TimeSlotRow>) -> bool {
    forall|i: int, j: int| 0 <= i <= j < s.len() ==> s[i].starts_at.spec_le(s[j].starts_at)
}

pub open spec fn slot_listed(slots: Seq<TimeSlotRow>, slot_id: Seq<char>) -> bool {
    exists|k: int| 0 <= k < slots.len() && slots[k].id@ == slot_id
}

pub open spec fn participant_listed(participants: Seq<ParticipantRow>, participant_id: Seq<char>) -> bool {
    exists|k: int| 0 <= k < participants.len() && participants[k].id@ == participant_id
}

pub open spec fn has_slot(p: PollTables, slot_id: Seq<char>) -> bool {
    slot_listed(p.slots@, slot_id)
}

pub open spec fn has_participant(p: PollTables, participant_id: Seq<char>) -> bool {
    participant_listed(p.participants@, participant_id)
}

pub open spec fn has_admin(admins: Seq<AdminRow>, admin_id: Seq<char>) -> bool {
    exists|k: int| 0 <= k < admins.len() && admins[k].id@ == admin_id
}

/// Every vote refers to one of the participants and one of the time slots.
pub open spec fn votes_refer_to(
    votes: Seq<VoteRow>,
    participants: Seq<ParticipantRow>,
    slots: Seq<TimeSlotRow>,
) -> bool {
    forall|i: int|
        0 <= i < votes.len() ==> participant_listed(participants, (#[trigger] votes[i]).participant_id@)
            && slot_listed(slots, votes[i].time_slot_id@)
}

/// Every vote refers to a participant and a time slot of this event.
pub open spec fn votes_refer(p: PollTables) -> bool {
    votes_refer_to(p.votes@, p.participants@, p.slots@)
}

/// Some event of the store has a time slot with this id.
pub open spec fn slot_in_store(polls: Seq<PollTables>, slot_id: Seq<char>) -> bool {
    exists|i: int| 0 <= i < polls.len() && has_slot(polls[i], slot_id)
}

/// Some event of the store has a participant with this id.
pub open spec fn participant_in_store(polls: Seq<PollTables>, participant_id: Seq<char>) -> bool {
    exists|i: int| 0 <= i < polls.len() && has_participant(polls[i], participant_id)
}

/// No two events share a time slot id.
pub open spec fn slot_ids_global(polls: Seq<PollTables>) -> bool {
    forall|i: int, j: int, id: Seq<char>|
        #![trigger has_slot(polls[i], id), has_slot(polls[j], id)]
        0 <= i < polls.len() && 0 <= j < polls.len() && i != j && has_slot(polls[i], id)
            ==> !has_slot(polls[j], id)
}

/// No two events share a participant id.
pub open spec fn participant_ids_global(polls: Seq<PollTables>) -> bool {
    forall|i: int, j: int, id: Seq<char>|
        #![trigger has_participant(polls[i], id), has_participant(polls[j], id)]
        0 <= i < polls.len() && 0 <= j < polls.len() && i != j && has_participant(polls[i], id)
            ==> !has_participant(polls[j], id)
}

/// Adding an event whose time slot and participant ids are new to the store
/// keeps ids unique across events.
pub proof fn lemma_globals_after_push(polls: Seq<PollTables>, q: PollTables)
    requires
        slot_ids_global(polls),
        participant_ids_global(polls),
        forall|id: Seq<char>| #[trigger] has_slot(q, id) ==> !slot_in_store(polls, id),
        forall|id: Seq<char>| #[trigger] has_participant(q, id) ==> !participant_in_store(polls, id),
    ensures
        slot_ids_global(polls.push(q)),
        participant_ids_global(polls.push(q)),
{
    let ps = polls.push(q);
    let n = polls.len() as int;
    assert forall|i: int, j: int, id: Seq<char>|
        0 <= i < ps.len() && 0 <= j < ps.len() && i != j && #[trigger] has_slot(ps[i], id) implies !#[trigger] has_slot(
        ps[j],
        id,
    ) by {
        if i < n && j < n {
            assert(ps[i] == polls[i] && ps[j] == polls[j]);
        } else if i < n {
            assert(ps[i] == polls[i] && ps[j] == q);
        } else {
            assert(ps[j] == polls[j] && ps[i] == q);
        }
    }
    assert forall|i: int, j: int, id: Seq<char>|
        0 <= i < ps.len() && 0 <= j < ps.len() && i != j && #[trigger] has_participant(ps[i], id) implies !#[trigger] has_participant(
        ps[j],
        id,
    ) by {
        if i < n && j < n {
            assert(ps[i] == polls[i] && ps[j] == polls[j]);
        } else if i < n {
            assert(ps[i] == polls[i] && ps[j] == q);
        } else {
            assert(ps[j] == polls[j] && ps[i] == q);
        }
    }
}

/// Removing an event keeps ids unique across events.
pub proof fn lemma_globals_after_remove(polls: Seq<PollTables>, k: int)
    requires
        0 <= k < polls.len(),
        slot_ids_global(polls),
        participant_ids_global(polls),
    ensures
        slot_ids_global(polls.remove(k)),
        participant_ids_global(polls.remove(k)),
{
    let ps = polls.remove(k);
    assert forall|i: int, j: int, id: Seq<char>|
        0 <= i < ps.len() && 0 <= j < ps.len() && i != j && #[trigger] has_slot(ps[i], id) implies !#[trigger] has_slot(
        ps[j],
        id,
    ) by {
        let i0 = if i < k { i } else { i + 1 };
        let j0 = if j < k { j } else { j + 1 };
        assert(ps[i] == polls[i0] && ps[j] == polls[j0]);
    }
    assert forall|i: int, j: int, id: Seq<char>|
        0 <= i < ps.len() && 0 <= j < ps.len() && i != j && #[trigger] has_participant(ps[i], id) implies !#[trigger] has_participant(
        ps[j],
        id,
    ) by {
        let i0 = if i < k { i } else { i + 1 };
        let j0 = if j < k { j } else { j + 1 };
        assert(ps[i] == polls[i0] && ps[j] == polls[j0]);
    }
}

/// Replacing an event by one with the same time slots, whose participants
/// are its old ones or new to the store, keeps ids unique across events.
pub proof fn lemma_globals_after_update(polls: Seq<PollTables>, k: int, q: PollTables)
    requires
        0 <= k < polls.len(),
        slot_ids_global(polls),
        participant_ids_global(polls),
        q.slots@ == polls[k].slots@,
        forall|id: Seq<char>|
            #[trigger] has_participant(q, id) ==> has_participant(polls[k], id)
                || !participant_in_store(polls, id),
    ensures
        slot_ids_global(polls.update(k, q)),
        participant_ids_global(polls.update(k, q)),
{
    let ps = polls.update(k, q);
    assert forall|i: int, j: int, id: Seq<char>|
        0 <= i < ps.len() && 0 <= j < ps.len() && i != j && #[trigger] has_slot(ps[i], id) implies !#[trigger] has_slot(
        ps[j],
        id,
    ) by {
        assert(has_slot(ps[i], id) == has_slot(polls[i], id));
        assert(has_slot(ps[j], id) == has_slot(polls[j], id));
    }
    assert forall|i: int, j: int, id: Seq<char>|
        0 <= i < ps.len() && 0 <= j < ps.len() && i != j && #[trigger] has_participant(ps[i], id) implies !#[trigger] has_participant(
        ps[j],
        id,
    ) by {
        if i == k {
            assert(ps[j] == polls[j]);
            if !has_participant(polls[k], id) {
                assert(!participant_in_store(polls, id));
            }
        } else if j == k {
            assert(ps[i] == polls[i]);
            assert(participant_in_store(polls, id));
        } else {
            assert(ps[i] == polls[i] && ps[j] == polls[j]);
        }
    }
}

impl PollTables {
    /// Referential integrity and key uniqueness inside one event.
    pub open spec fn wf(self) -> bool {
        &&& slot_ids_unique(self.slots@)
        &&& slots_sorted(self.slots@)
        &&& forall|i: int|
            0 <= i < self.slots@.len() ==> (#[trigger] self.slots@[i]).event_id@
                == self.event.id@
        &&& participant_ids_unique(self.participants@)
        &&& forall|i: int|
            0 <= i < self.participants@.len() ==> (#[trigger] self.participants@[i]).event_id@
                == self.event.id@
        &&& votes_refer(self)
        &&& vote_keys_unique(self.votes@)
    }
}

impl PollStore {
    pub open spec fn wf(self) -> bool {
        &&& admins_unique(self.admins@)
        &&& session_ids_unique(self.sessions@)
        &&& forall|i: int|
            0 <= i < self.sessions@.len() ==> has_admin(
                self.admins@,
                (#[trigger] self.sessions@[i]).admin_id@,
            )
        &&& event_ids_unique(self.polls@)
        &&& slot_ids_global(self.polls@)
        &&& participant_ids_global(self.polls@)
        &&& forall|i: int| 0 <= i < self.polls@.len() ==> (#[trigger] self.polls@[i]).wf()
    }

    /// An empty store.
    pub fn new() -> (r: PollStore)
        ensures
            r.wf(),
            r.admins@.len() == 0,
            r.sessions@.len() == 0,
            r.polls@.len() == 0,
    {
        PollStore { admins: Vec::new(), sessions: Vec::new(), polls: Vec::new() }
    }
}

/// The two stores hold the same rows.
pub open spec fn unchanged(before: PollStore, after: PollStore) -> bool {
    &&& after.admins@ == before.admins@
    &&& after.sessions@ == before.sessions@
    &&& after.polls@ == before.polls@
}

/// Index of the event with the given id, or -1.
pub open spec fn poll_index(polls: Seq<PollTables>, id: Seq<char>) -> int {
    if exists|i: int| 0 <= i < polls.len() && polls[i].event.id@ == id {
        choose|i: int| 0 <= i < polls.len() && polls[i].event.id@ == id
    } else {
        -1
    }
}

/// Index of the session with the given token, or -1.
pub open spec fn session_index(sessions: Seq<SessionRow>, token: Seq<char>) -> int {
    if exists|i: int| 0 <= i < sessions.len() && sessions[i].id@ == token {
        choose|i: int| 0 <= i < sessions.len() && sessions[i].id@ == token
    } else {
        -1
    }
}

/// Index of the admin with the given name, or -1.
pub open spec fn admin_index(admins: Seq<AdminRow>, name: Seq<char>) -> int {
    if exists|i: int| 0 <= i < admins.len() && admins[i].name@ == name {
        choose|i: int| 0 <= i < admins.len() && admins[i].name@ == name
    } else {
        -1
    }
}

pub fn find_poll(polls: &Vec<PollTables>, id: &String) -> (r: Option<usize>)
    requires
        event_ids_unique(polls@),
    ensures
        r is None <==> poll_index(polls@, id@) == -1,
        r matches Some(i) ==> i == poll_index(polls@, id@),
        poll_index(polls@, id@) == -1 || (0 <= poll_index(polls@, id@) < polls@.len()
            && polls@[poll_index(polls@, id@)].event.id@ == id@),
{
    let mut i: usize = 0;
    while i < polls.len()
        invariant
            i <= polls@.len(),
            event_ids_unique(polls@),
            forall|k: int| 0 <= k < i ==> polls@[k].event.id@ != id@,
        decreases polls.len() - i,
    {
        if polls[i].event.id == *id {
            proof {
                assert(exists|k: int| 0 <= k < polls@.len() && polls@[k].event.id@ == id@);
                let k = poll_index(polls@, id@);
                assert(polls@[k].event.id@ == polls@[i as int].event.id@);
            }
            return Some(i);
        }
        i = i + 1;
    }
    None
}

/// Whether the event has the time slot.
pub fn poll_has_slot(p: &PollTables, slot_id: &String) -> (r: bool)
    ensures
        r == has_slot(*p, slot_id@),
{
    let mut i: usize = 0;
    while i < p.slots.len()
        invariant
            i <= p.slots@.len(),
            forall|k: int| 0 <= k < i ==> p.slots@[k].id@ != slot_id@,
        decreases p.slots.len() - i,
    {
        if p.slots[i].id == *slot_id {
            return true;
        }
        i = i + 1;
    }
    false
}

/// Whether the event has the participant.
pub fn poll_has_participant(p: &PollTables, participant_id: &String) -> (r: bool)
    ensures
        r == has_participant(*p, participant_id@),
{
    let mut i: usize = 0;
    while i < p.participants.len()
        invariant
            i <= p.participants@.len(),
            forall|k: int| 0 <= k < i ==> p.participants@[k].id@ != participant_id@,
        decreases p.participants.len() - i,
    {
        if p.participants[i].id == *participant_id {
            return true;
        }
        i = i + 1;
    }
    false
}

/// Whether some event of the store has the time slot.
pub fn store_has_slot(polls: &Vec<PollTables>, slot_id: &String) -> (r: bool)
    ensures
        r == slot_in_store(polls@, slot_id@),
{
    let mut i: usize = 0;
    while i < polls.len()
        invariant
            i <= polls@.len(),
            forall|k: int| 0 <= k < i ==> !has_slot(#[trigger] polls@[k], slot_id@),
        decreases polls.len() - i,
    {
        if poll_has_slot(&polls[i], slot_id) {
            return true;
        }
        i = i + 1;
    }
    false
}

/// Whether some event of the store has the participant.
pub fn store_has_participant(polls: &Vec<PollTables>, participant_id: &String) -> (r: bool)
    ensures
        r == participant_in_store(polls@, participant_id@),
{
    let mut i: usize = 0;
    while i < polls.len()
        invariant
            i <= polls@.len(),
            forall|k: int| 0 <= k < i ==> !has_participant(#[trigger] polls@[k], participant_id@),
        decreases polls.len() - i,
    {
        if poll_has_participant(&polls[i], participant_id) {
            return true;
        }
        i = i + 1;
    }
    false
}

} // verus!
