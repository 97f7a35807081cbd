//! The vote table of one event: how it is counted, read per participant,
//! upserted into and fully replaced for one participant.

use crate::model::{ParticipantRow, TimeSlotRow, VoteInput, VoteResponse, VoteRow};
use crate::store::{
    participant_listed, same_key, slot_listed, vote_keys_unique, votes_refer_to,
};
use vstd::prelude::*;

verus! {

/// Number of votes on the time slot that say available.
pub open spec fn count_available(v: Seq<VoteRow>, slot_id: Seq<char>) -> nat
    decreases v.len(),
{
    if v.len() == 0 {
        0
    } else {
        count_available(v.drop_last(), slot_id) + if v.last().time_slot_id@ == slot_id
            && v.last().available {
            1nat
        } else {
            0nat
        }
    }
}

/// One participant's votes as (time slot id, available) pairs, in table order.
pub open spec fn votes_of(v: Seq<VoteRow>, participant_id: Seq<char>) -> Seq<(Seq<char>, bool)>
    decreases v.len(),
{
    if v.len() == 0 {
        seq![]
    } else {
        let rest = votes_of(v.drop_last(), participant_id);
        if v.last().participant_id@ == participant_id {
            rest.push((v.last().time_slot_id@, v.last().available))
        } else {
            rest
        }
    }
}

/// Index of the vote with the given participant and time slot, or -1.
pub open spec fn key_index(v: Seq<VoteRow>, participant_id: Seq<char>, slot_id: Seq<char>) -> int {
    if exists|i: int|
        0 <= i < v.len() && v[i].participant_id@ == participant_id && v[i].time_slot_id@
            == slot_id {
        choose|i: int|
            0 <= i < v.len() && v[i].participant_id@ == participant_id && v[i].time_slot_id@
                == slot_id
    } else {
        -1
    }
}

/// The row that an input writes for a participant.
pub open spec fn vote_row(participant_id: String, x: VoteInput) -> VoteRow {
    VoteRow { participant_id, time_slot_id: x.time_slot_id, available: x.available }
}

/// Insert the row, or overwrite the availability of the row with its key.
pub open spec fn upsert(v: Seq<VoteRow>, row: VoteRow) -> Seq<VoteRow> {
    let k = key_index(v, row.participant_id@, row.time_slot_id@);
    if k >= 0 {
        v.update(
            k,
            VoteRow {
                participant_id: v[k].participant_id,
                time_slot_id: v[k].time_slot_id,
                available: row.available,
            },
        )
    } else {
        v.push(row)
    }
}

/// Upsert the rows of all inputs, in order.
pub open spec fn upsert_all(v: Seq<VoteRow>, participant_id: String, inputs: Seq<VoteInput>) -> Seq<
    VoteRow,
>
    decreases inputs.len(),
{
    if inputs.len() == 0 {
        v
    } else {
        upsert(
            upsert_all(v, participant_id, inputs.drop_last()),
            vote_row(participant_id, inputs.last()),
        )
    }
}

/// The table without the participant's votes.
pub open spec fn without_participant(v: Seq<VoteRow>, participant_id: Seq<char>) -> Seq<VoteRow>
    decreases v.len(),
{
    if v.len() == 0 {
        v
    } else {
        let rest = without_participant(v.drop_last(), participant_id);
        if v.last().participant_id@ == participant_id {
            rest
        } else {
            rest.push(v.last())
        }
    }
}

/// The rows that the inputs write for a participant.
pub open spec fn rows_for(participant_id: String, inputs: Seq<VoteInput>) -> Seq<VoteRow> {
    inputs.map_values(|x: VoteInput| vote_row(participant_id, x))
}

/// The participant's votes replaced by the rows of the inputs.
pub open spec fn replaced(v: Seq<VoteRow>, participant_id: String, inputs: Seq<VoteInput>) -> Seq<
    VoteRow,
> {
    without_participant(v, participant_id@) + rows_for(participant_id, inputs)
}

/// No two inputs name the same time slot.
pub open spec fn slots_distinct(inputs: Seq<VoteInput>) -> bool {
    forall|i: int, j: int|
        0 <= i < inputs.len() && 0 <= j < inputs.len() && i != j ==> inputs[i].time_slot_id@
            != inputs[j].time_slot_id@
}

pub proof fn lemma_count_bounded(v: Seq<VoteRow>, slot_id: Seq<char>)
    ensures
        count_available(v, slot_id) <= v.len(),
    decreases v.len(),
{
    if v.len() > 0 {
        lemma_count_bounded(v.drop_last(), slot_id);
    }
}

pub proof fn lemma_upsert_keeps_keys_unique(v: Seq<VoteRow>, row: VoteRow)
    requires
        vote_keys_unique(v),
    ensures
        vote_keys_unique(upsert(v, row)),
        forall|i: int|
            0 <= i < upsert(v, row).len() ==> (exists|j: int|
                0 <= j < v.len() && same_key(#[trigger] upsert(v, row)[i], v[j])) || same_key(
                upsert(v, row)[i],
                row,
            ),
{
    let k = key_index(v, row.participant_id@, row.time_slot_id@);
    let u = upsert(v, row);
    if k >= 0 {
        assert(u.len() == v.len());
        assert(same_key(v[k], row));
        assert forall|i: int, j: int| 0 <= i < u.len() && 0 <= j < u.len() && i != j implies !same_key(
            u[i],
            u[j],
        ) by {
            assert(same_key(u[i], v[i]) && same_key(u[j], v[j]));
            assert(!same_key(v[i], v[j]));
        }
        assert forall|i: int| 0 <= i < u.len() implies (exists|j: int|
            0 <= j < v.len() && same_key(#[trigger] u[i], v[j])) || same_key(u[i], row) by {
            assert(same_key(u[i], v[i]));
        }
    } else {
        assert forall|i: int, j: int| 0 <= i < u.len() && 0 <= j < u.len() && i != j implies !same_key(
            u[i],
            u[j],
        ) by {
            if i == v.len() as int {
                assert(!same_key(v[j], row));
            } else if j == v.len() as int {
                assert(!same_key(v[i], row));
            }
        }
        assert forall|i: int| 0 <= i < u.len() implies (exists|j: int|
            0 <= j < v.len() && same_key(#[trigger] u[i], v[j])) || same_key(u[i], row) by {
            if i < v.len() {
                assert(same_key(u[i], v[i]));
            }
        }
    }
}

pub proof fn lemma_upsert_refers(
    v: Seq<VoteRow>,
    participants: Seq<ParticipantRow>,
    slots: Seq<TimeSlotRow>,
    row: VoteRow,
)
    requires
        vote_keys_unique(v),
        votes_refer_to(v, participants, slots),
        participant_listed(participants, row.participant_id@),
        slot_listed(slots, row.time_slot_id@),
    ensures
        votes_refer_to(upsert(v, row), participants, slots),
{
    lemma_upsert_keeps_keys_unique(v, row);
    let u = upsert(v, row);
    assert forall|i: int| 0 <= i < u.len() implies participant_listed(
        participants,
        (#[trigger] u[i]).participant_id@,
    ) && slot_listed(slots, u[i].time_slot_id@) by {
        if !same_key(u[i], row) {
            let j = choose|j: int| 0 <= j < v.len() && same_key(u[i], v[j]);
            assert(participant_listed(participants, v[j].participant_id@));
        }
    }
}

pub proof fn lemma_refers_with_more_participants(
    v: Seq<VoteRow>,
    participants: Seq<ParticipantRow>,
    slots: Seq<TimeSlotRow>,
    extra: ParticipantRow,
)
    requires
        votes_refer_to(v, participants, slots),
    ensures
        votes_refer_to(v, participants.push(extra), slots),
{
    assert forall|i: int| 0 <= i < v.len() implies participant_listed(
        participants.push(extra),
        (#[trigger] v[i]).participant_id@,
    ) by {
        let k = choose|k: int| 0 <= k < participants.len() && participants[k].id@ == v[i].participant_id@;
        assert(participants.push(extra)[k] == participants[k]);
    }
}

/// Every remaining vote is one of the table's and not the participant's.
pub proof fn lemma_without_from(v: Seq<VoteRow>, participant_id: Seq<char>)
    ensures
        forall|k: int|
            0 <= k < without_participant(v, participant_id).len() ==> (#[trigger] without_participant(
                v,
                participant_id,
            )[k]).participant_id@ != participant_id && exists|j: int|
                0 <= j < v.len() && without_participant(v, participant_id)[k] == v[j],
    decreases v.len(),
{
    if v.len() > 0 {
        let d = v.drop_last();
        lemma_without_from(d, participant_id);
        let w = without_participant(v, participant_id);
        let wd = without_participant(d, participant_id);
        assert forall|k: int| 0 <= k < w.len() implies (#[trigger] w[k]).participant_id@
            != participant_id && exists|j: int| 0 <= j < v.len() && w[k] == v[j] by {
            if k < wd.len() {
                assert(w[k] == wd[k]);
                let j = choose|j: int| 0 <= j < d.len() && wd[k] == d[j];
                assert(v[j] == d[j]);
            } else {
                assert(w[k] == v.last());
                assert(v[v.len() - 1] == v.last());
            }
        }
    }
}

pub proof fn lemma_without_keys_unique(v: Seq<VoteRow>, participant_id: Seq<char>)
    requires
        vote_keys_unique(v),
    ensures
        vote_keys_unique(without_participant(v, participant_id)),
    decreases v.len(),
{
    if v.len() > 0 {
        let d = v.drop_last();
        assert(vote_keys_unique(d)) by {
            assert forall|i: int, j: int| 0 <= i < d.len() && 0 <= j < d.len() && i != j implies !same_key(
                d[i],
                d[j],
            ) by {
                assert(d[i] == v[i] && d[j] == v[j]);
            }
        }
        lemma_without_keys_unique(d, participant_id);
        lemma_without_from(d, participant_id);
        let w = without_participant(v, participant_id);
        let wd = without_participant(d, participant_id);
        if v.last().participant_id@ != participant_id {
            assert forall|i: int, j: int| 0 <= i < w.len() && 0 <= j < w.len() && i != j implies !same_key(
                w[i],
                w[j],
            ) by {
                if i < wd.len() && j < wd.len() {
                    assert(w[i] == wd[i] && w[j] == wd[j]);
                } else if i < wd.len() {
                    assert(w[i] == wd[i]);
                    let a = choose|a: int| 0 <= a < d.len() && wd[i] == d[a];
                    assert(v[a] == d[a]);
                    assert(!same_key(v[a], v[v.len() - 1]));
                } else {
                    assert(w[j] == wd[j]);
                    let a = choose|a: int| 0 <= a < d.len() && wd[j] == d[a];
                    assert(v[a] == d[a]);
                    assert(!same_key(v[a], v[v.len() - 1]));
                }
            }
        }
    }
}

pub proof fn lemma_replaced_keys_unique(v: Seq<VoteRow>, participant_id: String, inputs: Seq<VoteInput>)
    requires
        vote_keys_unique(v),
        slots_distinct(inputs),
    ensures
        vote_keys_unique(replaced(v, participant_id, inputs)),
{
    lemma_without_keys_unique(v, participant_id@);
    lemma_without_from(v, participant_id@);
    let w = without_participant(v, participant_id@);
    let rows = rows_for(participant_id, inputs);
    let r = replaced(v, participant_id, inputs);
    assert forall|i: int, j: int| 0 <= i < r.len() && 0 <= j < r.len() && i != j implies !same_key(
        r[i],
        r[j],
    ) by {
        if i < w.len() && j < w.len() {
            assert(r[i] == w[i] && r[j] == w[j]);
        } else if i < w.len() {
            assert(r[i] == w[i] && r[j] == rows[j - w.len()]);
        } else if j < w.len() {
            assert(r[j] == w[j] && r[i] == rows[i - w.len()]);
        } else {
            assert(r[i] == rows[i - w.len()] && r[j] == rows[j - w.len()]);
        }
    }
}

pub proof fn lemma_replaced_refers(
    v: Seq<VoteRow>,
    participants: Seq<ParticipantRow>,
    slots: Seq<TimeSlotRow>,
    participant_id: String,
    inputs: Seq<VoteInput>,
)
    requires
        votes_refer_to(v, participants, slots),
        participant_listed(participants, participant_id@),
        forall|k: int| 0 <= k < inputs.len() ==> slot_listed(slots, (#[trigger] inputs[k]).time_slot_id@),
    ensures
        votes_refer_to(replaced(v, participant_id, inputs), participants, slots),
{
    lemma_without_from(v, participant_id@);
    let w = without_participant(v, participant_id@);
    let rows = rows_for(participant_id, inputs);
    let r = replaced(v, participant_id, inputs);
    assert forall|i: int| 0 <= i < r.len() implies participant_listed(
        participants,
        (#[trigger] r[i]).participant_id@,
    ) && slot_listed(slots, r[i].time_slot_id@) by {
        if i < w.len() {
            assert(r[i] == w[i]);
            let j = choose|j: int| 0 <= j < v.len() && w[i] == v[j];
            assert(participant_listed(participants, v[j].participant_id@));
        } else {
            assert(r[i] == rows[i - w.len()]);
            assert(slot_listed(slots, inputs[i - w.len()].time_slot_id@));
        }
    }
}

/// Number of inputs on the time slot that say available.
pub open spec fn input_count(inputs: Seq<VoteInput>, slot_id: Seq<char>) -> nat
    decreases inputs.len(),
{
    if inputs.len() == 0 {
        0
    } else {
        input_count(inputs.drop_last(), slot_id) + if inputs.last().time_slot_id@ == slot_id
            && inputs.last().available {
            1nat
        } else {
            0nat
        }
    }
}

/// Number of the participant's votes on the time slot that say available.
pub open spec fn own_count(v: Seq<VoteRow>, participant_id: Seq<char>, slot_id: Seq<char>) -> nat
    decreases v.len(),
{
    if v.len() == 0 {
        0
    } else {
        own_count(v.drop_last(), participant_id, slot_id) + if v.last().participant_id@
            == participant_id && v.last().time_slot_id@ == slot_id && v.last().available {
            1nat
        } else {
            0nat
        }
    }
}

/// The inputs as (time slot id, available) pairs.
pub open spec fn input_pairs(inputs: Seq<VoteInput>) -> Seq<(Seq<char>, bool)> {
    inputs.map_values(|x: VoteInput| (x.time_slot_id@, x.available))
}

/// No vote of the table is the participant's.
pub open spec fn none_of(v: Seq<VoteRow>, participant_id: Seq<char>) -> bool {
    forall|k: int| 0 <= k < v.len() ==> (#[trigger] v[k]).participant_id@ != participant_id
}

pub proof fn lemma_count_concat(a: Seq<VoteRow>, b: Seq<VoteRow>, slot_id: Seq<char>)
    ensures
        count_available(a + b, slot_id) == count_available(a, slot_id) + count_available(b, slot_id),
    decreases b.len(),
{
    if b.len() > 0 {
        lemma_count_concat(a, b.drop_last(), slot_id);
        assert((a + b).drop_last() =~= a + b.drop_last());
    } else {
        assert(a + b =~= a);
    }
}

pub proof fn lemma_votes_of_concat(a: Seq<VoteRow>, b: Seq<VoteRow>, participant_id: Seq<char>)
    ensures
        votes_of(a + b, participant_id) == votes_of(a, participant_id) + votes_of(b, participant_id),
    decreases b.len(),
{
    if b.len() > 0 {
        lemma_votes_of_concat(a, b.drop_last(), participant_id);
        assert((a + b).drop_last() =~= a + b.drop_last());
        if b.last().participant_id@ == participant_id {
            assert(votes_of(a + b, participant_id) =~= votes_of(a, participant_id) + votes_of(
                b,
                participant_id,
            ));
        }
    } else {
        assert(a + b =~= a);
        assert(votes_of(a, participant_id) + votes_of(b, participant_id) =~= votes_of(a, participant_id));
    }
}

pub proof fn lemma_without_concat(a: Seq<VoteRow>, b: Seq<VoteRow>, participant_id: Seq<char>)
    ensures
        without_participant(a + b, participant_id) == without_participant(a, participant_id)
            + without_participant(b, participant_id),
    decreases b.len(),
{
    if b.len() > 0 {
        lemma_without_concat(a, b.drop_last(), participant_id);
        assert((a + b).drop_last() =~= a + b.drop_last());
        if b.last().participant_id@ != participant_id {
            assert(without_participant(a + b, participant_id) =~= without_participant(a, participant_id)
                + without_participant(b, participant_id));
        }
    } else {
        assert(a + b =~= a);
        assert(without_participant(a, participant_id) + without_participant(b, participant_id)
            =~= without_participant(a, participant_id));
    }
}

pub proof fn lemma_without_absent(v: Seq<VoteRow>, participant_id: Seq<char>)
    requires
        none_of(v, participant_id),
    ensures
        without_participant(v, participant_id) == v,
        votes_of(v, participant_id) == Seq::<(Seq<char>, bool)>::empty(),
        forall|s: Seq<char>| own_count(v, participant_id, s) == 0,
    decreases v.len(),
{
    if v.len() > 0 {
        let d = v.drop_last();
        assert(none_of(d, participant_id)) by {
            assert forall|k: int| 0 <= k < d.len() implies (#[trigger] d[k]).participant_id@
                != participant_id by {
                assert(d[k] == v[k]);
            }
        }
        lemma_without_absent(d, participant_id);
        assert(v[v.len() - 1] == v.last());
        assert(d.push(v.last()) =~= v);
        assert forall|s: Seq<char>| own_count(v, participant_id, s) == 0 by {
            assert(own_count(d, participant_id, s) == 0);
        }
    }
}

pub proof fn lemma_rows_for(participant_id: String, inputs: Seq<VoteInput>, slot_id: Seq<char>)
    ensures
        without_participant(rows_for(participant_id, inputs), participant_id@) == Seq::<VoteRow>::empty(),
        votes_of(rows_for(participant_id, inputs), participant_id@) == input_pairs(inputs),
        count_available(rows_for(participant_id, inputs), slot_id) == input_count(inputs, slot_id),
        own_count(rows_for(participant_id, inputs), participant_id@, slot_id) == input_count(
            inputs,
            slot_id,
        ),
    decreases inputs.len(),
{
    let rows = rows_for(participant_id, inputs);
    if inputs.len() > 0 {
        let d = inputs.drop_last();
        lemma_rows_for(participant_id, d, slot_id);
        assert(rows.drop_last() =~= rows_for(participant_id, d));
        assert(rows.last() == vote_row(participant_id, inputs.last()));
        assert(input_pairs(inputs) =~= input_pairs(d).push(
            (inputs.last().time_slot_id@, inputs.last().available),
        ));
    } else {
        assert(rows =~= Seq::<VoteRow>::empty());
        assert(input_pairs(inputs) =~= Seq::<(Seq<char>, bool)>::empty());
    }
}

/// A table's tally on a time slot is the tally without the participant plus
/// the participant's own available votes on it.
pub proof fn lemma_count_split(v: Seq<VoteRow>, participant_id: Seq<char>, slot_id: Seq<char>)
    ensures
        count_available(v, slot_id) == count_available(without_participant(v, participant_id), slot_id)
            + own_count(v, participant_id, slot_id),
    decreases v.len(),
{
    if v.len() > 0 {
        let d = v.drop_last();
        lemma_count_split(d, participant_id, slot_id);
        let wd = without_participant(d, participant_id);
        assert(wd.push(v.last()).drop_last() =~= wd);
    }
}

/// Upserting rows of a participant who has no votes yet, for distinct time
/// slots, appends them.
pub proof fn lemma_upsert_all_fresh(v: Seq<VoteRow>, participant_id: String, inputs: Seq<VoteInput>)
    requires
        none_of(v, participant_id@),
        slots_distinct(inputs),
    ensures
        upsert_all(v, participant_id, inputs) == v + rows_for(participant_id, inputs),
    decreases inputs.len(),
{
    if inputs.len() > 0 {
        let d = inputs.drop_last();
        assert(slots_distinct(d)) by {
            assert forall|i: int, j: int| 0 <= i < d.len() && 0 <= j < d.len() && i != j implies d[i].time_slot_id@
                != d[j].time_slot_id@ by {
                assert(d[i] == inputs[i] && d[j] == inputs[j]);
            }
        }
        lemma_upsert_all_fresh(v, participant_id, d);
        let u = v + rows_for(participant_id, d);
        let row = vote_row(participant_id, inputs.last());
        assert(key_index(u, row.participant_id@, row.time_slot_id@) == -1) by {
            assert forall|i: int| 0 <= i < u.len() implies !(u[i].participant_id@ == row.participant_id@
                && u[i].time_slot_id@ == row.time_slot_id@) by {
                if i < v.len() {
                    assert(u[i] == v[i]);
                } else {
                    let k = i - v.len();
                    assert(u[i] == vote_row(participant_id, d[k]));
                    assert(d[k] == inputs[k]);
                    assert(inputs.last() == inputs[inputs.len() - 1]);
                }
            }
        }
        assert(u.push(row) =~= v + rows_for(participant_id, inputs));
    } else {
        assert(v + rows_for(participant_id, inputs) =~= v);
    }
}

pub proof fn lemma_own_count_absent(v: Seq<VoteRow>, participant_id: Seq<char>, slot_id: Seq<char>)
    requires
        forall|k: int|
            0 <= k < v.len() ==> !((#[trigger] v[k]).participant_id@ == participant_id
                && v[k].time_slot_id@ == slot_id),
    ensures
        own_count(v, participant_id, slot_id) == 0,
    decreases v.len(),
{
    if v.len() > 0 {
        let d = v.drop_last();
        assert forall|k: int| 0 <= k < d.len() implies !((#[trigger] d[k]).participant_id@
            == participant_id && d[k].time_slot_id@ == slot_id) by {
            assert(d[k] == v[k]);
        }
        lemma_own_count_absent(d, participant_id, slot_id);
        assert(v.last() == v[v.len() - 1]);
    }
}

/// With at most one vote per participant per time slot, a participant adds
/// at most one to a slot's tally.
pub proof fn lemma_own_count_at_most_one(v: Seq<VoteRow>, participant_id: Seq<char>, slot_id: Seq<char>)
    requires
        vote_keys_unique(v),
    ensures
        own_count(v, participant_id, slot_id) <= 1,
    decreases v.len(),
{
    if v.len() > 0 {
        let d = v.drop_last();
        let last = v[v.len() - 1];
        assert(last == v.last());
        if last.participant_id@ == participant_id && last.time_slot_id@ == slot_id {
            assert forall|k: int| 0 <= k < d.len() implies !((#[trigger] d[k]).participant_id@
                == participant_id && d[k].time_slot_id@ == slot_id) by {
                assert(d[k] == v[k]);
                assert(!same_key(v[k], v[v.len() - 1]));
            }
            lemma_own_count_absent(d, participant_id, slot_id);
        } else {
            assert(vote_keys_unique(d)) by {
                assert forall|i: int, j: int| 0 <= i < d.len() && 0 <= j < d.len() && i != j implies !same_key(
                    d[i],
                    d[j],
                ) by {
                    assert(d[i] == v[i] && d[j] == v[j]);
                }
            }
            lemma_own_count_at_most_one(d, participant_id, slot_id);
        }
    }
}

/// Some row of the table is the participant's vote with this time slot and
/// availability.
pub open spec fn pair_from_row(v: Seq<VoteRow>, participant_id: Seq<char>, pair: (Seq<char>, bool)) -> bool {
    exists|k: int|
        0 <= k < v.len() && v[k].participant_id@ == participant_id && v[k].time_slot_id@ == pair.0
            && v[k].available == pair.1
}

/// Every pair of a participant's votes comes from a row of the table.
pub proof fn lemma_votes_of_from(v: Seq<VoteRow>, participant_id: Seq<char>)
    ensures
        forall|j: int|
            0 <= j < votes_of(v, participant_id).len() ==> pair_from_row(
                v,
                participant_id,
                #[trigger] votes_of(v, participant_id)[j],
            ),
    decreases v.len(),
{
    if v.len() > 0 {
        let d = v.drop_last();
        lemma_votes_of_from(d, participant_id);
        let vv = votes_of(v, participant_id);
        let vd = votes_of(d, participant_id);
        let last = v[v.len() - 1];
        assert(last == v.last());
        assert forall|j: int| 0 <= j < vv.len() implies pair_from_row(v, participant_id, #[trigger] vv[j]) by {
            if last.participant_id@ == participant_id {
                assert(vv == vd.push((last.time_slot_id@, last.available)));
            } else {
                assert(vv == vd);
            }
            if j < vd.len() {
                assert(vv[j] == vd[j]);
                assert(pair_from_row(d, participant_id, vd[j]));
                let k = choose|k: int|
                    0 <= k < d.len() && d[k].participant_id@ == participant_id && d[k].time_slot_id@
                        == vd[j].0 && d[k].available == vd[j].1;
                assert(v[k] == d[k]);
            } else {
                assert(vv[j] == (last.time_slot_id@, last.available));
                assert(v[v.len() - 1] == last);
            }
        }
    }
}

/// With at most one vote per participant per time slot, the participant adds
/// one to the slot's tally exactly when their votes hold an available vote on
/// it.
pub proof fn lemma_own_count_votes_of(v: Seq<VoteRow>, participant_id: Seq<char>, slot_id: Seq<char>)
    requires
        vote_keys_unique(v),
    ensures
        own_count(v, participant_id, slot_id) == if exists|j: int|
            0 <= j < votes_of(v, participant_id).len() && votes_of(v, participant_id)[j] == (
            slot_id,
            true,
        ) {
            1nat
        } else {
            0nat
        },
    decreases v.len(),
{
    if v.len() > 0 {
        let d = v.drop_last();
        let last = v[v.len() - 1];
        assert(last == v.last());
        let vv = votes_of(v, participant_id);
        let vd = votes_of(d, participant_id);
        assert(vote_keys_unique(d)) by {
            assert forall|i: int, j: int| 0 <= i < d.len() && 0 <= j < d.len() && i != j implies !same_key(
                d[i],
                d[j],
            ) by {
                assert(d[i] == v[i] && d[j] == v[j]);
            }
        }
        lemma_own_count_votes_of(d, participant_id, slot_id);
        if last.participant_id@ == participant_id && last.time_slot_id@ == slot_id {
            assert forall|k: int| 0 <= k < d.len() implies !((#[trigger] d[k]).participant_id@
                == participant_id && d[k].time_slot_id@ == slot_id) by {
                assert(d[k] == v[k]);
                assert(!same_key(v[k], v[v.len() - 1]));
            }
            lemma_own_count_absent(d, participant_id, slot_id);
            lemma_votes_of_from(d, participant_id);
            assert forall|j: int| 0 <= j < vd.len() implies (#[trigger] vd[j]).0 != slot_id by {
                assert(pair_from_row(d, participant_id, vd[j]));
                let k = choose|k: int|
                    0 <= k < d.len() && d[k].participant_id@ == participant_id && d[k].time_slot_id@
                        == vd[j].0 && d[k].available == vd[j].1;
            }
            assert(vv == vd.push((last.time_slot_id@, last.available)));
            if last.available {
                assert(vv[vd.len() as int] == (slot_id, true));
            } else {
                assert forall|j: int| 0 <= j < vv.len() implies vv[j] != (slot_id, true) by {
                    if j < vd.len() {
                        assert(vv[j] == vd[j]);
                    }
                }
            }
        } else if last.participant_id@ == participant_id {
            assert(vv == vd.push((last.time_slot_id@, last.available)));
            if exists|j: int| 0 <= j < vd.len() && vd[j] == (slot_id, true) {
                let j = choose|j: int| 0 <= j < vd.len() && vd[j] == (slot_id, true);
                assert(vv[j] == vd[j]);
            }
            if exists|j: int| 0 <= j < vv.len() && vv[j] == (slot_id, true) {
                let j = choose|j: int| 0 <= j < vv.len() && vv[j] == (slot_id, true);
                assert(j < vd.len());
                assert(vv[j] == vd[j]);
            }
        } else {
            assert(vv == vd);
        }
    }
}

/// Position of the vote with the participant's id and the time slot's id.
pub fn find_vote(votes: &Vec<VoteRow>, participant_id: &String, slot_id: &String) -> (r: Option<
    usize,
>)
    requires
        vote_keys_unique(votes@),
    ensures
        r is None <==> key_index(votes@, participant_id@, slot_id@) == -1,
        r matches Some(i) ==> i == key_index(votes@, participant_id@, slot_id@),
{
    let mut i: usize = 0;
    while i < votes.len()
        invariant
            i <= votes@.len(),
            vote_keys_unique(votes@),
            forall|k: int|
                0 <= k < i ==> !(votes@[k].participant_id@ == participant_id@
                    && votes@[k].time_slot_id@ == slot_id@),
        decreases votes.len() - i,
    {
        if votes[i].participant_id == *participant_id && votes[i].time_slot_id == *slot_id {
            proof {
                let k = key_index(votes@, participant_id@, slot_id@);
                assert(same_key(votes@[k], votes@[i as int]));
            }
            return Some(i);
        }
        i = i + 1;
    }
    None
}

/// Write the row, or overwrite the availability of the vote with its key.
pub fn upsert_vote(votes: &mut Vec<VoteRow>, row: VoteRow)
    requires
        vote_keys_unique(old(votes)@),
    ensures
        final(votes)@ == upsert(old(votes)@, row),
        vote_keys_unique(final(votes)@),
{
    proof {
        lemma_upsert_keeps_keys_unique(votes@, row);
    }
    match find_vote(votes, &row.participant_id, &row.time_slot_id) {
        Some(i) => {
            let updated = VoteRow {
                participant_id: votes[i].participant_id.clone(),
                time_slot_id: votes[i].time_slot_id.clone(),
                available: row.available,
            };
            votes.set(i, updated);
        },
        None => {
            votes.push(row);
        },
    }
}

/// Number of votes on the time slot that say available.
pub fn count_available_votes(votes: &Vec<VoteRow>, slot_id: &String) -> (r: u64)
    ensures
        r == count_available(votes@, slot_id@),
{
    let mut n: u64 = 0;
    let mut i: usize = 0;
    while i < votes.len()
        invariant
            i <= votes@.len(),
            n == count_available(votes@.take(i as int), slot_id@),
        decreases votes.len() - i,
    {
        proof {
            assert(votes@.take(i + 1).drop_last() =~= votes@.take(i as int));
            lemma_count_bounded(votes@.take(i as int), slot_id@);
        }
        if votes[i].time_slot_id == *slot_id && votes[i].available {
            n = n + 1;
        }
        i = i + 1;
    }
    assert(votes@.take(votes@.len() as int) =~= votes@);
    n
}

/// One participant's votes, in table order.
pub fn participant_votes(votes: &Vec<VoteRow>, participant_id: &String) -> (r: Vec<VoteResponse>)
    ensures
        r@.len() == votes_of(votes@, participant_id@).len(),
        forall|j: int|
            0 <= j < r@.len() ==> (#[trigger] r@[j]).time_slot_id@ == votes_of(
                votes@,
                participant_id@,
            )[j].0 && r@[j].available == votes_of(votes@, participant_id@)[j].1,
{
    let mut r: Vec<VoteResponse> = Vec::new();
    let mut i: usize = 0;
    while i < votes.len()
        invariant
            i <= votes@.len(),
            r@.len() == votes_of(votes@.take(i as int), participant_id@).len(),
            forall|j: int|
                0 <= j < r@.len() ==> (#[trigger] r@[j]).time_slot_id@ == votes_of(
                    votes@.take(i as int),
                    participant_id@,
                )[j].0 && r@[j].available == votes_of(votes@.take(i as int), participant_id@)[j].1,
        decreases votes.len() - i,
    {
        proof {
            assert(votes@.take(i + 1).drop_last() =~= votes@.take(i as int));
        }
        if votes[i].participant_id == *participant_id {
            r.push(
                VoteResponse {
                    time_slot_id: votes[i].time_slot_id.clone(),
                    available: votes[i].available,
                },
            );
        }
        i = i + 1;
    }
    assert(votes@.take(votes@.len() as int) =~= votes@);
    r
}

/// The table without the participant's votes.
pub fn remove_participant_votes(votes: &Vec<VoteRow>, participant_id: &String) -> (r: Vec<VoteRow>)
    ensures
        r@ == without_participant(votes@, participant_id@),
{
    let mut r: Vec<VoteRow> = Vec::new();
    let mut i: usize = 0;
    while i < votes.len()
        invariant
            i <= votes@.len(),
            r@ == without_participant(votes@.take(i as int), participant_id@),
        decreases votes.len() - i,
    {
        proof {
            assert(votes@.take(i + 1).drop_last() =~= votes@.take(i as int));
        }
        if votes[i].participant_id != *participant_id {
            r.push(
                VoteRow {
                    participant_id: votes[i].participant_id.clone(),
                    time_slot_id: votes[i].time_slot_id.clone(),
                    available: votes[i].available,
                },
            );
        }
        i = i + 1;
    }
    assert(votes@.take(votes@.len() as int) =~= votes@);
    r
}

} // verus!
