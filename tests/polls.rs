use poll_backend::assembly::get_poll;
use poll_backend::model::{
    AdminRow, ApiError, CreateEventRequest, PollResponse, SessionRow, SubmitVoteRequest,
    TimeSlotInput, UpdateVotesRequest, UtcTime, VoteInput,
};
use poll_backend::repository::{create_poll, delete_poll, list_events, sort_by_start};
use poll_backend::store::PollStore;
use poll_backend::voting::{submit_vote, update_votes};

fn at(secs: i64) -> UtcTime {
    UtcTime { secs, nanos: 0 }
}

fn slot(start: i64, end: i64) -> TimeSlotInput {
    TimeSlotInput { starts_at: at(start), ends_at: at(end) }
}

// 2024-01-01T10:00:00Z and friends.
const JAN1_10: i64 = 1704103200;
const JAN1_11: i64 = 1704106800;
const JAN1_14: i64 = 1704117600;
const JAN1_15: i64 = 1704121200;

fn add_admin(store: &mut PollStore, id: &str, token: &str) -> Option<String> {
    store.admins.push(AdminRow {
        id: id.to_string(),
        name: format!("{id}-name"),
        password_hash: String::from("unused"),
        created_at: String::from("2024-01-01T00:00:00+00:00"),
    });
    store.sessions.push(SessionRow {
        id: token.to_string(),
        admin_id: id.to_string(),
        created_at: String::from("2024-01-01T00:00:00+00:00"),
    });
    Some(token.to_string())
}

fn request(title: &str, slots: Vec<TimeSlotInput>) -> CreateEventRequest {
    CreateEventRequest { title: title.to_string(), description: None, time_slots: slots }
}

fn vote(slot_id: &str, available: bool) -> VoteInput {
    VoteInput { time_slot_id: slot_id.to_string(), available }
}

fn slot_ids(poll: &PollResponse) -> Vec<String> {
    poll.time_slots.iter().map(|s| s.id.clone()).collect()
}

fn counts(poll: &PollResponse) -> Vec<u64> {
    poll.time_slots.iter().map(|s| s.available_count).collect()
}

/// A store with one admin and one event with the two Team Sync slots.
fn team_sync() -> (PollStore, Option<String>, String, Vec<String>) {
    let mut store = PollStore::new();
    let token = add_admin(&mut store, "admin-x", "token-x");
    let req = request("Team Sync", vec![slot(JAN1_10, JAN1_11), slot(JAN1_14, JAN1_15)]);
    let id = create_poll(&mut store, &token, &req).unwrap().id;
    let poll = get_poll(&store, &id).unwrap();
    let ids = slot_ids(&poll);
    (store, token, id, ids)
}

#[test]
fn team_sync_scenario() {
    let (mut store, _token, id, ids) = team_sync();
    let req = SubmitVoteRequest {
        participant_name: String::from("Alice"),
        votes: vec![vote(&ids[0], true), vote(&ids[1], false)],
    };
    let pid = submit_vote(&mut store, &id, &req).unwrap().participant_id;
    let poll = get_poll(&store, &id).unwrap();
    assert_eq!(poll.title, "Team Sync");
    assert_eq!(poll.time_slots[0].starts_at, at(JAN1_10));
    assert_eq!(poll.time_slots[0].ends_at, at(JAN1_11));
    assert_eq!(poll.time_slots[1].starts_at, at(JAN1_14));
    assert_eq!(counts(&poll), vec![1, 0]);
    assert_eq!(poll.participants.len(), 1);
    let alice = &poll.participants[0];
    assert_eq!(alice.id, pid);
    assert_eq!(alice.name, "Alice");
    assert_eq!(alice.votes.len(), 2);
    assert_eq!(alice.votes[0].time_slot_id, ids[0]);
    assert!(alice.votes[0].available);
    assert_eq!(alice.votes[1].time_slot_id, ids[1]);
    assert!(!alice.votes[1].available);
}

#[test]
fn created_poll_reads_back_in_start_order_with_zero_counts() {
    let mut store = PollStore::new();
    let token = add_admin(&mut store, "admin-x", "token-x");
    let req = CreateEventRequest {
        title: String::from("Planning"),
        description: Some(String::from("quarterly")),
        time_slots: vec![slot(300, 400), slot(100, 200), slot(200, 300)],
    };
    let id = create_poll(&mut store, &token, &req).unwrap().id;
    assert_eq!(id.len(), 36);
    let poll = get_poll(&store, &id).unwrap();
    assert_eq!(poll.id, id);
    assert_eq!(poll.description.as_deref(), Some("quarterly"));
    let starts: Vec<i64> = poll.time_slots.iter().map(|s| s.starts_at.secs).collect();
    let ends: Vec<i64> = poll.time_slots.iter().map(|s| s.ends_at.secs).collect();
    assert_eq!(starts, vec![100, 200, 300]);
    assert_eq!(ends, vec![200, 300, 400]);
    assert_eq!(counts(&poll), vec![0, 0, 0]);
    assert!(poll.participants.is_empty());
    let ids = slot_ids(&poll);
    assert_ne!(ids[0], ids[1]);
    assert_ne!(ids[1], ids[2]);
}

#[test]
fn sort_by_start_orders_by_seconds_then_nanos() {
    let v = vec![
        TimeSlotInput { starts_at: UtcTime { secs: 5, nanos: 9 }, ends_at: at(6) },
        TimeSlotInput { starts_at: UtcTime { secs: 5, nanos: 1 }, ends_at: at(7) },
        TimeSlotInput { starts_at: UtcTime { secs: -3, nanos: 0 }, ends_at: at(8) },
    ];
    let r = sort_by_start(&v);
    assert_eq!(r, vec![v[2], v[1], v[0]]);
}

#[test]
fn submissions_add_up_per_slot() {
    let (mut store, _token, id, ids) = team_sync();
    let alice = SubmitVoteRequest {
        participant_name: String::from("Alice"),
        votes: vec![vote(&ids[0], true), vote(&ids[1], true)],
    };
    let bob = SubmitVoteRequest {
        participant_name: String::from("Bob"),
        votes: vec![vote(&ids[1], true)],
    };
    let carol = SubmitVoteRequest {
        participant_name: String::from("Carol"),
        votes: vec![vote(&ids[0], false), vote(&ids[1], true)],
    };
    submit_vote(&mut store, &id, &alice).unwrap();
    submit_vote(&mut store, &id, &bob).unwrap();
    let carol_id = submit_vote(&mut store, &id, &carol).unwrap().participant_id;
    let poll = get_poll(&store, &id).unwrap();
    assert_eq!(counts(&poll), vec![1, 3]);
    let names: Vec<&str> = poll.participants.iter().map(|p| p.name.as_str()).collect();
    assert_eq!(names, vec!["Alice", "Bob", "Carol"]);
    let c = &poll.participants[2];
    assert_eq!(c.id, carol_id);
    assert_eq!(c.votes.len(), 2);
    assert!(!c.votes[0].available);
    assert!(c.votes[1].available);
}

#[test]
fn participant_name_is_trimmed() {
    let (mut store, _token, id, ids) = team_sync();
    let req = SubmitVoteRequest {
        participant_name: String::from("  Dana \t"),
        votes: vec![vote(&ids[0], true)],
    };
    submit_vote(&mut store, &id, &req).unwrap();
    let poll = get_poll(&store, &id).unwrap();
    assert_eq!(poll.participants[0].name, "Dana");
}

#[test]
fn repeated_slot_in_one_submission_keeps_the_last() {
    let (mut store, _token, id, ids) = team_sync();
    let req = SubmitVoteRequest {
        participant_name: String::from("Eve"),
        votes: vec![vote(&ids[0], true), vote(&ids[0], false)],
    };
    submit_vote(&mut store, &id, &req).unwrap();
    let poll = get_poll(&store, &id).unwrap();
    assert_eq!(counts(&poll), vec![0, 0]);
    assert_eq!(poll.participants[0].votes.len(), 1);
    assert!(!poll.participants[0].votes[0].available);
}

#[test]
fn submission_without_votes_adds_participant() {
    let (mut store, _token, id, _ids) = team_sync();
    let req = SubmitVoteRequest { participant_name: String::from("Finn"), votes: vec![] };
    submit_vote(&mut store, &id, &req).unwrap();
    let poll = get_poll(&store, &id).unwrap();
    assert_eq!(poll.participants.len(), 1);
    assert!(poll.participants[0].votes.is_empty());
}

#[test]
fn replacing_twice_changes_nothing_more() {
    let (mut store, _token, id, ids) = team_sync();
    let req = SubmitVoteRequest {
        participant_name: String::from("Alice"),
        votes: vec![vote(&ids[0], true)],
    };
    let pid = submit_vote(&mut store, &id, &req).unwrap().participant_id;
    let update = UpdateVotesRequest { votes: vec![vote(&ids[1], true), vote(&ids[0], false)] };
    let first = update_votes(&mut store, &id, &pid, &update).unwrap();
    assert_eq!(first.participant_id, pid);
    let after_first = get_poll(&store, &id).unwrap();
    update_votes(&mut store, &id, &pid, &update).unwrap();
    let after_second = get_poll(&store, &id).unwrap();
    assert_eq!(counts(&after_first), vec![0, 1]);
    assert_eq!(counts(&after_second), counts(&after_first));
    let v1: Vec<(String, bool)> = after_first.participants[0]
        .votes
        .iter()
        .map(|v| (v.time_slot_id.clone(), v.available))
        .collect();
    let v2: Vec<(String, bool)> = after_second.participants[0]
        .votes
        .iter()
        .map(|v| (v.time_slot_id.clone(), v.available))
        .collect();
    assert_eq!(v1, v2);
}

#[test]
fn full_replace_drops_omitted_slot() {
    let (mut store, _token, id, ids) = team_sync();
    let req = SubmitVoteRequest {
        participant_name: String::from("Alice"),
        votes: vec![vote(&ids[0], true), vote(&ids[1], true)],
    };
    let pid = submit_vote(&mut store, &id, &req).unwrap().participant_id;
    let before = get_poll(&store, &id).unwrap();
    assert_eq!(counts(&before), vec![1, 1]);
    let update = UpdateVotesRequest { votes: vec![vote(&ids[0], false)] };
    update_votes(&mut store, &id, &pid, &update).unwrap();
    let after = get_poll(&store, &id).unwrap();
    assert_eq!(counts(&after), vec![0, 0]);
    let votes = &after.participants[0].votes;
    assert_eq!(votes.len(), 1);
    assert_eq!(votes[0].time_slot_id, ids[0]);
    assert!(!votes[0].available);
}

#[test]
fn foreign_slot_rejects_the_whole_batch() {
    let (mut store, token, id, ids) = team_sync();
    let other = create_poll(&mut store, &token, &request("Other", vec![slot(1, 2)])).unwrap().id;
    let foreign = slot_ids(&get_poll(&store, &other).unwrap())[0].clone();
    let req = SubmitVoteRequest {
        participant_name: String::from("Mallory"),
        votes: vec![vote(&ids[0], true), vote(&foreign, true)],
    };
    assert_eq!(submit_vote(&mut store, &id, &req).unwrap_err(), ApiError::Validation);
    let poll = get_poll(&store, &id).unwrap();
    assert!(poll.participants.is_empty());
    assert_eq!(counts(&poll), vec![0, 0]);

    let ok = SubmitVoteRequest {
        participant_name: String::from("Alice"),
        votes: vec![vote(&ids[0], true)],
    };
    let pid = submit_vote(&mut store, &id, &ok).unwrap().participant_id;
    let update = UpdateVotesRequest { votes: vec![vote(&ids[1], true), vote(&foreign, true)] };
    assert_eq!(update_votes(&mut store, &id, &pid, &update).unwrap_err(), ApiError::Validation);
    let poll = get_poll(&store, &id).unwrap();
    assert_eq!(counts(&poll), vec![1, 0]);
    assert_eq!(poll.participants[0].votes.len(), 1);
}

#[test]
fn admins_only_see_and_delete_their_own_events() {
    let mut store = PollStore::new();
    let x = add_admin(&mut store, "admin-x", "token-x");
    let y = add_admin(&mut store, "admin-y", "token-y");
    let a = create_poll(&mut store, &y, &request("Y first", vec![slot(1, 2)])).unwrap().id;
    let b = create_poll(&mut store, &y, &request("Y second", vec![slot(1, 2)])).unwrap().id;
    assert!(list_events(&store, &x).unwrap().is_empty());
    assert_eq!(delete_poll(&mut store, &x, &a).unwrap_err(), ApiError::Forbidden);
    assert!(get_poll(&store, &a).is_ok());
    let listed: Vec<String> = list_events(&store, &y).unwrap().iter().map(|e| e.id.clone()).collect();
    assert_eq!(listed, vec![b.clone(), a.clone()]);
    assert_eq!(list_events(&store, &y).unwrap()[0].title, "Y second");
    assert_eq!(delete_poll(&mut store, &y, &a).unwrap().id, a);
    assert_eq!(get_poll(&store, &a).unwrap_err(), ApiError::NotFound);
    assert_eq!(delete_poll(&mut store, &y, &a).unwrap_err(), ApiError::NotFound);
    let listed: Vec<String> = list_events(&store, &y).unwrap().iter().map(|e| e.id.clone()).collect();
    assert_eq!(listed, vec![b]);
}

#[test]
fn deleting_an_event_removes_its_votes() {
    let (mut store, token, id, ids) = team_sync();
    let req = SubmitVoteRequest {
        participant_name: String::from("Alice"),
        votes: vec![vote(&ids[0], true)],
    };
    let pid = submit_vote(&mut store, &id, &req).unwrap().participant_id;
    delete_poll(&mut store, &token, &id).unwrap();
    assert!(store.polls.is_empty());
    let update = UpdateVotesRequest { votes: vec![vote(&ids[0], false)] };
    assert_eq!(update_votes(&mut store, &id, &pid, &update).unwrap_err(), ApiError::NotFound);
}

#[test]
fn admin_operations_need_a_live_session() {
    let mut store = PollStore::new();
    add_admin(&mut store, "admin-x", "token-x");
    let req = request("Team Sync", vec![slot(1, 2)]);
    for token in [None, Some(String::new()), Some(String::from("   ")), Some(String::from("nope"))] {
        assert_eq!(create_poll(&mut store, &token, &req).unwrap_err(), ApiError::Unauthorized);
        assert_eq!(list_events(&store, &token).unwrap_err(), ApiError::Unauthorized);
        assert_eq!(
            delete_poll(&mut store, &token, &String::from("x")).unwrap_err(),
            ApiError::Unauthorized
        );
    }
    assert!(store.polls.is_empty());
    let padded = Some(String::from("  token-x  "));
    assert!(create_poll(&mut store, &padded, &req).is_ok());
}

#[test]
fn unauthorized_comes_before_validation() {
    let mut store = PollStore::new();
    let bad = request("  ", vec![]);
    assert_eq!(create_poll(&mut store, &None, &bad).unwrap_err(), ApiError::Unauthorized);
}

#[test]
fn create_poll_validates_title_and_slots() {
    let mut store = PollStore::new();
    let token = add_admin(&mut store, "admin-x", "token-x");
    assert_eq!(
        create_poll(&mut store, &token, &request(" \n ", vec![slot(1, 2)])).unwrap_err(),
        ApiError::Validation
    );
    assert_eq!(
        create_poll(&mut store, &token, &request("Title", vec![])).unwrap_err(),
        ApiError::Validation
    );
    assert!(store.polls.is_empty());
}

#[test]
fn submit_vote_errors() {
    let (mut store, _token, id, ids) = team_sync();
    let blank = SubmitVoteRequest {
        participant_name: String::from("   "),
        votes: vec![vote(&ids[0], true)],
    };
    assert_eq!(submit_vote(&mut store, &id, &blank).unwrap_err(), ApiError::Validation);
    let ok = SubmitVoteRequest {
        participant_name: String::from("Alice"),
        votes: vec![vote(&ids[0], true)],
    };
    assert_eq!(
        submit_vote(&mut store, &String::from("missing"), &ok).unwrap_err(),
        ApiError::NotFound
    );
    let unknown = SubmitVoteRequest {
        participant_name: String::from("Alice"),
        votes: vec![vote("no-such-slot", true)],
    };
    assert_eq!(submit_vote(&mut store, &id, &unknown).unwrap_err(), ApiError::Validation);
    assert!(get_poll(&store, &id).unwrap().participants.is_empty());
}

#[test]
fn update_votes_errors() {
    let (mut store, _token, id, ids) = team_sync();
    let req = SubmitVoteRequest {
        participant_name: String::from("Alice"),
        votes: vec![vote(&ids[0], true)],
    };
    let pid = submit_vote(&mut store, &id, &req).unwrap().participant_id;
    let empty = UpdateVotesRequest { votes: vec![] };
    assert_eq!(update_votes(&mut store, &id, &pid, &empty).unwrap_err(), ApiError::Validation);
    let some = UpdateVotesRequest { votes: vec![vote(&ids[1], true)] };
    assert_eq!(
        update_votes(&mut store, &id, &String::from("nobody"), &some).unwrap_err(),
        ApiError::NotFound
    );
    assert_eq!(
        update_votes(&mut store, &String::from("missing"), &pid, &some).unwrap_err(),
        ApiError::NotFound
    );
    let twice = UpdateVotesRequest { votes: vec![vote(&ids[1], true), vote(&ids[1], false)] };
    assert_eq!(update_votes(&mut store, &id, &pid, &twice).unwrap_err(), ApiError::Storage);
    assert_eq!(counts(&get_poll(&store, &id).unwrap()), vec![1, 0]);
}

#[test]
fn get_poll_of_unknown_event_is_not_found() {
    let store = PollStore::new();
    assert_eq!(get_poll(&store, &String::from("missing")).unwrap_err(), ApiError::NotFound);
}
