use poll_backend::assembly::get_poll;
use poll_backend::auth::{open_session, register_admin, require_admin};
use poll_backend::model::{
    AdminRow, ApiError, CreateEventRequest, EventRow, ParticipantRow, SessionRow, TimeSlotInput,
    TimeSlotRow, UtcTime, VoteInput,
};
use poll_backend::repository::{draw_ids, insert_poll};
use poll_backend::store::PollStore;
use poll_backend::voting::record_submission;

fn s(t: &str) -> String {
    t.to_string()
}

fn slot(start: i64) -> TimeSlotInput {
    TimeSlotInput {
        starts_at: UtcTime { secs: start, nanos: 0 },
        ends_at: UtcTime { secs: start + 60, nanos: 0 },
    }
}

fn event(id: &str, admin: &str) -> EventRow {
    EventRow { id: s(id), title: s("Sync"), description: None, created_at: s("t0"), admin_id: s(admin) }
}

fn payload(n: usize) -> CreateEventRequest {
    CreateEventRequest {
        title: s("Sync"),
        description: None,
        time_slots: (0..n).map(|k| slot(1000 - 100 * k as i64)).collect(),
    }
}

fn store_with_admin() -> PollStore {
    let mut store = PollStore::new();
    store.admins.push(AdminRow { id: s("a1"), name: s("ann"), password_hash: s("h"), created_at: s("t0") });
    store.sessions.push(SessionRow { id: s("tok"), admin_id: s("a1"), created_at: s("t0") });
    store
}

#[test]
fn insert_poll_uses_the_given_ids_in_start_order() {
    let mut store = store_with_admin();
    let r = insert_poll(&mut store, event("e1", "a1"), &payload(2), vec![s("s1"), s("s2")]).unwrap();
    assert_eq!(r.id, "e1");
    let poll = get_poll(&store, &s("e1")).unwrap();
    let ids: Vec<&str> = poll.time_slots.iter().map(|t| t.id.as_str()).collect();
    assert_eq!(ids, vec!["s1", "s2"]);
    assert_eq!(poll.time_slots[0].starts_at.secs, 900);
    assert_eq!(poll.time_slots[1].starts_at.secs, 1000);
}

#[test]
fn insert_poll_refuses_ids_in_use() {
    let mut store = store_with_admin();
    insert_poll(&mut store, event("e1", "a1"), &payload(1), vec![s("s1")]).unwrap();
    let e = insert_poll(&mut store, event("e1", "a1"), &payload(1), vec![s("s9")]);
    assert_eq!(e.unwrap_err(), ApiError::Storage);
    let e = insert_poll(&mut store, event("e2", "a1"), &payload(1), vec![s("s1")]);
    assert_eq!(e.unwrap_err(), ApiError::Storage);
    let e = insert_poll(&mut store, event("e2", "a1"), &payload(2), vec![s("s7"), s("s7")]);
    assert_eq!(e.unwrap_err(), ApiError::Storage);
    assert_eq!(store.polls.len(), 1);
    assert!(insert_poll(&mut store, event("e2", "a1"), &payload(1), vec![s("s2")]).is_ok());
}

#[test]
fn record_submission_refuses_a_participant_id_of_another_event() {
    let mut store = store_with_admin();
    insert_poll(&mut store, event("e1", "a1"), &payload(1), vec![s("s1")]).unwrap();
    insert_poll(&mut store, event("e2", "a1"), &payload(1), vec![s("s2")]).unwrap();
    let alice = ParticipantRow { id: s("p1"), event_id: s("e1"), name: s("Alice"), created_at: s("t1") };
    let votes = vec![VoteInput { time_slot_id: s("s1"), available: true }];
    let r = record_submission(&mut store, 0, alice, &votes).unwrap();
    assert_eq!(r.participant_id, "p1");
    let twin = ParticipantRow { id: s("p1"), event_id: s("e2"), name: s("Bob"), created_at: s("t2") };
    let votes2 = vec![VoteInput { time_slot_id: s("s2"), available: true }];
    assert_eq!(record_submission(&mut store, 1, twin, &votes2).unwrap_err(), ApiError::Storage);
    assert!(get_poll(&store, &s("e2")).unwrap().participants.is_empty());
    assert_eq!(get_poll(&store, &s("e1")).unwrap().time_slots[0].available_count, 1);
}

#[test]
fn register_admin_stores_exactly_the_given_values() {
    let mut store = PollStore::new();
    let r = register_admin(&mut store, s("bea"), s("hash"), s("a2"), s("t2"), s("now")).unwrap();
    assert_eq!((r.name.as_str(), r.admin_id.as_str(), r.token.as_str()), ("bea", "a2", "t2"));
    assert_eq!(store.admins[0].password_hash, "hash");
    assert_eq!(store.sessions[0].created_at, "now");
    let again = register_admin(&mut store, s("cy"), s("h"), s("a2"), s("t3"), s("now"));
    assert_eq!(again.unwrap_err(), ApiError::Storage);
    let again = register_admin(&mut store, s("cy"), s("h"), s("a3"), s("t2"), s("now"));
    assert_eq!(again.unwrap_err(), ApiError::Storage);
    assert_eq!(store.admins.len(), 1);
    assert_eq!(store.sessions.len(), 1);
}

#[test]
fn open_session_refuses_a_live_token() {
    let mut store = store_with_admin();
    assert_eq!(open_session(&mut store, &s("a1"), s("tok"), s("t1")).unwrap_err(), ApiError::Storage);
    assert_eq!(open_session(&mut store, &s("a1"), s("tok2"), s("t1")).unwrap(), "tok2");
    assert_eq!(require_admin(&store, &Some(s("tok2"))).unwrap().admin_id, "a1");
}

#[test]
fn drawn_ids_and_rows_are_fresh() {
    let ids = draw_ids(3).unwrap();
    assert_eq!(ids.len(), 3);
    assert!(ids.iter().all(|id| id.len() == 36));
    assert_ne!(ids[0], ids[1]);
    let row = TimeSlotRow::new("e1", UtcTime { secs: 1, nanos: 2 }, UtcTime { secs: 3, nanos: 4 }).unwrap();
    assert_eq!(row.event_id, "e1");
    assert_eq!(row.id.len(), 36);
    let q = ParticipantRow::new("e1", s("Zed")).unwrap();
    assert!(!q.created_at.is_empty());
    let e = EventRow::new(s("T"), None, s("a1")).unwrap();
    assert_ne!(e.id, q.id);
}
