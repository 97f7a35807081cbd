//! Rows of the relational store and the request / response shapes of the
//! poll operations.

use vstd::prelude::*;

verus! {

/// An instant on the UTC time line: whole seconds since the Unix epoch and
/// the nanoseconds past that second.
#[derive(Clone, Copy, Debug, PartialEq, Eq, Structural)]
pub struct UtcTime {
    pub secs: i64,
    pub nanos: u32,
}

impl UtcTime {
    /// `self` comes no later than `other`.
    pub open spec fn spec_le(self, other: UtcTime) -> bool {
        self.secs < other.secs || (self.secs == other.secs && self.nanos <= other.nanos)
    }

    pub fn le(&self, other: &UtcTime) -> (r: bool)
        ensures
            r == self.spec_le(*other),
    {
        self.secs < other.secs || (self.secs == other.secs && self.nanos <= other.nanos)
    }
}

/// The failure kinds of the poll operations.
#[derive(Clone, Copy, Debug, PartialEq, Eq, Structural)]
pub enum ApiError {
    /// Malformed, empty or inconsistent input.
    Validation,
    /// The referenced event or participant does not exist.
    NotFound,
    /// Authenticated, but not the owner of the resource.
    Forbidden,
    /// Missing or unknown session, or bad credentials.
    Unauthorized,
    /// A unique name is already taken.
    Conflict,
    /// The store could not complete the unit of work.
    Storage,
}

#[derive(Clone, Debug)]
pub struct AdminRow {
    pub id: String,
    pub name: String,
    pub password_hash: String,
    pub created_at: String,
}

#[derive(Clone, Debug)]
pub struct SessionRow {
    pub id: String,
    pub admin_id: String,
    pub created_at: String,
}

#[derive(Clone, Debug)]
pub struct EventRow {
    pub id: String,
    pub title: String,
    pub description: Option<String>,
    pub created_at: String,
    pub admin_id: String,
}

#[derive(Clone, Debug)]
pub struct TimeSlotRow {
    pub id: String,
    pub event_id: String,
    pub starts_at: UtcTime,
    pub ends_at: UtcTime,
}

#[derive(Clone, Debug)]
pub struct ParticipantRow {
    pub id: String,
    pub event_id: String,
    pub name: String,
    pub created_at: String,
}

#[derive(Clone, Debug)]
pub struct VoteRow {
    pub participant_id: String,
    pub time_slot_id: String,
    pub available: bool,
}

/// The identity behind a live session token.
#[derive(Clone, Debug)]
pub struct AdminContext {
    pub admin_id: String,
    pub token: String,
}

#[derive(Clone, Debug)]
pub struct AdminAuthRequest {
    pub name: String,
    pub password: String,
}

#[derive(Clone, Debug)]
pub struct AdminAuthResponse {
    pub token: String,
    pub admin_id: String,
    pub name: String,
}

#[derive(Clone, Copy, Debug)]
pub struct LogoutResponse {
    pub ok: bool,
}

#[derive(Clone, Copy, Debug, PartialEq, Eq, Structural)]
pub struct TimeSlotInput {
    pub starts_at: UtcTime,
    pub ends_at: UtcTime,
}

#[derive(Clone, Debug)]
pub struct CreateEventRequest {
    pub title: String,
    pub description: Option<String>,
    /// The time slots to create alongside the event.
    pub time_slots: Vec<TimeSlotInput>,
}

#[derive(Clone, Debug)]
pub struct CreateEventResponse {
    pub id: String,
}

#[derive(Clone, Debug)]
pub struct DeletePollResponse {
    pub id: String,
}

#[derive(Clone, Debug)]
pub struct VoteInput {
    pub time_slot_id: String,
    pub available: bool,
}

#[derive(Clone, Debug)]
pub struct SubmitVoteRequest {
    pub participant_name: String,
    /// One entry per time slot.
    pub votes: Vec<VoteInput>,
}

#[derive(Clone, Debug)]
pub struct SubmitVoteResponse {
    pub participant_id: String,
}

#[derive(Clone, Debug)]
pub struct UpdateVotesRequest {
    pub votes: Vec<VoteInput>,
}

#[derive(Clone, Debug)]
pub struct UpdateVotesResponse {
    pub participant_id: String,
}

#[derive(Clone, Debug)]
pub struct TimeSlotResponse {
    pub id: String,
    pub starts_at: UtcTime,
    pub ends_at: UtcTime,
    /// Number of participants who marked this slot as available.
    pub available_count: u64,
}

#[derive(Clone, Debug)]
pub struct VoteResponse {
    pub time_slot_id: String,
    pub available: bool,
}

#[derive(Clone, Debug)]
pub struct ParticipantResponse {
    pub id: String,
    pub name: String,
    /// The participant's votes, one per time slot voted on.
    pub votes: Vec<VoteResponse>,
}

#[derive(Clone, Debug)]
pub struct PollResponse {
    pub id: String,
    pub title: String,
    pub description: Option<String>,
    pub created_at: String,
    pub time_slots: Vec<TimeSlotResponse>,
    pub participants: Vec<ParticipantResponse>,
}

#[derive(Clone, Debug)]
pub struct EventSummaryResponse {
    pub id: String,
    pub title: String,
    pub description: Option<String>,
    pub created_at: String,
}

} // verus!
