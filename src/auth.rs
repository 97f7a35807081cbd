//! The authorization gate: admin accounts, their sessions, and resolving a
//! session token to the admin behind it.

use crate::model::{AdminAuthRequest, AdminAuthResponse, AdminContext, AdminRow, ApiError, LogoutResponse, SessionRow};
use crate::platform::{check_password, hash_password, hash_parses, new_id, now_rfc3339, password_matches, trim_of, trimmed};
use crate::store::{admin_index, admins_unique, has_admin, session_ids_unique, session_index, unchanged, PollStore};
use vstd::prelude::*;

verus! {

/// Index of the live session that the token names once trimmed, or -1 where
/// the token is absent, blank or unknown.
pub open spec fn session_of(store: PollStore, token: Option<String>) -> int {
    match token {
        Some(t) => if trim_of(t@).len() == 0 {
            -1
        } else {
            session_index(store.sessions@, trim_of(t@))
        },
        None => -1,
    }
}

/// A name that is not blank once trimmed, and a password that is not empty.
pub open spec fn credentials_given(req: AdminAuthRequest) -> bool {
    trim_of(req.name@).len() > 0 && req.password@.len() > 0
}

/// The store with one more session, and nothing else changed.
pub open spec fn session_added(before: PollStore, after: PollStore, token: Seq<char>, admin_id: Seq<char>) -> bool {
    &&& after.admins@ == before.admins@
    &&& after.polls@ == before.polls@
    &&& after.sessions@.len() == before.sessions@.len() + 1
    &&& after.sessions@.drop_last() == before.sessions@
    &&& after.sessions@.last().id@ == token
    &&& after.sessions@.last().admin_id@ == admin_id
}

fn find_session(sessions: &Vec<SessionRow>, token: &String) -> (r: Option<usize>)
    requires
        session_ids_unique(sessions@),
    ensures
        r is None <==> session_index(sessions@, token@) == -1,
        r matches Some(i) ==> i == session_index(sessions@, token@),
        session_index(sessions@, token@) == -1 || (0 <= session_index(sessions@, token@)
            < sessions@.len() && sessions@[session_index(sessions@, token@)].id@ == token@),
{
    let mut i: usize = 0;
    while i < sessions.len()
        invariant
            i <= sessions@.len(),
            session_ids_unique(sessions@),
            forall|k: int| 0 <= k < i ==> sessions@[k].id@ != token@,
        decreases sessions.len() - i,
    {
        if sessions[i].id == *token {
            proof {
                assert(exists|k: int| 0 <= k < sessions@.len() && sessions@[k].id@ == token@);
                let k = session_index(sessions@, token@);
                assert(sessions@[k].id@ == sessions@[i as int].id@);
            }
            return Some(i);
        }
        i = i + 1;
    }
    None
}

fn find_admin_by_name(admins: &Vec<AdminRow>, name: &String) -> (r: Option<usize>)
    requires
        admins_unique(admins@),
    ensures
        r is None <==> admin_index(admins@, name@) == -1,
        r matches Some(i) ==> i == admin_index(admins@, name@),
        admin_index(admins@, name@) == -1 || (0 <= admin_index(admins@, name@) < admins@.len()
            && admins@[admin_index(admins@, name@)].name@ == name@),
{
    let mut i: usize = 0;
    while i < admins.len()
        invariant
            i <= admins@.len(),
            admins_unique(admins@),
            forall|k: int| 0 <= k < i ==> admins@[k].name@ != name@,
        decreases admins.len() - i,
    {
        if admins[i].name == *name {
            proof {
                assert(exists|k: int| 0 <= k < admins@.len() && admins@[k].name@ == name@);
                let k = admin_index(admins@, name@);
                assert(admins@[k].name@ == admins@[i as int].name@);
            }
            return Some(i);
        }
        i = i + 1;
    }
    None
}

fn admin_id_taken(admins: &Vec<AdminRow>, id: &String) -> (r: bool)
    ensures
        r == has_admin(admins@, id@),
{
    let mut i: usize = 0;
    while i < admins.len()
        invariant
            i <= admins@.len(),
            forall|k: int| 0 <= k < i ==> admins@[k].id@ != id@,
        decreases admins.len() - i,
    {
        if admins[i].id == *id {
            return true;
        }
        i = i + 1;
    }
    false
}

/// Resolves the session token (as sent, before trimming) to the admin it
/// belongs to.
pub fn require_admin(store: &PollStore, token: &Option<String>) -> (r: Result<AdminContext, ApiError>)
    requires
        store.wf(),
    ensures
        r is Ok <==> session_of(*store, *token) >= 0,
        r is Err ==> r == Err::<AdminContext, ApiError>(ApiError::Unauthorized),
        r matches Ok(ctx) ==> {
            let i = session_of(*store, *token);
            &&& 0 <= i < store.sessions@.len()
            &&& ctx.token@ == store.sessions@[i].id@
            &&& ctx.admin_id@ == store.sessions@[i].admin_id@
            &&& has_admin(store.admins@, ctx.admin_id@)
        },
{
    match token {
        None => Err(ApiError::Unauthorized),
        Some(t) => {
            let t = trimmed(t.as_str());
            if t.as_str().is_empty() {
                return Err(ApiError::Unauthorized);
            }
            match find_session(&store.sessions, &t) {
                None => Err(ApiError::Unauthorized),
                Some(i) => {
                    proof {
                        assert(has_admin(store.admins@, store.sessions@[i as int].admin_id@));
                    }
                    Ok(
                        AdminContext {
                            admin_id: store.sessions[i].admin_id.clone(),
                            token: store.sessions[i].id.clone(),
                        },
                    )
                },
            }
        },
    }
}

/// Adds a session for the admin under the given token; a token that is
/// already a live session's is a store failure.
pub fn open_session(store: &mut PollStore, admin_id: &String, token: String, created_at: String) -> (r:
    Result<String, ApiError>)
    requires
        old(store).wf(),
        has_admin(old(store).admins@, admin_id@),
    ensures
        final(store).wf(),
        r is Err <==> session_index(old(store).sessions@, token@) >= 0,
        r is Err ==> r == Err::<String, ApiError>(ApiError::Storage) && unchanged(
            *old(store),
            *final(store),
        ),
        r matches Ok(t) ==> {
            &&& t@ == token@
            &&& session_added(*old(store), *final(store), token@, admin_id@)
            &&& final(store).sessions@.last().created_at@ == created_at@
        },
{
    match find_session(&store.sessions, &token) {
        Some(_) => Err(ApiError::Storage),
        None => {
            let session = SessionRow { id: token.clone(), admin_id: admin_id.clone(), created_at };
            let ghost before = store.sessions@;
            store.sessions.push(session);
            proof {
                let s = store.sessions@;
                assert(s.drop_last() =~= before);
                assert forall|i: int, j: int|
                    0 <= i < s.len() && 0 <= j < s.len() && i != j implies s[i].id@ != s[j].id@ by {
                    if i < before.len() && j < before.len() {
                        assert(s[i] == before[i] && s[j] == before[j]);
                    } else if i < before.len() {
                        assert(s[i] == before[i]);
                    } else {
                        assert(s[j] == before[j]);
                    }
                }
                assert forall|i: int| 0 <= i < s.len() implies has_admin(
                    store.admins@,
                    (#[trigger] s[i]).admin_id@,
                ) by {
                    if i < before.len() {
                        assert(s[i] == before[i]);
                    }
                }
            }
            Ok(token)
        },
    }
}

/// Stores an admin account under the given id, with the given hash, and its
/// first session under the given token, as one unit; an id or token already
/// in use is a store failure.
pub fn register_admin(
    store: &mut PollStore,
    name: String,
    password_hash: String,
    admin_id: String,
    token: String,
    created_at: String,
) -> (r: Result<AdminAuthResponse, ApiError>)
    requires
        old(store).wf(),
        admin_index(old(store).admins@, name@) == -1,
    ensures
        final(store).wf(),
        r is Err <==> has_admin(old(store).admins@, admin_id@) || session_index(
            old(store).sessions@,
            token@,
        ) >= 0,
        r is Err ==> r == Err::<AdminAuthResponse, ApiError>(ApiError::Storage) && unchanged(
            *old(store),
            *final(store),
        ),
        r matches Ok(resp) ==> {
            &&& resp.name@ == name@
            &&& resp.admin_id@ == admin_id@
            &&& resp.token@ == token@
            &&& final(store).polls@ == old(store).polls@
            &&& final(store).admins@.len() == old(store).admins@.len() + 1
            &&& final(store).admins@.drop_last() == old(store).admins@
            &&& final(store).admins@.last().id@ == admin_id@
            &&& final(store).admins@.last().name@ == name@
            &&& final(store).admins@.last().password_hash@ == password_hash@
            &&& final(store).admins@.last().created_at@ == created_at@
            &&& final(store).sessions@.len() == old(store).sessions@.len() + 1
            &&& final(store).sessions@.drop_last() == old(store).sessions@
            &&& final(store).sessions@.last().id@ == token@
            &&& final(store).sessions@.last().admin_id@ == admin_id@
            &&& final(store).sessions@.last().created_at@ == created_at@
        },
{
    if admin_id_taken(&store.admins, &admin_id) || find_session(&store.sessions, &token).is_some() {
        return Err(ApiError::Storage);
    }
    let ghost before = *store;
    let admin = AdminRow {
        id: admin_id.clone(),
        name: name.clone(),
        password_hash,
        created_at: created_at.clone(),
    };
    store.admins.push(admin);
    proof {
        let a = store.admins@;
        let old_a = before.admins@;
        assert(a.drop_last() =~= old_a);
        assert forall|i: int, j: int|
            0 <= i < a.len() && 0 <= j < a.len() && i != j implies a[i].id@ != a[j].id@
            && a[i].name@ != a[j].name@ by {
            if i < old_a.len() && j < old_a.len() {
                assert(a[i] == old_a[i] && a[j] == old_a[j]);
            } else if i < old_a.len() {
                assert(a[i] == old_a[i]);
                assert(old_a[i].id@ != admin_id@);
                assert(old_a[i].name@ != name@);
            } else {
                assert(a[j] == old_a[j]);
                assert(old_a[j].id@ != admin_id@);
                assert(old_a[j].name@ != name@);
            }
        }
        assert forall|i: int| 0 <= i < store.sessions@.len() implies has_admin(
            a,
            (#[trigger] store.sessions@[i]).admin_id@,
        ) by {
            assert(has_admin(old_a, store.sessions@[i].admin_id@));
            let k = choose|k: int| 0 <= k < old_a.len() && old_a[k].id@ == store.sessions@[i].admin_id@;
            assert(a[k] == old_a[k]);
        }
        assert(a[a.len() - 1].id@ == admin_id@);
        assert(has_admin(a, admin_id@));
    }
    match open_session(store, &admin_id, token, created_at) {
        Ok(token) => Ok(AdminAuthResponse { token, admin_id, name }),
        Err(e) => Err(e),
    }
}

/// Creates an admin account with its first session. The stored credential
/// is a salted hash that verifies the password.
pub fn signup_admin(store: &mut PollStore, payload: &AdminAuthRequest) -> (r: Result<AdminAuthResponse, ApiError>)
    requires
        old(store).wf(),
    ensures
        final(store).wf(),
        r == Err::<AdminAuthResponse, ApiError>(ApiError::Validation) <==> !credentials_given(*payload),
        r == Err::<AdminAuthResponse, ApiError>(ApiError::Conflict) <==> credentials_given(*payload)
            && admin_index(old(store).admins@, trim_of(payload.name@)) >= 0,
        r is Err ==> r == Err::<AdminAuthResponse, ApiError>(ApiError::Validation) || r == Err::<AdminAuthResponse, ApiError>(ApiError::Conflict)
            || r == Err::<AdminAuthResponse, ApiError>(ApiError::Storage),
        r is Err ==> unchanged(*old(store), *final(store)),
        r matches Ok(resp) ==> {
            &&& resp.name@ == trim_of(payload.name@)
            &&& !has_admin(old(store).admins@, resp.admin_id@)
            &&& session_index(old(store).sessions@, resp.token@) == -1
            &&& final(store).admins@.len() == old(store).admins@.len() + 1
            &&& final(store).admins@.drop_last() == old(store).admins@
            &&& final(store).admins@.last().id@ == resp.admin_id@
            &&& final(store).admins@.last().name@ == resp.name@
            &&& hash_parses(final(store).admins@.last().password_hash@)
            &&& password_matches(payload.password@, final(store).admins@.last().password_hash@)
            &&& final(store).polls@ == old(store).polls@
            &&& final(store).sessions@.len() == old(store).sessions@.len() + 1
            &&& final(store).sessions@.drop_last() == old(store).sessions@
            &&& final(store).sessions@.last().id@ == resp.token@
            &&& final(store).sessions@.last().admin_id@ == resp.admin_id@
        },
{
    let name = trimmed(payload.name.as_str());
    if name.as_str().is_empty() || payload.password.as_str().is_empty() {
        return Err(ApiError::Validation);
    }
    if find_admin_by_name(&store.admins, &name).is_some() {
        return Err(ApiError::Conflict);
    }
    let password_hash = match hash_password(payload.password.as_str()) {
        Some(h) => h,
        None => {
            return Err(ApiError::Storage);
        },
    };
    let (admin_id, token, created_at) = match (new_id(), new_id(), now_rfc3339()) {
        (Some(a), Some(t), Some(c)) => (a, t, c),
        _ => {
            return Err(ApiError::Storage);
        },
    };
    register_admin(store, name, password_hash, admin_id, token, created_at)
}

/// Opens a new session for an admin whose name and password check out.
pub fn login_admin(store: &mut PollStore, payload: &AdminAuthRequest) -> (r: Result<AdminAuthResponse, ApiError>)
    requires
        old(store).wf(),
    ensures
        final(store).wf(),
        !credentials_given(*payload) ==> r == Err::<AdminAuthResponse, ApiError>(ApiError::Validation),
        credentials_given(*payload) ==> {
            let i = admin_index(old(store).admins@, trim_of(payload.name@));
            let stored = old(store).admins@[i].password_hash@;
            &&& i == -1 ==> r == Err::<AdminAuthResponse, ApiError>(ApiError::Unauthorized)
            &&& i >= 0 && !hash_parses(stored) ==> r == Err::<AdminAuthResponse, ApiError>(ApiError::Storage)
            &&& i >= 0 && hash_parses(stored) && !password_matches(payload.password@, stored)
                ==> r == Err::<AdminAuthResponse, ApiError>(ApiError::Unauthorized)
            &&& i >= 0 && hash_parses(stored) && password_matches(payload.password@, stored) ==> (
            r is Ok || r == Err::<AdminAuthResponse, ApiError>(ApiError::Storage))
            &&& r matches Ok(resp) ==> {
                &&& resp.admin_id@ == old(store).admins@[i].id@
                &&& resp.name@ == old(store).admins@[i].name@
                &&& session_index(old(store).sessions@, resp.token@) == -1
                &&& session_added(*old(store), *final(store), resp.token@, resp.admin_id@)
            }
        },
        r is Err ==> unchanged(*old(store), *final(store)),
{
    let name = trimmed(payload.name.as_str());
    if name.as_str().is_empty() || payload.password.as_str().is_empty() {
        return Err(ApiError::Validation);
    }
    let i = match find_admin_by_name(&store.admins, &name) {
        Some(i) => i,
        None => {
            return Err(ApiError::Unauthorized);
        },
    };
    match check_password(payload.password.as_str(), store.admins[i].password_hash.as_str()) {
        None => {
            return Err(ApiError::Storage);
        },
        Some(false) => {
            return Err(ApiError::Unauthorized);
        },
        Some(true) => {},
    }
    let admin_id = store.admins[i].id.clone();
    let admin_name = store.admins[i].name.clone();
    proof {
        assert(has_admin(store.admins@, admin_id@));
    }
    let (token, created_at) = match (new_id(), now_rfc3339()) {
        (Some(t), Some(c)) => (t, c),
        _ => {
            return Err(ApiError::Storage);
        },
    };
    let token = open_session(store, &admin_id, token, created_at)?;
    Ok(AdminAuthResponse { token, admin_id, name: admin_name })
}

/// Ends the session that the token names.
pub fn logout_admin(store: &mut PollStore, token: &Option<String>) -> (r: Result<LogoutResponse, ApiError>)
    requires
        old(store).wf(),
    ensures
        final(store).wf(),
        r is Ok <==> session_of(*old(store), *token) >= 0,
        r is Err ==> r == Err::<LogoutResponse, ApiError>(ApiError::Unauthorized) && unchanged(*old(store), *final(store)),
        r matches Ok(resp) ==> {
            &&& resp.ok
            &&& final(store).sessions@ == old(store).sessions@.remove(session_of(*old(store), *token))
            &&& final(store).admins@ == old(store).admins@
            &&& final(store).polls@ == old(store).polls@
        },
{
    let admin = require_admin(store, token)?;
    let i = match find_session(&store.sessions, &admin.token) {
        Some(i) => i,
        None => {
            return Err(ApiError::Unauthorized);
        },
    };
    let ghost before = store.sessions@;
    store.sessions.remove(i);
    proof {
        let s = store.sessions@;
        assert forall|a: int, b: int|
            0 <= a < s.len() && 0 <= b < s.len() && a != b implies s[a].id@ != s[b].id@ by {
            let a0 = if a < i { a } else { a + 1 };
            let b0 = if b < i { b } else { b + 1 };
            assert(s[a] == before[a0] && s[b] == before[b0]);
        }
        assert forall|a: int| 0 <= a < s.len() implies has_admin(
            store.admins@,
            (#[trigger] s[a]).admin_id@,
        ) by {
            let a0 = if a < i { a } else { a + 1 };
            assert(s[a] == before[a0]);
        }
    }
    Ok(LogoutResponse { ok: true })
}

} // verus!
