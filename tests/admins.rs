use poll_backend::auth::{login_admin, logout_admin, require_admin, signup_admin};
use poll_backend::model::{AdminAuthRequest, ApiError};
use poll_backend::store::PollStore;

fn creds(name: &str, password: &str) -> AdminAuthRequest {
    AdminAuthRequest { name: name.to_string(), password: password.to_string() }
}

#[test]
fn signup_login_logout_round() {
    let mut store = PollStore::new();
    let signed = signup_admin(&mut store, &creds("  alice ", "s3cret")).unwrap();
    assert_eq!(signed.name, "alice");
    assert_eq!(signed.token.len(), 36);
    assert_eq!(signed.admin_id.len(), 36);
    assert_ne!(store.admins[0].password_hash, "s3cret");
    assert!(store.admins[0].password_hash.starts_with("$argon2"));

    let ctx = require_admin(&store, &Some(signed.token.clone())).unwrap();
    assert_eq!(ctx.admin_id, signed.admin_id);
    assert_eq!(ctx.token, signed.token);

    let logged = login_admin(&mut store, &creds("alice", "s3cret")).unwrap();
    assert_eq!(logged.admin_id, signed.admin_id);
    assert_eq!(logged.name, "alice");
    assert_ne!(logged.token, signed.token);
    assert_eq!(store.sessions.len(), 2);

    let token = Some(logged.token.clone());
    assert!(logout_admin(&mut store, &token).unwrap().ok);
    assert_eq!(logout_admin(&mut store, &token).unwrap_err(), ApiError::Unauthorized);
    assert_eq!(require_admin(&store, &token).unwrap_err(), ApiError::Unauthorized);
    assert!(require_admin(&store, &Some(signed.token.clone())).is_ok());
}

#[test]
fn signup_rejects_blank_and_taken_names() {
    let mut store = PollStore::new();
    assert_eq!(signup_admin(&mut store, &creds("   ", "pw")).unwrap_err(), ApiError::Validation);
    assert_eq!(signup_admin(&mut store, &creds("bob", "")).unwrap_err(), ApiError::Validation);
    assert!(store.admins.is_empty());
    signup_admin(&mut store, &creds("bob", "pw")).unwrap();
    assert_eq!(signup_admin(&mut store, &creds(" bob", "other")).unwrap_err(), ApiError::Conflict);
    assert_eq!(store.admins.len(), 1);
    assert_eq!(store.sessions.len(), 1);
}

#[test]
fn login_does_not_tell_unknown_name_from_wrong_password() {
    let mut store = PollStore::new();
    signup_admin(&mut store, &creds("carol", "right")).unwrap();
    assert_eq!(login_admin(&mut store, &creds("carol", "wrong")).unwrap_err(), ApiError::Unauthorized);
    assert_eq!(login_admin(&mut store, &creds("dave", "right")).unwrap_err(), ApiError::Unauthorized);
    assert_eq!(login_admin(&mut store, &creds("", "right")).unwrap_err(), ApiError::Validation);
    assert_eq!(store.sessions.len(), 1);
}

#[test]
fn login_with_unreadable_stored_hash_is_a_storage_error() {
    let mut store = PollStore::new();
    signup_admin(&mut store, &creds("erin", "pw")).unwrap();
    store.admins[0].password_hash = String::from("not a hash");
    assert_eq!(login_admin(&mut store, &creds("erin", "pw")).unwrap_err(), ApiError::Storage);
}
