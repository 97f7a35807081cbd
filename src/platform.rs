//! The calls this library makes into std and outside crates, each with the
//! contract the rest of the library relies on.

use argon2::password_hash::{PasswordHash, PasswordHasher, PasswordVerifier, SaltString};
use argon2::Argon2;
use rand_core::RngCore;
use vstd::prelude::*;

verus! {

/// The characters with the Unicode White_Space property.
pub open spec fn is_white_space(c: char) -> bool {
    let n = c as u32;
    (0x9 <= n && n <= 0xd) || n == 0x20 || n == 0x85 || n == 0xa0 || n == 0x1680 || (0x2000 <= n
        && n <= 0x200a) || n == 0x2028 || n == 0x2029 || n == 0x202f || n == 0x205f || n == 0x3000
}

/// The text without its leading white space.
pub open spec fn trim_start_of(s: Seq<char>) -> Seq<char>
    decreases s.len(),
{
    if s.len() > 0 && is_white_space(s[0]) {
        trim_start_of(s.drop_first())
    } else {
        s
    }
}

/// The text without its trailing white space.
pub open spec fn trim_end_of(s: Seq<char>) -> Seq<char>
    decreases s.len(),
{
    if s.len() > 0 && is_white_space(s.last()) {
        trim_end_of(s.drop_last())
    } else {
        s
    }
}

/// The text without its leading and trailing white space.
pub open spec fn trim_of(s: Seq<char>) -> Seq<char> {
    trim_end_of(trim_start_of(s))
}

/// Relies on `str::trim`, which removes leading and trailing characters with
/// the Unicode White_Space property.
#[verifier::external_body]
pub(crate) fn trimmed(s: &str) -> (r: String)
    ensures
        r@ == trim_of(s@),
{
    s.trim().to_string()
}

/// Relies on `rand_core::OsRng::try_fill_bytes` for 16 random bytes and on
/// `uuid::Builder::from_random_bytes` and the hyphenated text form of the
/// UUID: a random identifier of 36 characters, or `None` where the operating
/// system gave no random bytes.
#[verifier::external_body]
pub(crate) fn new_id() -> (r: Option<String>)
    ensures
        r matches Some(id) ==> id@.len() == 36,
{
    let mut bytes = [0u8; 16];
    match rand_core::OsRng.try_fill_bytes(&mut bytes) {
        Ok(()) => Some(uuid::Builder::from_random_bytes(bytes).into_uuid().to_string()),
        Err(_) => None,
    }
}

/// Relies on `std::time::SystemTime::now` and `duration_since(UNIX_EPOCH)`,
/// and on `chrono::DateTime::from_timestamp` and `to_rfc3339`: the current
/// time as RFC 3339 text, or `None` where the clock reads before 1970 or
/// beyond chrono's range.
#[verifier::external_body]
pub(crate) fn now_rfc3339() -> (r: Option<String>) {
    let since = std::time::SystemTime::now().duration_since(std::time::UNIX_EPOCH).ok()?;
    let secs = i64::try_from(since.as_secs()).ok()?;
    let now = chrono::DateTime::<chrono::Utc>::from_timestamp(secs, since.subsec_nanos())?;
    Some(now.to_rfc3339())
}

/// Whether `argon2::PasswordHash::new` reads the stored text as a hash.
pub uninterp spec fn hash_parses(stored: Seq<char>) -> bool;

/// Whether `Argon2::verify_password` accepts the password for the stored hash.
pub uninterp spec fn password_matches(password: Seq<char>, stored: Seq<char>) -> bool;

/// Relies on `Argon2::hash_password` with a salt that
/// `SaltString::encode_b64` makes of 16 bytes from
/// `rand_core::OsRng::try_fill_bytes`: the PHC text of the salted hash, which
/// `PasswordHash::new` reads back and against which `verify_password`
/// recomputes the same hash from the password. `None` where the operating
/// system gave no random bytes or hashing failed.
#[verifier::external_body]
pub(crate) fn hash_password(password: &str) -> (r: Option<String>)
    ensures
        r matches Some(h) ==> hash_parses(h@) && password_matches(password@, h@),
{
    let mut bytes = [0u8; 16];
    if let Err(_) = rand_core::OsRng.try_fill_bytes(&mut bytes) {
        return None;
    }
    let salt = SaltString::encode_b64(&bytes).ok()?;
    let hash = Argon2::default().hash_password(password.as_bytes(), &salt).ok()?;
    Some(hash.to_string())
}

/// Relies on `argon2::PasswordHash::new` to read the stored hash and on
/// `Argon2::verify_password` to check the password against it; both depend
/// on their arguments alone. `None` where the stored text is no hash.
#[verifier::external_body]
pub(crate) fn check_password(password: &str, stored: &str) -> (r: Option<bool>)
    ensures
        r is None <==> !hash_parses(stored@),
        r matches Some(ok) ==> ok == password_matches(password@, stored@),
{
    match PasswordHash::new(stored) {
        Ok(hash) => Some(Argon2::default().verify_password(password.as_bytes(), &hash).is_ok()),
        Err(_) => None,
    }
}

} // verus!
