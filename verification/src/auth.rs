//! The credential substrate: users, authentication with timing
//! equalization, and the one-time initialization gate.

use vstd::prelude::*;
use vstd::string::StringExecFns;
use crate::password::{
    bcrypt_hash_parses, bcrypt_matches, spec_password_message, spec_validate_complexity,
    validate_password_complexity, verify_password,
};

verus! {

/// A stored user.
pub struct User {
    pub id: String,
    pub username: String,
    pub password_hash: String,
    pub role: String,
}

/// What can go wrong while authenticating.
#[derive(Debug)]
pub enum AuthError {
    Database(String),
    UserNotFound,
    InvalidCredentials,
    PasswordHash(String),
}

impl AuthError {
    /// The human-readable message for this error.
    pub fn message(&self) -> (r: String)
        ensures
            match self {
                AuthError::Database(msg) => r@ == "Database error: "@ + msg@,
                AuthError::UserNotFound => r@ == "User not found"@,
                AuthError::InvalidCredentials => r@ == "Invalid credentials"@,
                AuthError::PasswordHash(msg) => r@ == "Password hashing error: "@ + msg@,
            },
    {
        match self {
            AuthError::Database(msg) => "Database error: ".to_owned().concat(msg.as_str()),
            AuthError::UserNotFound => "User not found".to_owned(),
            AuthError::InvalidCredentials => "Invalid credentials".to_owned(),
            AuthError::PasswordHash(msg) => "Password hashing error: ".to_owned().concat(
                msg.as_str(),
            ),
        }
    }
}

/// Decides an authentication attempt from the looked-up record.
///
/// With a record, the password is verified against its hash; without one,
/// the password is still verified — against the process's fixed dummy hash
/// — so that the two failures take the same time, and the same
/// `InvalidCredentials` comes back either way. A found user with a
/// well-formed stored hash is owed a real accept or reject: the hashing
/// error comes only from a malformed stored hash.
pub fn authenticate_record(
    looked_up: Option<User>,
    password: &str,
    dummy_hash: &str,
) -> (r: Result<User, AuthError>)
    ensures
        match r {
            Ok(u) => looked_up matches Some(lu) && u == lu && bcrypt_matches(
                password@,
                u.password_hash@,
            ),
            Err(e) => match e {
                AuthError::InvalidCredentials => looked_up matches Some(lu) ==> !bcrypt_matches(
                    password@,
                    lu.password_hash@,
                ),
                AuthError::PasswordHash(_) => looked_up matches Some(lu) && !bcrypt_hash_parses(
                    lu.password_hash@,
                ),
                _ => false,
            },
        },
        looked_up is None ==> (r matches Err(e) && e is InvalidCredentials),
        (looked_up matches Some(lu) && bcrypt_hash_parses(lu.password_hash@) && bcrypt_matches(
            password@,
            lu.password_hash@,
        )) ==> r is Ok,
{
    match looked_up {
        Some(user) => {
            match verify_password(password, user.password_hash.as_str()) {
                Ok(true) => Ok(user),
                Ok(false) => Err(AuthError::InvalidCredentials),
                Err(e) => Err(AuthError::PasswordHash(e.message())),
            }
        },
        None => {
            // timing equalization: pay the same bcrypt cost before refusing
            let _ = verify_password(password, dummy_hash);
            Err(AuthError::InvalidCredentials)
        },
    }
}

/// The hash verified against when no user matches: fixed text, hashed once
/// per process at first need.
pub const DUMMY_PASSWORD: &'static str = "dummy_password_for_timing_attack";

/// The fallback dummy hash used when hashing the fixed text itself fails.
pub const DUMMY_FALLBACK_HASH: &'static str =
    "$2b$12$0000000000000000000000000000000000000000000000000000";

/// Gates the one-time admin creation: the password must meet the
/// complexity policy, and the system must not already be initialized.
pub fn check_init_allowed(initialized: bool, password: &str) -> (r: Result<(), String>)
    ensures
        match r {
            Ok(()) => !initialized && spec_validate_complexity(password@) is Ok,
            Err(e) => match spec_validate_complexity(password@) {
                Err(pe) => e@ == "Invalid password: "@ + spec_password_message(pe),
                Ok(()) => initialized && e@ == "System already initialized"@,
            },
        },
{
    match validate_password_complexity(password) {
        Ok(()) => {},
        Err(pe) => {
            let pm = pe.message();
            let msg = "Invalid password: ".to_owned().concat(pm.as_str());
            return Err(msg);
        },
    }
    if initialized {
        return Err("System already initialized".to_owned());
    }
    Ok(())
}

} // verus!
