//! Password complexity policy, bcrypt hashing and verification.

use vstd::prelude::*;
use vstd::string::StringExecFns;
use crate::strutil::{
    chars_vec, exec_is_digit, exec_is_lower, exec_is_upper, is_digit_char, is_lower_char,
    is_upper_char,
};

verus! {

/// Shortest password the policy accepts, in characters.
pub const PASSWORD_MIN_LENGTH: usize = 8;

/// Longest password the policy accepts, in characters.
pub const PASSWORD_MAX_LENGTH: usize = 128;

/// What can go wrong when validating, hashing or verifying a password.
#[derive(Debug)]
pub enum PasswordError {
    TooShort,
    TooLong,
    MissingUppercase,
    MissingLowercase,
    MissingDigit,
    MissingSpecial,
    HashFailed(String),
    VerifyFailed(String),
}

/// The printable ASCII non-alphanumerics that count as special characters.
pub open spec fn is_special_char(c: char) -> bool {
    ||| c == '!'
    ||| c == '@'
    ||| c == '#'
    ||| c == '$'
    ||| c == '%'
    ||| c == '^'
    ||| c == '&'
    ||| c == '*'
    ||| c == '_'
    ||| c == '-'
    ||| c == '+'
    ||| c == '='
    ||| c == '('
    ||| c == ')'
    ||| c == '['
    ||| c == ']'
    ||| c == '{'
    ||| c == '}'
    ||| c == '|'
    ||| c == '\\'
    ||| c == ':'
    ||| c == ';'
    ||| c == '"'
    ||| c == '\''
    ||| c == '<'
    ||| c == '>'
    ||| c == ','
    ||| c == '.'
    ||| c == '?'
    ||| c == '/'
    ||| c == '~'
    ||| c == '`'
}

pub open spec fn has_upper(s: Seq<char>) -> bool {
    exists|i: int| 0 <= i < s.len() && is_upper_char(#[trigger] s[i])
}

pub open spec fn has_lower(s: Seq<char>) -> bool {
    exists|i: int| 0 <= i < s.len() && is_lower_char(#[trigger] s[i])
}

pub open spec fn has_digit(s: Seq<char>) -> bool {
    exists|i: int| 0 <= i < s.len() && is_digit_char(#[trigger] s[i])
}

pub open spec fn has_special(s: Seq<char>) -> bool {
    exists|i: int| 0 <= i < s.len() && is_special_char(#[trigger] s[i])
}

/// The complexity outcome: length in range, and one of each required
/// character class, reported in a fixed order.
pub open spec fn spec_validate_complexity(s: Seq<char>) -> Result<(), PasswordError> {
    if s.len() < PASSWORD_MIN_LENGTH {
        Err(PasswordError::TooShort)
    } else if s.len() > PASSWORD_MAX_LENGTH {
        Err(PasswordError::TooLong)
    } else if !has_upper(s) {
        Err(PasswordError::MissingUppercase)
    } else if !has_lower(s) {
        Err(PasswordError::MissingLowercase)
    } else if !has_digit(s) {
        Err(PasswordError::MissingDigit)
    } else if !has_special(s) {
        Err(PasswordError::MissingSpecial)
    } else {
        Ok(())
    }
}

fn exec_is_special(c: char) -> (r: bool)
    ensures
        r == is_special_char(c),
{
    c == '!' || c == '@' || c == '#' || c == '$' || c == '%' || c == '^' || c == '&' || c == '*'
        || c == '_' || c == '-' || c == '+' || c == '=' || c == '(' || c == ')' || c == '[' || c
        == ']' || c == '{' || c == '}' || c == '|' || c == '\\' || c == ':' || c == ';' || c == '"'
        || c == '\'' || c == '<' || c == '>' || c == ',' || c == '.' || c == '?' || c == '/' || c
        == '~' || c == '`'
}

/// Checks the complexity policy: length between eight and 128 characters,
/// with at least one uppercase letter, one lowercase letter, one digit and
/// one special character.
pub fn validate_password_complexity(password: &str) -> (r: Result<(), PasswordError>)
    ensures
        r == spec_validate_complexity(password@),
{
    let chars = chars_vec(password);
    let n: usize = chars.len();
    if n < PASSWORD_MIN_LENGTH {
        return Err(PasswordError::TooShort);
    }
    if n > PASSWORD_MAX_LENGTH {
        return Err(PasswordError::TooLong);
    }
    let mut found_upper = false;
    let mut found_lower = false;
    let mut found_digit = false;
    let mut found_special = false;
    let mut i: usize = 0;
    while i < n
        invariant
            n == password@.len(),
            chars@ == password@,
            i <= n,
            found_upper == exists|j: int|
                0 <= j < i && is_upper_char(#[trigger] password@[j]),
            found_lower == exists|j: int|
                0 <= j < i && is_lower_char(#[trigger] password@[j]),
            found_digit == exists|j: int|
                0 <= j < i && is_digit_char(#[trigger] password@[j]),
            found_special == exists|j: int|
                0 <= j < i && is_special_char(#[trigger] password@[j]),
        decreases n - i,
    {
        let c = chars[i];
        if exec_is_upper(c) {
            found_upper = true;
        }
        if exec_is_lower(c) {
            found_lower = true;
        }
        if exec_is_digit(c) {
            found_digit = true;
        }
        if exec_is_special(c) {
            found_special = true;
        }
        i = i + 1;
    }
    if !found_upper {
        return Err(PasswordError::MissingUppercase);
    }
    if !found_lower {
        return Err(PasswordError::MissingLowercase);
    }
    if !found_digit {
        return Err(PasswordError::MissingDigit);
    }
    if !found_special {
        return Err(PasswordError::MissingSpecial);
    }
    Ok(())
}

/// Whether bcrypt accepts `password` against the encoded `hash`.
///
/// bcrypt's verdict is a function of the password and the encoded hash
/// alone (the salt and cost travel inside the hash), so it can be named.
pub uninterp spec fn bcrypt_matches(password: Seq<char>, hash: Seq<char>) -> bool;

/// Whether bcrypt accepts `hash` as a well-formed encoded hash: the text
/// splits into version, cost and salt, with the cost in range and the
/// salt decodable. A function of the hash text alone; verification
/// returns a verdict exactly on such hashes, and hashing only produces
/// them.
pub uninterp spec fn bcrypt_hash_parses(hash: Seq<char>) -> bool;

/// Relies on bcrypt::hash with bcrypt::DEFAULT_COST: on success the encoded
/// result embeds the salt and cost in a well-formed hash text, and
/// bcrypt::verify accepts the same password against it.
#[verifier::external_body]
fn bcrypt_hash_default(password: &str) -> (r: Result<String, String>)
    ensures
        r matches Ok(h) ==> bcrypt_matches(password@, h@) && bcrypt_hash_parses(h@),
{
    match bcrypt::hash(password, bcrypt::DEFAULT_COST) {
        Ok(h) => Ok(h),
        Err(e) => Err(e.to_string()),
    }
}

/// Relies on bcrypt::verify: its verdict is `bcrypt_matches` of the
/// password and the encoded hash, and it fails exactly when the hash text
/// itself is malformed — never because of the password.
#[verifier::external_body]
fn bcrypt_verify_raw(password: &str, hash: &str) -> (r: Result<bool, String>)
    ensures
        r matches Ok(b) ==> b == bcrypt_matches(password@, hash@),
        r is Ok <==> bcrypt_hash_parses(hash@),
{
    match bcrypt::verify(password, hash) {
        Ok(b) => Ok(b),
        Err(e) => Err(e.to_string()),
    }
}

/// Hashes a password with bcrypt at the default cost factor.
///
/// Each call salts afresh, so two hashes of one password differ; every
/// returned hash is well formed and verifies against the password it was
/// made from.
pub fn hash_password(password: &str) -> (r: Result<String, PasswordError>)
    ensures
        r matches Ok(h) ==> bcrypt_matches(password@, h@) && bcrypt_hash_parses(h@),
        r matches Err(e) ==> e is HashFailed,
{
    match bcrypt_hash_default(password) {
        Ok(h) => Ok(h),
        Err(msg) => Err(PasswordError::HashFailed(msg)),
    }
}

/// Verifies a password against a bcrypt hash in constant time relative to
/// the hash length. A verdict is owed exactly when the stored hash is well
/// formed; in particular, every hash that `hash_password` returned yields
/// a verdict.
pub fn verify_password(password: &str, hash: &str) -> (r: Result<bool, PasswordError>)
    ensures
        r matches Ok(b) ==> b == bcrypt_matches(password@, hash@),
        r is Ok <==> bcrypt_hash_parses(hash@),
        r matches Err(e) ==> e is VerifyFailed,
{
    match bcrypt_verify_raw(password, hash) {
        Ok(b) => Ok(b),
        Err(msg) => Err(PasswordError::VerifyFailed(msg)),
    }
}

/// The message each password error carries.
pub open spec fn spec_password_message(e: PasswordError) -> Seq<char> {
    match e {
        PasswordError::TooShort => "Password must be at least 8 characters"@,
        PasswordError::TooLong => "Password must be at most 128 characters"@,
        PasswordError::MissingUppercase => "Password must contain at least one uppercase letter"@,
        PasswordError::MissingLowercase => "Password must contain at least one lowercase letter"@,
        PasswordError::MissingDigit => "Password must contain at least one digit"@,
        PasswordError::MissingSpecial => "Password must contain at least one special character"@,
        PasswordError::HashFailed(msg) => "Failed to hash password: "@ + msg@,
        PasswordError::VerifyFailed(msg) => "Failed to verify password: "@ + msg@,
    }
}

impl PasswordError {
    /// The human-readable message for this error.
    pub fn message(&self) -> (r: String)
        ensures
            r@ == spec_password_message(*self),
    {
        match self {
            PasswordError::TooShort => "Password must be at least 8 characters".to_owned(),
            PasswordError::TooLong => "Password must be at most 128 characters".to_owned(),
            PasswordError::MissingUppercase => "Password must contain at least one uppercase letter".to_owned(),
            PasswordError::MissingLowercase => "Password must contain at least one lowercase letter".to_owned(),
            PasswordError::MissingDigit => "Password must contain at least one digit".to_owned(),
            PasswordError::MissingSpecial => "Password must contain at least one special character".to_owned(),
            PasswordError::HashFailed(msg) => "Failed to hash password: ".to_owned().concat(
                msg.as_str(),
            ),
            PasswordError::VerifyFailed(msg) => "Failed to verify password: ".to_owned().concat(
                msg.as_str(),
            ),
        }
    }
}

} // verus!
