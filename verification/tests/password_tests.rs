use mapflow::password::{hash_password, validate_password_complexity, verify_password, PasswordError};

#[test]
fn test_validate_password_complexity_valid() {
    let password = "Test123!@#";
    assert!(validate_password_complexity(password).is_ok());
}

#[test]
fn test_validate_password_too_short() {
    let password = "Test1!";
    assert!(matches!(
        validate_password_complexity(password),
        Err(PasswordError::TooShort)
    ));
}

#[test]
fn test_validate_password_missing_uppercase() {
    let password = "test123!@#";
    assert!(matches!(
        validate_password_complexity(password),
        Err(PasswordError::MissingUppercase)
    ));
}

#[test]
fn test_validate_password_missing_lowercase() {
    let password = "TEST123!@#";
    assert!(matches!(
        validate_password_complexity(password),
        Err(PasswordError::MissingLowercase)
    ));
}

#[test]
fn test_validate_password_missing_digit() {
    let password = "TestTest!@#";
    assert!(matches!(
        validate_password_complexity(password),
        Err(PasswordError::MissingDigit)
    ));
}

#[test]
fn test_validate_password_missing_special() {
    let password = "Test123456";
    assert!(matches!(
        validate_password_complexity(password),
        Err(PasswordError::MissingSpecial)
    ));
}

#[test]
fn test_validate_password_too_long() {
    let mut password = String::new();
    for _ in 0..13 {
        password.push_str("Aa1!Aa1!Aa");
    }
    assert_eq!(password.len(), 130);
    assert!(matches!(
        validate_password_complexity(&password),
        Err(PasswordError::TooLong)
    ));
}

#[test]
fn test_hash_and_verify_password() {
    let password = "Test123!@#";
    let hash = hash_password(password).unwrap();
    assert!(verify_password(password, &hash).unwrap());
    assert!(!verify_password("wrongpassword", &hash).unwrap());
}

#[test]
fn test_hash_twice_different_results() {
    let password = "Test123!@#";
    let hash1 = hash_password(password).unwrap();
    let hash2 = hash_password(password).unwrap();
    assert_ne!(
        hash1, hash2,
        "Hashing same password twice should produce different results due to salt"
    );
}

#[test]
fn test_hash_starts_with_bcrypt_prefix() {
    let password = "Test123!@#";
    let hash = hash_password(password).unwrap();
    assert!(
        hash.starts_with("$2b$"),
        "Bcrypt hash should start with $2b$ prefix"
    );
}

#[test]
fn test_verify_malformed_hash_is_refused() {
    // a verdict is owed only for well-formed hashes; anything else errors
    assert!(matches!(
        verify_password("Test123!@#", "not a bcrypt hash"),
        Err(PasswordError::VerifyFailed(_))
    ));
    // and every produced hash yields a verdict
    let hash = hash_password("Test123!@#").unwrap();
    assert!(verify_password("Test123!@#", &hash).is_ok());
}

#[test]
fn test_password_error_messages() {
    assert_eq!(
        PasswordError::TooShort.message(),
        "Password must be at least 8 characters"
    );
    assert_eq!(
        PasswordError::MissingSpecial.message(),
        "Password must contain at least one special character"
    );
}
