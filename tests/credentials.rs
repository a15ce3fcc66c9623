use newsletter_delivery::auth::{
    basic_authentication, check_new_password, CredentialsError, PasswordRuleError,
};

#[test]
fn basic_credentials_are_decoded() {
    let c = basic_authentication(Some("Basic dXNlcjpwYXNz")).unwrap();
    assert_eq!(c.username, "user");
    assert_eq!(c.password, "pass");
}

#[test]
fn password_keeps_later_colons() {
    let c = basic_authentication(Some("Basic YTpiOmM=")).unwrap();
    assert_eq!(c.username, "a");
    assert_eq!(c.password, "b:c");
}

#[test]
fn basic_credentials_errors() {
    assert_eq!(basic_authentication(None).err(), Some(CredentialsError::MissingHeader));
    assert_eq!(
        basic_authentication(Some("Bearer dXNlcjpwYXNz")).err(),
        Some(CredentialsError::NotBasicScheme)
    );
    assert_eq!(
        basic_authentication(Some("Basic !!!")).err(),
        Some(CredentialsError::NotBase64)
    );
    assert_eq!(
        basic_authentication(Some("Basic /w==")).err(),
        Some(CredentialsError::NotUtf8)
    );
    assert_eq!(
        basic_authentication(Some("Basic dXNlcg==")).err(),
        Some(CredentialsError::MissingPassword)
    );
}

#[test]
fn new_password_rules() {
    let long = "x".repeat(129);
    let ok = "correct horse battery".to_string();
    assert_eq!(
        check_new_password(&ok, &"other".to_string()),
        Err(PasswordRuleError::Mismatch)
    );
    assert_eq!(
        check_new_password(&"x".repeat(12), &"x".repeat(12)),
        Err(PasswordRuleError::TooShort)
    );
    assert_eq!(check_new_password(&long, &long), Err(PasswordRuleError::TooLong));
    assert_eq!(check_new_password(&"x".repeat(13), &"x".repeat(13)), Ok(()));
    assert_eq!(check_new_password(&"é".repeat(128), &"é".repeat(128)), Ok(()));
    assert_eq!(check_new_password(&ok, &ok), Ok(()));
    assert_eq!(
        PasswordRuleError::TooShort.message(),
        "Password must be at least 12 characters."
    );
    assert_eq!(
        PasswordRuleError::TooLong.message(),
        "Password must be no more than 128 characters."
    );
}
