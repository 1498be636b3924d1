use todo::users::{LoginError, RegisterError, UserDirectory};

fn s(text: &str) -> String {
    text.to_string()
}

#[test]
fn register_assigns_sequential_ids() {
    let mut users = UserDirectory::new();
    assert_eq!(users.register(s("alice@example.com"), s("pw1")), Ok(0));
    assert_eq!(users.register(s("bob@example.com"), s("pw2")), Ok(1));
    assert_eq!(users.len(), 2);
    assert!(users.has_user(0));
    assert!(users.has_user(1));
    assert!(!users.has_user(2));
}

#[test]
fn register_same_email_twice_is_duplicate() {
    let mut users = UserDirectory::new();
    assert_eq!(users.register(s("alice@example.com"), s("pw1")), Ok(0));
    assert_eq!(
        users.register(s("alice@example.com"), s("other")),
        Err(RegisterError::DuplicateEmail)
    );
    assert_eq!(
        users.register(s("alice@example.com"), s("pw1")),
        Err(RegisterError::DuplicateEmail)
    );
    assert_eq!(users.len(), 1);
}

#[test]
fn email_match_is_case_sensitive() {
    let mut users = UserDirectory::new();
    assert_eq!(users.register(s("alice@example.com"), s("pw1")), Ok(0));
    assert_eq!(users.register(s("Alice@example.com"), s("pw1")), Ok(1));
}

#[test]
fn register_rejects_malformed_email() {
    let mut users = UserDirectory::new();
    assert_eq!(users.register(s("not-an-email"), s("pw")), Err(RegisterError::InvalidInput));
    assert_eq!(users.register(s(""), s("pw")), Err(RegisterError::InvalidInput));
    assert_eq!(users.register(s("a@b@"), s("pw")), Err(RegisterError::InvalidInput));
    assert_eq!(users.len(), 0);
}

#[test]
fn duplicate_is_reported_before_malformed() {
    let mut users = UserDirectory::new();
    assert_eq!(users.add_user(s("x"), s("pw"), true), Ok(0));
    assert_eq!(users.add_user(s("x"), s("pw"), false), Err(RegisterError::DuplicateEmail));
    assert_eq!(users.add_user(s("y"), s("pw"), false), Err(RegisterError::InvalidInput));
    assert_eq!(users.add_user(s("y"), s("pw"), true), Ok(1));
}

#[test]
fn authenticate_returns_registered_id() {
    let mut users = UserDirectory::new();
    users.register(s("alice@example.com"), s("pw1")).unwrap();
    users.register(s("bob@example.com"), s("pw2")).unwrap();
    assert_eq!(users.authenticate(&s("bob@example.com"), &s("pw2")), Ok(1));
    assert_eq!(users.authenticate(&s("alice@example.com"), &s("pw1")), Ok(0));
}

#[test]
fn authenticate_wrong_password_is_invalid() {
    let mut users = UserDirectory::new();
    users.register(s("alice@example.com"), s("pw1")).unwrap();
    assert_eq!(
        users.authenticate(&s("alice@example.com"), &s("pw2")),
        Err(LoginError::InvalidCredentials)
    );
    assert_eq!(
        users.authenticate(&s("carol@example.com"), &s("pw1")),
        Err(LoginError::InvalidCredentials)
    );
}
