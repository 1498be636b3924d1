use todo::service::{bearer_token, ApiError, TodoService};
use todo::token::{Claims, issue_claims};
use todo::users::{LoginError, RegisterError};

fn s(text: &str) -> String {
    text.to_string()
}

fn some(text: &str) -> Option<String> {
    Some(text.to_string())
}

#[test]
fn scenario_alice_buys_milk() {
    let mut svc = TodoService::new();
    assert_eq!(svc.register(s("alice@example.com"), s("pw1")), Ok(0));
    let t = svc.login(&s("alice@example.com"), &s("pw1")).unwrap();
    assert_eq!(t.uid, "0");
    let tok = Some(&t);

    let id = svc
        .create_task(tok, some("buy milk"), some("2%"), some("2025-01-01T00:00:00Z"))
        .unwrap();
    assert_eq!(id, 0);

    let listed = svc.list_tasks(tok, 0).unwrap();
    assert_eq!(listed.len(), 1);
    assert_eq!(listed[0].id, 0);
    assert_eq!(listed[0].name, "buy milk");
    assert_eq!(listed[0].description, "2%");
    assert_eq!(listed[0].deadline, "2025-01-01T00:00:00+00:00");
    assert!(!listed[0].completed);

    let updated = svc.update_task(tok, 0, None, None, None, true).unwrap();
    assert_eq!(updated.id, 0);
    assert!(updated.completed);
    assert_eq!(updated.name, "buy milk");
    assert_eq!(updated.description, "2%");
    assert_eq!(updated.deadline, "2025-01-01T00:00:00+00:00");

    assert_eq!(svc.delete_task(tok, 0), Ok(()));
    assert!(svc.list_tasks(tok, 0).unwrap().is_empty());
}

#[test]
fn login_with_wrong_password_fails() {
    let mut svc = TodoService::new();
    svc.register(s("alice@example.com"), s("pw1")).unwrap();
    assert_eq!(
        svc.login(&s("alice@example.com"), &s("nope")).unwrap_err(),
        LoginError::InvalidCredentials
    );
}

#[test]
fn register_twice_through_service_is_duplicate() {
    let mut svc = TodoService::new();
    svc.register(s("alice@example.com"), s("pw1")).unwrap();
    assert_eq!(
        svc.register(s("alice@example.com"), s("pw9")),
        Err(RegisterError::DuplicateEmail)
    );
}

#[test]
fn tasks_are_isolated_between_users() {
    let mut svc = TodoService::new();
    svc.register(s("a@example.com"), s("pa")).unwrap();
    svc.register(s("b@example.com"), s("pb")).unwrap();
    let ta = svc.login(&s("a@example.com"), &s("pa")).unwrap();
    let tb = svc.login(&s("b@example.com"), &s("pb")).unwrap();
    svc.create_task(Some(&ta), some("secret"), some("d"), some("2025-01-01T00:00:00Z"))
        .unwrap();

    assert_eq!(svc.list_tasks(Some(&tb), 0).unwrap_err(), ApiError::Unauthorized);
    assert!(svc.list_tasks(Some(&tb), 1).unwrap().is_empty());
    assert_eq!(
        svc.update_task(Some(&tb), 0, some("hijack"), None, None, true).unwrap_err(),
        ApiError::NotFound
    );
    assert_eq!(svc.delete_task(Some(&tb), 0).unwrap_err(), ApiError::NotFound);
    let a_tasks = svc.list_tasks(Some(&ta), 0).unwrap();
    assert_eq!(a_tasks.len(), 1);
    assert_eq!(a_tasks[0].name, "secret");
    assert!(!a_tasks[0].completed);
}

#[test]
fn missing_token_is_unauthorized() {
    let mut svc = TodoService::new();
    svc.register(s("a@example.com"), s("pa")).unwrap();
    assert_eq!(svc.authorize(None), Err(ApiError::Unauthorized));
    assert_eq!(
        svc.create_task(None, some("n"), some("d"), some("2025-01-01T00:00:00Z")),
        Err(ApiError::Unauthorized)
    );
    assert_eq!(svc.list_tasks(None, 0).unwrap_err(), ApiError::Unauthorized);
    assert_eq!(svc.delete_task(None, 0), Err(ApiError::Unauthorized));
}

#[test]
fn non_numeric_subject_is_unauthorized() {
    let mut svc = TodoService::new();
    svc.register(s("a@example.com"), s("pa")).unwrap();
    let c = Claims::new(s("abc"), s("j"));
    assert_eq!(svc.authorize(Some(&c)), Err(ApiError::Unauthorized));
    assert_eq!(
        svc.update_task(Some(&c), 0, None, None, None, true).unwrap_err(),
        ApiError::Unauthorized
    );
}

#[test]
fn unregistered_subject_is_unknown_user() {
    let mut svc = TodoService::new();
    let c = issue_claims(3);
    assert_eq!(svc.authorize(Some(&c)), Err(ApiError::UnknownUser));
    assert_eq!(
        svc.create_task(Some(&c), some("n"), some("d"), some("2025-01-01T00:00:00Z")),
        Err(ApiError::UnknownUser)
    );
    assert_eq!(svc.delete_task(Some(&c), 0), Err(ApiError::UnknownUser));
}

#[test]
fn create_without_a_field_is_missing_field() {
    let mut svc = TodoService::new();
    svc.register(s("a@example.com"), s("pa")).unwrap();
    let t = svc.login(&s("a@example.com"), &s("pa")).unwrap();
    assert_eq!(
        svc.create_task(Some(&t), some("n"), None, some("2025-01-01T00:00:00Z")),
        Err(ApiError::MissingField)
    );
    assert!(svc.list_tasks(Some(&t), 0).unwrap().is_empty());
}

#[test]
fn update_or_delete_before_any_create_is_not_found() {
    let mut svc = TodoService::new();
    svc.register(s("a@example.com"), s("pa")).unwrap();
    let t = svc.login(&s("a@example.com"), &s("pa")).unwrap();
    assert_eq!(svc.delete_task(Some(&t), 0), Err(ApiError::NotFound));
    assert_eq!(
        svc.update_task(Some(&t), 0, None, None, None, false).unwrap_err(),
        ApiError::NotFound
    );
}

#[test]
fn delete_absent_task_is_success() {
    let mut svc = TodoService::new();
    svc.register(s("a@example.com"), s("pa")).unwrap();
    let t = svc.login(&s("a@example.com"), &s("pa")).unwrap();
    svc.create_task(Some(&t), some("n"), some("d"), some("2025-01-01T00:00:00Z"))
        .unwrap();
    assert_eq!(svc.delete_task(Some(&t), 17), Ok(()));
    assert_eq!(svc.list_tasks(Some(&t), 0).unwrap().len(), 1);
}

#[test]
fn header_value_resolves_through_bearer_prefix() {
    let header = "Bearer 12";
    assert_eq!(bearer_token(header), "12");
}

#[test]
fn deadlines_are_stored_in_utc() {
    let mut svc = TodoService::new();
    svc.register(s("a@example.com"), s("pa")).unwrap();
    let t = svc.login(&s("a@example.com"), &s("pa")).unwrap();
    svc.create_task(Some(&t), some("n"), some("d"), some("2025-01-01T02:30:00+02:00"))
        .unwrap();
    assert_eq!(svc.list_tasks(Some(&t), 0).unwrap()[0].deadline, "2025-01-01T00:30:00+00:00");
    let u = svc
        .update_task(Some(&t), 0, None, None, some("2026-06-01T12:00:00.5Z"), false)
        .unwrap();
    assert_eq!(u.deadline, "2026-06-01T12:00:00.500+00:00");
}

#[test]
fn malformed_deadline_is_invalid_field() {
    let mut svc = TodoService::new();
    svc.register(s("a@example.com"), s("pa")).unwrap();
    let t = svc.login(&s("a@example.com"), &s("pa")).unwrap();
    assert_eq!(
        svc.create_task(Some(&t), some("n"), some("d"), some("tomorrow")),
        Err(ApiError::InvalidField)
    );
    assert!(svc.list_tasks(Some(&t), 0).unwrap().is_empty());
    svc.create_task(Some(&t), some("n"), some("d"), some("2025-01-01T00:00:00Z"))
        .unwrap();
    assert_eq!(
        svc.update_task(Some(&t), 0, None, None, some("2025-13-01T00:00:00Z"), true).unwrap_err(),
        ApiError::InvalidField
    );
    assert!(!svc.list_tasks(Some(&t), 0).unwrap()[0].completed);
}

#[test]
fn listing_an_unregistered_user_is_unknown_user() {
    let mut svc = TodoService::new();
    svc.register(s("a@example.com"), s("pa")).unwrap();
    let t = svc.login(&s("a@example.com"), &s("pa")).unwrap();
    assert_eq!(t.jti.len(), 36);
    assert_eq!(svc.list_tasks(Some(&t), 5).unwrap_err(), ApiError::UnknownUser);
}

#[test]
fn missing_task_is_reported_before_malformed_deadline() {
    let mut svc = TodoService::new();
    svc.register(s("a@example.com"), s("pa")).unwrap();
    let t = svc.login(&s("a@example.com"), &s("pa")).unwrap();
    assert_eq!(
        svc.update_task(Some(&t), 0, None, None, some("not a date"), true).unwrap_err(),
        ApiError::NotFound
    );
}

#[test]
fn register_empty_or_at_less_email_is_invalid() {
    let mut svc = TodoService::new();
    assert_eq!(svc.register(s(""), s("pw")), Err(RegisterError::InvalidInput));
    assert_eq!(svc.register(s("not-an-email"), s("pw")), Err(RegisterError::InvalidInput));
}
