use watchlist::auth::{CredentialStore, LoginData, RegisterUser, SessionState};
use watchlist::error::ServiceError;

fn creds(username: &str, password: &str) -> RegisterUser {
    RegisterUser { username: username.to_string(), password: password.to_string() }
}

fn attempt(username: &str, password: &str) -> LoginData {
    LoginData { username: username.to_string(), password: password.to_string() }
}

#[test]
fn registering_a_taken_username_fails_with_duplicate() {
    let mut store = CredentialStore::new();
    assert!(store.register(&creds("alice", "hunter2xx")).is_ok());
    assert_eq!(
        store.register(&creds("alice", "otherpass")),
        Err(ServiceError::DuplicateUsername)
    );
    // The first registration still answers for the name.
    assert!(store.login(&attempt("alice", "hunter2xx")).is_ok());
    assert!(store.login(&attempt("alice", "otherpass")).is_err());
}

#[test]
fn login_round_trip_accepts_only_the_registered_password() {
    let mut store = CredentialStore::new();
    let id = store.register(&creds("bob", "correct horse")).unwrap();
    let grant = store.login(&attempt("bob", "correct horse")).unwrap();
    assert_eq!(grant.user_id, id);
    assert_eq!(
        store.login(&attempt("bob", "wrong horse")),
        Err(ServiceError::InvalidCredentials)
    );
}

#[test]
fn wrong_password_and_unknown_user_fail_alike() {
    let mut store = CredentialStore::new();
    store.register(&creds("carol", "topsecret")).unwrap();
    let wrong_password = store.login(&attempt("carol", "not it"));
    let unknown_user = store.login(&attempt("nobody", "anything"));
    assert_eq!(wrong_password, Err(ServiceError::InvalidCredentials));
    assert_eq!(unknown_user, Err(ServiceError::InvalidCredentials));
    assert_eq!(wrong_password, unknown_user);
}

#[test]
fn error_message_never_names_the_failing_field() {
    let e = ServiceError::InvalidCredentials;
    assert_eq!(e.message(), "invalid credentials");
}

#[test]
fn session_lifecycle_login_then_logout() {
    let mut store = CredentialStore::new();
    let id = store.register(&creds("dave", "pass phrase")).unwrap();
    let grant = store.login(&attempt("dave", "pass phrase")).unwrap();

    let mut session = SessionState::establish(&grant);
    assert_eq!(session.current_user(), Some(id));

    session.logout();
    assert_eq!(session, SessionState::Anonymous);
    assert_eq!(session.current_user(), None);

    // Logging out an already anonymous session is a no-op that succeeds.
    session.logout();
    assert_eq!(session, SessionState::Anonymous);
}

#[test]
fn inserting_a_record_under_a_taken_id_is_a_store_level_failure() {
    let mut store = CredentialStore::new();
    let hash = "$2b$12$L6Bc/AlTQHyd9liGgGEZyOFLPHNgyxeEPfgYfBCVxJ7JIlwxyVU3u".to_string();
    assert_eq!(store.insert_record(9, "gina".to_string(), hash.clone()), Ok(9));
    assert_eq!(
        store.insert_record(9, "hank".to_string(), hash),
        Err(ServiceError::StoreUnavailable)
    );
    // The colliding insert left nothing behind: the first record still
    // answers, the second name does not exist.
    assert!(store.login(&attempt("hank", "anything")).is_err());
}

#[test]
fn distinct_users_get_distinct_ids() {
    let mut store = CredentialStore::new();
    let a = store.register(&creds("erin", "password-a")).unwrap();
    let b = store.register(&creds("frank", "password-b")).unwrap();
    assert_ne!(a, b);
}
