use authcore::auth::{api_checker, AuthApi, AuthOutcome, StorageUnavailable, User};
use authcore::token::ServerSecret;
use authcore::user::UserApi;

fn secret() -> ServerSecret {
    ServerSecret::new(b"server secret".to_vec())
}

fn registered_user() -> User {
    let nu = UserApi
        .create_user(
            String::from("Ada"),
            String::from("Lovelace"),
            String::from("a@b.com"),
            "hunter2",
        )
        .expect("hashing must succeed");
    User {
        id: 7,
        firstname: nu.firstname,
        lastname: nu.lastname,
        email: nu.email,
        password: nu.password,
        created_at: 0,
        updated_at: None,
    }
}

#[test]
fn stored_record_never_equals_plaintext() {
    let nu = UserApi
        .create_user(
            String::from("Ada"),
            String::from("Lovelace"),
            String::from("a@b.com"),
            "hunter2",
        )
        .expect("hashing must succeed");
    assert_ne!(nu.password.text, "hunter2");
    assert_eq!(nu.email, "a@b.com");
}

#[test]
fn login_with_correct_password_returns_token() {
    let s = secret();
    let user = registered_user();
    let r = AuthApi
        .authenticate(Ok(Some(user)), "hunter2", &s)
        .expect("storage answered");
    match r {
        AuthOutcome::Token(t) => assert!(!t.is_empty()),
        _ => panic!("expected a token"),
    }
}

#[test]
fn login_with_wrong_password_is_wrong_credentials() {
    let s = secret();
    let user = registered_user();
    let r = AuthApi
        .authenticate(Ok(Some(user)), "wrong", &s)
        .expect("storage answered");
    assert!(matches!(r, AuthOutcome::WrongCredentials));
}

#[test]
fn login_with_unknown_email_is_not_found() {
    let s = secret();
    let r = AuthApi
        .authenticate(Ok(None), "hunter2", &s)
        .expect("storage answered");
    assert!(matches!(r, AuthOutcome::NotFound));
}

#[test]
fn storage_outage_is_not_a_credential_failure() {
    let s = secret();
    let r = AuthApi.authenticate(Err(StorageUnavailable), "hunter2", &s);
    assert!(r.is_err());
}

#[test]
fn issued_token_authenticates_the_registered_identity() {
    let s = secret();
    let user = registered_user();
    let r = AuthApi
        .authenticate(Ok(Some(user)), "hunter2", &s)
        .expect("storage answered");
    let token = match r {
        AuthOutcome::Token(t) => t,
        _ => panic!("expected a token"),
    };
    let auth = api_checker(&token, &s).expect("issued token must check");
    assert_eq!(auth.0.id, 7);
    assert_eq!(auth.0.email, "a@b.com");
    assert_eq!(auth.0.firstname, "Ada");
    assert_eq!(auth.0.lastname, "Lovelace");
}

#[test]
fn edited_token_is_rejected_at_the_gate() {
    let s = secret();
    let user = registered_user();
    let r = AuthApi
        .authenticate(Ok(Some(user)), "hunter2", &s)
        .expect("storage answered");
    let token = match r {
        AuthOutcome::Token(t) => t,
        _ => panic!("expected a token"),
    };
    let mut chars: Vec<char> = token.chars().collect();
    let mid = token.find('.').unwrap() + 1;
    chars[mid] = if chars[mid] == '0' { '1' } else { '0' };
    let edited: String = chars.into_iter().collect();
    assert!(api_checker(&edited, &s).is_none());
    assert!(api_checker("not a token", &s).is_none());
}
