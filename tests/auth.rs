use faith_server::auth::{
    AuthError, AuthService, Credentials, LoginError, RegisterError, RegisterUserResult, User,
};
use faith_server::store::CredentialStore;


fn service() -> AuthService {
    AuthService::new(b"test-signing-key".to_vec(), CredentialStore::new())
}

fn creds(id: &str, pw: &str) -> Credentials {
    Credentials { user_id: id.to_string(), password: pw.to_string() }
}

#[test]
fn register_twice_keeps_first() {
    let mut svc = service();
    assert!(svc.register(creds("alice", "correct")).is_ok());
    let first_hash = svc.find_user(&"alice".to_string()).unwrap().pw_hash.clone();
    assert_eq!(svc.register(creds("alice", "other")), Err(RegisterError::AlreadyExists));
    let user = svc.find_user(&"alice".to_string()).unwrap();
    assert_eq!(user.pw_hash, first_hash);
    assert!(user.authenticate("correct"));
    assert!(!user.authenticate("other"));
}

#[test]
fn register_user_result() {
    let mut svc = service();
    match svc.register_user("bob".to_string(), "pw") {
        RegisterUserResult::Success(u) => {
            assert_eq!(u.id(), "bob");
            assert_eq!(u.salt.len(), 16);
            assert_eq!(u.pw_hash.len(), 32);
            assert_eq!(u.version, 1);
        }
        RegisterUserResult::UserExists | RegisterUserResult::SaltUnavailable => {
            panic!("new identifier")
        }
    }
    assert!(matches!(svc.register_user("bob".to_string(), "pw"), RegisterUserResult::UserExists));
}

#[test]
fn login_after_register() {
    let mut svc = service();
    svc.register(creds("alice", "correct")).unwrap();
    let token = svc.login(creds("alice", "correct")).unwrap();
    let claims = svc.authorize_connection(&token).ok().unwrap();
    assert_eq!(claims.user_id, "alice");
    assert_eq!(claims.version, 1);
    let wrong = svc.login(creds("alice", "wrong"));
    let unknown = svc.login(creds("ghost", "anything"));
    assert_eq!(wrong, Err(LoginError::InvalidCredentials));
    assert_eq!(wrong, unknown);
}

#[test]
fn authenticate_returns_user_and_token() {
    let mut svc = service();
    svc.register(creds("carol", "pw")).unwrap();
    let (user, token) = svc.authenticate(creds("carol", "pw")).unwrap().unwrap();
    assert_eq!(user.id(), "carol");
    assert!(svc.verify_token(&token).is_some());
    assert!(svc.authenticate(creds("carol", "bad")).unwrap().is_none());
    assert!(svc.authenticate(creds("nobody", "pw")).unwrap().is_none());
}

#[test]
fn revoked_token_refused() {
    let mut svc = service();
    let token = svc.register(creds("alice", "correct")).unwrap();
    assert!(svc.verify_token(&token).is_some());
    assert!(svc.revoke_tokens(&"alice".to_string()));
    assert_eq!(svc.authorize_connection(&token).err(), Some(AuthError::Revoked));
    assert!(svc.verify_token(&token).is_none());
    let fresh = svc.login(creds("alice", "correct")).unwrap();
    assert_eq!(svc.authorize_connection(&fresh).ok().unwrap().version, 2);
    assert!(!svc.revoke_tokens(&"ghost".to_string()));
}

#[test]
fn issue_then_verify_round_trip() {
    let mut svc = service();
    let user = match svc.register_user("dave".to_string(), "pw") {
        RegisterUserResult::Success(u) => u,
        RegisterUserResult::UserExists | RegisterUserResult::SaltUnavailable => {
            panic!("new identifier")
        }
    };
    let token = svc.create_token(&user).unwrap();
    assert_ne!(token, "dave");
    assert_eq!(token.split('.').count(), 3);
    let claims = svc.verify_token(&token).unwrap();
    assert_eq!(claims.user_id, user.id());
    assert_eq!(claims.version, user.version);
}

#[test]
fn malformed_and_unknown_tokens() {
    let mut svc = service();
    assert_eq!(svc.authorize_connection("not-a-token").err(), Some(AuthError::Malformed));
    let token = svc.register(creds("erin", "pw")).unwrap();
    let other_key = AuthService::new(b"another-key".to_vec(), CredentialStore::new());
    assert_eq!(other_key.authorize_connection(&token).err(), Some(AuthError::Malformed));
    let mut empty = AuthService::new(b"test-signing-key".to_vec(), CredentialStore::new());
    assert_eq!(empty.authorize_connection(&token).err(), Some(AuthError::UnknownUser));
    assert!(empty.register(creds("frank", "pw")).is_ok());
}

#[test]
fn user_new_and_authenticate() {
    let a = User::new("u".to_string(), "secret").unwrap();
    let b = User::new("u".to_string(), "secret").unwrap();
    assert_eq!(a.salt.len(), 16);
    assert_ne!(a.salt, b.salt);
    assert_ne!(a.pw_hash, b.pw_hash);
    assert!(a.authenticate("secret"));
    assert!(!a.authenticate("Secret"));
    assert_eq!(a.duplicate().pw_hash, a.pw_hash);
}

#[test]
fn store_insert_conflict() {
    let mut store = CredentialStore::new();
    assert!(store.insert(User::new("x".to_string(), "p").unwrap()).is_ok());
    assert!(store.insert(User::new("x".to_string(), "q").unwrap()).is_err());
    assert!(store.find(&"x".to_string()).unwrap().authenticate("p"));
    assert!(store.find(&"y".to_string()).is_none());
    assert!(store.bump_version(&"x".to_string()));
    assert_eq!(store.find(&"x".to_string()).unwrap().version, 2);
}

#[test]
fn register_with_given_salt() {
    let mut svc = service();
    let salt = vec![7u8; 16];
    let token = svc.register_with_salt(creds("gina", "pw"), salt.clone()).unwrap();
    let user = svc.find_user(&"gina".to_string()).unwrap();
    assert_eq!(user.salt, salt);
    assert_eq!(user.pw_hash, User::from_salt("gina".to_string(), "pw", salt.clone()).pw_hash);
    assert_ne!(user.pw_hash, User::from_salt("gina".to_string(), "px", salt.clone()).pw_hash);
    assert_eq!(svc.authorize_connection(&token).ok().unwrap().user_id, "gina");
    assert_eq!(
        svc.register_with_salt(creds("gina", "pw2"), salt.clone()),
        Err(RegisterError::AlreadyExists)
    );
    assert!(matches!(
        svc.register_user_with_salt("hal".to_string(), "pw", salt),
        RegisterUserResult::Success(_)
    ));
}

#[test]
fn add_user_conflict() {
    let mut svc = service();
    assert!(svc.add_user(User::new("ivy".to_string(), "pw").unwrap()).is_ok());
    assert!(svc.add_user(User::new("ivy".to_string(), "pw").unwrap()).is_err());
    assert!(svc.login(creds("ivy", "pw")).is_ok());
}
