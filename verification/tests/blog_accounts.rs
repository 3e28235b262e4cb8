use bblog::auth::{
    load_user, login, login_decision, logout, redirect_target, signup, signup_complete, AuthError,
    SessionChange, SqlPermissionTokens, SqlUser, User,
};

fn account(id: u32, hash: &str) -> User {
    User {
        id,
        first_name: String::from("Ada"),
        last_name: String::from("Lovelace"),
        username: String::from("ada"),
        password_hash: String::from(hash),
        permissions: Vec::new(),
    }
}

#[test]
fn default_user_is_the_guest() {
    let u = User::default();
    assert_eq!(u.id, 0);
    assert_eq!(u.first_name, "Guest");
    assert_eq!(u.last_name, "Guestington");
    assert_eq!(u.username, "Guest");
    assert_eq!(u.password_hash, "");
    assert!(u.permissions.is_empty());
    assert!(u.is_authenticated());
    assert!(u.is_active());
    assert!(!u.is_anonymous());
    assert!(!u.has("Category::View"));
}

#[test]
fn into_user_keeps_each_permission_once() {
    let row = SqlUser {
        id: 7,
        first_name: String::from("Ada"),
        last_name: String::from("Lovelace"),
        username: String::from("ada"),
        password_hash: String::from("h"),
    };
    let tokens = vec![
        SqlPermissionTokens { token: String::from("read") },
        SqlPermissionTokens { token: String::from("write") },
        SqlPermissionTokens { token: String::from("read") },
    ];
    let u = row.into_user(Some(tokens));
    assert_eq!(u.id, 7);
    assert_eq!(u.username, "ada");
    assert_eq!(u.permissions, vec![String::from("read"), String::from("write")]);
    assert!(u.has("read"));
    assert!(u.has("write"));
    assert!(!u.has("admin"));
    let bare = SqlUser {
        id: 8,
        first_name: String::new(),
        last_name: String::new(),
        username: String::from("b"),
        password_hash: String::new(),
    }
    .into_user(None);
    assert!(bare.permissions.is_empty());
}

#[test]
fn signed_up_password_logs_in() {
    let hash = signup("correct horse", "correct horse").expect("hashing works");
    assert!(hash.starts_with("$2b$12$"));
    let user = account(5, &hash);
    let r = login(Some(user), "correct horse", Some(String::from("on")));
    assert_eq!(r.unwrap(), SessionChange::LogIn { user_id: 5, remember: true });
    let user = account(5, &hash);
    let r = login(Some(user), "correct horse", None);
    assert_eq!(r.unwrap(), SessionChange::LogIn { user_id: 5, remember: false });
}

#[test]
fn wrong_password_is_refused() {
    let hash = signup("secret", "secret").unwrap();
    let r = login(Some(account(1, &hash)), "Secret", None);
    assert!(matches!(r, Err(AuthError::PasswordDoesNotMatch)));
    assert_eq!(r.unwrap_err().message(), "Password does not match.");
}

#[test]
fn unknown_user_is_refused() {
    let r = login(None, "secret", None);
    assert!(matches!(r, Err(AuthError::UserDoesNotExist)));
    assert_eq!(r.unwrap_err().message(), "User does not exist.");
}

#[test]
fn malformed_hash_is_a_hashing_error() {
    let r = login(Some(account(1, "not a bcrypt hash")), "secret", None);
    match r {
        Err(AuthError::Hashing(text)) => assert!(!text.is_empty()),
        other => panic!("unexpected {:?}", other),
    }
}

#[test]
fn signup_needs_matching_confirmation() {
    let r = signup("abc", "abd");
    assert!(matches!(r, Err(AuthError::PasswordsDidNotMatch)));
    assert_eq!(r.unwrap_err().message(), "Passwords did not match.");
}

#[test]
fn signup_completes_with_the_stored_account() {
    let r = signup_complete(Some(account(9, "h")), Some(String::from("on")));
    assert_eq!(r.unwrap(), SessionChange::LogIn { user_id: 9, remember: true });
    let r = signup_complete(None, None);
    assert!(matches!(r, Err(AuthError::SignupUserMissing)));
    assert_eq!(r.unwrap_err().message(), "Signup failed: User does not exist.");
}

#[test]
fn login_decision_follows_the_check() {
    assert_eq!(
        login_decision(3, Ok(true), false).unwrap(),
        SessionChange::LogIn { user_id: 3, remember: false }
    );
    assert!(matches!(login_decision(3, Ok(false), false), Err(AuthError::PasswordDoesNotMatch)));
    match login_decision(3, Err(String::from("Invalid hash: x")), true) {
        Err(AuthError::Hashing(text)) => assert_eq!(text, "Invalid hash: x"),
        other => panic!("unexpected {:?}", other),
    }
}

#[test]
fn logout_and_loading_users() {
    assert_eq!(logout(), SessionChange::LogOut);
    assert_eq!(redirect_target(), "/");
    assert_eq!(load_user(Some(account(4, "h"))).unwrap().id, 4);
    let r = load_user(None);
    assert!(matches!(r, Err(AuthError::CannotGetUser)));
    assert_eq!(r.unwrap_err().message(), "Cannot get user");
}

#[test]
fn signup_hash_has_the_default_cost_form() {
    let hash = signup("pw", "pw").unwrap();
    assert_eq!(hash.len(), 60);
    assert_eq!(&hash[..7], "$2b$12$");
    assert_ne!(hash, "pw");
}
