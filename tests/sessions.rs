use userman::apps::{Oid, Role};
use userman::error::UmtError;
use userman::roles::{RoleItems};
use userman::sessions::{authenticate, may_refresh, role_names};
use userman::store::Snapshot;
use userman::users::User;

fn hashed(password: &str, enabled: bool) -> User {
    User { password: Some(bcrypt::hash(password, 4).unwrap()), enabled, ..User::default() }
}

#[test]
fn authenticate_outcomes() {
    let u = hashed("s3cret", true);
    assert_eq!(authenticate(Some(&u), "s3cret"), Ok(()));
    assert_eq!(authenticate(Some(&u), "secret"), Err(UmtError::InvalidCredentials));
    assert_eq!(authenticate(None, "s3cret"), Err(UmtError::InvalidCredentials));
    let off = hashed("s3cret", false);
    assert_eq!(authenticate(Some(&off), "s3cret"), Err(UmtError::DisabledUser));
    assert_eq!(authenticate(Some(&off), "nope"), Err(UmtError::InvalidCredentials));
}

#[test]
fn authenticate_without_password() {
    let unset = User { password: None, ..User::default() };
    assert_eq!(authenticate(Some(&unset), "admin"), Err(UmtError::UninitializedPassword));
    let unreadable = User { password: Some("not a hash".to_string()), ..User::default() };
    assert_eq!(authenticate(Some(&unreadable), "admin"), Err(UmtError::UninitializedPassword));
}

#[test]
fn refresh_outcomes() {
    let on = User::default();
    let off = User { enabled: false, ..User::default() };
    assert_eq!(may_refresh(true, Some(&on)), Ok(()));
    assert_eq!(may_refresh(false, Some(&on)), Err(UmtError::InvalidToken));
    assert_eq!(may_refresh(true, None), Err(UmtError::InvalidUsername));
    assert_eq!(may_refresh(true, Some(&off)), Err(UmtError::DisabledUser));
}

fn role(id: &str, name: &str) -> Role {
    Role { id: Some(Oid(id.to_string())), app: Oid("a".to_string()), name: name.to_string(), items: RoleItems::default() }
}

#[test]
fn role_names_skip_unknown_ids() {
    let roles = Snapshot::from_scan(vec![role("r1", "admin"), role("r2", "viewer")]);
    let u = User {
        roles: vec![Oid("r2".to_string()), Oid("r9".to_string()), Oid("r1".to_string())],
        ..User::default()
    };
    assert_eq!(role_names(&u, &roles), vec!["viewer".to_string(), "admin".to_string()]);
    let none = User::default();
    assert!(role_names(&none, &roles).is_empty());
}
