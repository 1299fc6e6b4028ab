use userman::users::User;

#[test]
fn default_user_is_admin() {
    let u = User::default();
    assert_eq!(u.username, "admin");
    assert_eq!(u.password, Some("admin".to_string()));
    assert_eq!(u.department, "Super Admin");
    assert!(u.enabled);
    assert!(u.roles.is_empty());
}

#[test]
fn verify_against_bcrypt_hash() {
    let hash = bcrypt::hash("pa55", 4).unwrap();
    let u = User { password: Some(hash), ..User::default() };
    assert_eq!(u.verify("pa55"), Some(true));
    assert_eq!(u.verify("pa56"), Some(false));
}

#[test]
fn verify_without_or_with_malformed_hash() {
    let none = User { password: None, ..User::default() };
    assert_eq!(none.verify("admin"), None);
    let clear = User::default();
    assert_eq!(clear.verify("admin"), None);
}

#[test]
fn hash_password_then_verify() {
    let u = User::default().hash_password().unwrap();
    let h = u.password.clone().unwrap();
    assert_ne!(h, "admin");
    assert_eq!(u.verify("admin"), Some(true));
    assert_eq!(u.verify("admim"), Some(false));
    assert_eq!(u.username, "admin");
    let none = User { password: None, ..User::default() };
    assert_eq!(none.clone().hash_password(), Ok(none));
}

#[test]
fn hide_password_drops_it() {
    let u = User::default().hide_password();
    assert_eq!(u.password, None);
    assert_eq!(u.username, "admin");
}
