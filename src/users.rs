//! Users of the service and their credentials.
use vstd::prelude::*;

use crate::apps::{id_key_of, Oid};
use crate::error::UmtError;
use crate::store::Record;

verus! {

/// What bcrypt's check of `password` against the stored `hash` gives: whether
/// they match, or nothing where `hash` is not a well-formed bcrypt hash of an
/// allowed cost.
pub uninterp spec fn bcrypt_check(password: Seq<char>, hash: Seq<char>) -> Option<bool>;

/// Relies on `bcrypt::verify`: it rehashes `password` under the salt and cost
/// read from `hash` and compares, so the outcome depends on the two strings
/// alone; it fails where `hash` is malformed or names a cost outside 4 to 31.
#[verifier::external_body]
fn check_password(password: &str, hash: &str) -> (r: Option<bool>)
    ensures
        r == bcrypt_check(password@, hash@),
{
    bcrypt::verify(password, hash).ok()
}

/// Relies on `bcrypt::hash` at `bcrypt::DEFAULT_COST`: a hash of `password`
/// under a fresh random salt, which `bcrypt::verify` accepts for that same
/// password (it reads the cost and salt back from the hash and recomputes,
/// truncating alike); it fails only where the system gives no randomness.
#[verifier::external_body]
fn hash_with_default_cost(password: &str) -> (r: Option<String>)
    ensures
        r matches Some(h) ==> bcrypt_check(password@, h@) == Some(true),
{
    bcrypt::hash(password, bcrypt::DEFAULT_COST).ok()
}

/// The name of the administrator created with the service.
pub open spec fn admin_username() -> Seq<char> {
    seq!['a', 'd', 'm', 'i', 'n']
}

/// A user: identity, profile, roles, and the password hash where one is kept.
/// Times are milliseconds since the Unix epoch.
#[derive(Clone, Debug, PartialEq)]
pub struct User {
    pub id: Option<Oid>,
    pub username: String,
    pub password: Option<String>,
    pub email: String,
    pub name: String,
    pub surname: String,
    pub description: String,
    pub department: String,
    pub roles: Vec<Oid>,
    pub avatar: Option<String>,
    pub enabled: bool,
    pub created_at: Option<i64>,
    pub updated_at: Option<i64>,
}

impl Default for User {
    /// The administrator, enabled, with no role yet and the initial password
    /// still in clear.
    fn default() -> (r: User)
        ensures
            r.id is None,
            r.username@ == admin_username(),
            r.password matches Some(p) && p@ == "admin"@,
            r.email@ == "admin@proteus.com.ar"@,
            r.name@ == "admin"@,
            r.surname@ == "admin"@,
            r.description@ == Seq::<char>::empty(),
            r.department@ == "Super Admin"@,
            r.roles@ == Seq::<Oid>::empty(),
            r.avatar is None,
            r.enabled,
            r.created_at is None,
            r.updated_at is None,
    {
        proof {
            reveal_strlit("admin");
        }
        User {
            id: None,
            username: "admin".to_owned(),
            password: Some("admin".to_owned()),
            email: "admin@proteus.com.ar".to_owned(),
            name: "admin".to_owned(),
            surname: "admin".to_owned(),
            description: String::new(),
            department: "Super Admin".to_owned(),
            roles: Vec::new(),
            avatar: None,
            enabled: true,
            created_at: None,
            updated_at: None,
        }
    }
}

/// How `password` fares against the hash that `u` keeps: whether it
/// matches, or nothing where `u` keeps no hash or a malformed one.
pub open spec fn password_check(u: User, password: Seq<char>) -> Option<bool> {
    match u.password {
        Some(h) => bcrypt_check(password, h@),
        None => None,
    }
}

impl User {
    /// Whether `password` matches the kept hash; no answer where the user has
    /// no password yet, or a malformed hash.
    pub fn verify(&self, password: &str) -> (r: Option<bool>)
        ensures
            r == password_check(*self, password@),
            self.password is None ==> r is None,
    {
        match &self.password {
            Some(h) => check_password(password, h.as_str()),
            None => None,
        }
    }

    /// This user with the password in clear replaced by its hash. Fails only
    /// where hashing does.
    pub fn hash_password(self) -> (r: Result<User, UmtError>)
        ensures
            self.password is None ==> r == Ok::<User, UmtError>(self),
            r is Err ==> self.password is Some && r == Err::<User, UmtError>(UmtError::PasswordHash),
            r matches Ok(u) ==> (u.password is Some) == (self.password is Some) && u == (User {
                password: u.password,
                ..self
            }),
            r matches Ok(u) ==> (self.password matches Some(p) ==> password_check(u, p@) == Some(true)),
    {
        match &self.password {
            None => Ok(self),
            Some(p) => match hash_with_default_cost(p.as_str()) {
                Some(h) => Ok(User { password: Some(h), ..self }),
                None => Err(UmtError::PasswordHash),
            },
        }
    }

    /// This user without its password.
    pub fn hide_password(self) -> (r: User)
        ensures
            r == (User { password: None, ..self }),
    {
        User { password: None, ..self }
    }
}

impl Record for User {
    open spec fn key_id(&self) -> Seq<char> {
        id_key_of(self.id)
    }

    open spec fn key_name(&self) -> Seq<char> {
        self.username@
    }

    fn id_key(&self) -> (r: String) {
        match &self.id {
            Some(o) => o.0.clone(),
            None => String::new(),
        }
    }

    fn name_key(&self) -> (r: String) {
        self.username.clone()
    }
}

} // verus!
