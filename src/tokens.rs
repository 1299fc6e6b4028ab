//! Session token claims.
use vstd::prelude::*;

verus! {

/// Relies on chrono's `Utc::now().timestamp()`: the current time, in whole
/// seconds since the Unix epoch.
#[verifier::external_body]
fn now_seconds() -> (r: i64) {
    chrono::Utc::now().timestamp()
}

/// The expiry of a token issued at `now` for `duration` seconds, as seconds
/// since the epoch; a time before the epoch counts as the epoch.
pub open spec fn expiry(now: int, duration: int) -> int {
    if now + duration < 0 {
        0
    } else {
        now + duration
    }
}

/// What a session token asserts: its subject, when it expires (seconds
/// since the epoch), and the names of the subject's roles.
#[derive(Clone, Debug, PartialEq)]
pub struct Claims {
    pub sub: String,
    pub exp: u64,
    pub roles: Vec<String>,
}

impl Claims {
    /// Claims for `subject`, expiring `duration` seconds from now.
    pub fn new(subject: &str, roles: Vec<String>, duration: i64) -> (r: Claims)
        ensures
            r.sub@ == subject@,
            r.roles == roles,
            exists|now: i64| r.exp == #[trigger] expiry(now as int, duration as int),
    {
        let now = now_seconds();
        let r = Claims::issued_at(subject, roles, now, duration);
        assert(r.exp == expiry(now as int, duration as int));
        r
    }

    /// Claims for `subject`, issued at `now` and expiring `duration` seconds later.
    pub fn issued_at(subject: &str, roles: Vec<String>, now: i64, duration: i64) -> (r: Claims)
        ensures
            r.sub@ == subject@,
            r.roles == roles,
            r.exp == expiry(now as int, duration as int),
    {
        let sum: i128 = now as i128 + duration as i128;
        let exp: u64 = if sum < 0 {
            0
        } else {
            sum as u64
        };
        Claims { sub: subject.to_owned(), exp, roles }
    }
}

/// The bearer token a request carries.
#[derive(Clone, Debug, PartialEq)]
pub struct SessionToken(pub String);

} // verus!
