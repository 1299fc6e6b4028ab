//! The decisions of opening and renewing a session.
use vstd::prelude::*;

use crate::apps::{Oid, Role};
use crate::error::UmtError;
use crate::store::Snapshot;
use crate::users::{password_check, User};

verus! {

/// Whether a login with `password` as the user found (if any) succeeds, and
/// why not: an unknown user and a wrong password look alike, and a user
/// whose password was never set (or whose hash is unreadable) is told so.
pub fn authenticate(user: Option<&User>, password: &str) -> (r: Result<(), UmtError>)
    ensures
        match user {
            None => r == Err::<(), UmtError>(UmtError::InvalidCredentials),
            Some(u) => match password_check(*u, password@) {
                Some(true) => if u.enabled {
                    r is Ok
                } else {
                    r == Err::<(), UmtError>(UmtError::DisabledUser)
                },
                Some(false) => r == Err::<(), UmtError>(UmtError::InvalidCredentials),
                None => r == Err::<(), UmtError>(UmtError::UninitializedPassword),
            },
        },
        user matches Some(u) && u.password is None ==> r == Err::<(), UmtError>(
            UmtError::UninitializedPassword,
        ),
{
    match user {
        None => Err(UmtError::InvalidCredentials),
        Some(u) => match u.verify(password) {
            Some(true) => if u.enabled {
                Ok(())
            } else {
                Err(UmtError::DisabledUser)
            },
            Some(false) => Err(UmtError::InvalidCredentials),
            None => Err(UmtError::UninitializedPassword),
        },
    }
}

/// Whether a session may be renewed, given whether the refresh token was
/// found for that user name and which user has that name.
pub fn may_refresh(token_found: bool, user: Option<&User>) -> (r: Result<(), UmtError>)
    ensures
        !token_found ==> r == Err::<(), UmtError>(UmtError::InvalidToken),
        token_found ==> match user {
            None => r == Err::<(), UmtError>(UmtError::InvalidUsername),
            Some(u) => if u.enabled {
                r is Ok
            } else {
                r == Err::<(), UmtError>(UmtError::DisabledUser)
            },
        },
{
    if !token_found {
        return Err(UmtError::InvalidToken);
    }
    match user {
        None => Err(UmtError::InvalidUsername),
        Some(u) => if u.enabled {
            Ok(())
        } else {
            Err(UmtError::DisabledUser)
        },
    }
}

/// The names of the roles `ids` that `roles` knows, in the order of `ids`;
/// an id that no role has is skipped.
pub open spec fn role_names_of(ids: Seq<Oid>, roles: Map<Seq<char>, Role>) -> Seq<Seq<char>>
    decreases ids.len(),
{
    if ids.len() == 0 {
        Seq::empty()
    } else {
        let rest = role_names_of(ids.drop_last(), roles);
        if roles.contains_key(ids.last().0@) {
            rest.push(roles[ids.last().0@].name@)
        } else {
            rest
        }
    }
}

/// The names of `user`'s roles, as a session token lists them.
pub fn role_names(user: &User, roles: &Snapshot<Role>) -> (r: Vec<String>)
    requires
        roles.wf(),
    ensures
        r@.map_values(|s: String| s@) == role_names_of(user.roles@, roles.ids()),
{
    let mut r: Vec<String> = Vec::new();
    let mut i: usize = 0;
    while i < user.roles.len()
        invariant
            roles.wf(),
            i <= user.roles@.len(),
            r@.map_values(|s: String| s@) == role_names_of(user.roles@.subrange(0, i as int), roles.ids()),
        decreases user.roles@.len() - i,
    {
        let ghost before = r@;
        assert(user.roles@.subrange(0, i + 1).drop_last() =~= user.roles@.subrange(0, i as int));
        match roles.get_by_id(&user.roles[i].0) {
            Some(role) => {
                r.push(role.name.clone());
                assert(r@.map_values(|s: String| s@) =~= before.map_values(|s: String| s@).push(role.name@));
            },
            None => {},
        }
        i = i + 1;
    }
    assert(user.roles@.subrange(0, i as int) =~= user.roles@);
    r
}

} // verus!
