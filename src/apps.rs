//! Applications, their roles, and syncing a role to its application's template.
use vstd::prelude::*;

use crate::error::UmtError;
use crate::reconcile::{lemma_merged_items_of_copy, merged_items};
use crate::roles::RoleItems;
use crate::store::{Record, Snapshot};

verus! {

/// The text form of a backing-store object id.
#[derive(Clone, Debug, PartialEq, Eq, Hash)]
pub struct Oid(pub String);

impl Oid {
    /// A copy of this id.
    pub fn copied(&self) -> (r: Oid)
        ensures
            r == *self,
    {
        Oid(self.0.clone())
    }
}

fn copy_id(id: &Option<Oid>) -> (r: Option<Oid>)
    ensures
        r == *id,
{
    match id {
        Some(o) => Some(o.copied()),
        None => None,
    }
}

/// The key of an optional id: a record without one is indexed under the empty id.
pub open spec fn id_key_of(id: Option<Oid>) -> Seq<char> {
    match id {
        Some(o) => o.0@,
        None => Seq::empty(),
    }
}

fn key_of_id(id: &Option<Oid>) -> (r: String)
    ensures
        r@ == id_key_of(*id),
{
    match id {
        Some(o) => o.0.clone(),
        None => String::new(),
    }
}

/// An application and its template: the current structure and defaults of
/// its permission tree.
#[derive(Debug, PartialEq)]
pub struct App {
    pub id: Option<Oid>,
    pub name: String,
    pub version: u64,
    pub default_role: RoleItems,
}

/// A named customization of an application's permission tree.
#[derive(Debug, PartialEq)]
pub struct Role {
    pub id: Option<Oid>,
    pub app: Oid,
    pub name: String,
    pub items: RoleItems,
}

/// The id and the name of a role.
#[derive(Clone, Debug, PartialEq)]
pub struct RoleName {
    pub id: Option<Oid>,
    pub name: String,
}

impl RoleName {
    /// The id and the name of `role`.
    pub fn of(role: &Role) -> (r: RoleName)
        ensures
            r.id == role.id,
            r.name == role.name,
    {
        RoleName { id: copy_id(&role.id), name: role.name.clone() }
    }
}

impl Record for App {
    open spec fn key_id(&self) -> Seq<char> {
        id_key_of(self.id)
    }

    open spec fn key_name(&self) -> Seq<char> {
        self.name@
    }

    fn id_key(&self) -> (r: String) {
        key_of_id(&self.id)
    }

    fn name_key(&self) -> (r: String) {
        self.name.clone()
    }
}

impl Record for Role {
    open spec fn key_id(&self) -> Seq<char> {
        id_key_of(self.id)
    }

    open spec fn key_name(&self) -> Seq<char> {
        self.name@
    }

    fn id_key(&self) -> (r: String) {
        key_of_id(&self.id)
    }

    fn name_key(&self) -> (r: String) {
        self.name.clone()
    }
}

/// `new` is `role` synced to the template of `app`: the same role, whose
/// tree is the template reconciled against the role's own tree.
pub open spec fn synced(role: Role, app: App, new: Role) -> bool {
    &&& new.id == role.id
    &&& new.app == role.app
    &&& new.name == role.name
    &&& merged_items(role.items.0@, app.default_role.0@, new.items.0@)
}

/// Role `id` synced to the current template of its application: it takes
/// the template's structure and keeps its own data where the template still
/// has the setting. Fails where the role is unknown, or where its
/// application no longer is.
pub fn sync_role(roles: &Snapshot<Role>, apps: &Snapshot<App>, id: &Oid) -> (r: Result<Role, UmtError>)
    requires
        roles.wf(),
        apps.wf(),
    ensures
        !roles.ids().contains_key(id.0@) ==> r == Err::<Role, UmtError>(UmtError::RoleNotFound),
        roles.ids().contains_key(id.0@) ==> {
            let role = roles.ids()[id.0@];
            &&& !apps.ids().contains_key(role.app.0@) ==> r == Err::<Role, UmtError>(UmtError::AppNotFound)
            &&& apps.ids().contains_key(role.app.0@) ==> r is Ok && synced(role, apps.ids()[role.app.0@], r->Ok_0)
        },
{
    let role = match roles.get_by_id(&id.0) {
        Some(t) => t,
        None => return Err(UmtError::RoleNotFound),
    };
    let app = match apps.get_by_id(&role.app.0) {
        Some(t) => t,
        None => return Err(UmtError::AppNotFound),
    };
    let mut items = app.default_role.copied();
    let ghost copy = items.0@;
    role.items.merge(&mut items);
    proof {
        lemma_merged_items_of_copy(role.items.0@, copy, app.default_role.0@, items.0@);
    }
    Ok(Role { id: copy_id(&role.id), app: role.app.copied(), name: role.name.clone(), items })
}

} // verus!
