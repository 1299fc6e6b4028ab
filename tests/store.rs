use userman::apps::{sync_role, App, Oid, Role};
use userman::error::UmtError;
use userman::roles::{DataValue, Item, RoleItems, RoleValues, Value};
use userman::store::{Index, Snapshot};
use userman::users::User;

fn user(id: &str, username: &str) -> User {
    User {
        id: Some(Oid(id.to_string())),
        username: username.to_string(),
        ..User::default()
    }
}

fn tree(flag: bool) -> RoleItems {
    RoleItems::new(vec![Item {
        name: "roles".to_string(),
        values: RoleValues(vec![
            Value { name: "read".to_string(), data: DataValue::Boolean(flag), options: None },
            Value { name: "update".to_string(), data: DataValue::Boolean(false), options: None },
        ]),
        items: RoleItems::default(),
    }])
}

#[test]
fn snapshot_serves_by_id_and_name() {
    let s = Snapshot::from_scan(vec![user("1", "ana"), user("2", "bob")]);
    assert_eq!(s.get_by_id(&"2".to_string()).unwrap().username, "bob");
    assert_eq!(s.get(&"ana".to_string()).unwrap().id, Some(Oid("1".to_string())));
    assert!(s.get_by_id(&"3".to_string()).is_none());
    assert!(s.get(&"carl".to_string()).is_none());
    let mut all: Vec<String> = s.get_all().iter().map(|u| u.username.clone()).collect();
    all.sort();
    assert_eq!(all, vec!["ana".to_string(), "bob".to_string()]);
}

#[test]
fn later_record_wins_on_equal_keys() {
    let s = Snapshot::from_scan(vec![user("1", "ana"), user("1", "anna")]);
    assert_eq!(s.get_by_id(&"1".to_string()).unwrap().username, "anna");
    assert_eq!(s.get_all().len(), 1);
    assert_eq!(s.get(&"ana".to_string()).unwrap().username, "ana");
}

#[test]
fn empty_scan_gives_empty_snapshot() {
    let s: Snapshot<User> = Snapshot::from_scan(vec![]);
    assert!(s.get_all().is_empty());
    assert!(s.get_by_id(&String::new()).is_none());
}

#[test]
fn reload_with_failed_scan_keeps_snapshot() {
    let mut s = Snapshot::from_scan(vec![user("1", "ana"), user("2", "bob")]);
    let before: Vec<String> = s.get_all().iter().map(|u| u.username.clone()).collect();
    let r = s.reload(Err(UmtError::StoreUnavailable));
    let after: Vec<String> = s.get_all().iter().map(|u| u.username.clone()).collect();
    assert_eq!(after, before);
    assert_eq!(r, Err(UmtError::StoreUnavailable));
    let mut all: Vec<String> = s.get_all().iter().map(|u| u.username.clone()).collect();
    all.sort();
    assert_eq!(all, vec!["ana".to_string(), "bob".to_string()]);
    assert_eq!(s.get(&"bob".to_string()).unwrap().id, Some(Oid("2".to_string())));
}

#[test]
fn reload_swaps_whole_index() {
    let mut s = Snapshot::from_scan(vec![user("1", "ana"), user("2", "bob")]);
    let next = Snapshot::load(Ok(vec![user("3", "carl")]));
    assert_eq!(s.reload(next), Ok(()));
    assert!(s.get_by_id(&"1".to_string()).is_none());
    assert!(s.get_by_id(&"2".to_string()).is_none());
    assert!(s.get(&"ana".to_string()).is_none());
    assert_eq!(s.get_by_id(&"3".to_string()).unwrap().username, "carl");
    assert_eq!(s.get_all().len(), 1);
}

#[test]
fn load_passes_scan_error_on() {
    let r: Result<Snapshot<User>, UmtError> = Snapshot::load(Err(UmtError::StoreUnavailable));
    assert!(matches!(r, Err(UmtError::StoreUnavailable)));
}

#[test]
fn index_insert_replaces() {
    let mut ix: Index<u8> = Index::new();
    ix.insert("a".to_string(), std::sync::Arc::new(1));
    ix.insert("b".to_string(), std::sync::Arc::new(2));
    ix.insert("a".to_string(), std::sync::Arc::new(3));
    assert_eq!(*ix.get(&"a".to_string()).unwrap(), 3);
    assert_eq!(*ix.get(&"b".to_string()).unwrap(), 2);
    assert_eq!(ix.get_all().len(), 2);
}

fn app(id: &str, template: RoleItems) -> App {
    App { id: Some(Oid(id.to_string())), name: "crm".to_string(), version: 2, default_role: template }
}

fn role(id: &str, app: &str, items: RoleItems) -> Role {
    Role { id: Some(Oid(id.to_string())), app: Oid(app.to_string()), name: "viewer".to_string(), items }
}

#[test]
fn sync_role_migrates_to_template() {
    let mut template = tree(false);
    template.0.push(Item {
        name: "users".to_string(),
        values: RoleValues(vec![Value { name: "read".to_string(), data: DataValue::Boolean(false), options: None }]),
        items: RoleItems::default(),
    });
    let apps = Snapshot::from_scan(vec![app("a1", template)]);
    let roles = Snapshot::from_scan(vec![role("r1", "a1", tree(true))]);
    let synced = sync_role(&roles, &apps, &Oid("r1".to_string())).unwrap();
    assert_eq!(synced.id, Some(Oid("r1".to_string())));
    assert_eq!(synced.app, Oid("a1".to_string()));
    assert_eq!(synced.name, "viewer");
    assert!(synced.items.allows(&["roles", "read"]));
    assert!(!synced.items.allows(&["roles", "update"]));
    assert_eq!(
        synced.items.find_path(&["users", "read"]).unwrap().data,
        DataValue::Boolean(false)
    );
}

#[test]
fn sync_role_unknown_role() {
    let apps = Snapshot::from_scan(vec![app("a1", tree(false))]);
    let roles = Snapshot::from_scan(vec![role("r1", "a1", tree(true))]);
    assert_eq!(sync_role(&roles, &apps, &Oid("r2".to_string())), Err(UmtError::RoleNotFound));
}

#[test]
fn sync_role_broken_reference() {
    let apps = Snapshot::from_scan(vec![app("a1", tree(false))]);
    let roles = Snapshot::from_scan(vec![role("r1", "a9", tree(true))]);
    assert_eq!(sync_role(&roles, &apps, &Oid("r1".to_string())), Err(UmtError::AppNotFound));
}
