use lakesql::create_session_context;
use lakesql::Action;
use lakesql::EmulatorBackend;
use lakesql::EmulatorState;
use lakesql::LakeFormationBackend;
use lakesql::Permission;
use lakesql::Principal;
use lakesql::Resource;
use lakesql::RowFilter;
use lakesql::check_access;

fn table(db: &str, t: &str) -> Resource {
    Resource::Table { database: db.to_string(), table: t.to_string(), columns: None }
}

fn grant(p: Principal, r: Resource, actions: Vec<Action>) -> Permission {
    Permission { principal: p, resource: r, actions, grant_option: false, row_filter: None }
}

#[test]
fn granting_twice_keeps_one_entry() {
    let mut s = EmulatorState::new();
    let p = || grant(Principal::Role("r".to_string()), table("sales", "orders"), vec![Action::Select]);
    s.grant(p());
    s.grant(p());
    assert_eq!(s.permissions.len(), 1);
    assert_eq!(s.permissions[0].actions, vec![Action::Select]);
}

#[test]
fn regrant_overrides_every_attribute() {
    let mut s = EmulatorState::new();
    let mut first = grant(Principal::Role("r".to_string()), table("sales", "orders"), vec![Action::Select]);
    first.grant_option = true;
    first.row_filter = Some(RowFilter { expression: "TRUE".to_string(), session_context: None });
    s.grant(first);
    s.grant(grant(Principal::Role("r".to_string()), table("sales", "orders"), vec![Action::Insert]));
    assert_eq!(s.permissions.len(), 1);
    assert_eq!(s.permissions[0].actions, vec![Action::Insert]);
    assert!(!s.permissions[0].grant_option);
    assert!(s.permissions[0].row_filter.is_none());
}

#[test]
fn database_grant_covers_its_tables() {
    let mut s = EmulatorState::new();
    s.grant(grant(Principal::Role("R".to_string()), Resource::Database { name: "sales".to_string() }, vec![Action::Select]));
    for t in ["orders", "customers", "anything"] {
        assert!(check_access(&s, &Principal::Role("R".to_string()), &table("sales", t), &Action::Select));
    }
    assert!(!check_access(&s, &Principal::Role("R".to_string()), &table("hr", "orders"), &Action::Select));
}

#[test]
fn table_grant_does_not_leak_to_siblings() {
    let mut s = EmulatorState::new();
    s.grant(grant(Principal::Role("R".to_string()), table("sales", "orders"), vec![Action::Select]));
    assert!(!check_access(&s, &Principal::Role("R".to_string()), &table("sales", "customers"), &Action::Select));
    assert!(check_access(&s, &Principal::Role("R".to_string()), &table("sales", "orders"), &Action::Select));
}

#[test]
fn users_reach_grants_through_roles() {
    let mut s = EmulatorState::new();
    s.create_role("eng".to_string());
    s.add_member("eng", "bob").unwrap();
    s.grant(grant(Principal::Role("eng".to_string()), table("hr", "employees"), vec![Action::Select]));
    assert!(check_access(&s, &Principal::User("bob".to_string()), &table("hr", "employees"), &Action::Select));
    assert!(!check_access(&s, &Principal::User("alice".to_string()), &table("hr", "employees"), &Action::Select));
}

#[test]
fn empty_store_denies() {
    let s = EmulatorState::new();
    assert!(!check_access(&s, &Principal::Role("admin".to_string()), &table("sales", "orders"), &Action::Select));
    assert!(!check_access(
        &s,
        &Principal::User("root".to_string()),
        &Resource::Database { name: "sales".to_string() },
        &Action::Describe
    ));
}

#[test]
fn row_filter_follows_session_context() {
    let mut b = EmulatorBackend::new(None);
    let mut p = grant(Principal::Role("mgr".to_string()), table("sales", "orders"), vec![Action::Select]);
    p.row_filter = Some(RowFilter {
        expression: "region = SESSION_CONTEXT('user_region')".to_string(),
        session_context: None,
    });
    b.grant_permissions(p).unwrap();
    let who = Principal::Role("mgr".to_string());
    b.set_session_context(create_session_context(vec![("user_region", "west")])).unwrap();
    assert!(b.check_permissions(&who, &table("sales", "orders"), &Action::Select).unwrap());
    b.set_session_context(create_session_context(vec![("user_region", "east")])).unwrap();
    assert!(!b.check_permissions(&who, &table("sales", "orders"), &Action::Select).unwrap());
}

#[test]
fn revoking_one_action_removes_the_whole_entry() {
    // A revoke that names only Delete takes out the Select and Insert rights too.
    let mut s = EmulatorState::new();
    let who = Principal::Role("r".to_string());
    s.grant(grant(who.clone(), table("sales", "orders"), vec![Action::Select, Action::Insert, Action::Delete]));
    s.revoke(&who, &table("sales", "orders"), &[Action::Delete]);
    assert!(s.permissions.is_empty());
    assert!(!check_access(&s, &who, &table("sales", "orders"), &Action::Select));
}

#[test]
fn revoke_of_unheld_action_keeps_the_entry() {
    let mut s = EmulatorState::new();
    let who = Principal::Role("r".to_string());
    s.grant(grant(who.clone(), table("sales", "orders"), vec![Action::Select]));
    s.revoke(&who, &table("sales", "orders"), &[Action::Delete]);
    assert_eq!(s.permissions.len(), 1);
}
