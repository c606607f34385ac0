use lakesql::Action;
use lakesql::EmulatorEngine;
use lakesql::EmulatorState;
use lakesql::LakeError;
use lakesql::Permission;
use lakesql::Principal;
use lakesql::Resource;
use lakesql::Role;
use lakesql::RowFilter;

fn orders() -> Resource {
    Resource::Table {
        database: "sales".to_string(),
        table: "orders".to_string(),
        columns: None,
    }
}

#[test]
fn test_direct_permission_check() {
    let mut engine = EmulatorEngine::new();

    let permission = Permission {
        principal: Principal::Role("analyst".to_string()),
        resource: Resource::Table {
            database: "sales".to_string(),
            table: "orders".to_string(),
            columns: None,
        },
        actions: vec![Action::Select, Action::Insert],
        grant_option: false,
        row_filter: None,
    };

    let mut state = EmulatorState::new();
    state.permissions.push(permission);
    engine.update_state(&state);

    let allowed = engine.check_permission(
        &Principal::Role("analyst".to_string()),
        &Resource::Table {
            database: "sales".to_string(),
            table: "orders".to_string(),
            columns: None,
        },
        &Action::Select,
    );
    assert!(allowed);

    let denied = engine.check_permission(
        &Principal::Role("analyst".to_string()),
        &Resource::Table {
            database: "sales".to_string(),
            table: "orders".to_string(),
            columns: None,
        },
        &Action::Delete,
    );
    assert!(!denied);
}

#[test]
fn test_role_membership() {
    let mut engine = EmulatorEngine::new();
    let mut state = EmulatorState::new();

    let mut members = Vec::new();
    members.push("john@company.com".to_string());
    state.roles.push(Role { name: "analyst".to_string(), members });

    let permission = Permission {
        principal: Principal::Role("analyst".to_string()),
        resource: Resource::Database { name: "sales".to_string() },
        actions: vec![Action::Select],
        grant_option: false,
        row_filter: None,
    };
    state.permissions.push(permission);

    engine.update_state(&state);

    let allowed = engine.check_permission(
        &Principal::User("john@company.com".to_string()),
        &Resource::Database { name: "sales".to_string() },
        &Action::Select,
    );
    assert!(allowed);

    let denied = engine.check_permission(
        &Principal::User("jane@company.com".to_string()),
        &Resource::Database { name: "sales".to_string() },
        &Action::Select,
    );
    assert!(!denied);
}

#[test]
fn test_permission_reasoning() {
    let mut engine = EmulatorEngine::new();
    let mut state = EmulatorState::new();

    let permission = Permission {
        principal: Principal::Role("analyst".to_string()),
        resource: Resource::Table {
            database: "sales".to_string(),
            table: "orders".to_string(),
            columns: None,
        },
        actions: vec![Action::Select],
        grant_option: false,
        row_filter: None,
    };
    state.permissions.push(permission);
    engine.update_state(&state);

    let (allowed, reason) = engine.check_permission_with_reason(
        &Principal::Role("different_role".to_string()),
        &Resource::Table {
            database: "sales".to_string(),
            table: "orders".to_string(),
            columns: None,
        },
        &Action::Select,
    );

    assert!(!allowed);
    assert!(reason.contains("DENIED"));
    assert!(reason.contains("principal=false"));
}

#[test]
fn reasoning_lists_entries_up_to_the_first_match() {
    let mut state = EmulatorState::new();
    state.grant(Permission {
        principal: Principal::Role("other".to_string()),
        resource: orders(),
        actions: vec![Action::Select],
        grant_option: false,
        row_filter: None,
    });
    state.grant(Permission {
        principal: Principal::Role("analyst".to_string()),
        resource: orders(),
        actions: vec![Action::Select],
        grant_option: false,
        row_filter: None,
    });
    let mut engine = EmulatorEngine::new();
    engine.update_state(&state);
    let (allowed, reason) =
        engine.check_permission_with_reason(&Principal::Role("analyst".to_string()), &orders(), &Action::Select);
    assert!(allowed);
    assert_eq!(
        reason,
        "Permission 0: principal=false action=true resource=true row_filter=true => false\n\
         Permission 1: principal=true action=true resource=true row_filter=true => true"
    );
}

#[test]
fn failing_filter_denies_and_scan_continues() {
    let mut state = EmulatorState::new();
    state.grant(Permission {
        principal: Principal::Role("mgr".to_string()),
        resource: orders(),
        actions: vec![Action::Select],
        grant_option: false,
        row_filter: Some(RowFilter {
            expression: "region = SESSION_CONTEXT('missing_key')".to_string(),
            session_context: None,
        }),
    });
    state.grant(Permission {
        principal: Principal::Role("mgr".to_string()),
        resource: Resource::Database { name: "sales".to_string() },
        actions: vec![Action::Select],
        grant_option: false,
        row_filter: None,
    });
    let mut engine = EmulatorEngine::new();
    engine.update_state(&state);
    assert!(engine.check_permission(&Principal::Role("mgr".to_string()), &orders(), &Action::Select));
    assert!(!engine.check_permission(&Principal::Role("mgr".to_string()), &orders(), &Action::Insert));
}

#[test]
fn role_membership_changes_through_the_engine() {
    let mut state = EmulatorState::new();
    state.create_role("eng".to_string());
    let mut engine = EmulatorEngine::new();
    engine.update_state(&state);
    assert!(engine.principal_exists(&Principal::Role("eng".to_string())));
    assert!(!engine.principal_exists(&Principal::Role("ops".to_string())));
    assert!(engine.principal_exists(&Principal::User("anyone".to_string())));
    engine.add_user_to_role("bob".to_string(), "eng".to_string()).unwrap();
    assert_eq!(engine.get_role_members("eng").unwrap(), &vec!["bob".to_string()]);
    engine.remove_user_from_role("bob", "eng").unwrap();
    assert!(engine.get_role_members("eng").unwrap().is_empty());
    assert!(engine.get_role_members("ops").is_none());
    match engine.add_user_to_role("bob".to_string(), "ops".to_string()) {
        Err(LakeError::RoleNotFound(name)) => assert_eq!(name, "ops"),
        other => panic!("unexpected {:?}", other),
    }
    match engine.remove_user_from_role("bob", "ops") {
        Err(LakeError::RoleNotFound(name)) => assert_eq!(name, "ops"),
        other => panic!("unexpected {:?}", other),
    }
}

#[test]
fn effective_permissions_include_role_grants() {
    let mut state = EmulatorState::new();
    state.create_role("eng".to_string());
    state.add_member("eng", "bob").unwrap();
    state.grant(Permission {
        principal: Principal::Role("eng".to_string()),
        resource: orders(),
        actions: vec![Action::Select],
        grant_option: false,
        row_filter: None,
    });
    state.grant(Permission {
        principal: Principal::User("alice".to_string()),
        resource: orders(),
        actions: vec![Action::Select],
        grant_option: false,
        row_filter: None,
    });
    let mut engine = EmulatorEngine::new();
    engine.update_state(&state);
    let bob = engine.get_effective_permissions(&Principal::User("bob".to_string()));
    assert_eq!(bob.len(), 1);
    assert_eq!(bob[0].principal, Principal::Role("eng".to_string()));
    let alice = engine.get_effective_permissions(&Principal::User("alice".to_string()));
    assert_eq!(alice.len(), 1);
}
