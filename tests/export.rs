use lakesql::EmulatorBackend;
use lakesql::LakeError;
use lakesql::Action;
use lakesql::EmulatorState;
use lakesql::LfTag;
use lakesql::Permission;
use lakesql::Principal;
use lakesql::Resource;
use lakesql::Role;
use lakesql::RowFilter;
use lakesql::StateExporter;

#[test]
fn test_sql_export() {
    let mut state = EmulatorState::new();
    state.roles.push(Role { name: "analyst".to_string(), members: Vec::new() });

    let sql = StateExporter::to_sql_ddl(&state);
    assert!(sql.contains("CREATE ROLE analyst"));
}

#[test]
fn export_writes_every_statement_kind() {
    let mut state = EmulatorState::new();
    state.create_role("analyst".to_string());
    state.create_tag(LfTag {
        key: "dept".to_string(),
        values: vec!["hr".to_string(), "it".to_string()],
        description: None,
    });
    state.grant(Permission {
        principal: Principal::User("bob".to_string()),
        resource: Resource::Table {
            database: "sales".to_string(),
            table: "orders".to_string(),
            columns: Some(vec!["id".to_string()]),
        },
        actions: vec![Action::Select, Action::CreateTable],
        grant_option: true,
        row_filter: Some(RowFilter { expression: "region = 'west'".to_string(), session_context: None }),
    });
    let sql = StateExporter::to_sql_ddl(&state);
    assert_eq!(
        sql,
        "-- Lake Formation Emulator State Export\n-- Generated DDL statements to recreate this state\n\n\
         CREATE ROLE analyst;\n\n\
         CREATE TAG dept VALUES ('hr', 'it');\n\n\
         GRANT SELECT, CREATE_TABLE ON sales.orders(id) TO USER 'bob' WITH GRANT OPTION WHERE region = 'west';\n"
    );
}

#[test]
fn summary_counts_and_lists() {
    let mut state = EmulatorState::new();
    state.create_role("eng".to_string());
    state.add_member("eng", "bob").unwrap();
    state.grant(Permission {
        principal: Principal::Role("eng".to_string()),
        resource: Resource::Database { name: "sales".to_string() },
        actions: vec![Action::Describe],
        grant_option: false,
        row_filter: None,
    });
    let s = StateExporter::to_summary(&state);
    assert_eq!(
        s,
        "Lake Formation Emulator State Summary\n=========================================\n\n\
         **Statistics:**\n- Permissions: 1\n- Roles: 1\n- Tags: 0\n- Session Context Keys: 0\n\n\
         **Roles:**\n- eng: 1 member(s)\n  * bob\n\n\
         **Permissions:**\n1. ROLE eng -> DESCRIBE -> DATABASE sales\n"
    );
    let empty = StateExporter::to_summary(&EmulatorState::new());
    assert!(!empty.contains("**Roles:**"));
    assert!(!empty.contains("**Permissions:**"));
}

#[test]
fn exported_statements_rebuild_the_store() {
    let mut state = EmulatorState::new();
    state.create_role("analyst".to_string());
    state.add_member("analyst", "bob").unwrap();
    state.create_tag(LfTag { key: "dept".to_string(), values: vec!["hr".to_string()], description: None });
    state.grant(Permission {
        principal: Principal::Role("analyst".to_string()),
        resource: Resource::Database { name: "sales".to_string() },
        actions: vec![Action::Select, Action::Describe],
        grant_option: false,
        row_filter: None,
    });
    state.grant(Permission {
        principal: Principal::ExternalAccount("42".to_string()),
        resource: Resource::DataLocation { path: "s3://b/p".to_string() },
        actions: vec![Action::DataLocationAccess],
        grant_option: true,
        row_filter: Some(RowFilter { expression: "region = 'west'".to_string(), session_context: None }),
    });
    let sql = StateExporter::to_sql_ddl(&state);
    let mut b = EmulatorBackend::new(None);
    assert_eq!(b.execute_script(&sql).unwrap(), 4);
    let back = b.get_state();
    assert_eq!(back.roles.len(), 1);
    assert_eq!(back.roles[0].name, "analyst");
    assert!(back.roles[0].members.is_empty());
    assert_eq!(back.tags.len(), 1);
    assert_eq!(back.tags[0].values, vec!["hr".to_string()]);
    assert_eq!(back.permissions.len(), 2);
    assert_eq!(back.permissions[0].actions, vec![Action::Select, Action::Describe]);
    assert_eq!(back.permissions[1].principal, Principal::ExternalAccount("42".to_string()));
    assert!(back.permissions[1].grant_option);
    assert_eq!(back.permissions[1].row_filter.as_ref().unwrap().expression, "region = 'west'");
    assert_eq!(StateExporter::to_sql_ddl(back), sql);
}

#[test]
fn script_stops_at_a_bad_line() {
    let mut b = EmulatorBackend::new(None);
    let r = b.execute_script("CREATE ROLE a\n-- note\n\nNOT A STATEMENT\nCREATE ROLE b");
    assert!(matches!(r, Err(LakeError::ParseError(_))));
    assert_eq!(b.get_state().roles.len(), 1);
}
