use lakesql::create_session_context;
use lakesql::get_resource_arn;
use lakesql::Action;
use lakesql::BackendConfig;
use lakesql::BackendFactory;
use lakesql::DdlResult;
use lakesql::EmulatorBackend;
use lakesql::LakeError;
use lakesql::LakeFormationBackend;
use lakesql::LfTag;
use lakesql::PermissionEngine;
use lakesql::Permission;
use lakesql::Principal;
use lakesql::Resource;
use lakesql::RowFilter;

fn orders() -> Resource {
    Resource::Table { database: "sales".to_string(), table: "orders".to_string(), columns: None }
}

#[test]
fn test_basic_operations() {
    let mut backend = EmulatorBackend::new(None);

    let result = backend.execute_ddl("CREATE ROLE data_scientist").unwrap();
    match result {
        DdlResult::Success { message } => {
            assert!(message.contains("Created role: data_scientist"));
        },
        _ => panic!("Expected success"),
    }

    assert!(backend.get_state().roles.iter().any(|r| r.name == "data_scientist"));

    let result = backend.execute_ddl("GRANT SELECT ON sales.orders TO ROLE data_scientist").unwrap();

    match result {
        DdlResult::Success { .. } => {
            assert_eq!(backend.get_state().permissions.len(), 1);
        },
        _ => panic!("Expected success"),
    }
}

#[test]
fn test_permission_checking() {
    let mut backend = EmulatorBackend::new(None);

    backend.execute_ddl("CREATE ROLE analyst").unwrap();
    backend.execute_ddl("GRANT SELECT ON sales.orders TO ROLE analyst").unwrap();

    let principal = Principal::Role("analyst".to_string());
    let resource = Resource::Table {
        database: "sales".to_string(),
        table: "orders".to_string(),
        columns: None,
    };
    let action = Action::Select;

    let allowed = backend.check_permissions(&principal, &resource, &action).unwrap();
    assert!(allowed);

    let denied = backend.check_permissions(&principal, &resource, &Action::Delete).unwrap();
    assert!(!denied);
}

#[test]
fn drop_role_removes_its_grants() {
    let mut b = EmulatorBackend::new(None);
    b.execute_ddl("CREATE ROLE analyst").unwrap();
    b.execute_ddl("GRANT SELECT ON sales.orders TO ROLE analyst").unwrap();
    b.execute_ddl("GRANT SELECT ON sales.orders TO USER 'bob'").unwrap();
    b.execute_ddl("DROP ROLE analyst").unwrap();
    assert!(b.get_state().roles.is_empty());
    assert_eq!(b.get_state().permissions.len(), 1);
    assert_eq!(b.get_state().permissions[0].principal, Principal::User("bob".to_string()));
}

#[test]
fn tags_are_upserted_and_deleted() {
    let mut b = EmulatorBackend::new(None);
    b.execute_ddl("CREATE TAG dept VALUES ('a')").unwrap();
    b.execute_ddl("CREATE TAG dept VALUES ('b', 'c')").unwrap();
    assert_eq!(b.get_state().tags.len(), 1);
    assert_eq!(b.get_state().tags[0].values, vec!["b".to_string(), "c".to_string()]);
    b.delete_tag("dept").unwrap();
    assert!(b.get_state().tags.is_empty());
    LakeFormationBackend::create_tag(&mut b, LfTag { key: "k".to_string(), values: vec![], description: None })
        .unwrap();
    assert_eq!(b.get_state().tags.len(), 1);
}

#[test]
fn bad_statement_changes_nothing() {
    let mut b = EmulatorBackend::new(None);
    assert!(matches!(b.execute_ddl("GRANT nothing"), Err(LakeError::ParseError(_))));
    assert!(b.get_state().permissions.is_empty());
}

#[test]
fn listing_by_principal_and_resource() {
    let mut b = EmulatorBackend::new(None);
    b.execute_ddl("GRANT SELECT ON DATABASE sales TO ROLE a").unwrap();
    b.execute_ddl("GRANT SELECT ON sales.orders TO ROLE b").unwrap();
    b.execute_ddl("GRANT SELECT ON hr.staff TO ROLE a").unwrap();
    let a = b.list_permissions_for_principal(&Principal::Role("a".to_string())).unwrap();
    assert_eq!(a.len(), 2);
    let o = b.list_permissions_for_resource(&orders()).unwrap();
    assert_eq!(o.len(), 2);
}

#[test]
fn row_level_security_through_the_backend() {
    let mut b = EmulatorBackend::new(None);
    b.grant_permissions(Permission {
        principal: Principal::Role("regional_manager".to_string()),
        resource: orders(),
        actions: vec![Action::Select],
        grant_option: false,
        row_filter: Some(RowFilter {
            expression: "region = SESSION_CONTEXT('user_region')".to_string(),
            session_context: None,
        }),
    })
    .unwrap();
    let p = Principal::Role("regional_manager".to_string());
    assert!(b
        .test_row_level_security(&p, &orders(), &Action::Select, create_session_context(vec![("user_region", "west")]))
        .unwrap());
    assert!(!b
        .test_row_level_security(&p, &orders(), &Action::Select, create_session_context(vec![("user_region", "east")]))
        .unwrap());
}

#[test]
fn permission_engine_matches_principals_exactly() {
    let mut e = PermissionEngine::new();
    e.grant_permission(Permission {
        principal: Principal::Role("eng".to_string()),
        resource: Resource::Database { name: "sales".to_string() },
        actions: vec![Action::Select],
        grant_option: false,
        row_filter: None,
    })
    .unwrap();
    e.grant_permission(Permission {
        principal: Principal::User("bob".to_string()),
        resource: orders(),
        actions: vec![Action::Insert],
        grant_option: false,
        row_filter: None,
    })
    .unwrap();
    assert!(e.check_permission(&Principal::Role("eng".to_string()), &orders(), &Action::Select));
    assert!(!e.check_permission(&Principal::User("eng".to_string()), &orders(), &Action::Select));
    assert_eq!(e.get_permissions_for_principal(&Principal::User("bob".to_string())).len(), 1);
    assert_eq!(e.get_permissions_for_resource(&orders()).len(), 2);
    assert_eq!(e.list_principals().len(), 2);
    assert_eq!(e.list_resources().len(), 2);
    e.revoke_permission(&Principal::User("bob".to_string()), &orders(), &[Action::Insert]).unwrap();
    assert_eq!(e.list_resources().len(), 1);
    e.set_session_context("k".to_string(), "v".to_string());
    e.create_tag(LfTag { key: "t".to_string(), values: vec![], description: None }).unwrap();
}

#[test]
fn resource_names() {
    assert_eq!(
        get_resource_arn(&Resource::Database { name: "sales".to_string() }, "us-east-1").unwrap(),
        "arn:aws:lakeformation:us-east-1:*:database/sales"
    );
    assert_eq!(get_resource_arn(&orders(), "eu-west-1").unwrap(), "arn:aws:lakeformation:eu-west-1:*:table/sales/orders");
    assert_eq!(
        get_resource_arn(&Resource::DataLocation { path: "s3://b/p".to_string() }, "x").unwrap(),
        "s3://b/p"
    );
    assert!(matches!(
        get_resource_arn(&Resource::TaggedResource { tag_conditions: vec![] }, "x"),
        Err(LakeError::UnsupportedFeature(_))
    ));
}

#[test]
fn factory_builds_the_configured_backend() {
    let b = BackendFactory::create(BackendConfig::Emulator { state_file: None }).unwrap();
    assert!(b.get_state().permissions.is_empty());
    let aws = BackendFactory::create(BackendConfig::Aws { region: None, profile: None, endpoint: None });
    assert!(matches!(aws, Err(LakeError::UnsupportedFeature(_))));
}

fn message_of(r: DdlResult) -> String {
    match r {
        DdlResult::Success { message } => message,
        other => panic!("unexpected {:?}", other),
    }
}

#[test]
fn statements_report_what_they_did() {
    let mut b = EmulatorBackend::new(None);
    assert_eq!(message_of(b.execute_ddl("CREATE ROLE r").unwrap()), "Created role: r");
    assert_eq!(
        message_of(b.execute_ddl("GRANT SELECT, INSERT ON sales.orders TO ROLE r").unwrap()),
        "Granted SELECT, INSERT on sales.orders to ROLE r"
    );
    assert_eq!(
        message_of(b.execute_ddl("CREATE TAG dept VALUES ('hr', 'it')").unwrap()),
        "Created tag: dept with values hr, it"
    );
    assert_eq!(message_of(b.execute_ddl("SHOW PERMISSIONS FOR ROLE r").unwrap()), "Found 1 permissions");
    assert_eq!(message_of(b.execute_ddl("SHOW ROLES").unwrap()), "Roles: r");
    assert_eq!(message_of(b.execute_ddl("SHOW TAGS").unwrap()), "Tags: dept");
    assert_eq!(
        message_of(b.execute_ddl("REVOKE INSERT ON sales.orders FROM ROLE r").unwrap()),
        "Revoked 1 permission(s) for ROLE r on sales.orders"
    );
    assert_eq!(
        message_of(b.execute_ddl("REVOKE INSERT ON sales.orders FROM ROLE r").unwrap()),
        "Revoked 0 permission(s) for ROLE r on sales.orders"
    );
    assert_eq!(message_of(b.execute_ddl("DROP TAG dept").unwrap()), "Deleted tag: dept");
    assert_eq!(message_of(b.execute_ddl("DROP ROLE r").unwrap()), "Dropped role: r");
    assert_eq!(LakeError::RoleNotFound("x".to_string()).message(), "role not found: x");
}
