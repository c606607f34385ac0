use lakesql::parse_action;
use lakesql::parse_ddl;
use lakesql::parse_principal;
use lakesql::parse_resource;
use lakesql::Action;
use lakesql::DdlStatement;
use lakesql::LakeError;
use lakesql::Principal;
use lakesql::Resource;

#[test]
fn test_simple_grant() {
    let sql = "GRANT SELECT ON sales.orders TO ROLE data_scientist";
    let result = parse_ddl(sql).unwrap();

    match result {
        DdlStatement::Grant { actions, resource, principal, .. } => {
            assert_eq!(actions.len(), 1);
            assert_eq!(actions[0], Action::Select);
            assert_eq!(principal, Principal::Role("data_scientist".to_string()));
            match resource {
                Resource::Table { database, table, .. } => {
                    assert_eq!(database, "sales");
                    assert_eq!(table, "orders");
                },
                _ => panic!("Expected table resource"),
            }
        },
        _ => panic!("Expected Grant statement"),
    }
}

#[test]
fn test_create_role() {
    let sql = "CREATE ROLE analytics_team";
    let result = parse_ddl(sql).unwrap();

    match result {
        DdlStatement::CreateRole { name } => {
            assert_eq!(name, "analytics_team");
        },
        _ => panic!("Expected CreateRole statement"),
    }
}

#[test]
fn test_create_tag() {
    let sql = "CREATE TAG department VALUES ('finance', 'marketing', 'engineering')";
    let result = parse_ddl(sql).unwrap();

    match result {
        DdlStatement::CreateTag { name, values } => {
            assert_eq!(name, "department");
            assert_eq!(values, vec!["finance", "marketing", "engineering"]);
        },
        _ => panic!("Expected CreateTag statement"),
    }
}

#[test]
fn grant_with_everything() {
    let sql = "grant select, Insert ON sales.orders(\"id\", amount) to USER 'bob@x.com' WITH GRANT OPTION WHERE region = 'west';";
    match parse_ddl(sql).unwrap() {
        DdlStatement::Grant { actions, resource, principal, grant_option, row_filter } => {
            assert_eq!(actions, vec![Action::Select, Action::Insert]);
            assert_eq!(
                resource,
                Resource::Table {
                    database: "sales".to_string(),
                    table: "orders".to_string(),
                    columns: Some(vec!["id".to_string(), "amount".to_string()]),
                }
            );
            assert_eq!(principal, Principal::User("bob@x.com".to_string()));
            assert!(grant_option);
            assert_eq!(row_filter.unwrap().expression, "region = 'west'");
        },
        _ => panic!("Expected Grant statement"),
    }
}

#[test]
fn revoke_database_and_location() {
    match parse_ddl("REVOKE CREATE_TABLE, DROP_TABLE ON DATABASE analytics FROM GROUP 'admins'").unwrap() {
        DdlStatement::Revoke { actions, resource, principal } => {
            assert_eq!(actions, vec![Action::CreateTable, Action::DropTable]);
            assert_eq!(resource, Resource::Database { name: "analytics".to_string() });
            assert_eq!(principal, Principal::SamlGroup("admins".to_string()));
        },
        _ => panic!("Expected Revoke statement"),
    }
    match parse_ddl("GRANT DATA_LOCATION_ACCESS ON 's3://bucket/p' TO EXTERNAL_ACCOUNT '123'").unwrap() {
        DdlStatement::Grant { resource, principal, .. } => {
            assert_eq!(resource, Resource::DataLocation { path: "s3://bucket/p".to_string() });
            assert_eq!(principal, Principal::ExternalAccount("123".to_string()));
        },
        _ => panic!("Expected Grant statement"),
    }
}

#[test]
fn drop_and_show_statements() {
    assert!(matches!(parse_ddl("DROP ROLE r").unwrap(), DdlStatement::DropRole { name } if name == "r"));
    assert!(matches!(parse_ddl("drop tag t;").unwrap(), DdlStatement::DropTag { name } if name == "t"));
    assert!(matches!(parse_ddl("SHOW ROLES").unwrap(), DdlStatement::ShowRoles));
    assert!(matches!(parse_ddl("SHOW TAGS").unwrap(), DdlStatement::ShowTags));
    assert!(matches!(
        parse_ddl("SHOW PERMISSIONS").unwrap(),
        DdlStatement::ShowPermissions { principal: None }
    ));
    match parse_ddl("SHOW PERMISSIONS FOR ROLE r").unwrap() {
        DdlStatement::ShowPermissions { principal: Some(p) } => assert_eq!(p, Principal::Role("r".to_string())),
        _ => panic!("Expected ShowPermissions statement"),
    }
    match parse_ddl("CREATE TAG empty VALUES ()").unwrap() {
        DdlStatement::CreateTag { values, .. } => assert!(values.is_empty()),
        _ => panic!("Expected CreateTag statement"),
    }
}

#[test]
fn malformed_statements_are_parse_errors() {
    for sql in [
        "",
        "GRANT ON sales.orders TO ROLE r",
        "GRANT FLY ON sales.orders TO ROLE r",
        "GRANT SELECT ON sales TO ROLE r",
        "GRANT SELECT ON sales.orders TO ROLE",
        "GRANT SELECT ON sales.orders TO ROLE r extra",
        "GRANT SELECT ON sales.orders TO ROLE r WHERE",
        "CREATE ROLE 'unterminated",
        "SHOW EVERYTHING",
    ] {
        assert!(matches!(parse_ddl(sql), Err(LakeError::ParseError(_))), "{}", sql);
    }
}

#[test]
fn to_permission_only_for_grants() {
    let p = parse_ddl("GRANT SELECT ON sales.orders TO ROLE r").unwrap().to_permission().unwrap();
    assert_eq!(p.principal, Principal::Role("r".to_string()));
    assert_eq!(p.actions, vec![Action::Select]);
    assert!(!p.grant_option);
    assert!(p.row_filter.is_none());
    assert!(matches!(parse_ddl("SHOW ROLES").unwrap().to_permission(), Err(LakeError::Usage(_))));
}

#[test]
fn principal_resource_and_action_text() {
    assert_eq!(parse_principal("ROLE analyst").unwrap(), Principal::Role("analyst".to_string()));
    assert_eq!(parse_principal("USER 'john@company.com'").unwrap(), Principal::User("john@company.com".to_string()));
    assert!(matches!(parse_principal("TEAM x"), Err(LakeError::UnknownPrincipalKind(_))));
    assert_eq!(parse_resource("DATABASE sales").unwrap(), Resource::Database { name: "sales".to_string() });
    assert_eq!(
        parse_resource("sales.orders").unwrap(),
        Resource::Table { database: "sales".to_string(), table: "orders".to_string(), columns: None }
    );
    assert!(matches!(parse_resource("sales"), Err(LakeError::UnknownResourceKind(_))));
    assert_eq!(parse_action("select").unwrap(), Action::Select);
    assert_eq!(parse_action("GRANT_WITH_GRANT_OPTION").unwrap(), Action::GrantWithGrantOption);
    assert!(matches!(parse_action("FLY"), Err(LakeError::UnknownAction(a)) if a == "FLY"));
}

#[test]
fn command_line_principals_take_bare_names() {
    assert_eq!(parse_principal("USER john@company.com").unwrap(), Principal::User("john@company.com".to_string()));
    assert_eq!(parse_principal("group admins").unwrap(), Principal::SamlGroup("admins".to_string()));
    assert_eq!(parse_principal("external_account 42").unwrap(), Principal::ExternalAccount("42".to_string()));
    assert!(matches!(parse_ddl("GRANT SELECT ON sales.orders TO USER bob"), Err(LakeError::ParseError(_))));
}

#[test]
fn keywords_match_after_full_upper_casing() {
    assert_eq!(parse_action("data_location_acce\u{df}").unwrap(), Action::DataLocationAccess);
    assert_eq!(parse_action("\u{17f}elect").unwrap(), Action::Select);
    assert!(matches!(parse_action("data_location_acce\u{df}\u{df}"), Err(LakeError::UnknownAction(_))));
    assert!(matches!(parse_ddl("\u{17f}how roles").unwrap(), DdlStatement::ShowRoles));
}
