use lakesql::Action;
use lakesql::Permission;
use lakesql::Principal;
use lakesql::Resource;

fn orders() -> Resource {
    Resource::Table {
        database: "sales".to_string(),
        table: "orders".to_string(),
        columns: None,
    }
}

#[test]
fn test_basic_permission() {
    let perm = Permission {
        principal: Principal::Role("data_scientist".to_string()),
        resource: Resource::Table {
            database: "sales".to_string(),
            table: "orders".to_string(),
            columns: None,
        },
        actions: vec![Action::Select],
        grant_option: false,
        row_filter: None,
    };

    assert_eq!(perm.actions.len(), 1);
    assert_eq!(perm.actions[0], Action::Select);
}

#[test]
fn principal_matching_is_like_kind_only() {
    let role = Principal::Role("eng".to_string());
    assert!(role.matches(&Principal::Role("eng".to_string())));
    assert!(!role.matches(&Principal::Role("ops".to_string())));
    assert!(!role.matches(&Principal::User("eng".to_string())));
    let tagged = Principal::TaggedPrincipal {
        tag_key: "team".to_string(),
        tag_values: vec!["a".to_string()],
    };
    assert!(!tagged.matches(&tagged.clone()));
    assert_eq!(tagged, tagged.clone());
}

#[test]
fn table_is_covered_by_its_database_and_itself() {
    let t = orders();
    assert!(t.is_covered_by(&orders()));
    assert!(t.is_covered_by(&Resource::Database { name: "sales".to_string() }));
    assert!(!t.is_covered_by(&Resource::Database { name: "hr".to_string() }));
    let with_cols = Resource::Table {
        database: "sales".to_string(),
        table: "orders".to_string(),
        columns: Some(vec!["id".to_string()]),
    };
    assert!(t.is_covered_by(&with_cols));
    assert!(with_cols.is_covered_by(&t));
    assert!(t != with_cols);
}

#[test]
fn database_is_covered_only_by_itself() {
    let db = Resource::Database { name: "sales".to_string() };
    assert!(db.is_covered_by(&Resource::Database { name: "sales".to_string() }));
    assert!(!db.is_covered_by(&orders()));
}

#[test]
fn data_location_is_covered_by_a_prefix() {
    let p = Resource::DataLocation { path: "s3://bucket/data/x".to_string() };
    assert!(p.is_covered_by(&Resource::DataLocation { path: "s3://bucket/".to_string() }));
    assert!(p.is_covered_by(&Resource::DataLocation { path: "s3://bucket/data/x".to_string() }));
    assert!(!p.is_covered_by(&Resource::DataLocation { path: "s3://other/".to_string() }));
}

#[test]
fn tagged_resource_covers_nothing() {
    let t = Resource::TaggedResource {
        tag_conditions: vec![("dept".to_string(), vec!["hr".to_string()])],
    };
    assert!(!t.is_covered_by(&t.clone()));
    assert!(!orders().is_covered_by(&t));
}
