use slq::drivers::mysql::{
    filter_default_schemas, records_query, show_columns_query, show_databases_query,
    show_tables_query,
};

#[test]
fn plain_listing_has_only_the_limit_clause() {
    let q = records_query("slq", "t", None, None, 0, 50);
    assert_eq!(q, "select * from slq.t limit 50");
}

#[test]
fn offset_sits_between_sort_and_limit() {
    let q = records_query("slq", "t", None, Some("id desc"), 10, 50);
    assert_eq!(q, "select * from slq.t order by id desc offset 10 limit 50");
}

#[test]
fn filter_clause_follows_the_base_selection() {
    let q = records_query("slq", "users", Some("id > 1"), None, 0, 25);
    assert_eq!(q, "select * from slq.users where id > 1 limit 25");
}

#[test]
fn every_clause_keeps_its_fixed_position() {
    let q = records_query(
        "slq",
        "users",
        Some("id > 1"),
        Some("username"),
        100,
        10,
    );
    assert_eq!(
        q,
        "select * from slq.users where id > 1 order by username offset 100 limit 10"
    );
}

#[test]
fn zero_offset_is_omitted_entirely() {
    let q = records_query("db", "t", Some("a = b"), Some("a"), 0, 1);
    assert_eq!(q, "select * from db.t where a = b order by a limit 1");
}

#[test]
fn enumeration_statements() {
    assert_eq!(show_databases_query(), "show databases");
    assert_eq!(show_tables_query("slq"), "show tables in slq");
    assert_eq!(show_columns_query("slq", "users"), "show columns in slq.users");
}

#[test]
fn default_schemas_are_excluded_in_order() {
    let names: Vec<String> = vec![
        "mysql".to_string(),
        "slq".to_string(),
        "information_schema".to_string(),
        "app".to_string(),
        "performance_schema".to_string(),
        "sys".to_string(),
        "zoo".to_string(),
    ];
    let kept = filter_default_schemas(names, true);
    assert_eq!(
        kept,
        vec!["slq".to_string(), "app".to_string(), "zoo".to_string()]
    );
}

#[test]
fn nothing_is_excluded_when_not_ignoring() {
    let names: Vec<String> = vec!["mysql".to_string(), "sys".to_string(), "slq".to_string()];
    let kept = filter_default_schemas(names.clone(), false);
    assert_eq!(kept, names);
}

#[test]
fn near_matches_of_default_schemas_stay() {
    let names: Vec<String> = vec![
        "Mysql".to_string(),
        "SYS".to_string(),
        "sys2".to_string(),
        "information_schema ".to_string(),
    ];
    let kept = filter_default_schemas(names.clone(), true);
    assert_eq!(kept, names);
}
