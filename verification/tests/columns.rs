use slq::drivers::mysql::ColumnRecord;
use slq::drivers::{ColumnInfo, DriverError};

fn record(
    field: Option<&str>,
    type_text: Option<&str>,
    null: Option<&str>,
    key: Option<&str>,
    default: Option<&str>,
    extra: Option<&str>,
) -> ColumnRecord {
    ColumnRecord {
        field: field.map(|s| s.to_string()),
        type_text: type_text.map(|s| s.to_string()),
        null: null.map(|s| s.to_string()),
        key: key.map(|s| s.to_string()),
        default: default.map(|s| s.to_string()),
        extra: extra.map(|s| s.to_string()),
    }
}

#[test]
fn empty_key_and_extra_become_absent() {
    let parsed = ColumnInfo::from_record(record(
        Some("password"),
        Some("varchar(255)"),
        Some("NO"),
        Some(""),
        None,
        Some(""),
    ))
    .unwrap();
    assert_eq!(parsed.key, None);
    assert_eq!(parsed.extra, None);
}

#[test]
fn primary_key_role_is_kept() {
    let parsed = ColumnInfo::from_record(record(
        Some("id"),
        Some("int"),
        Some("NO"),
        Some("PRI"),
        None,
        Some("auto_increment"),
    ))
    .unwrap();
    assert_eq!(
        parsed,
        ColumnInfo {
            name: "id".to_string(),
            declared_type: "int".to_string(),
            nullable: false,
            key: Some("PRI".to_string()),
            default: None,
            extra: Some("auto_increment".to_string()),
        }
    );
}

#[test]
fn nullable_only_on_exact_yes() {
    let yes = record(Some("a"), Some("int"), Some("YES"), None, None, None);
    assert!(ColumnInfo::from_record(yes).unwrap().nullable);
    let no = record(Some("a"), Some("int"), Some("NO"), None, None, None);
    assert!(!ColumnInfo::from_record(no).unwrap().nullable);
    let lower = record(Some("a"), Some("int"), Some("yes"), None, None, None);
    assert!(!ColumnInfo::from_record(lower).unwrap().nullable);
    let absent = record(Some("a"), Some("int"), None, None, None, None);
    assert!(!ColumnInfo::from_record(absent).unwrap().nullable);
}

#[test]
fn missing_name_or_type_is_a_conversion_error() {
    let no_name = record(None, Some("int"), None, None, None, None);
    assert!(matches!(
        ColumnInfo::from_record(no_name),
        Err(DriverError::Conversion)
    ));
    let no_type = record(Some("id"), None, None, None, None, None);
    assert!(matches!(
        ColumnInfo::from_record(no_type),
        Err(DriverError::Conversion)
    ));
}

#[test]
fn default_value_is_carried_verbatim() {
    let parsed = ColumnInfo::from_record(record(
        Some("registered_at"),
        Some("timestamp"),
        Some("NO"),
        Some(""),
        Some("CURRENT_TIMESTAMP"),
        Some("DEFAULT_GENERATED"),
    ))
    .unwrap();
    assert_eq!(parsed.default, Some("CURRENT_TIMESTAMP".to_string()));
    assert_eq!(parsed.extra, Some("DEFAULT_GENERATED".to_string()));
    let empty_default = ColumnInfo::from_record(record(
        Some("a"),
        Some("int"),
        None,
        None,
        Some(""),
        None,
    ))
    .unwrap();
    assert_eq!(empty_default.default, Some("".to_string()));
}
