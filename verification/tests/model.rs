use jingle::model::{validate_entry_name, validate_field_name, Entry, SecretString, REDACTED};

#[test]
fn secret_string_debug_and_display_are_redacted() {
    let s = SecretString::new("hunter2".into());
    assert_eq!(s.redacted_text(), REDACTED);
    assert_eq!(format!("{}", s.redacted_text()), REDACTED);
    assert_eq!(s.expose(), "hunter2");
}

#[test]
fn view_carries_field_names_not_values() {
    let mut e = Entry::new("gh".into()).unwrap();
    e.secrets
        .insert("password".into(), SecretString::new("supersecret".into()));
    let v = e.view();
    assert_eq!(v.secret_fields, vec!["password".to_string()]);
    let mut obj = serde_json::Map::new();
    obj.insert("name".into(), serde_json::Value::String(v.name.clone()));
    obj.insert("service".into(), serde_json::Value::String(v.service.clone()));
    obj.insert("created_at".into(), serde_json::Value::String(v.created_at.clone()));
    obj.insert("updated_at".into(), serde_json::Value::String(v.updated_at.clone()));
    obj.insert(
        "secret_fields".into(),
        serde_json::Value::Array(
            v.secret_fields
                .iter()
                .map(|f| serde_json::Value::String(f.clone()))
                .collect(),
        ),
    );
    let json = serde_json::to_string(&serde_json::Value::Object(obj)).unwrap();
    assert!(!json.contains("supersecret"));
}

#[test]
fn name_validation() {
    assert!(validate_entry_name("github.com/bot").is_ok());
    assert!(validate_entry_name("a:b").is_err());
    assert!(validate_entry_name("a=b").is_err());
    assert!(validate_entry_name("a b").is_err());
    assert!(validate_entry_name("").is_err());
    assert!(validate_entry_name("__x").is_err());
    assert!(validate_field_name("api_key").is_ok());
    assert!(validate_field_name("api key").is_err());
}
