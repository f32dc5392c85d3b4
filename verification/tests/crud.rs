use jingle::crud::{
    add, edit, finish_field_value, generate, list, refuse_generated_totp, set_locked, show,
    unset, unset_target,
};
use jingle::error::JingleError;
use jingle::model::{SecretString, VaultPayload};

fn vault_with(names: &[&str]) -> VaultPayload {
    let mut v = VaultPayload::default();
    for n in names {
        add(
            &mut v,
            n.to_string(),
            None,
            None,
            None,
            None,
            vec![],
            "password".into(),
            SecretString::new(format!("pw-{n}")),
        )
        .unwrap();
    }
    v
}

#[test]
fn add_fills_defaults_and_drops_empty_tags() {
    let mut v = VaultPayload::default();
    add(
        &mut v,
        "github".into(),
        None,
        Some("bot".into()),
        None,
        Some("note".into()),
        vec!["ci".into(), "".into(), "prod".into()],
        "api_key".into(),
        SecretString::new("k".into()),
    )
    .unwrap();
    let e = &v.entries[0];
    assert_eq!(e.name, "github");
    assert_eq!(e.service, "github");
    assert_eq!(e.username.as_deref(), Some("bot"));
    assert_eq!(e.tags, vec!["ci".to_string(), "prod".to_string()]);
    assert!(!e.locked);
    assert_eq!(e.id.len(), 16);
    assert!(e.id.chars().all(|c| c.is_ascii_hexdigit() && !c.is_ascii_uppercase()));
    assert_eq!(e.secrets.get("api_key").unwrap().expose(), "k");
    assert_eq!(e.created_at, e.updated_at);
}

#[test]
fn add_refusals_in_order() {
    let mut v = vault_with(&["github"]);
    let r = add(&mut v, "bad name".into(), None, None, None, None, vec![], "bad field".into(), SecretString::new("x".into()));
    assert!(matches!(r, Err(JingleError::Usage(_))));
    let r = add(&mut v, "ok".into(), None, None, None, None, vec![], "bad field".into(), SecretString::new("x".into()));
    assert!(matches!(r, Err(JingleError::Usage(_))));
    let r = add(&mut v, "GitHub".into(), None, None, None, None, vec![], "password".into(), SecretString::new("x".into()));
    assert_eq!(r, Err(JingleError::AlreadyExists("GitHub".into())));
    assert_eq!(v.entries.len(), 1);
}

#[test]
fn add_then_show_by_any_case() {
    let v = vault_with(&["GitHub"]);
    let view = show(&v, "github").unwrap();
    assert_eq!(view.name, "GitHub");
    assert_eq!(view.secret_fields, vec!["password".to_string()]);
    assert_eq!(show(&v, "gitlab").unwrap_err(), JingleError::NotFound("gitlab".into()));
}

#[test]
fn list_filters_and_sorts() {
    let mut v = vault_with(&["zeta", "alpha", "Mid"]);
    v.entries[0].tags = vec!["ci".into()];
    v.entries[1].tags = vec!["ci".into()];
    v.entries[2].service = "GitHub.com".into();
    let all = list(&v.entries, None, None);
    let names: Vec<&str> = all.iter().map(|x| x.name.as_str()).collect();
    assert_eq!(names, vec!["Mid", "alpha", "zeta"]);
    let tagged = list(&v.entries, Some("ci"), None);
    let names: Vec<&str> = tagged.iter().map(|x| x.name.as_str()).collect();
    assert_eq!(names, vec!["alpha", "zeta"]);
    let by_service = list(&v.entries, None, Some("github"));
    assert_eq!(by_service.len(), 1);
    assert_eq!(by_service[0].name, "Mid");
    assert!(list(&v.entries, Some("nope"), None).is_empty());
}

#[test]
fn set_then_read_and_replace_flag() {
    let mut v = vault_with(&["github"]);
    assert_eq!(jingle::crud::set(&mut v, "GITHUB", "token", SecretString::new("t1".into())), Ok(false));
    assert_eq!(jingle::crud::set(&mut v, "github", "token", SecretString::new("t2".into())), Ok(true));
    assert_eq!(v.entries[0].secrets.get("token").unwrap().expose(), "t2");
    assert_eq!(v.entries[0].secrets.get("password").unwrap().expose(), "pw-github");
    assert_eq!(jingle::crud::set(&mut v, "nope", "token", SecretString::new("x".into())), Err(JingleError::NotFound("nope".into())));
    assert!(matches!(jingle::crud::set(&mut v, "github", "bad field", SecretString::new("x".into())), Err(JingleError::Usage(_))));
}

#[test]
fn generate_refuses_totp_field() {
    let mut v = vault_with(&["github"]);
    let r = generate(&mut v, "github", "TOTP", SecretString::new("x".into()));
    assert_eq!(
        r,
        Err(JingleError::Usage("cannot generate a TOTP seed; use `jingle set NAME totp --stdin`".into()))
    );
    assert_eq!(generate(&mut v, "github", "password", SecretString::new("new".into())), Ok(true));
    assert_eq!(v.entries[0].secrets.get("password").unwrap().expose(), "new");
    assert!(refuse_generated_totp("totp", true).is_err());
    assert!(refuse_generated_totp("totp", false).is_ok());
    assert!(refuse_generated_totp("password", true).is_ok());
}

#[test]
fn finish_field_value_normalizes_totp_only() {
    let s = finish_field_value("totp", SecretString::new("gezd gnbv".into())).unwrap();
    assert_eq!(s.expose(), "GEZDGNBV");
    let s = finish_field_value("password", SecretString::new("gezd gnbv".into())).unwrap();
    assert_eq!(s.expose(), "gezd gnbv");
    assert!(matches!(
        finish_field_value("Totp", SecretString::new("not!base32".into())),
        Err(JingleError::Usage(_))
    ));
}

#[test]
fn unset_removes_field_and_refuses_missing() {
    let mut v = vault_with(&["github"]);
    jingle::crud::set(&mut v, "github", "token", SecretString::new("t".into())).unwrap();
    assert_eq!(unset_target(&v, "github", "token"), Ok("github".to_string()));
    assert_eq!(unset(&mut v, "github", "token"), Ok("github".to_string()));
    assert!(v.entries[0].secrets.get("token").is_none());
    assert_eq!(
        unset(&mut v, "github", "token"),
        Err(JingleError::FieldNotFound { entry: "github".into(), field: "token".into() })
    );
    assert_eq!(unset(&mut v, "nope", "token"), Err(JingleError::NotFound("nope".into())));
}

#[test]
fn edit_updates_metadata_and_renames() {
    let mut v = vault_with(&["github", "gitlab"]);
    v.entries[0].url = Some("https://x".into());
    let r = edit(&mut v, "github", None, None, Some(String::new()), Some("n".into()), Some(vec!["a".into(), "".into()]), Some("gh".into()));
    assert_eq!(r, Ok("gh".to_string()));
    let e = &v.entries[0];
    assert_eq!(e.name, "gh");
    assert!(e.url.is_none());
    assert_eq!(e.notes.as_deref(), Some("n"));
    assert_eq!(e.tags, vec!["a".to_string()]);
    assert_eq!(e.secrets.get("password").unwrap().expose(), "pw-github");
    // A case-only rename of itself is allowed.
    assert_eq!(edit(&mut v, "gh", None, None, None, None, None, Some("GH".into())), Ok("GH".to_string()));
}

#[test]
fn edit_refusals() {
    let mut v = vault_with(&["github", "gitlab"]);
    assert_eq!(
        edit(&mut v, "github", None, None, None, None, None, None),
        Err(JingleError::Usage(
            "nothing to edit: pass at least one of --service/--username/--url/--notes/--tags/--rename".into()
        ))
    );
    assert_eq!(
        edit(&mut v, "github", None, None, None, None, None, Some("GitLab".into())),
        Err(JingleError::AlreadyExists("GitLab".into()))
    );
    assert!(matches!(
        edit(&mut v, "github", None, None, None, None, None, Some("bad name".into())),
        Err(JingleError::Usage(_))
    ));
    assert_eq!(
        edit(&mut v, "nope", Some("s".into()), None, None, None, None, None),
        Err(JingleError::NotFound("nope".into()))
    );
    assert_eq!(v.entries[0].name, "github");
}

#[test]
fn lock_and_unlock() {
    let mut v = vault_with(&["github"]);
    assert_eq!(set_locked(&mut v, "GITHUB", true), Ok("github".to_string()));
    assert!(v.entries[0].locked);
    assert_eq!(set_locked(&mut v, "github", false), Ok("github".to_string()));
    assert!(!v.entries[0].locked);
    assert_eq!(set_locked(&mut v, "nope", true), Err(JingleError::NotFound("nope".into())));
}

#[test]
fn remove_then_lookup_fails() {
    let mut v = vault_with(&["github", "gitlab"]);
    let e = v.remove("GitHub").unwrap();
    assert_eq!(e.name, "github");
    assert!(!v.contains("github"));
    assert!(v.contains("gitlab"));
    assert!(matches!(v.remove("github"), Err(JingleError::NotFound(n)) if n == "github"));
}

#[test]
fn names_stay_unique_across_add_and_edit() {
    let mut v = vault_with(&["a1", "b2"]);
    assert!(add(&mut v, "A1".into(), None, None, None, None, vec![], "password".into(), SecretString::new("x".into())).is_err());
    assert!(edit(&mut v, "b2", None, None, None, None, None, Some("a1".into())).is_err());
    let names: Vec<String> = v.entries.iter().map(|e| e.name.to_lowercase()).collect();
    assert_eq!(names, vec!["a1".to_string(), "b2".to_string()]);
}
