use jingle::crud::{add, set_locked};
use jingle::egress::{
    audited_failure, authorize, burst_count, burst_warning, parse_mappings, Access, check_locked, clipboard_hash, inherits_env_var,
    parse_mapping, plan_exec, should_clear_clipboard,
};
use jingle::error::JingleError;
use jingle::model::{SecretString, VaultPayload};

fn vault() -> VaultPayload {
    let mut v = VaultPayload::default();
    for (n, pw) in [("github", "gh-pass"), ("prod-db", "db-pass")] {
        add(&mut v, n.into(), None, None, None, None, vec![], "password".into(), SecretString::new(pw.into())).unwrap();
    }
    jingle::crud::set(&mut v, "github", "api_key", SecretString::new("gh-key".into())).unwrap();
    set_locked(&mut v, "prod-db", true).unwrap();
    v
}

fn strings(xs: &[&str]) -> Vec<String> {
    xs.iter().map(|s| s.to_string()).collect()
}

#[test]
fn parse_mapping_forms() {
    let m = parse_mapping("github=GH_PASS").unwrap();
    assert_eq!((m.entry.as_str(), m.field.as_str(), m.env_var.as_str()), ("github", "password", "GH_PASS"));
    let m = parse_mapping("github:api_key=_K1").unwrap();
    assert_eq!((m.entry.as_str(), m.field.as_str(), m.env_var.as_str()), ("github", "api_key", "_K1"));
    let m = parse_mapping("a:b:c=X").unwrap();
    assert_eq!((m.entry.as_str(), m.field.as_str()), ("a", "b:c"));
}

#[test]
fn parse_mapping_errors() {
    assert_eq!(
        parse_mapping("github"),
        Err(JingleError::Usage(
            "invalid --secret 'github': expected REF=ENVVAR (e.g. github=GH_PASS or github:api_key=GH_KEY)".into()
        ))
    );
    assert_eq!(
        parse_mapping("=X"),
        Err(JingleError::Usage("invalid --secret '=X': empty entry or field".into()))
    );
    assert_eq!(
        parse_mapping("gh:=X"),
        Err(JingleError::Usage("invalid --secret 'gh:=X': empty entry or field".into()))
    );
    assert_eq!(
        parse_mapping("gh=lower"),
        Err(JingleError::Usage("invalid environment variable name 'lower': use [A-Z_][A-Z0-9_]*".into()))
    );
    assert!(parse_mapping("gh=1ABC").is_err());
    assert!(parse_mapping("gh=").is_err());
    assert!(parse_mapping("gh=A-B").is_err());
}

#[test]
fn locked_entry_needs_exact_name() {
    let v = vault();
    let db = &v.entries[1];
    assert_eq!(check_locked(db, &[]), Err(JingleError::Locked("prod-db".into())));
    assert_eq!(check_locked(db, &strings(&["PROD-DB"])), Err(JingleError::Locked("prod-db".into())));
    assert_eq!(check_locked(db, &strings(&["other", "prod-db"])), Ok(()));
    assert_eq!(check_locked(&v.entries[0], &[]), Ok(()));
}

#[test]
fn authorize_refusals_carry_audit_events() {
    let v = vault();
    assert_eq!(authorize(&v, "copy", "GitHub", "api_key", &[]).unwrap(), 0);
    let (e, ev) = authorize(&v, "copy", "nope", "password", &[]).unwrap_err();
    assert_eq!(e, JingleError::NotFound("nope".into()));
    assert_eq!(ev.outcome, "not_found");
    assert_eq!(ev.cmd, "copy");
    assert_eq!(ev.entry.as_deref(), Some("nope"));
    let (e, ev) = authorize(&v, "copy", "prod-db", "password", &[]).unwrap_err();
    assert_eq!(e, JingleError::Locked("prod-db".into()));
    assert_eq!(ev.outcome, "refused_locked");
    let (e, ev) = authorize(&v, "totp", "github", "totp", &[]).unwrap_err();
    assert_eq!(e, JingleError::FieldNotFound { entry: "github".into(), field: "totp".into() });
    assert_eq!(ev.outcome, "not_found");
    assert_eq!(ev.field.as_deref(), Some("totp"));
    assert_eq!(ev.locked, None);
}

#[test]
fn audited_failure_keeps_error() {
    let (ev, e) = audited_failure("exec", Some("x"), None, JingleError::Other("boom".into()));
    assert_eq!(e, JingleError::Other("boom".into()));
    assert_eq!(ev.outcome, "error");
    assert_eq!(ev.field, None);
}

#[test]
fn plan_exec_injects_in_order() {
    let v = vault();
    let plan = plan_exec(&v, &strings(&["github=GH_PASS", "github:api_key=GH_KEY"]), &[], &strings(&["PATH"]), false)
        .ok()
        .unwrap();
    assert_eq!(plan.injections.len(), 2);
    assert_eq!(plan.injections[0].env_var, "GH_PASS");
    assert_eq!(plan.injections[0].value.expose(), "gh-pass");
    assert_eq!(plan.injections[1].env_var, "GH_KEY");
    assert_eq!(plan.injections[1].value.expose(), "gh-key");
    assert_eq!(plan.grants[1].field, "api_key");
    assert!(!plan.grants[0].locked);
}

#[test]
fn plan_exec_refusals() {
    let v = vault();
    let err = |r: Result<_, (JingleError, Option<_>)>| match r {
        Ok(_) => panic!("expected a refusal"),
        Err(e) => e,
    };
    let (e, ev) = err(plan_exec(&v, &strings(&["github=A", "bad"]), &[], &[], false));
    assert!(matches!(e, JingleError::Usage(_)) && ev.is_none());
    let (e, ev) = err(plan_exec(&v, &strings(&["github=A", "github:api_key=A"]), &[], &[], false));
    assert_eq!(e, JingleError::Usage("environment variable A is mapped more than once".into()));
    assert!(ev.is_none());
    let (e, ev) = err(plan_exec(&v, &strings(&["github=A", "prod-db=B"]), &[], &[], false));
    assert_eq!(e, JingleError::Locked("prod-db".into()));
    assert_eq!(ev.unwrap().cmd, "exec");
    let (e, _) = err(plan_exec(&v, &strings(&["github=HOME"]), &[], &strings(&["HOME"]), false));
    assert_eq!(
        e,
        JingleError::Usage("environment variable HOME already exists; pass --allow-overwrite to replace it".into())
    );
    assert!(plan_exec(&v, &strings(&["github=HOME"]), &[], &strings(&["HOME"]), true).is_ok());
    assert!(plan_exec(&v, &strings(&["prod-db=DB"]), &strings(&["prod-db"]), &[], false).is_ok());
}

#[test]
fn child_environment_filter() {
    assert!(inherits_env_var("PATH", true));
    assert!(inherits_env_var("SYSTEMROOT", true));
    assert!(!inherits_env_var("AWS_SECRET", true));
    assert!(inherits_env_var("AWS_SECRET", false));
    assert!(!inherits_env_var("JINGLE_KEYFILE", false));
    assert!(inherits_env_var("JINGLE", false));
}

#[test]
fn clipboard_fingerprint() {
    assert_eq!(
        clipboard_hash("abc"),
        "ba7816bf8f01cfea414140de5dae2223b00361a396177a9cb410ff61f20015ad"
    );
    let h = clipboard_hash("secret");
    assert!(should_clear_clipboard("secret", &h));
    assert!(!should_clear_clipboard("something else", &h));
}

#[test]
fn burst_warning_text() {
    assert!(burst_warning(7).starts_with("jingle: WARNING: secrets from 7 distinct entries were accessed within the last 60s"));
}

fn grants(xs: &[(u64, &str)]) -> Vec<Access> {
    xs.iter().map(|&(at, e)| Access { at, entry: e.to_string() }).collect()
}

#[test]
fn burst_tripwire_counts_distinct_recent_entries() {
    let h = grants(&[(100, "a"), (110, "b"), (120, "c"), (130, "d"), (140, "e")]);
    // Five distinct entries and one more: the sixth trips the wire.
    assert_eq!(burst_count(&h, 150, "f"), Some(6));
    // Accessing one of the five again stays quiet.
    assert_eq!(burst_count(&h, 150, "c"), None);
    // Repeats count once.
    let h2 = grants(&[(100, "a"), (101, "a"), (102, "b"), (103, "b"), (104, "c"), (105, "d")]);
    assert_eq!(burst_count(&h2, 110, "e"), None);
    // Grants that left the 60 s window no longer count.
    assert_eq!(burst_count(&h, 160, "f"), None);
    assert_eq!(burst_count(&h, 159, "f"), Some(6));
    assert_eq!(burst_count(&[], 0, "x"), None);
}

#[test]
fn parse_mappings_checks_all_before_vault_use() {
    let ms = parse_mappings(&strings(&["a=X", "b:api=Y"])).unwrap();
    assert_eq!(ms.len(), 2);
    assert_eq!(ms[1].field, "api");
    assert_eq!(
        parse_mappings(&strings(&["a=X", "b=X"])),
        Err(JingleError::Usage("environment variable X is mapped more than once".into()))
    );
    assert!(matches!(parse_mappings(&strings(&["a=X", "b"])), Err(JingleError::Usage(_))));
    assert_eq!(parse_mappings(&[]), Ok(vec![]));
}

#[test]
fn lock_then_refused_unlock_then_granted() {
    let mut v = vault();
    set_locked(&mut v, "github", true).unwrap();
    let (e, ev) = authorize(&v, "copy", "GITHUB", "api_key", &[]).unwrap_err();
    assert_eq!(e, JingleError::Locked("github".into()));
    assert_eq!(ev.outcome, "refused_locked");
    assert_eq!(authorize(&v, "copy", "GITHUB", "api_key", &strings(&["github"])).unwrap(), 0);
    set_locked(&mut v, "github", false).unwrap();
    assert_eq!(authorize(&v, "copy", "github", "api_key", &[]).unwrap(), 0);
    assert!(authorize(&v, "copy", "github", "nope", &[]).is_err());
}
