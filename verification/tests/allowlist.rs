use bouncer::allowlist::{
    admit_allowlist, check_fail_closed, next_in_force, resolve, should_reload, Allowlist,
    AllowlistError, Target, WatchEventKind,
};
use std::sync::Arc;

fn one_target(alias: &str, auth: bool) -> Allowlist {
    let mut targets = Allowlist::new();
    targets.insert(
        alias.to_string(),
        Target {
            host: "example.com".to_string(),
            auth,
        },
    );
    targets
}

#[test]
fn fail_closed_ok_when_no_target_requires_auth() {
    let mut targets = Allowlist::new();
    targets.insert(
        "foo".to_string(),
        Target {
            host: "example.com".to_string(),
            auth: false,
        },
    );
    assert!(check_fail_closed(&targets, false).is_ok());
}

#[test]
fn fail_closed_ok_when_secret_configured() {
    let mut targets = Allowlist::new();
    targets.insert(
        "foo".to_string(),
        Target {
            host: "example.com".to_string(),
            auth: true,
        },
    );
    assert!(check_fail_closed(&targets, true).is_ok());
}

#[test]
fn fail_closed_errors_naming_offending_alias() {
    let mut targets = Allowlist::new();
    targets.insert(
        "foo".to_string(),
        Target {
            host: "example.com".to_string(),
            auth: true,
        },
    );
    let err = check_fail_closed(&targets, false).unwrap_err();
    assert!(err.to_string().contains("foo"));
}

#[test]
fn fail_closed_names_the_protected_alias_among_many() {
    let mut targets = one_target("open", false);
    targets.insert(
        "locked".to_string(),
        Target {
            host: "internal.example".to_string(),
            auth: true,
        },
    );
    let err = check_fail_closed(&targets, false).unwrap_err();
    assert_eq!(err.alias, "locked");
    assert_eq!(
        err.to_string(),
        "target \"locked\" requires auth but JWT_SECRET is not configured"
    );
}

#[test]
fn empty_allowlist_passes_fail_closed() {
    assert!(check_fail_closed(&Allowlist::new(), false).is_ok());
}

#[test]
fn lookup_after_insert_gives_what_was_written() {
    let mut targets = one_target("foo", false);
    targets.insert(
        "bar".to_string(),
        Target {
            host: "bar.example".to_string(),
            auth: true,
        },
    );
    assert_eq!(
        targets.get("bar"),
        Some(&Target {
            host: "bar.example".to_string(),
            auth: true
        })
    );
    assert_eq!(targets.get("foo").map(|t| t.host.as_str()), Some("example.com"));
    assert_eq!(targets.get("baz"), None);
}

#[test]
fn insert_replaces_an_existing_alias() {
    let mut targets = one_target("foo", false);
    targets.insert(
        "foo".to_string(),
        Target {
            host: "other.example".to_string(),
            auth: true,
        },
    );
    assert_eq!(
        resolve(&targets, "foo"),
        Some(Target {
            host: "other.example".to_string(),
            auth: true
        })
    );
    // Only one entry for the alias remains, so the check sees the new target.
    assert!(check_fail_closed(&targets, false).is_err());
}

#[test]
fn resolve_unknown_alias_is_none() {
    let targets = one_target("foo", false);
    assert_eq!(resolve(&targets, "Foo"), None);
    assert_eq!(resolve(&targets, "fo"), None);
}

#[test]
fn admit_keeps_load_errors_and_fail_closed_refusals() {
    assert_eq!(
        admit_allowlist(Err("bad toml".to_string()), true).unwrap_err(),
        AllowlistError::Load("bad toml".to_string())
    );
    match admit_allowlist(Ok(one_target("foo", true)), false) {
        Err(AllowlistError::FailClosed(e)) => assert_eq!(e.alias, "foo"),
        other => panic!("unexpected: {:?}", other),
    }
    let admitted = admit_allowlist(Ok(one_target("foo", true)), true).unwrap();
    assert!(admitted.get("foo").unwrap().auth);
}

#[test]
fn only_create_and_modify_reload() {
    assert!(should_reload(WatchEventKind::Create));
    assert!(should_reload(WatchEventKind::Modify));
    assert!(!should_reload(WatchEventKind::Remove));
    assert!(!should_reload(WatchEventKind::Access));
    assert!(!should_reload(WatchEventKind::Any));
    assert!(!should_reload(WatchEventKind::Other));
}

#[test]
fn watcher_keeps_allowlist_on_other_events() {
    let current = Arc::new(one_target("foo", false));
    for kind in [WatchEventKind::Remove, WatchEventKind::Access, WatchEventKind::Any, WatchEventKind::Other] {
        let (next, refused) =
            next_in_force(current.clone(), kind, Some(Ok(one_target("bar", false))), true);
        assert!(Arc::ptr_eq(&next, &current));
        assert!(refused.is_none());
    }
}

#[test]
fn watcher_keeps_allowlist_on_failed_reload() {
    let current = Arc::new(one_target("foo", false));
    let (next, refused) = next_in_force(
        current.clone(),
        WatchEventKind::Modify,
        Some(Err("missing file".to_string())),
        false,
    );
    assert!(Arc::ptr_eq(&next, &current));
    assert_eq!(refused, Some(AllowlistError::Load("missing file".to_string())));
    let (next, refused) = next_in_force(
        current.clone(),
        WatchEventKind::Create,
        Some(Ok(one_target("locked", true))),
        false,
    );
    assert!(Arc::ptr_eq(&next, &current));
    match refused {
        Some(AllowlistError::FailClosed(e)) => assert_eq!(e.alias, "locked"),
        other => panic!("unexpected: {:?}", other),
    }
}

#[test]
fn watcher_installs_an_admissible_reload() {
    let current = Arc::new(one_target("foo", false));
    let (next, refused) = next_in_force(
        current,
        WatchEventKind::Modify,
        Some(Ok(one_target("bar", true))),
        true,
    );
    assert!(refused.is_none());
    assert!(next.get("bar").unwrap().auth);
    assert_eq!(next.get("foo"), None);
}
