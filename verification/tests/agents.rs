use kallip_tagma::agents::resolve_root_agent;
use kallip_tagma::config::{resolve_granted_class, PermissionClass};
use kallip_tagma::text::{truncate_chars, MAX_ACTIVITY_CHARS};

#[test]
fn truncate_keeps_short_strings() {
    let mut s = String::from("abc");
    truncate_chars(&mut s, 10);
    assert_eq!(s, "abc");
    let mut s = String::new();
    truncate_chars(&mut s, 10);
    assert!(s.is_empty());
}

#[test]
fn truncate_caps_on_char_boundary() {
    // "héllo" is 5 chars (é is one char, two bytes); cap at 2 → "hé".
    let mut s = String::from("héllo");
    truncate_chars(&mut s, 2);
    assert_eq!(s, "hé");
    let mut s = String::from("abcdef");
    truncate_chars(&mut s, 3);
    assert_eq!(s, "abc");
}

#[test]
fn truncate_caps_to_max_activity_chars() {
    let mut s = "x".repeat(MAX_ACTIVITY_CHARS + 100);
    truncate_chars(&mut s, MAX_ACTIVITY_CHARS);
    assert_eq!(s.chars().count(), MAX_ACTIVITY_CHARS);
}

#[test]
fn resolve_root_agent_returns_registry_root() {
    // The root is the tagma's single registered root, resolved
    // independently of any supervisor chain.
    let root = String::from("root-1");
    assert_eq!(resolve_root_agent(Some(&root)), root);
}

#[test]
fn granted_defaults_to_tier_ceiling_when_unrequested() {
    assert_eq!(
        resolve_granted_class(PermissionClass::Normal, PermissionClass::Normal, None).unwrap(),
        PermissionClass::Normal
    );
    assert_eq!(
        resolve_granted_class(PermissionClass::Guest, PermissionClass::Guest, None).unwrap(),
        PermissionClass::Guest
    );
}

#[test]
fn granted_accepts_explicit_downgrade() {
    assert_eq!(
        resolve_granted_class(
            PermissionClass::Normal,
            PermissionClass::Normal,
            Some(PermissionClass::Guest)
        )
        .unwrap(),
        PermissionClass::Guest
    );
    assert_eq!(
        resolve_granted_class(
            PermissionClass::Normal,
            PermissionClass::Normal,
            Some(PermissionClass::Normal)
        )
        .unwrap(),
        PermissionClass::Normal
    );
}

#[test]
fn granted_rejects_request_above_tier_ceiling() {
    let err = resolve_granted_class(
        PermissionClass::Guest,
        PermissionClass::Normal,
        Some(PermissionClass::Normal),
    )
    .unwrap_err();
    assert!(err.message.contains("tier ceiling"), "{}", err.message);
    assert_eq!(err.status, 403);
}

#[test]
fn granted_rejects_request_above_downgraded_supervisor() {
    let err = resolve_granted_class(PermissionClass::Normal, PermissionClass::Guest, None).unwrap_err();
    assert!(err.message.contains("supervisor"), "{}", err.message);
    assert_eq!(err.status, 403);
}

#[test]
fn granted_refusal_names_both_classes_exactly() {
    let err = resolve_granted_class(PermissionClass::Guest, PermissionClass::Normal, Some(PermissionClass::Normal))
        .unwrap_err();
    assert_eq!(err.message, "requested permission class normal exceeds tier ceiling guest");
    let err = resolve_granted_class(PermissionClass::Normal, PermissionClass::Guest, None).unwrap_err();
    assert_eq!(err.message, "requested permission class normal exceeds supervisor's guest");
}
