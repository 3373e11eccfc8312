use kallip_tagma::auth::Identity;
use kallip_tagma::config::{AgentConfig, AgentIdentity, AgentState, DelegationMode, PermissionClass};
use kallip_tagma::context::{permissions_of, require_live};
use kallip_tagma::registry::{AgentEntry, AgentRegistry, FaultedEntry, LiveAgent, RegistryEntry};
use kallip_tagma::settings::{check_zone_known, timezone_name_valid, timezone_request, timezone_write, TimezoneValue};

fn cfg(created_by: Option<&str>, class: PermissionClass) -> AgentConfig {
    AgentConfig {
        created_by: created_by.map(|s| s.to_string()),
        role: "r".into(),
        description: String::new(),
        workspace_root: "/w/r".into(),
        permissions_class: class,
        profile_set: None,
        delegation_mode: DelegationMode::CarveOut,
        max_depth: 1,
    }
}

#[test]
fn timezone_writes_are_operator_only_and_shaped() {
    let op = Identity::Operator;
    assert_eq!(timezone_request(&op, TimezoneValue::Str("Europe/Oslo".into())).unwrap().as_deref(), Some("Europe/Oslo"));
    assert_eq!(timezone_request(&op, TimezoneValue::Null).unwrap(), None);
    assert_eq!(timezone_request(&op, TimezoneValue::Absent).unwrap(), None);
    let err = timezone_request(&op, TimezoneValue::Str(String::new())).unwrap_err();
    assert_eq!((err.status, err.message.as_str()), (400, "timezone must be an IANA name string or null, got \"\""));
    let err = timezone_request(&op, TimezoneValue::Other("42".into())).unwrap_err();
    assert_eq!(err.message, "timezone must be an IANA name string or null, got 42");
    let err = timezone_request(&Identity::Agent { id: "a".into() }, TimezoneValue::Null).unwrap_err();
    assert_eq!(err.status, 403);
    let err = check_zone_known(&"Mars/Olympus".to_string(), false).unwrap_err();
    assert_eq!(err.message, "Mars/Olympus is not a valid IANA timezone name");
    assert!(check_zone_known(&"UTC".to_string(), true).is_ok());
}

#[test]
fn read_routes_need_a_live_agent() {
    let mut reg = AgentRegistry::new();
    reg.register_root(
        "root".into(),
        RegistryEntry::Live(AgentEntry {
            identity: AgentIdentity { config: cfg(None, PermissionClass::Normal), agent_dir: None },
            agent: LiveAgent { state: AgentState::Idle, state_since: 0, auth_token_hash: "h".into(), activity: String::new() },
            subagent_ids: vec![],
        }),
    )
    .unwrap();
    reg.register(
        "f1".into(),
        RegistryEntry::Faulted(FaultedEntry {
            identity: AgentIdentity { config: cfg(Some("root"), PermissionClass::Guest), agent_dir: None },
            subagent_ids: vec![],
            reason: "x".into(),
            at: 0,
        }),
    );
    let live = require_live(&reg, &"root".into(), "agent is faulted; no status").unwrap();
    let view = permissions_of(live);
    assert_eq!((view.max_depth, view.workspace_root.as_str(), view.permission_class.as_str()), (1, "/w/r", "normal"));
    assert!(view.created_by.is_none());
    let err = require_live(&reg, &"f1".into(), "agent is faulted; no status").unwrap_err();
    assert_eq!((err.status, err.message.as_str()), (409, "agent is faulted; no status"));
    let err = require_live(&reg, &"zz".into(), "agent is faulted; no status").unwrap_err();
    assert_eq!((err.status, err.message.as_str()), (404, "agent not found"));
}

#[test]
fn timezone_name_validation_rejects_typos() {
    assert!(timezone_name_valid("Asia/Shanghai"));
    assert!(timezone_name_valid("America/New_York"));
    assert!(timezone_name_valid("UTC"));
    assert!(!timezone_name_valid("Mars/Olympus"));
    assert!(!timezone_name_valid(""));
}

#[test]
fn timezone_writes_resolve_the_zone() {
    let op = Identity::Operator;
    assert_eq!(timezone_write(&op, TimezoneValue::Str("Asia/Shanghai".into())).unwrap().as_deref(), Some("Asia/Shanghai"));
    assert_eq!(timezone_write(&op, TimezoneValue::Null).unwrap(), None);
    let err = timezone_write(&op, TimezoneValue::Str("Mars/Olympus".into())).unwrap_err();
    assert_eq!((err.status, err.message.as_str()), (400, "Mars/Olympus is not a valid IANA timezone name"));
    let err = timezone_write(&op, TimezoneValue::Other("42".into())).unwrap_err();
    assert_eq!(err.message, "timezone must be an IANA name string or null, got 42");
    let err = timezone_write(&Identity::Agent { id: "a".into() }, TimezoneValue::Null).unwrap_err();
    assert_eq!(err.status, 403);
}
