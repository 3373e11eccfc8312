use kallip_tagma::auth::Identity;
use kallip_tagma::config::{AgentConfig, AgentIdentity, AgentState, DelegationMode, PermissionClass};
use kallip_tagma::exec_policy::{policy_neighbours, policy_verdict};
use kallip_tagma::registry::{AgentEntry, AgentRegistry, FaultedEntry, LiveAgent, RegistryEntry};

fn config(created_by: Option<&str>) -> AgentConfig {
    AgentConfig {
        created_by: created_by.map(|s| s.to_string()),
        role: "r".to_string(),
        description: String::new(),
        workspace_root: "/w".to_string(),
        permissions_class: PermissionClass::Normal,
        profile_set: None,
        delegation_mode: DelegationMode::CarveOut,
        max_depth: 3,
    }
}

fn live(created_by: Option<&str>, token: &str) -> RegistryEntry {
    RegistryEntry::Live(AgentEntry {
        identity: AgentIdentity { config: config(created_by), agent_dir: None },
        agent: LiveAgent { state: AgentState::Idle, state_since: 0, auth_token_hash: token.to_string(), activity: String::new() },
        subagent_ids: Vec::new(),
    })
}

fn faulted(created_by: Option<&str>) -> RegistryEntry {
    RegistryEntry::Faulted(FaultedEntry {
        identity: AgentIdentity { config: config(created_by), agent_dir: None },
        subagent_ids: Vec::new(),
        reason: "x".to_string(),
        at: 0,
    })
}

/// root ← lead ← {w1 (live), w2 (faulted), w3 (live)}; root ← gone (faulted) ← orphan
fn registry() -> AgentRegistry {
    let mut reg = AgentRegistry::new();
    reg.register_root("root".into(), live(None, "h0")).unwrap();
    reg.register("lead".into(), live(Some("root"), "h1"));
    reg.register("w1".into(), live(Some("lead"), "h2"));
    reg.register("w2".into(), faulted(Some("lead")));
    reg.register("w3".into(), live(Some("lead"), "h3"));
    reg.register("gone".into(), faulted(Some("root")));
    reg.register("orphan".into(), live(Some("gone"), "h4"));
    reg
}

#[test]
fn neighbours_are_the_live_supervisor_and_live_subagents() {
    let reg = registry();
    let n = policy_neighbours(&reg, &Identity::Operator, &"lead".to_string()).unwrap();
    assert_eq!(n.parent.as_deref(), Some("root"));
    assert_eq!(n.children, vec!["w1".to_string(), "w3".to_string()]);
    let n = policy_neighbours(&reg, &Identity::Agent { id: "root".into() }, &"orphan".to_string()).unwrap();
    assert_eq!(n.parent, None);
    assert!(n.children.is_empty());
    let n = policy_neighbours(&reg, &Identity::Operator, &"root".to_string()).unwrap();
    assert_eq!(n.parent, None);
    assert_eq!(n.children, vec!["lead".to_string()]);
}

#[test]
fn policy_writes_need_a_superior_and_a_live_target() {
    let reg = registry();
    let err = policy_neighbours(&reg, &Identity::Operator, &"w2".to_string()).unwrap_err();
    assert_eq!((err.status, err.message.as_str()), (409, "agent is faulted; exec_policy not available"));
    assert!(policy_neighbours(&reg, &Identity::Agent { id: "w1".into() }, &"lead".to_string()).is_err());
    assert!(policy_neighbours(&reg, &Identity::Agent { id: "lead".into() }, &"w1".to_string()).is_ok());
    assert!(policy_neighbours(&reg, &Identity::Operator, &"nobody".to_string()).is_err());
}

#[test]
fn verdict_reports_the_first_failing_check() {
    assert!(policy_verdict(None, None, &vec![("c1".to_string(), None)]).is_ok());
    let err = policy_verdict(Some("bad key".to_string()), Some(vec!["x".to_string()]), &vec![]).unwrap_err();
    assert_eq!((err.status, err.message.as_str()), (400, "bad key"));
    let err = policy_verdict(None, Some(vec!["rm: allow > ask".to_string(), "dd: allow > deny".to_string()]), &vec![])
        .unwrap_err();
    assert_eq!((err.status, err.message.as_str()), (409, "exec_policy violations: rm: allow > ask; dd: allow > deny"));
    let children = vec![
        ("c1".to_string(), None),
        ("c2".to_string(), Some(vec!["git: deny < allow".to_string()])),
        ("c3".to_string(), Some(vec!["other".to_string()])),
    ];
    let err = policy_verdict(None, None, &children).unwrap_err();
    assert_eq!((err.status, err.message.as_str()), (409, "child c2: git: deny < allow"));
}
