use kallip_tagma::auth::Identity;
use kallip_tagma::config::{AgentConfig, AgentIdentity, AgentState, DelegationMode, PermissionClass};
use kallip_tagma::registry::{
    AgentEntry, AgentRegistry, FaultedEntry, LiveAgent, RegistryEntry, SenderRelation,
};

fn config(created_by: Option<&str>, role: &str) -> AgentConfig {
    AgentConfig {
        created_by: created_by.map(|s| s.to_string()),
        role: role.to_string(),
        description: String::new(),
        workspace_root: format!("/work/{role}"),
        permissions_class: PermissionClass::Normal,
        profile_set: None,
        delegation_mode: DelegationMode::CarveOut,
        max_depth: 3,
    }
}

fn live(created_by: Option<&str>, role: &str, token: &str) -> RegistryEntry {
    RegistryEntry::Live(AgentEntry {
        identity: AgentIdentity { config: config(created_by, role), agent_dir: None },
        agent: LiveAgent {
            state: AgentState::Idle,
            state_since: 0,
            auth_token_hash: token.to_string(),
            activity: String::new(),
        },
        subagent_ids: Vec::new(),
    })
}

fn faulted(created_by: Option<&str>, role: &str) -> RegistryEntry {
    RegistryEntry::Faulted(FaultedEntry {
        identity: AgentIdentity { config: config(created_by, role), agent_dir: None },
        subagent_ids: Vec::new(),
        reason: "restore failed".to_string(),
        at: 0,
    })
}

/// root ← sup ← leaf, plus an unrelated peer under the root.
fn tree() -> AgentRegistry {
    let mut reg = AgentRegistry::new();
    reg.register_root("root".into(), live(None, "root", "h-root")).unwrap();
    reg.register("sup".into(), live(Some("root"), "sup", "h-sup"));
    reg.register("leaf".into(), live(Some("sup"), "leaf", "h-leaf"));
    reg.register("peer".into(), live(Some("root"), "peer", "h-peer"));
    reg
}

#[test]
fn register_then_unregister_restores_the_registry() {
    let mut reg = tree();
    let before: Vec<(String, usize)> =
        reg.iter().iter().map(|(k, e)| (k.clone(), e.subagent_ids().len())).collect();
    reg.register("temp".into(), live(Some("sup"), "temp", "h-temp"));
    assert_eq!(reg.get(&"sup".to_string()).unwrap().subagent_ids().len(), 2);
    assert_eq!(reg.get_agent_id_by_token(&"h-temp".to_string()), Some(&"temp".to_string()));
    assert!(reg.unregister(&"temp".to_string()).is_some());
    let after: Vec<(String, usize)> =
        reg.iter().iter().map(|(k, e)| (k.clone(), e.subagent_ids().len())).collect();
    assert_eq!(before, after);
    assert_eq!(reg.get_agent_id_by_token(&"h-temp".to_string()), None);
    assert!(reg.unregister(&"temp".to_string()).is_none());
}

#[test]
fn the_tagma_owns_exactly_one_root() {
    let mut reg = tree();
    let err = reg.register_root("root2".into(), live(None, "root", "h-r2")).unwrap_err();
    assert_eq!(err.status, 409);
    let err = reg.register_root("x".into(), live(Some("root"), "x", "h-x")).unwrap_err();
    assert_eq!(err.status, 500);
    let (id, _) = reg.root_agent().unwrap();
    assert_eq!(id, "root");
    assert_eq!(reg.len(), 4);
}

#[test]
fn faulted_entries_are_never_token_indexed() {
    let mut reg = tree();
    reg.register("broken".into(), faulted(Some("root"), "broken"));
    assert!(reg.contains_key(&"broken".to_string()));
    assert_eq!(reg.get(&"broken".to_string()).unwrap().state_for_summary(), AgentState::Faulted);
    assert_eq!(reg.get_agent_id_by_token(&"h-root".to_string()), Some(&"root".to_string()));
}

#[test]
fn supervisor_chains_end_at_the_root() {
    let reg = tree();
    let chain = reg.supervisor_chain_ids(&"leaf".to_string()).unwrap();
    assert_eq!(chain, vec!["leaf", "sup", "root"]);
    let err = reg.supervisor_chain_ids(&"ghost".to_string()).unwrap_err();
    assert_eq!(err.status, 403);
}

#[test]
fn a_broken_chain_is_refused() {
    let mut reg = AgentRegistry::new();
    reg.register("orphan".into(), live(Some("gone"), "orphan", "h-o"));
    let err = reg.supervisor_chain_ids(&"orphan".to_string()).unwrap_err();
    assert_eq!((err.status, err.message.as_str()), (403, "broken supervisor chain"));
}

#[test]
fn relations_follow_the_chains() {
    let reg = tree();
    let leaf = "leaf".to_string();
    let sup = "sup".to_string();
    let root = "root".to_string();
    let peer = "peer".to_string();
    assert_eq!(reg.relation_of(None, &leaf), SenderRelation::Operator);
    assert_eq!(reg.relation_of(Some(&leaf), &leaf), SenderRelation::Same);
    assert_eq!(reg.relation_of(Some(&root), &leaf), SenderRelation::Superior);
    assert_eq!(reg.relation_of(Some(&leaf), &sup), SenderRelation::Subordinate);
    assert_eq!(reg.relation_of(Some(&peer), &leaf), SenderRelation::Peer);
    assert_eq!(reg.relation_of(Some(&"ghost".to_string()), &leaf), SenderRelation::Unknown);
}

#[test]
fn only_superiors_manage_an_agent() {
    let reg = tree();
    let leaf = "leaf".to_string();
    assert!(reg.require_superior(&Identity::Operator, &leaf).is_ok());
    assert!(reg.require_superior(&Identity::Agent { id: "root".into() }, &leaf).is_ok());
    assert!(reg.require_superior(&Identity::Agent { id: "sup".into() }, &leaf).is_ok());
    let err = reg.require_superior(&Identity::Agent { id: "peer".into() }, &leaf).unwrap_err();
    assert_eq!(err.status, 403);
    for caller in ["root", "sup", "peer"] {
        let c = caller.to_string();
        let gate = reg.require_superior(&Identity::Agent { id: c.clone() }, &leaf).is_ok();
        let rel = reg.relation_of(Some(&c), &leaf) == SenderRelation::Superior;
        assert_eq!(gate, rel, "{caller}");
    }
}

#[test]
fn subagent_slots_are_capped() {
    let mut reg = tree();
    reg.reserve_subagent_slot(&"sup".to_string(), "c2".into(), 2).unwrap();
    let err = reg.reserve_subagent_slot(&"sup".to_string(), "c3".into(), 2).unwrap_err();
    assert_eq!(err.status, 503);
    assert_eq!(err.message, "supervisor has 2/2 subagents, cannot create more");
    let err = reg.reserve_subagent_slot(&"ghost".to_string(), "c4".into(), 2).unwrap_err();
    assert_eq!((err.status, err.message.as_str()), (404, "supervisor not found"));
}

#[test]
fn activity_lands_only_on_live_agents() {
    let mut reg = tree();
    reg.register("broken".into(), faulted(Some("root"), "broken"));
    assert!(reg.set_activity(&"leaf".to_string(), "reading".into()));
    assert!(!reg.set_activity(&"broken".to_string(), "x".into()));
    assert!(!reg.set_activity(&"ghost".to_string(), "x".into()));
    match reg.get(&"leaf".to_string()).unwrap() {
        RegistryEntry::Live(e) => assert_eq!(e.agent.activity, "reading"),
        RegistryEntry::Faulted(_) => panic!("leaf is live"),
    }
}

#[test]
fn in_place_edits_land_in_the_registry() {
    let mut reg = tree();
    {
        let e = reg.get_mut(&"leaf".to_string()).unwrap();
        e.identity_mut().config.description = "edited".into();
        e.subagent_ids_mut().push("phantom".into());
        if let Some(live) = e.as_live_mut() {
            live.agent.activity = "busy work".into();
        }
    }
    let e = reg.get(&"leaf".to_string()).unwrap();
    assert_eq!(e.identity().config.description, "edited");
    assert_eq!(e.subagent_ids(), &vec!["phantom".to_string()]);
    assert_eq!(e.as_live().unwrap().agent.activity, "busy work");
    assert!(reg.get_mut(&"ghost".to_string()).is_none());
    let mut f = faulted(Some("root"), "x");
    assert!(f.as_live_mut().is_none());
}

#[test]
fn pre_reserved_children_are_not_linked_twice() {
    let mut reg = tree();
    reg.reserve_subagent_slot(&"sup".to_string(), "kid".into(), 5).unwrap();
    reg.register_no_subagent_push("kid".into(), live(Some("sup"), "kid", "h-kid"));
    assert_eq!(reg.get(&"sup".to_string()).unwrap().subagent_ids().len(), 2);
    assert_eq!(reg.get_agent_id_by_token(&"h-kid".to_string()), Some(&"kid".to_string()));
}

#[test]
fn draining_empties_the_registry_in_order() {
    let mut reg = tree();
    let all = reg.drain();
    let ids: Vec<&str> = all.iter().map(|(k, _)| k.as_str()).collect();
    assert_eq!(ids, vec!["root", "sup", "leaf", "peer"]);
    assert_eq!(reg.len(), 0);
    assert_eq!(reg.get_agent_id_by_token(&"h-root".to_string()), None);
}

#[test]
fn relabels_are_for_the_direct_supervisor() {
    let reg = tree();
    let leaf = "leaf".to_string();
    assert!(reg.require_direct_supervisor(&Identity::Operator, &leaf).is_ok());
    assert!(reg.require_direct_supervisor(&Identity::Agent { id: "sup".into() }, &leaf).is_ok());
    let err = reg.require_direct_supervisor(&Identity::Agent { id: "root".into() }, &leaf).unwrap_err();
    assert_eq!((err.status, err.message.as_str()), (403, "only the direct supervisor may change this agent's metadata"));
    let err = reg.require_direct_supervisor(&Identity::Operator, &"ghost".to_string()).unwrap_err();
    assert_eq!((err.status, err.message.as_str()), (404, "agent ghost not found"));
    let err = reg.require_self(&Identity::Operator, &leaf).unwrap_err();
    assert_eq!(err.message, "only the agent itself may send as that agent");
}
