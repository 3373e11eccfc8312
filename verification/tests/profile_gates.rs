use kallip_tagma::config::{AgentConfig, AgentIdentity, AgentState, DelegationMode, PermissionClass};
use kallip_tagma::profiles::{
    check_stranded, dangling_bindings, delete_set_gate, is_valid_set_name, normalize_default, plan_apply,
    rebind_unbound, remove_set, resolve_with_fallback, scan_references, set_default, sweep_gate, DeleteStep,
    Modality, Profile, ProfileConfig, ProfileSet, Provider, SetReference,
};
use kallip_tagma::registry::{AgentEntry, AgentRegistry, FaultedEntry, LiveAgent, RegistryEntry};

fn profile(id: &str) -> Profile {
    Profile {
        id: id.into(),
        endpoint: "main".into(),
        model: "m".into(),
        max_context_window: 8,
        store: None,
        effort: None,
        modalities: vec![Modality::Text],
    }
}

fn config() -> ProfileConfig {
    ProfileConfig {
        sets: vec![
            ProfileSet { name: "default".into(), description: None, profiles: vec![profile("p1")] },
            ProfileSet { name: "alt".into(), description: Some("cheap".into()), profiles: vec![profile("p2")] },
        ],
        default: "default".into(),
        parking: vec![],
        endpoints: vec![(
            "main".into(),
            Provider { id: "main".into(), family: "deepseek".into(), api_key: "k".into(), base_url: None },
        )],
    }
}

fn cfg(created_by: Option<&str>, role: &str, set: Option<&str>) -> AgentConfig {
    AgentConfig {
        created_by: created_by.map(|s| s.to_string()),
        role: role.to_string(),
        description: String::new(),
        workspace_root: "/w".into(),
        permissions_class: PermissionClass::Normal,
        profile_set: set.map(|s| s.to_string()),
        delegation_mode: DelegationMode::CarveOut,
        max_depth: 2,
    }
}

fn live(c: AgentConfig, token: &str) -> RegistryEntry {
    RegistryEntry::Live(AgentEntry {
        identity: AgentIdentity { config: c, agent_dir: None },
        agent: LiveAgent { state: AgentState::Idle, state_since: 0, auth_token_hash: token.into(), activity: String::new() },
        subagent_ids: vec![],
    })
}

fn registry() -> AgentRegistry {
    let mut reg = AgentRegistry::new();
    reg.register_root("root".into(), live(cfg(None, "root", None), "h0")).unwrap();
    reg.register("a1".into(), live(cfg(Some("root"), "dev", Some("alt")), "h1"));
    reg.register("a2".into(), live(cfg(Some("root"), "scout", Some("gone")), "h2"));
    reg.register(
        "a3".into(),
        RegistryEntry::Faulted(FaultedEntry {
            identity: AgentIdentity { config: cfg(Some("root"), "old", Some("alt")), agent_dir: None },
            subagent_ids: vec![],
            reason: "r".into(),
            at: 0,
        }),
    );
    reg
}

#[test]
fn set_names_are_plain_tokens() {
    assert!(is_valid_set_name("fast_v2-b"));
    assert!(!is_valid_set_name("bad name!"));
    assert!(!is_valid_set_name(""));
}

#[test]
fn defaults_resolve_or_refuse() {
    let c = config();
    assert_eq!(normalize_default(&c.sets, &"alt".to_string()).unwrap(), "alt");
    assert_eq!(normalize_default(&c.sets, &"ghost".to_string()).unwrap_err(), "default set name 'ghost' does not match any set");
    assert!(normalize_default(&c.sets, &String::new()).is_err());
    assert_eq!(normalize_default(&c.sets[..1].to_vec(), &String::new()).unwrap(), "default");
    assert_eq!(normalize_default(&vec![], &String::new()).unwrap(), "");
}

#[test]
fn the_default_marker_moves_only_to_an_existing_set() {
    let mut c = config();
    set_default(&mut c, &"alt".into()).unwrap();
    assert_eq!(c.default, "alt");
    assert_eq!(c.sets.len(), 2);
    let err = set_default(&mut c, &"ghost".into()).unwrap_err();
    assert_eq!((err.status, err.message.as_str()), (400, "unknown set 'ghost'; available: default, alt"));
    assert_eq!(c.default, "alt");
}

#[test]
fn stranded_bindings_refuse_unless_forced() {
    let reg = registry();
    let stranded = dangling_bindings(&reg, &config());
    assert_eq!(stranded, vec!["a2 → 'gone'"]);
    let err = check_stranded(stranded.clone(), false).unwrap_err();
    assert_eq!(err.status, 409);
    assert_eq!(err.dangling, Some(stranded.clone()));
    assert!(err.message.starts_with("config drops sets still bound by agents: a2 → 'gone'"));
    assert!(check_stranded(stranded, true).is_ok());
    assert!(check_stranded(vec![], false).is_ok());
}

#[test]
fn set_removal_is_gated() {
    let c = config();
    let reg = registry();
    let (refs, root_bound) = scan_references(&reg, &"alt".into());
    let ids: Vec<&str> = refs.iter().map(|r| r.id.as_str()).collect();
    assert_eq!(ids, vec!["a1", "a3"]);
    assert!(!root_bound);
    assert_eq!(delete_set_gate(&c, &"ghost".into(), &refs, false, None).unwrap_err().status, 404);
    assert_eq!(delete_set_gate(&c, &"default".into(), &vec![], false, None).unwrap_err().status, 409);
    let err = delete_set_gate(&c, &"alt".into(), &vec![], true, None).unwrap_err();
    assert!(err.message.starts_with("the root agent is bound to this set"));
    let err = delete_set_gate(&c, &"alt".into(), &refs, false, None).unwrap_err();
    assert_eq!(err.message, "set 'alt' is still bound by: a1, a3; pass force=true to interrupt and remove");
    assert_eq!(delete_set_gate(&c, &"alt".into(), &refs, false, Some(true)).unwrap(), DeleteStep::InterruptFirst);
    assert_eq!(delete_set_gate(&c, &"alt".into(), &vec![], false, None).unwrap(), DeleteStep::Remove);
    assert!(sweep_gate(&refs, &refs, false).is_ok());
    let newcomer = vec![SetReference { id: "a9".into(), role: "x".into() }];
    assert_eq!(sweep_gate(&refs, &newcomer, false).unwrap_err().status, 409);
    let mut c2 = config();
    remove_set(&mut c2, &"alt".into());
    let names: Vec<&str> = c2.sets.iter().map(|s| s.name.as_str()).collect();
    assert_eq!(names, vec!["default"]);
}

#[test]
fn bindings_resolve_with_the_root_fallback() {
    let c = config();
    assert_eq!(resolve_with_fallback(&c, &Some("alt".into()), false).as_deref(), Some("alt"));
    assert_eq!(resolve_with_fallback(&c, &Some("gone".into()), false), None);
    assert_eq!(resolve_with_fallback(&c, &Some("gone".into()), true).as_deref(), Some("default"));
    assert_eq!(resolve_with_fallback(&c, &None, false).as_deref(), Some("default"));
}

#[test]
fn apply_signals_live_agents_and_rebinds_unbound_ones() {
    let mut reg = registry();
    let plan = plan_apply(&reg, &config());
    let targets: Vec<(&str, &str)> = plan.targets.iter().map(|(a, b)| (a.as_str(), b.as_str())).collect();
    assert_eq!(targets, vec![("root", "default"), ("a1", "alt")]);
    assert_eq!(plan.rebinds, vec![("root".to_string(), "default".to_string())]);
    assert_eq!(plan.skipped, 2, "the stranded live agent and the faulted entry");
    rebind_unbound(&mut reg, &plan.rebinds);
    let root = reg.get(&"root".to_string()).unwrap();
    assert_eq!(root.identity().config.profile_set.as_deref(), Some("default"));
    assert_eq!(reg.get(&"a2".to_string()).unwrap().identity().config.profile_set.as_deref(), Some("gone"));
}
