use kallip_tagma::agents::{
    apply_metadata, check_metadata_request, check_spawn_request, get_root_agent, handoff_return,
    interrupt_check, is_within, list_agents, lock_visibility, summarize, LockState, parse_delegation_mode, remove_check, same_path,
    update_activity, update_duty, validate_subagent_request, DutyStatus, MaxToolRounds, UpdateDutyRequest,
};
use kallip_tagma::auth::{verify_agent, Identity};
use kallip_tagma::config::{
    parse_requested_class, AgentConfig, AgentIdentity, AgentState, DelegationMode, PermissionClass,
};
use kallip_tagma::registry::{AgentEntry, AgentRegistry, FaultedEntry, LiveAgent, RegistryEntry};
use kallip_tagma::text::MAX_ACTIVITY_CHARS;

fn config(created_by: Option<&str>, role: &str, ws: &str) -> AgentConfig {
    AgentConfig {
        created_by: created_by.map(|s| s.to_string()),
        role: role.to_string(),
        description: String::new(),
        workspace_root: ws.to_string(),
        permissions_class: PermissionClass::Normal,
        profile_set: None,
        delegation_mode: DelegationMode::CarveOut,
        max_depth: 2,
    }
}

fn live_cfg(c: AgentConfig, token: &str, state: AgentState) -> RegistryEntry {
    RegistryEntry::Live(AgentEntry {
        identity: AgentIdentity { config: c, agent_dir: None },
        agent: LiveAgent { state, state_since: 7, auth_token_hash: token.to_string(), activity: String::new() },
        subagent_ids: Vec::new(),
    })
}

fn faulted_cfg(c: AgentConfig) -> RegistryEntry {
    RegistryEntry::Faulted(FaultedEntry {
        identity: AgentIdentity { config: c, agent_dir: None },
        subagent_ids: Vec::new(),
        reason: "restore failed".to_string(),
        at: 9,
    })
}

/// root (/w) ← dev (/w/dev, idle) ; root ← busy (/w/busy) ; root ← broken (faulted)
fn registry() -> AgentRegistry {
    let mut reg = AgentRegistry::new();
    reg.register_root("root".into(), live_cfg(config(None, "root", "/w"), "h0", AgentState::Idle)).unwrap();
    reg.register("dev".into(), live_cfg(config(Some("root"), "dev", "/w/dev"), "h1", AgentState::Idle));
    reg.register("busy".into(), live_cfg(config(Some("root"), "busy", "/w/busy"), "h2", AgentState::Busy));
    reg.register("broken".into(), faulted_cfg(config(Some("root"), "broken", "/w/broken")));
    reg
}

fn op() -> Identity {
    Identity::Operator
}

fn agent(id: &str) -> Identity {
    Identity::Agent { id: id.to_string() }
}

#[test]
fn spawn_requests_are_checked_before_the_registry() {
    let role = "scout".to_string();
    let err = check_spawn_request(&None, None, &None, &role).unwrap_err();
    assert_eq!(err.status, 409);
    let err = check_spawn_request(&Some("root".into()), Some(MaxToolRounds::Limited(0)), &None, &role).unwrap_err();
    assert_eq!((err.status, err.message.as_str()), (400, "max_tool_rounds must be greater than zero"));
    let err = check_spawn_request(&Some("root".into()), None, &Some("sideways".into()), &role).unwrap_err();
    assert_eq!(err.message, "unknown delegation mode 'sideways' (expected carve_out or full_handoff)");
    let err = check_spawn_request(&Some("root".into()), None, &None, &"  ".to_string()).unwrap_err();
    assert_eq!((err.status, err.message.as_str()), (400, "subagent requires a non-empty 'role'"));
    let (sup, mode) =
        check_spawn_request(&Some("root".into()), Some(MaxToolRounds::Limited(3)), &Some("full_handoff".into()), &role)
            .unwrap();
    assert_eq!((sup.as_str(), mode), ("root", DelegationMode::FullHandoff));
    assert_eq!(parse_delegation_mode(&None).unwrap(), DelegationMode::CarveOut);
}

#[test]
fn requested_classes_parse_lowercase_spellings() {
    assert_eq!(parse_requested_class(&None).unwrap(), None);
    assert_eq!(parse_requested_class(&Some("guest".into())).unwrap(), Some(PermissionClass::Guest));
    let err = parse_requested_class(&Some("Root".into())).unwrap_err();
    assert_eq!(err.status, 400);
}

#[test]
fn workspaces_nest_by_components() {
    assert!(is_within(&"/w/dev/x".into(), &"/w/dev".into()));
    assert!(is_within(&"/w//dev/".into(), &"/w/dev".into()));
    assert!(!is_within(&"/w/devx".into(), &"/w/dev".into()));
    assert!(!is_within(&"/w".into(), &"/w/dev".into()));
    assert!(same_path(&"/w/dev/".into(), &"/w/dev".into()));
    assert!(!same_path(&"/w/dev".into(), &"w/dev".into()));
}

#[test]
fn subagent_validation_walks_the_rules_in_order() {
    let reg = registry();
    let ws: Result<String, String> = Ok("/w/dev/sub".into());
    let ok = validate_subagent_request(&reg, &op(), &"dev".into(), &ws, None, DelegationMode::CarveOut, PermissionClass::Normal)
        .unwrap();
    assert_eq!(ok, ("/w/dev/sub".to_string(), PermissionClass::Normal));
    let err = validate_subagent_request(&reg, &op(), &"ghost".into(), &ws, None, DelegationMode::CarveOut, PermissionClass::Normal)
        .unwrap_err();
    assert_eq!((err.status, err.message.as_str()), (404, "supervisor agent ghost not found"));
    let err = validate_subagent_request(&reg, &agent("busy"), &"dev".into(), &ws, None, DelegationMode::CarveOut, PermissionClass::Normal)
        .unwrap_err();
    assert_eq!(err.status, 403);
    let err = validate_subagent_request(&reg, &op(), &"broken".into(), &ws, None, DelegationMode::CarveOut, PermissionClass::Normal)
        .unwrap_err();
    assert_eq!((err.status, err.message.as_str()), (409, "supervisor is faulted; cannot spawn subagents"));
    let outside: Result<String, String> = Ok("/elsewhere".into());
    let err = validate_subagent_request(&reg, &op(), &"dev".into(), &outside, None, DelegationMode::CarveOut, PermissionClass::Normal)
        .unwrap_err();
    assert_eq!((err.status, err.message.as_str()), (403, "workspace_root must be within supervisor's workspace"));
    let bad: Result<String, String> = Err("no such directory".into());
    let err = validate_subagent_request(&reg, &op(), &"dev".into(), &bad, None, DelegationMode::CarveOut, PermissionClass::Normal)
        .unwrap_err();
    assert_eq!((err.status, err.message.as_str()), (400, "invalid workspace_root: no such directory"));
    let err = validate_subagent_request(&reg, &op(), &"dev".into(), &ws, None, DelegationMode::FullHandoff, PermissionClass::Normal)
        .unwrap_err();
    assert_eq!(err.status, 400);
    let err = validate_subagent_request(&reg, &op(), &"root".into(), &Ok("/w".into()), None, DelegationMode::FullHandoff, PermissionClass::Normal)
        .unwrap_err();
    assert_eq!(err.status, 409, "the root already has children");
    let err = validate_subagent_request(&reg, &op(), &"dev".into(), &ws, Some(PermissionClass::Normal), DelegationMode::CarveOut, PermissionClass::Guest)
        .unwrap_err();
    assert_eq!((err.status, err.message.as_str()), (403, "requested permission class normal exceeds tier ceiling guest"));
}

#[test]
fn activity_is_self_reported_and_capped() {
    let mut reg = registry();
    let long = "y".repeat(MAX_ACTIVITY_CHARS + 5);
    update_activity(&mut reg, &agent("dev"), &"dev".into(), long).unwrap();
    match reg.get(&"dev".to_string()).unwrap() {
        RegistryEntry::Live(e) => assert_eq!(e.agent.activity.chars().count(), MAX_ACTIVITY_CHARS),
        RegistryEntry::Faulted(_) => panic!("dev is live"),
    }
    let err = update_activity(&mut reg, &agent("busy"), &"dev".into(), "x".into()).unwrap_err();
    assert_eq!(err.status, 403);
    let err = update_activity(&mut reg, &op(), &"broken".into(), "x".into()).unwrap_err();
    assert_eq!((err.status, err.message.as_str()), (409, "agent is faulted; cannot report activity"));
    let err = update_activity(&mut reg, &op(), &"ghost".into(), "x".into()).unwrap_err();
    assert_eq!((err.status, err.message.as_str()), (404, "agent not found"));
}

#[test]
fn removal_refuses_the_root_busy_agents_and_parents() {
    let mut reg = registry();
    let err = remove_check(&mut reg, &op(), &"root".into()).unwrap_err();
    assert_eq!((err.status, err.message.as_str()), (409, "root agent is tagma-managed and cannot be removed"));
    let err = remove_check(&mut reg, &op(), &"busy".into()).unwrap_err();
    assert_eq!((err.status, err.message.as_str()), (409, "agent is busy, interrupt it first"));
    let err = remove_check(&mut reg, &agent("busy"), &"dev".into()).unwrap_err();
    assert_eq!(err.status, 403);
    let gone = remove_check(&mut reg, &agent("root"), &"dev".into()).unwrap();
    assert_eq!(gone.identity().config.role, "dev");
    assert!(!reg.contains_key(&"dev".to_string()));
    assert_eq!(reg.get(&"root".to_string()).unwrap().subagent_ids().len(), 2);
    let gone = remove_check(&mut reg, &op(), &"broken".into()).unwrap();
    assert_eq!(gone.state_for_summary(), AgentState::Faulted);
}

#[test]
fn interrupts_need_a_live_target() {
    let reg = registry();
    assert!(interrupt_check(&reg, &op(), &"busy".into()).is_ok());
    let err = interrupt_check(&reg, &op(), &"broken".into()).unwrap_err();
    assert_eq!((err.status, err.message.as_str()), (409, "agent is faulted; nothing to interrupt"));
    assert_eq!(interrupt_check(&reg, &agent("dev"), &"busy".into()).unwrap_err().status, 403);
}

#[test]
fn listings_filter_by_supervisor_and_carry_duty() {
    let reg = registry();
    let duty = vec![("dev".to_string(), DutyStatus::OffDuty)];
    let all = list_agents(&reg, &None, &duty);
    let ids: Vec<&str> = all.iter().map(|s| s.id.as_str()).collect();
    assert_eq!(ids, vec!["root", "dev", "busy", "broken"]);
    assert_eq!(all[1].duty, DutyStatus::OffDuty);
    assert_eq!(all[2].duty, DutyStatus::OnDuty);
    assert_eq!(all[3].state, AgentState::Faulted);
    assert_eq!(all[3].faulted_reason.as_deref(), Some("restore failed"));
    let kids = list_agents(&reg, &Some("root".into()), &duty);
    assert_eq!(kids.len(), 3);
    assert!(list_agents(&reg, &Some("dev".into()), &duty).is_empty());
}

#[test]
fn root_lookup_and_duty_updates() {
    let reg = registry();
    let root = get_root_agent(&reg, DutyStatus::OnDuty).unwrap();
    assert_eq!(root.id, "root");
    let err = get_root_agent(&AgentRegistry::new(), DutyStatus::OnDuty).unwrap_err();
    assert_eq!(err.status, 500);
    let s = update_duty(&reg, &op(), &"dev".into(), UpdateDutyRequest { status: DutyStatus::OffDuty }).unwrap();
    assert_eq!((s.id.as_str(), s.duty), ("dev", DutyStatus::OffDuty));
    let err = update_duty(&reg, &agent("dev"), &"dev".into(), UpdateDutyRequest { status: DutyStatus::OnDuty }).unwrap_err();
    assert_eq!(err.status, 403);
    let err = update_duty(&reg, &op(), &"ghost".into(), UpdateDutyRequest { status: DutyStatus::OnDuty }).unwrap_err();
    assert_eq!(err.status, 404);
}

#[test]
fn relabels_change_only_the_given_fields() {
    let mut reg = registry();
    assert_eq!(check_metadata_request(&Some(" ".into()), &None).unwrap_err().message, "'role' must not be empty");
    assert_eq!(check_metadata_request(&None, &None).unwrap_err().message, "no fields to update");
    assert!(check_metadata_request(&None, &Some("d".into())).is_ok());
    apply_metadata(&mut reg, &"dev".into(), &None, &Some("builds".into())).unwrap();
    let c = &reg.get(&"dev".to_string()).unwrap().identity().config;
    assert_eq!((c.role.as_str(), c.description.as_str()), ("dev", "builds"));
    assert_eq!(apply_metadata(&mut reg, &"ghost".into(), &None, &None).unwrap_err().status, 404);
}

#[test]
fn full_handoff_children_return_their_workspace() {
    let mut c = config(Some("root"), "pilot", "/w");
    c.delegation_mode = DelegationMode::FullHandoff;
    let e = live_cfg(c, "h9", AgentState::Idle);
    assert_eq!(handoff_return(&e), Some(("root".to_string(), "/w".to_string())));
    let e = live_cfg(config(Some("root"), "dev", "/w/dev"), "h8", AgentState::Idle);
    assert_eq!(handoff_return(&e), None);
}

#[test]
fn verification_matches_the_bearer() {
    assert_eq!(verify_agent(&agent("dev"), &"dev".into()).unwrap(), 204);
    let err = verify_agent(&agent("dev"), &"root".into()).unwrap_err();
    assert_eq!((err.status, err.message.as_str()), (401, "agent id does not match token"));
    assert_eq!(verify_agent(&op(), &"dev".into()).unwrap_err().status, 401);
}

#[test]
fn lock_visibility_expects_locks_from_live_normal_agents_only() {
    let dev = live_cfg(config(Some("root"), "dev", "/w/dev"), "h1", AgentState::Idle);
    assert_eq!(lock_visibility(&dev, true), Some(LockState::Held));
    assert_eq!(lock_visibility(&dev, false), Some(LockState::Missing));
    let broken = faulted_cfg(config(Some("root"), "broken", "/w/broken"));
    assert_eq!(lock_visibility(&broken, false), None);
    let mut guest_cfg = config(Some("root"), "g", "/w/g");
    guest_cfg.permissions_class = PermissionClass::Guest;
    let guest = live_cfg(guest_cfg, "h9", AgentState::Busy);
    assert_eq!(lock_visibility(&guest, false), None);
    let stuck = live_cfg(config(Some("root"), "s", "/w/s"), "h8", AgentState::Faulted);
    assert_eq!(lock_visibility(&stuck, true), None);
    let s = summarize(&"dev".to_string(), &dev, DutyStatus::OffDuty, false);
    assert_eq!((s.id.as_str(), s.role.as_str(), s.duty, s.lock), ("dev", "dev", DutyStatus::OffDuty, Some(LockState::Missing)));
}

#[test]
fn remove_parked_agent_succeeds() {
    let mut reg = registry();
    reg.register("parked".into(), live_cfg(config(Some("root"), "parked", "/w/parked"), "h7", AgentState::Parked));
    let gone = remove_check(&mut reg, &op(), &"parked".into()).unwrap();
    assert_eq!(gone.identity().config.role, "parked");
    assert!(!reg.contains_key(&"parked".to_string()));
}

#[test]
fn remove_rejects_busy_waiting_retrying_states() {
    for (i, st) in [AgentState::Busy, AgentState::Waiting, AgentState::Retrying].into_iter().enumerate() {
        let mut reg = registry();
        let id = format!("c{i}");
        reg.register(id.clone(), live_cfg(config(Some("root"), "c", "/w/c"), "h8", st));
        let err = remove_check(&mut reg, &op(), &id).unwrap_err();
        assert_eq!((err.status, err.message.as_str()), (409, "agent is busy, interrupt it first"));
        assert!(reg.contains_key(&id));
    }
}
