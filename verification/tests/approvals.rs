use kallip_tagma::approvals::{
    approval_owners, approval_page, approve_gate, classify_verdict, deny_reason, parse_decision, ApprovalEntry,
    ApprovalStatus, ApproveGate, Decision,
};
use kallip_tagma::auth::Identity;
use kallip_tagma::config::{AgentConfig, AgentIdentity, AgentState, DelegationMode, PermissionClass};
use kallip_tagma::registry::{AgentEntry, AgentRegistry, FaultedEntry, LiveAgent, RegistryEntry};

fn entry(id: &str, status: ApprovalStatus, at: i64) -> ApprovalEntry {
    ApprovalEntry {
        id: id.into(),
        agent_id: "a1".into(),
        content: "bash_exec rm -rf build".into(),
        commit_reason: None,
        status,
        deny_reason: None,
        created_at: at,
    }
}

fn ids(v: &[ApprovalEntry]) -> Vec<&str> {
    v.iter().map(|e| e.id.as_str()).collect()
}

#[test]
fn pending_deferrals_stay_invisible_and_newest_come_first() {
    let all = vec![
        entry("e1", ApprovalStatus::Committed, 10),
        entry("e2", ApprovalStatus::Pending, 50),
        entry("e3", ApprovalStatus::Approved, 30),
        entry("e4", ApprovalStatus::Denied, 30),
        entry("e5", ApprovalStatus::Committed, 20),
    ];
    let (page, total) = approval_page(all.clone(), None, &None, None, None).unwrap();
    assert_eq!(total, 4);
    assert_eq!(ids(&page), vec!["e3", "e4", "e5", "e1"], "ties keep collection order");
    let (page, _) = approval_page(all.clone(), None, &Some("asc".into()), None, None).unwrap();
    assert_eq!(ids(&page), vec!["e1", "e5", "e3", "e4"]);
    let (page, total) = approval_page(all.clone(), Some(ApprovalStatus::Committed), &None, None, None).unwrap();
    assert_eq!((ids(&page), total), (vec!["e5", "e1"], 2));
    let (page, total) = approval_page(all.clone(), None, &None, Some(1), Some(2)).unwrap();
    assert_eq!((ids(&page), total), (vec!["e4", "e5"], 4));
    let (page, _) = approval_page(all.clone(), None, &None, Some(9), Some(2)).unwrap();
    assert!(page.is_empty());
    let (page, _) = approval_page(all, None, &None, None, Some(0)).unwrap();
    assert_eq!(page.len(), 1, "a zero limit still shows one");
}

#[test]
fn pages_are_capped_at_twenty() {
    let many: Vec<ApprovalEntry> = (0..30).map(|i| entry(&format!("e{i}"), ApprovalStatus::Committed, i)).collect();
    let (page, total) = approval_page(many.clone(), None, &None, None, Some(100)).unwrap();
    assert_eq!((page.len(), total), (20, 30));
    let (page, _) = approval_page(many, None, &None, None, None).unwrap();
    assert_eq!(page.len(), 5);
}

#[test]
fn decisions_are_spelled_exactly() {
    assert_eq!(parse_decision("approve").unwrap(), Decision::Approve);
    assert_eq!(parse_decision("deny").unwrap(), Decision::Deny);
    let err = parse_decision("Approve").unwrap_err();
    assert_eq!((err.status, err.message.as_str()), (400, "decision must be 'approve' or 'deny'"));
    assert_eq!(deny_reason(&None), "denied");
    assert_eq!(deny_reason(&Some("too risky".into())), "too risky");
}

#[test]
fn superiors_read_their_subordinates_queues() {
    let cfg = |sup: Option<&str>| AgentConfig {
        created_by: sup.map(|s| s.to_string()),
        role: "r".into(),
        description: String::new(),
        workspace_root: "/w".into(),
        permissions_class: PermissionClass::Normal,
        profile_set: None,
        delegation_mode: DelegationMode::CarveOut,
        max_depth: 2,
    };
    let live = |sup: Option<&str>, tok: &str| {
        RegistryEntry::Live(AgentEntry {
            identity: AgentIdentity { config: cfg(sup), agent_dir: None },
            agent: LiveAgent { state: AgentState::Idle, state_since: 0, auth_token_hash: tok.into(), activity: String::new() },
            subagent_ids: vec![],
        })
    };
    let mut reg = AgentRegistry::new();
    reg.register_root("root".into(), live(None, "h0")).unwrap();
    reg.register("sup".into(), live(Some("root"), "h1"));
    reg.register("leaf".into(), live(Some("sup"), "h2"));
    reg.register(
        "gone".into(),
        RegistryEntry::Faulted(FaultedEntry {
            identity: AgentIdentity { config: cfg(Some("sup")), agent_dir: None },
            subagent_ids: vec![],
            reason: "x".into(),
            at: 0,
        }),
    );
    assert_eq!(approval_owners(&reg, &Identity::Operator, &None), vec!["root", "sup", "leaf"]);
    assert_eq!(approval_owners(&reg, &Identity::Agent { id: "sup".into() }, &None), vec!["leaf"]);
    assert_eq!(approval_owners(&reg, &Identity::Agent { id: "root".into() }, &Some("leaf".into())), vec!["leaf"]);
    assert!(approval_owners(&reg, &Identity::Agent { id: "leaf".into() }, &None).is_empty());

    let ls = Some("ls -la".to_string());
    assert!(matches!(approve_gate(&reg, &Identity::Operator, true, &None), Ok(ApproveGate::Open)));
    assert!(matches!(approve_gate(&reg, &Identity::Agent { id: "sup".into() }, false, &None), Ok(ApproveGate::Open)));
    match approve_gate(&reg, &Identity::Agent { id: "sup".into() }, true, &ls) {
        Ok(ApproveGate::Classify { caller, command }) => assert_eq!((caller.as_str(), command.as_str()), ("sup", "ls -la")),
        _ => panic!("expected the classify gate"),
    }
    let err = approve_gate(&reg, &Identity::Agent { id: "sup".into() }, true, &None).unwrap_err();
    assert_eq!((err.status, err.message.as_str()), (400, "cannot approve bash_exec: deferred action has no 'command' argument"));
    let err = approve_gate(&reg, &Identity::Agent { id: "gone".into() }, true, &ls).unwrap_err();
    assert_eq!((err.status, err.message.as_str()), (500, "caller agent is faulted"));
    let err = approve_gate(&reg, &Identity::Agent { id: "nobody".into() }, true, &ls).unwrap_err();
    assert_eq!((err.status, err.message.as_str()), (500, "caller agent not found in registry"));
}

#[test]
fn the_classify_verdict_names_the_gating_decision() {
    assert!(classify_verdict(true, "Allow").is_ok());
    let err = classify_verdict(false, "Ask").unwrap_err();
    assert_eq!(err.status, 403);
    assert_eq!(
        err.message,
        "cannot approve bash_exec: caller's classify rule-set does not allow the command (Ask); a superior may not delegate a command its own policy would gate"
    );
}
