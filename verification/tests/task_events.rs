use kallip_tagma::config::{AgentConfig, AgentIdentity, AgentState, DelegationMode, PermissionClass};
use kallip_tagma::registry::{AgentEntry, AgentRegistry, LiveAgent, RegistryEntry};
use kallip_tagma::task_watcher::wake_targets;
use kallip_tagma::tasks::{confirmer_for, role_snapshot};
use kallip_tagma::auth::{acting_agent, Identity};
use kallip_tagma::task_watcher::{
    classify, keep_last_per_task, people_of, Flow, RecvOutcome, TaskChanged, SILENT_VERBS,
};

fn event(task_id: i64, verb: &str) -> TaskChanged {
    TaskChanged {
        task_id,
        title: "t".into(),
        status: "in_progress".into(),
        verb: verb.into(),
        creator: Some("root".into()),
        assignee: Some("scout".into()),
        confirmers: vec!["scout".into(), "auditor-c".into()],
    }
}

#[test]
fn acting_agent_follows_the_authenticated_identity() {
    let agent = Identity::Agent { id: "agent-9".to_string() };
    assert_eq!(acting_agent(&agent), "agent-9");
    let op = Identity::Operator;
    assert_eq!(acting_agent(&op), "operator");
}

#[test]
fn people_of_dedupes_and_keeps_creator() {
    assert_eq!(people_of(&event(1, "start")), ["scout", "auditor-c", "root"]);
}

#[test]
fn people_of_drops_creator_on_create() {
    assert_eq!(people_of(&event(1, "create")), ["scout", "auditor-c"]);
}

#[test]
fn silent_verbs_are_close_only() {
    assert_eq!(SILENT_VERBS, ["close"]);
    for verb in ["start", "note", "confirm", "pause", "resume"] {
        assert!(!SILENT_VERBS.contains(&verb), "{verb} must wake");
    }
}

#[test]
fn lag_is_skip_and_closed_is_stop() {
    assert!(matches!(classify(RecvOutcome::Event(event(1, "start"))), Flow::Wake(_)));
    assert!(matches!(classify(RecvOutcome::Lagged(7)), Flow::Skip));
    assert!(matches!(classify(RecvOutcome::Closed), Flow::Stop));
}

#[test]
fn keep_last_collapses_same_task_runs_only() {
    let mut late = event(1, "note");
    late.status = "review".into();
    let collapsed = keep_last_per_task(vec![event(1, "start"), late, event(2, "start")]);
    assert_eq!(collapsed.len(), 2, "task 1 run collapses to one");
    assert_eq!(collapsed[0].task_id, 1);
    assert_eq!(collapsed[0].status, "review", "last wins within a run");
    assert_eq!(collapsed[1].task_id, 2);
}

#[test]
fn keep_last_keeps_interleaved_runs_apart() {
    let collapsed = keep_last_per_task(vec![
        event(1, "start"),
        event(2, "start"),
        event(1, "note"),
        event(1, "pause"),
    ]);
    let ids: Vec<i64> = collapsed.iter().map(|e| e.task_id).collect();
    assert_eq!(ids, vec![1, 2, 1]);
    assert_eq!(collapsed[2].verb, "pause");
    assert!(keep_last_per_task(Vec::new()).is_empty());
}

#[test]
fn people_of_without_assignee_or_creator() {
    let mut ev = event(3, "start");
    ev.assignee = None;
    ev.creator = None;
    ev.confirmers = vec!["a".into(), "b".into(), "a".into()];
    assert_eq!(people_of(&ev), ["a", "b"]);
}

#[test]
fn wake_targets_follow_the_people_set() {
    let entry = |sup: Option<&str>, role: &str| {
        RegistryEntry::Live(AgentEntry {
            identity: AgentIdentity {
                config: AgentConfig {
                    created_by: sup.map(|s| s.to_string()),
                    role: role.into(),
                    description: String::new(),
                    workspace_root: "/w".into(),
                    permissions_class: PermissionClass::Normal,
                    profile_set: None,
                    delegation_mode: DelegationMode::CarveOut,
                    max_depth: 1,
                },
                agent_dir: None,
            },
            agent: LiveAgent { state: AgentState::Idle, state_since: 0, auth_token_hash: format!("h-{role}"), activity: String::new() },
            subagent_ids: vec![],
        })
    };
    let mut reg = AgentRegistry::new();
    reg.register_root("r0".into(), entry(None, "root")).unwrap();
    reg.register("a1".into(), entry(Some("r0"), "scout"));
    reg.register("a2".into(), entry(Some("r0"), "pilot"));
    assert_eq!(wake_targets(&reg, &event(1, "start")), vec!["r0", "a1"]);
    assert!(wake_targets(&reg, &event(1, "close")).is_empty());
    assert_eq!(wake_targets(&reg, &event(1, "create")), vec!["a1"]);
    let snap = role_snapshot(&reg);
    assert_eq!(snap[1], ("a1".to_string(), "scout".to_string()));
    assert_eq!(confirmer_for(&reg, "pilot").as_deref(), Some("a2"));
    assert_eq!(confirmer_for(&reg, "ghost"), None);
}
