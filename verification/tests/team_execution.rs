use kallip_tagma::auth::Identity;
use kallip_tagma::config::{AgentConfig, AgentIdentity, AgentState, DelegationMode, PermissionClass};
use kallip_tagma::registry::{AgentEntry, AgentRegistry, LiveAgent, RegistryEntry};
use kallip_tagma::team::converge::{
    align_parked, alignment_of, authorize_converge, deactivation_check, execution_order, join_with_commas,
    record_outcome, restore_precheck, restore_violated, row_runs, seed_mapping, snapshot_live, upsert_mapping,
    AlignItems, LiveBody, ParkedMeta, PlannedAction, RowReport,
};
use kallip_tagma::team::run::BatchRun;
use kallip_tagma::team::status::LockPair;
use kallip_tagma::team::{
    RoleDeclaration, RoleDisposition, TeamAction, TeamActionResult, TeamLockEntry, TeamRowOutcome,
};

fn entry(created_by: Option<&str>, role: &str, state: AgentState) -> RegistryEntry {
    RegistryEntry::Live(AgentEntry {
        identity: AgentIdentity {
            config: AgentConfig {
                created_by: created_by.map(|s| s.to_string()),
                role: role.to_string(),
                description: format!("the {role}"),
                workspace_root: format!("/w/{role}"),
                permissions_class: PermissionClass::Normal,
                profile_set: Some("default".into()),
                delegation_mode: DelegationMode::CarveOut,
                max_depth: 2,
            },
            agent_dir: None,
        },
        agent: LiveAgent { state, state_since: 0, auth_token_hash: format!("h-{role}"), activity: String::new() },
        subagent_ids: Vec::new(),
    })
}

fn registry() -> AgentRegistry {
    let mut reg = AgentRegistry::new();
    reg.register_root("root".into(), entry(None, "root", AgentState::Idle)).unwrap();
    reg.register("a1".into(), entry(Some("root"), "dev", AgentState::Idle));
    reg.register("a2".into(), entry(Some("root"), "scout", AgentState::Busy));
    reg
}

fn planned(role: &str, action: TeamAction, target: Option<&str>) -> PlannedAction {
    PlannedAction {
        role: role.to_string(),
        action,
        disposition: RoleDisposition::Retain,
        target: target.map(|s| s.to_string()),
        notes: vec!["planned".to_string()],
        declared: None,
        align: AlignItems::none(),
        discard_record: false,
    }
}

fn decl(name: &str) -> RoleDeclaration {
    RoleDeclaration {
        name: name.into(),
        description: String::new(),
        profile_set: None,
        permission_class: None,
        prompt: None,
        skills: vec![],
        unmanaged: false,
    }
}

#[test]
fn deactivations_run_first_in_plan_order() {
    let plan = vec![
        planned("a", TeamAction::Spawn, None),
        planned("b", TeamAction::Deactivate, Some("x")),
        planned("c", TeamAction::Adopt, Some("y")),
        planned("d", TeamAction::Deactivate, Some("z")),
    ];
    assert_eq!(execution_order(&plan), vec![1, 3, 0, 2]);
    assert!(!row_runs(&planned("r", TeamAction::Retain, None)));
    assert!(!row_runs(&planned("r", TeamAction::Adopt, None)));
    assert!(row_runs(&planned("r", TeamAction::Spawn, None)));
}

#[test]
fn outcomes_land_rows_and_bindings() {
    let stamped = "2026-01-01T00:00:00Z".to_string();
    let mut mapping: Vec<TeamLockEntry> = Vec::new();
    let mut results: Vec<TeamActionResult> = Vec::new();
    let spawn = planned("pilot", TeamAction::Spawn, None);
    let stop = record_outcome(&mut mapping, &mut results, &spawn, RowReport::Spawned("n1".into()), &stamped);
    assert!(!stop);
    assert_eq!(results[0].detail, "spawned agent n1");
    assert_eq!(results[0].outcome, TeamRowOutcome::Applied);
    assert_eq!((mapping[0].role.as_str(), mapping[0].id.as_str()), ("pilot", "n1"));

    let restore = planned("dev", TeamAction::Restore, Some("p1"));
    let report = RowReport::Degraded { id: "n2".into(), notes: vec!["meta unreadable".into()] };
    assert!(!record_outcome(&mut mapping, &mut results, &restore, report, &stamped));
    assert_eq!(results[1].detail, "restore degraded into a fresh spawn: agent n2");
    assert_eq!(results[1].notes, vec!["planned", "meta unreadable"]);

    let align = planned("scout", TeamAction::AlignMetadata, Some("a2"));
    assert!(!record_outcome(&mut mapping, &mut results, &align, RowReport::Landed(vec![]), &stamped));
    assert_eq!(results[2].detail, "metadata aligned to the declaration");
    assert_eq!(mapping.len(), 2, "alignment binds nothing new");

    let adopt = planned("dev", TeamAction::Adopt, Some("a1"));
    assert!(record_outcome(&mut mapping, &mut results, &adopt, RowReport::Failed("boom".into()), &stamped));
    assert_eq!(results[3].outcome, TeamRowOutcome::Failed);
    assert_eq!(results[3].agent_id.as_deref(), Some("a1"));
    assert_eq!(results[3].detail, "boom");
}

#[test]
fn upserts_rebind_a_role_in_place() {
    let stamped = "t1".to_string();
    let mut mapping = vec![
        TeamLockEntry { role: "dev".into(), id: "old".into(), converged_at: "t0".into() },
        TeamLockEntry { role: "scout".into(), id: "s".into(), converged_at: "t0".into() },
    ];
    upsert_mapping(&mut mapping, &"dev".into(), &"new".into(), &stamped);
    assert_eq!(mapping.len(), 2);
    assert_eq!((mapping[0].id.as_str(), mapping[0].converged_at.as_str()), ("new", "t1"));
    upsert_mapping(&mut mapping, &"pilot".into(), &"p".into(), &stamped);
    assert_eq!(mapping[2].role, "pilot");
}

#[test]
fn the_seed_mapping_drops_discarded_records() {
    let lock = vec![
        LockPair { role: "dev".into(), id: "d".into(), in_inactive: true, in_archived: false },
        LockPair { role: "gone".into(), id: "g".into(), in_inactive: false, in_archived: true },
    ];
    let mut discard = planned("gone", TeamAction::Spawn, None);
    discard.discard_record = true;
    let plan = vec![planned("dev", TeamAction::Restore, Some("d")), discard];
    let m = seed_mapping(&lock, &plan, &"t".to_string());
    let roles: Vec<&str> = m.iter().map(|e| e.role.as_str()).collect();
    assert_eq!(roles, vec!["dev"]);
}

#[test]
fn converge_is_for_the_operator_or_the_root() {
    let reg = registry();
    assert!(authorize_converge(&reg, &Identity::Operator).is_ok());
    assert!(authorize_converge(&reg, &Identity::Agent { id: "root".into() }).is_ok());
    let err = authorize_converge(&reg, &Identity::Agent { id: "a1".into() }).unwrap_err();
    assert_eq!((err.status, err.message.as_str()), (403, "converge is reserved for the operator or the root agent"));
}

#[test]
fn the_live_snapshot_splits_off_the_root() {
    let reg = registry();
    let (root, bodies) = snapshot_live(&reg);
    let root = root.unwrap();
    assert_eq!(root.id, "root");
    let ids: Vec<&str> = bodies.iter().map(|b| b.id.as_str()).collect();
    assert_eq!(ids, vec!["a1", "a2"]);
    assert!(!bodies[0].busy);
    assert!(bodies[1].busy);
    assert_eq!(bodies[0].profile_set.as_deref(), Some("default"));
}

#[test]
fn deactivation_targets_are_rechecked() {
    let reg = registry();
    let busy = reg.get(&"a2".to_string());
    assert_eq!(
        deactivation_check(busy, &"a2".into(), false).unwrap_err(),
        "agent a2 turned busy in the plan→execute window; batch stopped (re-run, or pass force)"
    );
    assert_eq!(
        deactivation_check(busy, &"a2".into(), true).unwrap(),
        vec!["force escape: the busy target was interrupted before teardown"]
    );
    assert!(deactivation_check(reg.get(&"a1".to_string()), &"a1".into(), false).unwrap().is_empty());
    assert!(deactivation_check(None, &"zz".into(), false).unwrap_err().contains("vanished"));
    let root = reg.get(&"root".to_string());
    assert!(deactivation_check(root, &"root".into(), true).unwrap_err().contains("gained live subagents"));
}

#[test]
fn restores_are_rechecked_against_the_registry() {
    let reg = registry();
    assert_eq!(restore_precheck(&reg, &planned("pilot", TeamAction::Restore, Some("p9"))).unwrap(), "p9");
    assert!(restore_precheck(&reg, &planned("pilot", TeamAction::Restore, Some("a1"))).unwrap_err().contains("came alive"));
    assert_eq!(
        restore_precheck(&reg, &planned("dev", TeamAction::Restore, Some("p9"))).unwrap_err(),
        "role \"dev\" is now held by agent a1; batch stopped"
    );
    assert_eq!(restore_precheck(&reg, &planned("dev", TeamAction::Restore, None)).unwrap_err(), "restore row without a lock id");
    assert!(restore_violated(&reg, &"a1".into(), &"x".into()));
    assert!(restore_violated(&reg, &"p9".into(), &"scout".into()));
    assert!(!restore_violated(&reg, &"p9".into(), &"pilot".into()));
}

#[test]
fn alignment_downgrades_but_never_raises() {
    let mut d = decl("dev");
    d.description = "builds".into();
    d.permission_class = Some("guest".into());
    let body = LiveBody {
        id: "a1".into(),
        role: "dev".into(),
        workspace_root: "/w/dev".into(),
        description: "old".into(),
        profile_set: None,
        permissions_class: PermissionClass::Normal,
        busy: false,
        children: 0,
        faulted: false,
    };
    let (al, _notes) = alignment_of(&d, &body);
    assert_eq!(al.description.as_deref(), Some("builds"));
    assert_eq!(al.permissions_class, Some(PermissionClass::Guest));
    let mut meta = ParkedMeta { description: "old".into(), profile_set: None, permissions_class: PermissionClass::Guest };
    d.permission_class = Some("normal".into());
    let (al, notes) = align_parked(&d, &mut meta);
    assert!(al.permissions_class.is_none());
    assert!(notes.iter().any(|n| n.contains("never raises")));
    assert_eq!(meta.description, "builds");
    assert_eq!(meta.permissions_class, PermissionClass::Guest);
}

#[test]
fn names_join_with_commas() {
    assert_eq!(join_with_commas(&vec!["a".into(), "b".into(), "c".into()]), "a, b, c");
    assert_eq!(join_with_commas(&vec![]), "");
}

#[test]
fn a_batch_runs_deactivations_first_and_stops_at_the_first_failure() {
    let stamped = "t1".to_string();
    let plan = vec![
        planned("a", TeamAction::Spawn, None),
        planned("b", TeamAction::Deactivate, Some("x")),
        planned("r", TeamAction::Retain, None),
        planned("c", TeamAction::Adopt, Some("y")),
        planned("d", TeamAction::Spawn, None),
    ];
    let mut run = BatchRun::start(&plan, Vec::new());
    assert_eq!(run.next_row(&plan), Some(1));
    assert!(!run.land(&plan, RowReport::Landed(vec![]), &stamped));
    assert_eq!(run.next_row(&plan), Some(0));
    assert!(!run.land(&plan, RowReport::Spawned("n1".into()), &stamped));
    // the retain row is passed over
    assert_eq!(run.next_row(&plan), Some(3));
    assert!(run.land(&plan, RowReport::Failed("boom".into()), &stamped));
    assert_eq!(run.next_row(&plan), None, "a failure stops the batch");
    let (results, mapping, aborted) = run.finish();
    assert!(aborted);
    assert_eq!(results[2].outcome, TeamRowOutcome::Failed);
    assert_eq!(results[0].outcome, TeamRowOutcome::Applied);
    assert_eq!(results.len(), 3);
    assert_eq!(results[0].detail, "deactivated agent x into the inactive area");
    assert_eq!(results[1].detail, "spawned agent n1");
    assert_eq!(results[2].detail, "boom");
    let bound: Vec<(&str, &str)> = mapping.iter().map(|e| (e.role.as_str(), e.id.as_str())).collect();
    assert_eq!(bound, vec![("b", "x"), ("a", "n1")]);
}

#[test]
fn a_batch_without_failures_runs_every_running_row() {
    let stamped = "t1".to_string();
    let plan = vec![planned("r", TeamAction::Retain, None), planned("a", TeamAction::Spawn, None)];
    let mut run = BatchRun::start(&plan, Vec::new());
    assert_eq!(run.next_row(&plan), Some(1));
    assert!(!run.land(&plan, RowReport::Spawned("n2".into()), &stamped));
    assert_eq!(run.next_row(&plan), None);
    let (results, mapping, aborted) = run.finish();
    assert!(!aborted);
    assert_eq!(results.len(), 1);
    assert_eq!(mapping.len(), 1);
}
