use kallip_tagma::config::{AgentConfig, AgentIdentity, AgentState, DelegationMode, PermissionClass};
use kallip_tagma::profiles::{Modality, Profile, ProfileConfig, ProfileSet};
use kallip_tagma::registry::{AgentEntry, AgentRegistry, LiveAgent, RegistryEntry};
use kallip_tagma::team::converge::{AlignItems, LiveBody, PlannedAction, RowReport};
use kallip_tagma::team::execute::{
    align_live_apply, align_live_check, deactivate_in_registry, park_failed, spawn_order,
};
use kallip_tagma::team::restore::{
    degraded_notes, degraded_report, live_dir_failed, needs_meta_write, reactivate_failed, registration_violated,
    restore_step, restored_report, RestoreLoss, RestoreStage, RestoreStep,
};
use kallip_tagma::team::run::{check_converge_file, converge_permit, converge_phase, finish_converge, BatchRun, ConvergeStep};
use kallip_tagma::team::status::LockPair;
use kallip_tagma::team::{RoleDeclaration, RoleDisposition, TeamAction, TeamConvergeOutcome, TeamDeclaration};

fn role(name: &str, set: Option<&str>) -> RoleDeclaration {
    RoleDeclaration {
        name: name.into(),
        description: String::new(),
        profile_set: set.map(|s| s.to_string()),
        permission_class: None,
        prompt: None,
        skills: vec![],
        unmanaged: false,
    }
}

fn body(id: &str, role: &str) -> LiveBody {
    LiveBody {
        id: id.into(),
        role: role.into(),
        workspace_root: "/w".into(),
        description: String::new(),
        profile_set: None,
        permissions_class: PermissionClass::Normal,
        busy: false,
        children: 0,
        faulted: false,
    }
}

fn phase(d: &TeamDeclaration, lock: &Vec<LockPair>, root: Option<&LiveBody>, live: &Vec<LiveBody>, dry_run: bool) -> (Vec<PlannedAction>, ConvergeStep) {
    converge_phase(
        &"team.toml".to_string(),
        dry_run,
        d,
        lock,
        root,
        live,
        false,
        &vec!["default".to_string()],
        &vec![],
        &vec![],
        64,
        16,
        &"t0".to_string(),
    )
}

#[test]
fn converge_needs_a_declaration_file() {
    let err = check_converge_file(&String::new()).unwrap_err();
    assert_eq!((err.status, err.message.as_str()), (400, "'file' must name the declaration file"));
    assert!(check_converge_file(&"team.toml".to_string()).is_ok());
}

#[test]
fn a_refused_converge_answers_with_the_seeded_mapping() {
    let d = TeamDeclaration { roles: vec![role("root", None)] };
    let lock = vec![LockPair { role: "dev".into(), id: "d1".into(), in_inactive: true, in_archived: false }];
    let (plan, step) = phase(&d, &lock, None, &vec![], true);
    assert_eq!(plan.len(), 2);
    match step {
        ConvergeStep::Respond(resp) => {
            assert_eq!(resp.outcome, TeamConvergeOutcome::Rejected);
            assert!(resp.dry_run);
            assert!(!resp.rejections.is_empty());
            assert_eq!(resp.plan.len(), 2);
            assert_eq!(resp.lock.len(), 1);
            assert_eq!(resp.declaration_path, "team.toml");
        }
        ConvergeStep::Execute(_) => panic!("a refused plan never executes"),
    }
}

#[test]
fn a_clean_dry_run_projects_the_mapping() {
    let d = TeamDeclaration { roles: vec![role("dev", Some("default")), role("scout", Some("default"))] };
    let lock = vec![LockPair { role: "dev".into(), id: "d1".into(), in_inactive: true, in_archived: false }];
    let root = body("r0", "root");
    let (plan, step) = phase(&d, &lock, Some(&root), &vec![], true);
    assert_eq!(plan[0].action, TeamAction::Restore);
    assert_eq!(plan[1].action, TeamAction::Spawn);
    match step {
        ConvergeStep::Respond(resp) => {
            assert_eq!(resp.outcome, TeamConvergeOutcome::Planned);
            let bound: Vec<(&str, &str)> = resp.lock.iter().map(|e| (e.role.as_str(), e.id.as_str())).collect();
            assert_eq!(bound, vec![("dev", "d1")], "a planned spawn binds nothing yet");
        }
        ConvergeStep::Execute(_) => panic!("a dry run never executes"),
    }
    let (plan, step) = phase(&d, &lock, Some(&root), &vec![], false);
    match step {
        ConvergeStep::Execute(mapping) => {
            assert_eq!(mapping.len(), 1);
            let mut run = BatchRun::start(&plan, mapping);
            let row = run.next_row(&plan).expect("the restore row runs");
            assert_eq!(plan[row].action, TeamAction::Restore);
            assert!(run.land(&plan, RowReport::Failed("root down".into()), &"t1".to_string()));
            let resp = finish_converge(&"team.toml".to_string(), &plan, run);
            assert_eq!(resp.outcome, TeamConvergeOutcome::Aborted);
            assert!(!resp.dry_run);
            assert_eq!(resp.plan.len(), 2);
            assert_eq!(resp.results.len(), 1);
            assert_eq!(resp.lock.len(), 1);
        }
        ConvergeStep::Respond(_) => panic!("a clean run executes"),
    }
}

#[test]
fn degraded_restores_say_so_loudly() {
    let notes = degraded_notes(&RestoreLoss::BootFailed("panic in boot".into()), &Some("EBUSY".into()), &"p1".into());
    assert_eq!(
        notes,
        vec![
            "IDENTITY LOSS: restore failed (panic in boot); spawned a fresh replacement",
            "old body re-park failed; manual cleanup needed (EBUSY)",
            "the previous body p1 was not reused",
        ]
    );
    let notes = degraded_notes(&RestoreLoss::InactiveUnreadable("no dir".into()), &None, &"p1".into());
    assert_eq!(notes, vec!["inactive body unreadable: no dir", "the previous body p1 was not reused"]);
    match degraded_report(notes.clone(), Ok("n1".into())) {
        RowReport::Degraded { id, notes: n } => {
            assert_eq!(id, "n1");
            assert_eq!(n, notes);
        }
        _ => panic!("a landed replacement is a degraded restore"),
    }
    match degraded_report(notes, Err("root down".into())) {
        RowReport::Failed(m) => assert_eq!(m, "restore degraded to a fresh spawn, and the spawn failed: root down"),
        _ => panic!("a failed replacement stops the batch"),
    }
    assert_eq!(reactivate_failed(&"EPERM".into()), "could not move the inactive body back to the live area: EPERM");
    assert_eq!(live_dir_failed(&"x".into()), "live dir unresolved: x");
    assert!(registration_violated(true).ends_with(" (re-park failed; manual cleanup needed)"));
    assert!(registration_violated(false).ends_with("the body was re-parked"));
    assert!(!needs_meta_write(&AlignItems::none()));
}

fn entry(created_by: Option<&str>, role: &str, state: AgentState, dir: Option<&str>) -> RegistryEntry {
    RegistryEntry::Live(AgentEntry {
        identity: AgentIdentity {
            config: AgentConfig {
                created_by: created_by.map(|s| s.to_string()),
                role: role.into(),
                description: "old".into(),
                workspace_root: "/w".into(),
                permissions_class: PermissionClass::Normal,
                profile_set: None,
                delegation_mode: DelegationMode::CarveOut,
                max_depth: 2,
            },
            agent_dir: dir.map(|s| s.to_string()),
        },
        agent: LiveAgent { state, state_since: 0, auth_token_hash: format!("h-{role}"), activity: String::new() },
        subagent_ids: vec![],
    })
}

fn planned(role: &str, action: TeamAction, target: Option<&str>, align: AlignItems) -> PlannedAction {
    PlannedAction {
        role: role.into(),
        action,
        target: target.map(|s| s.to_string()),
        notes: vec![],
        disposition: RoleDisposition::Active,
        declared: None,
        align,
        discard_record: false,
    }
}

fn bundle() -> ProfileConfig {
    ProfileConfig {
        sets: vec![ProfileSet {
            name: "default".into(),
            description: None,
            profiles: vec![Profile {
                id: "p".into(),
                endpoint: "main".into(),
                model: "m".into(),
                max_context_window: 8,
                store: None,
                effort: None,
                modalities: vec![Modality::Text],
            }],
        }],
        default: "default".into(),
        parking: vec![],
        endpoints: vec![],
    }
}

#[test]
fn live_alignment_rereads_then_flips_memory() {
    let mut reg = AgentRegistry::new();
    reg.register_root("root".into(), entry(None, "root", AgentState::Idle, Some("/d/root"))).unwrap();
    reg.register("a1".into(), entry(Some("root"), "dev", AgentState::Idle, Some("/d/a1")));
    let align = AlignItems { description: Some("builds".into()), profile_set: Some("default".into()), permissions_class: Some(PermissionClass::Guest) };
    let row = planned("dev", TeamAction::AlignMetadata, Some("a1"), align.clone());
    assert_eq!(align_live_check(&reg, &row).unwrap().as_deref(), Some("/d/a1"));
    assert_eq!(align_live_check(&reg, &planned("dev", TeamAction::Adopt, Some("a1"), AlignItems::none())).unwrap(), None);
    assert_eq!(
        align_live_check(&reg, &planned("dev", TeamAction::Adopt, Some("zz"), AlignItems::none())).unwrap_err(),
        "agent zz vanished in the plan→execute window; batch stopped"
    );
    assert_eq!(
        align_live_check(&reg, &planned("scout", TeamAction::AlignMetadata, Some("a1"), align.clone())).unwrap_err(),
        "agent a1 no longer holds role \"scout\"; batch stopped"
    );
    let notes = align_live_apply(&mut reg, &"a1".into(), &align, &bundle()).unwrap();
    assert_eq!(notes, vec!["aligned description", "aligned profile_set", "downgraded permission_class"]);
    let c = &reg.get(&"a1".to_string()).unwrap().identity().config;
    assert_eq!((c.description.as_str(), c.profile_set.as_deref(), c.permissions_class), ("builds", Some("default"), PermissionClass::Guest));
    let gone = AlignItems { description: None, profile_set: Some("ghost".into()), permissions_class: None };
    let err = align_live_apply(&mut reg, &"a1".into(), &gone, &bundle()).unwrap_err();
    assert_eq!(err, "profile set \"ghost\" vanished in the plan→execute window; batch stopped");
}

#[test]
fn deactivation_unregisters_after_the_reread() {
    let mut reg = AgentRegistry::new();
    reg.register_root("root".into(), entry(None, "root", AgentState::Idle, None)).unwrap();
    reg.register("a1".into(), entry(Some("root"), "dev", AgentState::Busy, None));
    let row = planned("dev", TeamAction::Deactivate, Some("a1"), AlignItems::none());
    assert!(deactivate_in_registry(&mut reg, &row, false).unwrap_err().contains("turned busy"));
    assert!(reg.contains_key(&"a1".to_string()));
    let (gone, notes) = deactivate_in_registry(&mut reg, &row, true).unwrap();
    assert_eq!(gone.identity().config.role, "dev");
    assert_eq!(notes.len(), 1);
    assert!(!reg.contains_key(&"a1".to_string()));
    assert!(reg.get(&"root".to_string()).unwrap().subagent_ids().is_empty());
    let no_target = planned("dev", TeamAction::Deactivate, None, AlignItems::none());
    assert_eq!(deactivate_in_registry(&mut reg, &no_target, false).unwrap_err(), "deactivation row without a live target");
    assert_eq!(park_failed(&"a1".into(), &"EIO".into()), "agent a1 is unregistered but the park failed: EIO");
}

#[test]
fn spawn_orders_derive_the_team_workspace() {
    let mut row = planned("pilot", TeamAction::Spawn, None, AlignItems::none());
    assert_eq!(spawn_order(&row, Some((&"r0".to_string(), &"/w".to_string()))).unwrap_err(), "spawn row without a declaration entry");
    let mut d = role("pilot", Some("default"));
    d.skills = vec!["grep".into()];
    row.declared = Some(d);
    assert_eq!(spawn_order(&row, None).unwrap_err(), "the tagma root is not live");
    let o = spawn_order(&row, Some((&"r0".to_string(), &"/w".to_string()))).unwrap();
    assert_eq!(o.workspace_root, "/w/team/pilot");
    assert_eq!(o.supervisor_id, "r0");
    assert_eq!(o.requested_class, Some(PermissionClass::Normal));
    assert_eq!(o.skills, vec!["grep"]);
    let o = spawn_order(&row, Some((&"r0".to_string(), &"/w/".to_string()))).unwrap();
    assert_eq!(o.workspace_root, "/w/team/pilot");
    let o = spawn_order(&row, Some((&"r0".to_string(), &"".to_string()))).unwrap();
    assert_eq!(o.workspace_root, "team/pilot");
    let o = spawn_order(&row, Some((&"r0".to_string(), &"/".to_string()))).unwrap();
    assert_eq!(o.workspace_root, "/team/pilot");
    row.declared.as_mut().unwrap().permission_class = Some("root".into());
    assert!(spawn_order(&row, Some((&"r0".to_string(), &"/w".to_string()))).is_err());
}

#[test]
fn restore_steps_run_in_order_and_fail_as_the_step_demands() {
    let next = |st, ok: bool, w| match restore_step(st, if ok { Ok(()) } else { Err("EIO".to_string()) }, w) {
        RestoreStep::Next(n) => Some(n),
        _ => None,
    };
    assert_eq!(next(RestoreStage::Locate, true, false), Some(RestoreStage::ReadMeta));
    assert_eq!(next(RestoreStage::ReadMeta, true, false), Some(RestoreStage::Reactivate));
    assert_eq!(next(RestoreStage::Reactivate, true, false), Some(RestoreStage::ResolveLive));
    assert_eq!(next(RestoreStage::ResolveLive, true, false), Some(RestoreStage::Boot));
    assert_eq!(next(RestoreStage::ResolveLive, true, true), Some(RestoreStage::WriteMeta));
    assert_eq!(next(RestoreStage::WriteMeta, true, true), Some(RestoreStage::Boot));
    assert_eq!(next(RestoreStage::Boot, true, false), Some(RestoreStage::Register));
    assert!(matches!(restore_step(RestoreStage::Register, Ok(()), false), RestoreStep::Restored));
    assert!(matches!(restore_step(RestoreStage::Register, Err(String::new()), false), RestoreStep::Violated));
    match restore_step(RestoreStage::Locate, Err("EIO".into()), false) {
        RestoreStep::Degrade { loss: RestoreLoss::InactiveUnreadable(e), repark } => assert_eq!((e.as_str(), repark), ("EIO", false)),
        _ => panic!("expected a degraded landing"),
    }
    match restore_step(RestoreStage::ReadMeta, Err("bad toml".into()), false) {
        RestoreStep::Degrade { loss: RestoreLoss::MetaUnreadable(_), repark } => assert!(!repark),
        _ => panic!("expected a degraded landing"),
    }
    match restore_step(RestoreStage::WriteMeta, Err("EROFS".into()), true) {
        RestoreStep::Degrade { loss: RestoreLoss::MetaWriteFailed(_), repark } => assert!(repark),
        _ => panic!("expected a degraded landing with a re-park"),
    }
    match restore_step(RestoreStage::Boot, Err("panic".into()), false) {
        RestoreStep::Degrade { loss: RestoreLoss::BootFailed(_), repark } => assert!(repark),
        _ => panic!("expected a degraded landing with a re-park"),
    }
    match restore_step(RestoreStage::Reactivate, Err("EXDEV".into()), false) {
        RestoreStep::Fail(m) => assert_eq!(m, "could not move the inactive body back to the live area: EXDEV"),
        _ => panic!("expected a stop"),
    }
    match restore_step(RestoreStage::ResolveLive, Err("EIO".into()), false) {
        RestoreStep::Fail(m) => assert_eq!(m, "live dir unresolved: EIO"),
        _ => panic!("expected a stop"),
    }
}

#[test]
fn a_second_converge_is_refused_not_queued() {
    assert!(converge_permit(true).is_ok());
    let err = converge_permit(false).unwrap_err();
    assert_eq!((err.status, err.message.as_str()), (409, "converge already in progress"));
}

#[test]
fn an_intact_restore_lands_under_the_lock_id() {
    let row = planned("scout", TeamAction::Restore, Some("old-1"), AlignItems::none());
    match restored_report(&row, vec!["aligned description".into()]) {
        RowReport::Restored { id, notes } => {
            assert_eq!(id, "old-1");
            assert_eq!(notes, vec!["aligned description".to_string()]);
        }
        _ => panic!("expected an identity-intact landing"),
    }
}
