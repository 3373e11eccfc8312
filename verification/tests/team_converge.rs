use kallip_tagma::config::PermissionClass;
use kallip_tagma::team::converge::{
    plan_converge, preflight_converge, project_mapping, AlignItems, LiveBody, PlannedAction,
};
use kallip_tagma::team::status::LockPair;
use kallip_tagma::team::{
    RoleDeclaration, RoleDisposition, TeamAction, TeamDeclaration, TeamLockEntry, TeamRejection,
    TeamRejectionKind,
};

const ID1: &str = "11111111-1111-4111-8111-111111111111";
const ID2: &str = "22222222-2222-4222-8222-222222222222";
const ID3: &str = "33333333-3333-4333-8333-333333333333";
const ID4: &str = "44444444-4444-4444-8444-444444444444";
const ROOT_ID: &str = "99999999-9999-4999-8999-999999999999";

fn role(name: &str) -> RoleDeclaration {
    RoleDeclaration {
        name: name.to_string(),
        description: String::new(),
        profile_set: None,
        permission_class: None,
        prompt: None,
        skills: Vec::new(),
        unmanaged: false,
    }
}

fn role_with(name: &str, profile_set: Option<&str>, class: Option<&str>) -> RoleDeclaration {
    let mut r = role(name);
    r.profile_set = profile_set.map(|s| s.to_string());
    r.permission_class = class.map(|s| s.to_string());
    r
}

fn declaration(roles: Vec<RoleDeclaration>) -> TeamDeclaration {
    TeamDeclaration { roles }
}

fn lock_pair(role: &str, id: &str, in_inactive: bool) -> LockPair {
    LockPair { role: role.to_string(), id: id.to_string(), in_inactive, in_archived: false }
}

/// A live body with plausible defaults: idle, childless, healthy,
/// Normal class, no profile set.
fn body(id: &str, role: &str) -> LiveBody {
    LiveBody {
        id: id.to_string(),
        role: role.to_string(),
        workspace_root: "/tmp/kallip-team-tests/unused".to_string(),
        description: String::new(),
        profile_set: None,
        permissions_class: PermissionClass::Normal,
        busy: false,
        children: 0,
        faulted: false,
    }
}

fn converge_plan(d: &TeamDeclaration, lock: &[LockPair], bodies: &[LiveBody]) -> Vec<PlannedAction> {
    plan_converge(d, &lock.to_vec(), None, &bodies.to_vec())
}

fn row_of<'a>(plan: &'a [PlannedAction], role: &str) -> &'a PlannedAction {
    plan.iter().find(|a| a.role == role).unwrap_or_else(|| panic!("no plan row for role {role}"))
}

fn action_of(plan: &[PlannedAction], role: &str) -> TeamAction {
    row_of(plan, role).action
}

fn target_of(plan: &[PlannedAction], role: &str) -> String {
    row_of(plan, role).target.clone().unwrap_or_else(|| panic!("role {role} has no target"))
}

fn planned(role: &str, action: TeamAction, target: Option<&str>) -> PlannedAction {
    PlannedAction {
        role: role.to_string(),
        action,
        disposition: RoleDisposition::Retain,
        target: target.map(|s| s.to_string()),
        notes: Vec::new(),
        declared: None,
        align: AlignItems::none(),
        discard_record: false,
    }
}

/// The preflight with the default test bundle (one set, "default") and
/// roomy limits, nothing stale and every skill loadable.
fn preflight(
    plan: &[PlannedAction],
    root: Option<&LiveBody>,
    lock: &[LockPair],
    live: &[LiveBody],
    force: bool,
) -> Vec<TeamRejection> {
    preflight_limited(plan, root, lock, live, force, 64, 16)
}

fn preflight_limited(
    plan: &[PlannedAction],
    root: Option<&LiveBody>,
    lock: &[LockPair],
    live: &[LiveBody],
    force: bool,
    max_agents: usize,
    max_subagents: usize,
) -> Vec<TeamRejection> {
    preflight_converge(
        &plan.to_vec(),
        root,
        &lock.to_vec(),
        &live.to_vec(),
        force,
        &vec!["default".to_string()],
        &vec![],
        &vec![],
        max_agents,
        max_subagents,
    )
}

#[test]
fn converge_plan_retains_an_in_sync_role() {
    let d = declaration(vec![role("dev")]);
    let b = body(ID1, "dev");
    let lock = vec![lock_pair("dev", &b.id, false)];
    let plan = converge_plan(&d, &lock, std::slice::from_ref(&b));
    assert_eq!(action_of(&plan, "dev"), TeamAction::Retain);
    assert!(row_of(&plan, "dev").target.is_none());
}

#[test]
fn converge_plan_aligns_metadata_a_live_body_drifted_from() {
    let mut r = role_with("dev", None, Some("guest"));
    r.description = "builds the thing".to_string();
    let d = declaration(vec![r]);
    let b = body(ID1, "dev");
    let lock = vec![lock_pair("dev", &b.id, false)];
    let plan = converge_plan(&d, &lock, std::slice::from_ref(&b));
    let row = row_of(&plan, "dev");
    assert_eq!(row.action, TeamAction::AlignMetadata);
    assert_eq!(row.align.description.as_deref(), Some("builds the thing"));
    assert_eq!(row.align.permissions_class, Some(PermissionClass::Guest));
}

#[test]
fn converge_plan_never_raises_a_permission_class() {
    let d = declaration(vec![role_with("dev", None, Some("normal"))]);
    let mut b = body(ID1, "dev");
    b.permissions_class = PermissionClass::Guest;
    let lock = vec![lock_pair("dev", &b.id, false)];
    let plan = converge_plan(&d, &lock, std::slice::from_ref(&b));
    let row = row_of(&plan, "dev");
    assert!(row.align.permissions_class.is_none());
    assert!(row.notes.iter().any(|n| n.contains("never raise")));
}

#[test]
fn converge_plan_adopts_a_live_body_the_lock_does_not_know() {
    let d = declaration(vec![role("dev")]);
    let b = body(ID1, "dev");
    let plan = converge_plan(&d, &[], std::slice::from_ref(&b));
    assert_eq!(action_of(&plan, "dev"), TeamAction::Adopt);
    assert_eq!(target_of(&plan, "dev"), b.id);
}

#[test]
fn converge_plan_supersedes_a_lock_pointing_at_a_parked_body() {
    let d = declaration(vec![role("dev")]);
    let b = body(ID1, "dev");
    let lock = vec![lock_pair("dev", ID2, true)];
    let plan = converge_plan(&d, &lock, std::slice::from_ref(&b));
    assert_eq!(action_of(&plan, "dev"), TeamAction::Adopt);
    assert_eq!(target_of(&plan, "dev"), b.id);
    let row = row_of(&plan, "dev");
    assert!(row.notes.iter().any(|n| n.contains("superseded")));
    assert!(!row.discard_record);
}

#[test]
fn converge_plan_restores_a_parked_body_and_spawns_an_empty_role() {
    let d = declaration(vec![role("dev"), role("scout")]);
    let lock = vec![lock_pair("dev", ID2, true)];
    let plan = converge_plan(&d, &lock, &[]);
    assert_eq!(action_of(&plan, "dev"), TeamAction::Restore);
    assert_eq!(target_of(&plan, "dev"), ID2);
    assert_eq!(action_of(&plan, "scout"), TeamAction::Spawn);
}

#[test]
fn converge_plan_deactivates_a_stray_live_role() {
    let d = declaration(vec![role("dev")]);
    let stray = body(ID1, "stray");
    let plan = converge_plan(&d, &[], std::slice::from_ref(&stray));
    assert_eq!(action_of(&plan, "stray"), TeamAction::Deactivate);
    assert_eq!(target_of(&plan, "stray"), stray.id);
}

#[test]
fn converge_plan_discards_archived_and_nowhere_lock_records() {
    let d = declaration(vec![role("dev"), role("scout")]);
    let lock = vec![
        LockPair { role: "dev".to_string(), id: ID1.to_string(), in_inactive: false, in_archived: true },
        lock_pair("scout", ID2, false),
    ];
    let plan = converge_plan(&d, &lock, &[]);
    let dev = row_of(&plan, "dev");
    assert_eq!(dev.action, TeamAction::Spawn);
    assert!(dev.discard_record);
    assert!(dev.notes.iter().any(|n| n.contains("archived")));
    let scout = row_of(&plan, "scout");
    assert!(scout.discard_record);
    assert!(scout.notes.iter().any(|n| n.contains("not on disk")));
}

#[test]
fn converge_plan_discards_a_drifted_lock_record() {
    let d = declaration(vec![role("dev")]);
    let misplaced = body(ID1, "scout");
    let lock = vec![lock_pair("dev", &misplaced.id, false)];
    let plan = converge_plan(&d, &lock, std::slice::from_ref(&misplaced));
    let dev = row_of(&plan, "dev");
    assert_eq!(dev.action, TeamAction::Spawn);
    assert!(dev.discard_record);
    assert!(dev.notes.iter().any(|n| n.contains("live under another role")));
}

#[test]
fn converge_plan_drifts_a_lock_record_pointing_at_the_root() {
    let d = declaration(vec![role("dev")]);
    let root = body(ROOT_ID, "root");
    let lock = vec![lock_pair("dev", &root.id, false)];
    let plan = plan_converge(&d, &lock, Some(&root), &vec![]);
    let dev = row_of(&plan, "dev");
    assert_eq!(dev.action, TeamAction::Spawn);
    assert!(dev.discard_record);
    assert!(dev.notes.iter().any(|n| n.contains("live under another role")));
    assert!(!dev.notes.iter().any(|n| n.contains("not on disk")));
}

#[test]
fn project_mapping_keeps_known_targets_and_skips_spawnless_rows() {
    let stamped = "2026-01-01T00:00:00Z".to_string();
    let plan = vec![
        planned("dev", TeamAction::Restore, Some(ID1)),
        planned("scout", TeamAction::Adopt, Some(ID2)),
        planned("auditor", TeamAction::AlignMetadata, Some(ID3)),
        planned("guest1", TeamAction::Retain, None),
        planned("pilot", TeamAction::Spawn, None),
    ];
    let mut mapping: Vec<TeamLockEntry> = Vec::new();
    project_mapping(&mut mapping, &plan, None, &stamped);
    let bound: Vec<(&str, &str)> = mapping.iter().map(|e| (e.role.as_str(), e.id.as_str())).collect();
    assert_eq!(bound, vec![("dev", ID1), ("scout", ID2)]);
    let spawned = vec![("pilot".to_string(), ID4.to_string())];
    project_mapping(&mut mapping, &plan, Some(&spawned), &stamped);
    assert_eq!(mapping.len(), 3);
    assert!(mapping.iter().any(|e| e.role == "pilot" && e.id == ID4));
    assert!(mapping.iter().all(|e| e.converged_at == stamped));
}

#[test]
fn preflight_rejects_a_lock_id_keyed_under_two_roles() {
    let d = declaration(vec![role("dev"), role("scout")]);
    let plan = converge_plan(&d, &[], &[]);
    let lock = vec![lock_pair("dev", ID1, true), lock_pair("scout", ID1, true)];
    let rejections = preflight(&plan, None, &lock, &[], false);
    assert!(rejections
        .iter()
        .any(|r| r.kind == TeamRejectionKind::LockAmbiguity && r.message.contains("lock rebuild")));
}

#[test]
fn preflight_rejects_a_declaration_of_the_root_role() {
    let d = declaration(vec![role("root")]);
    let plan = converge_plan(&d, &[], &[]);
    let rejections = preflight(&plan, None, &[], &[], false);
    assert!(rejections.iter().any(|r| r.kind == TeamRejectionKind::RootRole));
}

#[test]
fn preflight_rejects_duplicate_live_bodies_under_one_role() {
    let d = declaration(vec![role("dev")]);
    let bodies = vec![body(ID1, "dev"), body(ID2, "dev")];
    let plan = converge_plan(&d, &[], &bodies);
    let rejections = preflight(&plan, None, &[], &bodies, false);
    assert!(rejections.iter().any(|r| r.kind == TeamRejectionKind::Duplicate));
}

#[test]
fn preflight_rejects_a_busy_deactivation_target_until_forced() {
    let d = declaration(vec![]);
    let mut stray = body(ID1, "stray");
    stray.busy = true;
    let bodies = vec![stray];
    let plan = converge_plan(&d, &[], &bodies);
    let rejections = preflight(&plan, None, &[], &bodies, false);
    assert!(rejections.iter().any(|r| r.kind == TeamRejectionKind::Busy));
    let rejections = preflight(&plan, None, &[], &bodies, true);
    assert!(rejections.is_empty(), "unexpected rejections: {rejections:?}");
}

#[test]
fn preflight_rejects_a_childed_deactivation_target_even_when_forced() {
    let d = declaration(vec![role("dev")]);
    let mut stray = body(ID1, "stray");
    stray.children = 2;
    let bodies = vec![stray];
    let plan = converge_plan(&d, &[], &bodies);
    let rejections = preflight(&plan, None, &[], &bodies, true);
    assert!(rejections.iter().any(|r| r.kind == TeamRejectionKind::LiveChildren));
}

#[test]
fn preflight_rejects_spawns_without_a_usable_profile_set() {
    let root = body(ROOT_ID, "root");
    let d = declaration(vec![role("scout"), role_with("pilot", Some("no-such-set"), None)]);
    let plan = converge_plan(&d, &[], &[]);
    let rejections = preflight(&plan, Some(&root), &[], &[], false);
    assert!(rejections.iter().any(|r| r.kind == TeamRejectionKind::SpawnProfileSet));
    assert!(rejections.iter().any(|r| r.message.contains("unknown profile_set")));
}

#[test]
fn preflight_rejects_a_spawn_class_spelling_it_does_not_know() {
    let root = body(ROOT_ID, "root");
    let d = declaration(vec![role_with("pilot", Some("default"), Some("sudo"))]);
    let plan = converge_plan(&d, &[], &[]);
    let rejections = preflight(&plan, Some(&root), &[], &[], false);
    assert!(rejections.iter().any(|r| r.kind == TeamRejectionKind::SpawnProfileClass));
}

#[test]
fn preflight_rejects_a_spawn_class_above_the_root() {
    let mut root = body(ROOT_ID, "root");
    root.permissions_class = PermissionClass::Guest;
    let d = declaration(vec![role_with("pilot", Some("default"), Some("normal"))]);
    let plan = converge_plan(&d, &[], &[]);
    let rejections = preflight(&plan, Some(&root), &[], &[], false);
    assert!(rejections.iter().any(|r| r.message.contains("exceeds the root")));
}

#[test]
fn preflight_rejects_a_converge_over_capacity() {
    let root = body(ROOT_ID, "root");
    let d = declaration(vec![role_with("a", Some("default"), None), role_with("b", Some("default"), None)]);
    let plan = converge_plan(&d, &[], &[]);
    let rejections = preflight_limited(&plan, Some(&root), &[], &[], false, 1, 1);
    assert!(rejections.iter().any(|r| r.kind == TeamRejectionKind::CapacityAgents));
    assert!(rejections.iter().any(|r| r.kind == TeamRejectionKind::CapacityChildren));
}

#[test]
fn preflight_allows_a_pure_deactivation_plan() {
    let root = body(ROOT_ID, "root");
    let plan = vec![planned("dev", TeamAction::Deactivate, Some(ID1))];
    let rejections = preflight(&plan, Some(&root), &[], &[], false);
    assert!(rejections.is_empty(), "unexpected rejections: {rejections:?}");
}

#[test]
fn preflight_spawn_without_a_live_root_is_refused() {
    let d = declaration(vec![role_with("pilot", Some("default"), None)]);
    let plan = converge_plan(&d, &[], &[]);
    let rejections = preflight(&plan, None, &[], &[], false);
    assert!(rejections.iter().any(|r| r.kind == TeamRejectionKind::SpawnRootDown));
    let root = body(ROOT_ID, "root");
    assert!(preflight(&plan, Some(&root), &[], &[], false).is_empty());
}

#[test]
fn preflight_capacity_message_counts_exactly() {
    let root = body(ROOT_ID, "root");
    let d = declaration(vec![role_with("a", Some("default"), None), role_with("b", Some("default"), None)]);
    let plan = converge_plan(&d, &[], &[]);
    let rejections = preflight_limited(&plan, Some(&root), &[], &[], false, 1, 1);
    let msgs: Vec<&str> = rejections.iter().map(|r| r.message.as_str()).collect();
    assert_eq!(
        msgs,
        vec![
            "converge would hold 2 agents over the limit of 1 — shrink the declaration or raise the limit",
            "the root would hold 2/1 subagents after converge — deactivate roles or raise the limit",
        ]
    );
}
