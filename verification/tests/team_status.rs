use kallip_tagma::team::status::{compare_team, parse_lock_pairs, LiveEntry, LockPair};
use kallip_tagma::team::{RoleDeclaration, RoleDisposition, TeamDeclaration, TeamRoleStatus};

const ID1: &str = "11111111-1111-4111-8111-111111111111";
const ID2: &str = "22222222-2222-4222-8222-222222222222";
const ID3: &str = "33333333-3333-4333-8333-333333333333";

fn role(name: &str) -> RoleDeclaration {
    RoleDeclaration {
        name: name.to_string(),
        description: String::new(),
        profile_set: None,
        permission_class: None,
        prompt: None,
        skills: Vec::new(),
        unmanaged: false,
    }
}

fn unmanaged(name: &str) -> RoleDeclaration {
    let mut r = role(name);
    r.unmanaged = true;
    r
}

fn declaration(roles: Vec<RoleDeclaration>) -> TeamDeclaration {
    TeamDeclaration { roles }
}

fn live(id: &str, role: &str) -> LiveEntry {
    LiveEntry { id: id.to_string(), role: role.to_string() }
}

fn lock_pair(role: &str, id: &str, in_inactive: bool) -> LockPair {
    LockPair { role: role.to_string(), id: id.to_string(), in_inactive, in_archived: false }
}

fn disposition_of(rows: &[TeamRoleStatus], role: &str) -> RoleDisposition {
    rows.iter()
        .find(|row| row.role == role)
        .unwrap_or_else(|| panic!("no row for role {role}"))
        .disposition
}

#[test]
fn an_in_sync_role_is_active() {
    let declaration = declaration(vec![role("dev")]);
    let body = live(ID1, "dev");
    let lock = vec![lock_pair("dev", &body.id, false)];
    let rows = compare_team(&declaration, &lock, &vec![body.clone()], &vec![body.clone()]);
    assert_eq!(disposition_of(&rows, "dev"), RoleDisposition::Active);
    assert!(!rows[0].lock_drift);
    assert_eq!(rows[0].live, vec![body.id.clone()]);
    assert_eq!(rows[0].lock_id.as_ref(), Some(&body.id));
}

#[test]
fn declared_live_without_a_lock_is_adopted() {
    let declaration = declaration(vec![role("dev")]);
    let body = live(ID1, "dev");
    let rows = compare_team(&declaration, &vec![], &vec![body.clone()], &vec![body.clone()]);
    assert_eq!(disposition_of(&rows, "dev"), RoleDisposition::Adopt);
}

#[test]
fn an_absent_role_restores_when_the_lock_id_is_inactive() {
    let declaration = declaration(vec![role("dev")]);
    let lock = vec![lock_pair("dev", ID2, true)];
    let rows = compare_team(&declaration, &lock, &vec![], &vec![]);
    assert_eq!(disposition_of(&rows, "dev"), RoleDisposition::Restore);
    assert!(rows[0].lock_inactive);
}

#[test]
fn an_absent_role_spawns_when_there_is_nothing_to_restore() {
    let declaration = declaration(vec![role("dev")]);
    let rows = compare_team(&declaration, &vec![lock_pair("dev", ID2, false)], &vec![], &vec![]);
    assert_eq!(disposition_of(&rows, "dev"), RoleDisposition::Spawn);
    let rows = compare_team(&declaration, &vec![], &vec![], &vec![]);
    assert_eq!(disposition_of(&rows, "dev"), RoleDisposition::Spawn);
}

#[test]
fn an_undeclared_live_role_deactivates() {
    let declaration = declaration(vec![role("dev")]);
    let stray = live(ID1, "stray");
    let rows = compare_team(&declaration, &vec![], &vec![stray.clone()], &vec![stray.clone()]);
    assert_eq!(disposition_of(&rows, "stray"), RoleDisposition::Deactivate);
}

#[test]
fn an_unmanaged_role_is_exempt_while_live_and_retained_when_absent() {
    let declaration = declaration(vec![unmanaged("guest1")]);
    let body = live(ID1, "guest1");
    let rows = compare_team(&declaration, &vec![], &vec![body.clone()], &vec![body.clone()]);
    assert_eq!(disposition_of(&rows, "guest1"), RoleDisposition::Exempt);
    let rows = compare_team(&declaration, &vec![], &vec![], &vec![]);
    assert_eq!(disposition_of(&rows, "guest1"), RoleDisposition::Retain);
}

#[test]
fn duplicate_live_bodies_are_flagged_for_manual_resolution() {
    let declaration = declaration(vec![role("dev")]);
    let bodies = vec![live(ID1, "dev"), live(ID2, "dev")];
    let rows = compare_team(&declaration, &vec![], &bodies, &bodies);
    assert_eq!(disposition_of(&rows, "dev"), RoleDisposition::Duplicate);
    assert_eq!(rows[0].live.len(), 2);
}

#[test]
fn a_lock_only_role_is_retained() {
    let declaration = declaration(vec![role("dev")]);
    let lock = vec![lock_pair("scout", ID2, true)];
    let rows = compare_team(&declaration, &lock, &vec![], &vec![]);
    assert_eq!(disposition_of(&rows, "scout"), RoleDisposition::Retain);
    let names: Vec<&str> = rows.iter().map(|row| row.role.as_str()).collect();
    assert_eq!(names, vec!["dev", "scout"]);
}

#[test]
fn a_lock_id_live_under_another_role_is_drift() {
    let declaration = declaration(vec![role("dev")]);
    let body = live(ID1, "scout");
    let lock = vec![lock_pair("dev", &body.id, false)];
    let rows = compare_team(&declaration, &lock, &vec![body.clone()], &vec![body.clone()]);
    let row = rows.iter().find(|row| row.role == "dev").unwrap();
    assert!(row.lock_drift);
    assert_eq!(row.disposition, RoleDisposition::Spawn);
}

#[test]
fn rows_follow_declaration_order_then_undeclared_names() {
    let declaration = declaration(vec![role("zeta"), role("alpha")]);
    let bodies = vec![live(ID1, "mid")];
    let rows = compare_team(&declaration, &vec![], &bodies, &bodies);
    let names: Vec<&str> = rows.iter().map(|row| row.role.as_str()).collect();
    assert_eq!(names, vec!["zeta", "alpha", "mid"]);
}

#[test]
fn undeclared_roles_come_sorted_by_name() {
    let declaration = declaration(vec![role("zeta")]);
    let bodies = vec![live(ID1, "pilot"), live(ID2, "mid")];
    let lock = vec![lock_pair("alpha", ID3, true)];
    let rows = compare_team(&declaration, &lock, &bodies, &bodies);
    let names: Vec<&str> = rows.iter().map(|row| row.role.as_str()).collect();
    assert_eq!(names, vec!["zeta", "alpha", "mid", "pilot"]);
}

#[test]
fn an_unmanaged_role_stays_exempt_even_with_duplicate_bodies() {
    let declaration = declaration(vec![unmanaged("guest1")]);
    let bodies = vec![live(ID1, "guest1"), live(ID2, "guest1")];
    let rows = compare_team(&declaration, &vec![], &bodies, &bodies);
    assert_eq!(disposition_of(&rows, "guest1"), RoleDisposition::Exempt);
}

#[test]
fn a_lock_record_pointing_at_the_root_drifts() {
    let declaration = declaration(vec![role("dev")]);
    let root = live(ID3, "root");
    let lock = vec![lock_pair("dev", &root.id, false)];
    let rows = compare_team(&declaration, &lock, &vec![], &vec![root.clone()]);
    let row = rows.iter().find(|row| row.role == "dev").unwrap();
    assert!(row.lock_drift);
    assert!(row.live.is_empty());
}

#[test]
fn a_declared_root_role_is_flagged_as_a_dead_end() {
    let declaration = declaration(vec![role("root")]);
    let rows = compare_team(&declaration, &vec![], &vec![], &vec![]);
    let row = rows.iter().find(|row| row.role == "root").unwrap();
    assert!(row.root_conflict);
    assert_eq!(row.disposition, RoleDisposition::Spawn);
}

#[test]
fn lock_pairs_parse_loose_roles_and_strict_ids() {
    let pairs = parse_lock_pairs("dev:11111111-1111-4111-8111-111111111111").unwrap();
    assert_eq!(pairs.len(), 1);
    assert_eq!(pairs[0].0, "dev");
    let pairs = parse_lock_pairs(
        "kallip:dev:11111111-1111-4111-8111-111111111111,scout:22222222-2222-4222-8222-222222222222",
    )
    .unwrap();
    assert_eq!(pairs[0].0, "kallip:dev");
    assert_eq!(pairs[1].0, "scout");
    assert!(parse_lock_pairs("dev-no-id").is_err());
    assert!(parse_lock_pairs(":11111111-1111-4111-8111-111111111111").is_err());
    assert!(parse_lock_pairs("dev:not-a-uuid").is_err());
}

#[test]
fn a_whitespace_padded_lock_role_is_refused() {
    let id = "11111111-1111-4111-8111-111111111111";
    assert!(parse_lock_pairs(&format!(" dev:{id}")).is_err());
    assert!(parse_lock_pairs(&format!("dev :{id}")).is_err());
    assert!(parse_lock_pairs(&format!("   :{id}")).is_err());
}

#[test]
fn a_repeated_lock_role_is_refused_rather_than_last_won() {
    let err = parse_lock_pairs(
        "dev:11111111-1111-4111-8111-111111111111,dev:22222222-2222-4222-8222-222222222222",
    )
    .unwrap_err();
    assert!(err.message.to_lowercase().contains("duplicate"));
}

#[test]
fn lock_pair_refusals_name_the_piece() {
    let err = parse_lock_pairs("dev-no-id").unwrap_err();
    assert_eq!(err.status, 400);
    assert_eq!(err.message, "malformed lock pair \"dev-no-id\": expected role:id");
    let err = parse_lock_pairs("dev:not-a-uuid").unwrap_err();
    assert_eq!(err.message, "malformed lock pair \"dev\": id is not a UUID");
    let err = parse_lock_pairs(&format!("dev :{ID1}")).unwrap_err();
    assert!(err.message.ends_with(": role has leading or trailing whitespace"));
    let pairs = parse_lock_pairs(&format!("a:{ID1},b:{ID2}")).unwrap();
    assert_eq!(pairs, vec![("a".to_string(), ID1.to_string()), ("b".to_string(), ID2.to_string())]);
}
