use kallip_tagma::auth::Identity;
use kallip_tagma::config::{AgentConfig, AgentIdentity, AgentState, DelegationMode, PermissionClass};
use kallip_tagma::dirlock::{acquire_chain, acquire_deadline_secs, acquire_step, AcquireOutcome, AcquireRequest, AcquireStep};
use kallip_tagma::inbox::{inbox_page_limit, ClearParams};
use kallip_tagma::lesche::{
    choose_target, collect_sessions, direct_format, direct_limit, history_limit, lesche_error,
    require_root_conversation, require_root_self, require_root_self_or_operator, DirectInfo,
    ExternalHistoryQuery, RelayListing, RoomInfo, SendTarget, SurfaceKind,
};
use kallip_tagma::registry::{AgentEntry, AgentRegistry, LiveAgent, RegistryEntry};
use kallip_tagma::skill_promote::{
    approve_check, approved_notice, denied_notice, local_skill_missing, missing_frontmatter, require_registered, submit_checks, skill_meta_error, status_filter, submit_notice,
    ListPromoteQuery, SharedSkill, SkillPromoteStatus,
};

fn live(created_by: Option<&str>, role: &str, token: &str) -> RegistryEntry {
    RegistryEntry::Live(AgentEntry {
        identity: AgentIdentity {
            config: AgentConfig {
                created_by: created_by.map(|s| s.to_string()),
                role: role.to_string(),
                description: String::new(),
                workspace_root: format!("/w/{role}"),
                permissions_class: PermissionClass::Normal,
                profile_set: None,
                delegation_mode: DelegationMode::CarveOut,
                max_depth: 2,
            },
            agent_dir: None,
        },
        agent: LiveAgent { state: AgentState::Idle, state_since: 0, auth_token_hash: token.into(), activity: String::new() },
        subagent_ids: Vec::new(),
    })
}

fn registry() -> AgentRegistry {
    let mut reg = AgentRegistry::new();
    reg.register_root("root".into(), live(None, "root", "h0")).unwrap();
    reg.register("sup".into(), live(Some("root"), "sup", "h1"));
    reg.register("leaf".into(), live(Some("sup"), "leaf", "h2"));
    reg
}

fn agent(id: &str) -> Identity {
    Identity::Agent { id: id.into() }
}

#[test]
fn acquires_default_to_five_seconds() {
    assert_eq!(acquire_deadline_secs(&AcquireRequest { path: "/w".into(), timeout_secs: None }), 5);
    assert_eq!(acquire_deadline_secs(&AcquireRequest { path: "/w".into(), timeout_secs: Some(30) }), 30);
}

#[test]
fn acquire_chains_walk_to_the_root() {
    let reg = registry();
    assert_eq!(acquire_chain(&reg, &agent("leaf"), &"leaf".into()).unwrap(), vec!["sup", "root"]);
    assert!(acquire_chain(&reg, &Identity::Operator, &"root".into()).unwrap().is_empty());
    assert!(acquire_chain(&reg, &Identity::Operator, &"ghost".into()).unwrap().is_empty());
    let err = acquire_chain(&reg, &agent("sup"), &"leaf".into()).unwrap_err();
    assert_eq!((err.status, err.message.as_str()), (403, "only the agent itself or operator is authorized for this action"));
}

#[test]
fn busy_locks_retry_until_the_deadline() {
    match acquire_step(AcquireOutcome::Acquired, false) {
        AcquireStep::Reply(r) => assert!(r.acquired && !r.already_held && r.holder.is_none()),
        _ => panic!("acquired replies"),
    }
    match acquire_step(AcquireOutcome::AlreadyHeld, true) {
        AcquireStep::Reply(r) => assert!(r.acquired && r.already_held),
        _ => panic!("already held replies"),
    }
    let busy = || AcquireOutcome::Busy { holder: "a1".into(), conflict: "/w/x".into() };
    assert!(matches!(acquire_step(busy(), false), AcquireStep::Retry));
    match acquire_step(busy(), true) {
        AcquireStep::Fail(e) => {
            assert_eq!(e.status, 409);
            assert_eq!(e.message, "directory write-lock on /w/x held by agent a1; peer-message the holder to coordinate, then retry");
        }
        _ => panic!("a busy lock past the deadline fails"),
    }
    match acquire_step(AcquireOutcome::Refused("path escapes".into()), false) {
        AcquireStep::Fail(e) => assert_eq!((e.status, e.message.as_str()), (400, "path escapes")),
        _ => panic!("refused fails"),
    }
}

#[test]
fn inbox_pages_are_bounded() {
    assert_eq!(inbox_page_limit(None), 50);
    assert_eq!(inbox_page_limit(Some(10)), 10);
    assert_eq!(inbox_page_limit(Some(5000)), 200);
    assert!(!ClearParams::default().all);
}

#[test]
fn only_the_root_speaks_to_the_user() {
    let reg = registry();
    assert!(require_root_self(&reg, &agent("root"), &"root".into()).is_ok());
    let err = require_root_self(&reg, &Identity::Operator, &"root".into()).unwrap_err();
    assert_eq!(err.status, 403);
    let err = require_root_self(&reg, &agent("sup"), &"sup".into()).unwrap_err();
    assert_eq!(err.status, 403);
    assert!(err.message.starts_with("delivering messages to the user requires the root agent"));
    assert!(require_root_self_or_operator(&reg, &Identity::Operator, &"root".into()).is_ok());
    let err = require_root_self_or_operator(&reg, &Identity::Operator, &"sup".into()).unwrap_err();
    assert_eq!(err.message, "reading lesche surfaces requires the root agent");
    let err = require_root_conversation(&reg, &"sup".into(), "the external history").unwrap_err();
    assert_eq!((err.status, err.message.as_str()), (404, "the external history is root-only; the direct conversation is the root's"));
}

#[test]
fn sends_address_exactly_one_surface() {
    assert!(matches!(choose_target(None, None, false).unwrap(), SendTarget::Bilateral));
    assert!(matches!(choose_target(Some("r1".into()), None, false).unwrap(), SendTarget::Room(r) if r == "r1"));
    assert!(matches!(choose_target(None, Some("t9".into()), true).unwrap(), SendTarget::Direct(t) if t == "t9"));
    assert_eq!(choose_target(Some("r".into()), Some("t".into()), false).unwrap_err().status, 400);
    assert_eq!(
        choose_target(Some("r".into()), None, true).unwrap_err().message,
        "attachments ride direct-session sends only; a room send is text"
    );
    assert_eq!(
        choose_target(None, None, true).unwrap_err().message,
        "attachments ride direct-session sends only; the bilateral send is text"
    );
}

#[test]
fn history_reads_are_bounded() {
    assert_eq!(history_limit(&ExternalHistoryQuery::default()), 50);
    assert_eq!(history_limit(&ExternalHistoryQuery { after: None, before: Some(3), limit: Some(7) }), 7);
    assert_eq!(history_limit(&ExternalHistoryQuery { after: None, before: None, limit: Some(700) }), 50);
    assert_eq!(direct_format(&None).unwrap(), false);
    assert_eq!(direct_format(&Some("json".into())).unwrap(), true);
    assert_eq!(direct_format(&Some("xml".into())).unwrap_err().message, "unsupported format: xml (only json)");
    assert_eq!(direct_limit(None, true), Some(25));
    assert_eq!(direct_limit(None, false), None);
    assert_eq!(direct_limit(Some(3), true), Some(3));
}

#[test]
fn lesche_failures_map_to_404_or_502() {
    let e = lesche_error("send", true, "ignored");
    assert_eq!((e.status, e.message.as_str()), (404, "send: unknown target or not a member"));
    let e = lesche_error("send", false, "relay down");
    assert_eq!((e.status, e.message.as_str()), (502, "send: relay down"));
}

#[test]
fn sessions_list_each_surface_once_in_order() {
    let relay_a = RelayListing {
        rooms: Some(vec![
            RoomInfo { room_id: "rb".into(), name: Some("B".into()) },
            RoomInfo { room_id: "ra".into(), name: None },
        ]),
        directs: Some(vec![DirectInfo { session_id: "d1".into(), peer_tagma: "t1".into(), peer_handle: "h1".into() }]),
    };
    let relay_b = RelayListing {
        rooms: Some(vec![RoomInfo { room_id: "rb".into(), name: Some("B".into()) }]),
        directs: None,
    };
    let out = collect_sessions(Some("conv".into()), &vec![relay_a, relay_b]);
    let keys: Vec<(&str, &str)> = out.iter().map(|e| (e.kind.name(), e.id.as_str())).collect();
    assert_eq!(keys, vec![("bilateral", "conv"), ("direct", "d1"), ("room", "ra"), ("room", "rb")]);
    assert_eq!(out[1].peer_handle.as_deref(), Some("h1"));
    assert_eq!(out[3].name.as_deref(), Some("B"));
    assert_eq!(out[0].kind, SurfaceKind::Bilateral);
    let failed = RelayListing { rooms: None, directs: None };
    assert!(collect_sessions(None, &vec![failed]).is_empty());
}

#[test]
fn promotion_filters_and_checks() {
    assert_eq!(status_filter(&ListPromoteQuery::default()).unwrap(), None);
    assert_eq!(
        status_filter(&ListPromoteQuery { status: Some("denied".into()) }).unwrap(),
        Some(SkillPromoteStatus::Denied)
    );
    assert_eq!(
        status_filter(&ListPromoteQuery { status: Some("done".into()) }).unwrap_err().message,
        "invalid status filter 'done'; valid values: pending, approved, denied"
    );
    let name = "grep-tricks".to_string();
    assert!(approve_check(&name, &None, &SharedSkill::Missing).is_ok());
    assert!(approve_check(&name, &Some("v1".into()), &SharedSkill::Read("v1".into())).is_ok());
    let e = approve_check(&name, &Some("v1".into()), &SharedSkill::Read("v2".into())).unwrap_err();
    assert_eq!(e.status, 409);
    let e = approve_check(&name, &None, &SharedSkill::Read("x".into())).unwrap_err();
    assert_eq!(e.message, "a shared skill 'grep-tricks' was created while this request was pending; please resubmit");
    let e = approve_check(&name, &Some("v1".into()), &SharedSkill::ReadFailed("denied".into())).unwrap_err();
    assert_eq!((e.status, e.message.as_str()), (500, "failed to read shared skill: denied"));
}

#[test]
fn promotion_notices_read_exactly() {
    assert_eq!(
        denied_notice(&None),
        "[Skill Promotion Result] Your request to promote a skill has been denied: no reason provided."
    );
    assert_eq!(
        denied_notice(&Some("too broad".into())),
        "[Skill Promotion Result] Your request to promote a skill has been denied: too broad."
    );
    assert!(approved_notice(&"s".into()).contains("skill 's' has been approved"));
    let n = submit_notice(&"a1".into(), &"s".into(), &"r7".into());
    assert!(n.starts_with("[Skill Promotion Request] Agent a1 requests to promote skill 's'"));
    assert!(n.contains("kallip skill promote approve r7"));
}

#[test]
fn skill_lookups_separate_bad_names_from_missing_files() {
    let reg = registry();
    assert!(require_registered(&reg, &"leaf".to_string()).is_ok());
    let err = require_registered(&reg, &"ghost".to_string()).unwrap_err();
    assert_eq!((err.status, err.message.as_str()), (404, "agent not found"));
    let err = skill_meta_error("../x", "invalid skill name: '../x' escapes the skills root");
    assert_eq!((err.status, err.message.as_str()), (400, "invalid skill name: '../x' escapes the skills root"));
    let err = skill_meta_error("meta", "reserved skill name 'meta'");
    assert_eq!(err.status, 400);
    let err = skill_meta_error("code/refactoring", "No such file or directory (os error 2)");
    assert_eq!((err.status, err.message.as_str()), (404, "skill 'code/refactoring' not found"));
}

#[test]
fn promotion_submissions_are_checked_before_any_file_read() {
    let mut reg = registry();
    let mut withdir = live(Some("root"), "keeper", "h9");
    if let RegistryEntry::Live(e) = &mut withdir {
        e.identity.agent_dir = Some("/data/agents/keeper".into());
    }
    reg.register("keeper".into(), withdir);
    let name = "code/refactoring".to_string();
    let err = submit_checks(&reg, &agent("leaf"), &"keeper".into(), &name, None, "meta").unwrap_err();
    assert_eq!((err.status, err.message.as_str()), (403, "only the agent itself or operator is authorized for this action"));
    let err = submit_checks(&reg, &agent("keeper"), &"keeper".into(), &name, Some("invalid skill name".into()), "meta").unwrap_err();
    assert_eq!((err.status, err.message.as_str()), (400, "invalid skill name"));
    let err = submit_checks(&reg, &Identity::Operator, &"keeper".into(), &"meta".into(), None, "meta").unwrap_err();
    assert_eq!((err.status, err.message.as_str()), (400, "cannot promote the 'meta' skill; it is managed by the skill system"));
    let err = submit_checks(&reg, &Identity::Operator, &"ghost".into(), &name, None, "meta").unwrap_err();
    assert_eq!((err.status, err.message.as_str()), (404, "agent not found"));
    let err = submit_checks(&reg, &Identity::Operator, &"leaf".into(), &name, None, "meta").unwrap_err();
    assert_eq!((err.status, err.message.as_str()), (404, "agent has no persistent directory"));
    assert_eq!(submit_checks(&reg, &agent("keeper"), &"keeper".into(), &name, None, "meta").unwrap(), "/data/agents/keeper");
    let err = local_skill_missing(&name, &"/data/agents/keeper/skills/code/refactoring.md".into());
    assert_eq!((err.status, err.message.as_str()), (404, "local skill 'code/refactoring' not found at /data/agents/keeper/skills/code/refactoring.md"));
    let err = missing_frontmatter(&name);
    assert_eq!(err.message, "skill 'code/refactoring' has no valid frontmatter; a 'name' field in YAML frontmatter is required");
}
