use kallip_tagma::auth::Identity;
use kallip_tagma::config::{AgentConfig, AgentIdentity, AgentState, DelegationMode, PermissionClass};
use kallip_tagma::ingest::{
    history_text, image_pointer, ingest_media_type, ingest_scope, ingest_target, live_text, require_image_record,
};
use kallip_tagma::profiles::Modality;
use kallip_tagma::registry::{AgentEntry, AgentRegistry, FaultedEntry, LiveAgent, RegistryEntry};

fn cfg(created_by: Option<&str>) -> AgentConfig {
    AgentConfig {
        created_by: created_by.map(|s| s.to_string()),
        role: "r".into(),
        description: String::new(),
        workspace_root: "/w/r".into(),
        permissions_class: PermissionClass::Normal,
        profile_set: None,
        delegation_mode: DelegationMode::CarveOut,
        max_depth: 1,
    }
}

#[test]
fn ingest_is_self_scoped() {
    let a = "a1".to_string();
    assert!(ingest_scope(&Identity::Operator, &a).is_ok());
    assert!(ingest_scope(&Identity::Agent { id: "a1".into() }, &a).is_ok());
    let err = ingest_scope(&Identity::Agent { id: "a2".into() }, &a).unwrap_err();
    assert_eq!((err.status, err.message.as_str()), (403, "agents may only ingest into their own context"));
}

#[test]
fn record_form_takes_images_only() {
    assert!(require_image_record(Modality::Image).is_ok());
    for m in [Modality::Audio, Modality::Video, Modality::Text] {
        let err = require_image_record(m).unwrap_err();
        assert_eq!(err.status, 400);
        assert_eq!(err.message, "only image ingest is wired; audio and video have no part assembly yet");
    }
}

#[test]
fn inline_media_type_from_content_type() {
    assert_eq!(ingest_media_type(Some("image/jpeg")).unwrap(), "image/jpeg");
    assert_eq!(ingest_media_type(Some("image/png; charset=binary")).unwrap(), "image/png");
    assert_eq!(ingest_media_type(Some("  image/gif ;q=1")).unwrap(), "image/gif");
    assert_eq!(ingest_media_type(None).unwrap(), "image/png");
    let err = ingest_media_type(Some("text/plain")).unwrap_err();
    assert_eq!(err.status, 400);
    assert_eq!(err.message, "only image ingest is wired; got media type \"text/plain\"");
    assert!(err.message.contains("only image"));
    let err = ingest_media_type(Some("imag")).unwrap_err();
    assert_eq!(err.message, "only image ingest is wired; got media type \"imag\"");
    let err = ingest_media_type(Some("")).unwrap_err();
    assert_eq!(err.message, "only image ingest is wired; got media type \"\"");
}

#[test]
fn recorded_text_forms() {
    let pointer = image_pointer("00000000-0000-0000-0000-000000000000");
    assert_eq!(pointer, "[image 00000000-0000-0000-0000-000000000000]");
    let caption = Some("a chart".to_string());
    assert_eq!(history_text(&caption, &pointer), "a chart\n[image 00000000-0000-0000-0000-000000000000]");
    assert_eq!(history_text(&None, &pointer), pointer);
    assert_eq!(live_text(&caption, &pointer), "a chart");
    assert_eq!(live_text(&None, &pointer), pointer);
}

#[test]
fn ingest_needs_a_live_target() {
    let mut reg = AgentRegistry::new();
    reg.register_root(
        "root".into(),
        RegistryEntry::Live(AgentEntry {
            identity: AgentIdentity { config: cfg(None), agent_dir: None },
            agent: LiveAgent { state: AgentState::Idle, state_since: 0, auth_token_hash: "h".into(), activity: String::new() },
            subagent_ids: vec![],
        }),
    )
    .unwrap();
    reg.register(
        "f1".into(),
        RegistryEntry::Faulted(FaultedEntry {
            identity: AgentIdentity { config: cfg(Some("root")), agent_dir: None },
            subagent_ids: vec![],
            reason: "x".into(),
            at: 0,
        }),
    );
    assert!(ingest_target(&reg, &"root".to_string()).is_ok());
    let err = ingest_target(&reg, &"f1".to_string()).unwrap_err();
    assert_eq!((err.status, err.message.as_str()), (503, "agent is faulted; there is no live context to ingest into"));
    let err = ingest_target(&reg, &"ghost".to_string()).unwrap_err();
    assert_eq!((err.status, err.message.as_str()), (404, "no agent ghost"));
}
