use kallip_tagma::profiles::{
    masked_config, merge_wire, references_grew, Modality, Profile, ProfileConfig, ProfileConfigWire,
    ProfileSet, Provider, ProviderPatch, ReasoningEffort, SetReference, SetWire,
};
use kallip_tagma::text::mask_key;

fn profile(id: &str, model: &str, window: usize) -> Profile {
    Profile {
        id: id.into(),
        endpoint: "main".into(),
        model: model.into(),
        max_context_window: window,
        store: None,
        effort: None,
        modalities: vec![Modality::Text],
    }
}

fn live_config() -> ProfileConfig {
    ProfileConfig {
        default: String::new(),
        sets: Vec::new(),
        endpoints: vec![(
            "main".into(),
            Provider {
                id: "main".into(),
                family: "deepseek".into(),
                api_key: "sk-live-secret-key".into(),
                base_url: Some("https://live.example/v1".into()),
            },
        )],
        parking: vec![profile("parked", "pm", 64_000)],
    }
}

fn main_patch(api_key: Option<&str>, base_url: Option<&str>) -> (String, ProviderPatch) {
    (
        "main".into(),
        ProviderPatch {
            id: "main".into(),
            family: "deepseek".into(),
            api_key: api_key.map(|s| s.to_string()),
            base_url: base_url.map(|s| s.to_string()),
        },
    )
}

fn set(name: &str, profiles: Vec<Profile>) -> SetWire {
    SetWire { name: name.into(), description: None, profiles }
}

fn wire_of(sets: Vec<SetWire>, default: Option<&str>) -> ProfileConfigWire {
    ProfileConfigWire {
        sets,
        default: default.map(|s| s.to_string()),
        endpoints: vec![main_patch(None, None)],
        parking: None,
        force: false,
    }
}

/// One set "a" with one profile "p"; the key and url tri-states as given.
fn wire(api_key: Option<&str>, base_url: Option<&str>) -> ProfileConfigWire {
    let mut w = wire_of(vec![set("a", vec![profile("p", "m", 128000)])], None);
    w.endpoints = vec![main_patch(api_key, base_url)];
    w
}

fn set_named<'a>(cfg: &'a ProfileConfig, name: &str) -> &'a ProfileSet {
    cfg.sets.iter().find(|s| s.name == name).unwrap()
}

fn endpoint<'a>(cfg: &'a ProfileConfig, key: &str) -> &'a Provider {
    &cfg.endpoints.iter().find(|e| e.0 == key).unwrap().1
}

#[test]
fn mask_key_shapes() {
    assert_eq!(mask_key(""), "");
    assert_eq!(mask_key("12345678"), "********");
    assert_eq!(mask_key("123456789"), "1234********6789");
    assert_eq!(mask_key("sk-abcdef123456wxyz"), "sk-a********wxyz");
    // Multibyte input masks by chars, never splitting a code point.
    assert_eq!(mask_key("密钥密钥"), "********");
}

#[test]
fn merge_wire_profile_behavior_fields_pass_through() {
    let mut tuned = profile("tuned", "m", 8);
    tuned.store = Some(false);
    tuned.effort = Some(ReasoningEffort::Low);
    let mut parked = profile("parked", "m3", 8);
    parked.store = Some(false);
    parked.effort = Some(ReasoningEffort::Xhigh);
    let mut w = wire_of(vec![set("a", vec![tuned, profile("plain", "m2", 8)])], Some("a"));
    w.parking = Some(vec![parked]);
    let cfg = merge_wire(&live_config(), &w).unwrap();
    let profiles = &set_named(&cfg, "a").profiles;
    assert_eq!(profiles[0].store, Some(false));
    assert_eq!(profiles[0].effort, Some(ReasoningEffort::Low));
    assert_eq!(profiles[1].store, None);
    assert_eq!(profiles[1].effort, None);
    let parked = &cfg.parking;
    assert_eq!(parked.len(), 1);
    assert_eq!(parked[0].store, Some(false));
    assert_eq!(parked[0].effort, Some(ReasoningEffort::Xhigh));
}

#[test]
fn references_grew_flags_only_new_ids_and_root() {
    let a = SetReference { id: "11111111-1111-4111-8111-111111111111".into(), role: "a".into() };
    let same_again = SetReference { id: a.id.clone(), role: "a".into() };
    assert!(!references_grew(&vec![a.clone()], &vec![same_again], false));
    let b = SetReference { id: "22222222-2222-4222-8222-222222222222".into(), role: "b".into() };
    assert!(references_grew(&vec![a], &vec![b], false));
    assert!(references_grew(&vec![], &vec![], true));
}

#[test]
fn merge_wire_duplicate_profile_id_across_sets_is_rejected() {
    let w = wire_of(
        vec![set("a", vec![profile("p", "m", 8)]), set("b", vec![profile("p", "m", 8)])],
        Some("a"),
    );
    let err = merge_wire(&live_config(), &w).unwrap_err();
    assert!(err.message.contains("duplicate profile id 'p'"), "got: {}", err.message);
}

#[test]
fn merge_wire_rejects_set_profile_without_text() {
    let mut p = profile("p", "m", 8);
    p.modalities = vec![Modality::Image];
    let w = wire_of(vec![set("a", vec![p])], Some("a"));
    let err = merge_wire(&live_config(), &w).unwrap_err();
    assert!(err.message.contains("must accept text"), "got: {}", err.message);
}

#[test]
fn merge_wire_rejects_parking_profile_without_text() {
    let mut pk = profile("pk", "m", 8);
    pk.modalities = vec![Modality::Image];
    let mut w = wire_of(vec![set("a", vec![profile("ok", "m", 8)])], Some("a"));
    w.parking = Some(vec![pk]);
    let err = merge_wire(&live_config(), &w).unwrap_err();
    assert!(err.message.contains("must accept text"), "got: {}", err.message);
}

#[test]
fn merge_wire_rejects_invalid_set_name() {
    let w = wire_of(vec![set("bad name!", vec![profile("p", "m", 8)])], None);
    let err = merge_wire(&live_config(), &w).unwrap_err();
    assert!(err.message.contains("set name 'bad name!'"), "got: {}", err.message);
}

#[test]
fn merge_wire_rejects_duplicate_set_name() {
    let w = wire_of(
        vec![set("a", vec![profile("p1", "m", 8)]), set("a", vec![profile("p2", "m", 8)])],
        Some("a"),
    );
    let err = merge_wire(&live_config(), &w).unwrap_err();
    assert!(err.message.contains("duplicate set name 'a'"), "got: {}", err.message);
}

#[test]
fn merge_wire_rejects_default_naming_missing_set() {
    let w = wire_of(vec![set("a", vec![profile("p", "m", 8)])], Some("ghost"));
    let err = merge_wire(&live_config(), &w).unwrap_err();
    assert!(
        err.message.contains("default set name 'ghost' does not match any set"),
        "got: {}",
        err.message
    );
}

#[test]
fn merge_wire_absent_parking_keeps_live() {
    let merged = merge_wire(&live_config(), &wire(None, None)).unwrap();
    assert_eq!(merged.parking.len(), 1);
    assert_eq!(merged.parking[0].id, "parked");
}

#[test]
fn merge_wire_parking_list_replaces() {
    let mut w = wire(None, None);
    w.parking = Some(vec![profile("new", "m2", 8)]);
    let merged = merge_wire(&live_config(), &w).unwrap();
    assert_eq!(merged.parking.len(), 1);
    assert_eq!(merged.parking[0].id, "new");
    // An explicitly empty list clears (absent ≠ empty on this field).
    let mut w = wire(None, None);
    w.parking = Some(vec![]);
    let merged = merge_wire(&live_config(), &w).unwrap();
    assert!(merged.parking.is_empty());
}

#[test]
fn merge_wire_rejects_set_id_colliding_with_kept_live_parking() {
    let w = wire_of(vec![set("a", vec![profile("parked", "m", 8)])], None);
    let err = merge_wire(&live_config(), &w).unwrap_err();
    assert!(err.message.contains("duplicate profile id 'parked'"), "got: {}", err.message);
}

#[test]
fn merge_wire_null_keeps_live_key() {
    let merged = merge_wire(&live_config(), &wire(None, None)).unwrap();
    assert_eq!(endpoint(&merged, "main").api_key, "sk-live-secret-key");
}

#[test]
fn merge_wire_masked_echo_keeps_live_key() {
    // A GET→PUT round-trip of the masked form must not corrupt the key.
    let masked = mask_key("sk-live-secret-key");
    let merged = merge_wire(&live_config(), &wire(Some(&masked), None)).unwrap();
    assert_eq!(endpoint(&merged, "main").api_key, "sk-live-secret-key");
}

#[test]
fn merge_wire_string_replaces_key() {
    let merged = merge_wire(&live_config(), &wire(Some("sk-new-key-123"), None)).unwrap();
    assert_eq!(endpoint(&merged, "main").api_key, "sk-new-key-123");
}

#[test]
fn merge_wire_new_endpoint_without_key_is_rejected() {
    let mut w = wire(None, None);
    w.endpoints.push((
        "extra".into(),
        ProviderPatch { id: "extra".into(), family: "deepseek".into(), api_key: None, base_url: None },
    ));
    let err = merge_wire(&live_config(), &w).unwrap_err();
    assert!(err.message.contains("'extra' is new"), "got: {}", err.message);
}

#[test]
fn merge_wire_empty_key_is_rejected() {
    let err = merge_wire(&live_config(), &wire(Some(""), None)).unwrap_err();
    assert!(err.message.contains("must not be empty"), "got: {}", err.message);
}

#[test]
fn merge_wire_null_base_url_keeps_live_url() {
    let merged = merge_wire(&live_config(), &wire(None, None)).unwrap();
    assert_eq!(endpoint(&merged, "main").base_url.as_deref(), Some("https://live.example/v1"));
}

#[test]
fn merge_wire_empty_base_url_clears_to_family_default() {
    let merged = merge_wire(&live_config(), &wire(None, Some(""))).unwrap();
    assert_eq!(endpoint(&merged, "main").base_url, None);
}

#[test]
fn merge_wire_base_url_string_replaces() {
    let merged = merge_wire(&live_config(), &wire(None, Some("https://new.example/v1"))).unwrap();
    assert_eq!(endpoint(&merged, "main").base_url.as_deref(), Some("https://new.example/v1"));
}

#[test]
fn merge_wire_map_key_mismatch_is_rejected() {
    let mut w = wire_of(vec![], None);
    w.endpoints = vec![(
        "wrong".into(),
        ProviderPatch { id: "main".into(), family: "deepseek".into(), api_key: None, base_url: None },
    )];
    let err = merge_wire(&live_config(), &w).unwrap_err();
    assert!(err.message.contains("does not match"), "got: {}", err.message);
}

#[test]
fn merge_wire_single_set_becomes_the_default() {
    let merged = merge_wire(&live_config(), &wire(None, None)).unwrap();
    assert_eq!(merged.default, "a");
    assert_eq!(merged.sets.len(), 1);
    assert_eq!(merged.sets[0].profiles[0].id, "p");
}

#[test]
fn masked_config_masks_every_key_and_keeps_the_rest() {
    let masked = masked_config(&live_config());
    let ep = endpoint(&masked, "main");
    assert_eq!(ep.api_key, "sk-l********-key");
    assert_eq!(ep.family, "deepseek");
    assert_eq!(ep.base_url.as_deref(), Some("https://live.example/v1"));
    assert_eq!(masked.parking.len(), 1);
}
