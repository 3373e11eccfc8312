use kallip_tagma::auth::Identity;
use kallip_tagma::probe::probe_request_check;

#[test]
fn probe_requires_operator() {
    let err = probe_request_check(&Identity::Agent { id: "a".into() }, 0, &vec![], 8, 32).unwrap_err();
    assert_eq!((err.status, err.message.as_str()), (403, "operator token required"));
}

#[test]
fn probe_rejects_more_than_max_providers() {
    let err = probe_request_check(&Identity::Operator, 9, &vec![], 8, 32).unwrap_err();
    assert_eq!(err.status, 400);
    assert_eq!(err.message, "probe request carries 9 endpoints; at most 8 per request");
    assert!(err.message.contains("at most"));
    assert!(probe_request_check(&Identity::Operator, 8, &vec![], 8, 32).is_ok());
}

#[test]
fn probe_rejects_more_than_max_profiles() {
    let err = probe_request_check(&Identity::Operator, 1, &vec![20, 13], 8, 32).unwrap_err();
    assert_eq!(err.status, 400);
    assert_eq!(err.message, "probe request carries 33 tier profiles; at most 32 per request");
    assert!(probe_request_check(&Identity::Operator, 1, &vec![20, 12], 8, 32).is_ok());
}
