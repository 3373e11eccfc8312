use kallip_tagma::tasks::{api_error, close_gate_error, inject_actor_roles, TaskError, TaskEventActor};
use kallip_tagma::workspace::{establish_lock_api_error, exec_gate_failure, EstablishLockFailure, ExecGateFailure};

#[test]
fn gate_errors_map_to_conflict() {
    for err in [
        TaskError::InvalidTransition { detail: "task 1: cannot confirm from queued".into() },
        TaskError::SerialGate { detail: "scout is blocked by task 1".into() },
        TaskError::ConfirmationGate { detail: "missing confirmation from scout".into() },
        TaskError::ArchiveGate { detail: "task 1 is queued".into() },
    ] {
        assert_eq!(api_error(err).status, 409, "gates are conflicts");
    }
}

#[test]
fn unknown_ids_map_to_not_found() {
    let err = api_error(TaskError::NotFound { id: 7 });
    assert_eq!(err.status, 404);
    assert_eq!(err.message, "task 7 not found");
}

#[test]
fn association_invalid_maps_to_bad_request() {
    let err = TaskError::AssociationInvalid { detail: "empty range".into() };
    assert_eq!(api_error(err).status, 400);
}

#[test]
fn dossier_not_dir_maps_to_bad_request() {
    let err = TaskError::DossierNotDir { detail: "/no/such/dir".into() };
    assert_eq!(api_error(err).status, 400);
}

#[test]
fn anything_else_stays_internal() {
    let err = api_error(TaskError::Other { detail: "storage went away".into() });
    assert_eq!(err.status, 500);
    assert_eq!(err.message, "storage went away");
}

#[test]
fn report_too_large_maps_to_bad_request() {
    let err = TaskError::ReportTooLarge { detail: "report of 65537 bytes exceeds 65536".into() };
    assert_eq!(api_error(err).status, 400);
}

#[test]
fn confirmer_unresolved_maps_to_conflict() {
    let err = TaskError::ConfirmerUnresolved { detail: "confirmer ghost does not resolve".into() };
    assert_eq!(api_error(err).status, 409);
}

#[test]
fn actor_role_injection_covers_every_actor_shape() {
    let roles = vec![("agent-1".to_string(), "auditor-c".to_string())];
    let mut events: Vec<TaskEventActor> = [Some("agent-1"), Some("auditor-c"), Some("agent-gone"), Some("operator"), None]
        .iter()
        .map(|a| TaskEventActor { actor: a.map(|s| s.to_string()), actor_role: Some("stale".into()) })
        .collect();
    inject_actor_roles(&mut events, &roles);
    let got: Vec<Option<&str>> = events.iter().map(|e| e.actor_role.as_deref()).collect();
    assert_eq!(got, vec![Some("auditor-c"), None, None, None, None]);
    assert_eq!(events[2].actor.as_deref(), Some("agent-gone"));
}

#[test]
fn establish_lock_api_error_maps_status_codes() {
    let busy = EstablishLockFailure::Busy { holder: "x".into(), conflict: "/p".into() };
    let err = establish_lock_api_error(busy);
    assert_eq!(err.status, 409);
    assert_eq!(
        err.message,
        "workspace overlaps a write-lock on /p held by agent x; remove it or choose a non-overlapping workspace"
    );
    let other = EstablishLockFailure::AcquireFailed("boom".into());
    let err = establish_lock_api_error(other);
    assert_eq!(err.status, 400);
    assert_eq!(err.message, "failed to acquire workspace lock: boom");
    assert_eq!(establish_lock_api_error(EstablishLockFailure::HandoffWithoutSupervisor).status, 500);
    assert_eq!(establish_lock_api_error(EstablishLockFailure::ForwardTransferFailed("io".into())).status, 500);
}

#[test]
fn exec_gate_refusals_are_conflicts() {
    let err = exec_gate_failure(ExecGateFailure::BgTasksRunning(3));
    assert_eq!(err.status, 409);
    assert_eq!(err.message, "supervisor has 3 running background task(s); wait for them to finish and retry");
    let err = exec_gate_failure(ExecGateFailure::ForegroundExecInProgress);
    assert_eq!(err.message, "supervisor has an in-flight shell; wait for it to finish and retry");
}

#[test]
fn close_gate_names_missing_confirmers_by_role() {
    let roles = vec![("id-1".to_string(), "auditor".to_string()), ("id-2".to_string(), "qa".to_string())];
    let err = close_gate_error("id-1, carol, id-2", &roles);
    assert_eq!(err.status, 409);
    assert_eq!(
        err.message,
        "confirmation gate: missing confirmations from registered confirmers: auditor, carol, qa; --force to override (escape is recorded)"
    );
    let err = close_gate_error("id-2", &roles);
    assert_eq!(
        err.message,
        "confirmation gate: missing confirmations from registered confirmers: qa; --force to override (escape is recorded)"
    );
    let err = close_gate_error("a,b, ,, c", &roles);
    assert_eq!(
        err.message,
        "confirmation gate: missing confirmations from registered confirmers: a,b, ,, c; --force to override (escape is recorded)"
    );
}
