use kallip_tagma::auth::Identity;
use kallip_tagma::budget::{
    parse_token_amount, startup_token_budget, update_budget, TokenBudget, TokenBudgetUpdateRequest,
};

fn req(set_remaining: Option<u64>, delta: Option<i64>, set_unlimited: bool) -> TokenBudgetUpdateRequest {
    TokenBudgetUpdateRequest { set_remaining, delta, set_unlimited }
}

#[test]
fn startup_token_budget_covers_grammar_and_error_paths() {
    // Unset → unlimited (enforcement off, tracking on).
    let b = startup_token_budget(None).expect("unset boots");
    assert!(b.unlimited);
    assert!(!b.is_exceeded());

    for (raw, expected) in [("500", 500u64), ("5K", 5_000), ("5M", 5_000_000), ("2G", 2_000_000_000)] {
        let b = startup_token_budget(Some(raw.to_string())).unwrap_or_else(|e| panic!("{raw:?}: {e}"));
        assert_eq!(b.budget, expected, "raw = {raw:?}");
        assert!(!b.unlimited);
        assert_eq!(b.consumed, 0);
    }

    // Zero = startup paused (same semantics as `budget set 0`).
    let b = startup_token_budget(Some("0".to_string())).expect("zero boots");
    assert!(b.is_exceeded());

    for bad in ["", "abc", "-5M", "10X"] {
        let err = startup_token_budget(Some(bad.to_string())).expect_err("invalid values must fail-fast");
        assert!(err.contains(bad) || bad.is_empty(), "{err}");
    }
}

#[test]
fn token_amounts_refuse_overflow_and_bare_suffixes() {
    assert_eq!(parse_token_amount("18446744073709551615"), Ok(u64::MAX));
    assert!(parse_token_amount("18446744073709551616").is_err());
    assert!(parse_token_amount("20000000000G").is_err());
    assert!(parse_token_amount("K").is_err());
    assert!(parse_token_amount("5KK").is_err());
    assert_eq!(parse_token_amount("007"), Ok(7));
    let err = startup_token_budget(Some("abc".to_string())).unwrap_err();
    assert_eq!(
        err,
        "invalid value \"abc\": expected a whole number of tokens, optionally followed by K, M or G"
    );
}

#[test]
fn budget_writes_are_operator_only() {
    let mut b = TokenBudget::new(100, 10);
    let agent = Identity::Agent { id: "a1".into() };
    let err = update_budget(&mut b, &agent, req(Some(5), None, false)).unwrap_err();
    assert_eq!(err.status, 403);
    assert_eq!(err.message, "operator token required");
    assert_eq!(b, TokenBudget::new(100, 10));
}

#[test]
fn budget_write_needs_exactly_one_shape() {
    let mut b = TokenBudget::new(100, 10);
    let err = update_budget(&mut b, &Identity::Operator, req(Some(5), Some(3), false)).unwrap_err();
    assert_eq!(err.status, 400);
    assert_eq!(err.message, "cannot specify more than one of 'set_remaining', 'delta', 'set_unlimited'");
    let err = update_budget(&mut b, &Identity::Operator, req(None, None, false)).unwrap_err();
    assert_eq!(err.status, 400);
    assert_eq!(err.message, "must specify one of 'set_remaining', 'delta', or 'set_unlimited'");
    assert_eq!(b, TokenBudget::new(100, 10));
}

#[test]
fn set_remaining_counts_from_consumption_and_leaves_unlimited() {
    let mut b = TokenBudget::unlimited();
    b.consumed = 40;
    let resp = update_budget(&mut b, &Identity::Operator, req(Some(60), None, false)).unwrap();
    assert_eq!(b, TokenBudget::new(100, 40));
    assert_eq!((resp.budget, resp.consumed, resp.remaining, resp.unlimited), (100, 40, 60, false));
    // Zero pauses: the budget sits exactly at the consumption.
    let resp = update_budget(&mut b, &Identity::Operator, req(Some(0), None, false)).unwrap();
    assert_eq!(resp.remaining, 0);
    assert!(b.is_exceeded());
}

#[test]
fn delta_adjusts_a_finite_budget() {
    let mut b = TokenBudget::new(100, 40);
    let resp = update_budget(&mut b, &Identity::Operator, req(None, Some(-30), false)).unwrap();
    assert_eq!((resp.budget, resp.remaining), (70, 30));
    let err = update_budget(&mut b, &Identity::Operator, req(None, Some(-30), false)).unwrap_err();
    assert_eq!(err.status, 409);
    assert_eq!(err.message, "new budget (40) would be at or below tokens already consumed (40)");
    let err = update_budget(&mut b, &Identity::Operator, req(None, Some(0), false)).unwrap_err();
    assert_eq!((err.status, err.message.as_str()), (400, "delta must be non-zero"));
    assert_eq!(b, TokenBudget::new(70, 40));
}

#[test]
fn delta_on_unlimited_is_refused() {
    let mut b = TokenBudget::new(100, 40);
    let resp = update_budget(&mut b, &Identity::Operator, req(None, None, true)).unwrap();
    assert!(resp.unlimited);
    assert_eq!((resp.budget, resp.remaining, resp.consumed), (0, 0, 40));
    let err = update_budget(&mut b, &Identity::Operator, req(None, Some(5), false)).unwrap_err();
    assert_eq!(err.status, 409);
    assert_eq!(err.message, "budget is unlimited; set a finite budget first");
}

#[test]
fn negative_attempted_budget_is_reported_signed() {
    let mut b = TokenBudget::new(10, 0);
    let err = update_budget(&mut b, &Identity::Operator, req(None, Some(-25), false)).unwrap_err();
    assert_eq!(err.message, "new budget (-15) would be at or below tokens already consumed (0)");
}

#[test]
fn usage_saturates_and_snapshot_never_goes_negative() {
    let mut b = TokenBudget::new(100, 90);
    b.record_usage(20, 5);
    assert_eq!(b.consumed, 115);
    let s = b.snapshot();
    assert_eq!((s.budget, s.remaining), (100, 0));
    b.record_usage(u64::MAX, 1);
    assert_eq!(b.consumed, u64::MAX);
}
