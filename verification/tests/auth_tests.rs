use gdynya::AccessKind;
use gdynya::AuthPolicy;
use gdynya::AuthRules;
use gdynya::CheckOutcome;
use gdynya::CrateName;
use gdynya::CrateRule;
use gdynya::Evidence;
use gdynya::Rule;

fn rules() -> AuthRules {
    AuthRules::new(vec![
        (
            "demo".to_string(),
            CrateRule {
                read: Rule::Is { user: "alice".to_string() },
                write: Rule::InOrgs { org: "acme".to_string() },
            },
        ),
    ])
}

fn name(s: &str) -> CrateName {
    CrateName::parse(s).unwrap()
}

#[test]
fn unknown_crate_is_denied_at_once() {
    let mut policy = AuthPolicy::new_from_config(rules());
    let outcome = policy.begin_check(AccessKind::Read, &name("other"), "tok", 0);
    assert!(matches!(outcome, CheckOutcome::Decided(false)));
}

#[test]
fn failed_identity_lookup_is_denied() {
    let mut policy = AuthPolicy::new_from_config(rules());
    let outcome = policy.begin_check(AccessKind::Read, &name("demo"), "tok", 0);
    assert!(matches!(outcome, CheckOutcome::NeedsEvidence(_)));
    let allowed = policy.settle_check(AccessKind::Read, &name("demo"), "tok", 0, &Evidence::Failed);
    assert!(!allowed);
}

#[test]
fn exact_login_satisfies_an_is_rule() {
    let mut policy = AuthPolicy::new_from_config(rules());
    let allowed = policy.settle_check(
        AccessKind::Read,
        &name("demo"),
        "tok",
        0,
        &Evidence::Login { login: "alice".to_string() },
    );
    assert!(allowed);
}

#[test]
fn other_login_fails_an_is_rule() {
    let mut policy = AuthPolicy::new_from_config(rules());
    let allowed = policy.settle_check(
        AccessKind::Read,
        &name("demo"),
        "tok",
        0,
        &Evidence::Login { login: "mallory".to_string() },
    );
    assert!(!allowed);
}

#[test]
fn membership_satisfies_an_in_orgs_rule() {
    let mut policy = AuthPolicy::new_from_config(rules());
    let allowed = policy.settle_check(
        AccessKind::Write,
        &name("demo"),
        "tok",
        0,
        &Evidence::Membership {
            login: "carol".to_string(),
            members: vec!["bob".to_string(), "carol".to_string()],
        },
    );
    assert!(allowed);
}

#[test]
fn non_membership_fails_an_in_orgs_rule() {
    let mut policy = AuthPolicy::new_from_config(rules());
    let allowed = policy.settle_check(
        AccessKind::Write,
        &name("demo"),
        "tok",
        0,
        &Evidence::Membership { login: "mallory".to_string(), members: vec!["bob".to_string()] },
    );
    assert!(!allowed);
}

#[test]
fn evidence_of_the_wrong_shape_is_denied() {
    let mut policy = AuthPolicy::new_from_config(rules());
    // The read rule wants a login; membership evidence satisfies nothing.
    let allowed = policy.settle_check(
        AccessKind::Read,
        &name("demo"),
        "tok",
        0,
        &Evidence::Membership {
            login: "alice".to_string(),
            members: vec!["alice".to_string()],
        },
    );
    assert!(!allowed);
}

#[test]
fn decision_is_cached_within_the_window_and_expires_after_it() {
    let mut policy = AuthPolicy::new_from_config(rules());
    let outcome = policy.begin_check(AccessKind::Read, &name("demo"), "tok", 100);
    assert!(matches!(outcome, CheckOutcome::NeedsEvidence(_)));
    let allowed = policy.settle_check(
        AccessKind::Read,
        &name("demo"),
        "tok",
        100,
        &Evidence::Login { login: "alice".to_string() },
    );
    assert!(allowed);
    // Within the minute the decision is served from the cache: no new
    // identity lookup is demanded.
    let outcome = policy.begin_check(AccessKind::Read, &name("demo"), "tok", 159);
    assert!(matches!(outcome, CheckOutcome::Decided(true)));
    // Past the minute a new identity lookup is demanded.
    let outcome = policy.begin_check(AccessKind::Read, &name("demo"), "tok", 160);
    assert!(matches!(outcome, CheckOutcome::NeedsEvidence(_)));
}

#[test]
fn read_and_write_decisions_are_cached_separately() {
    let mut policy = AuthPolicy::new_from_config(rules());
    let allowed = policy.settle_check(
        AccessKind::Read,
        &name("demo"),
        "tok",
        0,
        &Evidence::Login { login: "alice".to_string() },
    );
    assert!(allowed);
    // The cached read decision answers nothing for a write check.
    let outcome = policy.begin_check(AccessKind::Write, &name("demo"), "tok", 1);
    assert!(matches!(outcome, CheckOutcome::NeedsEvidence(_)));
}

#[test]
fn denied_decision_for_unknown_crate_is_cached_too() {
    let mut policy = AuthPolicy::new_from_config(rules());
    let outcome = policy.begin_check(AccessKind::Read, &name("other"), "tok", 0);
    assert!(matches!(outcome, CheckOutcome::Decided(false)));
    let outcome = policy.begin_check(AccessKind::Read, &name("other"), "tok", 30);
    assert!(matches!(outcome, CheckOutcome::Decided(false)));
}

#[test]
fn different_tokens_are_cached_separately() {
    let mut policy = AuthPolicy::new_from_config(rules());
    let allowed = policy.settle_check(
        AccessKind::Read,
        &name("demo"),
        "tok-a",
        0,
        &Evidence::Login { login: "alice".to_string() },
    );
    assert!(allowed);
    let outcome = policy.begin_check(AccessKind::Read, &name("demo"), "tok-b", 1);
    assert!(matches!(outcome, CheckOutcome::NeedsEvidence(_)));
}

#[test]
fn capacity_pressure_evicts_the_least_recently_used_entry() {
    let mut policy = AuthPolicy::new_from_config(rules());
    // Fill one cache table to its capacity with distinct tokens.
    for i in 0u32..1024 {
        let token = format!("tok-{i}");
        let allowed = policy.settle_check(
            AccessKind::Read,
            &name("demo"),
            &token,
            0,
            &Evidence::Login { login: "alice".to_string() },
        );
        assert!(allowed);
    }
    // Everything still answers from the cache.
    let outcome = policy.begin_check(AccessKind::Read, &name("demo"), "tok-0", 1);
    assert!(matches!(outcome, CheckOutcome::Decided(true)));
    let outcome = policy.begin_check(AccessKind::Read, &name("demo"), "tok-1023", 1);
    assert!(matches!(outcome, CheckOutcome::Decided(true)));
    // One more key forces an eviction; the touched entries survive, so the
    // least recently used one is gone.
    let allowed = policy.settle_check(
        AccessKind::Read,
        &name("demo"),
        "tok-extra",
        1,
        &Evidence::Login { login: "alice".to_string() },
    );
    assert!(allowed);
    let outcome = policy.begin_check(AccessKind::Read, &name("demo"), "tok-extra", 2);
    assert!(matches!(outcome, CheckOutcome::Decided(true)));
    let mut evicted: usize = 0;
    for i in 1u32..1024 {
        let token = format!("tok-{i}");
        match policy.begin_check(AccessKind::Read, &name("demo"), &token, 2) {
            CheckOutcome::Decided(true) => {}
            _ => evicted += 1,
        }
    }
    // Exactly one old entry was displaced, and it was not a touched one.
    assert_eq!(evicted, 1);
}

#[test]
fn later_rule_entry_wins_for_a_repeated_crate() {
    let rules = AuthRules::new(vec![
        (
            "demo".to_string(),
            CrateRule {
                read: Rule::Is { user: "alice".to_string() },
                write: Rule::Is { user: "alice".to_string() },
            },
        ),
        (
            "demo".to_string(),
            CrateRule {
                read: Rule::Is { user: "bob".to_string() },
                write: Rule::Is { user: "bob".to_string() },
            },
        ),
    ]);
    let mut policy = AuthPolicy::new_from_config(rules);
    let allowed = policy.settle_check(
        AccessKind::Read,
        &name("demo"),
        "tok",
        0,
        &Evidence::Login { login: "bob".to_string() },
    );
    assert!(allowed);
}
