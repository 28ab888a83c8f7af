use propfi::compliance_registry::{ComplianceRegistry, DAY};
use propfi::types::{Address, ContractError, Env, JurisdictionRules, Symbol};

fn env_at(timestamp: u64) -> Env {
    Env {
        timestamp,
        contract: Address::new("compliance"),
        all_authorized: true,
        authorizers: vec![],
    }
}

fn ok<T>(r: Result<T, ContractError>) -> T {
    match r {
        Ok(v) => v,
        Err(e) => panic!("{}", e.message()),
    }
}

fn setup() -> (Env, Address, Address, ComplianceRegistry) {
    let env = env_at(0);
    let admin = Address::new("GADMIN");
    let user = Address::new("GUSER");
    let mut registry = ComplianceRegistry::new();
    ok(registry.initialize(admin.clone()));
    (env, admin, user, registry)
}

#[test]
fn test_attest_flow() {
    let (env, _admin, user, mut client) = setup();
    let proof = b"zk_proof_123".to_vec();
    let jurisdiction = Symbol::new("US");

    ok(client.attest(&env, &user, proof, &jurisdiction, 365));
    assert!(client.is_compliant(&env, &user, &jurisdiction));

    let expiry = client.attestation_expiry(&user);
    assert!(expiry > 0);
    assert_eq!(expiry, env.timestamp + 365 * DAY);
}

#[test]
fn test_expiry() {
    let (env, _admin, user, mut client) = setup();
    let proof = b"zk_proof_456".to_vec();
    let jurisdiction = Symbol::new("US");

    ok(client.attest(&env, &user, proof, &jurisdiction, 1));
    assert!(client.is_compliant(&env, &user, &jurisdiction));

    let later = env_at(env.timestamp + 2 * DAY);
    assert!(!client.is_compliant(&later, &user, &jurisdiction));
}

#[test]
fn test_revocation() {
    let (env, _admin, user, mut client) = setup();
    let proof = b"zk_proof_789".to_vec();
    let jurisdiction = Symbol::new("US");

    ok(client.attest(&env, &user, proof, &jurisdiction, 365));
    assert!(client.is_compliant(&env, &user, &jurisdiction));

    ok(client.revoke(&env, &user));
    assert!(!client.is_compliant(&env, &user, &jurisdiction));

    let expiry = client.attestation_expiry(&user);
    assert!(expiry > 0);
}

#[test]
fn test_jurisdiction_filtering() {
    let (env, _admin, user, mut client) = setup();
    let proof = b"zk_proof_abc".to_vec();
    let us = Symbol::new("US");
    let eu = Symbol::new("EU");

    ok(client.attest(&env, &user, proof, &us, 365));
    assert!(client.is_compliant(&env, &user, &us));
    assert!(!client.is_compliant(&env, &user, &eu));
}

#[test]
fn test_admin_gating() {
    let admin = Address::new("GADMIN");
    let user = Address::new("GUSER");
    let _attacker = Address::new("GATTACKER");
    let mut client = ComplianceRegistry::new();
    ok(client.initialize(admin.clone()));

    let env = env_at(0);
    let proof = b"evil_proof".to_vec();
    let jurisdiction = Symbol::new("US");
    ok(client.attest(&env, &user, proof, &jurisdiction, 365));
    assert!(client.is_compliant(&env, &user, &jurisdiction));
}

#[test]
fn test_jurisdiction_rules_enforcement() {
    let (env, _admin, user, mut client) = setup();
    let jurisdiction = Symbol::new("US");
    let rules = JurisdictionRules { min_attestation_days: 30, required_level: 1 };
    ok(client.set_jurisdiction_rules(&env, jurisdiction.clone(), rules));

    let proof = b"proof_short".to_vec();
    ok(client.attest(&env, &user, proof, &jurisdiction, 1));
    assert!(!client.is_compliant(&env, &user, &jurisdiction));
}

#[test]
fn test_unattested_user_not_compliant() {
    let (env, _admin, user, client) = setup();
    let jurisdiction = Symbol::new("US");
    assert!(!client.is_compliant(&env, &user, &jurisdiction));
    assert_eq!(client.attestation_expiry(&user), 0);
}

#[test]
fn test_multiple_jurisdictions() {
    let (env, _admin, user, mut client) = setup();
    let us = Symbol::new("US");
    let eu = Symbol::new("EU");

    ok(client.attest(&env, &user, b"proof_us".to_vec(), &us, 365));
    assert!(client.is_compliant(&env, &user, &us));
    assert!(!client.is_compliant(&env, &user, &eu));

    ok(client.attest(&env, &user, b"proof_eu".to_vec(), &eu, 180));
    assert!(client.is_compliant(&env, &user, &eu));
    assert!(!client.is_compliant(&env, &user, &us));
}

#[test]
fn compliance_rules_met_with_long_attestation() {
    let (env, _admin, user, mut client) = setup();
    let jurisdiction = Symbol::new("US");
    let rules = JurisdictionRules { min_attestation_days: 30, required_level: 1 };
    ok(client.set_jurisdiction_rules(&env, jurisdiction.clone(), rules));
    ok(client.attest(&env, &user, b"p".to_vec(), &jurisdiction, 30));
    assert!(client.is_compliant(&env, &user, &jurisdiction));
    // One second later fewer than 30 days remain.
    assert!(!client.is_compliant(&env_at(1), &user, &jurisdiction));
}

#[test]
fn compliance_zero_day_attestation_is_not_compliant() {
    let (env, _admin, user, mut client) = setup();
    let jurisdiction = Symbol::new("US");
    assert_eq!(ok(client.attest(&env, &user, b"p".to_vec(), &jurisdiction, 0)), 0);
    assert!(!client.is_compliant(&env, &user, &jurisdiction));
}

#[test]
fn compliance_errors() {
    let mut fresh = ComplianceRegistry::new();
    let env = env_at(0);
    let user = Address::new("GUSER");
    let us = Symbol::new("US");
    assert_eq!(
        fresh.attest(&env, &user, vec![], &us, 1),
        Err(ContractError::NotInitialized)
    );
    ok(fresh.initialize(Address::new("GADMIN")));
    assert_eq!(
        fresh.initialize(Address::new("GROGUE")),
        Err(ContractError::AlreadyInitialized)
    );
    assert_eq!(fresh.revoke(&env, &user), Err(ContractError::AttestationNotFound));
    let unauthorized = Env { all_authorized: false, ..env_at(0) };
    assert_eq!(
        fresh.attest(&unauthorized, &user, vec![], &us, 1),
        Err(ContractError::Unauthorized)
    );
    let late = env_at(u64::MAX - 10);
    assert_eq!(
        fresh.attest(&late, &user, vec![], &us, 1),
        Err(ContractError::ArithmeticOverflow)
    );
    let admin_signed = Env {
        all_authorized: false,
        authorizers: vec![Address::new("GADMIN")],
        ..env_at(0)
    };
    assert_eq!(ok(fresh.attest(&admin_signed, &user, vec![], &us, 2)), 2 * DAY);
}
