use propfi::compliance_registry::ComplianceRegistry;
use propfi::oracle_adapter::OracleAdapter;
use propfi::property_registry::{PropertyRegistry, PropertyRegistryError};
use propfi::types::{Address, ContractError, Env, PriceData, PropertyStatus, Symbol};

fn env_for(contract: &str, timestamp: u64) -> Env {
    Env {
        timestamp,
        contract: Address::new(contract),
        all_authorized: true,
        authorizers: vec![],
    }
}

fn ok<T>(r: Result<T, ContractError>) -> T {
    match r {
        Ok(v) => v,
        Err(e) => panic!("{}", e.message()),
    }
}

fn reg_ok<T>(r: Result<T, PropertyRegistryError>) -> T {
    match r {
        Ok(v) => v,
        Err(e) => panic!("{}", e.message()),
    }
}

fn setup_property_registry() -> (Env, Address, PropertyRegistry) {
    let env = env_for("registry", 0);
    let admin = Address::new("GADMIN");
    let mut client = PropertyRegistry::new();
    reg_ok(client.initialize(admin.clone()));
    (env, admin, client)
}

fn register_test_property(
    client: &mut PropertyRegistry,
    env: &Env,
    owner: &Address,
    valuation: i128,
    jurisdiction: &Symbol,
) -> u64 {
    reg_ok(client.register_property(env, owner.clone(), valuation, [0u8; 32], jurisdiction.clone()))
}

fn setup_compliance_registry(admin: &Address) -> ComplianceRegistry {
    let mut c = ComplianceRegistry::new();
    ok(c.initialize(admin.clone()));
    c
}

fn setup_oracle_adapter(admin: &Address, oracle: &Address, asset: &Symbol, price: i128) -> OracleAdapter {
    let env = env_for("oracle", 0);
    let mut o = OracleAdapter::new();
    ok(o.initialize(admin.clone(), 86400));
    ok(o.add_oracle(&env, oracle.clone(), 100));
    ok(o.submit_price(&env, oracle, asset, price));
    o
}

/// Transfers ownership as the registry contract does: it asks the
/// compliance registry about the recipient in the property's jurisdiction.
fn transfer(
    client: &mut PropertyRegistry,
    env: &Env,
    prop_id: u64,
    to: &Address,
    compliance: &ComplianceRegistry,
) {
    let compliant = match client.get_property_jurisdiction(prop_id) {
        Ok(j) => compliance.is_compliant(&env_for("compliance", env.timestamp), to, &j),
        Err(_) => false,
    };
    reg_ok(client.transfer_ownership(env, prop_id, to, compliant));
}

fn update_valuation(client: &mut PropertyRegistry, env: &Env, prop_id: u64, new_val: i128, oracle: &OracleAdapter, asset: &Symbol) {
    let price = ok(oracle.get_price(asset));
    reg_ok(client.update_valuation(env, prop_id, new_val, &price));
}

#[test]
fn test_register_property() {
    let (env, _admin, mut client) = setup_property_registry();
    let owner = Address::new("GOWNER");
    let valuation: i128 = 100_000;
    let jurisdiction = Symbol::new("US");
    let doc_hash = [1u8; 32];

    let prop_id = reg_ok(client.register_property(&env, owner.clone(), valuation, doc_hash, jurisdiction.clone()));
    assert_eq!(prop_id, 1);

    let property = reg_ok(client.get_property(prop_id));
    assert_eq!(property.owner.id, owner.id);
    assert_eq!(property.valuation, valuation);
    assert_eq!(property.doc_hash, doc_hash);
    assert_eq!(property.status, PropertyStatus::Active);
    assert_eq!(property.created_at, property.updated_at);

    let stored_jurisdiction = reg_ok(client.get_property_jurisdiction(prop_id));
    assert_eq!(stored_jurisdiction.name, jurisdiction.name);
}

#[test]
fn test_register_multiple_properties() {
    let (env, _admin, mut client) = setup_property_registry();
    let owner = Address::new("GOWNER");
    let id1 = register_test_property(&mut client, &env, &owner, 100_000, &Symbol::new("US"));
    let id2 = register_test_property(&mut client, &env, &owner, 200_000, &Symbol::new("EU"));
    let id3 = register_test_property(&mut client, &env, &owner, 300_000, &Symbol::new("NG"));
    assert_eq!(id1, 1);
    assert_eq!(id2, 2);
    assert_eq!(id3, 3);
    assert_eq!(reg_ok(client.get_property(id1)).valuation, 100_000);
    assert_eq!(reg_ok(client.get_property(id2)).valuation, 200_000);
    assert_eq!(reg_ok(client.get_property(id3)).valuation, 300_000);
}

#[test]
#[should_panic(expected = "invalid valuation")]
fn test_register_property_zero_valuation() {
    let (env, _admin, mut client) = setup_property_registry();
    let owner = Address::new("GOWNER");
    register_test_property(&mut client, &env, &owner, 0, &Symbol::new("US"));
}

#[test]
#[should_panic(expected = "invalid valuation")]
fn test_register_property_negative_valuation() {
    let (env, _admin, mut client) = setup_property_registry();
    let owner = Address::new("GOWNER");
    register_test_property(&mut client, &env, &owner, -1, &Symbol::new("US"));
}

#[test]
#[should_panic(expected = "property not found")]
fn test_get_nonexistent_property() {
    let (_env, _admin, client) = setup_property_registry();
    reg_ok(client.get_property(99));
}

#[test]
fn test_set_status() {
    let (env, _admin, mut client) = setup_property_registry();
    let owner = Address::new("GOWNER");
    let prop_id = register_test_property(&mut client, &env, &owner, 100_000, &Symbol::new("US"));

    reg_ok(client.set_status(&env, prop_id, PropertyStatus::UnderMaintenance));
    assert_eq!(reg_ok(client.get_property(prop_id)).status, PropertyStatus::UnderMaintenance);
    reg_ok(client.set_status(&env, prop_id, PropertyStatus::Inactive));
    assert_eq!(reg_ok(client.get_property(prop_id)).status, PropertyStatus::Inactive);
    reg_ok(client.set_status(&env, prop_id, PropertyStatus::Active));
    assert_eq!(reg_ok(client.get_property(prop_id)).status, PropertyStatus::Active);
}

#[test]
#[should_panic(expected = "property not found")]
fn test_set_status_nonexistent_property() {
    let (env, _admin, mut client) = setup_property_registry();
    reg_ok(client.set_status(&env, 99, PropertyStatus::Inactive));
}

#[test]
fn test_transfer_ownership() {
    let env = env_for("registry", 0);
    let admin = Address::new("GADMIN");
    let owner = Address::new("GOWNER");
    let recipient = Address::new("GRECIPIENT");
    let jurisdiction = Symbol::new("US");

    let mut compliance = setup_compliance_registry(&admin);
    ok(compliance.attest(&env_for("compliance", 0), &recipient, b"valid_proof".to_vec(), &jurisdiction, 365));

    let mut client = PropertyRegistry::new();
    reg_ok(client.initialize(admin.clone()));
    let prop_id = register_test_property(&mut client, &env, &owner, 100_000, &jurisdiction);

    transfer(&mut client, &env, prop_id, &recipient, &compliance);
    assert_eq!(reg_ok(client.get_property(prop_id)).owner.id, recipient.id);
}

#[test]
#[should_panic(expected = "compliance check failed")]
fn test_transfer_ownership_non_compliant_recipient() {
    let env = env_for("registry", 0);
    let admin = Address::new("GADMIN");
    let owner = Address::new("GOWNER");
    let recipient = Address::new("GRECIPIENT");
    let jurisdiction = Symbol::new("US");
    let compliance = setup_compliance_registry(&admin);
    let mut client = PropertyRegistry::new();
    reg_ok(client.initialize(admin.clone()));
    let prop_id = register_test_property(&mut client, &env, &owner, 100_000, &jurisdiction);
    transfer(&mut client, &env, prop_id, &recipient, &compliance);
}

#[test]
#[should_panic(expected = "compliance check failed")]
fn test_transfer_ownership_wrong_jurisdiction() {
    let env = env_for("registry", 0);
    let admin = Address::new("GADMIN");
    let owner = Address::new("GOWNER");
    let recipient = Address::new("GRECIPIENT");
    let mut compliance = setup_compliance_registry(&admin);
    ok(compliance.attest(&env_for("compliance", 0), &recipient, b"valid_proof".to_vec(), &Symbol::new("EU"), 365));
    let mut client = PropertyRegistry::new();
    reg_ok(client.initialize(admin.clone()));
    let prop_id = register_test_property(&mut client, &env, &owner, 100_000, &Symbol::new("US"));
    transfer(&mut client, &env, prop_id, &recipient, &compliance);
}

#[test]
#[should_panic(expected = "property not found")]
fn test_transfer_nonexistent_property() {
    let env = env_for("registry", 0);
    let admin = Address::new("GADMIN");
    let recipient = Address::new("GRECIPIENT");
    let compliance = setup_compliance_registry(&admin);
    let mut client = PropertyRegistry::new();
    reg_ok(client.initialize(admin.clone()));
    transfer(&mut client, &env, 99, &recipient, &compliance);
}

#[test]
fn test_update_valuation() {
    let env = env_for("registry", 0);
    let admin = Address::new("GADMIN");
    let owner = Address::new("GOWNER");
    let oracle = Address::new("GORACLE");
    let asset = Symbol::new("PROP_USD");
    let oracle_contract = setup_oracle_adapter(&admin, &oracle, &asset, 100_000);
    let mut client = PropertyRegistry::new();
    reg_ok(client.initialize(admin.clone()));
    let prop_id = register_test_property(&mut client, &env, &owner, 90_000, &Symbol::new("US"));

    update_valuation(&mut client, &env, prop_id, 110_000, &oracle_contract, &asset);
    assert_eq!(reg_ok(client.get_property(prop_id)).valuation, 110_000);
}

#[test]
fn test_update_valuation_exact_oracle_price() {
    let env = env_for("registry", 0);
    let admin = Address::new("GADMIN");
    let owner = Address::new("GOWNER");
    let oracle = Address::new("GORACLE");
    let asset = Symbol::new("PROP_USD");
    let oracle_contract = setup_oracle_adapter(&admin, &oracle, &asset, 100_000);
    let mut client = PropertyRegistry::new();
    reg_ok(client.initialize(admin.clone()));
    let prop_id = register_test_property(&mut client, &env, &owner, 90_000, &Symbol::new("US"));
    update_valuation(&mut client, &env, prop_id, 100_000, &oracle_contract, &asset);
    assert_eq!(reg_ok(client.get_property(prop_id)).valuation, 100_000);
}

#[test]
#[should_panic(expected = "valuation out of oracle range")]
fn test_update_valuation_out_of_range() {
    let env = env_for("registry", 0);
    let admin = Address::new("GADMIN");
    let owner = Address::new("GOWNER");
    let oracle = Address::new("GORACLE");
    let asset = Symbol::new("PROP_USD");
    let oracle_contract = setup_oracle_adapter(&admin, &oracle, &asset, 100_000);
    let mut client = PropertyRegistry::new();
    reg_ok(client.initialize(admin.clone()));
    let prop_id = register_test_property(&mut client, &env, &owner, 90_000, &Symbol::new("US"));
    update_valuation(&mut client, &env, prop_id, 130_000, &oracle_contract, &asset);
}

#[test]
#[should_panic(expected = "invalid valuation")]
fn test_update_valuation_zero() {
    let env = env_for("registry", 0);
    let admin = Address::new("GADMIN");
    let owner = Address::new("GOWNER");
    let oracle = Address::new("GORACLE");
    let asset = Symbol::new("PROP_USD");
    let oracle_contract = setup_oracle_adapter(&admin, &oracle, &asset, 100_000);
    let mut client = PropertyRegistry::new();
    reg_ok(client.initialize(admin.clone()));
    let prop_id = register_test_property(&mut client, &env, &owner, 90_000, &Symbol::new("US"));
    update_valuation(&mut client, &env, prop_id, 0, &oracle_contract, &asset);
}

#[test]
#[should_panic(expected = "oracle price not available")]
fn test_update_valuation_no_oracle_price() {
    let env = env_for("registry", 0);
    let admin = Address::new("GADMIN");
    let owner = Address::new("GOWNER");
    let asset = Symbol::new("PROP_USD");
    let mut oracle_contract = OracleAdapter::new();
    ok(oracle_contract.initialize(admin.clone(), 86400));
    let mut client = PropertyRegistry::new();
    reg_ok(client.initialize(admin.clone()));
    let prop_id = register_test_property(&mut client, &env, &owner, 90_000, &Symbol::new("US"));
    update_valuation(&mut client, &env, prop_id, 95_000, &oracle_contract, &asset);
}

#[test]
#[should_panic(expected = "property not found")]
fn test_update_valuation_nonexistent_property() {
    let env = env_for("registry", 0);
    let admin = Address::new("GADMIN");
    let oracle = Address::new("GORACLE");
    let asset = Symbol::new("PROP_USD");
    let oracle_contract = setup_oracle_adapter(&admin, &oracle, &asset, 100_000);
    let mut client = PropertyRegistry::new();
    reg_ok(client.initialize(admin.clone()));
    update_valuation(&mut client, &env, 99, 100_000, &oracle_contract, &asset);
}

#[test]
fn test_full_property_lifecycle() {
    let env = env_for("registry", 0);
    let admin = Address::new("GADMIN");
    let owner = Address::new("GOWNER");
    let buyer = Address::new("GBUYER");
    let oracle = Address::new("GORACLE");
    let asset = Symbol::new("PROP_USD");
    let jurisdiction = Symbol::new("US");

    let mut compliance = setup_compliance_registry(&admin);
    ok(compliance.attest(&env_for("compliance", 0), &buyer, b"buyer_proof".to_vec(), &jurisdiction, 365));
    let oracle_contract = setup_oracle_adapter(&admin, &oracle, &asset, 100_000);

    let mut client = PropertyRegistry::new();
    reg_ok(client.initialize(admin.clone()));
    let prop_id = register_test_property(&mut client, &env, &owner, 90_000, &jurisdiction);
    assert_eq!(reg_ok(client.get_property(prop_id)).owner.id, owner.id);

    update_valuation(&mut client, &env, prop_id, 105_000, &oracle_contract, &asset);
    assert_eq!(reg_ok(client.get_property(prop_id)).valuation, 105_000);

    transfer(&mut client, &env, prop_id, &buyer, &compliance);
    assert_eq!(reg_ok(client.get_property(prop_id)).owner.id, buyer.id);

    reg_ok(client.set_status(&env, prop_id, PropertyStatus::UnderMaintenance));
    assert_eq!(reg_ok(client.get_property(prop_id)).status, PropertyStatus::UnderMaintenance);
    reg_ok(client.set_status(&env, prop_id, PropertyStatus::Active));
    assert_eq!(reg_ok(client.get_property(prop_id)).status, PropertyStatus::Active);
}

#[test]
fn registry_valuation_band_edges_and_errors() {
    let (env, _admin, mut client) = setup_property_registry();
    let owner = Address::new("GOWNER");
    let prop_id = register_test_property(&mut client, &env, &owner, 90_000, &Symbol::new("US"));
    let price = PriceData { price: 100_000, timestamp: 0, oracle_count: 1 };
    // Exactly 20% above and below the oracle price is accepted.
    reg_ok(client.update_valuation(&env, prop_id, 120_000, &price));
    reg_ok(client.update_valuation(&env, prop_id, 80_000, &price));
    assert_eq!(
        client.update_valuation(&env, prop_id, 120_001, &price),
        Err(PropertyRegistryError::ValuationOutOfRange)
    );
    assert_eq!(
        client.update_valuation(&env, prop_id, 79_999, &price),
        Err(PropertyRegistryError::ValuationOutOfRange)
    );
    let huge = PriceData { price: i128::MAX, timestamp: 0, oracle_count: 1 };
    assert_eq!(
        client.update_valuation(&env, prop_id, 1, &huge),
        Err(PropertyRegistryError::ArithmeticOverflow)
    );
    let stranger = Env { all_authorized: false, ..env_for("registry", 0) };
    assert_eq!(
        client.update_valuation(&stranger, prop_id, 100_000, &price),
        Err(PropertyRegistryError::Unauthorized)
    );
    assert_eq!(
        client.initialize(Address::new("GROGUE")),
        Err(PropertyRegistryError::AlreadyInitialized)
    );
    assert_eq!(PropertyRegistryError::ValuationOutOfRange.code(), 7);
    let mut fresh = PropertyRegistry::new();
    assert_eq!(
        fresh.register_property(&env, owner.clone(), 1, [0u8; 32], Symbol::new("US")),
        Err(PropertyRegistryError::NotInitialized)
    );
}
