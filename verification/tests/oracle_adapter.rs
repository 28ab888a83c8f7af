use propfi::oracle_adapter::{OracleAdapter, OracleInfo};
use propfi::types::{Address, ContractError, Env, Symbol};

fn env_at(timestamp: u64) -> Env {
    Env {
        timestamp,
        contract: Address::new("oracle"),
        all_authorized: true,
        authorizers: vec![],
    }
}

fn ok<T>(r: Result<T, ContractError>) -> T {
    match r {
        Ok(v) => v,
        Err(e) => panic!("{}", e.message()),
    }
}

fn setup() -> (Env, Address, Address, OracleAdapter) {
    let env = env_at(0);
    let admin = Address::new("GADMIN");
    let oracle = Address::new("GORACLE");
    let mut client = OracleAdapter::new();
    ok(client.initialize(admin.clone(), 86400));
    (env, admin, oracle, client)
}

fn setup_with_oracle() -> (Env, Address, Address, Symbol, OracleAdapter) {
    let (env, admin, oracle, mut client) = setup();
    let asset = Symbol::new("BTC_USD");
    ok(client.add_oracle(&env, oracle.clone(), 100));
    (env, oracle, admin, asset, client)
}

#[test]
fn test_add_oracle() {
    let (env, _admin, oracle, mut client) = setup();
    ok(client.add_oracle(&env, oracle.clone(), 100));
    let info = client.get_oracle_info(&oracle);
    assert_eq!(info.weight, 100);
    assert!(info.active);
}

#[test]
fn test_remove_oracle() {
    let (env, _admin, oracle, mut client) = setup();
    ok(client.add_oracle(&env, oracle.clone(), 100));
    ok(client.remove_oracle(&env, &oracle));
    let info = client.get_oracle_info(&oracle);
    assert!(!info.active);
    assert_eq!(info.weight, 100);
}

#[test]
fn test_price_submission() {
    let (env, oracle, _admin, asset, mut client) = setup_with_oracle();
    ok(client.submit_price(&env, &oracle, &asset, 50000));
    let price_data = ok(client.get_price(&asset));
    assert_eq!(price_data.price, 50000);
    assert_eq!(price_data.oracle_count, 1);
}

#[test]
fn test_weighted_aggregation() {
    let env = env_at(0);
    let admin = Address::new("GADMIN");
    let oracle1 = Address::new("GORACLE1");
    let oracle2 = Address::new("GORACLE2");
    let mut client = OracleAdapter::new();
    let asset = Symbol::new("BTC_USD");

    ok(client.initialize(admin, 86400));
    ok(client.add_oracle(&env, oracle1.clone(), 200));
    ok(client.add_oracle(&env, oracle2.clone(), 100));

    ok(client.submit_price(&env, &oracle1, &asset, 50000));
    ok(client.submit_price(&env, &oracle2, &asset, 50600));

    let price_data = ok(client.get_price(&asset));
    let expected = (50000 * 200 + 50600 * 100) / 300;
    assert_eq!(price_data.price, expected);
    assert_eq!(price_data.oracle_count, 2);
}

#[test]
fn test_oracle_update_price() {
    let (env, oracle, _admin, asset, mut client) = setup_with_oracle();
    ok(client.submit_price(&env, &oracle, &asset, 50000));
    ok(client.submit_price(&env, &oracle, &asset, 51000));
    let price_data = ok(client.get_price(&asset));
    assert_eq!(price_data.price, 51000);
    assert_eq!(price_data.oracle_count, 1);
}

#[test]
fn test_staleness() {
    let (env, oracle, _admin, asset, mut client) = setup_with_oracle();
    ok(client.submit_price(&env, &oracle, &asset, 50000));
    let later = env_at(env.timestamp + 90000);
    let price_data = ok(client.get_price(&asset));
    assert_eq!(price_data.price, 50000);
    assert_eq!(price_data.oracle_count, 1);
    // Recorded at time 0, so no staleness alert is raised.
    assert!(!client.price_is_stale(&later, &price_data));
}

#[test]
fn test_twap_over_window() {
    let (env, oracle, _admin, asset, mut client) = setup_with_oracle();
    let base = env.timestamp;
    ok(client.submit_price(&env_at(base), &oracle, &asset, 50000));
    ok(client.submit_price(&env_at(base + 1000), &oracle, &asset, 51000));
    ok(client.submit_price(&env_at(base + 2000), &oracle, &asset, 52000));
    let twap = ok(client.twap(&env_at(base + 2000), &asset, 3000));
    assert!(twap > 0);
}

#[test]
fn test_twap_no_samples() {
    let (env, _oracle, _admin, asset, client) = setup_with_oracle();
    let twap = ok(client.twap(&env, &asset, 3600));
    assert_eq!(twap, 0);
}

#[test]
#[should_panic(expected = "oracle not registered")]
fn test_unregistered_oracle_cannot_submit() {
    let (env, _admin, _oracle, mut client) = setup();
    let asset = Symbol::new("BTC_USD");
    let rogue = Address::new("GROGUE");
    ok(client.submit_price(&env, &rogue, &asset, 50000));
}

#[test]
#[should_panic(expected = "oracle not active")]
fn test_removed_oracle_cannot_submit() {
    let (env, oracle, _admin, asset, mut client) = setup_with_oracle();
    ok(client.remove_oracle(&env, &oracle));
    ok(client.submit_price(&env, &oracle, &asset, 50000));
}

#[test]
fn oracle_twap_exact_value() {
    let (_env, oracle, _admin, asset, mut client) = setup_with_oracle();
    ok(client.submit_price(&env_at(0), &oracle, &asset, 50000));
    ok(client.submit_price(&env_at(1000), &oracle, &asset, 51000));
    ok(client.submit_price(&env_at(2000), &oracle, &asset, 52000));
    // Window [0, 2000]: 51000 for 1000 s, then 52000 for 1000 s.
    assert_eq!(ok(client.twap(&env_at(2000), &asset, 3000)), 51500);
    // Window [1500, 2000]: only the last sample, covering 500 s.
    assert_eq!(ok(client.twap(&env_at(2000), &asset, 500)), 52000);
    // Samples after `now` are ignored.
    assert_eq!(ok(client.twap(&env_at(1000), &asset, 1000)), 51000);
}

#[test]
fn oracle_aggregate_ignores_inactive_oracles_and_rounds_toward_zero() {
    let env = env_at(5);
    let mut client = OracleAdapter::new();
    let a = Address::new("GA");
    let b = Address::new("GB");
    let asset = Symbol::new("PROP_USD");
    ok(client.initialize(Address::new("GADMIN"), 10));
    ok(client.add_oracle(&env, a.clone(), 1));
    ok(client.add_oracle(&env, b.clone(), 2));
    ok(client.submit_price(&env, &a, &asset, -7));
    let data = ok(client.submit_price(&env, &b, &asset, 0));
    // (-7 * 1 + 0 * 2) / 3 rounds toward zero.
    assert_eq!(data.price, -2);
    assert_eq!(data.timestamp, 5);
    ok(client.remove_oracle(&env, &b));
    let data = ok(client.submit_price(&env, &a, &asset, 9));
    assert_eq!(data.price, 9);
    assert_eq!(data.oracle_count, 2);
    assert!(client.price_is_stale(&env_at(16), &data));
    assert!(!client.price_is_stale(&env_at(15), &data));
}

#[test]
fn oracle_errors() {
    let env = env_at(0);
    let mut client = OracleAdapter::new();
    let asset = Symbol::new("X");
    assert_eq!(client.get_price(&asset), Err(ContractError::NotInitialized));
    assert_eq!(
        client.add_oracle(&env, Address::new("GA"), 1),
        Err(ContractError::NotInitialized)
    );
    ok(client.initialize(Address::new("GADMIN"), 10));
    assert_eq!(
        client.remove_oracle(&env, &Address::new("GA")),
        Err(ContractError::OracleNotRegistered)
    );
    let unsigned = Env { all_authorized: false, ..env_at(0) };
    assert_eq!(
        client.add_oracle(&unsigned, Address::new("GA"), 1),
        Err(ContractError::Unauthorized)
    );
    ok(client.add_oracle(&env, Address::new("GA"), 2));
    assert_eq!(
        client.submit_price(&env, &Address::new("GA"), &asset, i128::MAX),
        Err(ContractError::ArithmeticOverflow)
    );
    assert_eq!(
        client.get_oracle_info(&Address::new("GZ")),
        OracleInfo { weight: 0, active: false }
    );
}
