use propfi::payment_bridge::PaymentBridge;
use propfi::types::{Address, ContractError, Env, Symbol, Transfer};
use std::collections::HashMap;

const FEE_BPS: i128 = 10;

fn bridge_env() -> Env {
    Env { timestamp: 0, contract: Address::new("CBRIDGE"), all_authorized: true, authorizers: vec![] }
}

fn ok<T>(r: Result<T, ContractError>) -> T {
    match r {
        Ok(v) => v,
        Err(e) => panic!("{}", e.message()),
    }
}

fn err<T>(r: Result<T, ContractError>) -> ContractError {
    match r {
        Ok(_) => panic!("expected an error"),
        Err(e) => e,
    }
}

/// Token balances, as the token contracts keep them.
struct Tokens {
    balances: HashMap<(String, String), i128>,
}

impl Tokens {
    fn new() -> Tokens {
        Tokens { balances: HashMap::new() }
    }

    fn mint(&mut self, token: &Address, to: &Address, amount: i128) {
        *self.balances.entry((token.id.clone(), to.id.clone())).or_insert(0) += amount;
    }

    fn balance(&self, token: &Address, who: &Address) -> i128 {
        *self.balances.get(&(token.id.clone(), who.id.clone())).unwrap_or(&0)
    }

    fn apply(&mut self, t: &Transfer) {
        let from = self.balance(&t.token, &t.from);
        if t.amount < 0 || from < t.amount {
            panic!("transfer failed: insufficient balance");
        }
        self.balances.insert((t.token.id.clone(), t.from.id.clone()), from - t.amount);
        self.mint(&t.token, &t.to, t.amount);
    }
}

struct Setup {
    env: Env,
    user: Address,
    client: PaymentBridge,
    tokens: Tokens,
    token_a: Address,
    token_b: Address,
    usdc: Symbol,
    xlm: Symbol,
}

impl Setup {
    fn deposit(&mut self, user: &Address, asset: &Symbol, amount: i128) {
        let t = ok(self.client.deposit(&self.env, user, asset, amount));
        self.tokens.apply(&t);
    }

    fn withdraw(&mut self, user: &Address, asset: &Symbol, amount: i128) {
        let t = ok(self.client.withdraw(&self.env, user, asset, amount));
        self.tokens.apply(&t);
    }
}

fn setup() -> Setup {
    let env = bridge_env();
    let admin = Address::new("GADMIN");
    let user = Address::new("GUSER");
    let mut client = PaymentBridge::new();
    ok(client.initialize(admin));
    let token_a = Address::new("CTOKENA");
    let token_b = Address::new("CTOKENB");
    let usdc = Symbol::new("USDC");
    let xlm = Symbol::new("XLM");
    ok(client.register_anchor(&env, usdc.clone(), token_a.clone()));
    ok(client.register_anchor(&env, xlm.clone(), token_b.clone()));
    Setup { env, user, client, tokens: Tokens::new(), token_a, token_b, usdc, xlm }
}

#[test]
fn test_register_anchor() {
    let env = bridge_env();
    let admin = Address::new("GADMIN");
    let mut client = PaymentBridge::new();
    ok(client.initialize(admin));
    let token = Address::new("CTOKEN");
    let asset = Symbol::new("USDC");
    ok(client.register_anchor(&env, asset.clone(), token));
    let quote = ok(client.estimate_path(&asset, &asset, 100));
    assert_eq!(quote.path.len(), 2);
    assert_eq!(quote.path[0].id, "CTOKEN");
}

#[test]
fn test_deposit_and_get_balance() {
    let mut s = setup();
    let (token_a, user, usdc) = (s.token_a.clone(), s.user.clone(), s.usdc.clone());
    s.tokens.mint(&token_a, &user, 50_000);

    s.deposit(&user, &usdc, 10_000);

    assert_eq!(s.client.get_balance(&user, &usdc), 10_000);
    assert_eq!(s.tokens.balance(&token_a, &user), 40_000);
    assert_eq!(s.tokens.balance(&token_a, &Address::new("CBRIDGE")), 10_000);
}

#[test]
fn deposit_unregistered_asset_is_refused() {
    let env = bridge_env();
    let mut client = PaymentBridge::new();
    ok(client.initialize(Address::new("GADMIN")));
    let user = Address::new("GUSER");
    let e = err(client.deposit(&env, &user, &Symbol::new("BAD"), 100));
    assert_eq!(e, ContractError::AssetNotRegistered);
    assert_eq!(e.message(), "asset not registered");
    assert_eq!(client.get_balance(&user, &Symbol::new("BAD")), 0);
}

#[test]
fn test_withdraw() {
    let mut s = setup();
    let (token_a, user, usdc) = (s.token_a.clone(), s.user.clone(), s.usdc.clone());
    s.tokens.mint(&token_a, &user, 50_000);

    s.deposit(&user, &usdc, 10_000);
    assert_eq!(s.client.get_balance(&user, &usdc), 10_000);

    s.withdraw(&user, &usdc, 4_000);
    assert_eq!(s.client.get_balance(&user, &usdc), 6_000);
    assert_eq!(s.tokens.balance(&token_a, &user), 44_000);
}

#[test]
fn withdraw_more_than_the_balance_is_refused() {
    let mut s = setup();
    let e = err(s.client.withdraw(&s.env, &s.user, &s.usdc, 100));
    assert_eq!(e, ContractError::InsufficientBalance);
    assert_eq!(e.message(), "insufficient balance");
}

#[test]
fn test_send_same_asset() {
    let mut s = setup();
    let recipient = Address::new("GRECIPIENT");
    let (token_a, user, usdc) = (s.token_a.clone(), s.user.clone(), s.usdc.clone());
    s.tokens.mint(&token_a, &user, 50_000);
    s.deposit(&user, &usdc, 20_000);

    let received = ok(s.client.send(&s.env, &user, &recipient, 5_000, &usdc, &usdc));

    assert_eq!(received, 5_000);
    assert_eq!(s.client.get_balance(&user, &usdc), 15_000);
    assert_eq!(s.client.get_balance(&recipient, &usdc), 5_000);
}

#[test]
fn test_send_cross_asset() {
    let mut s = setup();
    let recipient = Address::new("GRECIPIENT");
    let (token_a, user, usdc, xlm) = (s.token_a.clone(), s.user.clone(), s.usdc.clone(), s.xlm.clone());
    s.tokens.mint(&token_a, &user, 50_000);
    s.deposit(&user, &usdc, 20_000);

    ok(s.client.send(&s.env, &user, &recipient, 10_000, &usdc, &xlm));

    let fee = 10_000 * FEE_BPS / 10000;
    let expected_dest = 10_000 - fee;

    assert_eq!(s.client.get_balance(&user, &usdc), 10_000);
    assert_eq!(s.client.get_balance(&recipient, &xlm), expected_dest);
    assert_eq!(expected_dest, 9_990);
}

#[test]
fn send_errors_leave_balances_unchanged() {
    let mut s = setup();
    let recipient = Address::new("GRECIPIENT");
    let (user, usdc, xlm) = (s.user.clone(), s.usdc.clone(), s.xlm.clone());
    assert_eq!(
        err(s.client.send(&s.env, &user, &recipient, 100, &usdc, &xlm)),
        ContractError::InsufficientBalance
    );
    let e = err(s.client.send(&s.env, &user, &recipient, 0, &usdc, &xlm));
    assert_eq!(e, ContractError::AmountNotPositive);
    assert_eq!(e.message(), "amount must be positive");
    assert_eq!(s.client.get_balance(&recipient, &xlm), 0);
}

#[test]
fn send_without_authorization_is_refused() {
    let mut s = setup();
    let (token_a, user, usdc) = (s.token_a.clone(), s.user.clone(), s.usdc.clone());
    s.tokens.mint(&token_a, &user, 1_000);
    s.deposit(&user, &usdc, 1_000);
    let other = Env {
        timestamp: 0,
        contract: Address::new("CBRIDGE"),
        all_authorized: false,
        authorizers: vec![Address::new("GSOMEONE")],
    };
    let recipient = Address::new("GRECIPIENT");
    assert_eq!(
        err(s.client.send(&other, &user, &recipient, 100, &usdc, &usdc)),
        ContractError::Unauthorized
    );
    let signed = Env { authorizers: vec![user.clone()], ..other };
    assert_eq!(ok(s.client.send(&signed, &user, &recipient, 100, &usdc, &usdc)), 100);
}

#[test]
fn send_to_oneself_keeps_the_balance() {
    let mut s = setup();
    let (token_a, user, usdc) = (s.token_a.clone(), s.user.clone(), s.usdc.clone());
    s.tokens.mint(&token_a, &user, 1_000);
    s.deposit(&user, &usdc, 1_000);
    ok(s.client.send(&s.env, &user, &user, 400, &usdc, &usdc));
    assert_eq!(s.client.get_balance(&user, &usdc), 1_000);
}

#[test]
fn test_batch_send() {
    let mut s = setup();
    let recipient1 = Address::new("GRECIPIENT1");
    let recipient2 = Address::new("GRECIPIENT2");
    let (token_a, user, usdc, xlm) = (s.token_a.clone(), s.user.clone(), s.usdc.clone(), s.xlm.clone());
    s.tokens.mint(&token_a, &user, 100_000);
    s.deposit(&user, &usdc, 50_000);

    let recipients = vec![(recipient1.clone(), 10_000i128), (recipient2.clone(), 5_000i128)];

    ok(s.client.batch_send(&s.env, &user, &recipients, &usdc, &xlm));

    let fee1 = 10_000 * FEE_BPS / 10000;
    let fee2 = 5_000 * FEE_BPS / 10000;

    assert_eq!(s.client.get_balance(&user, &usdc), 35_000);
    assert_eq!(s.client.get_balance(&recipient1, &xlm), 10_000 - fee1);
    assert_eq!(s.client.get_balance(&recipient2, &xlm), 5_000 - fee2);
}

#[test]
fn batch_send_errors() {
    let mut s = setup();
    let recipient = Address::new("GRECIPIENT");
    let (token_a, user, usdc, xlm) = (s.token_a.clone(), s.user.clone(), s.usdc.clone(), s.xlm.clone());
    assert_eq!(
        err(s.client.batch_send(&s.env, &user, &vec![(recipient.clone(), 100i128)], &usdc, &xlm)),
        ContractError::InsufficientBalance
    );
    s.tokens.mint(&token_a, &user, 1_000);
    s.deposit(&user, &usdc, 1_000);
    let with_zero = vec![(recipient.clone(), 100i128), (recipient.clone(), 0i128)];
    assert_eq!(
        err(s.client.batch_send(&s.env, &user, &with_zero, &usdc, &xlm)),
        ContractError::AmountNotPositive
    );
    let overflowing = vec![(recipient.clone(), i128::MAX), (recipient.clone(), 1i128)];
    assert_eq!(
        err(s.client.batch_send(&s.env, &user, &overflowing, &usdc, &xlm)),
        ContractError::ArithmeticOverflow
    );
    assert_eq!(s.client.get_balance(&user, &usdc), 1_000);
    assert_eq!(s.client.get_balance(&recipient, &xlm), 0);
}

#[test]
fn batch_send_to_the_same_recipient_twice_adds_up() {
    let mut s = setup();
    let recipient = Address::new("GRECIPIENT");
    let (token_a, user, usdc) = (s.token_a.clone(), s.user.clone(), s.usdc.clone());
    s.tokens.mint(&token_a, &user, 1_000);
    s.deposit(&user, &usdc, 1_000);
    let batch = vec![(recipient.clone(), 300i128), (recipient.clone(), 200i128)];
    ok(s.client.batch_send(&s.env, &user, &batch, &usdc, &usdc));
    assert_eq!(s.client.get_balance(&recipient, &usdc), 500);
    assert_eq!(s.client.get_balance(&user, &usdc), 500);
}

#[test]
fn test_estimate_path_same_asset() {
    let s = setup();
    let quote = ok(s.client.estimate_path(&s.usdc, &s.usdc, 10_000));
    assert_eq!(quote.dest_amount, 10_000);
    assert_eq!(quote.estimated_fee, 0);
}

#[test]
fn test_estimate_path_cross_asset() {
    let s = setup();
    let quote = ok(s.client.estimate_path(&s.usdc, &s.xlm, 10_000));
    let expected_dest = 10_000 - (10_000 * FEE_BPS / 10000);
    assert_eq!(quote.dest_amount, expected_dest);
    assert_eq!(quote.estimated_fee, 10_000 * FEE_BPS / 10000);
    assert_eq!(quote.path.len(), 2);
    assert_eq!(quote.path[0].id, s.token_a.id);
    assert_eq!(quote.path[1].id, s.token_b.id);
}

#[test]
fn estimate_path_rounds_the_fee_down_and_lists_registered_anchors_only() {
    let s = setup();
    let quote = ok(s.client.estimate_path(&s.usdc, &Symbol::new("EUR"), 1_999));
    assert_eq!(quote.estimated_fee, 1);
    assert_eq!(quote.dest_amount, 1_998);
    assert_eq!(quote.path.len(), 1);
    let e = err(s.client.estimate_path(&s.usdc, &s.xlm, 0));
    assert_eq!(e, ContractError::AmountNotPositive);
}

#[test]
fn test_full_lifecycle_same_asset() {
    let mut s = setup();
    let recipient = Address::new("GRECIPIENT");
    let (token_a, user, usdc) = (s.token_a.clone(), s.user.clone(), s.usdc.clone());

    s.tokens.mint(&token_a, &user, 100_000);
    s.deposit(&user, &usdc, 100_000);

    assert_eq!(s.client.get_balance(&user, &usdc), 100_000);

    ok(s.client.send(&s.env, &user, &recipient, 10_000, &usdc, &usdc));

    assert_eq!(s.client.get_balance(&user, &usdc), 90_000);
    assert_eq!(s.client.get_balance(&recipient, &usdc), 10_000);

    s.withdraw(&user, &usdc, 90_000);
    assert_eq!(s.client.get_balance(&user, &usdc), 0);

    s.withdraw(&recipient, &usdc, 10_000);
    assert_eq!(s.client.get_balance(&recipient, &usdc), 0);
    assert_eq!(s.tokens.balance(&token_a, &recipient), 10_000);
    assert_eq!(s.tokens.balance(&token_a, &Address::new("CBRIDGE")), 0);
}

#[test]
fn register_anchor_needs_the_admin() {
    let env = bridge_env();
    let mut client = PaymentBridge::new();
    assert_eq!(
        err(client.register_anchor(&env, Symbol::new("USDC"), Address::new("CTOKEN"))),
        ContractError::NotInitialized
    );
    ok(client.initialize(Address::new("GADMIN")));
    let stranger = Env { all_authorized: false, authorizers: vec![Address::new("GUSER")], ..bridge_env() };
    assert_eq!(
        err(client.register_anchor(&stranger, Symbol::new("USDC"), Address::new("CTOKEN"))),
        ContractError::Unauthorized
    );
}

#[test]
#[should_panic(expected = "asset not registered")]
fn test_deposit_unregistered_asset() {
    let env = bridge_env();
    let mut client = PaymentBridge::new();
    ok(client.initialize(Address::new("GADMIN")));
    let user = Address::new("GUSER");
    ok(client.deposit(&env, &user, &Symbol::new("BAD"), 100));
}

#[test]
#[should_panic(expected = "insufficient balance")]
fn test_withdraw_insufficient_balance() {
    let mut s = setup();
    let (user, usdc) = (s.user.clone(), s.usdc.clone());
    s.withdraw(&user, &usdc, 100);
}

#[test]
#[should_panic(expected = "insufficient balance")]
fn test_send_insufficient_balance() {
    let mut s = setup();
    let recipient = Address::new("GRECIPIENT");
    ok(s.client.send(&s.env, &s.user, &recipient, 100, &s.usdc, &s.xlm));
}

#[test]
#[should_panic(expected = "amount must be positive")]
fn test_send_zero_amount() {
    let mut s = setup();
    let recipient = Address::new("GRECIPIENT");
    ok(s.client.send(&s.env, &s.user, &recipient, 0, &s.usdc, &s.xlm));
}

#[test]
#[should_panic(expected = "insufficient balance")]
fn test_batch_send_insufficient_balance() {
    let mut s = setup();
    let recipient = Address::new("GRECIPIENT");
    let recipients = vec![(recipient, 100i128)];
    ok(s.client.batch_send(&s.env, &s.user, &recipients, &s.usdc, &s.xlm));
}

#[test]
#[should_panic(expected = "amount must be positive")]
fn test_estimate_path_zero_amount() {
    let s = setup();
    ok(s.client.estimate_path(&s.usdc, &s.xlm, 0));
}
