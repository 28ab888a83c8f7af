use propfi::compliance_registry::ComplianceRegistry;
use propfi::fraction_vault::{FractionVault, Trade};
use propfi::property_registry::{PropertyRegistry, PropertyRegistryError};
use propfi::rent_distributor::RentDistributor;
use propfi::types::{Address, ContractError, Env, Symbol, Transfer};
use std::collections::HashMap;

fn env_for(contract: &str, timestamp: u64) -> Env {
    Env {
        timestamp,
        contract: Address::new(contract),
        all_authorized: true,
        authorizers: vec![],
    }
}

fn ok<T>(r: Result<T, ContractError>) -> T {
    match r {
        Ok(v) => v,
        Err(e) => panic!("{}", e.message()),
    }
}

fn reg_ok<T>(r: Result<T, PropertyRegistryError>) -> T {
    match r {
        Ok(v) => v,
        Err(e) => panic!("{}", e.message()),
    }
}

/// Token balances, as the token contracts keep them.
struct Tokens {
    balances: HashMap<(String, String), i128>,
}

impl Tokens {
    fn new() -> Tokens {
        Tokens { balances: HashMap::new() }
    }

    fn mint(&mut self, token: &Address, to: &Address, amount: i128) {
        *self.balances.entry((token.id.clone(), to.id.clone())).or_insert(0) += amount;
    }

    fn balance(&self, token: &Address, who: &Address) -> i128 {
        *self.balances.get(&(token.id.clone(), who.id.clone())).unwrap_or(&0)
    }

    fn apply(&mut self, t: &Transfer) {
        let from = self.balance(&t.token, &t.from);
        if t.amount < 0 || from < t.amount {
            panic!("transfer failed: insufficient balance");
        }
        self.balances.insert((t.token.id.clone(), t.from.id.clone()), from - t.amount);
        self.mint(&t.token, &t.to, t.amount);
    }
}

/// The deployed registry, compliance registry, vault and (optionally)
/// rent distributor, with the token balances and the ledger time.
struct World {
    now: u64,
    tokens: Tokens,
    registry: PropertyRegistry,
    compliance: ComplianceRegistry,
    vault: FractionVault,
    distributor: Option<RentDistributor>,
}

impl World {
    fn new(admin: &Address) -> World {
        let mut registry = PropertyRegistry::new();
        reg_ok(registry.initialize(admin.clone()));
        let mut compliance = ComplianceRegistry::new();
        ok(compliance.initialize(admin.clone()));
        let mut vault = FractionVault::new();
        ok(vault.initialize(admin.clone()));
        World { now: 0, tokens: Tokens::new(), registry, compliance, vault, distributor: None }
    }

    fn env(&self, contract: &str) -> Env {
        env_for(contract, self.now)
    }

    fn register_property(&mut self, owner: &Address, valuation: i128, jurisdiction: &str) -> u64 {
        let env = self.env("registry");
        reg_ok(self.registry.register_property(&env, owner.clone(), valuation, [0u8; 32], Symbol::new(jurisdiction)))
    }

    fn attest(&mut self, user: &Address, jurisdiction: &str) {
        let env = self.env("compliance");
        ok(self.compliance.attest(&env, user, b"proof".to_vec(), &Symbol::new(jurisdiction), 365));
    }

    fn fractionalize(&mut self, prop_id: u64, supply: u128, price: i128, token: &Address) {
        let env = self.env("vault");
        let exists = self.registry.get_property(prop_id).is_ok();
        ok(self.vault.fractionalize(
            &env,
            prop_id,
            supply,
            price,
            token.clone(),
            Address::new("registry"),
            Address::new("compliance"),
            exists,
        ));
    }

    fn settle(&mut self, trade: &Trade) {
        if let Some(cp) = &trade.checkpoint {
            let env = self.env("distributor");
            let d = self.distributor.as_mut().expect("rent distributor deployed");
            ok(d.checkpoint(&env, &cp.vault, &cp.investor, cp.prop_id, cp.balance));
        }
        self.tokens.apply(&trade.payment);
    }

    fn buy(&mut self, buyer: &Address, prop_id: u64, amount: u128) {
        let (jurisdiction, compliant) = match self.vault.get_fraction_info(prop_id) {
            Ok(_) => match self.registry.get_property_jurisdiction(prop_id) {
                Ok(j) => {
                    let c = self.compliance.is_compliant(&self.env("compliance"), buyer, &j);
                    (Some(j), c)
                }
                Err(_) => (None, false),
            },
            Err(_) => (None, false),
        };
        let env = self.env("vault");
        let trade = ok(self.vault.buy_fraction(&env, buyer, prop_id, amount, jurisdiction, compliant));
        self.settle(&trade);
    }

    fn sell(&mut self, seller: &Address, prop_id: u64, amount: u128, min_price: i128) {
        let env = self.env("vault");
        let trade = ok(self.vault.sell_fraction(&env, seller, prop_id, amount, min_price));
        self.settle(&trade);
    }

    fn balance(&self, investor: &Address, prop_id: u64) -> u128 {
        self.vault.get_balance(investor, prop_id)
    }

    fn deploy_distributor(&mut self, admin: &Address) {
        let env = self.env("distributor");
        let mut d = RentDistributor::new();
        ok(d.initialize(admin.clone()));
        ok(d.set_fraction_vault(&env, Address::new("vault")));
        self.distributor = Some(d);
        let env = self.env("vault");
        ok(self.vault.set_rent_distributor(&env, Address::new("distributor")));
    }

    fn deposit_rent(&mut self, sender: &Address, prop_id: u64, amount: i128, token: &Address) {
        let supply = self.vault.get_fraction_info(prop_id).ok().map(|info| info.0);
        let env = self.env("distributor");
        let d = self.distributor.as_mut().expect("rent distributor deployed");
        let t = ok(d.deposit_rent(&env, sender, prop_id, amount, token, supply));
        self.tokens.apply(&t);
    }

    fn pending_yield(&self, investor: &Address, prop_id: u64) -> i128 {
        let balance = self.vault.get_balance(investor, prop_id);
        ok(self.distributor.as_ref().unwrap().pending_yield(investor, prop_id, balance))
    }

    fn claim(&mut self, prop_id: u64, investor: &Address) {
        let balance = self.vault.get_balance(investor, prop_id);
        let env = self.env("distributor");
        let d = self.distributor.as_mut().unwrap();
        let t = ok(d.claim(&env, prop_id, investor, balance));
        self.tokens.apply(&t);
    }
}
use propfi::governance::{Governance, TIMELOCK_PERIOD, VOTING_PERIOD};

fn holdings(w: &World, gov: &Governance, user: &Address) -> Vec<(u64, u128)> {
    gov.tracked_properties.iter().map(|p| (*p, w.vault.get_balance(user, *p))).collect()
}

fn vote(w: &World, gov: &mut Governance, voter: &Address, proposal_id: u64, support: bool) {
    let h = holdings(w, gov, voter);
    ok(gov.vote(&w.env("governance"), voter, proposal_id, support, &h));
}

fn setup_fraction_vault(w: &mut World) -> u64 {
    let property_owner = Address::new("GPROPOWNER");
    let prop_id = w.register_property(&property_owner, 100_000, "US");
    w.fractionalize(prop_id, 1000, 100, &Address::new("CTOKEN"));
    prop_id
}

fn setup() -> (World, Address, Address, Governance, u64) {
    let admin = Address::new("GADMIN");
    let user = Address::new("GUSER");
    let mut w = World::new(&admin);
    let prop_id = setup_fraction_vault(&mut w);
    let mut gov = Governance::new();
    ok(gov.initialize(admin.clone(), Address::new("vault")));
    ok(gov.add_tracked_property(&w.env("governance"), prop_id));
    (w, admin, user, gov, prop_id)
}

fn acquire(w: &mut World, user: &Address, prop_id: u64, amount: u128) {
    w.attest(user, "US");
    w.tokens.mint(&Address::new("CTOKEN"), user, 100_000);
    w.buy(user, prop_id, amount);
}

#[test]
fn test_propose() {
    let (w, _admin, _user, mut gov, _prop_id) = setup();
    let calldata = vec![1u8, 2, 3];
    let description = String::from("Test proposal");
    let id = ok(gov.propose(&w.env("governance"), 1, calldata.clone(), description.clone()));
    assert_eq!(id, 1);

    let proposal = ok(gov.get_proposal(id));
    assert_eq!(proposal.action_type, 1);
    assert_eq!(proposal.calldata, calldata);
    assert_eq!(proposal.description, description);
    assert!(!proposal.executed);
    assert_eq!(proposal.for_votes, 0);
    assert_eq!(proposal.against_votes, 0);
    assert_eq!(proposal.created_at, w.now);
    assert_eq!(proposal.voting_end, w.now + VOTING_PERIOD);
}

#[test]
fn test_vote_for() {
    let (mut w, _admin, user, mut gov, prop_id) = setup();
    let proposal_id = ok(gov.propose(&w.env("governance"), 1, vec![], String::from("Test")));
    acquire(&mut w, &user, prop_id, 100);
    vote(&w, &mut gov, &user, proposal_id, true);
    let proposal = ok(gov.get_proposal(proposal_id));
    assert_eq!(proposal.for_votes, 100);
    assert_eq!(proposal.against_votes, 0);
}

#[test]
fn test_vote_against() {
    let (mut w, _admin, user, mut gov, prop_id) = setup();
    let proposal_id = ok(gov.propose(&w.env("governance"), 1, vec![], String::from("Test")));
    acquire(&mut w, &user, prop_id, 50);
    vote(&w, &mut gov, &user, proposal_id, false);
    let proposal = ok(gov.get_proposal(proposal_id));
    assert_eq!(proposal.for_votes, 0);
    assert_eq!(proposal.against_votes, 50);
}

#[test]
#[should_panic(expected = "already voted")]
fn test_double_vote_panics() {
    let (mut w, _admin, user, mut gov, prop_id) = setup();
    let proposal_id = ok(gov.propose(&w.env("governance"), 1, vec![], String::from("Test")));
    acquire(&mut w, &user, prop_id, 100);
    vote(&w, &mut gov, &user, proposal_id, true);
    vote(&w, &mut gov, &user, proposal_id, false);
}

#[test]
#[should_panic(expected = "voting period ended")]
fn test_vote_after_deadline_panics() {
    let (mut w, _admin, user, mut gov, _prop_id) = setup();
    let proposal_id = ok(gov.propose(&w.env("governance"), 1, vec![], String::from("Test")));
    w.now += VOTING_PERIOD + 1;
    vote(&w, &mut gov, &user, proposal_id, true);
}

#[test]
fn test_voting_power() {
    let (mut w, admin, user, _gov, prop_id) = setup();
    acquire(&mut w, &user, prop_id, 75);
    let mut gov = Governance::new();
    ok(gov.initialize(admin.clone(), Address::new("vault")));
    ok(gov.add_tracked_property(&w.env("governance"), prop_id));
    let power = ok(gov.voting_power(&holdings(&w, &gov, &user)));
    assert_eq!(power, 75);
}

fn passed_proposal(w: &mut World, gov: &mut Governance, user: &Address, prop_id: u64) -> u64 {
    let proposal_id = ok(gov.propose(&w.env("governance"), 1, vec![], String::from("Test execution")));
    acquire(w, user, prop_id, 100);
    vote(w, gov, user, proposal_id, true);
    proposal_id
}

#[test]
fn test_execute_after_timelock() {
    let (mut w, _admin, user, mut gov, prop_id) = setup();
    let proposal_id = passed_proposal(&mut w, &mut gov, &user, prop_id);
    w.now += VOTING_PERIOD + TIMELOCK_PERIOD + 1;
    ok(gov.execute(&w.env("governance"), proposal_id));
    assert!(ok(gov.get_proposal(proposal_id)).executed);
}

#[test]
#[should_panic(expected = "voting period not ended")]
fn test_execute_before_voting_ends() {
    let (mut w, _admin, user, mut gov, prop_id) = setup();
    let proposal_id = passed_proposal(&mut w, &mut gov, &user, prop_id);
    ok(gov.execute(&w.env("governance"), proposal_id));
}

#[test]
#[should_panic(expected = "timelock not elapsed")]
fn test_execute_during_timelock() {
    let (mut w, _admin, user, mut gov, prop_id) = setup();
    let proposal_id = passed_proposal(&mut w, &mut gov, &user, prop_id);
    w.now += VOTING_PERIOD + 1;
    ok(gov.execute(&w.env("governance"), proposal_id));
}

#[test]
#[should_panic(expected = "proposal already executed")]
fn test_double_execute_panics() {
    let (mut w, _admin, user, mut gov, prop_id) = setup();
    let proposal_id = passed_proposal(&mut w, &mut gov, &user, prop_id);
    w.now += VOTING_PERIOD + TIMELOCK_PERIOD + 1;
    ok(gov.execute(&w.env("governance"), proposal_id));
    ok(gov.execute(&w.env("governance"), proposal_id));
}

#[test]
#[should_panic(expected = "quorum not met")]
fn test_execute_quorum_not_met() {
    let admin = Address::new("GADMIN");
    let user = Address::new("GUSER");
    let mut w = World::new(&admin);
    let prop_id = setup_fraction_vault(&mut w);
    let mut gov = Governance::new();
    ok(gov.initialize(admin.clone(), Address::new("vault")));
    ok(gov.add_tracked_property(&w.env("governance"), prop_id));
    ok(gov.set_quorum(&w.env("governance"), 1000));
    let proposal_id = passed_proposal(&mut w, &mut gov, &user, prop_id);
    w.now += VOTING_PERIOD + TIMELOCK_PERIOD + 1;
    ok(gov.execute(&w.env("governance"), proposal_id));
}

#[test]
#[should_panic(expected = "proposal defeated")]
fn test_execute_more_against_than_for() {
    let (mut w, _admin, user, mut gov, prop_id) = setup();
    let proposal_id = ok(gov.propose(&w.env("governance"), 1, vec![], String::from("Test")));
    acquire(&mut w, &user, prop_id, 100);
    vote(&w, &mut gov, &user, proposal_id, false);
    w.now += VOTING_PERIOD + TIMELOCK_PERIOD + 1;
    ok(gov.execute(&w.env("governance"), proposal_id));
}

#[test]
fn test_full_proposal_lifecycle() {
    let (mut w, _admin, user, mut gov, prop_id) = setup();
    let proposal_id = ok(gov.propose(&w.env("governance"), 1, vec![0x01, 0x02], String::from("Update LTV parameter")));
    w.attest(&user, "US");
    w.tokens.mint(&Address::new("CTOKEN"), &user, 200_000);
    w.buy(&user, prop_id, 200);
    vote(&w, &mut gov, &user, proposal_id, true);
    let proposal = ok(gov.get_proposal(proposal_id));
    assert_eq!(proposal.for_votes, 200);
    assert_eq!(proposal.against_votes, 0);

    let proposer = Address::new("GPROPOSER");
    w.tokens.mint(&Address::new("CTOKEN"), &proposer, 100_000);
    w.attest(&proposer, "US");
    w.buy(&proposer, prop_id, 50);
    vote(&w, &mut gov, &proposer, proposal_id, false);
    let proposal = ok(gov.get_proposal(proposal_id));
    assert_eq!(proposal.for_votes, 200);
    assert_eq!(proposal.against_votes, 50);

    w.now += VOTING_PERIOD + TIMELOCK_PERIOD + 1;
    ok(gov.execute(&w.env("governance"), proposal_id));
    assert!(ok(gov.get_proposal(proposal_id)).executed);
}

#[test]
#[should_panic(expected = "no voting power")]
fn test_vote_without_power() {
    let (w, _admin, user, mut gov, _prop_id) = setup();
    let proposal_id = ok(gov.propose(&w.env("governance"), 1, vec![], String::from("Test")));
    vote(&w, &mut gov, &user, proposal_id, true);
}

#[test]
fn test_add_tracked_property() {
    let mut gov = Governance::new();
    let env = env_for("governance", 0);
    ok(gov.initialize(Address::new("GADMIN"), Address::new("GVAULT")));
    ok(gov.add_tracked_property(&env, 1));
    ok(gov.add_tracked_property(&env, 2));
    ok(gov.add_tracked_property(&env, 1));
    assert_eq!(gov.tracked_properties, vec![1u64, 2]);
}

#[test]
fn test_set_quorum() {
    let mut gov = Governance::new();
    let env = env_for("governance", 0);
    ok(gov.initialize(Address::new("GADMIN"), Address::new("GVAULT")));
    ok(gov.set_quorum(&env, 500));
    assert_eq!(gov.quorum, 500);
}

#[test]
fn governance_edges() {
    let (w, admin, user, mut gov, prop_id) = setup();
    let env = w.env("governance");
    let id1 = ok(gov.propose(&env, 2, vec![], String::from("a")));
    let id2 = ok(gov.propose(&env, 3, vec![], String::from("b")));
    assert_eq!((id1, id2), (1, 2));
    assert_eq!(gov.get_proposal(7).err(), Some(ContractError::ProposalNotFound));
    let mut two = Governance::new();
    ok(two.initialize(admin.clone(), Address::new("vault")));
    ok(two.add_tracked_property(&env, 1));
    ok(two.add_tracked_property(&env, 2));
    assert_eq!(
        two.voting_power(&vec![(1, u128::MAX), (2, 1)]),
        Err(ContractError::ArithmeticOverflow)
    );
    assert_eq!(ok(two.voting_power(&vec![(1, 3), (2, 4)])), 7);
    // Each tracked property counts once, in order.
    assert_eq!(two.voting_power(&vec![(2, 3), (1, 4)]), Err(ContractError::HoldingsMismatch));
    assert_eq!(two.voting_power(&vec![(1, 3)]), Err(ContractError::HoldingsMismatch));
    assert_eq!(
        two.voting_power(&vec![(1, 3), (2, 4), (2, 4)]),
        Err(ContractError::HoldingsMismatch)
    );
    // Voting closes after the voting period's last second.
    let at_end = env_for("governance", VOTING_PERIOD);
    assert_eq!(
        gov.vote(&at_end, &user, id1, true, &vec![(prop_id + 1, 5)]),
        Err(ContractError::HoldingsMismatch)
    );
    assert_eq!(ok(gov.vote(&at_end, &user, id1, true, &vec![(prop_id, 5)])), 5);
    let unsigned = Env { all_authorized: false, ..env.clone() };
    assert_eq!(gov.set_quorum(&unsigned, 1), Err(ContractError::Unauthorized));
    // Exactly at the end of the timelock the proposal can be executed.
    let ready = env_for("governance", VOTING_PERIOD + TIMELOCK_PERIOD);
    ok(gov.execute(&ready, id1));
    assert_eq!(
        gov.vote(&ready, &user, id1, true, &vec![(prop_id, 5)]),
        Err(ContractError::ProposalAlreadyExecuted)
    );
    let mut fresh = Governance::new();
    assert_eq!(
        fresh.propose(&env, 1, vec![], String::new()),
        Err(ContractError::NotInitialized)
    );
}
