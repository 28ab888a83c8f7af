//! Fractional ownership of tokenized properties: a property is split into a
//! fixed supply of fractions at a fixed price; compliant investors buy
//! fractions and sell them back, and the vault tracks each investor's
//! balance and each property's number of holders.
use crate::math::{
    lemma_sum_over_bounds_term, lemma_sum_over_congruent, lemma_sum_over_drop, lemma_sum_over_insert,
    lemma_sum_over_update, sum_over,
};
use crate::table::Table;
use crate::types::{Address, ContractError, Env, Symbol, Transfer};
use vstd::prelude::*;

verus! {

#[derive(Clone, Debug)]
pub struct FractionInfo {
    pub total_supply: u128,
    pub price: i128,
    pub payment_token: Address,
    pub property_registry: Address,
    pub compliance_registry: Address,
}

/// A call that the vault makes on the rent distributor before an
/// investor's balance changes: `checkpoint(vault, investor, prop_id,
/// balance)` with the balance before the change.
#[derive(Clone, Debug)]
pub struct YieldCheckpoint {
    pub distributor: Address,
    pub vault: Address,
    pub investor: Address,
    pub prop_id: u64,
    pub balance: u128,
}

/// What a purchase or sale asks for besides the vault's own update: the
/// rent distributor's checkpoint, if a distributor is set, and the payment.
#[derive(Clone, Debug)]
pub struct Trade {
    pub checkpoint: Option<YieldCheckpoint>,
    pub payment: Transfer,
}

pub struct FractionVault {
    pub admin: Option<Address>,
    pub fractions: Table<u64, FractionInfo>,
    pub balances: Table<(Address, u64), u128>,
    pub holder_counts: Table<u64, u32>,
    pub holders: Table<(Address, u64), bool>,
    /// The fractions of each property held by investors.
    pub sold: Table<u64, u128>,
    pub rent_distributor: Option<Address>,
}

/// Each investor's balance of fractions of `prop_id`, 0 where none.
pub open spec fn holdings(balances: Map<(Seq<char>, u64), u128>, prop_id: u64) -> spec_fn(
    Seq<char>,
) -> int {
    |a: Seq<char>|
        if balances.contains_key((a, prop_id)) {
            balances[(a, prop_id)] as int
        } else {
            0
        }
}

/// The price of `amount` fractions at `price` each, as the vault computes it
/// (the amount narrowed to `i128`).
pub open spec fn fractions_cost(amount: u128, price: i128) -> int {
    (amount as i128) * price
}

impl FractionVault {
    pub open spec fn balance_of(&self, investor: Seq<char>, prop_id: u64) -> int {
        if self.balances@.contains_key((investor, prop_id)) {
            self.balances@[(investor, prop_id)] as int
        } else {
            0
        }
    }

    pub open spec fn holder_count(&self, prop_id: u64) -> int {
        if self.holder_counts@.contains_key(prop_id) {
            self.holder_counts@[prop_id] as int
        } else {
            0
        }
    }

    /// The fractions of a property held by investors, as recorded.
    pub open spec fn sold_of(&self, prop_id: u64) -> int {
        if self.sold@.contains_key(prop_id) {
            self.sold@[prop_id] as int
        } else {
            0
        }
    }

    /// The sum of all investors' balances of a property.
    pub open spec fn balance_total(&self, prop_id: u64) -> int {
        sum_over(self.holders_of(prop_id), holdings(self.balances@, prop_id))
    }

    /// The investors recorded as holders of a property.
    pub open spec fn holders_of(&self, prop_id: u64) -> Set<Seq<char>> {
        Set::new(|a: Seq<char>| self.holders@.contains_key((a, prop_id)))
    }

    /// The vault's bookkeeping invariant: an investor is recorded as a
    /// holder exactly when its balance is positive, only fractionalized
    /// properties have holders, and each property's holder count is the
    /// number of its holders; the recorded sold count of a property is the
    /// sum of its balances and never exceeds its supply.
    pub open spec fn inv(&self) -> bool {
        &&& forall|a: Seq<char>, p: u64|
            #[trigger] self.holders@.contains_key((a, p)) <==> self.balance_of(a, p) > 0
        &&& forall|a: Seq<char>, p: u64|
            #[trigger] self.holders@.contains_key((a, p)) ==> self.fractions@.contains_key(p)
        &&& forall|p: u64|
            #![trigger self.holders_of(p)]
            self.holders_of(p).finite() && self.holder_count(p) == self.holders_of(p).len()
                && self.sold_of(p) == self.balance_total(p)
        &&& forall|p: u64| #[trigger]
            self.fractions@.contains_key(p) ==> self.sold_of(p) <= self.fractions@[p].total_supply
    }

    pub open spec fn admin_authorized(&self, env: Env) -> bool {
        self.admin is Some && env.authorized(self.admin->0@)
    }

    /// The vault before `initialize`.
    pub fn new() -> (r: FractionVault)
        ensures
            r.admin is None,
            r.rent_distributor is None,
            r.fractions@ == Map::<u64, FractionInfo>::empty(),
            r.balances@ == Map::<(Seq<char>, u64), u128>::empty(),
            r.holder_counts@ == Map::<u64, u32>::empty(),
            r.holders@ == Map::<(Seq<char>, u64), bool>::empty(),
            r.sold@ == Map::<u64, u128>::empty(),
            r.inv(),
    {
        let r = FractionVault {
            admin: None,
            fractions: Table::new(),
            balances: Table::new(),
            holder_counts: Table::new(),
            holders: Table::new(),
            sold: Table::new(),
            rent_distributor: None,
        };
        assert forall|p: u64|
            #![trigger r.holders_of(p)]
            r.holders_of(p).finite() && r.holder_count(p) == r.holders_of(p).len() by {
            assert(r.holders_of(p) =~= Set::<Seq<char>>::empty());
        }
        r
    }

    /// Sets the admin, once.
    pub fn initialize(&mut self, admin: Address) -> (r: Result<(), ContractError>)
        ensures
            old(self).admin is Some ==> r == Err::<(), ContractError>(
                ContractError::AlreadyInitialized,
            ) && *final(self) == *old(self),
            old(self).admin is None ==> r is Ok && *final(self) == (FractionVault {
                admin: Some(admin),
                ..*old(self)
            }),
    {
        if self.admin.is_some() {
            return Err(ContractError::AlreadyInitialized);
        }
        self.admin = Some(admin);
        Ok(())
    }

    fn check_admin(&self, env: &Env) -> (r: Result<(), ContractError>)
        ensures
            self.admin is None ==> r == Err::<(), ContractError>(ContractError::NotInitialized),
            self.admin is Some && !env.authorized(self.admin->0@) ==> r == Err::<
                (),
                ContractError,
            >(ContractError::Unauthorized),
            r is Ok <==> self.admin_authorized(*env),
    {
        match &self.admin {
            None => Err(ContractError::NotInitialized),
            Some(admin) => if env.require_auth(admin) {
                Ok(())
            } else {
                Err(ContractError::Unauthorized)
            },
        }
    }

    /// The first check that `fractionalize` fails, in the order it makes
    /// them.
    pub open spec fn fractionalize_error(
        &self,
        env: Env,
        prop_id: u64,
        total_supply: u128,
        price: i128,
        property_exists: bool,
    ) -> Option<ContractError> {
        if self.admin is None {
            Some(ContractError::NotInitialized)
        } else if !env.authorized(self.admin->0@) {
            Some(ContractError::Unauthorized)
        } else if total_supply == 0 {
            Some(ContractError::TotalSupplyNotPositive)
        } else if price <= 0 {
            Some(ContractError::PriceNotPositive)
        } else if self.fractions@.contains_key(prop_id) {
            Some(ContractError::AlreadyFractionalized)
        } else if !property_exists {
            Some(ContractError::PropertyNotFound)
        } else {
            None
        }
    }

    /// Splits property `prop_id` into `total_supply` fractions sold at
    /// `price` in `payment_token`. `property_exists` is whether the property
    /// registry knows the property.
    pub fn fractionalize(
        &mut self,
        env: &Env,
        prop_id: u64,
        total_supply: u128,
        price: i128,
        payment_token: Address,
        property_registry: Address,
        compliance_registry: Address,
        property_exists: bool,
    ) -> (r: Result<(), ContractError>)
        requires
            old(self).inv(),
        ensures
            final(self).inv(),
            match old(self).fractionalize_error(*env, prop_id, total_supply, price, property_exists) {
                Some(e) => r == Err::<(), ContractError>(e) && *final(self) == *old(self),
                None => {
                    &&& r is Ok
                    &&& final(self).fractions@ == old(self).fractions@.insert(
                        prop_id,
                        (FractionInfo {
                            total_supply,
                            price,
                            payment_token,
                            property_registry,
                            compliance_registry,
                        }),
                    )
                    &&& final(self).holder_counts@ == old(self).holder_counts@.insert(prop_id, 0)
                    &&& final(self).balances == old(self).balances
                    &&& final(self).sold == old(self).sold
                    &&& final(self).holders == old(self).holders
                    &&& final(self).admin == old(self).admin
                    &&& final(self).rent_distributor == old(self).rent_distributor
                },
            },
    {
        self.check_admin(env)?;
        if total_supply == 0 {
            return Err(ContractError::TotalSupplyNotPositive);
        }
        if price <= 0 {
            return Err(ContractError::PriceNotPositive);
        }
        if self.fractions.contains_key(&prop_id) {
            return Err(ContractError::AlreadyFractionalized);
        }
        if !property_exists {
            return Err(ContractError::PropertyNotFound);
        }
        let info = FractionInfo {
            total_supply,
            price,
            payment_token,
            property_registry,
            compliance_registry,
        };
        proof {
            assert(self.holders_of(prop_id) =~= Set::<Seq<char>>::empty()) by {
                assert forall|a: Seq<char>| !#[trigger] self.holders_of(prop_id).contains(a) by {
                    if self.holders@.contains_key((a, prop_id)) {
                        assert(self.fractions@.contains_key(prop_id));
                    }
                }
            }
        }
        self.fractions.set(prop_id, info);
        self.holder_counts.set(prop_id, 0);
        proof {
            assert forall|p: u64|
                #![trigger self.holders_of(p)]
                self.holders_of(p).finite() && self.holder_count(p) == self.holders_of(p).len()
                    && self.sold_of(p) == self.balance_total(p) by {
                assert(self.holders_of(p) == old(self).holders_of(p));
                if p == prop_id {
                    assert(self.holders_of(p) =~= Set::<Seq<char>>::empty());
                }
            }
        }
        Ok(())
    }

    /// An investor's balance of fractions of a property; 0 if none.
    pub fn get_balance(&self, investor: &Address, prop_id: u64) -> (r: u128)
        ensures
            r == self.balance_of(investor@, prop_id),
    {
        match self.balances.get(&(investor.dup(), prop_id)) {
            Some(b) => *b,
            None => 0,
        }
    }

    /// The number of investors holding fractions of a property.
    pub fn total_holders(&self, prop_id: u64) -> (r: u32)
        ensures
            r == self.holder_count(prop_id),
    {
        match self.holder_counts.get(&prop_id) {
            Some(c) => *c,
            None => 0,
        }
    }

    /// The terms on which a property was fractionalized: supply, price,
    /// payment token, property registry and compliance registry.
    pub fn get_fraction_info(&self, prop_id: u64) -> (r: Result<
        (u128, i128, Address, Address, Address),
        ContractError,
    >)
        ensures
            !self.fractions@.contains_key(prop_id) ==> r == Err::<
                (u128, i128, Address, Address, Address),
                ContractError,
            >(ContractError::NotFractionalized),
            self.fractions@.contains_key(prop_id) ==> r == Ok::<
                (u128, i128, Address, Address, Address),
                ContractError,
            >(
                (
                    self.fractions@[prop_id].total_supply,
                    self.fractions@[prop_id].price,
                    self.fractions@[prop_id].payment_token,
                    self.fractions@[prop_id].property_registry,
                    self.fractions@[prop_id].compliance_registry,
                ),
            ),
    {
        match self.fractions.get(&prop_id) {
            Some(info) => Ok(
                (
                    info.total_supply,
                    info.price,
                    info.payment_token.dup(),
                    info.property_registry.dup(),
                    info.compliance_registry.dup(),
                ),
            ),
            None => Err(ContractError::NotFractionalized),
        }
    }

    /// Sets the rent distributor to checkpoint before balances change.
    pub fn set_rent_distributor(&mut self, env: &Env, distributor: Address) -> (r: Result<
        (),
        ContractError,
    >)
        requires
            old(self).inv(),
        ensures
            final(self).inv(),
            old(self).admin is None ==> r == Err::<(), ContractError>(
                ContractError::NotInitialized,
            ),
            old(self).admin is Some && !env.authorized(old(self).admin->0@) ==> r == Err::<
                (),
                ContractError,
            >(ContractError::Unauthorized),
            r is Err ==> *final(self) == *old(self),
            r is Ok <==> old(self).admin_authorized(*env),
            r is Ok ==> *final(self) == (FractionVault {
                rent_distributor: Some(distributor),
                ..*old(self)
            }),
    {
        self.check_admin(env)?;
        self.rent_distributor = Some(distributor);
        proof {
            assert forall|p: u64|
                #![trigger self.holders_of(p)]
                self.holders_of(p).finite() && self.holder_count(p) == self.holders_of(p).len()
                    && self.sold_of(p) == self.balance_total(p) by {
                assert(self.holders_of(p) == old(self).holders_of(p));
            }
        }
        Ok(())
    }

    /// The checkpoint to make on the rent distributor, if one is set.
    pub open spec fn checkpoint_of(
        &self,
        env: Env,
        investor: Address,
        prop_id: u64,
        balance: u128,
    ) -> Option<YieldCheckpoint> {
        match self.rent_distributor {
            Some(d) => Some(
                YieldCheckpoint { distributor: d, vault: env.contract, investor, prop_id, balance },
            ),
            None => None,
        }
    }

    fn checkpoint_yield(&self, env: &Env, investor: &Address, prop_id: u64, balance: u128) -> (r:
        Option<YieldCheckpoint>)
        ensures
            r == self.checkpoint_of(*env, *investor, prop_id, balance),
    {
        match &self.rent_distributor {
            Some(d) => Some(
                YieldCheckpoint {
                    distributor: d.dup(),
                    vault: env.contract.dup(),
                    investor: investor.dup(),
                    prop_id,
                    balance,
                },
            ),
            None => None,
        }
    }

    /// The first check that `buy_fraction` fails, in the order it makes
    /// them.
    pub open spec fn buy_error(
        &self,
        env: Env,
        buyer: Seq<char>,
        prop_id: u64,
        amount: u128,
        jurisdiction: Option<Symbol>,
        compliant: bool,
    ) -> Option<ContractError> {
        let balance = self.balance_of(buyer, prop_id);
        if !env.authorized(buyer) {
            Some(ContractError::Unauthorized)
        } else if amount == 0 {
            Some(ContractError::AmountNotPositive)
        } else if !self.fractions@.contains_key(prop_id) {
            Some(ContractError::NotFractionalized)
        } else if jurisdiction is None {
            Some(ContractError::PropertyNotFound)
        } else if !compliant {
            Some(ContractError::ComplianceCheckFailed)
        } else if self.sold_of(prop_id) + amount > self.fractions@[prop_id].total_supply {
            Some(ContractError::SupplyExceeded)
        } else if balance + amount > u128::MAX || (balance == 0 && self.holder_count(prop_id)
            == u32::MAX) || !crate::math::fits_i128(
            fractions_cost(amount, self.fractions@[prop_id].price),
        ) {
            Some(ContractError::ArithmeticOverflow)
        } else {
            None
        }
    }

    /// How the balance totals change when one investor's balance of one
    /// property is set to `v`, the holder set following the balance.
    proof fn lemma_totals_after_trade(&self, new: &Self, investor: Seq<char>, prop_id: u64, v: u128)
        requires
            forall|p: u64| #[trigger] self.holders_of(p).finite(),
            forall|a: Seq<char>|
                #[trigger] self.holders_of(prop_id).contains(a) <==> self.balance_of(a, prop_id) > 0,
            new.balances@ == self.balances@.insert((investor, prop_id), v),
            forall|p: u64| p != prop_id ==> #[trigger] new.holders_of(p) == self.holders_of(p),
            new.holders_of(prop_id) == if v > 0 {
                self.holders_of(prop_id).insert(investor)
            } else {
                self.holders_of(prop_id).remove(investor)
            },
        ensures
            forall|p: u64|
                #[trigger] new.balance_total(p) == self.balance_total(p) + if p == prop_id {
                    v - self.balance_of(investor, prop_id)
                } else {
                    0
                },
    {
        assert forall|p: u64|
            #[trigger] new.balance_total(p) == self.balance_total(p) + if p == prop_id {
                v - self.balance_of(investor, prop_id)
            } else {
                0
            } by {
            let s = self.holders_of(p);
            let f = holdings(self.balances@, p);
            let g = holdings(new.balances@, p);
            assert(s.finite());
            if p != prop_id {
                assert forall|a: Seq<char>| s.contains(a) implies f(a) == g(a) by {
                    assert((a, p) != (investor, prop_id));
                }
                lemma_sum_over_congruent(s, f, g);
            } else {
                assert forall|a: Seq<char>| s.contains(a) && a != investor implies f(a) == g(a) by {
                    assert((a, p) != (investor, prop_id));
                }
                if s.contains(investor) {
                    if v > 0 {
                        assert(s.insert(investor) =~= s);
                        lemma_sum_over_update(s, f, g, investor);
                    } else {
                        lemma_sum_over_drop(s, f, g, investor);
                    }
                } else {
                    assert(self.balance_of(investor, p) == 0);
                    if v > 0 {
                        lemma_sum_over_insert(s, f, g, investor);
                    } else {
                        assert(s.remove(investor) =~= s);
                        lemma_sum_over_congruent(s, f, g);
                    }
                }
            }
        }
    }

    proof fn lemma_other_holders(&self, other: &Self, p: u64)
        requires
            forall|a: Seq<char>|
                self.holders@.contains_key((a, p)) == other.holders@.contains_key((a, p)),
        ensures
            self.holders_of(p) == other.holders_of(p),
    {
        assert(self.holders_of(p) =~= other.holders_of(p));
    }

    /// Buys `amount` fractions of `prop_id` for `buyer` at the fixed price.
    /// `jurisdiction` is the property's jurisdiction as the property
    /// registry returned it (`None`: no such property), and `compliant` the
    /// compliance registry's verdict on the buyer there. A buyer whose
    /// balance was zero becomes a holder.
    pub fn buy_fraction(
        &mut self,
        env: &Env,
        buyer: &Address,
        prop_id: u64,
        amount: u128,
        jurisdiction: Option<Symbol>,
        compliant: bool,
    ) -> (r: Result<Trade, ContractError>)
        requires
            old(self).inv(),
        ensures
            final(self).inv(),
            match old(self).buy_error(*env, buyer@, prop_id, amount, jurisdiction, compliant) {
                Some(e) => r == Err::<Trade, ContractError>(e) && *final(self) == *old(self),
                None => {
                    let info = old(self).fractions@[prop_id];
                    let before = old(self).balance_of(buyer@, prop_id);
                    &&& r is Ok
                    &&& r->Ok_0.checkpoint == old(self).checkpoint_of(
                        *env,
                        *buyer,
                        prop_id,
                        before as u128,
                    )
                    &&& r->Ok_0.payment == (Transfer {
                        token: info.payment_token,
                        from: *buyer,
                        to: env.contract,
                        amount: fractions_cost(amount, info.price) as i128,
                    })
                    &&& final(self).balances@ == old(self).balances@.insert(
                        (buyer@, prop_id),
                        (before + amount) as u128,
                    )
                    &&& final(self).sold@ == old(self).sold@.insert(
                        prop_id,
                        (old(self).sold_of(prop_id) + amount) as u128,
                    )
                    &&& final(self).holders_of(prop_id) == old(self).holders_of(prop_id).insert(
                        buyer@,
                    )
                    &&& final(self).holder_count(prop_id) == if before == 0 {
                        old(self).holder_count(prop_id) + 1
                    } else {
                        old(self).holder_count(prop_id)
                    }
                    &&& forall|p: u64|
                        p != prop_id ==> final(self).holder_count(p) == old(self).holder_count(p)
                    &&& final(self).fractions == old(self).fractions
                    &&& final(self).admin == old(self).admin
                    &&& final(self).rent_distributor == old(self).rent_distributor
                },
            },
    {
        if !env.require_auth(buyer) {
            return Err(ContractError::Unauthorized);
        }
        if amount == 0 {
            return Err(ContractError::AmountNotPositive);
        }
        let (price, token, supply) = match self.fractions.get(&prop_id) {
            Some(info) => (info.price, info.payment_token.dup(), info.total_supply),
            None => {
                return Err(ContractError::NotFractionalized);
            },
        };
        let key = (buyer.dup(), prop_id);
        let balance: u128 = match self.balances.get(&key) {
            Some(b) => *b,
            None => 0,
        };
        let checkpoint = self.checkpoint_yield(env, buyer, prop_id, balance);
        if jurisdiction.is_none() {
            return Err(ContractError::PropertyNotFound);
        }
        if !compliant {
            return Err(ContractError::ComplianceCheckFailed);
        }
        let sold: u128 = match self.sold.get(&prop_id) {
            Some(x) => *x,
            None => 0,
        };
        if amount > supply - sold {
            return Err(ContractError::SupplyExceeded);
        }
        let new_balance = match balance.checked_add(amount) {
            Some(x) => x,
            None => {
                return Err(ContractError::ArithmeticOverflow);
            },
        };
        let count: u32 = match self.holder_counts.get(&prop_id) {
            Some(c) => *c,
            None => 0,
        };
        let holder_key = (buyer.dup(), prop_id);
        let is_holder: bool = match self.holders.get(&holder_key) {
            Some(h) => *h,
            None => false,
        };
        let becomes_holder = balance == 0 && !is_holder;
        if becomes_holder && count == u32::MAX {
            return Err(ContractError::ArithmeticOverflow);
        }
        let payment = match (amount as i128).checked_mul(price) {
            Some(p) => p,
            None => {
                return Err(ContractError::ArithmeticOverflow);
            },
        };
        let ghost old_self = *self;
        proof {
            assert(!self.holders@.contains_key((buyer@, prop_id)) <==> balance == 0);
        }
        self.balances.set(key, new_balance);
        self.sold.set(prop_id, sold + amount);
        if becomes_holder {
            self.holders.set(holder_key, true);
            self.holder_counts.set(prop_id, count + 1);
        }
        proof {
            assert(self.holders_of(prop_id) =~= old_self.holders_of(prop_id).insert(buyer@));
            assert forall|p: u64| p != prop_id implies #[trigger] self.holders_of(p)
                == old_self.holders_of(p) by {
                self.lemma_other_holders(&old_self, p);
            }
            assert forall|a: Seq<char>|
                #[trigger] old_self.holders_of(prop_id).contains(a) <==> old_self.balance_of(
                    a,
                    prop_id,
                ) > 0 by {
                assert(old_self.holders@.contains_key((a, prop_id)) <==> old_self.balance_of(
                    a,
                    prop_id,
                ) > 0);
            }
            old_self.lemma_totals_after_trade(self, buyer@, prop_id, new_balance);
            assert forall|p: u64|
                #![trigger self.holders_of(p)]
                self.holders_of(p).finite() && self.holder_count(p) == self.holders_of(p).len()
                    && self.sold_of(p) == self.balance_total(p) by {
                if p != prop_id {
                    assert(self.holders_of(p) == old_self.holders_of(p));
                } else {
                    assert(old_self.holders_of(p).finite());
                }
            }
            assert forall|a: Seq<char>, p: u64| #[trigger]
                self.holders@.contains_key((a, p)) <==> self.balance_of(a, p) > 0 by {
                if (a, p) != (buyer@, prop_id) {
                    assert(self.holders@.contains_key((a, p)) == old_self.holders@.contains_key(
                        (a, p),
                    ));
                    assert(self.balance_of(a, p) == old_self.balance_of(a, p));
                }
            }
        }
        Ok(Trade { checkpoint, payment: Transfer { token, from: buyer.dup(), to: env.contract.dup(), amount: payment } })
    }

    /// The first check that `sell_fraction` fails, in the order it makes
    /// them.
    pub open spec fn sell_error(
        &self,
        env: Env,
        seller: Seq<char>,
        prop_id: u64,
        amount: u128,
        min_price: i128,
    ) -> Option<ContractError> {
        let balance = self.balance_of(seller, prop_id);
        let payout = fractions_cost(amount, self.fractions@[prop_id].price);
        if !env.authorized(seller) {
            Some(ContractError::Unauthorized)
        } else if amount == 0 {
            Some(ContractError::AmountNotPositive)
        } else if !self.fractions@.contains_key(prop_id) {
            Some(ContractError::NotFractionalized)
        } else if balance < amount {
            Some(ContractError::InsufficientBalance)
        } else if !crate::math::fits_i128(payout) {
            Some(ContractError::ArithmeticOverflow)
        } else if payout < min_price {
            Some(ContractError::PriceTooLow)
        } else {
            None
        }
    }

    /// Sells `amount` of `seller`'s fractions of `prop_id` back to the vault
    /// at the fixed price, provided the payout reaches `min_price`. A seller
    /// whose balance drops to zero stops being a holder.
    pub fn sell_fraction(
        &mut self,
        env: &Env,
        seller: &Address,
        prop_id: u64,
        amount: u128,
        min_price: i128,
    ) -> (r: Result<Trade, ContractError>)
        requires
            old(self).inv(),
        ensures
            final(self).inv(),
            match old(self).sell_error(*env, seller@, prop_id, amount, min_price) {
                Some(e) => r == Err::<Trade, ContractError>(e) && *final(self) == *old(self),
                None => {
                    let info = old(self).fractions@[prop_id];
                    let before = old(self).balance_of(seller@, prop_id);
                    &&& r is Ok
                    &&& r->Ok_0.checkpoint == old(self).checkpoint_of(
                        *env,
                        *seller,
                        prop_id,
                        before as u128,
                    )
                    &&& r->Ok_0.payment == (Transfer {
                        token: info.payment_token,
                        from: env.contract,
                        to: *seller,
                        amount: fractions_cost(amount, info.price) as i128,
                    })
                    &&& final(self).balances@ == old(self).balances@.insert(
                        (seller@, prop_id),
                        (before - amount) as u128,
                    )
                    &&& final(self).sold@ == old(self).sold@.insert(
                        prop_id,
                        (old(self).sold_of(prop_id) - amount) as u128,
                    )
                    &&& final(self).holders_of(prop_id) == if before == amount {
                        old(self).holders_of(prop_id).remove(seller@)
                    } else {
                        old(self).holders_of(prop_id)
                    }
                    &&& final(self).holder_count(prop_id) == if before == amount {
                        old(self).holder_count(prop_id) - 1
                    } else {
                        old(self).holder_count(prop_id)
                    }
                    &&& forall|p: u64|
                        p != prop_id ==> final(self).holder_count(p) == old(self).holder_count(p)
                    &&& final(self).fractions == old(self).fractions
                    &&& final(self).admin == old(self).admin
                    &&& final(self).rent_distributor == old(self).rent_distributor
                },
            },
    {
        if !env.require_auth(seller) {
            return Err(ContractError::Unauthorized);
        }
        if amount == 0 {
            return Err(ContractError::AmountNotPositive);
        }
        let (price, token) = match self.fractions.get(&prop_id) {
            Some(info) => (info.price, info.payment_token.dup()),
            None => {
                return Err(ContractError::NotFractionalized);
            },
        };
        let sold: u128 = match self.sold.get(&prop_id) {
            Some(x) => *x,
            None => 0,
        };
        let key = (seller.dup(), prop_id);
        let balance: u128 = match self.balances.get(&key) {
            Some(b) => *b,
            None => 0,
        };
        let checkpoint = self.checkpoint_yield(env, seller, prop_id, balance);
        if balance < amount {
            return Err(ContractError::InsufficientBalance);
        }
        let payout = match (amount as i128).checked_mul(price) {
            Some(p) => p,
            None => {
                return Err(ContractError::ArithmeticOverflow);
            },
        };
        if payout < min_price {
            return Err(ContractError::PriceTooLow);
        }
        let new_balance = balance - amount;
        let ghost old_self = *self;
        proof {
            assert(self.holders@.contains_key((seller@, prop_id)));
            assert(self.holders_of(prop_id).contains(seller@));
            assert(self.holders_of(prop_id).finite());
            lemma_sum_over_bounds_term(
                self.holders_of(prop_id),
                holdings(self.balances@, prop_id),
                seller@,
            );
        }
        self.balances.set(key, new_balance);
        self.sold.set(prop_id, sold - amount);
        if new_balance == 0 {
            let holder_key = (seller.dup(), prop_id);
            let _ = self.holders.take(&holder_key);
            let count: u32 = match self.holder_counts.get(&prop_id) {
                Some(c) => *c,
                None => 0,
            };
            if count > 0 {
                self.holder_counts.set(prop_id, count - 1);
            }
        }
        proof {
            if new_balance == 0 {
                assert(self.holders_of(prop_id) =~= old_self.holders_of(prop_id).remove(seller@));
            } else {
                assert(self.holders_of(prop_id) =~= old_self.holders_of(prop_id));
                assert(old_self.holders_of(prop_id).insert(seller@) =~= old_self.holders_of(
                    prop_id,
                ));
            }
            assert forall|p: u64| p != prop_id implies #[trigger] self.holders_of(p)
                == old_self.holders_of(p) by {
                self.lemma_other_holders(&old_self, p);
            }
            assert forall|a: Seq<char>|
                #[trigger] old_self.holders_of(prop_id).contains(a) <==> old_self.balance_of(
                    a,
                    prop_id,
                ) > 0 by {
                assert(old_self.holders@.contains_key((a, prop_id)) <==> old_self.balance_of(
                    a,
                    prop_id,
                ) > 0);
            }
            old_self.lemma_totals_after_trade(self, seller@, prop_id, new_balance);
            assert forall|p: u64|
                #![trigger self.holders_of(p)]
                self.holders_of(p).finite() && self.holder_count(p) == self.holders_of(p).len()
                    && self.sold_of(p) == self.balance_total(p) by {
                if p != prop_id {
                    assert(self.holders_of(p) == old_self.holders_of(p));
                } else {
                    assert(old_self.holders_of(p).finite());
                }
            }
            assert forall|a: Seq<char>, p: u64| #[trigger]
                self.holders@.contains_key((a, p)) <==> self.balance_of(a, p) > 0 by {
                if (a, p) != (seller@, prop_id) {
                    assert(self.holders@.contains_key((a, p)) == old_self.holders@.contains_key(
                        (a, p),
                    ));
                    assert(self.balance_of(a, p) == old_self.balance_of(a, p));
                }
            }
        }
        Ok(Trade { checkpoint, payment: Transfer { token, from: env.contract.dup(), to: seller.dup(), amount: payout } })
    }
}

/// A property's holder count is the number of investors whose balance of
/// its fractions is positive.
pub proof fn law_holder_count_is_positive_balances(vault: &FractionVault, prop_id: u64)
    requires
        vault.inv(),
    ensures
        ({
            let positive = Set::new(|a: Seq<char>| vault.balance_of(a, prop_id) > 0);
            positive.finite() && vault.holder_count(prop_id) == positive.len()
        }),
{
    let positive = Set::new(|a: Seq<char>| vault.balance_of(a, prop_id) > 0);
    assert(vault.holders_of(prop_id).finite());
    assert forall|a: Seq<char>| #[trigger] positive.contains(a) == vault.holders_of(
        prop_id,
    ).contains(a) by {
        assert(vault.holders@.contains_key((a, prop_id)) <==> vault.balance_of(a, prop_id) > 0);
    }
    assert(positive =~= vault.holders_of(prop_id));
}

/// A property never has more fractions held than its supply: the balances
/// of all investors add up to at most the supply fixed at fractionalization.
pub proof fn law_fractions_held_within_supply(vault: &FractionVault, prop_id: u64, investor: Seq<char>)
    requires
        vault.inv(),
        vault.fractions@.contains_key(prop_id),
    ensures
        vault.balance_total(prop_id) <= vault.fractions@[prop_id].total_supply,
        vault.balance_of(investor, prop_id) <= vault.balance_total(prop_id),
{
    assert(vault.holders_of(prop_id).finite());
    lemma_sum_over_bounds_term(
        vault.holders_of(prop_id),
        holdings(vault.balances@, prop_id),
        investor,
    );
    if !vault.holders_of(prop_id).contains(investor) {
        assert(!vault.holders@.contains_key((investor, prop_id)));
    }
}

} // verus!
