//! Pro-rata rent distribution. Rent deposited for a property raises the
//! property's accumulated yield per fraction; an investor's pending yield
//! is its balance times the yield accumulated since its last checkpoint,
//! plus what earlier checkpoints set aside.
use crate::math::{checked_div, checked_div_i128, div_trunc, fits_i128};
use crate::table::Table;
use crate::types::{Address, ContractError, Env, Transfer};
use vstd::arithmetic::div_mod::{lemma_div_is_ordered, lemma_div_multiples_vanish, lemma_fundamental_div_mod};
use vstd::arithmetic::mul::{lemma_mul_inequality, lemma_mul_is_commutative};
use vstd::prelude::*;

verus! {

/// Yield per fraction is kept scaled by 10^12.
pub const SCALING_FACTOR: i128 = 1_000_000_000_000;

/// The yield per fraction that a deposit of `amount` adds when `supply`
/// fractions exist, as the contract computes it (`None`: the arithmetic
/// fails).
pub open spec fn yield_per_share(amount: i128, supply: u128) -> Option<int> {
    if !fits_i128(amount * SCALING_FACTOR) {
        None
    } else {
        checked_div_i128(amount * SCALING_FACTOR, (supply as i128) as int)
    }
}

/// The yield that `balance` fractions earn from an increase `diff` of the
/// accumulated yield per fraction.
pub open spec fn share_of(balance: u128, diff: int) -> int {
    div_trunc((balance as i128) * diff, SCALING_FACTOR as int)
}

pub struct RentDistributor {
    pub admin: Option<Address>,
    pub accumulated: Table<u64, i128>,
    pub last_yield: Table<(Address, u64), i128>,
    pub pending: Table<(Address, u64), i128>,
    pub schedules: Table<u64, u32>,
    pub rent_tokens: Table<u64, Address>,
    pub fraction_vault: Option<Address>,
}

impl RentDistributor {
    /// The yield per fraction accumulated for a property.
    pub open spec fn accumulated_of(&self, prop_id: u64) -> int {
        if self.accumulated@.contains_key(prop_id) {
            self.accumulated@[prop_id] as int
        } else {
            0
        }
    }

    /// The accumulated yield per fraction at the investor's last checkpoint.
    pub open spec fn last_of(&self, investor: Seq<char>, prop_id: u64) -> int {
        if self.last_yield@.contains_key((investor, prop_id)) {
            self.last_yield@[(investor, prop_id)] as int
        } else {
            0
        }
    }

    /// The yield set aside for the investor at its last checkpoint.
    pub open spec fn stored_pending(&self, investor: Seq<char>, prop_id: u64) -> int {
        if self.pending@.contains_key((investor, prop_id)) {
            self.pending@[(investor, prop_id)] as int
        } else {
            0
        }
    }

    /// The investor's unclaimed yield when it holds `balance` fractions
    /// (`None`: the contract's `i128` arithmetic fails).
    pub open spec fn pending_value(&self, investor: Seq<char>, prop_id: u64, balance: u128) -> Option<
        int,
    > {
        let diff = self.accumulated_of(prop_id) - self.last_of(investor, prop_id);
        let stored = self.stored_pending(investor, prop_id);
        if !fits_i128(diff) {
            None
        } else if diff <= 0 {
            Some(stored)
        } else if !fits_i128((balance as i128) * diff) || !fits_i128(
            stored + share_of(balance, diff),
        ) {
            None
        } else {
            Some(stored + share_of(balance, diff))
        }
    }

    pub open spec fn admin_authorized(&self, env: Env) -> bool {
        self.admin is Some && env.authorized(self.admin->0@)
    }

    /// The distributor's bookkeeping invariant: any property with
    /// accumulated yield, or with yield set aside for an investor, has its
    /// rent token on record, and an investor's checkpoint is non-zero only
    /// where yield has accumulated.
    pub open spec fn inv(&self) -> bool {
        &&& forall|p: u64| #[trigger]
            self.accumulated@.contains_key(p) ==> self.rent_tokens@.contains_key(p)
        &&& forall|k: (Seq<char>, u64)| #[trigger]
            self.last_yield@.contains_key(k) && self.last_yield@[k] != 0
                ==> self.accumulated@.contains_key(k.1)
        &&& forall|k: (Seq<char>, u64)| #[trigger]
            self.pending@.contains_key(k) && self.pending@[k] != 0 ==> self.rent_tokens@.contains_key(
                k.1,
            )
    }

    /// Yield that is owed to an investor can always be paid in the
    /// property's rent token.
    pub proof fn lemma_owed_yield_has_token(&self, investor: Seq<char>, prop_id: u64, balance: u128)
        requires
            self.inv(),
            self.pending_value(investor, prop_id, balance) matches Some(v) && v > 0,
        ensures
            self.rent_tokens@.contains_key(prop_id),
    {
        if !self.accumulated@.contains_key(prop_id) {
            if self.last_yield@.contains_key((investor, prop_id)) {
                assert(self.last_yield@[(investor, prop_id)] == 0);
            }
            assert(self.pending@.contains_key((investor, prop_id)));
            assert(self.pending@[(investor, prop_id)] != 0);
        }
    }

    /// The distributor before `initialize`.
    pub fn new() -> (r: RentDistributor)
        ensures
            r.admin is None,
            r.fraction_vault is None,
            r.accumulated@ == Map::<u64, i128>::empty(),
            r.last_yield@ == Map::<(Seq<char>, u64), i128>::empty(),
            r.pending@ == Map::<(Seq<char>, u64), i128>::empty(),
            r.schedules@ == Map::<u64, u32>::empty(),
            r.rent_tokens@ == Map::<u64, Address>::empty(),
            r.inv(),
    {
        RentDistributor {
            admin: None,
            accumulated: Table::new(),
            last_yield: Table::new(),
            pending: Table::new(),
            schedules: Table::new(),
            rent_tokens: Table::new(),
            fraction_vault: None,
        }
    }

    /// Sets the admin, once.
    pub fn initialize(&mut self, admin: Address) -> (r: Result<(), ContractError>)
        requires
            old(self).inv(),
        ensures
            final(self).inv(),
            old(self).admin is Some ==> r == Err::<(), ContractError>(
                ContractError::AlreadyInitialized,
            ) && *final(self) == *old(self),
            old(self).admin is None ==> r is Ok && *final(self) == (RentDistributor {
                admin: Some(admin),
                ..*old(self)
            }),
    {
        if self.admin.is_some() {
            return Err(ContractError::AlreadyInitialized);
        }
        self.admin = Some(admin);
        Ok(())
    }

    fn check_admin(&self, env: &Env) -> (r: Result<(), ContractError>)
        ensures
            self.admin is None ==> r == Err::<(), ContractError>(ContractError::NotInitialized),
            self.admin is Some && !env.authorized(self.admin->0@) ==> r == Err::<
                (),
                ContractError,
            >(ContractError::Unauthorized),
            r is Ok <==> self.admin_authorized(*env),
    {
        match &self.admin {
            None => Err(ContractError::NotInitialized),
            Some(admin) => if env.require_auth(admin) {
                Ok(())
            } else {
                Err(ContractError::Unauthorized)
            },
        }
    }

    /// The first check that `deposit_rent` fails, in the order it makes
    /// them.
    pub open spec fn deposit_error(
        &self,
        env: Env,
        sender: Seq<char>,
        prop_id: u64,
        amount: i128,
        total_supply: Option<u128>,
    ) -> Option<ContractError> {
        let yps = yield_per_share(amount, total_supply->0);
        if !env.authorized(sender) {
            Some(ContractError::Unauthorized)
        } else if amount <= 0 {
            Some(ContractError::AmountNotPositive)
        } else if self.fraction_vault is None {
            Some(ContractError::FractionVaultNotSet)
        } else if total_supply is None {
            Some(ContractError::NotFractionalized)
        } else if total_supply->0 == 0 {
            Some(ContractError::NoFractionsIssued)
        } else if yps is None || !fits_i128(self.accumulated_of(prop_id) + yps->0) {
            Some(ContractError::ArithmeticOverflow)
        } else {
            None
        }
    }

    /// Takes `amount` of `token` from `sender` as rent for `prop_id` and
    /// raises the property's accumulated yield per fraction by the amount
    /// spread over `total_supply`, the property's fraction supply as the
    /// fraction vault returned it (`None`: not fractionalized). Returns the
    /// transfer of the rent into the distributor.
    pub fn deposit_rent(
        &mut self,
        env: &Env,
        sender: &Address,
        prop_id: u64,
        amount: i128,
        token: &Address,
        total_supply: Option<u128>,
    ) -> (r: Result<Transfer, ContractError>)
        requires
            old(self).inv(),
        ensures
            final(self).inv(),
            match old(self).deposit_error(*env, sender@, prop_id, amount, total_supply) {
                Some(e) => r == Err::<Transfer, ContractError>(e) && *final(self) == *old(self),
                None => {
                    &&& r == Ok::<Transfer, ContractError>(
                        (Transfer { token: *token, from: *sender, to: env.contract, amount }),
                    )
                    &&& final(self).accumulated@ == old(self).accumulated@.insert(
                        prop_id,
                        (old(self).accumulated_of(prop_id) + yield_per_share(
                            amount,
                            total_supply->0,
                        )->0) as i128,
                    )
                    &&& final(self).rent_tokens@ == old(self).rent_tokens@.insert(prop_id, *token)
                    &&& final(self).last_yield == old(self).last_yield
                    &&& final(self).pending == old(self).pending
                    &&& final(self).schedules == old(self).schedules
                    &&& final(self).admin == old(self).admin
                    &&& final(self).fraction_vault == old(self).fraction_vault
                },
            },
    {
        if !env.require_auth(sender) {
            return Err(ContractError::Unauthorized);
        }
        if amount <= 0 {
            return Err(ContractError::AmountNotPositive);
        }
        if self.fraction_vault.is_none() {
            return Err(ContractError::FractionVaultNotSet);
        }
        let total_supply = match total_supply {
            Some(s) => s,
            None => {
                return Err(ContractError::NotFractionalized);
            },
        };
        if total_supply == 0 {
            return Err(ContractError::NoFractionsIssued);
        }
        let scaled = match amount.checked_mul(SCALING_FACTOR) {
            Some(x) => x,
            None => {
                return Err(ContractError::ArithmeticOverflow);
            },
        };
        let yps = match checked_div(scaled, total_supply as i128) {
            Some(x) => x,
            None => {
                return Err(ContractError::ArithmeticOverflow);
            },
        };
        let current: i128 = match self.accumulated.get(&prop_id) {
            Some(a) => *a,
            None => 0,
        };
        let updated = match current.checked_add(yps) {
            Some(x) => x,
            None => {
                return Err(ContractError::ArithmeticOverflow);
            },
        };
        self.accumulated.set(prop_id, updated);
        self.rent_tokens.set(prop_id, token.dup());
        Ok(Transfer { token: token.dup(), from: sender.dup(), to: env.contract.dup(), amount })
    }

    pub fn pending_yield_internal(&self, investor: &Address, prop_id: u64, balance: u128) -> (r:
        Result<i128, ContractError>)
        ensures
            match self.pending_value(investor@, prop_id, balance) {
                Some(v) => r == Ok::<i128, ContractError>(v as i128),
                None => r == Err::<i128, ContractError>(ContractError::ArithmeticOverflow),
            },
    {
        let key = (investor.dup(), prop_id);
        let current: i128 = match self.accumulated.get(&prop_id) {
            Some(a) => *a,
            None => 0,
        };
        let last: i128 = match self.last_yield.get(&key) {
            Some(a) => *a,
            None => 0,
        };
        let stored: i128 = match self.pending.get(&key) {
            Some(a) => *a,
            None => 0,
        };
        let diff = match current.checked_sub(last) {
            Some(x) => x,
            None => {
                return Err(ContractError::ArithmeticOverflow);
            },
        };
        if diff <= 0 {
            return Ok(stored);
        }
        let product = match (balance as i128).checked_mul(diff) {
            Some(x) => x,
            None => {
                return Err(ContractError::ArithmeticOverflow);
            },
        };
        let new_yield = product / SCALING_FACTOR;
        match stored.checked_add(new_yield) {
            Some(x) => Ok(x),
            None => Err(ContractError::ArithmeticOverflow),
        }
    }

    /// The investor's unclaimed yield on `prop_id` while it holds `balance`
    /// fractions (its balance as the fraction vault returned it).
    pub fn pending_yield(&self, investor: &Address, prop_id: u64, balance: u128) -> (r: Result<
        i128,
        ContractError,
    >)
        ensures
            self.fraction_vault is None ==> r == Err::<i128, ContractError>(
                ContractError::FractionVaultNotSet,
            ),
            self.fraction_vault is Some ==> match self.pending_value(investor@, prop_id, balance) {
                Some(v) => r == Ok::<i128, ContractError>(v as i128),
                None => r == Err::<i128, ContractError>(ContractError::ArithmeticOverflow),
            },
    {
        if self.fraction_vault.is_none() {
            return Err(ContractError::FractionVaultNotSet);
        }
        self.pending_yield_internal(investor, prop_id, balance)
    }

    /// Pays out the investor's pending yield on `prop_id`, given its
    /// current balance as the fraction vault returned it. Returns the
    /// transfer of the yield to the investor.
    pub fn claim(&mut self, env: &Env, prop_id: u64, investor: &Address, balance: u128) -> (r:
        Result<Transfer, ContractError>)
        requires
            old(self).inv(),
        ensures
            final(self).inv(),
            !env.authorized(investor@) ==> r == Err::<Transfer, ContractError>(
                ContractError::Unauthorized,
            ),
            env.authorized(investor@) && old(self).fraction_vault is None ==> r == Err::<
                Transfer,
                ContractError,
            >(ContractError::FractionVaultNotSet),
            env.authorized(investor@) && old(self).fraction_vault is Some ==> match old(self).pending_value(investor@, prop_id, balance) {
                None => r == Err::<Transfer, ContractError>(ContractError::ArithmeticOverflow),
                Some(v) => if v <= 0 {
                    r == Err::<Transfer, ContractError>(ContractError::NoYieldToClaim)
                } else {
                    &&& r == Ok::<Transfer, ContractError>(
                        (Transfer {
                            token: old(self).rent_tokens@[prop_id],
                            from: env.contract,
                            to: *investor,
                            amount: v as i128,
                        }),
                    )
                    &&& final(self).last_yield@ == old(self).last_yield@.insert(
                        (investor@, prop_id),
                        old(self).accumulated_of(prop_id) as i128,
                    )
                    &&& final(self).pending@ == old(self).pending@.insert((investor@, prop_id), 0)
                    &&& final(self).accumulated == old(self).accumulated
                    &&& final(self).rent_tokens == old(self).rent_tokens
                    &&& final(self).schedules == old(self).schedules
                    &&& final(self).admin == old(self).admin
                    &&& final(self).fraction_vault == old(self).fraction_vault
                },
            },
            r is Err ==> *final(self) == *old(self),
            r is Ok ==> forall|b: u128|
                #[trigger] final(self).pending_value(investor@, prop_id, b) == Some(0int),
    {
        if !env.require_auth(investor) {
            return Err(ContractError::Unauthorized);
        }
        let pending = self.pending_yield(investor, prop_id, balance)?;
        if pending <= 0 {
            return Err(ContractError::NoYieldToClaim);
        }
        proof {
            self.lemma_owed_yield_has_token(investor@, prop_id, balance);
        }
        let token = match self.rent_tokens.get(&prop_id) {
            Some(t) => t.dup(),
            None => {
                return Err(ContractError::NoRentToken);
            },
        };
        let current: i128 = match self.accumulated.get(&prop_id) {
            Some(a) => *a,
            None => 0,
        };
        self.last_yield.set((investor.dup(), prop_id), current);
        self.pending.set((investor.dup(), prop_id), 0);
        Ok(Transfer { token, from: env.contract.dup(), to: investor.dup(), amount: pending })
    }

    /// Sets the distribution interval, in days, of a property.
    pub fn set_schedule(&mut self, env: &Env, prop_id: u64, interval_days: u32) -> (r: Result<
        (),
        ContractError,
    >)
        requires
            old(self).inv(),
        ensures
            final(self).inv(),
            old(self).admin is None ==> r == Err::<(), ContractError>(
                ContractError::NotInitialized,
            ),
            old(self).admin is Some && !env.authorized(old(self).admin->0@) ==> r == Err::<
                (),
                ContractError,
            >(ContractError::Unauthorized),
            r is Err ==> *final(self) == *old(self),
            r is Ok <==> old(self).admin_authorized(*env),
            r is Ok ==> final(self).schedules@ == old(self).schedules@.insert(
                prop_id,
                interval_days,
            ) && final(self).accumulated == old(self).accumulated && final(self).last_yield == old(self).last_yield && final(self).pending == old(self).pending && final(self).rent_tokens
                == old(self).rent_tokens && final(self).admin == old(self).admin && final(self).fraction_vault == old(self).fraction_vault,
    {
        self.check_admin(env)?;
        self.schedules.set(prop_id, interval_days);
        Ok(())
    }

    /// Sets the fraction vault whose balances and supplies the distributor
    /// follows, and which alone may checkpoint.
    pub fn set_fraction_vault(&mut self, env: &Env, vault: Address) -> (r: Result<
        (),
        ContractError,
    >)
        requires
            old(self).inv(),
        ensures
            final(self).inv(),
            old(self).admin is None ==> r == Err::<(), ContractError>(
                ContractError::NotInitialized,
            ),
            old(self).admin is Some && !env.authorized(old(self).admin->0@) ==> r == Err::<
                (),
                ContractError,
            >(ContractError::Unauthorized),
            r is Err ==> *final(self) == *old(self),
            r is Ok <==> old(self).admin_authorized(*env),
            r is Ok ==> *final(self) == (RentDistributor {
                fraction_vault: Some(vault),
                ..*old(self)
            }),
    {
        self.check_admin(env)?;
        self.fraction_vault = Some(vault);
        Ok(())
    }

    /// Called by the fraction vault before an investor's balance changes,
    /// with the balance before the change: sets the yield earned so far
    /// aside and restarts the investor's accrual from the current
    /// accumulated yield.
    pub fn checkpoint(
        &mut self,
        env: &Env,
        caller: &Address,
        investor: &Address,
        prop_id: u64,
        balance: u128,
    ) -> (r: Result<(), ContractError>)
        requires
            old(self).inv(),
        ensures
            final(self).inv(),
            !env.authorized(caller@) ==> r == Err::<(), ContractError>(
                ContractError::Unauthorized,
            ),
            env.authorized(caller@) && old(self).fraction_vault is None ==> r == Err::<
                (),
                ContractError,
            >(ContractError::FractionVaultNotSet),
            env.authorized(caller@) && old(self).fraction_vault is Some && old(self).fraction_vault->0@ != caller@ ==> r == Err::<(), ContractError>(
                ContractError::UnauthorizedCheckpoint,
            ),
            env.authorized(caller@) && old(self).fraction_vault is Some && old(self).fraction_vault->0@ == caller@ ==> match old(self).pending_value(
                investor@,
                prop_id,
                balance,
            ) {
                None => r == Err::<(), ContractError>(ContractError::ArithmeticOverflow),
                Some(v) => {
                    &&& r is Ok
                    &&& final(self).pending@ == old(self).pending@.insert(
                        (investor@, prop_id),
                        v as i128,
                    )
                    &&& final(self).last_yield@ == old(self).last_yield@.insert(
                        (investor@, prop_id),
                        old(self).accumulated_of(prop_id) as i128,
                    )
                    &&& final(self).accumulated == old(self).accumulated
                    &&& final(self).rent_tokens == old(self).rent_tokens
                    &&& final(self).schedules == old(self).schedules
                    &&& final(self).admin == old(self).admin
                    &&& final(self).fraction_vault == old(self).fraction_vault
                },
            },
            r is Err ==> *final(self) == *old(self),
    {
        if !env.require_auth(caller) {
            return Err(ContractError::Unauthorized);
        }
        match &self.fraction_vault {
            None => {
                return Err(ContractError::FractionVaultNotSet);
            },
            Some(v) => {
                if !caller.equals(v) {
                    return Err(ContractError::UnauthorizedCheckpoint);
                }
            },
        }
        let pending = self.pending_yield_internal(investor, prop_id, balance)?;
        proof {
            if pending != 0 && !self.accumulated@.contains_key(prop_id) {
                if self.last_yield@.contains_key((investor@, prop_id)) {
                    assert(self.last_yield@[(investor@, prop_id)] == 0);
                }
                assert(self.pending@.contains_key((investor@, prop_id)));
            }
        }
        let current: i128 = match self.accumulated.get(&prop_id) {
            Some(a) => *a,
            None => 0,
        };
        self.pending.set((investor.dup(), prop_id), pending);
        self.last_yield.set((investor.dup(), prop_id), current);
        Ok(())
    }
}

/// After a claim or a checkpoint has brought an investor's accrual up to
/// the property's accumulated yield, its pending yield is what was set
/// aside, whatever balance it holds from then on.
pub proof fn law_caught_up_investor_keeps_set_aside_yield(
    d: &RentDistributor,
    investor: Seq<char>,
    prop_id: u64,
    balance: u128,
)
    requires
        d.last_of(investor, prop_id) == d.accumulated_of(prop_id),
    ensures
        d.pending_value(investor, prop_id, balance) == Some(d.stored_pending(investor, prop_id)),
{
}

/// The sum of the shares that holders with the given balances earn from a
/// yield per fraction `y`.
pub open spec fn total_shares(balances: Seq<u128>, y: int) -> int
    decreases balances.len(),
{
    if balances.len() == 0 {
        0
    } else {
        total_shares(balances.drop_last(), y) + share_of(balances.last(), y)
    }
}

pub open spec fn total_balance(balances: Seq<u128>) -> int
    decreases balances.len(),
{
    if balances.len() == 0 {
        0
    } else {
        total_balance(balances.drop_last()) + balances.last()
    }
}

proof fn lemma_shares_bounded(balances: Seq<u128>, y: int)
    requires
        y >= 0,
        forall|i: int| 0 <= i < balances.len() ==> #[trigger] balances[i] <= i128::MAX,
    ensures
        total_shares(balances, y) * SCALING_FACTOR <= total_balance(balances) * y,
        total_shares(balances, y) >= 0,
        total_balance(balances) >= 0,
    decreases balances.len(),
{
    if balances.len() > 0 {
        let t = balances.drop_last();
        assert forall|i: int| 0 <= i < t.len() implies #[trigger] t[i] <= i128::MAX by {
            assert(t[i] == balances[i]);
        }
        lemma_shares_bounded(t, y);
        let b = balances.last();
        assert(b <= i128::MAX) by {
            assert(balances[balances.len() - 1] == b);
        }
        assert((b as i128) as int == b as int);
        let x = (b as int) * y;
        assert(x >= 0) by (nonlinear_arith)
            requires
                b >= 0,
                y >= 0,
                x == (b as int) * y,
        ;
        let k = SCALING_FACTOR as int;
        lemma_fundamental_div_mod(x, k);
        assert(share_of(b, y) == x / k);
        assert((x / k) * k <= x) by {
            lemma_mul_is_commutative(k, x / k);
            vstd::arithmetic::div_mod::lemma_mod_pos_bound(x, k);
        }
        assert(x / k >= 0) by {
            lemma_div_is_ordered(0, x, k);
        }
        let ts = total_shares(t, y);
        assert((ts + x / k) * k == ts * k + (x / k) * k) by (nonlinear_arith);
        assert((total_balance(t) + b) * y == total_balance(t) * y + x) by (nonlinear_arith)
            requires
                x == (b as int) * y,
        ;
    }
}

/// A deposit never credits holders with more than the rent deposited, as
/// long as their balances add up to no more than the fraction supply.
pub proof fn law_deposit_credits_at_most_the_rent(
    balances: Seq<u128>,
    amount: i128,
    supply: u128,
)
    requires
        amount > 0,
        0 < supply <= i128::MAX,
        yield_per_share(amount, supply) is Some,
        total_balance(balances) <= supply,
    ensures
        total_shares(balances, yield_per_share(amount, supply)->0) <= amount,
{
    let k = SCALING_FACTOR as int;
    let s = supply as int;
    let a = amount as int;
    assert((supply as i128) as int == s);
    let y = yield_per_share(amount, supply)->0;
    assert(y == (a * k) / s);
    assert(a * k >= 0) by (nonlinear_arith)
        requires
            a > 0,
            k > 0,
    ;
    lemma_div_is_ordered(0, a * k, s);
    assert forall|i: int| 0 <= i < balances.len() implies #[trigger] balances[i] <= i128::MAX by {
        lemma_single_balance_bounded(balances, i);
    }
    lemma_shares_bounded(balances, y);
    let tb = total_balance(balances);
    let ts = total_shares(balances, y);
    lemma_mul_inequality(tb, s, y);
    lemma_fundamental_div_mod(a * k, s);
    lemma_mul_is_commutative(s, y);
    vstd::arithmetic::div_mod::lemma_mod_pos_bound(a * k, s);
    assert(s * y <= a * k);
    assert(ts * k <= a * k);
    vstd::arithmetic::mul::lemma_mul_inequality_converse(ts, a, k);
}

proof fn lemma_single_balance_bounded(balances: Seq<u128>, i: int)
    requires
        0 <= i < balances.len(),
        total_balance(balances) <= i128::MAX,
    ensures
        balances[i] <= i128::MAX,
    decreases balances.len(),
{
    lemma_total_balance_nonneg(balances.drop_last());
    if i < balances.len() - 1 {
        assert(balances.drop_last()[i] == balances[i]);
        lemma_single_balance_bounded(balances.drop_last(), i);
    }
}

proof fn lemma_total_balance_nonneg(balances: Seq<u128>)
    ensures
        total_balance(balances) >= 0,
    decreases balances.len(),
{
    if balances.len() > 0 {
        lemma_total_balance_nonneg(balances.drop_last());
    }
}

} // verus!
