//! Lending against tokenized property: a liquidity pool funded by liquidity
//! providers, loans capped at 70% of the property's valuation, simple
//! interest, and liquidation of loans whose debt exceeds 80% of the
//! collateral's valuation.
use crate::math::{checked_div, checked_div_i128, div_trunc, fits_i128, lemma_div_trunc_between};
use crate::table::Table;
use crate::types::{
    Address, ContractError, Env, HealthFactor, LoanData, LoanStatus, PropertyData, Transfer,
};
use vstd::prelude::*;

verus! {

pub const MAX_LTV_BPS: u32 = 7000;

pub const LIQUIDATION_THRESHOLD_BPS: u32 = 8000;

pub const INTEREST_RATE_BPS: u32 = 500;

pub const SECONDS_PER_YEAR: u64 = 31_536_000;

/// Interest on `amount` at `rate_bps` basis points a year over `elapsed`
/// seconds, rounded toward zero.
pub open spec fn interest_for(amount: int, rate_bps: int, elapsed: int) -> int {
    if elapsed == 0 {
        0
    } else {
        div_trunc(amount * rate_bps * elapsed, 10000 * SECONDS_PER_YEAR)
    }
}

/// The interest a loan has accrued at `now` since its last repayment, or
/// `None` where the contract's `i128` arithmetic fails (the clock runs
/// behind the last repayment, or a product overflows).
pub open spec fn accrued_interest(loan: LoanData, now: u64) -> Option<int> {
    let elapsed = now - loan.last_repayment_at;
    let rated = loan.amount * loan.interest_rate_bps;
    if elapsed < 0 {
        None
    } else if elapsed == 0 {
        Some(0)
    } else if !fits_i128(rated) || !fits_i128(rated * elapsed) {
        None
    } else {
        Some(interest_for(loan.amount as int, loan.interest_rate_bps as int, elapsed))
    }
}

/// The ratio, in basis points, of `debt` to `valuation`, as the contract
/// computes it before narrowing to `u32`; `None` on overflow or a zero
/// valuation.
pub open spec fn ltv_bps(debt: int, valuation: int) -> Option<int> {
    if !fits_i128(debt * 10000) {
        None
    } else {
        checked_div_i128(debt * 10000, valuation)
    }
}

/// The largest loan that a property of the given valuation can back.
pub open spec fn max_loan(valuation: int) -> int {
    div_trunc(valuation * MAX_LTV_BPS, 10000)
}

pub struct PoolConfig {
    pub admin: Address,
    pub token: Address,
    pub property_registry: Address,
    pub oracle: Address,
}

pub struct MortgagePool {
    pub config: Option<PoolConfig>,
    pub loan_counter: u64,
    pub loans: Table<u64, LoanData>,
    pub liquidity: Table<Address, i128>,
    pub total_liquidity: i128,
}

impl MortgagePool {
    /// The pool's bookkeeping invariant: its liquidity, each provider's
    /// share of it and each loan's principal are never negative.
    pub open spec fn inv(&self) -> bool {
        &&& self.total_liquidity >= 0
        &&& forall|lp: Seq<char>| #[trigger]
            self.liquidity@.contains_key(lp) ==> self.liquidity@[lp] >= 0
        &&& forall|id: u64| #[trigger] self.loans@.contains_key(id) ==> self.loans@[id].amount >= 0
    }

    /// The liquidity that `lp` has provided and not withdrawn.
    pub open spec fn lp_balance(&self, lp: Seq<char>) -> int {
        if self.liquidity@.contains_key(lp) {
            self.liquidity@[lp] as int
        } else {
            0
        }
    }

    /// The first check that `open_loan` fails, in the order it makes them.
    pub open spec fn open_loan_error(
        &self,
        env: Env,
        borrower: Seq<char>,
        amount: i128,
        property: Option<PropertyData>,
    ) -> Option<ContractError> {
        let valuation = property->0.valuation as int;
        if !env.authorized(borrower) {
            Some(ContractError::Unauthorized)
        } else if self.config is None {
            Some(ContractError::NotInitialized)
        } else if property is None {
            Some(ContractError::PropertyNotFound)
        } else if property->0.owner@ != borrower {
            Some(ContractError::NotPropertyOwner)
        } else if !fits_i128(valuation * MAX_LTV_BPS) {
            Some(ContractError::ArithmeticOverflow)
        } else if amount > max_loan(valuation) {
            Some(ContractError::ExceedsMaxLtv)
        } else if amount > self.total_liquidity {
            Some(ContractError::InsufficientPoolLiquidity)
        } else if self.loan_counter == u64::MAX || ltv_bps(amount as int, valuation) is None
            || !fits_i128(self.total_liquidity - amount) {
            Some(ContractError::ArithmeticOverflow)
        } else if amount < 0 {
            Some(ContractError::NegativeAmount)
        } else {
            None
        }
    }

    /// The pool before `initialize`.
    pub fn new() -> (r: MortgagePool)
        ensures
            r.config is None,
            r.loan_counter == 0,
            r.loans@ == Map::<u64, LoanData>::empty(),
            r.liquidity@ == Map::<Seq<char>, i128>::empty(),
            r.total_liquidity == 0,
            r.inv(),
    {
        MortgagePool {
            config: None,
            loan_counter: 0,
            loans: Table::new(),
            liquidity: Table::new(),
            total_liquidity: 0,
        }
    }

    /// Sets the admin, the liquidity token, the property registry and the
    /// oracle, once; starts with no loans and no liquidity.
    pub fn initialize(
        &mut self,
        admin: Address,
        token: Address,
        property_registry: Address,
        oracle: Address,
    ) -> (r: Result<(), ContractError>)
        requires
            old(self).inv(),
        ensures
            final(self).inv(),
            old(self).config is Some ==> r == Err::<(), ContractError>(
                ContractError::AlreadyInitialized,
            ) && *final(self) == *old(self),
            old(self).config is None ==> r is Ok && final(self).config == Some(
                (PoolConfig { admin, token, property_registry, oracle }),
            ) && final(self).loan_counter == 0 && final(self).total_liquidity == 0 && final(self).loans == old(self).loans && final(self).liquidity == old(self).liquidity,
    {
        if self.config.is_some() {
            return Err(ContractError::AlreadyInitialized);
        }
        self.config = Some(PoolConfig { admin, token, property_registry, oracle });
        self.loan_counter = 0;
        self.total_liquidity = 0;
        Ok(())
    }

    /// The interest that `loan` has accrued at the env's time.
    pub fn calculate_interest(env: &Env, loan: &LoanData) -> (r: Result<i128, ContractError>)
        ensures
            match accrued_interest(*loan, env.timestamp) {
                Some(i) => r is Ok && r->Ok_0 == i,
                None => r == Err::<i128, ContractError>(ContractError::ArithmeticOverflow),
            },
    {
        let elapsed = match env.timestamp.checked_sub(loan.last_repayment_at) {
            Some(e) => e,
            None => {
                return Err(ContractError::ArithmeticOverflow);
            },
        };
        if elapsed == 0 {
            return Ok(0);
        }
        let rated = match loan.amount.checked_mul(loan.interest_rate_bps as i128) {
            Some(x) => x,
            None => {
                return Err(ContractError::ArithmeticOverflow);
            },
        };
        let timed = match rated.checked_mul(elapsed as i128) {
            Some(x) => x,
            None => {
                return Err(ContractError::ArithmeticOverflow);
            },
        };
        Ok(timed / 315_360_000_000i128)
    }

    /// Opens a loan of `amount` against property `prop_id`, whose record
    /// the property registry returned as `property` (`None`: no such
    /// property). The borrower must own the property; the loan may not
    /// exceed 70% of its valuation nor the pool's liquidity. Returns the new
    /// loan's id and the transfer of the loan from the pool to the borrower.
    pub fn open_loan(
        &mut self,
        env: &Env,
        borrower: &Address,
        prop_id: u64,
        amount: i128,
        property: Option<PropertyData>,
    ) -> (r: Result<(u64, Transfer), ContractError>)
        requires
            old(self).inv(),
        ensures
            final(self).inv(),
            match old(self).open_loan_error(*env, borrower@, amount, property) {
                Some(e) => r == Err::<(u64, Transfer), ContractError>(e) && *final(self) == *old(self),
                None => {
                    let id = (old(self).loan_counter + 1) as u64;
                    let valuation = property->0.valuation;
                    &&& r is Ok
                    &&& r->Ok_0.0 == id
                    &&& r->Ok_0.1 == (Transfer {
                        token: old(self).config->0.token,
                        from: env.contract,
                        to: *borrower,
                        amount,
                    })
                    &&& final(self).loan_counter == id
                    &&& final(self).loans@ == old(self).loans@.insert(
                        id,
                        (LoanData {
                            prop_id,
                            borrower: *borrower,
                            amount,
                            collateral_valuation: valuation,
                            ltv_bps: ltv_bps(amount as int, valuation as int)->0 as u32,
                            interest_rate_bps: INTEREST_RATE_BPS,
                            created_at: env.timestamp,
                            last_repayment_at: env.timestamp,
                            status: LoanStatus::Active,
                        }),
                    )
                    &&& final(self).total_liquidity == old(self).total_liquidity - amount
                    &&& final(self).liquidity == old(self).liquidity
                    &&& final(self).config == old(self).config
                },
            },
    {
        if !env.require_auth(borrower) {
            return Err(ContractError::Unauthorized);
        }
        let token = match &self.config {
            Some(config) => config.token.dup(),
            None => {
                return Err(ContractError::NotInitialized);
            },
        };
        let property = match property {
            Some(p) => p,
            None => {
                return Err(ContractError::PropertyNotFound);
            },
        };
        if !property.owner.equals(borrower) {
            return Err(ContractError::NotPropertyOwner);
        }
        let valuation = property.valuation;
        let scaled = match valuation.checked_mul(7000) {
            Some(x) => x,
            None => {
                return Err(ContractError::ArithmeticOverflow);
            },
        };
        let max_loan = scaled / 10000;
        if amount > max_loan {
            return Err(ContractError::ExceedsMaxLtv);
        }
        let total_liq = self.total_liquidity;
        if amount > total_liq {
            return Err(ContractError::InsufficientPoolLiquidity);
        }
        if self.loan_counter == u64::MAX {
            return Err(ContractError::ArithmeticOverflow);
        }
        let ltv = match amount.checked_mul(10000) {
            Some(x) => match checked_div(x, valuation) {
                Some(q) => q,
                None => {
                    return Err(ContractError::ArithmeticOverflow);
                },
            },
            None => {
                return Err(ContractError::ArithmeticOverflow);
            },
        };
        let remaining = match total_liq.checked_sub(amount) {
            Some(x) => x,
            None => {
                return Err(ContractError::ArithmeticOverflow);
            },
        };
        if amount < 0 {
            return Err(ContractError::NegativeAmount);
        }
        let counter = self.loan_counter + 1;
        self.loan_counter = counter;
        let now = env.timestamp;
        let loan = LoanData {
            prop_id,
            borrower: borrower.dup(),
            amount,
            collateral_valuation: valuation,
            ltv_bps: ltv as u32,
            interest_rate_bps: INTEREST_RATE_BPS,
            created_at: now,
            last_repayment_at: now,
            status: LoanStatus::Active,
        };
        self.loans.set(counter, loan);
        self.total_liquidity = remaining;
        Ok((counter, Transfer { token, from: env.contract.dup(), to: borrower.dup(), amount }))
    }

    /// The first check that `repay` fails, in the order it makes them.
    pub open spec fn repay_error(
        &self,
        env: Env,
        borrower: Seq<char>,
        loan_id: u64,
        amount: i128,
    ) -> Option<ContractError> {
        let loan = self.loans@[loan_id];
        let interest = accrued_interest(loan, env.timestamp);
        let due = loan.amount + interest->0;
        let repayment = if amount > due {
            due
        } else {
            amount as int
        };
        if !env.authorized(borrower) {
            Some(ContractError::Unauthorized)
        } else if !self.loans@.contains_key(loan_id) {
            Some(ContractError::LoanNotFound)
        } else if loan.borrower@ != borrower {
            Some(ContractError::NotBorrower)
        } else if loan.status != LoanStatus::Active {
            Some(ContractError::LoanNotActive)
        } else if interest is None || !fits_i128(due) {
            Some(ContractError::ArithmeticOverflow)
        } else if self.config is None {
            Some(ContractError::NotInitialized)
        } else if repayment < 0 {
            Some(ContractError::NegativeAmount)
        } else if !fits_i128(self.total_liquidity + repayment) || (repayment < due && repayment
            > interest->0 && !fits_i128(loan.amount - (repayment - interest->0))) {
            Some(ContractError::ArithmeticOverflow)
        } else {
            None
        }
    }

    /// Repays up to `amount` of a loan, on behalf of its borrower only: the
    /// payment is capped at the debt
    /// with interest. Paying the whole debt closes the loan as repaid;
    /// otherwise the part above the accrued interest reduces the principal
    /// and the interest clock restarts. Returns the transfer of the payment
    /// from the borrower to the pool.
    pub fn repay(&mut self, env: &Env, borrower: &Address, loan_id: u64, amount: i128) -> (r:
        Result<Transfer, ContractError>)
        requires
            old(self).inv(),
        ensures
            final(self).inv(),
            match old(self).repay_error(*env, borrower@, loan_id, amount) {
                Some(e) => r == Err::<Transfer, ContractError>(e) && *final(self) == *old(self),
                None => {
                    let loan = old(self).loans@[loan_id];
                    let interest = accrued_interest(loan, env.timestamp)->0;
                    let due = loan.amount + interest;
                    let repayment = if amount > due {
                        due
                    } else {
                        amount as int
                    };
                    &&& r is Ok
                    &&& r->Ok_0.token == old(self).config->0.token
                    &&& r->Ok_0.from == *borrower
                    &&& r->Ok_0.to == env.contract
                    &&& r->Ok_0.amount == repayment
                    &&& final(self).loans@.dom() == old(self).loans@.dom()
                    &&& forall|id: u64|
                        id != loan_id && old(self).loans@.contains_key(id) ==> final(self).loans@[id] == old(self).loans@[id]
                    &&& if repayment >= due {
                        &&& final(self).loans@[loan_id] == (LoanData {
                            amount: 0,
                            status: LoanStatus::Repaid,
                            ..loan
                        })
                    } else {
                        &&& final(self).loans@[loan_id] == (LoanData {
                            amount: if repayment > interest {
                                (loan.amount - (repayment - interest)) as i128
                            } else {
                                loan.amount
                            },
                            last_repayment_at: env.timestamp,
                            ..loan
                        })
                    }
                    &&& final(self).total_liquidity == old(self).total_liquidity + repayment
                    &&& final(self).liquidity == old(self).liquidity
                    &&& final(self).config == old(self).config
                    &&& final(self).loan_counter == old(self).loan_counter
                },
            },
    {
        if !env.require_auth(borrower) {
            return Err(ContractError::Unauthorized);
        }
        let mut loan = match self.loans.get(&loan_id) {
            Some(l) => LoanData {
                prop_id: l.prop_id,
                borrower: l.borrower.dup(),
                amount: l.amount,
                collateral_valuation: l.collateral_valuation,
                ltv_bps: l.ltv_bps,
                interest_rate_bps: l.interest_rate_bps,
                created_at: l.created_at,
                last_repayment_at: l.last_repayment_at,
                status: l.status,
            },
            None => {
                return Err(ContractError::LoanNotFound);
            },
        };
        if !loan.borrower.equals(borrower) {
            return Err(ContractError::NotBorrower);
        }
        if loan.status != LoanStatus::Active {
            return Err(ContractError::LoanNotActive);
        }
        let interest = Self::calculate_interest(env, &loan)?;
        let total_due = match loan.amount.checked_add(interest) {
            Some(x) => x,
            None => {
                return Err(ContractError::ArithmeticOverflow);
            },
        };
        let repayment = if amount > total_due {
            total_due
        } else {
            amount
        };
        let token = match &self.config {
            Some(config) => config.token.dup(),
            None => {
                return Err(ContractError::NotInitialized);
            },
        };
        if repayment < 0 {
            return Err(ContractError::NegativeAmount);
        }
        proof {
            lemma_interest_nonnegative(loan, env.timestamp);
        }
        let total_liq = match self.total_liquidity.checked_add(repayment) {
            Some(x) => x,
            None => {
                return Err(ContractError::ArithmeticOverflow);
            },
        };
        if repayment >= total_due {
            loan.amount = 0;
            loan.status = LoanStatus::Repaid;
        } else {
            if repayment > interest {
                loan.amount = match loan.amount.checked_sub(repayment - interest) {
                    Some(x) => x,
                    None => {
                        return Err(ContractError::ArithmeticOverflow);
                    },
                };
            }
            loan.last_repayment_at = env.timestamp;
        }
        self.loans.set(loan_id, loan);
        self.total_liquidity = total_liq;
        proof {
            assert(self.loans@.dom() =~= old(self).loans@.dom());
        }
        Ok(Transfer { token, from: borrower.dup(), to: env.contract.dup(), amount: repayment })
    }

    /// The first check that `loan_health` fails, in the order it makes them.
    pub open spec fn health_error(
        &self,
        env: Env,
        loan_id: u64,
        property: Option<PropertyData>,
    ) -> Option<ContractError> {
        let loan = self.loans@[loan_id];
        let interest = accrued_interest(loan, env.timestamp);
        let debt = loan.amount + interest->0;
        if !self.loans@.contains_key(loan_id) {
            Some(ContractError::LoanNotFound)
        } else if self.config is None {
            Some(ContractError::NotInitialized)
        } else if property is None {
            Some(ContractError::PropertyNotFound)
        } else if interest is None || !fits_i128(debt) || ltv_bps(
            debt,
            property->0.valuation as int,
        ) is None {
            Some(ContractError::ArithmeticOverflow)
        } else {
            None
        }
    }

    /// The health of a loan at the env's time: its debt with interest
    /// against the valuation of its property, whose current record the
    /// property registry returned as `property`.
    pub open spec fn health_of(&self, env: Env, loan_id: u64, property: Option<PropertyData>) -> HealthFactor {
        let loan = self.loans@[loan_id];
        let debt = loan.amount + accrued_interest(loan, env.timestamp)->0;
        let ratio = ltv_bps(debt, property->0.valuation as int)->0 as u32;
        HealthFactor { ratio, is_healthy: ratio <= LIQUIDATION_THRESHOLD_BPS }
    }

    /// The loan's current debt-to-valuation ratio, and whether it is
    /// at most the liquidation threshold.
    pub fn loan_health(&self, env: &Env, loan_id: u64, property: Option<PropertyData>) -> (r:
        Result<HealthFactor, ContractError>)
        ensures
            match self.health_error(*env, loan_id, property) {
                Some(e) => r == Err::<HealthFactor, ContractError>(e),
                None => r == Ok::<HealthFactor, ContractError>(
                    self.health_of(*env, loan_id, property),
                ),
            },
    {
        let loan = match self.loans.get(&loan_id) {
            Some(l) => l,
            None => {
                return Err(ContractError::LoanNotFound);
            },
        };
        if self.config.is_none() {
            return Err(ContractError::NotInitialized);
        }
        let property = match property {
            Some(p) => p,
            None => {
                return Err(ContractError::PropertyNotFound);
            },
        };
        let interest = Self::calculate_interest(env, loan)?;
        let debt = match loan.amount.checked_add(interest) {
            Some(x) => x,
            None => {
                return Err(ContractError::ArithmeticOverflow);
            },
        };
        let ltv = match debt.checked_mul(10000) {
            Some(x) => match checked_div(x, property.valuation) {
                Some(q) => q,
                None => {
                    return Err(ContractError::ArithmeticOverflow);
                },
            },
            None => {
                return Err(ContractError::ArithmeticOverflow);
            },
        };
        let ratio = ltv as u32;
        Ok(HealthFactor { ratio, is_healthy: ratio <= LIQUIDATION_THRESHOLD_BPS })
    }

    /// Marks an active loan as liquidated, provided its debt exceeds 80% of
    /// the collateral's valuation.
    pub fn liquidate(
        &mut self,
        env: &Env,
        liquidator: &Address,
        loan_id: u64,
        property: Option<PropertyData>,
    ) -> (r: Result<(), ContractError>)
        requires
            old(self).inv(),
        ensures
            final(self).inv(),
            !env.authorized(liquidator@) ==> r == Err::<(), ContractError>(
                ContractError::Unauthorized,
            ),
            env.authorized(liquidator@) && !old(self).loans@.contains_key(loan_id) ==> r == Err::<
                (),
                ContractError,
            >(ContractError::LoanNotFound),
            env.authorized(liquidator@) && old(self).loans@.contains_key(loan_id) && old(self).loans@[loan_id].status != LoanStatus::Active ==> r == Err::<(), ContractError>(
                ContractError::LoanNotActive,
            ),
            env.authorized(liquidator@) && old(self).loans@.contains_key(loan_id) && old(self).loans@[loan_id].status == LoanStatus::Active ==> match old(self).health_error(
                *env,
                loan_id,
                property,
            ) {
                Some(e) => r == Err::<(), ContractError>(e),
                None => if old(self).health_of(*env, loan_id, property).is_healthy {
                    r == Err::<(), ContractError>(ContractError::LoanHealthy)
                } else {
                    r is Ok
                },
            },
            r is Err ==> *final(self) == *old(self),
            r is Ok ==> old(self).health_of(*env, loan_id, property).ratio
                > LIQUIDATION_THRESHOLD_BPS,
            r is Ok ==> {
                &&& final(self).loans@ == old(self).loans@.insert(
                    loan_id,
                    (LoanData { status: LoanStatus::Liquidated, ..old(self).loans@[loan_id] }),
                )
                &&& final(self).total_liquidity == old(self).total_liquidity
                &&& final(self).liquidity == old(self).liquidity
                &&& final(self).config == old(self).config
                &&& final(self).loan_counter == old(self).loan_counter
            },
    {
        if !env.require_auth(liquidator) {
            return Err(ContractError::Unauthorized);
        }
        match self.loans.get(&loan_id) {
            Some(l) => {
                if l.status != LoanStatus::Active {
                    return Err(ContractError::LoanNotActive);
                }
            },
            None => {
                return Err(ContractError::LoanNotFound);
            },
        }
        let health = self.loan_health(env, loan_id, property)?;
        if health.is_healthy {
            return Err(ContractError::LoanHealthy);
        }
        let mut loan = self.loans.take(&loan_id).unwrap();
        loan.status = LoanStatus::Liquidated;
        self.loans.set(loan_id, loan);
        proof {
            assert(self.loans@ =~= old(self).loans@.insert(
                loan_id,
                (LoanData { status: LoanStatus::Liquidated, ..old(self).loans@[loan_id] }),
            ));
        }
        Ok(())
    }

    /// Takes `amount` of the liquidity token from `lp` into the pool and
    /// credits it to `lp`. Returns the transfer from `lp` to the pool.
    pub fn deposit_liquidity(&mut self, env: &Env, lp: &Address, amount: i128) -> (r: Result<
        Transfer,
        ContractError,
    >)
        requires
            old(self).inv(),
        ensures
            final(self).inv(),
            !env.authorized(lp@) ==> r == Err::<Transfer, ContractError>(
                ContractError::Unauthorized,
            ),
            env.authorized(lp@) && old(self).config is None ==> r == Err::<
                Transfer,
                ContractError,
            >(ContractError::NotInitialized),
            env.authorized(lp@) && old(self).config is Some ==> if amount < 0 {
                r == Err::<Transfer, ContractError>(ContractError::NegativeAmount)
            } else if !fits_i128(old(self).lp_balance(lp@) + amount) || !fits_i128(
                old(self).total_liquidity + amount,
            ) {
                r == Err::<Transfer, ContractError>(ContractError::ArithmeticOverflow)
            } else {
                r is Ok
            },
            r is Err ==> *final(self) == *old(self),
            r is Ok ==> {
                &&& r->Ok_0 == (Transfer {
                    token: old(self).config->0.token,
                    from: *lp,
                    to: env.contract,
                    amount,
                })
                &&& final(self).liquidity@ == old(self).liquidity@.insert(
                    lp@,
                    (old(self).lp_balance(lp@) + amount) as i128,
                )
                &&& final(self).total_liquidity == old(self).total_liquidity + amount
                &&& final(self).loans == old(self).loans
                &&& final(self).config == old(self).config
                &&& final(self).loan_counter == old(self).loan_counter
            },
    {
        if !env.require_auth(lp) {
            return Err(ContractError::Unauthorized);
        }
        let token = match &self.config {
            Some(config) => config.token.dup(),
            None => {
                return Err(ContractError::NotInitialized);
            },
        };
        if amount < 0 {
            return Err(ContractError::NegativeAmount);
        }
        let balance: i128 = match self.liquidity.get(lp) {
            Some(b) => *b,
            None => 0,
        };
        let new_balance = match balance.checked_add(amount) {
            Some(x) => x,
            None => {
                return Err(ContractError::ArithmeticOverflow);
            },
        };
        let new_total = match self.total_liquidity.checked_add(amount) {
            Some(x) => x,
            None => {
                return Err(ContractError::ArithmeticOverflow);
            },
        };
        self.liquidity.set(lp.dup(), new_balance);
        self.total_liquidity = new_total;
        Ok(Transfer { token, from: lp.dup(), to: env.contract.dup(), amount })
    }

    /// Pays `amount` of `lp`'s liquidity back out of the pool. Returns the
    /// transfer from the pool to `lp`.
    pub fn withdraw_liquidity(&mut self, env: &Env, lp: &Address, amount: i128) -> (r: Result<
        Transfer,
        ContractError,
    >)
        requires
            old(self).inv(),
        ensures
            final(self).inv(),
            !env.authorized(lp@) ==> r == Err::<Transfer, ContractError>(
                ContractError::Unauthorized,
            ),
            env.authorized(lp@) && old(self).lp_balance(lp@) < amount ==> r == Err::<
                Transfer,
                ContractError,
            >(ContractError::InsufficientLpBalance),
            env.authorized(lp@) && old(self).lp_balance(lp@) >= amount && old(self).total_liquidity
                < amount ==> r == Err::<Transfer, ContractError>(
                ContractError::InsufficientPoolLiquidity,
            ),
            env.authorized(lp@) && old(self).lp_balance(lp@) >= amount && old(self).total_liquidity
                >= amount ==> if !fits_i128(old(self).lp_balance(lp@) - amount) || !fits_i128(
                old(self).total_liquidity - amount,
            ) {
                r == Err::<Transfer, ContractError>(ContractError::ArithmeticOverflow)
            } else if old(self).config is None {
                r == Err::<Transfer, ContractError>(ContractError::NotInitialized)
            } else if amount < 0 {
                r == Err::<Transfer, ContractError>(ContractError::NegativeAmount)
            } else {
                r is Ok
            },
            r is Err ==> *final(self) == *old(self),
            r is Ok ==> {
                &&& r->Ok_0 == (Transfer {
                    token: old(self).config->0.token,
                    from: env.contract,
                    to: *lp,
                    amount,
                })
                &&& final(self).liquidity@ == old(self).liquidity@.insert(
                    lp@,
                    (old(self).lp_balance(lp@) - amount) as i128,
                )
                &&& final(self).total_liquidity == old(self).total_liquidity - amount
                &&& final(self).loans == old(self).loans
                &&& final(self).config == old(self).config
                &&& final(self).loan_counter == old(self).loan_counter
            },
    {
        if !env.require_auth(lp) {
            return Err(ContractError::Unauthorized);
        }
        let balance: i128 = match self.liquidity.get(lp) {
            Some(b) => *b,
            None => 0,
        };
        if balance < amount {
            return Err(ContractError::InsufficientLpBalance);
        }
        let total_liq = self.total_liquidity;
        if total_liq < amount {
            return Err(ContractError::InsufficientPoolLiquidity);
        }
        let new_balance = match balance.checked_sub(amount) {
            Some(x) => x,
            None => {
                return Err(ContractError::ArithmeticOverflow);
            },
        };
        let new_total = match total_liq.checked_sub(amount) {
            Some(x) => x,
            None => {
                return Err(ContractError::ArithmeticOverflow);
            },
        };
        let token = match &self.config {
            Some(config) => config.token.dup(),
            None => {
                return Err(ContractError::NotInitialized);
            },
        };
        if amount < 0 {
            return Err(ContractError::NegativeAmount);
        }
        self.liquidity.set(lp.dup(), new_balance);
        self.total_liquidity = new_total;
        Ok(Transfer { token, from: env.contract.dup(), to: lp.dup(), amount })
    }

    /// The loan with the given id.
    pub fn get_loan(&self, loan_id: u64) -> (r: Option<&LoanData>)
        ensures
            r == (if self.loans@.contains_key(loan_id) {
                Some(&self.loans@[loan_id])
            } else {
                None
            }),
    {
        self.loans.get(&loan_id)
    }
}

/// A loan is opened only within the maximum loan-to-value: where opening
/// succeeds against a property of positive valuation, the amount is at
/// most 70% of the valuation and the ratio recorded with the loan is at
/// most `MAX_LTV_BPS`.
pub proof fn law_opened_loan_within_max_ltv(
    pool: &MortgagePool,
    env: Env,
    borrower: Seq<char>,
    amount: i128,
    property: Option<PropertyData>,
)
    requires
        pool.open_loan_error(env, borrower, amount, property) is None,
        property->0.valuation > 0,
    ensures
        amount * 10000 <= property->0.valuation * MAX_LTV_BPS,
        ltv_bps(amount as int, property->0.valuation as int)->0 <= MAX_LTV_BPS,
{
    let v = property->0.valuation as int;
    let s = v * MAX_LTV_BPS;
    assert(s > 0) by (nonlinear_arith)
        requires
            v > 0,
            s == v * 7000,
    ;
    assert(max_loan(v) == s / 10000);
    assert((s / 10000) * 10000 <= s) by (nonlinear_arith)
        requires
            s > 0,
    ;
    assert(amount * 10000 <= (s / 10000) * 10000) by (nonlinear_arith)
        requires
            amount <= s / 10000,
    ;
    let a = amount * 10000;
    if a >= 0 {
        assert(0 * v <= a <= 7000 * v) by (nonlinear_arith)
            requires
                a >= 0,
                a <= s,
                s == v * 7000,
        ;
        lemma_div_trunc_between(a, v, 0, 7000);
    } else {
        assert(a * v <= a <= 7000 * v) by (nonlinear_arith)
            requires
                a < 0,
                v > 0,
        ;
        lemma_div_trunc_between(a, v, a, 7000);
    }
}

/// Interest accrued on a non-negative principal is non-negative.
pub proof fn lemma_interest_nonnegative(loan: LoanData, now: u64)
    requires
        loan.amount >= 0,
    ensures
        accrued_interest(loan, now) matches Some(i) ==> i >= 0,
{
    let elapsed = now - loan.last_repayment_at;
    if elapsed > 0 {
        let n = loan.amount * loan.interest_rate_bps * elapsed;
        assert(n >= 0) by (nonlinear_arith)
            requires
                loan.amount >= 0,
                loan.interest_rate_bps >= 0,
                elapsed > 0,
                n == loan.amount * loan.interest_rate_bps * elapsed,
        ;
    }
}

/// Withdrawing what was just deposited gives the provider and the pool
/// their liquidity back.
pub proof fn law_withdraw_undoes_deposit(
    before: &MortgagePool,
    deposited: &MortgagePool,
    after: &MortgagePool,
    lp: Seq<char>,
    amount: i128,
)
    requires
        before.inv(),
        before.config is Some,
        amount >= 0,
        fits_i128(before.lp_balance(lp) + amount),
        fits_i128(before.total_liquidity + amount),
        deposited.liquidity@ == before.liquidity@.insert(lp, (before.lp_balance(lp) + amount) as i128),
        deposited.total_liquidity == before.total_liquidity + amount,
        after.liquidity@ == deposited.liquidity@.insert(
            lp,
            (deposited.lp_balance(lp) - amount) as i128,
        ),
        after.total_liquidity == deposited.total_liquidity - amount,
    ensures
        deposited.lp_balance(lp) >= amount,
        deposited.total_liquidity >= amount,
        after.lp_balance(lp) == before.lp_balance(lp),
        after.total_liquidity == before.total_liquidity,
{
}

/// Interest accrues at the loan's rate per year on the principal, pro rata
/// to the seconds since the last repayment, rounded down.
pub proof fn law_interest_is_pro_rata(loan: LoanData, now: u64)
    requires
        loan.amount >= 0,
        accrued_interest(loan, now) is Some,
    ensures
        ({
            let i = accrued_interest(loan, now)->0;
            let owed = loan.amount * loan.interest_rate_bps * (now - loan.last_repayment_at);
            &&& i * (10000 * SECONDS_PER_YEAR) <= owed
            &&& owed < (i + 1) * (10000 * SECONDS_PER_YEAR)
        }),
{
    let elapsed = now - loan.last_repayment_at;
    let owed = loan.amount * loan.interest_rate_bps * elapsed;
    let d: int = 10000 * SECONDS_PER_YEAR;
    assert(elapsed >= 0);
    assert(owed >= 0) by (nonlinear_arith)
        requires
            loan.amount >= 0,
            loan.interest_rate_bps >= 0,
            elapsed >= 0,
            owed == loan.amount * loan.interest_rate_bps * elapsed,
    ;
    vstd::arithmetic::div_mod::lemma_fundamental_div_mod(owed, d);
    vstd::arithmetic::div_mod::lemma_mod_bound(owed, d);
    if elapsed == 0 {
        assert(owed == 0) by (nonlinear_arith)
            requires
                elapsed == 0,
                owed == loan.amount * loan.interest_rate_bps * elapsed,
        ;
    }
    let i = accrued_interest(loan, now)->0;
    let q = owed / d;
    assert(i == q);
    assert(d * q == q * d) by (nonlinear_arith);
    assert((q + 1) * d == q * d + d) by (nonlinear_arith);
}

/// A loan's health ratio is its whole debt, principal and the interest
/// accrued by now, against the collateral's valuation, in basis points
/// rounded down; the loan is healthy exactly when that ratio is at most
/// 80%.
pub proof fn law_health_counts_accrued_interest(
    pool: &MortgagePool,
    env: Env,
    loan_id: u64,
    property: Option<PropertyData>,
)
    requires
        pool.inv(),
        pool.health_error(env, loan_id, property) is None,
        property->0.valuation > 0,
        ({
            let loan = pool.loans@[loan_id];
            (loan.amount + accrued_interest(loan, env.timestamp)->0) * 10000
                < (u32::MAX as int + 1) * property->0.valuation
        }),
    ensures
        ({
            let loan = pool.loans@[loan_id];
            let debt = loan.amount + accrued_interest(loan, env.timestamp)->0;
            let v = property->0.valuation as int;
            let h = pool.health_of(env, loan_id, property);
            &&& h.ratio * v <= debt * 10000
            &&& debt * 10000 < (h.ratio + 1) * v
            &&& h.is_healthy <==> h.ratio <= 8000
        }),
{
    let loan = pool.loans@[loan_id];
    assert(loan.amount >= 0);
    lemma_interest_nonnegative(loan, env.timestamp);
    let debt = loan.amount + accrued_interest(loan, env.timestamp)->0;
    let v = property->0.valuation as int;
    let n = debt * 10000;
    assert(n >= 0);
    vstd::arithmetic::div_mod::lemma_fundamental_div_mod(n, v);
    vstd::arithmetic::div_mod::lemma_mod_bound(n, v);
    let q = n / v;
    assert(div_trunc(n, v) == q);
    assert(q >= 0) by (nonlinear_arith)
        requires
            n >= 0,
            v > 0,
            q == n / v,
    ;
    assert(q <= u32::MAX) by (nonlinear_arith)
        requires
            n == v * q + n % v,
            0 <= n % v,
            n < (u32::MAX as int + 1) * v,
            v > 0,
    ;
    assert(v * q == q * v) by (nonlinear_arith);
    assert((q + 1) * v == q * v + v) by (nonlinear_arith);
}

} // verus!
