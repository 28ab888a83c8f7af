//! Cross-border payments: users deposit anchored assets into the bridge,
//! send balances to others in the same or another asset (a conversion
//! costs a 0.1% fee), and withdraw.
use crate::math::{div_trunc, fits_i128};
use crate::table::{Table, TableKey};
use crate::types::{Address, ContractError, Env, PathQuote, Symbol, Transfer};
use vstd::prelude::*;

verus! {

pub const FEE_BPS: i128 = 10;

/// The fee that converting `amount` between two different assets costs.
pub open spec fn conversion_fee(amount: int, same_asset: bool) -> int {
    if same_asset {
        0
    } else {
        div_trunc(amount * FEE_BPS, 10000)
    }
}

/// What the recipient receives of `amount`.
pub open spec fn converted_amount(amount: int, same_asset: bool) -> int {
    amount - conversion_fee(amount, same_asset)
}

/// A balance key: a user and an asset.
pub type BalanceKey = (Seq<char>, Seq<char>);

/// The balances after crediting each recipient, in order, with what it
/// receives of its amount; `None` where a balance would leave `i128`.
pub open spec fn credit_all(
    balances: Map<BalanceKey, i128>,
    recipients: Seq<(Seq<char>, i128)>,
    dst: Seq<char>,
    same_asset: bool,
) -> Option<Map<BalanceKey, i128>>
    decreases recipients.len(),
{
    if recipients.len() == 0 {
        Some(balances)
    } else {
        match credit_all(balances, recipients.drop_last(), dst, same_asset) {
            None => None,
            Some(m) => {
                let key = (recipients.last().0, dst);
                let before = if m.contains_key(key) {
                    m[key] as int
                } else {
                    0
                };
                let after = before + converted_amount(recipients.last().1 as int, same_asset);
                if fits_i128(after) {
                    Some(m.insert(key, after as i128))
                } else {
                    None
                }
            },
        }
    }
}

/// The sum of the amounts in a batch.
pub open spec fn batch_total(recipients: Seq<(Seq<char>, i128)>) -> int
    decreases recipients.len(),
{
    if recipients.len() == 0 {
        0
    } else {
        batch_total(recipients.drop_last()) + recipients.last().1
    }
}

/// The first failure in checking a batch entry by entry: a non-positive
/// amount, or a running total that leaves `i128`.
pub open spec fn batch_error(recipients: Seq<(Seq<char>, i128)>) -> Option<ContractError>
    decreases recipients.len(),
{
    if recipients.len() == 0 {
        None
    } else {
        match batch_error(recipients.drop_last()) {
            Some(e) => Some(e),
            None => if recipients.last().1 <= 0 {
                Some(ContractError::AmountNotPositive)
            } else if !fits_i128(batch_total(recipients)) {
                Some(ContractError::ArithmeticOverflow)
            } else {
                None
            },
        }
    }
}

/// The batch as (recipient, amount) pairs.
pub open spec fn batch_view(recipients: Seq<(Address, i128)>) -> Seq<(Seq<char>, i128)> {
    Seq::new(recipients.len(), |i: int| (recipients[i].0@, recipients[i].1))
}

pub struct PaymentBridge {
    pub admin: Option<Address>,
    pub anchors: Table<Symbol, Address>,
    pub balances: Table<(Address, Symbol), i128>,
}

impl PaymentBridge {
    pub open spec fn balance_of(&self, user: Seq<char>, asset: Seq<char>) -> int {
        if self.balances@.contains_key((user, asset)) {
            self.balances@[(user, asset)] as int
        } else {
            0
        }
    }

    pub open spec fn admin_authorized(&self, env: Env) -> bool {
        self.admin is Some && env.authorized(self.admin->0@)
    }

    /// The bridge before `initialize`.
    pub fn new() -> (r: PaymentBridge)
        ensures
            r.admin is None,
            r.anchors@ == Map::<Seq<char>, Address>::empty(),
            r.balances@ == Map::<BalanceKey, i128>::empty(),
    {
        PaymentBridge { admin: None, anchors: Table::new(), balances: Table::new() }
    }

    /// Sets the admin, once.
    pub fn initialize(&mut self, admin: Address) -> (r: Result<(), ContractError>)
        ensures
            old(self).admin is Some ==> r == Err::<(), ContractError>(
                ContractError::AlreadyInitialized,
            ) && *final(self) == *old(self),
            old(self).admin is None ==> r is Ok && *final(self) == (PaymentBridge {
                admin: Some(admin),
                ..*old(self)
            }),
    {
        if self.admin.is_some() {
            return Err(ContractError::AlreadyInitialized);
        }
        self.admin = Some(admin);
        Ok(())
    }

    fn balance(&self, user: &Address, asset: &Symbol) -> (r: i128)
        ensures
            r == self.balance_of(user@, asset@),
    {
        match self.balances.get(&(user.dup(), asset.dup())) {
            Some(b) => *b,
            None => 0,
        }
    }

    /// Takes `amount` of an anchored asset from `user` into the bridge and
    /// credits it to `user`. Returns the transfer into the bridge.
    pub fn deposit(&mut self, env: &Env, user: &Address, asset: &Symbol, amount: i128) -> (r:
        Result<Transfer, ContractError>)
        ensures
            !env.authorized(user@) ==> r == Err::<Transfer, ContractError>(
                ContractError::Unauthorized,
            ),
            env.authorized(user@) && amount <= 0 ==> r == Err::<Transfer, ContractError>(
                ContractError::AmountNotPositive,
            ),
            env.authorized(user@) && amount > 0 && !old(self).anchors@.contains_key(asset@) ==> r
                == Err::<Transfer, ContractError>(ContractError::AssetNotRegistered),
            env.authorized(user@) && amount > 0 && old(self).anchors@.contains_key(asset@) ==> if !fits_i128(
                old(self).balance_of(user@, asset@) + amount,
            ) {
                r == Err::<Transfer, ContractError>(ContractError::ArithmeticOverflow)
            } else {
                &&& r == Ok::<Transfer, ContractError>(
                    (Transfer {
                        token: old(self).anchors@[asset@],
                        from: *user,
                        to: env.contract,
                        amount,
                    }),
                )
                &&& final(self).balances@ == old(self).balances@.insert(
                    (user@, asset@),
                    (old(self).balance_of(user@, asset@) + amount) as i128,
                )
                &&& final(self).anchors == old(self).anchors
                &&& final(self).admin == old(self).admin
            },
            r is Err ==> *final(self) == *old(self),
    {
        if !env.require_auth(user) {
            return Err(ContractError::Unauthorized);
        }
        if amount <= 0 {
            return Err(ContractError::AmountNotPositive);
        }
        let token = match self.anchors.get(asset) {
            Some(t) => t.dup(),
            None => {
                return Err(ContractError::AssetNotRegistered);
            },
        };
        let balance = self.balance(user, asset);
        let updated = match balance.checked_add(amount) {
            Some(b) => b,
            None => {
                return Err(ContractError::ArithmeticOverflow);
            },
        };
        self.balances.set((user.dup(), asset.dup()), updated);
        Ok(Transfer { token, from: user.dup(), to: env.contract.dup(), amount })
    }

    /// Pays `amount` of `user`'s balance of an anchored asset out of the
    /// bridge. Returns the transfer to `user`.
    pub fn withdraw(&mut self, env: &Env, user: &Address, asset: &Symbol, amount: i128) -> (r:
        Result<Transfer, ContractError>)
        ensures
            !env.authorized(user@) ==> r == Err::<Transfer, ContractError>(
                ContractError::Unauthorized,
            ),
            env.authorized(user@) && amount <= 0 ==> r == Err::<Transfer, ContractError>(
                ContractError::AmountNotPositive,
            ),
            env.authorized(user@) && amount > 0 && old(self).balance_of(user@, asset@) < amount
                ==> r == Err::<Transfer, ContractError>(ContractError::InsufficientBalance),
            env.authorized(user@) && amount > 0 && old(self).balance_of(user@, asset@) >= amount
                ==> if !old(self).anchors@.contains_key(asset@) {
                r == Err::<Transfer, ContractError>(ContractError::AssetNotRegistered)
            } else {
                &&& r == Ok::<Transfer, ContractError>(
                    (Transfer {
                        token: old(self).anchors@[asset@],
                        from: env.contract,
                        to: *user,
                        amount,
                    }),
                )
                &&& final(self).balances@ == old(self).balances@.insert(
                    (user@, asset@),
                    (old(self).balance_of(user@, asset@) - amount) as i128,
                )
                &&& final(self).anchors == old(self).anchors
                &&& final(self).admin == old(self).admin
            },
            r is Err ==> *final(self) == *old(self),
    {
        if !env.require_auth(user) {
            return Err(ContractError::Unauthorized);
        }
        if amount <= 0 {
            return Err(ContractError::AmountNotPositive);
        }
        let balance = self.balance(user, asset);
        if balance < amount {
            return Err(ContractError::InsufficientBalance);
        }
        let token = match self.anchors.get(asset) {
            Some(t) => t.dup(),
            None => {
                return Err(ContractError::AssetNotRegistered);
            },
        };
        self.balances.set((user.dup(), asset.dup()), balance - amount);
        Ok(Transfer { token, from: env.contract.dup(), to: user.dup(), amount })
    }

    /// What the recipient receives of `amount`, or `None` where the fee
    /// computation overflows.
    fn convert(amount: i128, same_asset: bool) -> (r: Option<i128>)
        requires
            amount > 0,
        ensures
            match r {
                Some(v) => v == converted_amount(amount as int, same_asset) && 0 <= v <= amount && (
                same_asset || fits_i128(amount * FEE_BPS)),
                None => !same_asset && !fits_i128(amount * FEE_BPS),
            },
    {
        if same_asset {
            return Some(amount);
        }
        match amount.checked_mul(FEE_BPS) {
            Some(scaled) => {
                proof {
                    law_conversion_keeps_at_most_the_amount(amount as int, same_asset);
                }
                Some(amount - scaled / 10000)
            },
            None => None,
        }
    }

    /// Sends `amount` of `from`'s balance in `src` to `to` in `dst`; a
    /// conversion between different assets keeps back the fee. Returns the
    /// amount credited.
    pub fn send(
        &mut self,
        env: &Env,
        from: &Address,
        to: &Address,
        amount: i128,
        src: &Symbol,
        dst: &Symbol,
    ) -> (r: Result<i128, ContractError>)
        ensures
            !env.authorized(from@) ==> r == Err::<i128, ContractError>(
                ContractError::Unauthorized,
            ),
            env.authorized(from@) && amount <= 0 ==> r == Err::<i128, ContractError>(
                ContractError::AmountNotPositive,
            ),
            env.authorized(from@) && amount > 0 && old(self).balance_of(from@, src@) < amount ==> r
                == Err::<i128, ContractError>(ContractError::InsufficientBalance),
            env.authorized(from@) && amount > 0 && old(self).balance_of(from@, src@) >= amount
                ==> ({
                let same = src@ == dst@;
                let debited = old(self).balances@.insert(
                    (from@, src@),
                    (old(self).balance_of(from@, src@) - amount) as i128,
                );
                let credited_before = if debited.contains_key((to@, dst@)) {
                    debited[(to@, dst@)] as int
                } else {
                    0
                };
                let received = converted_amount(amount as int, same);
                if (!same && !fits_i128(amount * FEE_BPS)) || !fits_i128(
                    credited_before + received,
                ) {
                    r == Err::<i128, ContractError>(ContractError::ArithmeticOverflow)
                } else {
                    &&& r == Ok::<i128, ContractError>(received as i128)
                    &&& final(self).balances@ == debited.insert(
                        (to@, dst@),
                        (credited_before + received) as i128,
                    )
                    &&& final(self).anchors == old(self).anchors
                    &&& final(self).admin == old(self).admin
                }
            }),
            r is Err ==> *final(self) == *old(self),
    {
        if !env.require_auth(from) {
            return Err(ContractError::Unauthorized);
        }
        if amount <= 0 {
            return Err(ContractError::AmountNotPositive);
        }
        let src_balance = self.balance(from, src);
        if src_balance < amount {
            return Err(ContractError::InsufficientBalance);
        }
        let dest_amount = match Self::convert(amount, src.equals(dst)) {
            Some(v) => v,
            None => {
                return Err(ContractError::ArithmeticOverflow);
            },
        };
        let src_key = (from.dup(), src.dup());
        let dst_key = (to.dup(), dst.dup());
        let dst_before = if src_key.same_key(&dst_key) {
            src_balance - amount
        } else {
            self.balance(to, dst)
        };
        let dst_after = match dst_before.checked_add(dest_amount) {
            Some(b) => b,
            None => {
                return Err(ContractError::ArithmeticOverflow);
            },
        };
        let ghost same_key = (from@, src@) == (to@, dst@);
        self.balances.set(src_key, src_balance - amount);
        let ghost debited = self.balances@;
        assert(dst_before == (if debited.contains_key((to@, dst@)) {
            debited[(to@, dst@)] as int
        } else {
            0
        }));
        self.balances.set(dst_key, dst_after);
        assert(dest_amount == converted_amount(amount as int, src@ == dst@));
        assert(debited == old(self).balances@.insert(
                    (from@, src@),
                    (old(self).balance_of(from@, src@) - amount) as i128,
                ));
        assert(self.balances@ == debited.insert((to@, dst@), (dst_before + dest_amount) as i128));
        Ok(dest_amount)
    }

    /// Sends each recipient its amount from `from`'s balance in `src`,
    /// credited in `dst`: all amounts must be positive and the balance must
    /// cover their sum, which is debited first.
    pub fn batch_send(
        &mut self,
        env: &Env,
        from: &Address,
        recipients: &Vec<(Address, i128)>,
        src: &Symbol,
        dst: &Symbol,
    ) -> (r: Result<(), ContractError>)
        ensures
            ({
                let batch = batch_view(recipients@);
                let same = src@ == dst@;
                let debited = old(self).balances@.insert(
                    (from@, src@),
                    (old(self).balance_of(from@, src@) - batch_total(batch)) as i128,
                );
                if !env.authorized(from@) {
                    r == Err::<(), ContractError>(ContractError::Unauthorized)
                } else if batch_error(batch) is Some {
                    r == Err::<(), ContractError>(batch_error(batch)->0)
                } else if old(self).balance_of(from@, src@) < batch_total(batch) {
                    r == Err::<(), ContractError>(ContractError::InsufficientBalance)
                } else if (!same && exists|i: int|
                    0 <= i < batch.len() && !fits_i128(#[trigger] batch[i].1 * FEE_BPS)) || credit_all(
                    debited,
                    batch,
                    dst@,
                    same,
                ) is None {
                    r == Err::<(), ContractError>(ContractError::ArithmeticOverflow)
                } else {
                    &&& r is Ok
                    &&& final(self).balances@ == credit_all(debited, batch, dst@, same)->0
                    &&& final(self).anchors == old(self).anchors
                    &&& final(self).admin == old(self).admin
                }
            }),
            r is Err ==> *final(self) == *old(self),
    {
        let ghost batch = batch_view(recipients@);
        if !env.require_auth(from) {
            return Err(ContractError::Unauthorized);
        }
        let mut total: i128 = 0;
        let mut i: usize = 0;
        while i < recipients.len()
            invariant
                i <= recipients@.len(),
                batch == batch_view(recipients@),
                forall|j: int| 0 <= j < i ==> #[trigger] batch[j].1 > 0,
                env.authorized(from@),
                *self == *old(self),
                batch_error(batch.take(i as int)) is None,
                total == batch_total(batch.take(i as int)),
                total >= 0,
            decreases recipients@.len() - i,
        {
            assert(batch.take(i + 1).drop_last() == batch.take(i as int));
            assert(batch.take(i + 1).last() == batch[i as int]);
            assert(batch[i as int].1 == recipients[i as int].1);
            let amt = recipients[i].1;
            if amt <= 0 {
                proof {
                    Self::lemma_batch_error_extends(batch, i + 1);
                }
                return Err(ContractError::AmountNotPositive);
            }
            total = match total.checked_add(amt) {
                Some(t) => t,
                None => {
                    proof {
                        Self::lemma_batch_error_extends(batch, i + 1);
                    }
                    return Err(ContractError::ArithmeticOverflow);
                },
            };
            i = i + 1;
        }
        assert(batch.take(i as int) == batch);
        let src_balance = self.balance(from, src);
        if src_balance < total {
            return Err(ContractError::InsufficientBalance);
        }
        let same = src.equals(dst);
        let mut balances = self.balances.duplicate();
        balances.set((from.dup(), src.dup()), src_balance - total);
        let ghost debited = balances@;
        let mut k: usize = 0;
        while k < recipients.len()
            invariant
                k <= recipients@.len(),
                batch == batch_view(recipients@),
                forall|j: int| 0 <= j < batch.len() ==> #[trigger] batch[j].1 > 0,
                env.authorized(from@),
                *self == *old(self),
                same == (src@ == dst@),
                batch_error(batch) is None,
                old(self).balance_of(from@, src@) >= batch_total(batch),
                debited == old(self).balances@.insert(
                    (from@, src@),
                    (old(self).balance_of(from@, src@) - batch_total(batch)) as i128,
                ),
                credit_all(debited, batch.take(k as int), dst@, same) == Some(balances@),
                forall|j: int|
                    0 <= j < k ==> (same || fits_i128(#[trigger] batch[j].1 * FEE_BPS)),
            decreases recipients@.len() - k,
        {
            assert(batch.take(k + 1).drop_last() == batch.take(k as int));
            assert(batch.take(k + 1).last() == batch[k as int]);
            assert(batch[k as int] == (recipients[k as int].0@, recipients[k as int].1));
            let amt = recipients[k].1;
            let to = &recipients[k].0;
            assert(amt == batch[k as int].1);
            let dest_amount = match Self::convert(amt, same) {
                Some(v) => v,
                None => {
                    assert(!fits_i128(batch[k as int].1 * FEE_BPS));
                    return Err(ContractError::ArithmeticOverflow);
                },
            };
            let key = (to.dup(), dst.dup());
            let before: i128 = match balances.get(&key) {
                Some(b) => *b,
                None => 0,
            };
            let after = match before.checked_add(dest_amount) {
                Some(b) => b,
                None => {
                    proof {
                        Self::lemma_credit_fails_extends(debited, batch, dst@, same, k + 1);
                    }
                    return Err(ContractError::ArithmeticOverflow);
                },
            };
            balances.set(key, after);
            k = k + 1;
        }
        assert(batch.take(k as int) == batch);
        self.balances = balances;
        Ok(())
    }

    proof fn lemma_batch_error_extends(batch: Seq<(Seq<char>, i128)>, n: int)
        requires
            0 <= n <= batch.len(),
            batch_error(batch.take(n)) is Some,
        ensures
            batch_error(batch) == batch_error(batch.take(n)),
        decreases batch.len() - n,
    {
        if n == batch.len() {
            assert(batch.take(n) == batch);
        } else {
            assert(batch.take(n + 1).drop_last() == batch.take(n));
            Self::lemma_batch_error_extends(batch, n + 1);
        }
    }

    proof fn lemma_credit_fails_extends(
        m: Map<BalanceKey, i128>,
        batch: Seq<(Seq<char>, i128)>,
        dst: Seq<char>,
        same: bool,
        n: int,
    )
        requires
            0 <= n <= batch.len(),
            credit_all(m, batch.take(n), dst, same) is None,
        ensures
            credit_all(m, batch, dst, same) is None,
        decreases batch.len() - n,
    {
        if n == batch.len() {
            assert(batch.take(n) == batch);
        } else {
            assert(batch.take(n + 1).drop_last() == batch.take(n));
            Self::lemma_credit_fails_extends(m, batch, dst, same, n + 1);
        }
    }

    /// Registers the token contract that anchors an asset symbol.
    pub fn register_anchor(&mut self, env: &Env, asset: Symbol, token_address: Address) -> (r:
        Result<(), ContractError>)
        ensures
            old(self).admin is None ==> r == Err::<(), ContractError>(
                ContractError::NotInitialized,
            ),
            old(self).admin is Some && !env.authorized(old(self).admin->0@) ==> r == Err::<
                (),
                ContractError,
            >(ContractError::Unauthorized),
            r is Err ==> *final(self) == *old(self),
            r is Ok <==> old(self).admin_authorized(*env),
            r is Ok ==> final(self).anchors@ == old(self).anchors@.insert(asset@, token_address)
                && final(self).balances == old(self).balances && final(self).admin == old(self).admin,
    {
        match &self.admin {
            None => {
                return Err(ContractError::NotInitialized);
            },
            Some(admin) => {
                if !env.require_auth(admin) {
                    return Err(ContractError::Unauthorized);
                }
            },
        }
        self.anchors.set(asset, token_address);
        Ok(())
    }

    /// Quotes a conversion of `amount` from `src` to `dst`: what arrives,
    /// the fee, and the anchors of the two assets that are registered.
    pub fn estimate_path(&self, src: &Symbol, dst: &Symbol, amount: i128) -> (r: Result<
        PathQuote,
        ContractError,
    >)
        ensures
            amount <= 0 ==> r == Err::<PathQuote, ContractError>(
                ContractError::AmountNotPositive,
            ),
            amount > 0 && src@ != dst@ && !fits_i128(amount * FEE_BPS) ==> r == Err::<
                PathQuote,
                ContractError,
            >(ContractError::ArithmeticOverflow),
            amount > 0 && (src@ == dst@ || fits_i128(amount * FEE_BPS)) ==> {
                let same = src@ == dst@;
                &&& r is Ok
                &&& r->Ok_0.dest_amount == converted_amount(amount as int, same)
                &&& r->Ok_0.estimated_fee == conversion_fee(amount as int, same)
                &&& r->Ok_0.path@ == self.anchor_path(src@, dst@)
            },
    {
        if amount <= 0 {
            return Err(ContractError::AmountNotPositive);
        }
        let same = src.equals(dst);
        let dest_amount = match Self::convert(amount, same) {
            Some(v) => v,
            None => {
                return Err(ContractError::ArithmeticOverflow);
            },
        };
        let mut path: Vec<Address> = Vec::new();
        match self.anchors.get(src) {
            Some(a) => path.push(a.dup()),
            None => {},
        }
        match self.anchors.get(dst) {
            Some(a) => path.push(a.dup()),
            None => {},
        }
        let estimated_fee = amount - dest_amount;
        proof {
            assert(path@ =~= self.anchor_path(src@, dst@));
        }
        Ok(PathQuote { dest_amount, path, estimated_fee })
    }

    /// The registered anchors of `src` and then of `dst`.
    pub open spec fn anchor_path(&self, src: Seq<char>, dst: Seq<char>) -> Seq<Address> {
        let first = if self.anchors@.contains_key(src) {
            seq![self.anchors@[src]]
        } else {
            Seq::empty()
        };
        if self.anchors@.contains_key(dst) {
            first.push(self.anchors@[dst])
        } else {
            first
        }
    }

    /// A user's balance of an asset in the bridge.
    pub fn get_balance(&self, user: &Address, asset: &Symbol) -> (r: i128)
        ensures
            r == self.balance_of(user@, asset@),
    {
        self.balance(user, asset)
    }
}

/// Of a positive amount, the recipient receives what is left after the
/// fee: nothing is created, and the fee never exceeds the amount.
pub proof fn law_conversion_keeps_at_most_the_amount(amount: int, same_asset: bool)
    requires
        amount > 0,
    ensures
        converted_amount(amount, same_asset) + conversion_fee(amount, same_asset) == amount,
        0 <= conversion_fee(amount, same_asset) <= amount,
        0 <= converted_amount(amount, same_asset) <= amount,
        same_asset ==> converted_amount(amount, same_asset) == amount,
{
    if !same_asset {
        assert(amount * FEE_BPS > 0) by (nonlinear_arith)
            requires
                amount > 0,
        ;
        vstd::arithmetic::div_mod::lemma_div_is_ordered(amount * FEE_BPS, amount * 10000, 10000);
        vstd::arithmetic::div_mod::lemma_div_multiples_vanish(amount, 10000);
        vstd::arithmetic::mul::lemma_mul_is_commutative(amount, 10000);
        vstd::arithmetic::div_mod::lemma_div_is_ordered(0, amount * FEE_BPS, 10000);
        assert(amount * FEE_BPS <= amount * 10000) by (nonlinear_arith)
            requires
                amount > 0,
        ;
    }
}

/// A balance in a balance map; 0 where none is recorded.
pub open spec fn balance_in(m: Map<BalanceKey, i128>, key: BalanceKey) -> int {
    if m.contains_key(key) {
        m[key] as int
    } else {
        0
    }
}

/// What `user` receives in total from a batch: the converted amounts of all
/// its entries.
pub open spec fn received_by(recipients: Seq<(Seq<char>, i128)>, user: Seq<char>, same_asset: bool) -> int
    decreases recipients.len(),
{
    if recipients.len() == 0 {
        0
    } else {
        received_by(recipients.drop_last(), user, same_asset) + if recipients.last().0 == user {
            converted_amount(recipients.last().1 as int, same_asset)
        } else {
            0
        }
    }
}

/// Crediting a batch raises each recipient's balance in the destination
/// asset by the converted amounts of all its entries, and leaves every
/// other balance as it was.
pub proof fn law_batch_credits_each_recipient(
    balances: Map<BalanceKey, i128>,
    recipients: Seq<(Seq<char>, i128)>,
    dst: Seq<char>,
    same_asset: bool,
    key: BalanceKey,
)
    requires
        credit_all(balances, recipients, dst, same_asset) is Some,
    ensures
        ({
            let after = credit_all(balances, recipients, dst, same_asset)->0;
            &&& key.1 == dst ==> balance_in(after, key) == balance_in(balances, key) + received_by(
                recipients,
                key.0,
                same_asset,
            )
            &&& key.1 != dst ==> after.contains_key(key) == balances.contains_key(key) && (
            balances.contains_key(key) ==> after[key] == balances[key])
        }),
    decreases recipients.len(),
{
    if recipients.len() > 0 {
        law_batch_credits_each_recipient(
            balances,
            recipients.drop_last(),
            dst,
            same_asset,
            key,
        );
    }
}

/// A send within one asset moves the amount from the sender to the
/// recipient: their balances add up to what they did before, and a send to
/// oneself changes nothing.
pub proof fn law_same_asset_send_moves_the_amount(
    balances: Map<BalanceKey, i128>,
    from: Seq<char>,
    to: Seq<char>,
    asset: Seq<char>,
    amount: int,
)
    requires
        fits_i128(balance_in(balances, (from, asset)) - amount),
        fits_i128(
            balance_in(
                balances.insert((from, asset), (balance_in(balances, (from, asset)) - amount) as i128),
                (to, asset),
            ) + amount,
        ),
    ensures
        ({
            let debited = balances.insert(
                (from, asset),
                (balance_in(balances, (from, asset)) - amount) as i128,
            );
            let after = debited.insert(
                (to, asset),
                (balance_in(debited, (to, asset)) + amount) as i128,
            );
            &&& from != to ==> balance_in(after, (from, asset)) + balance_in(after, (to, asset))
                == balance_in(balances, (from, asset)) + balance_in(balances, (to, asset))
            &&& from == to ==> balance_in(after, (from, asset)) == balance_in(
                balances,
                (from, asset),
            )
        }),
{
}

/// Converting between different assets costs exactly 0.1% of the amount,
/// rounded down: the fee is the largest whole number whose 10000-fold is at
/// most ten times the amount, and the recipient gets the rest.
pub proof fn law_conversion_fee_is_a_tenth_of_a_percent(amount: int)
    requires
        amount >= 0,
    ensures
        conversion_fee(amount, false) * 10000 <= amount * 10,
        amount * 10 < (conversion_fee(amount, false) + 1) * 10000,
        converted_amount(amount, false) == amount - conversion_fee(amount, false),
        conversion_fee(amount, true) == 0,
        converted_amount(amount, true) == amount,
{
    let n = amount * 10;
    vstd::arithmetic::div_mod::lemma_fundamental_div_mod(n, 10000);
    vstd::arithmetic::div_mod::lemma_mod_bound(n, 10000);
    assert(n >= 0);
}

/// A quote's path lists the anchor of the source asset, if registered,
/// then the anchor of the destination asset, if registered, each
/// independently of the other.
pub proof fn law_path_lists_each_registered_anchor(
    bridge: &PaymentBridge,
    src: Seq<char>,
    dst: Seq<char>,
)
    ensures
        ({
            let path = bridge.anchor_path(src, dst);
            &&& path.len() == (if bridge.anchors@.contains_key(src) {
                1int
            } else {
                0
            }) + (if bridge.anchors@.contains_key(dst) {
                1int
            } else {
                0
            })
            &&& bridge.anchors@.contains_key(src) ==> path[0] == bridge.anchors@[src]
            &&& bridge.anchors@.contains_key(dst) ==> path[path.len() - 1] == bridge.anchors@[dst]
        }),
{
}

} // verus!
