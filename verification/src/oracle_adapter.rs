//! Multi-source price oracle: a registry of weighted oracles, their latest
//! price per asset, the weighted aggregate price, and a time-weighted
//! average over recorded aggregate prices.
use crate::math::{div_trunc, fits_i128, fits_u64, lemma_div_trunc_between, lemma_div_trunc_fits};
use crate::table::Table;
use crate::types::{Address, ContractError, Env, PriceData, Symbol};
use vstd::arithmetic::mul::lemma_mul_inequality;
use vstd::prelude::*;

verus! {

#[derive(Clone, Copy, Debug, PartialEq, Eq, Structural)]
pub struct OracleInfo {
    pub weight: u32,
    pub active: bool,
}

#[derive(Clone, Copy, Debug, PartialEq, Eq, Structural)]
pub struct PriceSample {
    pub price: i128,
    pub timestamp: u64,
}

#[derive(Clone, Debug)]
pub struct OracleSubmission {
    pub oracle: Address,
    pub price: i128,
}

/// The submissions of an asset as (oracle, price) pairs.
pub open spec fn submissions_view(v: Seq<OracleSubmission>) -> Seq<(Seq<char>, i128)> {
    Seq::new(v.len(), |i: int| (v[i].oracle@, v[i].price))
}

/// The submissions after `oracle` reports `price`: its earlier report is
/// replaced in place, or the report is appended.
pub open spec fn upsert_submission(s: Seq<(Seq<char>, i128)>, oracle: Seq<char>, price: i128) -> Seq<
    (Seq<char>, i128),
> {
    if exists|i: int| 0 <= i < s.len() && #[trigger] s[i].0 == oracle {
        Seq::new(
            s.len(),
            |i: int|
                if s[i].0 == oracle {
                    (oracle, price)
                } else {
                    s[i]
                },
        )
    } else {
        s.push((oracle, price))
    }
}

/// The sum of price times weight, and the sum of weights, over the
/// submissions of active oracles.
pub open spec fn weighted_sums(s: Seq<(Seq<char>, i128)>, oracles: Map<Seq<char>, OracleInfo>) -> (
    int,
    int,
)
    decreases s.len(),
{
    if s.len() == 0 {
        (0, 0)
    } else {
        let prior = weighted_sums(s.drop_last(), oracles);
        let info = oracles[s.last().0];
        if info.active {
            (prior.0 + s.last().1 * info.weight, prior.1 + info.weight)
        } else {
            prior
        }
    }
}

/// Accumulating the weighted sum in `i128`, submission by submission,
/// leaves the range of `i128` at some step.
pub open spec fn weighted_sum_overflows(
    s: Seq<(Seq<char>, i128)>,
    oracles: Map<Seq<char>, OracleInfo>,
) -> bool
    decreases s.len(),
{
    if s.len() == 0 {
        false
    } else {
        let info = oracles[s.last().0];
        let product = s.last().1 * info.weight;
        weighted_sum_overflows(s.drop_last(), oracles) || (info.active && (!fits_i128(product)
            || !fits_i128(weighted_sums(s.drop_last(), oracles).0 + product)))
    }
}

/// The weighted average price of the active oracles' submissions, rounded
/// toward zero; 0 when no active oracle has submitted.
pub open spec fn aggregate_price(s: Seq<(Seq<char>, i128)>, oracles: Map<Seq<char>, OracleInfo>) -> int {
    let sums = weighted_sums(s, oracles);
    if sums.1 > 0 {
        div_trunc(sums.0, sums.1)
    } else {
        0
    }
}

/// The running state of the time-weighted average computation.
pub struct TwapAcc {
    pub total: int,
    pub sum: int,
    pub prev: Option<int>,
    pub stopped: bool,
    pub failed: bool,
}

pub open spec fn twap_start() -> TwapAcc {
    TwapAcc { total: 0, sum: 0, prev: None, stopped: false, failed: false }
}

/// One sample's contribution: samples before the window only move the
/// previous timestamp, a sample after `now` ends the walk, and a sample in
/// the window adds its price weighted by the time since the previous sample
/// (or since the window's start).
pub open spec fn twap_step(acc: TwapAcc, s: PriceSample, cutoff: int, now: int) -> TwapAcc {
    if acc.stopped || acc.failed {
        acc
    } else if s.timestamp < cutoff {
        TwapAcc { prev: Some(s.timestamp as int), ..acc }
    } else if s.timestamp > now {
        TwapAcc { stopped: true, ..acc }
    } else {
        let delta = match acc.prev {
            Some(p) => if p >= cutoff {
                s.timestamp - p
            } else {
                s.timestamp - cutoff
            },
            None => s.timestamp - cutoff,
        };
        let product = s.price * delta;
        if delta < 0 || !fits_i128(product) || !fits_i128(acc.sum + product) || !fits_u64(
            acc.total + delta,
        ) {
            TwapAcc { failed: true, ..acc }
        } else {
            TwapAcc {
                total: acc.total + delta,
                sum: acc.sum + product,
                prev: Some(s.timestamp as int),
                stopped: false,
                failed: false,
            }
        }
    }
}

pub open spec fn twap_fold(s: Seq<PriceSample>, cutoff: int, now: int) -> TwapAcc
    decreases s.len(),
{
    if s.len() == 0 {
        twap_start()
    } else {
        twap_step(twap_fold(s.drop_last(), cutoff, now), s.last(), cutoff, now)
    }
}

/// The start of a window of `window` seconds ending at `now`, floored at 0.
pub open spec fn window_start(now: u64, window: u64) -> int {
    if now >= window {
        now - window
    } else {
        0
    }
}

/// The time-weighted average price of the samples in the window, rounded
/// toward zero; 0 when no time is covered.
pub open spec fn twap_value(acc: TwapAcc) -> int {
    if acc.total == 0 {
        0
    } else {
        div_trunc(acc.sum, acc.total)
    }
}

pub struct OracleAdapter {
    pub admin: Option<Address>,
    pub staleness_threshold: Option<u64>,
    pub oracles: Table<Address, OracleInfo>,
    pub prices: Table<Symbol, PriceData>,
    pub submissions: Table<Symbol, Vec<OracleSubmission>>,
    pub samples: Table<Symbol, Vec<PriceSample>>,
}

impl OracleAdapter {
    /// Every oracle that has a submission on record is registered.
    pub open spec fn inv(&self) -> bool {
        forall|a: Seq<char>, i: int|
            #![trigger self.submissions@[a]@[i]]
            self.submissions@.contains_key(a) && 0 <= i < self.submissions@[a]@.len()
                ==> self.oracles@.contains_key(self.submissions@[a]@[i].oracle@)
    }

    /// The (oracle, price) submissions on record for an asset.
    pub open spec fn submitted(&self, asset: Seq<char>) -> Seq<(Seq<char>, i128)> {
        if self.submissions@.contains_key(asset) {
            submissions_view(self.submissions@[asset]@)
        } else {
            Seq::empty()
        }
    }

    /// The aggregate price samples recorded for an asset, oldest first.
    pub open spec fn sampled(&self, asset: Seq<char>) -> Seq<PriceSample> {
        if self.samples@.contains_key(asset) {
            self.samples@[asset]@
        } else {
            Seq::empty()
        }
    }

    pub open spec fn admin_authorized(&self, env: &Env) -> bool {
        self.admin is Some && env.authorized(self.admin->0@)
    }

    /// The adapter before `initialize`.
    pub fn new() -> (r: OracleAdapter)
        ensures
            r.admin is None,
            r.staleness_threshold is None,
            r.oracles@ == Map::<Seq<char>, OracleInfo>::empty(),
            r.prices@ == Map::<Seq<char>, PriceData>::empty(),
            r.submissions@ == Map::<Seq<char>, Vec<OracleSubmission>>::empty(),
            r.samples@ == Map::<Seq<char>, Vec<PriceSample>>::empty(),
            r.inv(),
    {
        OracleAdapter {
            admin: None,
            staleness_threshold: None,
            oracles: Table::new(),
            prices: Table::new(),
            submissions: Table::new(),
            samples: Table::new(),
        }
    }

    /// Sets the admin and the staleness threshold, once.
    pub fn initialize(&mut self, admin: Address, staleness_threshold: u64) -> (r: Result<
        (),
        ContractError,
    >)
        ensures
            old(self).admin is Some ==> r == Err::<(), ContractError>(
                ContractError::AlreadyInitialized,
            ) && *final(self) == *old(self),
            old(self).admin is None ==> r is Ok && final(self).admin == Some(admin)
                && final(self).staleness_threshold == Some(staleness_threshold)
                && final(self).oracles == old(self).oracles && final(self).prices == old(self).prices && final(self).submissions == old(self).submissions && final(self).samples
                == old(self).samples,
    {
        if self.admin.is_some() {
            return Err(ContractError::AlreadyInitialized);
        }
        self.admin = Some(admin);
        self.staleness_threshold = Some(staleness_threshold);
        Ok(())
    }

    fn check_admin(&self, env: &Env) -> (r: Result<(), ContractError>)
        ensures
            self.admin is None ==> r == Err::<(), ContractError>(ContractError::NotInitialized),
            self.admin is Some && !env.authorized(self.admin->0@) ==> r == Err::<
                (),
                ContractError,
            >(ContractError::Unauthorized),
            r is Ok <==> self.admin_authorized(env),
    {
        match &self.admin {
            None => Err(ContractError::NotInitialized),
            Some(admin) => if env.require_auth(admin) {
                Ok(())
            } else {
                Err(ContractError::Unauthorized)
            },
        }
    }

    /// Registers (or re-registers) an oracle as active with the given weight.
    pub fn add_oracle(&mut self, env: &Env, oracle_addr: Address, weight: u32) -> (r: Result<
        (),
        ContractError,
    >)
        requires
            old(self).inv(),
        ensures
            final(self).inv(),
            old(self).admin is None ==> r == Err::<(), ContractError>(
                ContractError::NotInitialized,
            ),
            old(self).admin is Some && !env.authorized(old(self).admin->0@) ==> r == Err::<
                (),
                ContractError,
            >(ContractError::Unauthorized),
            r is Err ==> *final(self) == *old(self),
            r is Ok <==> old(self).admin_authorized(env),
            r is Ok ==> final(self).oracles@ == old(self).oracles@.insert(
                oracle_addr@,
                (OracleInfo { weight, active: true }),
            ) && final(self).admin == old(self).admin && final(self).staleness_threshold == old(self).staleness_threshold && final(self).prices == old(self).prices && final(self).submissions == old(self).submissions && final(self).samples == old(self).samples,
    {
        self.check_admin(env)?;
        self.oracles.set(oracle_addr, OracleInfo { weight, active: true });
        Ok(())
    }

    /// Deactivates a registered oracle; its weight stays on record.
    pub fn remove_oracle(&mut self, env: &Env, oracle_addr: &Address) -> (r: Result<
        (),
        ContractError,
    >)
        requires
            old(self).inv(),
        ensures
            final(self).inv(),
            old(self).admin is None ==> r == Err::<(), ContractError>(
                ContractError::NotInitialized,
            ),
            old(self).admin is Some && !env.authorized(old(self).admin->0@) ==> r == Err::<
                (),
                ContractError,
            >(ContractError::Unauthorized),
            old(self).admin_authorized(env) && !old(self).oracles@.contains_key(oracle_addr@)
                ==> r == Err::<(), ContractError>(ContractError::OracleNotRegistered),
            r is Err ==> *final(self) == *old(self),
            r is Ok <==> old(self).admin_authorized(env) && old(self).oracles@.contains_key(
                oracle_addr@,
            ),
            r is Ok ==> final(self).oracles@ == old(self).oracles@.insert(
                oracle_addr@,
                (OracleInfo { weight: old(self).oracles@[oracle_addr@].weight, active: false }),
            ) && final(self).admin == old(self).admin && final(self).staleness_threshold == old(self).staleness_threshold && final(self).prices == old(self).prices && final(self).submissions == old(self).submissions && final(self).samples == old(self).samples,
    {
        self.check_admin(env)?;
        let info = match self.oracles.get(oracle_addr) {
            Some(info) => *info,
            None => {
                return Err(ContractError::OracleNotRegistered);
            },
        };
        self.oracles.set(oracle_addr.dup(), OracleInfo { weight: info.weight, active: false });
        Ok(())
    }

    fn upsert(subs: &Vec<OracleSubmission>, oracle: &Address, price: i128) -> (r: Vec<
        OracleSubmission,
    >)
        ensures
            submissions_view(r@) == upsert_submission(submissions_view(subs@), oracle@, price),
            forall|i: int|
                0 <= i < r@.len() ==> (#[trigger] r@[i].oracle@ == oracle@ || exists|j: int|
                    0 <= j < subs@.len() && subs@[j].oracle@ == r@[i].oracle@),
    {
        let ghost s = submissions_view(subs@);
        let mut out: Vec<OracleSubmission> = Vec::new();
        let mut found = false;
        let mut i: usize = 0;
        while i < subs.len()
            invariant
                i <= subs@.len(),
                s == submissions_view(subs@),
                out@.len() == i,
                forall|j: int|
                    0 <= j < i ==> (#[trigger] out@[j]).oracle@ == subs@[j].oracle@ && out@[j].price
                        == (if subs@[j].oracle@ == oracle@ {
                        price
                    } else {
                        subs@[j].price
                    }),
                found == exists|j: int| 0 <= j < i && #[trigger] subs@[j].oracle@ == oracle@,
            decreases subs@.len() - i,
        {
            if subs[i].oracle.equals(oracle) {
                out.push(OracleSubmission { oracle: oracle.dup(), price });
                found = true;
            } else {
                out.push(OracleSubmission { oracle: subs[i].oracle.dup(), price: subs[i].price });
            }
            i = i + 1;
        }
        proof {
            if found {
                let j = choose|j: int| 0 <= j < i && #[trigger] subs@[j].oracle@ == oracle@;
                assert(s[j].0 == oracle@);
            } else {
                assert forall|j: int| 0 <= j < s.len() implies #[trigger] s[j].0 != oracle@ by {
                    assert(subs@[j].oracle@ != oracle@);
                }
            }
        }
        if !found {
            out.push(OracleSubmission { oracle: oracle.dup(), price });
        }
        proof {
            assert(submissions_view(out@) =~= upsert_submission(s, oracle@, price));
        }
        out
    }

    proof fn lemma_overflow_extends(
        s: Seq<(Seq<char>, i128)>,
        oracles: Map<Seq<char>, OracleInfo>,
        n: int,
    )
        requires
            0 <= n <= s.len(),
            weighted_sum_overflows(s.take(n), oracles),
        ensures
            weighted_sum_overflows(s, oracles),
        decreases s.len() - n,
    {
        if n == s.len() {
            assert(s.take(n) == s);
        } else {
            assert(s.take(n + 1).drop_last() == s.take(n));
            Self::lemma_overflow_extends(s, oracles, n + 1);
        }
    }

    /// Accumulates the weighted sums of the given submissions, or fails
    /// where `i128` arithmetic would overflow.
    fn weighted_parts(&self, subs: &Vec<OracleSubmission>) -> (r: Option<(i128, u128)>)
        requires
            forall|i: int|
                0 <= i < subs@.len() ==> self.oracles@.contains_key(#[trigger] subs@[i].oracle@),
        ensures
            match r {
                None => weighted_sum_overflows(submissions_view(subs@), self.oracles@),
                Some(p) => !weighted_sum_overflows(submissions_view(subs@), self.oracles@) && (
                p.0 as int, p.1 as int) == weighted_sums(submissions_view(subs@), self.oracles@)
                    && p.1 <= subs@.len() * (u32::MAX as int),
            },
    {
        let ghost s = submissions_view(subs@);
        let mut sum: i128 = 0;
        let mut weight: u128 = 0;
        let mut i: usize = 0;
        while i < subs.len()
            invariant
                i <= subs@.len(),
                s == submissions_view(subs@),
                forall|j: int|
                    0 <= j < subs@.len() ==> self.oracles@.contains_key(#[trigger] subs@[j].oracle@),
                (sum as int, weight as int) == weighted_sums(s.take(i as int), self.oracles@),
                !weighted_sum_overflows(s.take(i as int), self.oracles@),
                weight <= i * (u32::MAX as int),
            decreases subs@.len() - i,
        {
            let ghost t = s.take(i + 1);
            assert(t.drop_last() == s.take(i as int));
            assert(t.last() == s[i as int]);
            let info = *self.oracles.get(&subs[i].oracle).unwrap();
            if info.active {
                let product = match subs[i].price.checked_mul(info.weight as i128) {
                    Some(p) => p,
                    None => {
                        proof {
                            Self::lemma_overflow_extends(s, self.oracles@, i + 1);
                        }
                        return None;
                    },
                };
                sum = match sum.checked_add(product) {
                    Some(x) => x,
                    None => {
                        proof {
                            Self::lemma_overflow_extends(s, self.oracles@, i + 1);
                        }
                        return None;
                    },
                };
                assert(weight + info.weight <= (i + 1) * (u32::MAX as int)) by (nonlinear_arith)
                    requires
                        weight <= i * (u32::MAX as int),
                        info.weight <= u32::MAX,
                ;
                weight = weight + info.weight as u128;
            } else {
                assert(weight <= (i + 1) * (u32::MAX as int)) by (nonlinear_arith)
                    requires
                        weight <= i * (u32::MAX as int),
                ;
            }
            i = i + 1;
        }
        assert(s.take(i as int) == s);
        Some((sum, weight))
    }

    /// Records `price` from `oracle` for `asset`, recomputes the weighted
    /// aggregate over the asset's active submissions, stores it as the
    /// asset's price and appends it to the asset's price samples.
    pub fn submit_price(&mut self, env: &Env, oracle: &Address, asset: &Symbol, price: i128) -> (r:
        Result<PriceData, ContractError>)
        requires
            old(self).inv(),
        ensures
            final(self).inv(),
            r is Err ==> *final(self) == *old(self),
            !env.authorized(oracle@) ==> r == Err::<PriceData, ContractError>(
                ContractError::Unauthorized,
            ),
            env.authorized(oracle@) && !old(self).oracles@.contains_key(oracle@) ==> r == Err::<
                PriceData,
                ContractError,
            >(ContractError::OracleNotRegistered),
            env.authorized(oracle@) && old(self).oracles@.contains_key(oracle@) && !old(self).oracles@[oracle@].active ==> r == Err::<PriceData, ContractError>(
                ContractError::OracleNotActive,
            ),
            ({
                let subs = upsert_submission(old(self).submitted(asset@), oracle@, price);
                env.authorized(oracle@) && old(self).oracles@.contains_key(oracle@) && old(self).oracles@[oracle@].active ==> if weighted_sum_overflows(subs, old(self).oracles@)
                    || subs.len() > u32::MAX {
                    r == Err::<PriceData, ContractError>(ContractError::ArithmeticOverflow)
                } else {
                    &&& r is Ok
                    &&& r->Ok_0.price == aggregate_price(subs, old(self).oracles@)
                    &&& r->Ok_0.timestamp == env.timestamp
                    &&& r->Ok_0.oracle_count == subs.len()
                    &&& final(self).submitted(asset@) == subs
                    &&& final(self).submissions@.dom() == old(self).submissions@.dom().insert(
                        asset@,
                    )
                    &&& forall|a: Seq<char>|
                        a != asset@ && old(self).submissions@.contains_key(a) ==> final(self).submissions@[a] == old(self).submissions@[a]
                    &&& final(self).prices@ == old(self).prices@.insert(asset@, r->Ok_0)
                    &&& final(self).samples@.dom() == old(self).samples@.dom().insert(asset@)
                    &&& final(self).sampled(asset@) == old(self).sampled(asset@).push(
                        (PriceSample { price: r->Ok_0.price, timestamp: env.timestamp }),
                    )
                    &&& forall|a: Seq<char>|
                        a != asset@ && old(self).samples@.contains_key(a) ==> final(self).samples@[a] == old(self).samples@[a]
                    &&& final(self).oracles == old(self).oracles
                    &&& final(self).admin == old(self).admin
                    &&& final(self).staleness_threshold == old(self).staleness_threshold
                }
            }),
    {
        if !env.require_auth(oracle) {
            return Err(ContractError::Unauthorized);
        }
        let info = match self.oracles.get(oracle) {
            Some(info) => *info,
            None => {
                return Err(ContractError::OracleNotRegistered);
            },
        };
        if !info.active {
            return Err(ContractError::OracleNotActive);
        }
        let empty: Vec<OracleSubmission> = Vec::new();
        let new_subs = match self.submissions.get(asset) {
            Some(subs) => Self::upsert(subs, oracle, price),
            None => Self::upsert(&empty, oracle, price),
        };
        let ghost subs = submissions_view(new_subs@);
        proof {
            assert(submissions_view(empty@) =~= Seq::<(Seq<char>, i128)>::empty());
            assert forall|i: int| 0 <= i < new_subs@.len() implies self.oracles@.contains_key(
                #[trigger] new_subs@[i].oracle@,
            ) by {
                if new_subs@[i].oracle@ != oracle@ {
                    let a = asset@;
                    let j = choose|j: int|
                        0 <= j < self.submissions@[a]@.len() && self.submissions@[a]@[j].oracle@
                            == new_subs@[i].oracle@;
                    assert(self.oracles@.contains_key(self.submissions@[a]@[j].oracle@));
                }
            }
        }
        let (sum, weight) = match self.weighted_parts(&new_subs) {
            Some(parts) => parts,
            None => {
                return Err(ContractError::ArithmeticOverflow);
            },
        };
        if new_subs.len() > 4294967295usize {
            return Err(ContractError::ArithmeticOverflow);
        }
        let avg_price: i128 = if weight > 0 {
            proof {
                lemma_div_trunc_fits(sum as int, weight as int);
            }
            assert(weight <= i128::MAX) by (nonlinear_arith)
                requires
                    weight <= new_subs@.len() * (u32::MAX as int),
                    new_subs@.len() <= u32::MAX,
            ;
            sum / (weight as i128)
        } else {
            0
        };
        let timestamp = env.timestamp;
        let price_data = PriceData {
            price: avg_price,
            timestamp,
            oracle_count: new_subs.len() as u32,
        };
        self.submissions.set(asset.dup(), new_subs);
        self.prices.set(asset.dup(), price_data);
        let mut samples = match self.samples.take(asset) {
            Some(v) => v,
            None => Vec::new(),
        };
        samples.push(PriceSample { price: avg_price, timestamp });
        self.samples.set(asset.dup(), samples);
        proof {
            assert forall|a: Seq<char>, i: int|
                #![trigger self.submissions@[a]@[i]]
                self.submissions@.contains_key(a) && 0 <= i < self.submissions@[a]@.len()
                    implies self.oracles@.contains_key(self.submissions@[a]@[i].oracle@) by {
                if a == asset@ {
                    assert(self.oracles@.contains_key(new_subs@[i].oracle@));
                } else {
                    assert(old(self).submissions@[a] == self.submissions@[a]);
                }
            }
            assert(self.submissions@.dom() =~= old(self).submissions@.dom().insert(asset@));
            assert(self.samples@.dom() =~= old(self).samples@.dom().insert(asset@));
        }
        Ok(price_data)
    }

    /// The latest aggregate price of an asset; all zero when none was
    /// ever submitted.
    pub fn get_price(&self, asset: &Symbol) -> (r: Result<PriceData, ContractError>)
        ensures
            self.staleness_threshold is None ==> r == Err::<PriceData, ContractError>(
                ContractError::NotInitialized,
            ),
            self.staleness_threshold is Some ==> r == Ok::<PriceData, ContractError>(
                self.latest_price(asset@),
            ),
    {
        let price_data = match self.prices.get(asset) {
            Some(p) => *p,
            None => PriceData { price: 0, timestamp: 0, oracle_count: 0 },
        };
        if self.staleness_threshold.is_none() {
            return Err(ContractError::NotInitialized);
        }
        Ok(price_data)
    }

    pub open spec fn latest_price(&self, asset: Seq<char>) -> PriceData {
        if self.prices@.contains_key(asset) {
            self.prices@[asset]
        } else {
            PriceData { price: 0, timestamp: 0, oracle_count: 0 }
        }
    }

    /// Whether a price read at the env's time deserves a staleness alert:
    /// it was recorded, lies in the past, and is older than the threshold.
    pub fn price_is_stale(&self, env: &Env, price_data: &PriceData) -> (b: bool)
        ensures
            b == (self.staleness_threshold is Some && price_data.timestamp > 0 && env.timestamp
                > price_data.timestamp && env.timestamp - price_data.timestamp
                > self.staleness_threshold->0),
    {
        match self.staleness_threshold {
            None => false,
            Some(threshold) => price_data.timestamp > 0 && env.timestamp > price_data.timestamp
                && env.timestamp - price_data.timestamp > threshold,
        }
    }

    proof fn lemma_twap_absorbing(s: Seq<PriceSample>, cutoff: int, now: int, n: int)
        requires
            0 <= n <= s.len(),
            twap_fold(s.take(n), cutoff, now).stopped || twap_fold(s.take(n), cutoff, now).failed,
        ensures
            twap_fold(s, cutoff, now) == twap_fold(s.take(n), cutoff, now),
        decreases s.len() - n,
    {
        if n == s.len() {
            assert(s.take(n) == s);
        } else {
            assert(s.take(n + 1).drop_last() == s.take(n));
            Self::lemma_twap_absorbing(s, cutoff, now, n + 1);
        }
    }

    /// The time-weighted average of the asset's recorded prices over the
    /// last `window_secs` seconds; 0 when the window covers no time.
    pub fn twap(&self, env: &Env, asset: &Symbol, window_secs: u64) -> (r: Result<
        i128,
        ContractError,
    >)
        ensures
            ({
                let acc = twap_fold(
                    self.sampled(asset@),
                    window_start(env.timestamp, window_secs),
                    env.timestamp as int,
                );
                &&& acc.failed ==> r == Err::<i128, ContractError>(ContractError::ArithmeticOverflow)
                &&& !acc.failed ==> r is Ok && r->Ok_0 == twap_value(acc)
            }),
    {
        let empty: Vec<PriceSample> = Vec::new();
        let samples = match self.samples.get(asset) {
            Some(v) => v,
            None => &empty,
        };
        let ghost s = samples@;
        assert(s == self.sampled(asset@));
        let now = env.timestamp;
        let cutoff = now.saturating_sub(window_secs);
        let ghost c = cutoff as int;
        let mut total_time: u64 = 0;
        let mut weighted_sum: i128 = 0;
        let mut prev_timestamp: Option<u64> = None;
        let mut stopped = false;
        let mut i: usize = 0;
        while i < samples.len()
            invariant
                i <= s.len(),
                s == samples@,
                c == cutoff as int,
                c == window_start(env.timestamp, window_secs),
                now == env.timestamp,
                s == self.sampled(asset@),
                ({
                    let acc = twap_fold(s.take(i as int), c, now as int);
                    &&& !acc.failed
                    &&& acc.stopped == stopped
                    &&& acc.total == total_time
                    &&& acc.sum == weighted_sum
                    &&& acc.prev == match prev_timestamp {
                        Some(p) => Some(p as int),
                        None => None::<int>,
                    }
                }),
            decreases s.len() - i,
        {
            let ghost t = s.take(i + 1);
            let ghost before = twap_fold(s.take(i as int), c, now as int);
            assert(t.drop_last() == s.take(i as int));
            assert(t.last() == s[i as int]);
            assert(twap_fold(t, c, now as int) == twap_step(before, s[i as int], c, now as int));
            let sample = samples[i];
            if stopped {
            } else if sample.timestamp < cutoff {
                prev_timestamp = Some(sample.timestamp);
            } else if sample.timestamp > now {
                stopped = true;
            } else {
                let delta: u64 = match prev_timestamp {
                    Some(prev) => if prev >= cutoff {
                        match sample.timestamp.checked_sub(prev) {
                            Some(d) => d,
                            None => {
                                proof {
                                    Self::lemma_twap_absorbing(s, c, now as int, i + 1);
                                }
                                return Err(ContractError::ArithmeticOverflow);
                            },
                        }
                    } else {
                        sample.timestamp - cutoff
                    },
                    None => sample.timestamp - cutoff,
                };
                let product = match sample.price.checked_mul(delta as i128) {
                    Some(p) => p,
                    None => {
                        proof {
                            Self::lemma_twap_absorbing(s, c, now as int, i + 1);
                        }
                        return Err(ContractError::ArithmeticOverflow);
                    },
                };
                weighted_sum = match weighted_sum.checked_add(product) {
                    Some(x) => x,
                    None => {
                        proof {
                            Self::lemma_twap_absorbing(s, c, now as int, i + 1);
                        }
                        return Err(ContractError::ArithmeticOverflow);
                    },
                };
                total_time = match total_time.checked_add(delta) {
                    Some(x) => x,
                    None => {
                        proof {
                            Self::lemma_twap_absorbing(s, c, now as int, i + 1);
                        }
                        return Err(ContractError::ArithmeticOverflow);
                    },
                };
                prev_timestamp = Some(sample.timestamp);
            }
            i = i + 1;
        }
        assert(s.take(i as int) == s);
        if total_time == 0 {
            return Ok(0);
        }
        proof {
            lemma_div_trunc_fits(weighted_sum as int, total_time as int);
        }
        Ok(weighted_sum / (total_time as i128))
    }

    /// An oracle's registration; an unregistered oracle reads as weight 0,
    /// inactive.
    pub fn get_oracle_info(&self, oracle_addr: &Address) -> (r: OracleInfo)
        ensures
            r == (if self.oracles@.contains_key(oracle_addr@) {
                self.oracles@[oracle_addr@]
            } else {
                (OracleInfo { weight: 0, active: false })
            }),
    {
        match self.oracles.get(oracle_addr) {
            Some(info) => *info,
            None => OracleInfo { weight: 0, active: false },
        }
    }
}

proof fn lemma_weighted_sums_between(
    s: Seq<(Seq<char>, i128)>,
    oracles: Map<Seq<char>, OracleInfo>,
    lo: int,
    hi: int,
)
    requires
        forall|i: int|
            0 <= i < s.len() && #[trigger] oracles[s[i].0].active ==> lo <= s[i].1 <= hi,
    ensures
        weighted_sums(s, oracles).1 >= 0,
        lo * weighted_sums(s, oracles).1 <= weighted_sums(s, oracles).0 <= hi * weighted_sums(
            s,
            oracles,
        ).1,
    decreases s.len(),
{
    if s.len() > 0 {
        let t = s.drop_last();
        assert forall|i: int| 0 <= i < t.len() && #[trigger] oracles[t[i].0].active implies lo
            <= t[i].1 <= hi by {
            assert(t[i] == s[i]);
        }
        lemma_weighted_sums_between(t, oracles, lo, hi);
        let e = s.last();
        let info = oracles[e.0];
        if info.active {
            assert(oracles[s[s.len() - 1].0].active);
            let w = info.weight as int;
            let x = e.1 as int;
            lemma_mul_inequality(lo, x, w);
            lemma_mul_inequality(x, hi, w);
            let p = weighted_sums(t, oracles);
            assert(weighted_sums(s, oracles) == (p.0 + x * w, p.1 + w));
            assert(lo * (p.1 + w) == lo * p.1 + lo * w) by (nonlinear_arith);
            assert(hi * (p.1 + w) == hi * p.1 + hi * w) by (nonlinear_arith);
        }
    }
}

/// The aggregate price lies between the lowest and the highest price that
/// an active oracle has submitted, whenever some active oracle carries
/// weight.
pub proof fn law_aggregate_within_submitted_range(
    s: Seq<(Seq<char>, i128)>,
    oracles: Map<Seq<char>, OracleInfo>,
    lo: int,
    hi: int,
)
    requires
        forall|i: int|
            0 <= i < s.len() && #[trigger] oracles[s[i].0].active ==> lo <= s[i].1 <= hi,
        weighted_sums(s, oracles).1 > 0,
    ensures
        lo <= aggregate_price(s, oracles) <= hi,
{
    lemma_weighted_sums_between(s, oracles, lo, hi);
    let p = weighted_sums(s, oracles);
    lemma_div_trunc_between(p.0, p.1, lo, hi);
}

proof fn lemma_twap_between(s: Seq<PriceSample>, cutoff: int, now: int, lo: int, hi: int)
    requires
        forall|i: int|
            0 <= i < s.len() && cutoff <= #[trigger] s[i].timestamp <= now ==> lo <= s[i].price <= hi,
        !twap_fold(s, cutoff, now).failed,
    ensures
        twap_fold(s, cutoff, now).total >= 0,
        lo * twap_fold(s, cutoff, now).total <= twap_fold(s, cutoff, now).sum <= hi * twap_fold(
            s,
            cutoff,
            now,
        ).total,
    decreases s.len(),
{
    if s.len() > 0 {
        let t = s.drop_last();
        assert forall|i: int|
            0 <= i < t.len() && cutoff <= #[trigger] t[i].timestamp <= now implies lo <= t[i].price
            <= hi by {
            assert(t[i] == s[i]);
        }
        let acc = twap_fold(t, cutoff, now);
        if acc.failed {
            assert(twap_fold(s, cutoff, now) == acc);
        }
        lemma_twap_between(t, cutoff, now, lo, hi);
        let e = s.last();
        let next = twap_fold(s, cutoff, now);
        if next.total != acc.total {
            assert(cutoff <= s[s.len() - 1].timestamp <= now);
            assert(lo <= s[s.len() - 1].price <= hi);
            let delta = next.total - acc.total;
            assert(delta >= 0);
            assert(next.sum == acc.sum + e.price * delta);
            lemma_mul_inequality(lo, e.price as int, delta);
            lemma_mul_inequality(e.price as int, hi, delta);
            assert(lo * (acc.total + delta) == lo * acc.total + lo * delta) by (nonlinear_arith);
            assert(hi * (acc.total + delta) == hi * acc.total + hi * delta) by (nonlinear_arith);
        }
    }
}

/// The time-weighted average lies between the lowest and the highest
/// price recorded inside the window, whenever the window covers some time.
pub proof fn law_twap_within_sample_range(
    s: Seq<PriceSample>,
    cutoff: int,
    now: int,
    lo: int,
    hi: int,
)
    requires
        forall|i: int|
            0 <= i < s.len() && cutoff <= #[trigger] s[i].timestamp <= now ==> lo <= s[i].price <= hi,
        !twap_fold(s, cutoff, now).failed,
        twap_fold(s, cutoff, now).total > 0,
    ensures
        lo <= twap_value(twap_fold(s, cutoff, now)) <= hi,
{
    lemma_twap_between(s, cutoff, now, lo, hi);
    let acc = twap_fold(s, cutoff, now);
    lemma_div_trunc_between(acc.sum, acc.total, lo, hi);
}

/// The samples are recorded in time order.
pub open spec fn samples_in_time_order(s: Seq<PriceSample>) -> bool {
    forall|i: int, j: int|
        #![trigger s[i], s[j]]
        0 <= i <= j < s.len() ==> s[i].timestamp <= s[j].timestamp
}

/// The weighted time of an average over time-ordered samples runs from the
/// window's start to the last sample counted in it.
proof fn lemma_twap_weights_window_time(s: Seq<PriceSample>, cutoff: int, now: int)
    requires
        samples_in_time_order(s),
        cutoff <= now,
    ensures
        ({
            let acc = twap_fold(s, cutoff, now);
            !acc.failed ==> {
                &&& acc.total == match acc.prev {
                    Some(p) => if p >= cutoff {
                        p - cutoff
                    } else {
                        0
                    },
                    None => 0,
                }
                &&& acc.prev matches Some(p) ==> p <= now && s.len() > 0 && p <= s.last().timestamp
            }
        }),
    decreases s.len(),
{
    if s.len() > 0 {
        let t = s.drop_last();
        assert(samples_in_time_order(t)) by {
            assert forall|i: int, j: int|
                #![trigger t[i], t[j]]
                0 <= i <= j < t.len() implies t[i].timestamp <= t[j].timestamp by {
                assert(s[i].timestamp <= s[j].timestamp);
            }
        }
        lemma_twap_weights_window_time(t, cutoff, now);
        if t.len() > 0 {
            assert(t.last().timestamp <= s.last().timestamp) by {
                assert(s[t.len() - 1].timestamp <= s[s.len() - 1].timestamp);
            }
        }
    }
}

/// A time-weighted average over time-ordered samples weighs no time
/// outside its window: the weighted time is at most the window's length,
/// and at most the time since the clock's start.
pub proof fn law_twap_weighs_only_window_time(s: Seq<PriceSample>, now: u64, window: u64)
    requires
        samples_in_time_order(s),
        !twap_fold(s, window_start(now, window), now as int).failed,
    ensures
        0 <= twap_fold(s, window_start(now, window), now as int).total <= window,
        twap_fold(s, window_start(now, window), now as int).total <= now,
{
    lemma_twap_weights_window_time(s, window_start(now, window), now as int);
}

} // verus!
