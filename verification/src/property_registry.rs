//! The property registry: properties with an owner, a valuation kept
//! within 20% of an oracle's price, a document hash, a status and a
//! jurisdiction; ownership passes only to compliant recipients.
use crate::math::fits_i128;
use crate::table::Table;
use crate::types::{Address, Env, PriceData, PropertyData, PropertyStatus, Symbol};
use vstd::prelude::*;

verus! {

pub const MAX_VALUATION_DEVIATION_BPS: i128 = 2000;

#[derive(Clone, Copy, Debug, PartialEq, Eq, Structural)]
pub enum PropertyRegistryError {
    PropertyNotFound,
    Unauthorized,
    AlreadyRegistered,
    InvalidValuation,
    ComplianceCheckFailed,
    OraclePriceNotAvailable,
    ValuationOutOfRange,
    AlreadyInitialized,
    NotInitialized,
    ArithmeticOverflow,
}

impl PropertyRegistryError {
    /// The error's numeric code.
    pub open spec fn code_value(self) -> u32 {
        match self {
            PropertyRegistryError::PropertyNotFound => 1,
            PropertyRegistryError::Unauthorized => 2,
            PropertyRegistryError::AlreadyRegistered => 3,
            PropertyRegistryError::InvalidValuation => 4,
            PropertyRegistryError::ComplianceCheckFailed => 5,
            PropertyRegistryError::OraclePriceNotAvailable => 6,
            PropertyRegistryError::ValuationOutOfRange => 7,
            PropertyRegistryError::AlreadyInitialized => 8,
            PropertyRegistryError::NotInitialized => 9,
            PropertyRegistryError::ArithmeticOverflow => 10,
        }
    }

    /// The text with which the registry aborts.
    pub open spec fn text(self) -> Seq<char> {
        match self {
            PropertyRegistryError::PropertyNotFound => "property not found"@,
            PropertyRegistryError::Unauthorized => "unauthorized"@,
            PropertyRegistryError::AlreadyRegistered => "already registered"@,
            PropertyRegistryError::InvalidValuation => "invalid valuation"@,
            PropertyRegistryError::ComplianceCheckFailed => "compliance check failed"@,
            PropertyRegistryError::OraclePriceNotAvailable => "oracle price not available"@,
            PropertyRegistryError::ValuationOutOfRange => "valuation out of oracle range"@,
            PropertyRegistryError::AlreadyInitialized => "already initialized"@,
            PropertyRegistryError::NotInitialized => "not initialized"@,
            PropertyRegistryError::ArithmeticOverflow => "arithmetic overflow"@,
        }
    }

    /// The error's numeric code.
    pub fn code(&self) -> (c: u32)
        ensures
            c == self.code_value(),
    {
        match self {
            PropertyRegistryError::PropertyNotFound => 1,
            PropertyRegistryError::Unauthorized => 2,
            PropertyRegistryError::AlreadyRegistered => 3,
            PropertyRegistryError::InvalidValuation => 4,
            PropertyRegistryError::ComplianceCheckFailed => 5,
            PropertyRegistryError::OraclePriceNotAvailable => 6,
            PropertyRegistryError::ValuationOutOfRange => 7,
            PropertyRegistryError::AlreadyInitialized => 8,
            PropertyRegistryError::NotInitialized => 9,
            PropertyRegistryError::ArithmeticOverflow => 10,
        }
    }

    /// The text with which the registry aborts.
    pub fn message(&self) -> (m: &'static str)
        ensures
            m@ == self.text(),
    {
        match self {
            PropertyRegistryError::PropertyNotFound => "property not found",
            PropertyRegistryError::Unauthorized => "unauthorized",
            PropertyRegistryError::AlreadyRegistered => "already registered",
            PropertyRegistryError::InvalidValuation => "invalid valuation",
            PropertyRegistryError::ComplianceCheckFailed => "compliance check failed",
            PropertyRegistryError::OraclePriceNotAvailable => "oracle price not available",
            PropertyRegistryError::ValuationOutOfRange => "valuation out of oracle range",
            PropertyRegistryError::AlreadyInitialized => "already initialized",
            PropertyRegistryError::NotInitialized => "not initialized",
            PropertyRegistryError::ArithmeticOverflow => "arithmetic overflow",
        }
    }
}

/// The largest distance from the oracle price that a new valuation may
/// have: 20% of the price, rounded down.
pub open spec fn max_deviation(price: int) -> int {
    (price * MAX_VALUATION_DEVIATION_BPS) / 10000
}

/// The distance between a valuation and the oracle price.
pub open spec fn deviation(valuation: int, price: int) -> int {
    if valuation > price {
        valuation - price
    } else {
        price - valuation
    }
}

pub struct PropertyRegistry {
    pub admin: Option<Address>,
    pub property_counter: u64,
    pub properties: Table<u64, PropertyData>,
    pub jurisdictions: Table<u64, Symbol>,
}

impl PropertyRegistry {
    /// Every registered property has a positive valuation and a
    /// jurisdiction, and its id lies between 1 and the counter.
    pub open spec fn inv(&self) -> bool {
        forall|id: u64| #[trigger]
            self.properties@.contains_key(id) ==> {
                &&& self.properties@[id].valuation > 0
                &&& self.jurisdictions@.contains_key(id)
                &&& 1 <= id <= self.property_counter
            }
    }

    pub open spec fn admin_authorized(&self, env: Env) -> bool {
        self.admin is Some && env.authorized(self.admin->0@)
    }

    /// The registry before `initialize`.
    pub fn new() -> (r: PropertyRegistry)
        ensures
            r.admin is None,
            r.property_counter == 0,
            r.properties@ == Map::<u64, PropertyData>::empty(),
            r.jurisdictions@ == Map::<u64, Symbol>::empty(),
            r.inv(),
    {
        PropertyRegistry {
            admin: None,
            property_counter: 0,
            properties: Table::new(),
            jurisdictions: Table::new(),
        }
    }

    /// Sets the admin, once.
    pub fn initialize(&mut self, admin: Address) -> (r: Result<(), PropertyRegistryError>)
        requires
            old(self).inv(),
        ensures
            final(self).inv(),
            old(self).admin is Some ==> r == Err::<(), PropertyRegistryError>(
                PropertyRegistryError::AlreadyInitialized,
            ) && *final(self) == *old(self),
            old(self).admin is None ==> r is Ok && *final(self) == (PropertyRegistry {
                admin: Some(admin),
                ..*old(self)
            }),
    {
        if self.admin.is_some() {
            return Err(PropertyRegistryError::AlreadyInitialized);
        }
        self.admin = Some(admin);
        Ok(())
    }

    /// Registers a property, active from now; returns its id, the next in
    /// sequence from 1.
    pub fn register_property(
        &mut self,
        env: &Env,
        owner: Address,
        valuation: i128,
        doc_hash: [u8; 32],
        jurisdiction: Symbol,
    ) -> (r: Result<u64, PropertyRegistryError>)
        requires
            old(self).inv(),
        ensures
            final(self).inv(),
            old(self).admin is None ==> r == Err::<u64, PropertyRegistryError>(
                PropertyRegistryError::NotInitialized,
            ),
            old(self).admin is Some && !env.authorized(old(self).admin->0@) ==> r == Err::<
                u64,
                PropertyRegistryError,
            >(PropertyRegistryError::Unauthorized),
            old(self).admin_authorized(*env) && valuation <= 0 ==> r == Err::<
                u64,
                PropertyRegistryError,
            >(PropertyRegistryError::InvalidValuation),
            old(self).admin_authorized(*env) && valuation > 0 && old(self).property_counter
                == u64::MAX ==> r == Err::<u64, PropertyRegistryError>(
                PropertyRegistryError::ArithmeticOverflow,
            ),
            r is Err ==> *final(self) == *old(self),
            old(self).admin_authorized(*env) && valuation > 0 && old(self).property_counter
                < u64::MAX ==> {
                let id = (old(self).property_counter + 1) as u64;
                &&& r == Ok::<u64, PropertyRegistryError>(id)
                &&& final(self).property_counter == id
                &&& final(self).properties@ == old(self).properties@.insert(
                    id,
                    (PropertyData {
                        owner,
                        valuation,
                        doc_hash,
                        status: PropertyStatus::Active,
                        created_at: env.timestamp,
                        updated_at: env.timestamp,
                    }),
                )
                &&& final(self).jurisdictions@ == old(self).jurisdictions@.insert(id, jurisdiction)
                &&& final(self).admin == old(self).admin
            },
    {
        match &self.admin {
            None => {
                return Err(PropertyRegistryError::NotInitialized);
            },
            Some(admin) => {
                if !env.require_auth(admin) {
                    return Err(PropertyRegistryError::Unauthorized);
                }
            },
        }
        if valuation <= 0 {
            return Err(PropertyRegistryError::InvalidValuation);
        }
        if self.property_counter == u64::MAX {
            return Err(PropertyRegistryError::ArithmeticOverflow);
        }
        let counter = self.property_counter + 1;
        self.property_counter = counter;
        let now = env.timestamp;
        let property = PropertyData {
            owner,
            valuation,
            doc_hash,
            status: PropertyStatus::Active,
            created_at: now,
            updated_at: now,
        };
        self.properties.set(counter, property);
        self.jurisdictions.set(counter, jurisdiction);
        proof {
            assert forall|id: u64| #[trigger] self.properties@.contains_key(id) implies {
                &&& self.properties@[id].valuation > 0
                &&& self.jurisdictions@.contains_key(id)
                &&& 1 <= id <= self.property_counter
            } by {
                if id != counter {
                    assert(old(self).properties@.contains_key(id));
                }
            }
        }
        Ok(counter)
    }

    /// The first check that `update_valuation` fails, in the order it
    /// makes them.
    pub open spec fn update_valuation_error(
        &self,
        env: Env,
        prop_id: u64,
        new_val: i128,
        oracle_price: PriceData,
    ) -> Option<PropertyRegistryError> {
        let price = oracle_price.price as int;
        if !self.properties@.contains_key(prop_id) {
            Some(PropertyRegistryError::PropertyNotFound)
        } else if !env.authorized(self.properties@[prop_id].owner@) {
            Some(PropertyRegistryError::Unauthorized)
        } else if new_val <= 0 {
            Some(PropertyRegistryError::InvalidValuation)
        } else if price <= 0 {
            Some(PropertyRegistryError::OraclePriceNotAvailable)
        } else if !fits_i128(price * MAX_VALUATION_DEVIATION_BPS) {
            Some(PropertyRegistryError::ArithmeticOverflow)
        } else if deviation(new_val as int, price) > max_deviation(price) {
            Some(PropertyRegistryError::ValuationOutOfRange)
        } else {
            None
        }
    }

    /// Sets a property's valuation to `new_val`, which must lie within 20%
    /// of `oracle_price`, the price that the owner's chosen oracle returned
    /// for the chosen asset. Only the owner may.
    pub fn update_valuation(
        &mut self,
        env: &Env,
        prop_id: u64,
        new_val: i128,
        oracle_price: &PriceData,
    ) -> (r: Result<(), PropertyRegistryError>)
        requires
            old(self).inv(),
        ensures
            final(self).inv(),
            match old(self).update_valuation_error(*env, prop_id, new_val, *oracle_price) {
                Some(e) => r == Err::<(), PropertyRegistryError>(e) && *final(self) == *old(self),
                None => {
                    &&& r is Ok
                    &&& final(self).properties@ == old(self).properties@.insert(
                        prop_id,
                        (PropertyData {
                            valuation: new_val,
                            updated_at: env.timestamp,
                            ..old(self).properties@[prop_id]
                        }),
                    )
                    &&& final(self).jurisdictions == old(self).jurisdictions
                    &&& final(self).property_counter == old(self).property_counter
                    &&& final(self).admin == old(self).admin
                },
            },
    {
        let owner_authorized = match self.properties.get(&prop_id) {
            Some(p) => env.require_auth(&p.owner),
            None => {
                return Err(PropertyRegistryError::PropertyNotFound);
            },
        };
        if !owner_authorized {
            return Err(PropertyRegistryError::Unauthorized);
        }
        if new_val <= 0 {
            return Err(PropertyRegistryError::InvalidValuation);
        }
        let price = oracle_price.price;
        if price <= 0 {
            return Err(PropertyRegistryError::OraclePriceNotAvailable);
        }
        let deviation = if new_val > price {
            new_val - price
        } else {
            price - new_val
        };
        let max_deviation = match price.checked_mul(MAX_VALUATION_DEVIATION_BPS) {
            Some(x) => x / 10000,
            None => {
                return Err(PropertyRegistryError::ArithmeticOverflow);
            },
        };
        if deviation > max_deviation {
            return Err(PropertyRegistryError::ValuationOutOfRange);
        }
        let mut property = self.properties.take(&prop_id).unwrap();
        property.valuation = new_val;
        property.updated_at = env.timestamp;
        self.properties.set(prop_id, property);
        proof {
            assert(self.properties@ =~= old(self).properties@.insert(
                prop_id,
                (PropertyData {
                    valuation: new_val,
                    updated_at: env.timestamp,
                    ..old(self).properties@[prop_id]
                }),
            ));
            assert forall|id: u64| #[trigger] self.properties@.contains_key(id) implies {
                &&& self.properties@[id].valuation > 0
                &&& self.jurisdictions@.contains_key(id)
                &&& 1 <= id <= self.property_counter
            } by {
                assert(old(self).properties@.contains_key(id));
            }
        }
        Ok(())
    }

    /// The first check that `transfer_ownership` fails, in the order it
    /// makes them.
    pub open spec fn transfer_error(
        &self,
        env: Env,
        prop_id: u64,
        recipient_compliant: bool,
    ) -> Option<PropertyRegistryError> {
        if !self.properties@.contains_key(prop_id) {
            Some(PropertyRegistryError::PropertyNotFound)
        } else if !env.authorized(self.properties@[prop_id].owner@) {
            Some(PropertyRegistryError::Unauthorized)
        } else if !recipient_compliant {
            Some(PropertyRegistryError::ComplianceCheckFailed)
        } else {
            None
        }
    }

    /// Passes a property to `to`, whose compliance in the property's
    /// jurisdiction the compliance registry reported as
    /// `recipient_compliant`. Only the owner may.
    pub fn transfer_ownership(
        &mut self,
        env: &Env,
        prop_id: u64,
        to: &Address,
        recipient_compliant: bool,
    ) -> (r: Result<(), PropertyRegistryError>)
        requires
            old(self).inv(),
        ensures
            final(self).inv(),
            match old(self).transfer_error(*env, prop_id, recipient_compliant) {
                Some(e) => r == Err::<(), PropertyRegistryError>(e) && *final(self) == *old(self),
                None => {
                    &&& r is Ok
                    &&& final(self).properties@ == old(self).properties@.insert(
                        prop_id,
                        (PropertyData {
                            owner: *to,
                            updated_at: env.timestamp,
                            ..old(self).properties@[prop_id]
                        }),
                    )
                    &&& final(self).jurisdictions == old(self).jurisdictions
                    &&& final(self).property_counter == old(self).property_counter
                    &&& final(self).admin == old(self).admin
                },
            },
    {
        let owner_authorized = match self.properties.get(&prop_id) {
            Some(p) => env.require_auth(&p.owner),
            None => {
                return Err(PropertyRegistryError::PropertyNotFound);
            },
        };
        if !owner_authorized {
            return Err(PropertyRegistryError::Unauthorized);
        }
        if !recipient_compliant {
            return Err(PropertyRegistryError::ComplianceCheckFailed);
        }
        let mut property = self.properties.take(&prop_id).unwrap();
        property.owner = to.dup();
        property.updated_at = env.timestamp;
        self.properties.set(prop_id, property);
        proof {
            assert(self.properties@ =~= old(self).properties@.insert(
                prop_id,
                (PropertyData {
                    owner: *to,
                    updated_at: env.timestamp,
                    ..old(self).properties@[prop_id]
                }),
            ));
            assert forall|id: u64| #[trigger] self.properties@.contains_key(id) implies {
                &&& self.properties@[id].valuation > 0
                &&& self.jurisdictions@.contains_key(id)
                &&& 1 <= id <= self.property_counter
            } by {
                assert(old(self).properties@.contains_key(id));
            }
        }
        Ok(())
    }

    /// The record of a property.
    pub fn get_property(&self, prop_id: u64) -> (r: Result<PropertyData, PropertyRegistryError>)
        ensures
            !self.properties@.contains_key(prop_id) ==> r == Err::<
                PropertyData,
                PropertyRegistryError,
            >(PropertyRegistryError::PropertyNotFound),
            self.properties@.contains_key(prop_id) ==> r == Ok::<
                PropertyData,
                PropertyRegistryError,
            >(self.properties@[prop_id]),
    {
        match self.properties.get(&prop_id) {
            Some(p) => Ok(p.dup()),
            None => Err(PropertyRegistryError::PropertyNotFound),
        }
    }

    /// Sets a property's status.
    pub fn set_status(&mut self, env: &Env, prop_id: u64, status: PropertyStatus) -> (r: Result<
        (),
        PropertyRegistryError,
    >)
        requires
            old(self).inv(),
        ensures
            final(self).inv(),
            old(self).admin is None ==> r == Err::<(), PropertyRegistryError>(
                PropertyRegistryError::NotInitialized,
            ),
            old(self).admin is Some && !env.authorized(old(self).admin->0@) ==> r == Err::<
                (),
                PropertyRegistryError,
            >(PropertyRegistryError::Unauthorized),
            old(self).admin_authorized(*env) && !old(self).properties@.contains_key(prop_id) ==> r
                == Err::<(), PropertyRegistryError>(PropertyRegistryError::PropertyNotFound),
            r is Err ==> *final(self) == *old(self),
            old(self).admin_authorized(*env) && old(self).properties@.contains_key(prop_id) ==> {
                &&& r is Ok
                &&& final(self).properties@ == old(self).properties@.insert(
                    prop_id,
                    (PropertyData {
                        status,
                        updated_at: env.timestamp,
                        ..old(self).properties@[prop_id]
                    }),
                )
                &&& final(self).jurisdictions == old(self).jurisdictions
                &&& final(self).property_counter == old(self).property_counter
                &&& final(self).admin == old(self).admin
            },
    {
        match &self.admin {
            None => {
                return Err(PropertyRegistryError::NotInitialized);
            },
            Some(admin) => {
                if !env.require_auth(admin) {
                    return Err(PropertyRegistryError::Unauthorized);
                }
            },
        }
        let mut property = match self.properties.take(&prop_id) {
            Some(p) => p,
            None => {
                return Err(PropertyRegistryError::PropertyNotFound);
            },
        };
        property.status = status;
        property.updated_at = env.timestamp;
        self.properties.set(prop_id, property);
        proof {
            assert(self.properties@ =~= old(self).properties@.insert(
                prop_id,
                (PropertyData {
                    status,
                    updated_at: env.timestamp,
                    ..old(self).properties@[prop_id]
                }),
            ));
            assert forall|id: u64| #[trigger] self.properties@.contains_key(id) implies {
                &&& self.properties@[id].valuation > 0
                &&& self.jurisdictions@.contains_key(id)
                &&& 1 <= id <= self.property_counter
            } by {
                assert(old(self).properties@.contains_key(id));
            }
        }
        Ok(())
    }

    /// The jurisdiction of a property.
    pub fn get_property_jurisdiction(&self, prop_id: u64) -> (r: Result<
        Symbol,
        PropertyRegistryError,
    >)
        ensures
            !self.jurisdictions@.contains_key(prop_id) ==> r == Err::<
                Symbol,
                PropertyRegistryError,
            >(PropertyRegistryError::PropertyNotFound),
            self.jurisdictions@.contains_key(prop_id) ==> r == Ok::<Symbol, PropertyRegistryError>(
                self.jurisdictions@[prop_id],
            ),
    {
        match self.jurisdictions.get(&prop_id) {
            Some(j) => Ok(j.dup()),
            None => Err(PropertyRegistryError::PropertyNotFound),
        }
    }
}

/// Every valuation the registry holds is positive: registration and
/// updates accept positive valuations only.
pub proof fn law_valuations_stay_positive(r: &PropertyRegistry, prop_id: u64)
    requires
        r.inv(),
        r.properties@.contains_key(prop_id),
    ensures
        r.properties@[prop_id].valuation > 0,
        r.jurisdictions@.contains_key(prop_id),
{
}

/// An accepted valuation lies within 20% of the oracle price.
pub proof fn law_accepted_valuation_tracks_oracle(
    r: &PropertyRegistry,
    env: Env,
    prop_id: u64,
    new_val: i128,
    oracle_price: PriceData,
)
    requires
        r.update_valuation_error(env, prop_id, new_val, oracle_price) is None,
    ensures
        new_val > 0,
        oracle_price.price > 0,
        oracle_price.price * 8000 <= new_val * 10000 <= oracle_price.price * 12000,
{
    let p = oracle_price.price as int;
    let v = new_val as int;
    let m = (p * 2000) / 10000;
    vstd::arithmetic::div_mod::lemma_fundamental_div_mod(p * 2000, 10000);
    vstd::arithmetic::div_mod::lemma_mod_pos_bound(p * 2000, 10000);
    assert(m * 10000 <= p * 2000);
    assert(deviation(v, p) <= m);
}

} // verus!
