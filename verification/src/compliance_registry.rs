//! KYC/AML attestations: the admin records, per user, a proof hash (never
//! personal data), the jurisdiction it covers and its expiry; a user is
//! compliant in a jurisdiction while its attestation there is active,
//! unexpired and, where the jurisdiction sets a minimum, valid for at
//! least that many more days.
use crate::table::Table;
use crate::types::{Address, ContractError, Env, JurisdictionRules, Symbol};
use vstd::prelude::*;

verus! {

pub const DAY: u64 = 86400;

#[derive(Clone, Debug)]
pub struct Attestation {
    pub proof_hash: Vec<u8>,
    pub jurisdiction: Symbol,
    pub expiry: u64,
    pub active: bool,
}

pub struct ComplianceRegistry {
    pub admin: Option<Address>,
    pub attestations: Table<Address, Attestation>,
    pub rules: Table<Symbol, JurisdictionRules>,
}

impl ComplianceRegistry {
    pub open spec fn admin_authorized(&self, env: Env) -> bool {
        self.admin is Some && env.authorized(self.admin->0@)
    }

    /// Whether `user` is compliant in `jurisdiction` at time `now`.
    pub open spec fn compliant(&self, now: u64, user: Seq<char>, jurisdiction: Seq<char>) -> bool {
        let a = self.attestations@[user];
        &&& self.attestations@.contains_key(user)
        &&& a.active
        &&& a.expiry > now
        &&& a.jurisdiction@ == jurisdiction
        &&& self.rules@.contains_key(jurisdiction) ==> a.expiry - now
            >= self.rules@[jurisdiction].min_attestation_days * DAY
    }

    /// The registry before `initialize`.
    pub fn new() -> (r: ComplianceRegistry)
        ensures
            r.admin is None,
            r.attestations@ == Map::<Seq<char>, Attestation>::empty(),
            r.rules@ == Map::<Seq<char>, JurisdictionRules>::empty(),
    {
        ComplianceRegistry { admin: None, attestations: Table::new(), rules: Table::new() }
    }

    /// Sets the admin, once.
    pub fn initialize(&mut self, admin: Address) -> (r: Result<(), ContractError>)
        ensures
            old(self).admin is Some ==> r == Err::<(), ContractError>(
                ContractError::AlreadyInitialized,
            ) && *final(self) == *old(self),
            old(self).admin is None ==> r is Ok && *final(self) == (ComplianceRegistry {
                admin: Some(admin),
                ..*old(self)
            }),
    {
        if self.admin.is_some() {
            return Err(ContractError::AlreadyInitialized);
        }
        self.admin = Some(admin);
        Ok(())
    }

    fn check_admin(&self, env: &Env) -> (r: Result<(), ContractError>)
        ensures
            self.admin is None ==> r == Err::<(), ContractError>(ContractError::NotInitialized),
            self.admin is Some && !env.authorized(self.admin->0@) ==> r == Err::<
                (),
                ContractError,
            >(ContractError::Unauthorized),
            r is Ok <==> self.admin_authorized(*env),
    {
        match &self.admin {
            None => Err(ContractError::NotInitialized),
            Some(admin) => if env.require_auth(admin) {
                Ok(())
            } else {
                Err(ContractError::Unauthorized)
            },
        }
    }

    /// Records an active attestation for `user` in `jurisdiction`, expiring
    /// `duration_days` days from now; it replaces any earlier attestation
    /// of the user. Returns the expiry.
    pub fn attest(
        &mut self,
        env: &Env,
        user: &Address,
        proof_hash: Vec<u8>,
        jurisdiction: &Symbol,
        duration_days: u32,
    ) -> (r: Result<u64, ContractError>)
        ensures
            old(self).admin is None ==> r == Err::<u64, ContractError>(
                ContractError::NotInitialized,
            ),
            old(self).admin is Some && !env.authorized(old(self).admin->0@) ==> r == Err::<
                u64,
                ContractError,
            >(ContractError::Unauthorized),
            old(self).admin_authorized(*env) && env.timestamp + duration_days * DAY > u64::MAX
                ==> r == Err::<u64, ContractError>(ContractError::ArithmeticOverflow),
            r is Err ==> *final(self) == *old(self),
            old(self).admin_authorized(*env) && env.timestamp + duration_days * DAY <= u64::MAX
                ==> {
                let expiry = (env.timestamp + duration_days * DAY) as u64;
                &&& r == Ok::<u64, ContractError>(expiry)
                &&& final(self).attestations@ == old(self).attestations@.insert(
                    user@,
                    (Attestation { proof_hash, jurisdiction: *jurisdiction, expiry, active: true }),
                )
                &&& final(self).rules == old(self).rules
                &&& final(self).admin == old(self).admin
            },
    {
        self.check_admin(env)?;
        let validity = (duration_days as u64) * DAY;
        let expiry = match env.timestamp.checked_add(validity) {
            Some(e) => e,
            None => {
                return Err(ContractError::ArithmeticOverflow);
            },
        };
        let attestation = Attestation {
            proof_hash,
            jurisdiction: jurisdiction.dup(),
            expiry,
            active: true,
        };
        self.attestations.set(user.dup(), attestation);
        Ok(expiry)
    }

    /// Whether `user` holds a valid attestation for `jurisdiction` now.
    pub fn is_compliant(&self, env: &Env, user: &Address, jurisdiction: &Symbol) -> (b: bool)
        ensures
            b == self.compliant(env.timestamp, user@, jurisdiction@),
    {
        let attestation = match self.attestations.get(user) {
            Some(a) => a,
            None => {
                return false;
            },
        };
        if !attestation.active {
            return false;
        }
        let now = env.timestamp;
        if attestation.expiry <= now {
            return false;
        }
        if !attestation.jurisdiction.equals(jurisdiction) {
            return false;
        }
        match self.rules.get(jurisdiction) {
            Some(rules) => {
                let remaining = attestation.expiry - now;
                let min_seconds = (rules.min_attestation_days as u64) * DAY;
                if remaining < min_seconds {
                    return false;
                }
            },
            None => {},
        }
        true
    }

    /// Deactivates `user`'s attestation; its record, expiry included,
    /// stays.
    pub fn revoke(&mut self, env: &Env, user: &Address) -> (r: Result<(), ContractError>)
        ensures
            old(self).admin is None ==> r == Err::<(), ContractError>(
                ContractError::NotInitialized,
            ),
            old(self).admin is Some && !env.authorized(old(self).admin->0@) ==> r == Err::<
                (),
                ContractError,
            >(ContractError::Unauthorized),
            old(self).admin_authorized(*env) && !old(self).attestations@.contains_key(user@) ==> r
                == Err::<(), ContractError>(ContractError::AttestationNotFound),
            r is Err ==> *final(self) == *old(self),
            old(self).admin_authorized(*env) && old(self).attestations@.contains_key(user@) ==> {
                &&& r is Ok
                &&& final(self).attestations@ == old(self).attestations@.insert(
                    user@,
                    (Attestation { active: false, ..old(self).attestations@[user@] }),
                )
                &&& final(self).rules == old(self).rules
                &&& final(self).admin == old(self).admin
            },
    {
        self.check_admin(env)?;
        let mut attestation = match self.attestations.take(user) {
            Some(a) => a,
            None => {
                return Err(ContractError::AttestationNotFound);
            },
        };
        attestation.active = false;
        self.attestations.set(user.dup(), attestation);
        proof {
            assert(self.attestations@ =~= old(self).attestations@.insert(
                user@,
                (Attestation { active: false, ..old(self).attestations@[user@] }),
            ));
        }
        Ok(())
    }

    /// Sets the rules of a jurisdiction.
    pub fn set_jurisdiction_rules(&mut self, env: &Env, jurisdiction: Symbol, rules: JurisdictionRules) -> (r:
        Result<(), ContractError>)
        ensures
            old(self).admin is None ==> r == Err::<(), ContractError>(
                ContractError::NotInitialized,
            ),
            old(self).admin is Some && !env.authorized(old(self).admin->0@) ==> r == Err::<
                (),
                ContractError,
            >(ContractError::Unauthorized),
            r is Err ==> *final(self) == *old(self),
            r is Ok <==> old(self).admin_authorized(*env),
            r is Ok ==> final(self).rules@ == old(self).rules@.insert(jurisdiction@, rules)
                && final(self).attestations == old(self).attestations && final(self).admin == old(self).admin,
    {
        self.check_admin(env)?;
        self.rules.set(jurisdiction, rules);
        Ok(())
    }

    /// When `user`'s attestation expires; 0 if it has none.
    pub fn attestation_expiry(&self, user: &Address) -> (r: u64)
        ensures
            r == (if self.attestations@.contains_key(user@) {
                self.attestations@[user@].expiry
            } else {
                0
            }),
    {
        match self.attestations.get(user) {
            Some(a) => a.expiry,
            None => 0,
        }
    }
}

/// A user whose attestation is revoked is compliant nowhere, at no time.
pub proof fn law_revoked_user_is_never_compliant(
    r: &ComplianceRegistry,
    user: Seq<char>,
    jurisdiction: Seq<char>,
    now: u64,
)
    requires
        r.attestations@.contains_key(user),
        !r.attestations@[user].active,
    ensures
        !r.compliant(now, user, jurisdiction),
{
}

/// A user is compliant in at most one jurisdiction at a time, and only
/// before its attestation expires.
pub proof fn law_compliance_is_one_jurisdiction_before_expiry(
    r: &ComplianceRegistry,
    user: Seq<char>,
    j1: Seq<char>,
    j2: Seq<char>,
    now: u64,
)
    requires
        r.compliant(now, user, j1),
        r.compliant(now, user, j2),
    ensures
        j1 == j2,
        now < r.attestations@[user].expiry,
{
}

/// A fresh attestation of `days` days makes its user compliant in its
/// jurisdiction at once exactly when it lasts more than zero days and at
/// least the jurisdiction's minimum, if one is set.
pub proof fn law_fresh_attestation_is_compliant(
    r: &ComplianceRegistry,
    user: Seq<char>,
    jurisdiction: Seq<char>,
    now: u64,
    days: u32,
)
    requires
        r.attestations@.contains_key(user),
        r.attestations@[user].active,
        r.attestations@[user].jurisdiction@ == jurisdiction,
        r.attestations@[user].expiry == now + days * DAY,
    ensures
        r.compliant(now, user, jurisdiction) <==> days > 0 && (r.rules@.contains_key(jurisdiction)
            ==> days >= r.rules@[jurisdiction].min_attestation_days),
{
    if r.rules@.contains_key(jurisdiction) {
        let m = r.rules@[jurisdiction].min_attestation_days as int;
        assert(days * DAY >= m * DAY <==> days >= m) by (nonlinear_arith)
            requires
                DAY > 0,
        ;
    }
}

} // verus!
