//! Protocol governance: proposals, votes weighted by fraction holdings over
//! the tracked properties, and execution after the voting period and a
//! timelock, subject to quorum and majority.
use crate::table::Table;
use crate::types::{Address, ContractError, Env};
use vstd::prelude::*;

verus! {

pub const VOTING_PERIOD: u64 = 48 * 3600;

pub const TIMELOCK_PERIOD: u64 = 24 * 3600;

#[derive(Clone, Debug)]
pub struct ProposalData {
    pub proposer: Address,
    pub action_type: u32,
    pub calldata: Vec<u8>,
    pub description: String,
    pub created_at: u64,
    pub voting_end: u64,
    pub executed: bool,
    pub for_votes: u128,
    pub against_votes: u128,
    pub quorum: u128,
}

pub struct Governance {
    pub admin: Option<Address>,
    pub fraction_vault: Option<Address>,
    pub proposal_counter: u64,
    pub proposals: Table<u64, ProposalData>,
    pub has_voted: Table<(u64, Address), bool>,
    pub tracked_properties: Vec<u64>,
    pub quorum: u128,
}

/// The total of a voter's holdings.
pub open spec fn holdings_total(holdings: Seq<u128>) -> int
    decreases holdings.len(),
{
    if holdings.len() == 0 {
        0
    } else {
        holdings_total(holdings.drop_last()) + holdings.last()
    }
}

proof fn lemma_holdings_total_nonneg(holdings: Seq<u128>)
    ensures
        holdings_total(holdings) >= 0,
    decreases holdings.len(),
{
    if holdings.len() > 0 {
        lemma_holdings_total_nonneg(holdings.drop_last());
    }
}

/// The balances in a list of (property id, balance) holdings.
pub open spec fn balances_of(holdings: Seq<(u64, u128)>) -> Seq<u128> {
    holdings.map_values(|h: (u64, u128)| h.1)
}

/// The holdings name exactly the tracked properties, in their order.
pub open spec fn holdings_match(holdings: Seq<(u64, u128)>, properties: Seq<u64>) -> bool {
    &&& holdings.len() == properties.len()
    &&& forall|i: int| 0 <= i < holdings.len() ==> #[trigger] holdings[i].0 == properties[i]
}

/// No property is tracked twice.
pub open spec fn no_duplicates(s: Seq<u64>) -> bool {
    forall|i: int, j: int| 0 <= i < j < s.len() ==> s[i] != s[j]
}

impl Governance {
    pub open spec fn admin_authorized(&self, env: Env) -> bool {
        self.admin is Some && env.authorized(self.admin->0@)
    }

    /// The contract's invariant: tracked properties are distinct, and every
    /// proposal id lies between 1 and the proposal counter.
    pub open spec fn inv(&self) -> bool {
        &&& no_duplicates(self.tracked_properties@)
        &&& forall|id: u64| #[trigger]
            self.proposals@.contains_key(id) ==> 1 <= id <= self.proposal_counter
    }

    /// Whether `voter` has voted on proposal `id`.
    pub open spec fn voted(&self, id: u64, voter: Seq<char>) -> bool {
        self.has_voted@.contains_key((id, voter))
    }

    /// The governance contract before `initialize`.
    pub fn new() -> (r: Governance)
        ensures
            r.admin is None,
            r.fraction_vault is None,
            r.proposal_counter == 0,
            r.proposals@ == Map::<u64, ProposalData>::empty(),
            r.has_voted@ == Map::<(u64, Seq<char>), bool>::empty(),
            r.tracked_properties@ == Seq::<u64>::empty(),
            r.quorum == 0,
            r.inv(),
    {
        Governance {
            admin: None,
            fraction_vault: None,
            proposal_counter: 0,
            proposals: Table::new(),
            has_voted: Table::new(),
            tracked_properties: Vec::new(),
            quorum: 0,
        }
    }

    /// Sets the admin and the fraction vault, once; starts with no
    /// proposals, no quorum and no tracked properties.
    pub fn initialize(&mut self, admin: Address, fraction_vault: Address) -> (r: Result<
        (),
        ContractError,
    >)
        requires
            old(self).inv(),
        ensures
            final(self).inv(),
            old(self).admin is Some ==> r == Err::<(), ContractError>(
                ContractError::AlreadyInitialized,
            ) && *final(self) == *old(self),
            old(self).admin is None ==> {
                &&& r is Ok
                &&& final(self).admin == Some(admin)
                &&& final(self).fraction_vault == Some(fraction_vault)
                &&& final(self).proposal_counter == old(self).proposal_counter
                &&& final(self).quorum == 0
                &&& final(self).tracked_properties@ == Seq::<u64>::empty()
                &&& final(self).proposals == old(self).proposals
                &&& final(self).has_voted == old(self).has_voted
            },
    {
        if self.admin.is_some() {
            return Err(ContractError::AlreadyInitialized);
        }
        self.admin = Some(admin);
        self.fraction_vault = Some(fraction_vault);
        self.quorum = 0;
        self.tracked_properties = Vec::new();
        Ok(())
    }

    fn check_admin(&self, env: &Env) -> (r: Result<(), ContractError>)
        ensures
            self.admin is None ==> r == Err::<(), ContractError>(ContractError::NotInitialized),
            self.admin is Some && !env.authorized(self.admin->0@) ==> r == Err::<
                (),
                ContractError,
            >(ContractError::Unauthorized),
            r is Ok <==> self.admin_authorized(*env),
    {
        match &self.admin {
            None => Err(ContractError::NotInitialized),
            Some(admin) => if env.require_auth(admin) {
                Ok(())
            } else {
                Err(ContractError::Unauthorized)
            },
        }
    }

    /// Sets the quorum that later proposals must reach.
    pub fn set_quorum(&mut self, env: &Env, quorum: u128) -> (r: Result<(), ContractError>)
        requires
            old(self).inv(),
        ensures
            final(self).inv(),
            old(self).admin is None ==> r == Err::<(), ContractError>(
                ContractError::NotInitialized,
            ),
            old(self).admin is Some && !env.authorized(old(self).admin->0@) ==> r == Err::<
                (),
                ContractError,
            >(ContractError::Unauthorized),
            r is Err ==> *final(self) == *old(self),
            r is Ok <==> old(self).admin_authorized(*env),
            r is Ok ==> *final(self) == (Governance { quorum, ..*old(self) }),
    {
        self.check_admin(env)?;
        self.quorum = quorum;
        Ok(())
    }

    /// Adds a property to those whose holdings count as voting power, if
    /// it is not tracked already.
    pub fn add_tracked_property(&mut self, env: &Env, prop_id: u64) -> (r: Result<
        (),
        ContractError,
    >)
        requires
            old(self).inv(),
        ensures
            final(self).inv(),
            old(self).admin is None ==> r == Err::<(), ContractError>(
                ContractError::NotInitialized,
            ),
            old(self).admin is Some && !env.authorized(old(self).admin->0@) ==> r == Err::<
                (),
                ContractError,
            >(ContractError::Unauthorized),
            r is Err ==> *final(self) == *old(self),
            r is Ok <==> old(self).admin_authorized(*env),
            r is Ok ==> final(self).tracked_properties@ == if old(self).tracked_properties@.contains(prop_id) {
                old(self).tracked_properties@
            } else {
                old(self).tracked_properties@.push(prop_id)
            },
            r is Ok ==> final(self).admin == old(self).admin && final(self).fraction_vault == old(self).fraction_vault && final(self).proposal_counter == old(self).proposal_counter && final(self).proposals == old(self).proposals && final(self).has_voted == old(self).has_voted
                && final(self).quorum == old(self).quorum,
    {
        self.check_admin(env)?;
        let mut exists = false;
        let mut i: usize = 0;
        while i < self.tracked_properties.len()
            invariant_except_break
                i <= self.tracked_properties@.len(),
                !exists,
                forall|j: int| 0 <= j < i ==> self.tracked_properties@[j] != prop_id,
            ensures
                exists == self.tracked_properties@.contains(prop_id),
            decreases self.tracked_properties@.len() - i,
        {
            if self.tracked_properties[i] == prop_id {
                exists = true;
                assert(self.tracked_properties@[i as int] == prop_id);
                break;
            }
            i = i + 1;
        }
        if !exists {
            self.tracked_properties.push(prop_id);
        }
        Ok(())
    }

    /// Creates a proposal open for voting from now until the end of the
    /// voting period, under the current quorum. Returns its id, the next
    /// one in sequence.
    pub fn propose(&mut self, env: &Env, action_type: u32, calldata: Vec<u8>, description: String) -> (r:
        Result<u64, ContractError>)
        requires
            old(self).inv(),
        ensures
            final(self).inv(),
            old(self).admin is None ==> r == Err::<u64, ContractError>(
                ContractError::NotInitialized,
            ),
            old(self).admin is Some && (old(self).proposal_counter == u64::MAX || env.timestamp
                + VOTING_PERIOD > u64::MAX) ==> r == Err::<u64, ContractError>(
                ContractError::ArithmeticOverflow,
            ),
            r is Err ==> *final(self) == *old(self),
            r is Ok ==> {
                let id = (old(self).proposal_counter + 1) as u64;
                &&& old(self).admin is Some
                &&& r->Ok_0 == id
                &&& final(self).proposal_counter == id
                &&& final(self).proposals@ == old(self).proposals@.insert(
                    id,
                    (ProposalData {
                        proposer: env.contract,
                        action_type,
                        calldata,
                        description,
                        created_at: env.timestamp,
                        voting_end: (env.timestamp + VOTING_PERIOD) as u64,
                        executed: false,
                        for_votes: 0,
                        against_votes: 0,
                        quorum: old(self).quorum,
                    }),
                )
                &&& final(self).has_voted == old(self).has_voted
                &&& final(self).tracked_properties == old(self).tracked_properties
                &&& final(self).admin == old(self).admin
                &&& final(self).fraction_vault == old(self).fraction_vault
                &&& final(self).quorum == old(self).quorum
            },
            old(self).admin is Some && old(self).proposal_counter < u64::MAX && env.timestamp
                + VOTING_PERIOD <= u64::MAX ==> r is Ok,
    {
        if self.admin.is_none() {
            return Err(ContractError::NotInitialized);
        }
        if self.proposal_counter == u64::MAX {
            return Err(ContractError::ArithmeticOverflow);
        }
        let now = env.timestamp;
        let voting_end = match now.checked_add(VOTING_PERIOD) {
            Some(t) => t,
            None => {
                return Err(ContractError::ArithmeticOverflow);
            },
        };
        let counter = self.proposal_counter + 1;
        let proposal = ProposalData {
            proposer: env.contract.dup(),
            action_type,
            calldata,
            description,
            created_at: now,
            voting_end,
            executed: false,
            for_votes: 0,
            against_votes: 0,
            quorum: self.quorum,
        };
        self.proposal_counter = counter;
        self.proposals.set(counter, proposal);
        Ok(counter)
    }

    /// The voting power of a voter whose balance of each tracked property
    /// the fraction vault returned: `holdings` pairs each tracked property,
    /// in order, with the voter's balance of it.
    pub fn voting_power(&self, holdings: &Vec<(u64, u128)>) -> (r: Result<u128, ContractError>)
        ensures
            holdings_total(balances_of(holdings@)) >= 0,
            self.fraction_vault is None ==> r == Err::<u128, ContractError>(
                ContractError::NotInitialized,
            ),
            self.fraction_vault is Some && !holdings_match(holdings@, self.tracked_properties@)
                ==> r == Err::<u128, ContractError>(ContractError::HoldingsMismatch),
            self.fraction_vault is Some && holdings_match(holdings@, self.tracked_properties@)
                && holdings_total(balances_of(holdings@)) > u128::MAX ==> r == Err::<
                u128,
                ContractError,
            >(ContractError::ArithmeticOverflow),
            self.fraction_vault is Some && holdings_match(holdings@, self.tracked_properties@)
                && holdings_total(balances_of(holdings@)) <= u128::MAX ==> r == Ok::<
                u128,
                ContractError,
            >(holdings_total(balances_of(holdings@)) as u128),
    {
        let ghost b = balances_of(holdings@);
        proof {
            lemma_holdings_total_nonneg(b);
        }
        if self.fraction_vault.is_none() {
            return Err(ContractError::NotInitialized);
        }
        if holdings.len() != self.tracked_properties.len() {
            return Err(ContractError::HoldingsMismatch);
        }
        let mut k: usize = 0;
        while k < holdings.len()
            invariant
                k <= holdings@.len(),
                holdings@.len() == self.tracked_properties@.len(),
                self.fraction_vault is Some,
                holdings_total(balances_of(holdings@)) >= 0,
                forall|j: int| 0 <= j < k ==> #[trigger] holdings@[j].0 == self.tracked_properties@[j],
            decreases holdings@.len() - k,
        {
            if holdings[k].0 != self.tracked_properties[k] {
                return Err(ContractError::HoldingsMismatch);
            }
            k = k + 1;
        }
        let mut total: u128 = 0;
        let mut i: usize = 0;
        while i < holdings.len()
            invariant
                i <= holdings@.len(),
                self.fraction_vault is Some,
                holdings_total(balances_of(holdings@)) >= 0,
                holdings_match(holdings@, self.tracked_properties@),
                b == balances_of(holdings@),
                total == holdings_total(b.take(i as int)),
            decreases holdings@.len() - i,
        {
            assert(b.take(i + 1).drop_last() == b.take(i as int));
            assert(b[i as int] == holdings@[i as int].1);
            total = match total.checked_add(holdings[i].1) {
                Some(t) => t,
                None => {
                    proof {
                        Self::lemma_total_grows(b, i + 1);
                    }
                    return Err(ContractError::ArithmeticOverflow);
                },
            };
            i = i + 1;
        }
        assert(b.take(i as int) == b);
        Ok(total)
    }

    proof fn lemma_total_grows(h: Seq<u128>, n: int)
        requires
            0 <= n <= h.len(),
        ensures
            holdings_total(h) >= holdings_total(h.take(n)),
        decreases h.len() - n,
    {
        if n < h.len() {
            assert(h.take(n + 1).drop_last() == h.take(n));
            Self::lemma_total_grows(h, n + 1);
        } else {
            assert(h.take(n) == h);
        }
    }

    /// The first check that `vote` fails, in the order it makes them.
    pub open spec fn vote_error(
        &self,
        env: Env,
        voter: Seq<char>,
        proposal_id: u64,
        support: bool,
        holdings: Seq<(u64, u128)>,
    ) -> Option<ContractError> {
        let proposal = self.proposals@[proposal_id];
        let power = holdings_total(balances_of(holdings));
        if !env.authorized(voter) {
            Some(ContractError::Unauthorized)
        } else if !self.proposals@.contains_key(proposal_id) {
            Some(ContractError::ProposalNotFound)
        } else if proposal.executed {
            Some(ContractError::ProposalAlreadyExecuted)
        } else if env.timestamp > proposal.voting_end {
            Some(ContractError::VotingPeriodEnded)
        } else if self.voted(proposal_id, voter) {
            Some(ContractError::AlreadyVoted)
        } else if self.fraction_vault is None {
            Some(ContractError::NotInitialized)
        } else if !holdings_match(holdings, self.tracked_properties@) {
            Some(ContractError::HoldingsMismatch)
        } else if power > u128::MAX {
            Some(ContractError::ArithmeticOverflow)
        } else if power == 0 {
            Some(ContractError::NoVotingPower)
        } else if (support && proposal.for_votes + power > u128::MAX) || (!support
            && proposal.against_votes + power > u128::MAX) {
            Some(ContractError::ArithmeticOverflow)
        } else {
            None
        }
    }

    /// Casts `voter`'s vote on a proposal with its full voting power; see
    /// `voting_power` for `holdings`. Each voter votes once per proposal,
    /// before the voting period ends. Returns the power cast.
    pub fn vote(
        &mut self,
        env: &Env,
        voter: &Address,
        proposal_id: u64,
        support: bool,
        holdings: &Vec<(u64, u128)>,
    ) -> (r: Result<u128, ContractError>)
        requires
            old(self).inv(),
        ensures
            final(self).inv(),
            match old(self).vote_error(*env, voter@, proposal_id, support, holdings@) {
                Some(e) => r == Err::<u128, ContractError>(e) && *final(self) == *old(self),
                None => {
                    let proposal = old(self).proposals@[proposal_id];
                    let power = holdings_total(balances_of(holdings@));
                    &&& r == Ok::<u128, ContractError>(power as u128)
                    &&& final(self).has_voted@ == old(self).has_voted@.insert(
                        (proposal_id, voter@),
                        true,
                    )
                    &&& final(self).proposals@ == old(self).proposals@.insert(
                        proposal_id,
                        if support {
                            (ProposalData {
                                for_votes: (proposal.for_votes + power) as u128,
                                ..proposal
                            })
                        } else {
                            (ProposalData {
                                against_votes: (proposal.against_votes + power) as u128,
                                ..proposal
                            })
                        },
                    )
                    &&& final(self).proposal_counter == old(self).proposal_counter
                    &&& final(self).tracked_properties == old(self).tracked_properties
                    &&& final(self).admin == old(self).admin
                    &&& final(self).fraction_vault == old(self).fraction_vault
                    &&& final(self).quorum == old(self).quorum
                },
            },
    {
        if !env.require_auth(voter) {
            return Err(ContractError::Unauthorized);
        }
        let (executed, voting_end, for_votes, against_votes) = match self.proposals.get(
            &proposal_id,
        ) {
            Some(p) => (p.executed, p.voting_end, p.for_votes, p.against_votes),
            None => {
                return Err(ContractError::ProposalNotFound);
            },
        };
        if executed {
            return Err(ContractError::ProposalAlreadyExecuted);
        }
        if env.timestamp > voting_end {
            return Err(ContractError::VotingPeriodEnded);
        }
        let voted_key = (proposal_id, voter.dup());
        if self.has_voted.contains_key(&voted_key) {
            return Err(ContractError::AlreadyVoted);
        }
        let power = match self.voting_power(holdings) {
            Ok(p) => p,
            Err(e) => {
                return Err(e);
            },
        };
        if power == 0 {
            return Err(ContractError::NoVotingPower);
        }
        let (new_for, new_against) = if support {
            match for_votes.checked_add(power) {
                Some(v) => (v, against_votes),
                None => {
                    return Err(ContractError::ArithmeticOverflow);
                },
            }
        } else {
            match against_votes.checked_add(power) {
                Some(v) => (for_votes, v),
                None => {
                    return Err(ContractError::ArithmeticOverflow);
                },
            }
        };
        let mut proposal = self.proposals.take(&proposal_id).unwrap();
        proposal.for_votes = new_for;
        proposal.against_votes = new_against;
        self.proposals.set(proposal_id, proposal);
        self.has_voted.set(voted_key, true);
        proof {
            assert forall|id: u64| #[trigger]
                self.proposals@.contains_key(id) implies 1 <= id <= self.proposal_counter by {
                assert(old(self).proposals@.contains_key(id));
            }
        }
        Ok(power)
    }

    /// The first check that `execute` fails, in the order it makes them.
    pub open spec fn execute_error(&self, env: Env, proposal_id: u64) -> Option<ContractError> {
        let p = self.proposals@[proposal_id];
        if !self.proposals@.contains_key(proposal_id) {
            Some(ContractError::ProposalNotFound)
        } else if p.executed {
            Some(ContractError::ProposalAlreadyExecuted)
        } else if env.timestamp <= p.voting_end {
            Some(ContractError::VotingPeriodNotEnded)
        } else if p.voting_end + TIMELOCK_PERIOD > u64::MAX {
            Some(ContractError::ArithmeticOverflow)
        } else if env.timestamp < p.voting_end + TIMELOCK_PERIOD {
            Some(ContractError::TimelockNotElapsed)
        } else if p.for_votes + p.against_votes > u128::MAX {
            Some(ContractError::ArithmeticOverflow)
        } else if p.for_votes + p.against_votes < p.quorum {
            Some(ContractError::QuorumNotMet)
        } else if p.for_votes <= p.against_votes {
            Some(ContractError::ProposalDefeated)
        } else {
            None
        }
    }

    /// Marks a proposal as executed once its voting period and the
    /// timelock after it have passed, provided its votes reach the quorum
    /// and more were cast for it than against it.
    pub fn execute(&mut self, env: &Env, proposal_id: u64) -> (r: Result<(), ContractError>)
        requires
            old(self).inv(),
        ensures
            final(self).inv(),
            match old(self).execute_error(*env, proposal_id) {
                Some(e) => r == Err::<(), ContractError>(e) && *final(self) == *old(self),
                None => {
                    &&& r is Ok
                    &&& final(self).proposals@ == old(self).proposals@.insert(
                        proposal_id,
                        (ProposalData { executed: true, ..old(self).proposals@[proposal_id] }),
                    )
                    &&& final(self).has_voted == old(self).has_voted
                    &&& final(self).proposal_counter == old(self).proposal_counter
                    &&& final(self).tracked_properties == old(self).tracked_properties
                    &&& final(self).admin == old(self).admin
                    &&& final(self).fraction_vault == old(self).fraction_vault
                    &&& final(self).quorum == old(self).quorum
                },
            },
    {
        let (executed, voting_end, for_votes, against_votes, quorum) = match self.proposals.get(
            &proposal_id,
        ) {
            Some(p) => (p.executed, p.voting_end, p.for_votes, p.against_votes, p.quorum),
            None => {
                return Err(ContractError::ProposalNotFound);
            },
        };
        if executed {
            return Err(ContractError::ProposalAlreadyExecuted);
        }
        let now = env.timestamp;
        if now <= voting_end {
            return Err(ContractError::VotingPeriodNotEnded);
        }
        let earliest_execution = match voting_end.checked_add(TIMELOCK_PERIOD) {
            Some(t) => t,
            None => {
                return Err(ContractError::ArithmeticOverflow);
            },
        };
        if now < earliest_execution {
            return Err(ContractError::TimelockNotElapsed);
        }
        let total_votes = match for_votes.checked_add(against_votes) {
            Some(t) => t,
            None => {
                return Err(ContractError::ArithmeticOverflow);
            },
        };
        if total_votes < quorum {
            return Err(ContractError::QuorumNotMet);
        }
        if for_votes <= against_votes {
            return Err(ContractError::ProposalDefeated);
        }
        let mut proposal = self.proposals.take(&proposal_id).unwrap();
        proposal.executed = true;
        self.proposals.set(proposal_id, proposal);
        proof {
            assert forall|id: u64| #[trigger]
                self.proposals@.contains_key(id) implies 1 <= id <= self.proposal_counter by {
                assert(old(self).proposals@.contains_key(id));
            }
        }
        Ok(())
    }

    /// The proposal with the given id.
    pub fn get_proposal(&self, proposal_id: u64) -> (r: Result<&ProposalData, ContractError>)
        ensures
            !self.proposals@.contains_key(proposal_id) ==> r == Err::<
                &ProposalData,
                ContractError,
            >(ContractError::ProposalNotFound),
            self.proposals@.contains_key(proposal_id) ==> r == Ok::<&ProposalData, ContractError>(
                &self.proposals@[proposal_id],
            ),
    {
        match self.proposals.get(&proposal_id) {
            Some(p) => Ok(p),
            None => Err(ContractError::ProposalNotFound),
        }
    }
}

/// An executed proposal can neither be voted on nor executed again.
pub proof fn law_executed_proposal_is_final(
    g: &Governance,
    env: Env,
    voter: Seq<char>,
    proposal_id: u64,
    support: bool,
    holdings: Seq<(u64, u128)>,
)
    requires
        g.proposals@.contains_key(proposal_id),
        g.proposals@[proposal_id].executed,
    ensures
        env.authorized(voter) ==> g.vote_error(env, voter, proposal_id, support, holdings) == Some(
            ContractError::ProposalAlreadyExecuted,
        ),
        g.execute_error(env, proposal_id) == Some(ContractError::ProposalAlreadyExecuted),
{
}

/// A proposal is executed only after its voting period and the timelock
/// have passed, with its votes reaching the quorum and a strict majority
/// in favour.
pub proof fn law_execution_requires_passing_vote(g: &Governance, env: Env, proposal_id: u64)
    requires
        g.execute_error(env, proposal_id) is None,
    ensures
        ({
            let p = g.proposals@[proposal_id];
            &&& !p.executed
            &&& env.timestamp >= p.voting_end + TIMELOCK_PERIOD
            &&& p.for_votes + p.against_votes >= p.quorum
            &&& p.for_votes > p.against_votes
        }),
{
}

/// A voter who has voted on a proposal cannot vote on it again.
pub proof fn law_one_vote_per_voter(
    g: &Governance,
    env: Env,
    voter: Seq<char>,
    proposal_id: u64,
    support: bool,
    holdings: Seq<(u64, u128)>,
)
    requires
        env.authorized(voter),
        g.proposals@.contains_key(proposal_id),
        !g.proposals@[proposal_id].executed,
        env.timestamp <= g.proposals@[proposal_id].voting_end,
        g.voted(proposal_id, voter),
    ensures
        g.vote_error(env, voter, proposal_id, support, holdings) == Some(
            ContractError::AlreadyVoted,
        ),
{
}

/// A proposal whose voting period and timelock are over, whose votes for
/// and against together reach the quorum, and that has more votes for than
/// against, is executed.
pub proof fn law_passing_vote_is_executed(g: &Governance, env: Env, proposal_id: u64)
    requires
        g.proposals@.contains_key(proposal_id),
        !g.proposals@[proposal_id].executed,
        env.timestamp >= g.proposals@[proposal_id].voting_end + TIMELOCK_PERIOD,
        g.proposals@[proposal_id].for_votes + g.proposals@[proposal_id].against_votes
            <= u128::MAX,
        g.proposals@[proposal_id].for_votes + g.proposals@[proposal_id].against_votes
            >= g.proposals@[proposal_id].quorum,
        g.proposals@[proposal_id].for_votes > g.proposals@[proposal_id].against_votes,
    ensures
        g.execute_error(env, proposal_id) is None,
{
}

} // verus!
