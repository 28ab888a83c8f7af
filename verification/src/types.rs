//! Values shared by the protocol's contracts: addresses, symbols, the
//! invocation context, records kept in storage, token transfers and errors.
use crate::table::TableKey;
use vstd::prelude::*;

verus! {

/// An account or contract address, by its string form.
#[derive(Clone, Debug)]
pub struct Address {
    pub id: String,
}

impl View for Address {
    type V = Seq<char>;

    open spec fn view(&self) -> Seq<char> {
        self.id@
    }
}

impl Address {
    pub fn new(id: &str) -> (a: Address)
        ensures
            a@ == id@,
    {
        Address { id: id.to_owned() }
    }

    pub fn dup(&self) -> (r: Address)
        ensures
            r == *self,
            r@ == self@,
    {
        Address { id: self.id.clone() }
    }

    pub fn equals(&self, other: &Address) -> (b: bool)
        ensures
            b == (self@ == other@),
    {
        self.id == other.id
    }
}

impl TableKey for Address {
    fn same_key(&self, other: &Self) -> (b: bool) {
        self.equals(other)
    }

    fn copy_key(&self) -> (r: Self) {
        self.dup()
    }
}

/// A short name such as an asset code or a jurisdiction ("US", "USDC").
#[derive(Clone, Debug)]
pub struct Symbol {
    pub name: String,
}

impl View for Symbol {
    type V = Seq<char>;

    open spec fn view(&self) -> Seq<char> {
        self.name@
    }
}

impl Symbol {
    pub fn new(name: &str) -> (s: Symbol)
        ensures
            s@ == name@,
    {
        Symbol { name: name.to_owned() }
    }

    pub fn dup(&self) -> (r: Symbol)
        ensures
            r == *self,
            r@ == self@,
    {
        Symbol { name: self.name.clone() }
    }

    pub fn equals(&self, other: &Symbol) -> (b: bool)
        ensures
            b == (self@ == other@),
    {
        self.name == other.name
    }
}

impl TableKey for Symbol {
    fn same_key(&self, other: &Self) -> (b: bool) {
        self.equals(other)
    }

    fn copy_key(&self) -> (r: Self) {
        self.dup()
    }
}

/// What a contract invocation sees of the ledger: the current time, the
/// invoked contract's own address, and which addresses authorized the call.
#[derive(Clone, Debug)]
pub struct Env {
    pub timestamp: u64,
    pub contract: Address,
    /// Every address counts as having authorized the call.
    pub all_authorized: bool,
    /// The addresses that authorized the call.
    pub authorizers: Vec<Address>,
}

impl Env {
    /// Whether `a` authorized the current invocation.
    pub open spec fn authorized(&self, a: Seq<char>) -> bool {
        self.all_authorized || exists|i: int|
            0 <= i < self.authorizers@.len() && #[trigger] self.authorizers@[i]@ == a
    }

    pub fn require_auth(&self, a: &Address) -> (b: bool)
        ensures
            b == self.authorized(a@),
    {
        if self.all_authorized {
            return true;
        }
        let mut i: usize = 0;
        while i < self.authorizers.len()
            invariant
                i <= self.authorizers@.len(),
                forall|j: int| 0 <= j < i ==> #[trigger] self.authorizers@[j]@ != a@,
            decreases self.authorizers@.len() - i,
        {
            if self.authorizers[i].equals(a) {
                return true;
            }
            i = i + 1;
        }
        false
    }
}

/// A movement of `amount` units of `token` that a contract call asks for;
/// the call only takes effect together with the transfer.
#[derive(Clone, Debug)]
pub struct Transfer {
    pub token: Address,
    pub from: Address,
    pub to: Address,
    pub amount: i128,
}

impl Transfer {
    pub open spec fn moves(self, token: Seq<char>, from: Seq<char>, to: Seq<char>, amount: int) -> bool {
        &&& self.token@ == token
        &&& self.from@ == from
        &&& self.to@ == to
        &&& self.amount == amount
    }
}

/// Why a contract call is refused.
#[derive(Clone, Copy, Debug, PartialEq, Eq, Structural)]
pub enum ContractError {
    AlreadyInitialized,
    NotInitialized,
    Unauthorized,
    ArithmeticOverflow,
    AmountNotPositive,
    InsufficientBalance,
    AttestationNotFound,
    TotalSupplyNotPositive,
    PriceNotPositive,
    AlreadyFractionalized,
    NotFractionalized,
    PropertyNotFound,
    ComplianceCheckFailed,
    PriceTooLow,
    ProposalNotFound,
    ProposalAlreadyExecuted,
    VotingPeriodEnded,
    VotingPeriodNotEnded,
    TimelockNotElapsed,
    AlreadyVoted,
    NoVotingPower,
    QuorumNotMet,
    ProposalDefeated,
    NotPropertyOwner,
    ExceedsMaxLtv,
    InsufficientPoolLiquidity,
    LoanNotFound,
    LoanNotActive,
    LoanHealthy,
    InsufficientLpBalance,
    OracleNotRegistered,
    OracleNotActive,
    AssetNotRegistered,
    NoFractionsIssued,
    NoYieldToClaim,
    NoRentToken,
    UnauthorizedCheckpoint,
    FractionVaultNotSet,
    SupplyExceeded,
    NotBorrower,
    NegativeAmount,
    HoldingsMismatch,
}

impl ContractError {
    /// The text with which the contract aborts.
    pub open spec fn text(self) -> Seq<char> {
        match self {
            ContractError::AlreadyInitialized => "already initialized"@,
            ContractError::NotInitialized => "not initialized"@,
            ContractError::Unauthorized => "unauthorized"@,
            ContractError::ArithmeticOverflow => "arithmetic overflow"@,
            ContractError::AmountNotPositive => "amount must be positive"@,
            ContractError::InsufficientBalance => "insufficient balance"@,
            ContractError::AttestationNotFound => "attestation not found"@,
            ContractError::TotalSupplyNotPositive => "total supply must be positive"@,
            ContractError::PriceNotPositive => "price must be positive"@,
            ContractError::AlreadyFractionalized => "already fractionalized"@,
            ContractError::NotFractionalized => "property not fractionalized"@,
            ContractError::PropertyNotFound => "property not found"@,
            ContractError::ComplianceCheckFailed => "compliance check failed"@,
            ContractError::PriceTooLow => "price too low"@,
            ContractError::ProposalNotFound => "proposal not found"@,
            ContractError::ProposalAlreadyExecuted => "proposal already executed"@,
            ContractError::VotingPeriodEnded => "voting period ended"@,
            ContractError::VotingPeriodNotEnded => "voting period not ended"@,
            ContractError::TimelockNotElapsed => "timelock not elapsed"@,
            ContractError::AlreadyVoted => "already voted"@,
            ContractError::NoVotingPower => "no voting power"@,
            ContractError::QuorumNotMet => "quorum not met"@,
            ContractError::ProposalDefeated => "proposal defeated"@,
            ContractError::NotPropertyOwner => "only property owner can open loan"@,
            ContractError::ExceedsMaxLtv => "loan amount exceeds max LTV"@,
            ContractError::InsufficientPoolLiquidity => "insufficient pool liquidity"@,
            ContractError::LoanNotFound => "loan not found"@,
            ContractError::LoanNotActive => "loan is not active"@,
            ContractError::LoanHealthy => "loan is healthy, cannot liquidate"@,
            ContractError::InsufficientLpBalance => "insufficient LP balance"@,
            ContractError::OracleNotRegistered => "oracle not registered"@,
            ContractError::OracleNotActive => "oracle not active"@,
            ContractError::AssetNotRegistered => "asset not registered"@,
            ContractError::NoFractionsIssued => "no fractions issued for property"@,
            ContractError::NoYieldToClaim => "no yield to claim"@,
            ContractError::NoRentToken => "no rent token set"@,
            ContractError::UnauthorizedCheckpoint => "unauthorized checkpoint"@,
            ContractError::FractionVaultNotSet => "fraction vault not set"@,
            ContractError::SupplyExceeded => "not enough fractions left"@,
            ContractError::NotBorrower => "only the borrower can repay"@,
            ContractError::NegativeAmount => "negative amount is not allowed"@,
            ContractError::HoldingsMismatch => "holdings do not match the tracked properties"@,
        }
    }

    /// The text with which the contract aborts.
    pub fn message(&self) -> (m: &'static str)
        ensures
            m@ == self.text(),
    {
        match self {
            ContractError::AlreadyInitialized => "already initialized",
            ContractError::NotInitialized => "not initialized",
            ContractError::Unauthorized => "unauthorized",
            ContractError::ArithmeticOverflow => "arithmetic overflow",
            ContractError::AmountNotPositive => "amount must be positive",
            ContractError::InsufficientBalance => "insufficient balance",
            ContractError::AttestationNotFound => "attestation not found",
            ContractError::TotalSupplyNotPositive => "total supply must be positive",
            ContractError::PriceNotPositive => "price must be positive",
            ContractError::AlreadyFractionalized => "already fractionalized",
            ContractError::NotFractionalized => "property not fractionalized",
            ContractError::PropertyNotFound => "property not found",
            ContractError::ComplianceCheckFailed => "compliance check failed",
            ContractError::PriceTooLow => "price too low",
            ContractError::ProposalNotFound => "proposal not found",
            ContractError::ProposalAlreadyExecuted => "proposal already executed",
            ContractError::VotingPeriodEnded => "voting period ended",
            ContractError::VotingPeriodNotEnded => "voting period not ended",
            ContractError::TimelockNotElapsed => "timelock not elapsed",
            ContractError::AlreadyVoted => "already voted",
            ContractError::NoVotingPower => "no voting power",
            ContractError::QuorumNotMet => "quorum not met",
            ContractError::ProposalDefeated => "proposal defeated",
            ContractError::NotPropertyOwner => "only property owner can open loan",
            ContractError::ExceedsMaxLtv => "loan amount exceeds max LTV",
            ContractError::InsufficientPoolLiquidity => "insufficient pool liquidity",
            ContractError::LoanNotFound => "loan not found",
            ContractError::LoanNotActive => "loan is not active",
            ContractError::LoanHealthy => "loan is healthy, cannot liquidate",
            ContractError::InsufficientLpBalance => "insufficient LP balance",
            ContractError::OracleNotRegistered => "oracle not registered",
            ContractError::OracleNotActive => "oracle not active",
            ContractError::AssetNotRegistered => "asset not registered",
            ContractError::NoFractionsIssued => "no fractions issued for property",
            ContractError::NoYieldToClaim => "no yield to claim",
            ContractError::NoRentToken => "no rent token set",
            ContractError::UnauthorizedCheckpoint => "unauthorized checkpoint",
            ContractError::FractionVaultNotSet => "fraction vault not set",
            ContractError::SupplyExceeded => "not enough fractions left",
            ContractError::NotBorrower => "only the borrower can repay",
            ContractError::NegativeAmount => "negative amount is not allowed",
            ContractError::HoldingsMismatch => "holdings do not match the tracked properties",
        }
    }
}

#[derive(Clone, Copy, Debug, PartialEq, Eq, Structural)]
pub enum PropertyStatus {
    Active,
    Inactive,
    UnderMaintenance,
}

#[derive(Clone, Debug)]
pub struct PropertyData {
    pub owner: Address,
    pub valuation: i128,
    pub doc_hash: [u8; 32],
    pub status: PropertyStatus,
    pub created_at: u64,
    pub updated_at: u64,
}

impl PropertyData {
    pub fn dup(&self) -> (r: PropertyData)
        ensures
            r == *self,
    {
        PropertyData {
            owner: self.owner.dup(),
            valuation: self.valuation,
            doc_hash: self.doc_hash,
            status: self.status,
            created_at: self.created_at,
            updated_at: self.updated_at,
        }
    }
}

#[derive(Clone, Copy, Debug, PartialEq, Eq, Structural)]
pub struct PriceData {
    pub price: i128,
    pub timestamp: u64,
    pub oracle_count: u32,
}

#[derive(Clone, Copy, Debug, PartialEq, Eq, Structural)]
pub enum LoanStatus {
    Active,
    Repaid,
    Liquidated,
}

#[derive(Clone, Debug)]
pub struct LoanData {
    pub prop_id: u64,
    pub borrower: Address,
    pub amount: i128,
    pub collateral_valuation: i128,
    pub ltv_bps: u32,
    pub interest_rate_bps: u32,
    pub created_at: u64,
    pub last_repayment_at: u64,
    pub status: LoanStatus,
}

/// A loan's current debt against its collateral, in basis points
/// (10000 = 100%).
#[derive(Clone, Copy, Debug, PartialEq, Eq, Structural)]
pub struct HealthFactor {
    pub ratio: u32,
    pub is_healthy: bool,
}

#[derive(Clone, Copy, Debug, PartialEq, Eq, Structural)]
pub struct JurisdictionRules {
    pub min_attestation_days: u32,
    pub required_level: u32,
}

/// The protocol changes that a governance proposal can stand for.
#[derive(Clone, Debug)]
pub enum GovernanceAction {
    UpdateLTV { new_max: u32 },
    UpdateLiquidationThreshold { new_threshold: u32 },
    AddJurisdiction { jurisdiction: Symbol },
    RemoveJurisdiction { jurisdiction: Symbol },
    UpdateOracleWeight { oracle: Address, weight: u32 },
    UpdateFeeRate { new_rate: u32 },
    UpgradeContract { contract_id: Address, wasm_hash: [u8; 32] },
}

/// A quote for converting between two bridged assets.
#[derive(Clone, Debug)]
pub struct PathQuote {
    pub dest_amount: i128,
    pub path: Vec<Address>,
    pub estimated_fee: i128,
}

} // verus!
