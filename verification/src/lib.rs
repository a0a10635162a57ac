//! A quadratic-funding grant-round engine.
//!
//! The engine keeps successive funding rounds, the projects registered into
//! each round, the quadratically priced votes cast on those projects, a
//! donation-funded support pool per round, and the per-project withdrawal
//! ledger. All state lives in one explicit [`Contract`] value; the host
//! environment supplies the caller, the current time and attached deposits as
//! plain arguments and performs the value transfers that operations return.

use vstd::prelude::*;

mod config;
mod owner;
mod project;
mod round;

pub use config::Config;
pub use project::{Project, ProjectId, VoteRecord};
pub use round::{Round, RoundId, RoundStatus};

verus! {

/// An account of the host ledger, reduced to the one thing the engine reads
/// of it: its identity.
pub type AccountId = u64;

/// Fee rates are expressed in basis points of this denominator.
pub const FEE_DENOMINATOR: u128 = 10000;

/// Fee rate a fresh contract starts with: 5.00%.
pub const DEFAULT_FEE_POINT: u32 = 500;

/// Round length in seconds a default round is created with: 31 days.
pub const DEFAULT_DURATION: u32 = 60 * 60 * 24 * 31;

/// Price of one vote unit a fresh contract starts with.
pub const DEFAULT_VOTE_COST: u128 = 100_000_000_000_000_000_000_000;

/// Every operation fails synchronously with one of these kinds and leaves the
/// state unchanged.
#[derive(Clone, Copy, PartialEq, Eq, Structural, Debug)]
pub enum Error {
    /// Caller lacks the owner/operator capability, or the required
    /// confirmation deposit or danger acknowledgment is missing.
    Authorization,
    /// Duplicate project, round already active on creation, or round still
    /// active on a forced finish.
    StateConflict,
    /// The operation targets a round that is not the designated current one.
    RoundMismatch,
    /// A round window requirement is violated (round inactive when activity
    /// is required, or a start/end pair out of order).
    RoundWindow,
    /// Withdrawal or vote cost exceeds the available entitlement or deposit.
    InsufficientFunds,
    /// A weight, cost or accumulation would overflow its machine type.
    ArithmeticOverflow,
    /// Unknown round or project identifier.
    NotFound,
}

/// The whole engine state: one value, passed by reference to each operation.
pub struct Contract {
    /// Account with full administrative capability.
    pub owner_id: AccountId,
    /// Accounts with round/config capability, unique, in insertion order.
    pub operators: Vec<AccountId>,
    /// All projects ever registered, strictly sorted by (round, owner).
    pub projects: Vec<Project>,
    /// Per-voter, per-project cumulative votes and grant credits, one record
    /// per (voter, project) pair, created lazily on first vote.
    pub ledger: Vec<VoteRecord>,
    /// All rounds ever created; the round with identifier `i` sits at index
    /// `i - 1` and identifiers are contiguous from 1.
    pub rounds: Vec<Round>,
    /// Round under consideration for new projects and votes.
    pub current_round_id: RoundId,
    /// Platform fee rate in basis points.
    pub fee_point: u32,
    /// Cumulative platform fee collected from votes and donations.
    pub fee_amount: u128,
    /// Length in seconds of a default-created round.
    pub default_duration: u32,
    /// Vote unit price snapshotted into newly created rounds.
    pub default_vote_cost: u128,
}

impl Contract {
    /// Structural well-formedness: every operation requires it of the state
    /// it is given and re-establishes it.
    pub open spec fn wf(&self) -> bool {
        &&& round::rounds_wf(self.rounds@)
        &&& self.current_round_id == self.rounds@.len()
        &&& project::projects_wf(self.projects@, self.rounds@.len() as int)
        &&& project::ledger_wf(self.ledger@, self.projects@)
        &&& round::areas_in_sync(self.rounds@, self.projects@)
    }

    /// Creates a fresh contract owned by `owner_id`, with the default
    /// parameters and no rounds, projects, operators or ledger entries.
    pub fn init(owner_id: AccountId) -> (c: Contract)
        ensures
            c.wf(),
            c.owner_id == owner_id,
            c.operators@ =~= Seq::<AccountId>::empty(),
            c.projects@ =~= Seq::<Project>::empty(),
            c.ledger@ =~= Seq::<VoteRecord>::empty(),
            c.rounds@ =~= Seq::<Round>::empty(),
            c.current_round_id == 0,
            c.fee_point == DEFAULT_FEE_POINT,
            c.fee_amount == 0,
            c.default_duration == DEFAULT_DURATION,
            c.default_vote_cost == DEFAULT_VOTE_COST,
    {
        Contract {
            owner_id,
            operators: Vec::new(),
            projects: Vec::new(),
            ledger: Vec::new(),
            rounds: Vec::new(),
            current_round_id: 0,
            fee_point: DEFAULT_FEE_POINT,
            fee_amount: 0,
            default_duration: DEFAULT_DURATION,
            default_vote_cost: DEFAULT_VOTE_COST,
        }
    }

    /// True when `caller` holds the owner or operator capability.
    pub open spec fn spec_is_owner_or_operator(&self, caller: AccountId) -> bool {
        caller == self.owner_id || self.operators@.contains(caller)
    }

    /// Decides whether `caller` may perform round and configuration actions.
    pub fn is_owner_or_operator(&self, caller: AccountId) -> (b: bool)
        ensures
            b == self.spec_is_owner_or_operator(caller),
    {
        if caller == self.owner_id {
            return true;
        }
        let mut i: usize = 0;
        while i < self.operators.len()
            invariant
                i <= self.operators@.len(),
                forall|j: int| 0 <= j < i ==> self.operators@[j] != caller,
            decreases self.operators@.len() - i,
        {
            if self.operators[i] == caller {
                return true;
            }
            i = i + 1;
        }
        false
    }
}

} // verus!
