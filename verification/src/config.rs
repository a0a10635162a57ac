//! Configuration snapshot and owner/operator-gated parameter updates.

use vstd::prelude::*;
use vstd::string::StringExecFns;

use crate::round::Round;
use crate::{AccountId, Contract, Error};

verus! {

/// A read-only snapshot of the contract's parameters and current round.
pub struct Config {
    /// Version label of the engine.
    pub version: String,
    /// Current contract owner.
    pub owner_id: AccountId,
    /// Current operator list, in insertion order.
    pub operators: Vec<AccountId>,
    /// The round designated by `current_round_id`, if any exists.
    pub current_round: Option<Round>,
    /// Platform fee rate in basis points.
    pub fee_point: u32,
    /// Length in seconds of a default-created round.
    pub default_duration: u32,
    /// Vote unit price snapshotted into newly created rounds.
    pub default_vote_cost: u128,
    /// Cumulative platform fee collected.
    pub fee_amount: u128,
    /// A fixed motto, echoed for interface completeness.
    pub motivation: String,
}

impl Contract {
    /// Snapshots the current parameters and the live current round.
    pub fn get_config(&self) -> (c: Config)
        requires
            self.wf(),
        ensures
            c.owner_id == self.owner_id,
            c.operators@ == self.operators@,
            c.fee_point == self.fee_point,
            c.fee_amount == self.fee_amount,
            c.default_duration == self.default_duration,
            c.default_vote_cost == self.default_vote_cost,
            c.current_round is Some <==> self.rounds@.len() > 0,
            c.current_round is Some ==> c.current_round->0 == self.rounds@[self.current_round_id
                - 1],
    {
        Config {
            version: version_label(),
            owner_id: self.owner_id,
            operators: clone_accounts(&self.operators),
            fee_point: self.fee_point,
            fee_amount: self.fee_amount,
            default_duration: self.default_duration,
            default_vote_cost: self.default_vote_cost,
            current_round: self.round(self.current_round_id),
            motivation: motivation_label(),
        }
    }

    /// Applies only the supplied parameters; owner/operator gated.
    pub fn sudo_config(
        &mut self,
        caller: AccountId,
        fee_point: Option<u32>,
        default_duration: Option<u32>,
        default_vote_cost: Option<u128>,
    ) -> (r: Result<(), Error>)
        requires
            old(self).wf(),
        ensures
            final(self).wf(),
            r is Err <==> !old(self).spec_is_owner_or_operator(caller),
            r is Err ==> *final(self) == *old(self) && r->Err_0 == Error::Authorization,
            r is Ok ==> *final(self) == (Contract {
                fee_point: if fee_point is Some {
                    fee_point->0
                } else {
                    old(self).fee_point
                },
                default_duration: if default_duration is Some {
                    default_duration->0
                } else {
                    old(self).default_duration
                },
                default_vote_cost: if default_vote_cost is Some {
                    default_vote_cost->0
                } else {
                    old(self).default_vote_cost
                },
                ..*old(self)
            }),
    {
        if !self.is_owner_or_operator(caller) {
            return Err(Error::Authorization);
        }
        if let Some(v) = default_vote_cost {
            self.default_vote_cost = v;
        }
        if let Some(v) = default_duration {
            self.default_duration = v;
        }
        if let Some(v) = fee_point {
            self.fee_point = v;
        }
        Ok(())
    }
}

/// The engine's version label.
fn version_label() -> (s: String)
    ensures
        s@ == "0.1.0"@,
{
    String::from_str("0.1.0")
}

/// The motto echoed in every configuration snapshot.
fn motivation_label() -> (s: String)
    ensures
        s@ == "In Rust we trust"@,
{
    String::from_str("In Rust we trust")
}

/// Copies an account list element for element.
fn clone_accounts(v: &Vec<AccountId>) -> (r: Vec<AccountId>)
    ensures
        r@ == v@,
{
    let mut r: Vec<AccountId> = Vec::new();
    let mut i: usize = 0;
    while i < v.len()
        invariant
            i <= v@.len(),
            r@ =~= v@.take(i as int),
        decreases v@.len() - i,
    {
        r.push(v[i]);
        proof {
            assert(r@ =~= v@.take(i + 1));
        }
        i = i + 1;
    }
    proof {
        assert(v@.take(v@.len() as int) =~= v@);
    }
    r
}

} // verus!
