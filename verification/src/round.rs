//! Round records, the round lifecycle state machine, and donations.

use vstd::prelude::*;

use crate::project;
use crate::project::Project;
use crate::{AccountId, Contract, Error, FEE_DENOMINATOR};

verus! {

/// Identifier of a round: 1-based and monotonically increasing.
pub type RoundId = u64;

/// Lifecycle status of a round. A round only ever moves `Active` to
/// `Finished`, never back.
#[derive(Clone, Copy, PartialEq, Eq, Structural, Debug)]
pub enum RoundStatus {
    Active,
    Finished,
}

/// One time-boxed funding cycle with its own fixed vote price and pools.
#[derive(Clone, Copy, PartialEq, Eq, Structural, Debug)]
pub struct Round {
    /// Immutable identifier, assigned at creation.
    pub id: RoundId,
    /// Second the round was created at.
    pub created_at: u32,
    /// First second of the voting window.
    pub start_at: u32,
    /// Last second of the voting window.
    pub end_at: u32,
    /// Lifecycle status; activity additionally requires the time window.
    pub status: RoundStatus,
    /// Price of one quadratic-vote unit, fixed at round creation.
    pub vote_cost: u128,
    /// Fee-netted donations accrued to the shared support pool.
    pub support_pool: u128,
    /// Gross donations, kept for transparency only.
    pub pure_support_pool: u128,
    /// Sum of all member projects' accumulated support-area.
    pub support_area: u64,
}

impl Round {
    /// The single source of truth for "can this round accept votes or
    /// donations right now": active status and `now` inside the window.
    pub open spec fn spec_is_active(self, now: u32) -> bool {
        self.status == RoundStatus::Active && self.start_at <= now && self.end_at >= now
    }

    /// Recomputes activity from the stored round and the supplied clock;
    /// nothing is cached.
    pub fn is_active(&self, now: u32) -> (b: bool)
        ensures
            b == self.spec_is_active(now),
    {
        self.status == RoundStatus::Active && self.start_at <= now && self.end_at >= now
    }
}

/// Rounds sit at index `id - 1`, identifiers are contiguous from 1, and every
/// stored window is ordered.
pub open spec fn rounds_wf(rounds: Seq<Round>) -> bool {
    forall|i: int|
        0 <= i < rounds.len() ==> (#[trigger] rounds[i]).id == i + 1 && rounds[i].start_at
            <= rounds[i].end_at
}

/// Each round's aggregate `support_area` equals the sum of its member
/// projects' support-areas.
pub open spec fn areas_in_sync(rounds: Seq<Round>, projects: Seq<Project>) -> bool {
    forall|i: int|
        0 <= i < rounds.len() ==> (#[trigger] rounds[i]).support_area == project::sum_area(
            projects,
            rounds[i].id,
        )
}

/// Round edits that keep each round's identifier and support-area keep the
/// aggregate in sync with the untouched projects.
pub proof fn lemma_rounds_still_in_sync(before: Seq<Round>, after: Seq<Round>, projects: Seq<Project>)
    requires
        after.len() == before.len(),
        forall|i: int|
            0 <= i < after.len() ==> (#[trigger] after[i]).id == before[i].id
                && after[i].support_area == before[i].support_area,
        areas_in_sync(before, projects),
    ensures
        areas_in_sync(after, projects),
{
    assert forall|i: int|
        0 <= i < after.len() implies (#[trigger] after[i]).support_area == project::sum_area(
        projects,
        after[i].id,
    ) by {
        assert(before[i].support_area == project::sum_area(projects, before[i].id));
    }
}

/// Fee skimmed from an amount, in basis points, rounded down.
pub open spec fn spec_fee(amount: int, fee_point: int) -> int {
    amount * fee_point / (FEE_DENOMINATOR as int)
}

/// Whether accepting a donation of `deposit` into `round` would overflow a
/// machine type somewhere along the computation.
pub open spec fn donate_overflow(round: Round, fee_point: int, deposit: int) -> bool {
    ||| deposit * fee_point > u128::MAX
    ||| spec_fee(deposit, fee_point) > deposit
    ||| round.support_pool + (deposit - spec_fee(deposit, fee_point)) > u128::MAX
    ||| round.pure_support_pool + deposit > u128::MAX
}

impl Contract {
    /// The round a freshly created round gets, before identifiers are known.
    pub open spec fn spec_new_round(&self, now: u32, start_at: u32, end_at: u32) -> Round {
        Round {
            id: (self.current_round_id + 1) as u64,
            created_at: now,
            start_at,
            end_at,
            status: RoundStatus::Active,
            vote_cost: self.default_vote_cost,
            support_pool: 0,
            pure_support_pool: 0,
            support_area: 0,
        }
    }

    /// The round designated by `current_round_id` is currently active.
    pub open spec fn spec_current_round_active(&self, now: u32) -> bool {
        self.rounds@.len() > 0 && self.rounds@.last().spec_is_active(now)
    }

    /// Creates a new round with the given window; owner/operator gated.
    ///
    /// At most one in-flight round is permitted: creation fails while the
    /// current round is still active. On success the next identifier is
    /// allocated, the current default vote price is snapshotted into the
    /// round, its pools and support-area start at zero, and it becomes the
    /// current round.
    pub fn sudo_new_round(
        &mut self,
        caller: AccountId,
        now: u32,
        start_at: u32,
        end_at: u32,
    ) -> (r: Result<Round, Error>)
        requires
            old(self).wf(),
        ensures
            final(self).wf(),
            r is Err ==> *final(self) == *old(self),
            r == Result::<Round, Error>::Err(Error::Authorization) <==> !old(
                self,
            ).spec_is_owner_or_operator(caller),
            r == Result::<Round, Error>::Err(Error::RoundWindow) <==> old(
                self,
            ).spec_is_owner_or_operator(caller) && start_at >= end_at,
            r == Result::<Round, Error>::Err(Error::StateConflict) <==> old(
                self,
            ).spec_is_owner_or_operator(caller) && start_at < end_at && old(
                self,
            ).spec_current_round_active(now),
            r == Result::<Round, Error>::Err(Error::ArithmeticOverflow) <==> old(
                self,
            ).spec_is_owner_or_operator(caller) && start_at < end_at && !old(
                self,
            ).spec_current_round_active(now) && old(self).current_round_id == u64::MAX,
            r is Ok <==> old(self).spec_is_owner_or_operator(caller) && start_at < end_at && !old(
                self,
            ).spec_current_round_active(now) && old(self).current_round_id != u64::MAX,
            r is Ok ==> {
                &&& r->Ok_0 == old(self).spec_new_round(now, start_at, end_at)
                &&& final(self).rounds@ == old(self).rounds@.push(r->Ok_0)
                &&& final(self).current_round_id == old(self).current_round_id + 1
                &&& *final(self) == (Contract {
                    rounds: final(self).rounds,
                    current_round_id: final(self).current_round_id,
                    ..*old(self)
                })
            },
    {
        if !self.is_owner_or_operator(caller) {
            return Err(Error::Authorization);
        }
        if !(start_at < end_at) {
            return Err(Error::RoundWindow);
        }
        if let Some(round) = self.round(self.current_round_id) {
            if round.is_active(now) {
                return Err(Error::StateConflict);
            }
        }
        if self.current_round_id == u64::MAX {
            return Err(Error::ArithmeticOverflow);
        }
        let new_id = self.current_round_id + 1;
        let round = Round {
            id: new_id,
            created_at: now,
            start_at,
            end_at,
            status: RoundStatus::Active,
            vote_cost: self.default_vote_cost,
            support_pool: 0,
            pure_support_pool: 0,
            support_area: 0,
        };
        self.current_round_id = new_id;
        self.rounds.push(round);
        proof {
            assert forall|i: int|
                0 <= i < self.projects@.len() implies (#[trigger] self.projects@[i]).round_id
                != new_id by {}
            project::lemma_sum_area_absent(self.projects@, new_id);
            assert forall|i: int|
                0 <= i < self.rounds@.len() implies (#[trigger] self.rounds@[i]).support_area
                == project::sum_area(self.projects@, self.rounds@[i].id) by {
                if i < self.rounds@.len() - 1 {
                    assert(self.rounds@[i] == old(self).rounds@[i]);
                }
            }
        }
        Ok(round)
    }

    /// Creates a round starting now and ending a default duration later.
    pub fn sudo_new_default_round(&mut self, caller: AccountId, now: u32) -> (r: Result<
        Round,
        Error,
    >)
        requires
            old(self).wf(),
        ensures
            final(self).wf(),
            r is Err ==> *final(self) == *old(self),
            now + old(self).default_duration > u32::MAX ==> r == Result::<Round, Error>::Err(
                Error::ArithmeticOverflow,
            ),
            now + old(self).default_duration <= u32::MAX ==> {
                let end_at = (now + old(self).default_duration) as u32;
                &&& (r == Result::<Round, Error>::Err(Error::Authorization) <==> !old(
                    self,
                ).spec_is_owner_or_operator(caller))
                &&& (r == Result::<Round, Error>::Err(Error::RoundWindow) <==> old(
                    self,
                ).spec_is_owner_or_operator(caller) && now >= end_at)
                &&& (r == Result::<Round, Error>::Err(Error::StateConflict) <==> old(
                    self,
                ).spec_is_owner_or_operator(caller) && now < end_at && old(
                    self,
                ).spec_current_round_active(now))
                &&& (r == Result::<Round, Error>::Err(Error::ArithmeticOverflow) <==> old(
                    self,
                ).spec_is_owner_or_operator(caller) && now < end_at && !old(
                    self,
                ).spec_current_round_active(now) && old(self).current_round_id == u64::MAX)
                &&& (r is Ok <==> old(self).spec_is_owner_or_operator(caller) && now < end_at
                    && !old(self).spec_current_round_active(now) && old(self).current_round_id
                    != u64::MAX)
                &&& (r is Ok ==> {
                    &&& r->Ok_0 == old(self).spec_new_round(now, now, end_at)
                    &&& final(self).rounds@ == old(self).rounds@.push(r->Ok_0)
                    &&& final(self).current_round_id == old(self).current_round_id + 1
                    &&& *final(self) == (Contract {
                        rounds: final(self).rounds,
                        current_round_id: final(self).current_round_id,
                        ..*old(self)
                    })
                })
            },
    {
        let start_at = now;
        let end_at = match now.checked_add(self.default_duration) {
            Some(e) => e,
            None => {
                return Err(Error::ArithmeticOverflow);
            },
        };
        self.sudo_new_round(caller, now, start_at, end_at)
    }

    /// Edits the current round in place; owner only, and an explicit danger
    /// acknowledgment is required. Only the supplied fields are applied and
    /// the merged window must stay ordered.
    pub fn sudo_update_current_round(
        &mut self,
        caller: AccountId,
        danger: bool,
        status: Option<RoundStatus>,
        start_at: Option<u32>,
        end_at: Option<u32>,
    ) -> (r: Result<Round, Error>)
        requires
            old(self).wf(),
        ensures
            final(self).wf(),
            r is Err ==> *final(self) == *old(self),
            r == Result::<Round, Error>::Err(Error::Authorization) <==> (caller != old(
                self,
            ).owner_id || !danger),
            r == Result::<Round, Error>::Err(Error::NotFound) <==> caller == old(self).owner_id
                && danger && old(self).rounds@.len() == 0,
            (caller == old(self).owner_id && danger && old(self).rounds@.len() > 0) ==> {
                let merged = (Round {
                    status: if status is Some {
                        status->0
                    } else {
                        old(self).rounds@.last().status
                    },
                    start_at: if start_at is Some {
                        start_at->0
                    } else {
                        old(self).rounds@.last().start_at
                    },
                    end_at: if end_at is Some {
                        end_at->0
                    } else {
                        old(self).rounds@.last().end_at
                    },
                    ..old(self).rounds@.last()
                });
                &&& (r == Result::<Round, Error>::Err(Error::RoundWindow) <==> merged.start_at
                    > merged.end_at)
                &&& (r is Ok <==> merged.start_at <= merged.end_at)
                &&& (r is Ok ==> r->Ok_0 == merged && final(self).rounds@ == old(
                    self,
                ).rounds@.update(old(self).rounds@.len() - 1, merged) && *final(self) == (Contract {
                    rounds: final(self).rounds,
                    ..*old(self)
                }))
            },
    {
        if caller != self.owner_id {
            return Err(Error::Authorization);
        }
        if !danger {
            return Err(Error::Authorization);
        }
        if self.rounds.len() == 0 {
            return Err(Error::NotFound);
        }
        let idx = self.rounds.len() - 1;
        let mut round = self.rounds[idx];
        if let Some(s) = status {
            round.status = s;
        }
        if let Some(s) = start_at {
            round.start_at = s;
        }
        if let Some(e) = end_at {
            round.end_at = e;
        }
        if round.start_at > round.end_at {
            return Err(Error::RoundWindow);
        }
        self.rounds[idx] = round;
        proof {
            lemma_rounds_still_in_sync(old(self).rounds@, self.rounds@, self.projects@);
        }
        Ok(round)
    }

    /// Marks the current round `Finished`; owner/operator gated, and refused
    /// while the round is still inside its active window.
    pub fn sudo_finish_current_round(&mut self, caller: AccountId, now: u32) -> (r: Result<
        Round,
        Error,
    >)
        requires
            old(self).wf(),
        ensures
            final(self).wf(),
            r is Err ==> *final(self) == *old(self),
            r == Result::<Round, Error>::Err(Error::Authorization) <==> !old(
                self,
            ).spec_is_owner_or_operator(caller),
            r == Result::<Round, Error>::Err(Error::NotFound) <==> old(
                self,
            ).spec_is_owner_or_operator(caller) && old(self).rounds@.len() == 0,
            r == Result::<Round, Error>::Err(Error::StateConflict) <==> old(
                self,
            ).spec_is_owner_or_operator(caller) && old(self).rounds@.len() > 0 && old(
                self,
            ).rounds@.last().spec_is_active(now),
            r is Ok <==> old(self).spec_is_owner_or_operator(caller) && old(self).rounds@.len() > 0
                && !old(self).rounds@.last().spec_is_active(now),
            r is Ok ==> {
                let finished = (Round { status: RoundStatus::Finished, ..old(self).rounds@.last() });
                &&& r->Ok_0 == finished
                &&& final(self).rounds@ == old(self).rounds@.update(
                    old(self).rounds@.len() - 1,
                    finished,
                )
                &&& *final(self) == (Contract { rounds: final(self).rounds, ..*old(self) })
            },
    {
        if !self.is_owner_or_operator(caller) {
            return Err(Error::Authorization);
        }
        if self.rounds.len() == 0 {
            return Err(Error::NotFound);
        }
        let idx = self.rounds.len() - 1;
        let mut round = self.rounds[idx];
        if round.is_active(now) {
            return Err(Error::StateConflict);
        }
        round.status = RoundStatus::Finished;
        self.rounds[idx] = round;
        proof {
            lemma_rounds_still_in_sync(old(self).rounds@, self.rounds@, self.projects@);
        }
        Ok(round)
    }

    /// Accepts a donation of `deposit` into the current round while it is
    /// active. The platform fee is skimmed, rounded down in the platform's
    /// favor; the remainder accrues to the support pool and the gross amount
    /// to the transparency pool.
    pub fn donate(&mut self, now: u32, deposit: u128) -> (r: Result<Round, Error>)
        requires
            old(self).wf(),
        ensures
            final(self).wf(),
            r is Err ==> *final(self) == *old(self),
            r == Result::<Round, Error>::Err(Error::NotFound) <==> old(self).rounds@.len() == 0,
            r == Result::<Round, Error>::Err(Error::RoundWindow) <==> old(self).rounds@.len() > 0
                && !old(self).rounds@.last().spec_is_active(now),
            r == Result::<Round, Error>::Err(Error::ArithmeticOverflow) <==> old(
                self,
            ).spec_current_round_active(now) && donate_overflow(
                old(self).rounds@.last(),
                old(self).fee_point as int,
                deposit as int,
            ),
            r is Ok <==> old(self).spec_current_round_active(now) && !donate_overflow(
                old(self).rounds@.last(),
                old(self).fee_point as int,
                deposit as int,
            ),
            r is Ok ==> {
                let fee = spec_fee(deposit as int, old(self).fee_point as int);
                let updated = (Round {
                    support_pool: (old(self).rounds@.last().support_pool + (deposit - fee)) as u128,
                    pure_support_pool: (old(self).rounds@.last().pure_support_pool
                        + deposit) as u128,
                    ..old(self).rounds@.last()
                });
                &&& r->Ok_0 == updated
                &&& final(self).rounds@ == old(self).rounds@.update(
                    old(self).rounds@.len() - 1,
                    updated,
                )
                &&& *final(self) == (Contract { rounds: final(self).rounds, ..*old(self) })
                &&& fee + (deposit - fee) == deposit
            },
    {
        if self.rounds.len() == 0 {
            return Err(Error::NotFound);
        }
        let idx = self.rounds.len() - 1;
        let mut round = self.rounds[idx];
        if !round.is_active(now) {
            return Err(Error::RoundWindow);
        }
        let fee_numerator = match deposit.checked_mul(self.fee_point as u128) {
            Some(v) => v,
            None => {
                return Err(Error::ArithmeticOverflow);
            },
        };
        let platform_fee = fee_numerator / FEE_DENOMINATOR;
        let donated = match deposit.checked_sub(platform_fee) {
            Some(v) => v,
            None => {
                return Err(Error::ArithmeticOverflow);
            },
        };
        let support_pool = match round.support_pool.checked_add(donated) {
            Some(v) => v,
            None => {
                return Err(Error::ArithmeticOverflow);
            },
        };
        let pure_support_pool = match round.pure_support_pool.checked_add(deposit) {
            Some(v) => v,
            None => {
                return Err(Error::ArithmeticOverflow);
            },
        };
        round.support_pool = support_pool;
        round.pure_support_pool = pure_support_pool;
        self.rounds[idx] = round;
        proof {
            lemma_rounds_still_in_sync(old(self).rounds@, self.rounds@, self.projects@);
        }
        Ok(round)
    }

    /// Looks a round up by identifier; `Some` exactly for the identifiers
    /// handed out so far.
    /// Lists rounds in identifier order, skipping `offset` and returning at
    /// most `limit`, each paired with its live project count.
    pub fn rounds(&self, limit: Option<u32>, offset: Option<u32>) -> (r: Vec<(Round, u32)>)
        requires
            self.wf(),
        ensures
            ({
                let off = project::spec_offset(offset);
                let lim = project::spec_limit(limit);
                &&& (off >= self.rounds@.len() ==> r@.len() == 0)
                &&& (off < self.rounds@.len() ==> r@.len() == vstd::math::min(
                    lim,
                    self.rounds@.len() - off,
                ))
                &&& forall|i: int|
                    0 <= i < r@.len() ==> (#[trigger] r@[i]).0 == self.rounds@[off + i] && (
                    project::count_in_round(self.projects@, self.rounds@[off + i].id)
                        <= u32::MAX ==> r@[i].1 == project::count_in_round(
                        self.projects@,
                        self.rounds@[off + i].id,
                    ))
            }),
    {
        let lim: u32 = match limit {
            Some(l) => l,
            None => u32::MAX,
        };
        let off: u32 = match offset {
            Some(o) => o,
            None => 0,
        };
        let mut r: Vec<(Round, u32)> = Vec::new();
        if off as usize >= self.rounds.len() {
            return r;
        }
        let start = off as usize;
        let mut i: usize = start;
        while i < self.rounds.len() && i - start < lim as usize
            invariant
                self.wf(),
                start <= i <= self.rounds@.len(),
                start == off as int,
                start < self.rounds@.len(),
                i - start <= lim as int,
                r@.len() == i - start,
                forall|k: int|
                    0 <= k < r@.len() ==> (#[trigger] r@[k]).0 == self.rounds@[start + k] && (
                    project::count_in_round(self.projects@, self.rounds@[start + k].id)
                        <= u32::MAX ==> r@[k].1 == project::count_in_round(
                        self.projects@,
                        self.rounds@[start + k].id,
                    )),
            decreases self.rounds@.len() - i,
        {
            let round = self.rounds[i];
            let count = self.count_projects_in_round(round.id);
            r.push((round, #[verifier::truncate] (count as u32)));
            i = i + 1;
        }
        r
    }

    pub fn round(&self, round_id: RoundId) -> (r: Option<Round>)
        requires
            self.wf(),
        ensures
            r is Some <==> 1 <= round_id <= self.rounds@.len(),
            r is Some ==> r->0 == self.rounds@[round_id - 1],
    {
        if 1 <= round_id && round_id <= self.rounds.len() as u64 {
            Some(self.rounds[(round_id - 1) as usize])
        } else {
            None
        }
    }
}

} // verus!
