//! Project records, the per-voter ledger, and the project-side operations.

use vstd::prelude::*;

use vstd::arithmetic::div_mod::{
    lemma_div_is_ordered, lemma_fundamental_div_mod, lemma_mod_bound, lemma_mod_multiples_vanish,
};
use vstd::arithmetic::mul::{
    lemma_mul_inequality, lemma_mul_is_distributive_add, lemma_mul_is_distributive_sub,
};

use crate::round::{Round, RoundId};
use crate::{AccountId, Contract, Error, FEE_DENOMINATOR};

verus! {

/// Identity of a project: one project per account per round.
pub type ProjectId = (RoundId, AccountId);

/// A registrant competing for votes and grants within exactly one round.
#[derive(Debug)]
pub struct Project {
    /// Descriptive metadata, carried through unchanged.
    pub name: String,
    pub description: String,
    pub external_url: String,
    pub image: String,
    /// Immutable round the project belongs to.
    pub round_id: RoundId,
    /// Immutable registering account.
    pub owner: AccountId,
    /// Second the project was registered at.
    pub created_at: u32,
    /// Raw vote units received across all voters; only grows.
    pub total_votes: u64,
    /// Direct vote-funded grants received, before withdrawal; only grows.
    pub grants: u128,
    /// This project's share of the support-area metric; only grows.
    pub support_area: u64,
    /// Cumulative amount already paid out; only grows.
    pub withdrawn: u128,
}

/// One voter's cumulative votes and grant credit on one project.
#[derive(Clone, Copy, PartialEq, Eq, Structural, Debug)]
pub struct VoteRecord {
    /// The voting account.
    pub voter: AccountId,
    /// Round part of the voted project's identity.
    pub round_id: RoundId,
    /// Owner part of the voted project's identity.
    pub project_owner: AccountId,
    /// Raw vote units this voter has cast on this project.
    pub votes: u64,
    /// Direct grant credited to this voter's votes, informational.
    pub granted: u128,
}

/// Strict order on project identities: by round, breaking ties by owner.
pub open spec fn key_lt(r1: RoundId, o1: AccountId, r2: RoundId, o2: AccountId) -> bool {
    r1 < r2 || (r1 == r2 && o1 < o2)
}

/// Projects are strictly sorted by identity (hence unique) and belong to
/// rounds that exist.
pub open spec fn projects_wf(projects: Seq<Project>, n_rounds: int) -> bool {
    &&& forall|i: int, j: int|
        0 <= i < j < projects.len() ==> key_lt(
            (#[trigger] projects[i]).round_id,
            projects[i].owner,
            (#[trigger] projects[j]).round_id,
            projects[j].owner,
        )
    &&& forall|i: int|
        0 <= i < projects.len() ==> 1 <= (#[trigger] projects[i]).round_id <= n_rounds
}

/// Some project with this identity exists.
pub open spec fn has_project(projects: Seq<Project>, rid: RoundId, owner: AccountId) -> bool {
    exists|j: int|
        0 <= j < projects.len() && (#[trigger] projects[j]).round_id == rid && projects[j].owner
            == owner
}

/// Ledger records have unique (voter, project) keys, refer to existing
/// projects, and a voter's count never exceeds the project's total.
pub open spec fn ledger_wf(ledger: Seq<VoteRecord>, projects: Seq<Project>) -> bool {
    &&& forall|i: int, j: int|
        0 <= i < j < ledger.len() ==> !((#[trigger] ledger[i]).voter == (
        #[trigger] ledger[j]).voter && ledger[i].round_id == ledger[j].round_id
            && ledger[i].project_owner == ledger[j].project_owner)
    &&& forall|i: int|
        0 <= i < ledger.len() ==> has_project(
            projects,
            (#[trigger] ledger[i]).round_id,
            ledger[i].project_owner,
        )
    &&& forall|i: int, j: int|
        0 <= i < ledger.len() && 0 <= j < projects.len() && (#[trigger] ledger[i]).round_id == (
        #[trigger] projects[j]).round_id && ledger[i].project_owner == projects[j].owner ==> ledger[i].votes
            <= projects[j].total_votes
}

/// Sum of the support-areas of the projects belonging to round `rid`.
pub open spec fn sum_area(projects: Seq<Project>, rid: RoundId) -> int
    decreases projects.len(),
{
    if projects.len() == 0 {
        0
    } else {
        sum_area(projects.drop_last(), rid) + if projects.last().round_id == rid {
            projects.last().support_area as int
        } else {
            0
        }
    }
}

/// If no project of the sequence belongs to round `rid`, its area sum is zero.
pub proof fn lemma_sum_area_absent(projects: Seq<Project>, rid: RoundId)
    requires
        forall|i: int| 0 <= i < projects.len() ==> (#[trigger] projects[i]).round_id != rid,
    ensures
        sum_area(projects, rid) == 0,
    decreases projects.len(),
{
    if projects.len() > 0 {
        lemma_sum_area_absent(projects.drop_last(), rid);
    }
}

/// Replacing one project changes a round's area sum by exactly that
/// project's contribution delta.
pub proof fn lemma_sum_area_update(projects: Seq<Project>, i: int, p: Project, rid: RoundId)
    requires
        0 <= i < projects.len(),
    ensures
        sum_area(projects.update(i, p), rid) == sum_area(projects, rid) - (if projects[i].round_id
            == rid {
            projects[i].support_area as int
        } else {
            0
        }) + (if p.round_id == rid {
            p.support_area as int
        } else {
            0
        }),
    decreases projects.len(),
{
    let updated = projects.update(i, p);
    if i == projects.len() - 1 {
        assert(updated.drop_last() =~= projects.drop_last());
    } else {
        assert(updated.drop_last() =~= projects.drop_last().update(i, p));
        lemma_sum_area_update(projects.drop_last(), i, p, rid);
    }
}

/// Inserting a project adds exactly its own contribution to a round's area
/// sum.
pub proof fn lemma_sum_area_insert(projects: Seq<Project>, i: int, p: Project, rid: RoundId)
    requires
        0 <= i <= projects.len(),
    ensures
        sum_area(projects.insert(i, p), rid) == sum_area(projects, rid) + (if p.round_id == rid {
            p.support_area as int
        } else {
            0
        }),
    decreases projects.len(),
{
    let inserted = projects.insert(i, p);
    if i == projects.len() {
        assert(inserted.drop_last() =~= projects);
        assert(inserted.last() == p);
    } else {
        assert(inserted.drop_last() =~= projects.drop_last().insert(i, p));
        assert(inserted.last() == projects.last());
        lemma_sum_area_insert(projects.drop_last(), i, p, rid);
    }
}

/// Position a new project with this identity takes in the sorted sequence:
/// the first index whose key is not below it.
pub open spec fn insert_pos(ps: Seq<Project>, rid: RoundId, owner: AccountId) -> int
    decreases ps.len(),
{
    if ps.len() == 0 {
        0
    } else if key_lt(ps[0].round_id, ps[0].owner, rid, owner) {
        1 + insert_pos(ps.drop_first(), rid, owner)
    } else {
        0
    }
}

/// The insert position splits the sequence into keys below the new one and
/// keys not below it.
pub proof fn lemma_insert_pos_splits(ps: Seq<Project>, rid: RoundId, owner: AccountId)
    ensures
        0 <= insert_pos(ps, rid, owner) <= ps.len(),
        forall|j: int|
            0 <= j < insert_pos(ps, rid, owner) ==> key_lt(
                (#[trigger] ps[j]).round_id,
                ps[j].owner,
                rid,
                owner,
            ),
        insert_pos(ps, rid, owner) < ps.len() ==> !key_lt(
            ps[insert_pos(ps, rid, owner)].round_id,
            ps[insert_pos(ps, rid, owner)].owner,
            rid,
            owner,
        ),
    decreases ps.len(),
{
    if ps.len() > 0 && key_lt(ps[0].round_id, ps[0].owner, rid, owner) {
        lemma_insert_pos_splits(ps.drop_first(), rid, owner);
        assert forall|j: int|
            0 <= j < insert_pos(ps, rid, owner) implies key_lt(
            (#[trigger] ps[j]).round_id,
            ps[j].owner,
            rid,
            owner,
        ) by {
            if j > 0 {
                assert(ps[j] == ps.drop_first()[j - 1]);
            }
        }
        if insert_pos(ps, rid, owner) < ps.len() {
            assert(ps[insert_pos(ps, rid, owner)] == ps.drop_first()[insert_pos(
                ps.drop_first(),
                rid,
                owner,
            )]);
        }
    }
}

/// A project as it is first registered, before any votes.
pub open spec fn spec_new_project(
    name: Seq<char>,
    description: Seq<char>,
    external_url: Seq<char>,
    image: Seq<char>,
    rid: RoundId,
    owner: AccountId,
    now: u32,
    p: Project,
) -> bool {
    &&& p.name@ == name
    &&& p.description@ == description
    &&& p.external_url@ == external_url
    &&& p.image@ == image
    &&& p.round_id == rid
    &&& p.owner == owner
    &&& p.created_at == now
    &&& p.total_votes == 0
    &&& p.grants == 0
    &&& p.support_area == 0
    &&& p.withdrawn == 0
}

/// A project's pro-rata share of its round's support pool, by support-area
/// weight, rounded down in the pool's favor; zero while the round has no
/// support-area at all.
pub open spec fn spec_pool_share(p: Project, round: Round) -> int {
    if round.support_area == 0 {
        0
    } else {
        p.support_area * round.support_pool / (round.support_area as int)
    }
}

/// Everything a project is entitled to once its round has settled: direct
/// grants plus its pool share.
pub open spec fn spec_entitlement(p: Project, round: Round) -> int {
    p.grants + spec_pool_share(p, round)
}

/// Whether resolving a project's entitlement overflows a machine type.
pub open spec fn share_overflow(p: Project, round: Round) -> bool {
    round.support_area > 0 && (p.support_area * round.support_pool > u128::MAX || p.grants
        + spec_pool_share(p, round) > u128::MAX)
}

/// Quadratic weight of buying `votes` further units after `voted` are
/// already held: the closed form of the next `votes` terms of the quadratic
/// cost series.
pub open spec fn spec_weight(votes: int, voted: int) -> int {
    votes * (votes + 1) / 2 + votes * voted
}

/// Position of a voter's record for one project: the index of the first
/// match, or the ledger length if there is none.
pub open spec fn ledger_pos(
    l: Seq<VoteRecord>,
    voter: AccountId,
    rid: RoundId,
    owner: AccountId,
) -> int
    decreases l.len(),
{
    if l.len() == 0 {
        0
    } else if l[0].voter == voter && l[0].round_id == rid && l[0].project_owner == owner {
        0
    } else {
        1 + ledger_pos(l.drop_first(), voter, rid, owner)
    }
}

/// Cumulative raw votes this voter has already cast on this project.
pub open spec fn spec_voted(
    l: Seq<VoteRecord>,
    voter: AccountId,
    rid: RoundId,
    owner: AccountId,
) -> u64 {
    if ledger_pos(l, voter, rid, owner) < l.len() {
        l[ledger_pos(l, voter, rid, owner)].votes
    } else {
        0
    }
}

/// Cumulative grant credit of this voter on this project.
pub open spec fn spec_granted(
    l: Seq<VoteRecord>,
    voter: AccountId,
    rid: RoundId,
    owner: AccountId,
) -> u128 {
    if ledger_pos(l, voter, rid, owner) < l.len() {
        l[ledger_pos(l, voter, rid, owner)].granted
    } else {
        0
    }
}

/// The ledger position is the first match, and everything before it is not
/// one.
pub proof fn lemma_ledger_pos_splits(
    l: Seq<VoteRecord>,
    voter: AccountId,
    rid: RoundId,
    owner: AccountId,
)
    ensures
        0 <= ledger_pos(l, voter, rid, owner) <= l.len(),
        ledger_pos(l, voter, rid, owner) < l.len() ==> {
            let rec = l[ledger_pos(l, voter, rid, owner)];
            rec.voter == voter && rec.round_id == rid && rec.project_owner == owner
        },
        forall|j: int|
            0 <= j < ledger_pos(l, voter, rid, owner) ==> !((#[trigger] l[j]).voter == voter
                && l[j].round_id == rid && l[j].project_owner == owner),
    decreases l.len(),
{
    if l.len() > 0 && !(l[0].voter == voter && l[0].round_id == rid && l[0].project_owner
        == owner) {
        lemma_ledger_pos_splits(l.drop_first(), voter, rid, owner);
        let pos = ledger_pos(l, voter, rid, owner);
        if pos < l.len() {
            assert(l[pos] == l.drop_first()[pos - 1]);
        }
        assert forall|j: int|
            0 <= j < pos implies !((#[trigger] l[j]).voter == voter && l[j].round_id == rid
            && l[j].project_owner == owner) by {
            if j > 0 {
                assert(l[j] == l.drop_first()[j - 1]);
            }
        }
    }
}

/// Whether the vote computation overflows a machine type anywhere along its
/// evaluation order.
pub open spec fn vote_overflow(
    votes: u64,
    voted: u64,
    granted: u128,
    p: Project,
    round: Round,
    fee_point: u32,
    fee_amount: u128,
    storage_cost: u128,
) -> bool {
    let weight = spec_weight(votes as int, voted as int);
    let cost = weight * round.vote_cost;
    let fee = crate::round::spec_fee(cost, fee_point as int);
    let grant_delta = cost - fee;
    let sa_delta = votes * (p.total_votes - voted);
    ||| votes + 1 > u64::MAX
    ||| votes * (votes + 1) > u64::MAX
    ||| votes * voted > u64::MAX
    ||| weight > u64::MAX
    ||| weight * round.vote_cost > u128::MAX
    ||| cost * fee_point > u128::MAX
    ||| fee > cost
    ||| sa_delta > u64::MAX
    ||| fee_amount + fee > u128::MAX
    ||| voted + votes > u64::MAX
    ||| granted + grant_delta > u128::MAX
    ||| p.grants + grant_delta > u128::MAX
    ||| p.total_votes + votes > u64::MAX
    ||| p.support_area + sa_delta > u64::MAX
    ||| round.support_area + sa_delta > u64::MAX
    ||| cost + storage_cost > u128::MAX
}

/// Sum of the first `n` positive integers.
pub open spec fn sum_first(n: nat) -> int
    decreases n,
{
    if n == 0 {
        0
    } else {
        n + sum_first((n - 1) as nat)
    }
}

/// Twice the sum of the first `n` integers is `n * (n + 1)`.
proof fn lemma_sum_first_doubled(n: nat)
    ensures
        2 * sum_first(n) == (n as int) * (n as int + 1),
    decreases n,
{
    if n > 0 {
        let m = (n - 1) as int;
        lemma_sum_first_doubled((n - 1) as nat);
        assert(2 * sum_first(n) == 2 * (n as int) + m * (m + 1));
        assert(2 * (n as int) + m * (m + 1) == (n as int) * (n as int + 1)) by (nonlinear_arith)
            requires
                m == n as int - 1,
        ;
    } else {
        assert(sum_first(n) == 0);
        assert((n as int) * (n as int + 1) == 0);
    }
}

/// The product of two consecutive integers is even.
proof fn lemma_consecutive_product_even(n: nat)
    ensures
        ((n as int) * (n as int + 1)) % 2 == 0,
    decreases n,
{
    if n > 0 {
        let m = (n - 1) as int;
        lemma_consecutive_product_even((n - 1) as nat);
        assert((n as int) * (n as int + 1) == 2 * (n as int) + m * (m + 1)) by (nonlinear_arith)
            requires
                m == n as int - 1,
        ;
        lemma_mod_multiples_vanish(n as int, m * (m + 1), 2);
    } else {
        assert((n as int) * (n as int + 1) == 0) by (nonlinear_arith)
            requires
                n == 0,
        ;
    }
}

/// `n * (n + 1)` is even, so halving it in integer arithmetic is exact.
proof fn lemma_consecutive_product_halves(n: nat)
    ensures
        2 * (((n as int) * (n as int + 1)) / 2) == (n as int) * (n as int + 1),
{
    lemma_consecutive_product_even(n);
    lemma_fundamental_div_mod((n as int) * (n as int + 1), 2);
}

/// Sum of the `count` consecutive integers `base + 1` through `base + count`.
pub open spec fn sum_range_above(base: nat, count: nat) -> int
    decreases count,
{
    if count == 0 {
        0
    } else {
        base + count + sum_range_above(base, (count - 1) as nat)
    }
}

/// A range of consecutive integers is the difference of two triangular sums.
proof fn lemma_range_is_triangle_difference(base: nat, count: nat)
    ensures
        sum_range_above(base, count) == sum_first((base + count) as nat) - sum_first(base),
    decreases count,
{
    if count > 0 {
        lemma_range_is_triangle_difference(base, (count - 1) as nat);
    }
}

/// The quadratic weight of `votes` further units on top of `voted` held
/// units is exactly the sum of the consecutive integers from `voted + 1`
/// through `voted + votes`: each next unit costs one more than the one
/// before it, starting from the units already purchased.
pub proof fn lemma_weight_is_consecutive_sum(votes: nat, voted: nat)
    requires
        votes > 0,
    ensures
        spec_weight(votes as int, voted as int) == sum_range_above(voted, votes),
{
    lemma_range_is_triangle_difference(voted, votes);
    let a = voted as int;
    let b = votes as int;
    lemma_sum_first_doubled((voted + votes) as nat);
    lemma_sum_first_doubled(voted);
    lemma_consecutive_product_halves(votes);
    assert((a + b) * (a + b + 1) - a * (a + 1) == b * (b + 1) + 2 * (a * b)) by (nonlinear_arith);
    assert(2 * spec_weight(b, a) == 2 * (b * (b + 1) / 2) + 2 * (b * a));
}

/// The platform fee and the grant delta split a vote's cost exactly: they
/// always recombine to the full cost, and whenever the fee rate is at most
/// the whole denominator the fee does not exceed the cost.
pub proof fn lemma_fee_split(cost: u128, fee_point: u32)
    ensures
        crate::round::spec_fee(cost as int, fee_point as int) + (cost as int
            - crate::round::spec_fee(cost as int, fee_point as int)) == cost as int,
        fee_point <= FEE_DENOMINATOR ==> 0 <= crate::round::spec_fee(
            cost as int,
            fee_point as int,
        ) <= cost as int,
{
    let c = cost as int;
    let fp = fee_point as int;
    let d = FEE_DENOMINATOR as int;
    lemma_mod_bound(c * fp, d);
    lemma_fundamental_div_mod(c * fp, d);
    assert(c * fp >= 0) by (nonlinear_arith)
        requires
            c >= 0 && fp >= 0,
    ;
    if fp <= d {
        lemma_mul_inequality(fp, d, c);
        assert(fp * c == c * fp && d * c == c * d) by (nonlinear_arith);
        assert(c * fp <= c * d);
        lemma_div_is_ordered(c * fp, c * d, d);
        assert(c * d / d == c) by (nonlinear_arith)
            requires
                d > 0,
        ;
    }
    assert(c * fp / d >= 0) by {
        lemma_div_is_ordered(0, c * fp, d);
    }
}

/// Sum, over the projects belonging to `round`, of each one's pool share.
pub open spec fn sum_pool_shares(projects: Seq<Project>, round: Round) -> int
    decreases projects.len(),
{
    if projects.len() == 0 {
        0
    } else {
        sum_pool_shares(projects.drop_last(), round) + if projects.last().round_id == round.id {
            spec_pool_share(projects.last(), round)
        } else {
            0
        }
    }
}

/// Sum, over the projects belonging to `round`, of the integer-division
/// remainder each one's pro-rata share computation discards.
pub open spec fn sum_share_remainders(projects: Seq<Project>, round: Round) -> int
    decreases projects.len(),
{
    if projects.len() == 0 {
        0
    } else {
        sum_share_remainders(projects.drop_last(), round) + if projects.last().round_id
            == round.id {
            (projects.last().support_area * round.support_pool) % (round.support_area as int)
        } else {
            0
        }
    }
}

/// Scaling the share sum by the round's support-area recovers the area sum
/// times the pool, minus the discarded remainders; the remainders are never
/// negative.
proof fn lemma_pool_shares_scaled(projects: Seq<Project>, round: Round)
    requires
        round.support_area > 0,
    ensures
        (round.support_area as int) * sum_pool_shares(projects, round) == sum_area(
            projects,
            round.id,
        ) * round.support_pool - sum_share_remainders(projects, round),
        sum_share_remainders(projects, round) >= 0,
    decreases projects.len(),
{
    let s = round.support_area as int;
    if projects.len() == 0 {
        assert(s * 0 == 0) by (nonlinear_arith);
        assert(0 * round.support_pool == 0) by (nonlinear_arith);
    } else {
        let rest = projects.drop_last();
        let p = projects.last();
        lemma_pool_shares_scaled(rest, round);
        let shares0 = sum_pool_shares(rest, round);
        let area0 = sum_area(rest, round.id);
        if p.round_id == round.id {
            let num = p.support_area * round.support_pool;
            lemma_fundamental_div_mod(num, s);
            lemma_mod_bound(num, s);
            lemma_mul_is_distributive_add(s, shares0, spec_pool_share(p, round));
            assert((area0 + p.support_area) * round.support_pool == area0 * round.support_pool
                + p.support_area * round.support_pool) by (nonlinear_arith);
        } else {
            assert(s * (shares0 + 0) == s * shares0);
        }
    }
}

/// Splitting a round's support pool pro-rata by support-area hands out at
/// most the whole pool: the sum of all member projects' pool shares never
/// exceeds `support_pool`, and reaches it exactly when no share computation
/// discards an integer-division remainder.
pub proof fn lemma_pool_shares_bounded(projects: Seq<Project>, round: Round)
    requires
        round.support_area > 0,
        sum_area(projects, round.id) == round.support_area as int,
    ensures
        sum_pool_shares(projects, round) <= round.support_pool,
        sum_pool_shares(projects, round) == round.support_pool <==> sum_share_remainders(
            projects,
            round,
        ) == 0,
{
    let s = round.support_area as int;
    let pool = round.support_pool as int;
    let shares = sum_pool_shares(projects, round);
    let rems = sum_share_remainders(projects, round);
    lemma_pool_shares_scaled(projects, round);
    assert(s * shares == s * pool - rems) by {
        assert(s * pool == pool * s == sum_area(projects, round.id) * round.support_pool)
            by (nonlinear_arith)
            requires
                s == sum_area(projects, round.id),
                pool == round.support_pool,
        ;
    }
    assert(s * (pool - shares) == rems) by {
        lemma_mul_is_distributive_sub(s, pool, shares);
    }
    if shares > pool {
        assert(s * (pool - shares) < 0) by (nonlinear_arith)
            requires
                s > 0,
                pool - shares < 0,
        ;
    }
    if shares < pool {
        assert(s * (pool - shares) > 0) by (nonlinear_arith)
            requires
                s > 0,
                pool - shares > 0,
        ;
    }
}

/// A round with no support-area at all settles every share to zero.
pub proof fn lemma_pool_shares_no_area(projects: Seq<Project>, round: Round)
    requires
        round.support_area == 0,
    ensures
        sum_pool_shares(projects, round) == 0,
    decreases projects.len(),
{
    if projects.len() > 0 {
        lemma_pool_shares_no_area(projects.drop_last(), round);
    }
}

/// In any well-formed contract state, every stored round's pool splits
/// without overshoot: the pool shares of its member projects sum to at most
/// its support pool, and reach it exactly when the round has support-area
/// and no share computation discards an integer-division remainder.
pub proof fn lemma_state_pool_split_bounded(c: Contract, k: int)
    requires
        c.wf(),
        0 <= k < c.rounds@.len(),
    ensures
        sum_pool_shares(c.projects@, c.rounds@[k]) <= c.rounds@[k].support_pool,
        c.rounds@[k].support_area > 0 ==> (sum_pool_shares(c.projects@, c.rounds@[k])
            == c.rounds@[k].support_pool <==> sum_share_remainders(c.projects@, c.rounds@[k])
            == 0),
{
    let round = c.rounds@[k];
    if round.support_area == 0 {
        lemma_pool_shares_no_area(c.projects@, round);
    } else {
        lemma_pool_shares_bounded(c.projects@, round);
    }
}

/// Number of projects registered into round `rid`.
pub open spec fn count_in_round(projects: Seq<Project>, rid: RoundId) -> int
    decreases projects.len(),
{
    if projects.len() == 0 {
        0
    } else {
        count_in_round(projects.drop_last(), rid) + if projects.last().round_id == rid {
            1int
        } else {
            0int
        }
    }
}

/// The predicate that keeps the projects of one owner.
pub open spec fn owned_by(owner: AccountId) -> spec_fn(Project) -> bool {
    |p: Project| p.owner == owner
}

/// The projects of one owner, in stored (round-ascending) order.
pub open spec fn projects_of_owner(projects: Seq<Project>, owner: AccountId) -> Seq<Project> {
    projects.filter(owned_by(owner))
}

/// Copies a project record field by field; the copy equals its source.
fn clone_project(p: &Project) -> (r: Project)
    ensures
        r == *p,
{
    Project {
        name: p.name.clone(),
        description: p.description.clone(),
        external_url: p.external_url.clone(),
        image: p.image.clone(),
        round_id: p.round_id,
        owner: p.owner,
        created_at: p.created_at,
        total_votes: p.total_votes,
        grants: p.grants,
        support_area: p.support_area,
        withdrawn: p.withdrawn,
    }
}

/// Decides the strict key order used to keep the project list sorted.
fn key_less(r1: RoundId, o1: AccountId, r2: RoundId, o2: AccountId) -> (b: bool)
    ensures
        b == key_lt(r1, o1, r2, o2),
{
    r1 < r2 || (r1 == r2 && o1 < o2)
}

impl Contract {
    /// Index of the project with the given identity, if registered.
    pub(crate) fn find_project_index(&self, rid: RoundId, owner: AccountId) -> (r: Option<usize>)
        ensures
            match r {
                Some(i) => 0 <= i < self.projects@.len() && self.projects@[i as int].round_id
                    == rid && self.projects@[i as int].owner == owner,
                None => !has_project(self.projects@, rid, owner),
            },
    {
        let mut i: usize = 0;
        while i < self.projects.len()
            invariant
                i <= self.projects@.len(),
                forall|j: int|
                    0 <= j < i ==> !((#[trigger] self.projects@[j]).round_id == rid
                        && self.projects@[j].owner == owner),
            decreases self.projects@.len() - i,
        {
            if self.projects[i].round_id == rid && self.projects[i].owner == owner {
                return Some(i);
            }
            i = i + 1;
        }
        None
    }

    /// Whether a project with this identity is registered.
    pub fn is_project_exists(&self, project_id: &ProjectId) -> (b: bool)
        ensures
            b == has_project(self.projects@, project_id.0, project_id.1),
    {
        self.find_project_index(project_id.0, project_id.1).is_some()
    }

    /// Checks that no project with this identity is registered yet.
    pub fn assert_unique_project(&self, project_id: &ProjectId) -> (r: Result<(), Error>)
        ensures
            r is Ok <==> !has_project(self.projects@, project_id.0, project_id.1),
            r is Err ==> r->Err_0 == Error::StateConflict,
    {
        if self.is_project_exists(project_id) {
            Err(Error::StateConflict)
        } else {
            Ok(())
        }
    }

    /// Looks a project up by identity.
    pub fn project(&self, project_id: ProjectId) -> (r: Option<Project>)
        ensures
            r is Some <==> has_project(self.projects@, project_id.0, project_id.1),
            r is Some ==> exists|j: int|
                0 <= j < self.projects@.len() && #[trigger] self.projects@[j] == r->0
                    && r->0.round_id == project_id.0 && r->0.owner == project_id.1,
    {
        match self.find_project_index(project_id.0, project_id.1) {
            Some(i) => {
                let p = clone_project(&self.projects[i]);
                proof {
                    assert(self.projects@[i as int] == p);
                }
                Some(p)
            },
            None => None,
        }
    }

    /// Registers a project for the caller in the current round. The identity
    /// `(current round, caller)` must be fresh and a current round must
    /// exist; the round's window is deliberately not consulted here.
    pub fn new_project(
        &mut self,
        caller: AccountId,
        now: u32,
        name: String,
        description: String,
        external_url: String,
        image: String,
    ) -> (r: Result<Project, Error>)
        requires
            old(self).wf(),
        ensures
            final(self).wf(),
            r is Err ==> *final(self) == *old(self),
            r == Result::<Project, Error>::Err(Error::StateConflict) <==> has_project(
                old(self).projects@,
                old(self).current_round_id,
                caller,
            ),
            r == Result::<Project, Error>::Err(Error::NotFound) <==> !has_project(
                old(self).projects@,
                old(self).current_round_id,
                caller,
            ) && old(self).rounds@.len() == 0,
            r is Ok <==> !has_project(old(self).projects@, old(self).current_round_id, caller)
                && old(self).rounds@.len() > 0,
            r is Ok ==> {
                &&& spec_new_project(
                    name@,
                    description@,
                    external_url@,
                    image@,
                    old(self).current_round_id,
                    caller,
                    now,
                    r->Ok_0,
                )
                &&& final(self).projects@ == old(self).projects@.insert(
                    insert_pos(old(self).projects@, old(self).current_round_id, caller),
                    r->Ok_0,
                )
                &&& *final(self) == (Contract { projects: final(self).projects, ..*old(self) })
            },
    {
        let rid = self.current_round_id;
        if let Err(e) = self.assert_unique_project(&(rid, caller)) {
            return Err(e);
        }
        if self.rounds.len() == 0 {
            return Err(Error::NotFound);
        }
        let p = Project {
            name,
            description,
            external_url,
            image,
            round_id: rid,
            owner: caller,
            created_at: now,
            total_votes: 0,
            grants: 0,
            support_area: 0,
            withdrawn: 0,
        };
        let returned = clone_project(&p);
        let ghost ps = self.projects@;
        let ghost pos = insert_pos(ps, rid, caller);
        proof {
            lemma_insert_pos_splits(ps, rid, caller);
        }
        let mut i: usize = 0;
        while i < self.projects.len() && key_less(
            self.projects[i].round_id,
            self.projects[i].owner,
            rid,
            caller,
        )
            invariant
                self == old(self),
                ps == self.projects@,
                i <= ps.len(),
                forall|j: int|
                    0 <= j < i ==> key_lt((#[trigger] ps[j]).round_id, ps[j].owner, rid, caller),
            decreases ps.len() - i,
        {
            i = i + 1;
        }
        proof {
            if i < pos {
                assert(key_lt(ps[i as int].round_id, ps[i as int].owner, rid, caller));
            }
            if pos < i {
                assert(key_lt(ps[pos].round_id, ps[pos].owner, rid, caller));
            }
            assert(i as int == pos);
        }
        self.projects.insert(i, p);
        proof {
            let inserted = self.projects@;
            assert(!has_project(ps, rid, caller));
            assert forall|a: int, b: int|
                0 <= a < b < inserted.len() implies key_lt(
                (#[trigger] inserted[a]).round_id,
                inserted[a].owner,
                (#[trigger] inserted[b]).round_id,
                inserted[b].owner,
            ) by {
                if a == pos && b > pos {
                    assert(inserted[b] == ps[b - 1]);
                    assert(!(ps[b - 1].round_id == rid && ps[b - 1].owner == caller));
                    if b - 1 == pos {
                        assert(!key_lt(ps[pos].round_id, ps[pos].owner, rid, caller));
                    } else {
                        assert(key_lt(
                            ps[pos].round_id,
                            ps[pos].owner,
                            ps[b - 1].round_id,
                            ps[b - 1].owner,
                        ));
                        assert(!key_lt(ps[pos].round_id, ps[pos].owner, rid, caller));
                    }
                } else if b == pos && a < pos {
                    assert(inserted[a] == ps[a]);
                    assert(key_lt(ps[a].round_id, ps[a].owner, rid, caller));
                } else if a < pos && b > pos {
                    assert(inserted[a] == ps[a] && inserted[b] == ps[b - 1]);
                } else if a < pos && b < pos {
                    assert(inserted[a] == ps[a] && inserted[b] == ps[b]);
                } else if a > pos && b > pos {
                    assert(inserted[a] == ps[a - 1] && inserted[b] == ps[b - 1]);
                }
            }
            assert forall|k: int|
                0 <= k < self.ledger@.len() implies has_project(
                inserted,
                (#[trigger] self.ledger@[k]).round_id,
                self.ledger@[k].project_owner,
            ) by {
                assert(has_project(ps, self.ledger@[k].round_id, self.ledger@[k].project_owner));
                let w = choose|w: int|
                    0 <= w < ps.len() && (#[trigger] ps[w]).round_id == self.ledger@[k].round_id
                        && ps[w].owner == self.ledger@[k].project_owner;
                if w < pos {
                    assert(inserted[w] == ps[w]);
                } else {
                    assert(inserted[w + 1] == ps[w]);
                }
            }
            assert forall|k: int, j: int|
                0 <= k < self.ledger@.len() && 0 <= j < inserted.len() && (
                #[trigger] self.ledger@[k]).round_id == (#[trigger] inserted[j]).round_id
                    && self.ledger@[k].project_owner == inserted[j].owner implies self.ledger@[k].votes
                <= inserted[j].total_votes by {
                if j != pos {
                    let orig: int = if j < pos {
                        j
                    } else {
                        j - 1
                    };
                    assert(inserted[j] == ps[orig]);
                }
            }
            assert forall|k: int|
                0 <= k < self.rounds@.len() implies (#[trigger] self.rounds@[k]).support_area
                == sum_area(inserted, self.rounds@[k].id) by {
                lemma_sum_area_insert(ps, pos, p, self.rounds@[k].id);
            }
        }
        Ok(returned)
    }

    /// Resolves a project's `(withdrawable, total entitlement)` pair.
    ///
    /// While the project's round is the designated current round and still
    /// active, the pool is not settled and the result is `(0, 0)` regardless
    /// of accumulated grants and support-area. Afterwards the entitlement is
    /// the direct grants plus the pool share, and the withdrawable part is
    /// what has not been paid out yet.
    pub fn grant_for(&self, project_id: ProjectId, now: u32) -> (r: Result<(u128, u128), Error>)
        requires
            self.wf(),
        ensures
            r == Result::<(u128, u128), Error>::Err(Error::NotFound) <==> !has_project(
                self.projects@,
                project_id.0,
                project_id.1,
            ),
            forall|j: int|
                0 <= j < self.projects@.len() && (#[trigger] self.projects@[j]).round_id
                    == project_id.0 && self.projects@[j].owner == project_id.1 ==> {
                    let p = self.projects@[j];
                    let round = self.rounds@[p.round_id - 1];
                    &&& (p.round_id == self.current_round_id && round.spec_is_active(now) ==> r
                        == Result::<(u128, u128), Error>::Ok((0u128, 0u128)))
                    &&& (!(p.round_id == self.current_round_id && round.spec_is_active(now))
                        ==> {
                        &&& (share_overflow(p, round) || p.withdrawn > spec_entitlement(p, round)
                            ==> r == Result::<(u128, u128), Error>::Err(Error::ArithmeticOverflow))
                        &&& (!share_overflow(p, round) && p.withdrawn <= spec_entitlement(p, round)
                            ==> r == Result::<(u128, u128), Error>::Ok(
                            (
                                (spec_entitlement(p, round) - p.withdrawn) as u128,
                                spec_entitlement(p, round) as u128,
                            ),
                        ))
                    })
                },
    {
        let pidx = match self.find_project_index(project_id.0, project_id.1) {
            Some(i) => i,
            None => {
                return Err(Error::NotFound);
            },
        };
        let p = &self.projects[pidx];
        let round = match self.round(p.round_id) {
            Some(round) => round,
            None => {
                return Err(Error::NotFound);
            },
        };
        if round.id == self.current_round_id && round.is_active(now) {
            return Ok((0, 0));
        }
        let mut granted = p.grants;
        if round.support_area > 0 {
            let numerator = match (p.support_area as u128).checked_mul(round.support_pool) {
                Some(v) => v,
                None => {
                    return Err(Error::ArithmeticOverflow);
                },
            };
            let share = numerator / (round.support_area as u128);
            granted = match granted.checked_add(share) {
                Some(v) => v,
                None => {
                    return Err(Error::ArithmeticOverflow);
                },
            };
        }
        let withdrawable = match granted.checked_sub(p.withdrawn) {
            Some(v) => v,
            None => {
                return Err(Error::ArithmeticOverflow);
            },
        };
        Ok((withdrawable, granted))
    }

    /// Pays out part of a project's entitlement to its owner.
    ///
    /// The request must not exceed the currently withdrawable amount;
    /// otherwise the call fails and the ledger is untouched. On success the
    /// project's `withdrawn` grows by exactly the paid amount, which never
    /// pushes it past the entitlement, and the returned pair instructs the
    /// host to transfer the amount to the project owner.
    pub fn withdraw(&mut self, project_id: ProjectId, amount: u128, now: u32) -> (r: Result<
        (AccountId, u128),
        Error,
    >)
        requires
            old(self).wf(),
        ensures
            final(self).wf(),
            r is Err ==> *final(self) == *old(self),
            r == Result::<(AccountId, u128), Error>::Err(Error::NotFound) <==> !has_project(
                old(self).projects@,
                project_id.0,
                project_id.1,
            ),
            forall|j: int|
                0 <= j < old(self).projects@.len() && (#[trigger] old(self).projects@[j]).round_id
                    == project_id.0 && old(self).projects@[j].owner == project_id.1 ==> {
                    let p = old(self).projects@[j];
                    let round = old(self).rounds@[p.round_id - 1];
                    let settled = !(p.round_id == old(self).current_round_id
                        && round.spec_is_active(now));
                    let withdrawable: int = if settled {
                        spec_entitlement(p, round) - p.withdrawn
                    } else {
                        0
                    };
                    &&& (settled && (share_overflow(p, round) || p.withdrawn > spec_entitlement(
                        p,
                        round,
                    )) ==> r == Result::<(AccountId, u128), Error>::Err(Error::ArithmeticOverflow))
                    &&& (settled && !share_overflow(p, round) && p.withdrawn <= spec_entitlement(
                        p,
                        round,
                    ) || !settled ==> {
                        &&& (amount > withdrawable ==> r == Result::<(AccountId, u128), Error>::Err(
                            Error::InsufficientFunds,
                        ))
                        &&& (amount <= withdrawable ==> {
                            &&& r == Result::<(AccountId, u128), Error>::Ok((p.owner, amount))
                            &&& final(self).projects@ == old(self).projects@.update(
                                j,
                                (Project { withdrawn: (p.withdrawn + amount) as u128, ..p }),
                            )
                            &&& *final(self) == (Contract {
                                projects: final(self).projects,
                                ..*old(self)
                            })
                            &&& settled ==> p.withdrawn + amount <= spec_entitlement(p, round)
                        })
                    })
                },
    {
        let pidx = match self.find_project_index(project_id.0, project_id.1) {
            Some(i) => i,
            None => {
                return Err(Error::NotFound);
            },
        };
        let withdrawable = match self.grant_for(project_id, now) {
            Ok((w, _)) => w,
            Err(e) => {
                return Err(e);
            },
        };
        if amount > withdrawable {
            return Err(Error::InsufficientFunds);
        }
        let ghost ps = self.projects@;
        let ghost before = self.projects@[pidx as int];
        let new_withdrawn = self.projects[pidx].withdrawn + amount;
        let mut updated = clone_project(&self.projects[pidx]);
        updated.withdrawn = new_withdrawn;
        let owner = updated.owner;
        self.projects[pidx] = updated;
        proof {
            let after = self.projects@;
            assert forall|a: int, b: int|
                0 <= a < b < after.len() implies key_lt(
                (#[trigger] after[a]).round_id,
                after[a].owner,
                (#[trigger] after[b]).round_id,
                after[b].owner,
            ) by {
                assert(key_lt(ps[a].round_id, ps[a].owner, ps[b].round_id, ps[b].owner));
            }
            assert forall|k: int|
                0 <= k < self.ledger@.len() implies has_project(
                after,
                (#[trigger] self.ledger@[k]).round_id,
                self.ledger@[k].project_owner,
            ) by {
                let w = choose|w: int|
                    0 <= w < ps.len() && (#[trigger] ps[w]).round_id == self.ledger@[k].round_id
                        && ps[w].owner == self.ledger@[k].project_owner;
                assert(after[w].round_id == self.ledger@[k].round_id && after[w].owner
                    == self.ledger@[k].project_owner);
            }
            assert forall|k: int|
                0 <= k < self.rounds@.len() implies (#[trigger] self.rounds@[k]).support_area
                == sum_area(after, self.rounds@[k].id) by {
                lemma_sum_area_update(ps, pidx as int, after[pidx as int], self.rounds@[k].id);
            }
        }
        Ok((owner, amount))
    }

    /// Index of the voter's record for this project, if one exists; the
    /// index is exactly the first-match position.
    pub(crate) fn find_ledger_index(&self, voter: AccountId, rid: RoundId, owner: AccountId) -> (r:
        Option<usize>)
        ensures
            match r {
                Some(i) => i as int == ledger_pos(self.ledger@, voter, rid, owner) && i
                    < self.ledger@.len(),
                None => ledger_pos(self.ledger@, voter, rid, owner) == self.ledger@.len(),
            },
    {
        let ghost lg = self.ledger@;
        proof {
            lemma_ledger_pos_splits(lg, voter, rid, owner);
        }
        let mut i: usize = 0;
        while i < self.ledger.len()
            invariant
                lg == self.ledger@,
                i <= lg.len(),
                forall|j: int|
                    0 <= j < i ==> !((#[trigger] lg[j]).voter == voter && lg[j].round_id == rid
                        && lg[j].project_owner == owner),
            decreases lg.len() - i,
        {
            let rec = &self.ledger[i];
            if rec.voter == voter && rec.round_id == rid && rec.project_owner == owner {
                proof {
                    lemma_ledger_pos_splits(lg, voter, rid, owner);
                    let pos = ledger_pos(lg, voter, rid, owner);
                    if pos < i {
                        assert(!(lg[pos].voter == voter && lg[pos].round_id == rid
                            && lg[pos].project_owner == owner));
                    }
                    if i < pos {
                        assert(!(lg[i as int].voter == voter && lg[i as int].round_id == rid
                            && lg[i as int].project_owner == owner));
                    }
                }
                return Some(i);
            }
            i = i + 1;
        }
        proof {
            let pos = ledger_pos(lg, voter, rid, owner);
            if pos < lg.len() {
                assert(!(lg[pos].voter == voter && lg[pos].round_id == rid && lg[pos].project_owner
                    == owner));
            }
        }
        None
    }

    /// Cumulative raw votes `voter` has cast on the project.
    pub fn voted_of(&self, voter: AccountId, project_id: ProjectId) -> (r: u64)
        ensures
            r == spec_voted(self.ledger@, voter, project_id.0, project_id.1),
    {
        match self.find_ledger_index(voter, project_id.0, project_id.1) {
            Some(i) => self.ledger[i].votes,
            None => 0,
        }
    }

    /// Cumulative grant credit of `voter` on the project.
    pub fn granted_of(&self, voter: AccountId, project_id: ProjectId) -> (r: u128)
        ensures
            r == spec_granted(self.ledger@, voter, project_id.0, project_id.1),
    {
        match self.find_ledger_index(voter, project_id.0, project_id.1) {
            Some(i) => self.ledger[i].granted,
            None => 0,
        }
    }

    /// Casts `votes` quadratically priced vote units on a project, paid for
    /// by `deposit`.
    ///
    /// The project's round must be active and must be the designated current
    /// round. The weight of the purchase is priced at the round's fixed vote
    /// cost, the platform fee is skimmed from the cost (rounded down, in the
    /// project's favor), the remainder is credited as a direct grant, and
    /// the support-area grows by the vote units times the other votes the
    /// project already had. The deposit must cover the cost plus the
    /// host-reported `storage_cost`; the excess is returned for the host to
    /// refund. Every arithmetic step is exact: an overflow fails the whole
    /// operation.
    pub fn vote(
        &mut self,
        caller: AccountId,
        now: u32,
        deposit: u128,
        storage_cost: u128,
        project_id: ProjectId,
        votes: u64,
    ) -> (r: Result<(Project, u128), Error>)
        requires
            old(self).wf(),
        ensures
            final(self).wf(),
            r is Err ==> *final(self) == *old(self),
            ({
                let rid = project_id.0;
                let found = 1 <= rid <= old(self).rounds@.len();
                let round = old(self).rounds@[rid - 1];
                let active = found && round.spec_is_active(now);
                let current = rid == old(self).current_round_id;
                let registered = has_project(old(self).projects@, rid, project_id.1);
                let voted = spec_voted(old(self).ledger@, caller, rid, project_id.1);
                let granted = spec_granted(old(self).ledger@, caller, rid, project_id.1);
                let weight = spec_weight(votes as int, voted as int);
                let cost = weight * round.vote_cost;
                let fee = crate::round::spec_fee(cost, old(self).fee_point as int);
                let grant_delta = cost - fee;
                &&& (r == Result::<(Project, u128), Error>::Err(Error::NotFound) <==> (!found || (
                active && current && !registered)))
                &&& (r == Result::<(Project, u128), Error>::Err(Error::RoundWindow) <==> (found
                    && !active))
                &&& (r == Result::<(Project, u128), Error>::Err(Error::RoundMismatch) <==> (active
                    && !current))
                &&& (r is Ok ==> active && current && registered)
                &&& forall|j: int|
                    0 <= j < old(self).projects@.len() && (#[trigger] old(
                        self,
                    ).projects@[j]).round_id == rid && old(self).projects@[j].owner == project_id.1
                        && active && current ==> {
                        let p = old(self).projects@[j];
                        let sa_delta = votes * (p.total_votes - voted);
                        let overflow = vote_overflow(
                            votes,
                            voted,
                            granted,
                            p,
                            round,
                            old(self).fee_point,
                            old(self).fee_amount,
                            storage_cost,
                        );
                        &&& (r == Result::<(Project, u128), Error>::Err(Error::ArithmeticOverflow)
                            <==> overflow)
                        &&& (r == Result::<(Project, u128), Error>::Err(Error::InsufficientFunds)
                            <==> (!overflow && cost + storage_cost > deposit))
                        &&& (r is Ok <==> !overflow && cost + storage_cost <= deposit)
                        &&& (!overflow && cost + storage_cost <= deposit ==> {
                            let updated = (Project {
                                total_votes: (p.total_votes + votes) as u64,
                                support_area: (p.support_area + sa_delta) as u64,
                                grants: (p.grants + grant_delta) as u128,
                                ..p
                            });
                            let new_rec = (VoteRecord {
                                voter: caller,
                                round_id: rid,
                                project_owner: project_id.1,
                                votes: (voted + votes) as u64,
                                granted: (granted + grant_delta) as u128,
                            });
                            let lpos = ledger_pos(old(self).ledger@, caller, rid, project_id.1);
                            &&& r is Ok
                            &&& r->Ok_0.0 == updated
                            &&& r->Ok_0.1 == deposit - cost - storage_cost
                            &&& fee + grant_delta == cost
                            &&& final(self).projects@ == old(self).projects@.update(j, updated)
                            &&& final(self).rounds@ == old(self).rounds@.update(
                                rid - 1,
                                (Round {
                                    support_area: (round.support_area + sa_delta) as u64,
                                    ..round
                                }),
                            )
                            &&& final(self).ledger@ == (if lpos < old(self).ledger@.len() {
                                old(self).ledger@.update(lpos, new_rec)
                            } else {
                                old(self).ledger@.push(new_rec)
                            })
                            &&& final(self).fee_amount == old(self).fee_amount + fee
                            &&& *final(self) == (Contract {
                                projects: final(self).projects,
                                rounds: final(self).rounds,
                                ledger: final(self).ledger,
                                fee_amount: final(self).fee_amount,
                                ..*old(self)
                            })
                        })
                    }
            }),
    {
        let rid = project_id.0;
        let round = match self.round(rid) {
            Some(round) => round,
            None => {
                return Err(Error::NotFound);
            },
        };
        if !round.is_active(now) {
            return Err(Error::RoundWindow);
        }
        if rid != self.current_round_id {
            return Err(Error::RoundMismatch);
        }
        let pidx = match self.find_project_index(rid, project_id.1) {
            Some(i) => i,
            None => {
                return Err(Error::NotFound);
            },
        };
        let lidx = self.find_ledger_index(caller, rid, project_id.1);
        let voted = match lidx {
            Some(i) => self.ledger[i].votes,
            None => 0,
        };
        let granted = match lidx {
            Some(i) => self.ledger[i].granted,
            None => 0,
        };
        let p_total_votes = self.projects[pidx].total_votes;
        let p_support_area = self.projects[pidx].support_area;
        let p_grants = self.projects[pidx].grants;
        proof {
            if lidx is Some {
                let l = lidx->0 as int;
                lemma_ledger_pos_splits(self.ledger@, caller, rid, project_id.1);
                assert(self.ledger@[l].voter == caller && self.ledger@[l].round_id == rid
                    && self.ledger@[l].project_owner == project_id.1);
                assert(self.projects@[pidx as int].round_id == rid
                    && self.projects@[pidx as int].owner == project_id.1);
                assert(self.ledger@[l].votes <= self.projects@[pidx as int].total_votes);
            }
        }
        let votes_plus_one = match votes.checked_add(1) {
            Some(v) => v,
            None => {
                return Err(Error::ArithmeticOverflow);
            },
        };
        let square_term = match votes.checked_mul(votes_plus_one) {
            Some(v) => v,
            None => {
                return Err(Error::ArithmeticOverflow);
            },
        };
        let cross_term = match votes.checked_mul(voted) {
            Some(v) => v,
            None => {
                return Err(Error::ArithmeticOverflow);
            },
        };
        let weight = match (square_term / 2).checked_add(cross_term) {
            Some(v) => v,
            None => {
                return Err(Error::ArithmeticOverflow);
            },
        };
        let cost = match (weight as u128).checked_mul(round.vote_cost) {
            Some(v) => v,
            None => {
                return Err(Error::ArithmeticOverflow);
            },
        };
        let fee_numerator = match cost.checked_mul(self.fee_point as u128) {
            Some(v) => v,
            None => {
                return Err(Error::ArithmeticOverflow);
            },
        };
        let platform_fee = fee_numerator / FEE_DENOMINATOR;
        let grant_delta = match cost.checked_sub(platform_fee) {
            Some(v) => v,
            None => {
                return Err(Error::ArithmeticOverflow);
            },
        };
        let sa_delta = match votes.checked_mul(p_total_votes - voted) {
            Some(v) => v,
            None => {
                return Err(Error::ArithmeticOverflow);
            },
        };
        let new_fee_amount = match self.fee_amount.checked_add(platform_fee) {
            Some(v) => v,
            None => {
                return Err(Error::ArithmeticOverflow);
            },
        };
        let new_voted = match voted.checked_add(votes) {
            Some(v) => v,
            None => {
                return Err(Error::ArithmeticOverflow);
            },
        };
        let new_granted = match granted.checked_add(grant_delta) {
            Some(v) => v,
            None => {
                return Err(Error::ArithmeticOverflow);
            },
        };
        let new_total_votes = match p_total_votes.checked_add(votes) {
            Some(v) => v,
            None => {
                return Err(Error::ArithmeticOverflow);
            },
        };
        let new_p_area = match p_support_area.checked_add(sa_delta) {
            Some(v) => v,
            None => {
                return Err(Error::ArithmeticOverflow);
            },
        };
        let new_r_area = match round.support_area.checked_add(sa_delta) {
            Some(v) => v,
            None => {
                return Err(Error::ArithmeticOverflow);
            },
        };
        let new_grants = match p_grants.checked_add(grant_delta) {
            Some(v) => v,
            None => {
                return Err(Error::ArithmeticOverflow);
            },
        };
        let total_due = match cost.checked_add(storage_cost) {
            Some(v) => v,
            None => {
                return Err(Error::ArithmeticOverflow);
            },
        };
        if total_due > deposit {
            return Err(Error::InsufficientFunds);
        }
        let ghost ps = self.projects@;
        let ghost lg = self.ledger@;
        let ghost rs = self.rounds@;
        self.fee_amount = new_fee_amount;
        let new_rec = VoteRecord {
            voter: caller,
            round_id: rid,
            project_owner: project_id.1,
            votes: new_voted,
            granted: new_granted,
        };
        match lidx {
            Some(i) => {
                self.ledger[i] = new_rec;
            },
            None => {
                self.ledger.push(new_rec);
            },
        }
        let mut updated = clone_project(&self.projects[pidx]);
        updated.total_votes = new_total_votes;
        updated.support_area = new_p_area;
        updated.grants = new_grants;
        let returned = clone_project(&updated);
        self.projects[pidx] = updated;
        let rounds_len = self.rounds.len();
        proof {
            assert(1 <= rid && rid <= rounds_len as u64);
        }
        let ridx = (rid as usize) - 1;
        proof {
            assert(ridx as int == rid - 1);
        }
        let mut new_round = round;
        new_round.support_area = new_r_area;
        self.rounds[ridx] = new_round;
        proof {
            let after = self.projects@;
            lemma_ledger_pos_splits(lg, caller, rid, project_id.1);
            assert forall|a: int, b: int|
                0 <= a < b < after.len() implies key_lt(
                (#[trigger] after[a]).round_id,
                after[a].owner,
                (#[trigger] after[b]).round_id,
                after[b].owner,
            ) by {
                assert(key_lt(ps[a].round_id, ps[a].owner, ps[b].round_id, ps[b].owner));
            }
            assert forall|a: int, b: int|
                0 <= a < b < self.ledger@.len() implies !((#[trigger] self.ledger@[a]).voter == (
            #[trigger] self.ledger@[b]).voter && self.ledger@[a].round_id
                == self.ledger@[b].round_id && self.ledger@[a].project_owner
                == self.ledger@[b].project_owner) by {
                if b < lg.len() {
                    assert(!(lg[a].voter == lg[b].voter && lg[a].round_id == lg[b].round_id
                        && lg[a].project_owner == lg[b].project_owner));
                }
            }
            assert forall|k: int|
                0 <= k < self.ledger@.len() implies has_project(
                after,
                (#[trigger] self.ledger@[k]).round_id,
                self.ledger@[k].project_owner,
            ) by {
                if k < lg.len() && self.ledger@[k] != new_rec {
                    assert(has_project(ps, lg[k].round_id, lg[k].project_owner));
                }
                let krid = self.ledger@[k].round_id;
                let kown = self.ledger@[k].project_owner;
                if has_project(ps, krid, kown) {
                    let w = choose|w: int|
                        0 <= w < ps.len() && (#[trigger] ps[w]).round_id == krid && ps[w].owner
                            == kown;
                    assert(after[w].round_id == krid && after[w].owner == kown);
                } else {
                    assert(self.ledger@[k].round_id == rid && self.ledger@[k].project_owner
                        == project_id.1);
                    assert(after[pidx as int].round_id == rid && after[pidx as int].owner
                        == project_id.1);
                }
            }
            assert forall|k: int, j: int|
                0 <= k < self.ledger@.len() && 0 <= j < after.len() && (
            #[trigger] self.ledger@[k]).round_id == (#[trigger] after[j]).round_id
                && self.ledger@[k].project_owner == after[j].owner implies self.ledger@[k].votes
                <= after[j].total_votes by {
                if j != pidx as int {
                    if k < lg.len() && self.ledger@[k] == lg[k] {
                        assert(lg[k].votes <= ps[j].total_votes);
                    } else {
                        assert(after[j].round_id == rid && after[j].owner == project_id.1);
                        assert(after[pidx as int].round_id == rid && after[pidx as int].owner
                            == project_id.1);
                        assert(key_lt(ps[pidx as int].round_id, ps[pidx as int].owner, ps[j].round_id, ps[j].owner)
                            || key_lt(ps[j].round_id, ps[j].owner, ps[pidx as int].round_id, ps[pidx as int].owner));
                    }
                } else {
                    if k < lg.len() && self.ledger@[k] == lg[k] {
                        assert(lg[k].votes <= ps[j].total_votes);
                    }
                }
            }
            assert(self.rounds@ =~= rs.update(rid - 1, new_round));
            assert(rs[rid - 1] == round);
            assert(round.id == rid);
            assert(ps[pidx as int].round_id == rid);
            assert(after[pidx as int] == updated);
            assert(updated.round_id == rid);
            assert(updated.support_area == ps[pidx as int].support_area + sa_delta);
            assert forall|k: int|
                0 <= k < self.rounds@.len() implies (#[trigger] self.rounds@[k]).support_area
                == sum_area(after, self.rounds@[k].id) by {
                lemma_sum_area_update(ps, pidx as int, after[pidx as int], self.rounds@[k].id);
                assert(rs[k].support_area == sum_area(ps, rs[k].id));
                if k == rid - 1 {
                    assert(self.rounds@[k] == new_round);
                    assert(new_round.id == rid);
                    assert(sum_area(after, rid) == sum_area(ps, rid) + sa_delta);
                    assert(new_round.support_area == round.support_area + sa_delta);
                } else {
                    assert(self.rounds@[k] == rs[k]);
                    assert(rs[k].id == k + 1);
                    assert(rs[k].id != rid);
                    assert(sum_area(after, rs[k].id) == sum_area(ps, rs[k].id));
                }
            }
        }
        Ok((returned, deposit - total_due))
    }

    /// Counts the projects registered into round `rid`.
    pub(crate) fn count_projects_in_round(&self, rid: RoundId) -> (c: usize)
        ensures
            c == count_in_round(self.projects@, rid),
    {
        let ghost ps = self.projects@;
        let mut c: usize = 0;
        let mut i: usize = 0;
        while i < self.projects.len()
            invariant
                ps == self.projects@,
                i <= ps.len(),
                c == count_in_round(ps.take(i as int), rid),
                c <= i,
            decreases ps.len() - i,
        {
            if self.projects[i].round_id == rid {
                c = c + 1;
            }
            proof {
                assert(ps.take(i + 1).drop_last() =~= ps.take(i as int));
                assert(ps.take(i + 1).last() == ps[i as int]);
            }
            i = i + 1;
        }
        proof {
            assert(ps.take(ps.len() as int) =~= ps);
        }
        c
    }

    /// Lists all projects, ordered by identity, skipping `offset` and
    /// returning at most `limit` of them.
    pub fn projects(&self, limit: Option<u32>, offset: Option<u32>) -> (r: Vec<Project>)
        ensures
            ({
                let off = spec_offset(offset);
                let lim = spec_limit(limit);
                &&& (off >= self.projects@.len() ==> r@.len() == 0)
                &&& (off < self.projects@.len() ==> r@.len() == vstd::math::min(
                    lim,
                    self.projects@.len() - off,
                ))
                &&& forall|i: int| 0 <= i < r@.len() ==> r@[i] == self.projects@[off + i]
            }),
    {
        slice_projects(&self.projects, limit, offset)
    }

    /// Lists the projects of one owner (at most one per round, ascending by
    /// round), skipping `offset` of them and returning at most `limit`.
    pub fn projects_for_owner(
        &self,
        owner_id: AccountId,
        limit: Option<u32>,
        offset: Option<u32>,
    ) -> (r: Vec<Project>)
        ensures
            ({
                let own = projects_of_owner(self.projects@, owner_id);
                let off = spec_offset(offset);
                let lim = spec_limit(limit);
                &&& (off >= own.len() ==> r@.len() == 0)
                &&& (off < own.len() ==> r@.len() == vstd::math::min(lim, own.len() - off))
                &&& forall|i: int| 0 <= i < r@.len() ==> r@[i] == own[off + i]
            }),
    {
        let ghost ps = self.projects@;
        let ghost keep = owned_by(owner_id);
        let mut mine: Vec<Project> = Vec::new();
        let mut i: usize = 0;
        proof {
            assert(ps.take(0).filter(keep) =~= Seq::<Project>::empty()) by {
                reveal(Seq::filter);
            }
        }
        while i < self.projects.len()
            invariant
                ps == self.projects@,
                i <= ps.len(),
                mine@ =~= ps.take(i as int).filter(keep),
                keep == owned_by(owner_id),
            decreases ps.len() - i,
        {
            if self.projects[i].owner == owner_id {
                mine.push(clone_project(&self.projects[i]));
            }
            proof {
                assert(ps.take(i + 1).drop_last() =~= ps.take(i as int));
                assert(ps.take(i + 1).last() == ps[i as int]);
                assert(ps.take(i + 1).filter(keep) =~= if keep(ps[i as int]) {
                    ps.take(i as int).filter(keep).push(ps[i as int])
                } else {
                    ps.take(i as int).filter(keep)
                }) by {
                    reveal(Seq::filter);
                }
            }
            i = i + 1;
        }
        proof {
            assert(ps.take(ps.len() as int) =~= ps);
        }
        slice_projects(&mine, limit, offset)
    }
}

/// The page start a listing call asks for.
pub open spec fn spec_offset(offset: Option<u32>) -> int {
    if offset is Some {
        offset->0 as int
    } else {
        0
    }
}

/// The page size a listing call asks for.
pub open spec fn spec_limit(limit: Option<u32>) -> int {
    if limit is Some {
        limit->0 as int
    } else {
        u32::MAX as int
    }
}

/// Copies the page `[offset, offset + limit)` of a project list.
fn slice_projects(v: &Vec<Project>, limit: Option<u32>, offset: Option<u32>) -> (r: Vec<Project>)
    ensures
        spec_offset(offset) >= v@.len() ==> r@.len() == 0,
        spec_offset(offset) < v@.len() ==> r@.len() == vstd::math::min(
            spec_limit(limit),
            v@.len() - spec_offset(offset),
        ),
        forall|i: int| 0 <= i < r@.len() ==> r@[i] == v@[spec_offset(offset) + i],
{
    let lim: u32 = match limit {
        Some(l) => l,
        None => u32::MAX,
    };
    let off: u32 = match offset {
        Some(o) => o,
        None => 0,
    };
    let mut r: Vec<Project> = Vec::new();
    if off as usize >= v.len() {
        return r;
    }
    let start = off as usize;
    let mut i: usize = start;
    while i < v.len() && i - start < lim as usize
        invariant
            start <= i <= v@.len(),
            start == off as int,
            start < v@.len(),
            i - start <= lim as int,
            r@.len() == i - start,
            forall|k: int| 0 <= k < r@.len() ==> r@[k] == v@[start + k],
        decreases v@.len() - i,
    {
        r.push(clone_project(&v[i]));
        i = i + 1;
    }
    r
}

} // verus!
