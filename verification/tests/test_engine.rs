use grant::{Contract, Error, Project};

fn register(contract: &mut Contract, caller: u64, now: u32) -> Project {
    contract
        .new_project(
            caller,
            now,
            format!("project-{}", caller),
            "a description".to_string(),
            "https://example.invalid".to_string(),
            "image".to_string(),
        )
        .unwrap()
}

/// A contract with fee and vote price set to small round numbers.
fn engine(fee_point: u32, vote_cost: u128) -> Contract {
    let mut contract = Contract::init(0);
    contract.sudo_config(0, Some(fee_point), None, Some(vote_cost)).unwrap();
    contract
}

#[test]
fn test_project_registration() {
    let mut contract = engine(500, 1);
    // Without any round the registration target does not exist.
    assert_eq!(
        contract
            .new_project(1, 10, "p".to_string(), "d".to_string(), "u".to_string(), "i".to_string())
            .unwrap_err(),
        Error::NotFound
    );
    contract.sudo_new_round(0, 10, 10, 110).unwrap();
    let project = register(&mut contract, 1, 12);
    assert_eq!(project.round_id, 1);
    assert_eq!(project.owner, 1);
    assert_eq!(project.created_at, 12);
    assert_eq!(project.total_votes, 0);
    // One project per account per round.
    assert_eq!(
        contract
            .new_project(1, 13, "q".to_string(), "d".to_string(), "u".to_string(), "i".to_string())
            .unwrap_err(),
        Error::StateConflict
    );
    assert!(contract.is_project_exists(&(1, 1)));
    assert!(!contract.is_project_exists(&(1, 2)));
    assert_eq!(contract.project((1, 1)).unwrap().owner, 1);
    assert!(contract.project((1, 2)).is_none());
}

#[test]
fn test_vote_weight_series() {
    let mut contract = engine(0, 1);
    contract.sudo_new_round(0, 10, 10, 110).unwrap();
    register(&mut contract, 1, 11);
    // First purchase of 3 units: weight 1 + 2 + 3 = 6.
    let (project, refund) = contract.vote(2, 20, 100, 0, (1, 1), 3).unwrap();
    assert_eq!(project.grants, 6);
    assert_eq!(refund, 100 - 6);
    assert_eq!(contract.voted_of(2, (1, 1)), 3);
    assert_eq!(contract.granted_of(2, (1, 1)), 6);
    // Two more units on top of 3: weight 4 + 5 = 9.
    let (project, _) = contract.vote(2, 21, 100, 0, (1, 1), 2).unwrap();
    assert_eq!(project.grants, 6 + 9);
    assert_eq!(project.total_votes, 5);
    assert_eq!(contract.voted_of(2, (1, 1)), 5);
}

#[test]
fn test_vote_fee_split() {
    let mut contract = engine(500, 1000);
    contract.sudo_new_round(0, 10, 10, 110).unwrap();
    register(&mut contract, 1, 11);
    // weight 6, cost 6000, fee floor(6000 * 500 / 10000) = 300.
    let (project, refund) = contract.vote(2, 20, 10000, 0, (1, 1), 3).unwrap();
    assert_eq!(project.grants, 5700);
    assert_eq!(refund, 10000 - 6000);
    assert_eq!(contract.get_config().fee_amount, 300);
    // Fee plus grant always recombine to the cost.
    assert_eq!(project.grants + contract.get_config().fee_amount, 6000);
}

#[test]
fn test_vote_requirements() {
    let mut contract = engine(0, 1);
    assert_eq!(contract.vote(2, 20, 100, 0, (1, 1), 1).unwrap_err(), Error::NotFound);
    contract.sudo_new_round(0, 10, 10, 110).unwrap();
    register(&mut contract, 1, 11);
    // Outside the window.
    assert_eq!(contract.vote(2, 200, 100, 0, (1, 1), 1).unwrap_err(), Error::RoundWindow);
    // Unknown project inside the active round.
    assert_eq!(contract.vote(2, 20, 100, 0, (1, 9), 1).unwrap_err(), Error::NotFound);
    // Deposit short of the cost: 2 units cost 3.
    assert_eq!(contract.vote(2, 20, 2, 0, (1, 1), 2).unwrap_err(), Error::InsufficientFunds);
    // The storage cost is charged on top of the vote cost.
    assert_eq!(contract.vote(2, 20, 3, 1, (1, 1), 2).unwrap_err(), Error::InsufficientFunds);
    assert_eq!(contract.project((1, 1)).unwrap().total_votes, 0);
    // A later round supersedes the first; votes into the old round are
    // rejected even at a time when its window is active.
    contract.sudo_new_round(0, 200, 200, 300).unwrap();
    assert_eq!(contract.vote(2, 20, 100, 0, (1, 1), 1).unwrap_err(), Error::RoundMismatch);
}

#[test]
fn test_vote_overflow_rejected() {
    let mut contract = engine(0, 1);
    contract.sudo_new_round(0, 10, 10, 110).unwrap();
    register(&mut contract, 1, 11);
    let result = contract.vote(2, 20, u128::MAX, 0, (1, 1), u64::MAX);
    assert_eq!(result.unwrap_err(), Error::ArithmeticOverflow);
    assert_eq!(contract.project((1, 1)).unwrap().total_votes, 0);
}

#[test]
fn test_support_area_accrual() {
    let mut contract = engine(500, 1);
    contract.sudo_new_round(0, 0, 0, 100).unwrap();
    register(&mut contract, 1, 1);
    // First voter: 2 units, weight 3, no support-area yet.
    let (project, _) = contract.vote(2, 5, 1000, 0, (1, 1), 2).unwrap();
    assert_eq!(project.total_votes, 2);
    assert_eq!(project.support_area, 0);
    // Second voter: 1 unit against 2 foreign votes adds area 1 * (2 - 0) = 2.
    let (project, _) = contract.vote(3, 6, 1000, 0, (1, 1), 1).unwrap();
    assert_eq!(project.support_area, 2);
    assert_eq!(contract.round(1).unwrap().support_area, 2);
}

#[test]
fn test_compute_share_active_round_is_zero() {
    let mut contract = engine(0, 1);
    contract.sudo_new_round(0, 10, 10, 110).unwrap();
    register(&mut contract, 1, 11);
    contract.vote(2, 20, 100, 0, (1, 1), 3).unwrap();
    contract.vote(3, 21, 100, 0, (1, 1), 2).unwrap();
    contract.donate(22, 500).unwrap();
    // While the current round is active nothing is settled.
    assert_eq!(contract.grant_for((1, 1), 50).unwrap(), (0, 0));
    // Once the window has elapsed the entitlement resolves.
    let (withdrawable, total) = contract.grant_for((1, 1), 200).unwrap();
    assert!(total > 0);
    assert_eq!(withdrawable, total);
    assert_eq!(contract.grant_for((1, 9), 50).unwrap_err(), Error::NotFound);
}

#[test]
fn test_pool_share_split_and_withdraw() {
    let mut contract = engine(0, 1);
    contract.sudo_new_round(0, 0, 0, 100).unwrap();
    register(&mut contract, 1, 1);
    register(&mut contract, 2, 1);
    // Build support areas 1 (project of account 1) and 2 (project of 2).
    contract.vote(3, 5, 1000, 0, (1, 1), 1).unwrap();
    contract.vote(4, 6, 1000, 0, (1, 1), 1).unwrap();
    contract.vote(3, 7, 1000, 0, (1, 2), 2).unwrap();
    contract.vote(4, 8, 1000, 0, (1, 2), 1).unwrap();
    assert_eq!(contract.round(1).unwrap().support_area, 3);
    contract.donate(9, 100).unwrap();

    let now = 200;
    // Direct grants: 1 + 1 = 2 for the first project, 3 + 1 = 4 for the
    // second. Pool shares: floor(1*100/3) = 33 and floor(2*100/3) = 66.
    assert_eq!(contract.grant_for((1, 1), now).unwrap(), (35, 35));
    assert_eq!(contract.grant_for((1, 2), now).unwrap(), (70, 70));
    // The split hands out 99 of the 100 in the pool; the rounding residual
    // stays behind.
    assert!(33 + 66 <= 100);

    // Requesting more than the withdrawable amount fails without mutation.
    assert_eq!(contract.withdraw((1, 1), 36, now).unwrap_err(), Error::InsufficientFunds);
    assert_eq!(contract.project((1, 1)).unwrap().withdrawn, 0);
    // Partial withdrawals accumulate.
    assert_eq!(contract.withdraw((1, 1), 30, now).unwrap(), (1, 30));
    assert_eq!(contract.grant_for((1, 1), now).unwrap(), (5, 35));
    assert_eq!(contract.withdraw((1, 1), 5, now).unwrap(), (1, 5));
    assert_eq!(contract.project((1, 1)).unwrap().withdrawn, 35);
    // The entitlement is exhausted now.
    assert_eq!(contract.withdraw((1, 1), 1, now).unwrap_err(), Error::InsufficientFunds);
    assert_eq!(contract.withdraw((1, 9), 1, now).unwrap_err(), Error::NotFound);
}

#[test]
fn test_end_to_end_scenario() {
    let mut contract = engine(500, 1);
    let now = 1000;
    contract.sudo_new_round(0, now, now, now + 100).unwrap();
    register(&mut contract, 1, now);
    // Account 2 votes 2 units: weight 3, cost 3 at vote price 1.
    let (project, _) = contract.vote(2, now, 50, 0, (1, 1), 2).unwrap();
    assert_eq!(project.total_votes, 2);
    assert_eq!(project.support_area, 0);
    // Account 3 votes 1 unit: support-area delta 1 * (2 - 0) = 2.
    let (project, _) = contract.vote(3, now + 1, 50, 0, (1, 1), 1).unwrap();
    assert_eq!(project.support_area, 2);
    assert_eq!(contract.round(1).unwrap().support_area, 2);
}

#[test]
fn test_project_listings() {
    let mut contract = engine(0, 1);
    contract.sudo_new_round(0, 0, 0, 100).unwrap();
    register(&mut contract, 2, 1);
    register(&mut contract, 1, 2);
    contract.sudo_new_round(0, 200, 200, 300).unwrap();
    register(&mut contract, 1, 201);

    let all = contract.projects(None, None);
    assert_eq!(all.len(), 3);
    // Ordered by identity: round ascending, then owner ascending.
    assert_eq!((all[0].round_id, all[0].owner), (1, 1));
    assert_eq!((all[1].round_id, all[1].owner), (1, 2));
    assert_eq!((all[2].round_id, all[2].owner), (2, 1));
    let page = contract.projects(Some(1), Some(1));
    assert_eq!(page.len(), 1);
    assert_eq!((page[0].round_id, page[0].owner), (1, 2));

    let mine = contract.projects_for_owner(1, None, None);
    assert_eq!(mine.len(), 2);
    assert_eq!(mine[0].round_id, 1);
    assert_eq!(mine[1].round_id, 2);
    assert_eq!(contract.projects_for_owner(9, None, None).len(), 0);

    let with_counts = contract.rounds(None, None);
    assert_eq!(with_counts[0].1, 2);
    assert_eq!(with_counts[1].1, 1);
}
