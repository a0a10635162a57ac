use grant::{Contract, Error, RoundStatus};

#[test]
fn test_create_new_round() {
    let mut contract = Contract::init(0);
    let round = contract.sudo_new_default_round(0, 0).unwrap();
    assert_eq!(round.id, 1);
}

#[test]
fn test_round_defaults() {
    let mut contract = Contract::init(0);
    let round = contract.sudo_new_default_round(0, 50).unwrap();
    assert_eq!(round.start_at, 50);
    assert_eq!(round.end_at, 50 + 60 * 60 * 24 * 31);
    assert_eq!(round.vote_cost, grant::DEFAULT_VOTE_COST);
    assert_eq!(round.support_pool, 0);
    assert_eq!(round.pure_support_pool, 0);
    assert_eq!(round.support_area, 0);
    assert!(matches!(round.status, RoundStatus::Active));
    assert_eq!(contract.round(1).unwrap().id, 1);
    assert!(contract.round(2).is_none());
    assert!(contract.round(0).is_none());
}

#[test]
fn test_second_round_while_active_rejected() {
    let mut contract = Contract::init(0);
    contract.sudo_new_round(0, 10, 10, 110).unwrap();
    let second = contract.sudo_new_round(0, 50, 50, 150);
    assert_eq!(second.unwrap_err(), Error::StateConflict);
    // After the window has elapsed the next round may be created.
    let third = contract.sudo_new_round(0, 200, 200, 300).unwrap();
    assert_eq!(third.id, 2);
}

#[test]
fn test_round_creation_validation() {
    let mut contract = Contract::init(0);
    assert_eq!(contract.sudo_new_round(5, 10, 10, 110).unwrap_err(), Error::Authorization);
    assert_eq!(contract.sudo_new_round(0, 10, 110, 110).unwrap_err(), Error::RoundWindow);
    assert_eq!(contract.sudo_new_round(0, 10, 120, 110).unwrap_err(), Error::RoundWindow);
}

#[test]
fn test_finish_round() {
    let mut contract = Contract::init(0);
    contract.sudo_new_round(0, 10, 10, 110).unwrap();
    // Inside the window the round cannot be force-finished.
    assert_eq!(contract.sudo_finish_current_round(0, 60).unwrap_err(), Error::StateConflict);
    let finished = contract.sudo_finish_current_round(0, 200).unwrap();
    assert!(matches!(finished.status, RoundStatus::Finished));
    assert!(matches!(contract.round(1).unwrap().status, RoundStatus::Finished));
}

#[test]
fn test_update_round_requires_danger_flag() {
    let mut contract = Contract::init(0);
    contract.sudo_new_round(0, 10, 10, 110).unwrap();
    let refused = contract.sudo_update_current_round(0, false, None, None, Some(500));
    assert_eq!(refused.unwrap_err(), Error::Authorization);
    let refused = contract.sudo_update_current_round(7, true, None, None, Some(500));
    assert_eq!(refused.unwrap_err(), Error::Authorization);
    let updated = contract.sudo_update_current_round(0, true, None, None, Some(500)).unwrap();
    assert_eq!(updated.end_at, 500);
    assert_eq!(contract.round(1).unwrap().end_at, 500);
    // A merge that leaves the window unordered is rejected.
    let refused = contract.sudo_update_current_round(0, true, None, Some(600), None);
    assert_eq!(refused.unwrap_err(), Error::RoundWindow);
}

#[test]
fn test_donation_split() {
    let mut contract = Contract::init(0);
    contract.sudo_new_round(0, 10, 10, 110).unwrap();
    // Default fee rate is 500 basis points: 5%.
    let round = contract.donate(20, 1000).unwrap();
    assert_eq!(round.support_pool, 950);
    assert_eq!(round.pure_support_pool, 1000);
    let round = contract.donate(30, 99).unwrap();
    // floor(99 * 500 / 10000) = 4, so 95 reaches the pool.
    assert_eq!(round.support_pool, 950 + 95);
    assert_eq!(round.pure_support_pool, 1099);
}

#[test]
fn test_donation_requires_active_round() {
    let mut contract = Contract::init(0);
    assert_eq!(contract.donate(20, 1000).unwrap_err(), Error::NotFound);
    contract.sudo_new_round(0, 10, 10, 110).unwrap();
    assert_eq!(contract.donate(200, 1000).unwrap_err(), Error::RoundWindow);
    assert_eq!(contract.donate(5, 1000).unwrap_err(), Error::RoundWindow);
    assert!(contract.donate(110, 1000).is_ok());
}

#[test]
fn test_rounds_listing() {
    let mut contract = Contract::init(0);
    contract.sudo_new_round(0, 10, 10, 110).unwrap();
    contract.sudo_new_round(0, 200, 200, 300).unwrap();
    contract.sudo_new_round(0, 400, 400, 500).unwrap();
    let all = contract.rounds(None, None);
    assert_eq!(all.len(), 3);
    assert_eq!(all[0].0.id, 1);
    assert_eq!(all[2].0.id, 3);
    let page = contract.rounds(Some(1), Some(1));
    assert_eq!(page.len(), 1);
    assert_eq!(page[0].0.id, 2);
    assert_eq!(contract.rounds(Some(5), Some(3)).len(), 0);
}
