use grant::{Contract, Error};

#[test]
fn test_add_and_remove_operator() {
    let mut contract = Contract::init(0);
    assert_eq!(contract.operators().len(), 0);
    contract.extend_operators(0, 1, vec![1, 2]).unwrap();
    assert_eq!(contract.operators(), vec![1, 2]);
    contract.remove_operators(0, 1, vec![2]).unwrap();
    assert_eq!(contract.operators(), vec![1]);
}

#[test]
fn test_operator_can_run_rounds() {
    let mut contract = Contract::init(0);
    contract.extend_operators(0, 1, vec![9]).unwrap();
    let round = contract.sudo_new_round(9, 10, 10, 110).unwrap();
    assert_eq!(round.id, 1);
    assert!(contract.sudo_finish_current_round(9, 200).is_ok());
}

#[test]
fn test_operator_calls_need_confirmation_deposit() {
    let mut contract = Contract::init(0);
    assert_eq!(contract.extend_operators(0, 0, vec![1]).unwrap_err(), Error::Authorization);
    assert_eq!(contract.remove_operators(0, 2, vec![1]).unwrap_err(), Error::Authorization);
    assert_eq!(contract.set_owner(0, 0, 5).unwrap_err(), Error::Authorization);
    assert_eq!(contract.operators().len(), 0);
}

#[test]
fn test_set_owner() {
    let mut contract = Contract::init(0);
    assert_eq!(contract.set_owner(3, 1, 3).unwrap_err(), Error::Authorization);
    contract.set_owner(0, 1, 3).unwrap();
    assert_eq!(contract.get_config().owner_id, 3);
    // The old owner lost the capability.
    assert_eq!(contract.sudo_new_round(0, 10, 10, 110).unwrap_err(), Error::Authorization);
}

#[test]
fn test_config_snapshot_and_update() {
    let mut contract = Contract::init(0);
    let config = contract.get_config();
    assert_eq!(config.owner_id, 0);
    assert_eq!(config.fee_point, 500);
    assert_eq!(config.fee_amount, 0);
    assert_eq!(config.default_duration, 60 * 60 * 24 * 31);
    assert_eq!(config.default_vote_cost, grant::DEFAULT_VOTE_COST);
    assert!(config.current_round.is_none());
    assert_eq!(config.motivation, "In Rust we trust");

    assert_eq!(
        contract.sudo_config(4, Some(100), None, None).unwrap_err(),
        Error::Authorization
    );
    contract.sudo_config(0, Some(100), Some(3600), Some(7)).unwrap();
    let config = contract.get_config();
    assert_eq!(config.fee_point, 100);
    assert_eq!(config.default_duration, 3600);
    assert_eq!(config.default_vote_cost, 7);

    contract.sudo_new_round(0, 10, 10, 110).unwrap();
    let config = contract.get_config();
    assert_eq!(config.current_round.unwrap().id, 1);
    // The round snapshotted the vote price that was current at creation.
    assert_eq!(contract.round(1).unwrap().vote_cost, 7);
}
