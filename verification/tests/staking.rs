use nft_staking::error::ContractError;
use nft_staking::execute::{change_fee, claim, deposit_collection_reward, instantiate, stake,
    transfer_ownership, unstake, whitelist, withdraw_fee};
use nft_staking::msg::{Env, Event, InstantiateMsg, MessageInfo, OutMsg, UniversalNftReceiveMsg};
use nft_staking::query::{get_config, get_collections, get_stakings_by_owner};
use nft_staking::state::{coin, Coin, State};

fn info(sender: &str) -> MessageInfo {
    MessageInfo { sender: sender.to_string(), funds: vec![] }
}

fn info_with(sender: &str, funds: Vec<Coin>) -> MessageInfo {
    MessageInfo { sender: sender.to_string(), funds }
}

fn env(block_time: u64) -> Env {
    Env { block_time }
}

fn receive(sender: &str, token_id: &str) -> UniversalNftReceiveMsg {
    UniversalNftReceiveMsg {
        sender: sender.to_string(),
        token_id: token_id.to_string(),
        msg: vec![],
        edition: None,
    }
}

fn new_state(owner: &str, unstake_fee: Coin) -> State {
    instantiate(&info(owner), InstantiateMsg { unstake_fee }).0
}

const WEEK: u64 = 604_800;

#[test]
fn test_staking() {
    let owner = "owner";
    let mut state = new_state(owner, coin(0, "inj"));
    assert_eq!(get_config(&state).owner, "owner");

    let collection = "cw721base";
    whitelist(
        &mut state,
        &info(owner),
        collection.to_string(),
        coin(10, "inj"),
        WEEK,
        true,
        1000,
        Some(0),
    )
    .unwrap();

    let cols = get_collections(&state);
    assert_eq!(cols.len(), 1);
    assert_eq!(cols[0].address, collection);
    assert_eq!(cols[0].reward, coin(10, "inj"));
    assert_eq!(cols[0].cycle, WEEK);
    assert_eq!(cols[0].is_whitelisted, true);
    assert_eq!(cols[0].spots, 1000);

    transfer_ownership(&mut state, &info(owner), "new_owner".to_string()).unwrap();
    assert_eq!(get_config(&state).owner, "new_owner");

    let t = 1_000_000;
    stake(&mut state, &env(t), &info(collection), receive(owner, "0")).unwrap();
    let recs = get_stakings_by_owner(&state, &owner.to_string());
    assert_eq!(recs.len(), 1);
    assert_eq!(recs[0].token_address, collection);
    assert_eq!(recs[0].token_id, "0");
    assert_ne!(recs[0].start_timestamp, 0);
    assert_eq!(recs[0].end_timestamp, 0);
    assert_eq!(recs[0].is_paid, false);

    let resp = unstake(&mut state, &env(t), &info(owner), 0).unwrap();
    assert_eq!(
        resp.messages,
        vec![OutMsg::TransferNft {
            contract_addr: collection.to_string(),
            recipient: owner.to_string(),
            token_id: "0".to_string(),
        }]
    );
    let recs = get_stakings_by_owner(&state, &owner.to_string());
    assert_ne!(recs[0].end_timestamp, 0);
    assert_eq!(recs[0].is_paid, false);

    claim(&mut state, &info(owner), 0).unwrap();
    let recs = get_stakings_by_owner(&state, &owner.to_string());
    assert_ne!(recs[0].start_timestamp, 0);
    assert_ne!(recs[0].end_timestamp, 0);
    assert_eq!(recs[0].is_paid, true);
}

#[test]
fn full_cycle_scenario() {
    let owner = "owner";
    let staker = "alice";
    let collection = "talis721";
    let mut state = new_state(owner, coin(0, "inj"));
    whitelist(
        &mut state,
        &info(owner),
        collection.to_string(),
        coin(10, "inj"),
        WEEK,
        true,
        1000,
        Some(0),
    )
    .unwrap();
    deposit_collection_reward(
        &mut state,
        &info_with("anyone", vec![coin(50, "inj")]),
        collection.to_string(),
    )
    .unwrap();
    assert_eq!(state.collections[0].collection.pool_amount, 50);

    stake(&mut state, &env(0), &info(collection), receive(staker, "0")).unwrap();
    assert_eq!(
        claim(&mut state, &info(staker), 0).unwrap_err(),
        ContractError::NotUnstaked
    );

    let resp = unstake(&mut state, &env(WEEK), &info(staker), 0).unwrap();
    assert_eq!(
        resp.messages,
        vec![OutMsg::TransferNft {
            contract_addr: collection.to_string(),
            recipient: staker.to_string(),
            token_id: "0".to_string(),
        }]
    );

    let resp = claim(&mut state, &info(staker), 0).unwrap();
    assert_eq!(
        resp.messages,
        vec![OutMsg::BankSend {
            to_address: staker.to_string(),
            amount: vec![coin(10, "inj")],
        }]
    );
    assert_eq!(
        resp.events,
        vec![Event::Claimed {
            token_address: collection.to_string(),
            token_id: "0".to_string(),
            owner: staker.to_string(),
            start_timestamp: 0,
            end_timestamp: WEEK,
            reward: coin(10, "inj"),
            index: 0,
        }]
    );
    assert_eq!(state.collections[0].collection.pool_amount, 40);
    assert!(get_stakings_by_owner(&state, &staker.to_string())[0].is_paid);

    assert_eq!(
        claim(&mut state, &info(staker), 0).unwrap_err(),
        ContractError::RewardAlreadyClaimed
    );
    assert_eq!(state.collections[0].collection.pool_amount, 40);
}

#[test]
fn pool_accounting_concrete() {
    let owner = "owner";
    let staker = "bob";
    let collection = "col";
    let mut state = new_state(owner, coin(0, "inj"));
    whitelist(
        &mut state,
        &info(owner),
        collection.to_string(),
        coin(10, "inj"),
        WEEK,
        true,
        10,
        Some(0),
    )
    .unwrap();
    deposit_collection_reward(
        &mut state,
        &info_with("x", vec![coin(50, "inj")]),
        collection.to_string(),
    )
    .unwrap();
    deposit_collection_reward(
        &mut state,
        &info_with("y", vec![coin(30, "inj")]),
        collection.to_string(),
    )
    .unwrap();
    assert_eq!(state.collections[0].collection.pool_amount, 80);

    stake(&mut state, &env(0), &info(collection), receive(staker, "7")).unwrap();
    unstake(&mut state, &env(WEEK), &info(staker), 0).unwrap();
    claim(&mut state, &info(staker), 0).unwrap();
    assert_eq!(state.collections[0].collection.pool_amount, 50 + 30 - 10);
}

#[test]
fn whitelist_preserves_pool() {
    let owner = "owner";
    let collection = "col";
    let mut state = new_state(owner, coin(0, "inj"));
    whitelist(
        &mut state,
        &info(owner),
        collection.to_string(),
        coin(10, "inj"),
        WEEK,
        true,
        10,
        None,
    )
    .unwrap();
    deposit_collection_reward(
        &mut state,
        &info_with("x", vec![coin(50, "inj")]),
        collection.to_string(),
    )
    .unwrap();
    whitelist(
        &mut state,
        &info(owner),
        collection.to_string(),
        coin(99, "inj"),
        2 * WEEK,
        false,
        3,
        Some(7),
    )
    .unwrap();
    assert_eq!(state.collections[0].collection.pool_amount, 50);
    assert_eq!(state.collections[0].collection.reward, coin(99, "inj"));
    assert_eq!(state.collections[0].collection.cycle, 2 * WEEK);
    assert_eq!(state.collections[0].collection.is_whitelisted, false);
    assert_eq!(state.collections[0].collection.spots, 3);
    assert_eq!(state.collections[0].collection.lockup_period, 7);
}

#[test]
fn unstake_twice_fails() {
    let owner = "owner";
    let staker = "bob";
    let collection = "col";
    let mut state = new_state(owner, coin(0, "inj"));
    whitelist(
        &mut state,
        &info(owner),
        collection.to_string(),
        coin(10, "inj"),
        WEEK,
        true,
        10,
        Some(0),
    )
    .unwrap();
    stake(&mut state, &env(5), &info(collection), receive(staker, "1")).unwrap();
    unstake(&mut state, &env(10), &info(staker), 0).unwrap();
    assert_eq!(
        unstake(&mut state, &env(20), &info(staker), 0).unwrap_err(),
        ContractError::AlreadyUnstaked
    );
}

#[test]
fn pool_exhaustion_keeps_record_claimable() {
    let owner = "owner";
    let staker = "bob";
    let collection = "col";
    let mut state = new_state(owner, coin(0, "inj"));
    whitelist(
        &mut state,
        &info(owner),
        collection.to_string(),
        coin(10, "inj"),
        WEEK,
        true,
        10,
        Some(0),
    )
    .unwrap();
    stake(&mut state, &env(0), &info(collection), receive(staker, "1")).unwrap();
    unstake(&mut state, &env(WEEK), &info(staker), 0).unwrap();
    assert_eq!(
        claim(&mut state, &info(staker), 0).unwrap_err(),
        ContractError::NotEnoughRewardPool
    );
    // pool sufficiency is validated before the record is marked settled, so
    // a later funded claim still succeeds
    assert_eq!(get_stakings_by_owner(&state, &staker.to_string())[0].is_paid, false);
    deposit_collection_reward(
        &mut state,
        &info_with("x", vec![coin(10, "inj")]),
        collection.to_string(),
    )
    .unwrap();
    claim(&mut state, &info(staker), 0).unwrap();
    assert_eq!(get_stakings_by_owner(&state, &staker.to_string())[0].is_paid, true);
    assert_eq!(state.collections[0].collection.pool_amount, 0);
}

#[test]
fn early_unstake_charges_fee() {
    let owner = "owner";
    let staker = "bob";
    let collection = "col";
    let mut state = new_state(owner, coin(7, "inj"));
    whitelist(
        &mut state,
        &info(owner),
        collection.to_string(),
        coin(10, "inj"),
        WEEK,
        true,
        10,
        None,
    )
    .unwrap();
    stake(&mut state, &env(1_000), &info(collection), receive(staker, "1")).unwrap();
    // within the default thirty-day lockup, without the fee attached
    assert_eq!(
        unstake(&mut state, &env(2_000), &info(staker), 0).unwrap_err(),
        ContractError::NotEnoughUnstakeFee
    );
    // with exactly the configured fee attached
    unstake(
        &mut state,
        &env(2_000),
        &info_with(staker, vec![coin(7, "inj")]),
        0,
    )
    .unwrap();
    assert_eq!(state.config.fee_collected, 7);

    assert_eq!(
        withdraw_fee(&mut state, &info(owner), coin(8, "inj")).unwrap_err(),
        ContractError::NotEnoughFeeCollected
    );
    let resp = withdraw_fee(&mut state, &info(owner), coin(7, "inj")).unwrap();
    assert_eq!(state.config.fee_collected, 0);
    assert_eq!(
        resp.messages,
        vec![OutMsg::BankSend {
            to_address: owner.to_string(),
            amount: vec![coin(7, "inj")],
        }]
    );
}

#[test]
fn admin_calls_are_owner_only() {
    let owner = "owner";
    let mut state = new_state(owner, coin(0, "inj"));
    assert_eq!(
        whitelist(
            &mut state,
            &info("mallory"),
            "col".to_string(),
            coin(10, "inj"),
            WEEK,
            true,
            10,
            None,
        )
        .unwrap_err(),
        ContractError::Unauthorized
    );
    assert_eq!(
        transfer_ownership(&mut state, &info("mallory"), "mallory".to_string()).unwrap_err(),
        ContractError::Unauthorized
    );
    assert_eq!(
        change_fee(&mut state, &info("mallory"), coin(1, "inj")).unwrap_err(),
        ContractError::Unauthorized
    );
    assert_eq!(
        withdraw_fee(&mut state, &info("mallory"), coin(1, "inj")).unwrap_err(),
        ContractError::Unauthorized
    );
    assert_eq!(get_config(&state).owner, "owner");
}

#[test]
fn stake_needs_registered_collection() {
    let owner = "owner";
    let mut state = new_state(owner, coin(0, "inj"));
    assert_eq!(
        stake(&mut state, &env(1), &info("unknown721"), receive("bob", "1")).unwrap_err(),
        ContractError::NotWhitelisted
    );
}

#[test]
fn record_references_must_be_in_range() {
    let owner = "owner";
    let staker = "bob";
    let collection = "col";
    let mut state = new_state(owner, coin(0, "inj"));
    whitelist(
        &mut state,
        &info(owner),
        collection.to_string(),
        coin(10, "inj"),
        WEEK,
        true,
        10,
        Some(0),
    )
    .unwrap();
    assert_eq!(
        unstake(&mut state, &env(1), &info(staker), 0).unwrap_err(),
        ContractError::WrongIndex
    );
    stake(&mut state, &env(1), &info(collection), receive(staker, "1")).unwrap();
    assert_eq!(
        unstake(&mut state, &env(2), &info(staker), 5).unwrap_err(),
        ContractError::WrongIndex
    );
    assert_eq!(
        claim(&mut state, &info(staker), 5).unwrap_err(),
        ContractError::WrongIndex
    );
}

#[test]
fn deposit_needs_collection_and_matching_fund() {
    let owner = "owner";
    let collection = "col";
    let mut state = new_state(owner, coin(0, "inj"));
    assert_eq!(
        deposit_collection_reward(
            &mut state,
            &info_with("x", vec![coin(5, "inj")]),
            "unknown".to_string(),
        )
        .unwrap_err(),
        ContractError::Unknown
    );
    whitelist(
        &mut state,
        &info(owner),
        collection.to_string(),
        coin(10, "inj"),
        WEEK,
        true,
        10,
        None,
    )
    .unwrap();
    assert_eq!(
        deposit_collection_reward(
            &mut state,
            &info_with("x", vec![coin(5, "atom")]),
            collection.to_string(),
        )
        .unwrap_err(),
        ContractError::Unknown
    );
    // the first fund in the reward denomination counts
    deposit_collection_reward(
        &mut state,
        &info_with("x", vec![coin(5, "atom"), coin(12, "inj"), coin(9, "inj")]),
        collection.to_string(),
    )
    .unwrap();
    assert_eq!(state.collections[0].collection.pool_amount, 12);
}

#[test]
fn change_fee_replaces_fee() {
    let owner = "owner";
    let mut state = new_state(owner, coin(3, "inj"));
    let resp = change_fee(&mut state, &info(owner), coin(9, "atom")).unwrap();
    assert_eq!(get_config(&state).unstake_fee, coin(9, "atom"));
    assert_eq!(
        resp.events,
        vec![Event::FeeChanged { old_fee: coin(3, "inj"), new_fee: coin(9, "atom") }]
    );
}

#[test]
fn collections_listed_in_ascending_address_order() {
    let owner = "owner";
    let mut state = new_state(owner, coin(0, "inj"));
    for addr in ["bravo", "alpha", "charlie"] {
        whitelist(
            &mut state,
            &info(owner),
            addr.to_string(),
            coin(1, "inj"),
            WEEK,
            true,
            1,
            None,
        )
        .unwrap();
    }
    let cols = get_collections(&state);
    let names: Vec<&str> = cols.iter().map(|c| c.address.as_str()).collect();
    assert_eq!(names, vec!["alpha", "bravo", "charlie"]);
}

#[test]
fn stakings_by_owner_keeps_append_order() {
    let owner = "owner";
    let staker = "bob";
    let collection = "col";
    let mut state = new_state(owner, coin(0, "inj"));
    whitelist(
        &mut state,
        &info(owner),
        collection.to_string(),
        coin(1, "inj"),
        WEEK,
        true,
        10,
        Some(0),
    )
    .unwrap();
    stake(&mut state, &env(1), &info(collection), receive(staker, "a")).unwrap();
    stake(&mut state, &env(2), &info(collection), receive(staker, "b")).unwrap();
    stake(&mut state, &env(3), &info(collection), receive(staker, "c")).unwrap();
    let recs = get_stakings_by_owner(&state, &staker.to_string());
    assert_eq!(recs.len(), 3);
    assert_eq!(recs[0].token_id, "a");
    assert_eq!(recs[1].token_id, "b");
    assert_eq!(recs[2].token_id, "c");
    assert!(get_stakings_by_owner(&state, &"nobody".to_string()).is_empty());

    // withdrawing the middle record leaves the others in custody
    unstake(&mut state, &env(10), &info(staker), 1).unwrap();
    let recs = get_stakings_by_owner(&state, &staker.to_string());
    assert_eq!(recs[0].end_timestamp, 0);
    assert_eq!(recs[1].end_timestamp, 10);
    assert_eq!(recs[2].end_timestamp, 0);
}
