use nft_staking::msg::{Env, InstantiateMsg, MessageInfo, QueryAnswer, QueryMsg};
use nft_staking::contract::{execute, query};
use nft_staking::execute::instantiate;
use nft_staking::msg::ExecuteMsg;
use nft_staking::reward::compute_reward;
use nft_staking::state::{coin, Collection, Staking};

fn info(sender: &str) -> MessageInfo {
    MessageInfo { sender: sender.to_string(), funds: vec![] }
}

#[test]
fn reward_half_cycle() {
    assert_eq!(compute_reward(10, 604_800, 302_400), 5);
}

#[test]
fn reward_one_full_cycle() {
    assert_eq!(compute_reward(10, 604_800, 604_800), 10);
}

#[test]
fn reward_clamped_beyond_one_cycle() {
    assert_eq!(compute_reward(10, 604_800, 1_209_600), 10);
}

#[test]
fn reward_truncates_small_fractions() {
    assert_eq!(compute_reward(10, 604_800, 60_479), 0);
    assert_eq!(compute_reward(10, 604_800, 60_480), 1);
}

#[test]
fn reward_large_amount_does_not_overflow() {
    assert_eq!(compute_reward(u128::MAX, 604_800, 302_400), u128::MAX / 2);
    assert_eq!(compute_reward(u128::MAX, 1, u64::MAX), u128::MAX);
}

#[test]
fn collection_default_values() {
    let c = Collection::default();
    assert_eq!(c.reward, coin(0, "inj"));
    assert_eq!(c.cycle, 604_800);
    assert_eq!(c.is_whitelisted, true);
    assert_eq!(c.spots, 0);
    assert_eq!(c.lockup_period, 2_592_000);
    assert_eq!(c.pool_amount, 0);
}

#[test]
fn collection_new_keeps_fields() {
    let c = Collection::new(coin(5, "inj"), 100, false, 7, 3, 42);
    assert_eq!(c.reward, coin(5, "inj"));
    assert_eq!(c.cycle, 100);
    assert_eq!(c.is_whitelisted, false);
    assert_eq!(c.spots, 7);
    assert_eq!(c.lockup_period, 3);
    assert_eq!(c.pool_amount, 42);
}

#[test]
fn staking_record_constructors() {
    let s = Staking::default();
    assert_eq!(s.token_address, "");
    assert_eq!(s.token_id, "");
    assert_eq!(s.start_timestamp, 0);
    assert_eq!(s.end_timestamp, 0);
    assert_eq!(s.is_paid, false);

    let s = Staking::new("col".to_string(), "9".to_string(), 55, false);
    assert_eq!(s.token_address, "col");
    assert_eq!(s.token_id, "9");
    assert_eq!(s.start_timestamp, 55);
    assert_eq!(s.end_timestamp, 0);
    assert_eq!(s.is_paid, false);
}

#[test]
fn dispatchers_route_messages() {
    let owner = "owner";
    let (mut state, resp) = instantiate(
        &info(owner),
        InstantiateMsg { unstake_fee: coin(2, "inj") },
    );
    assert_eq!(resp.events.len(), 1);

    execute(
        &mut state,
        &Env { block_time: 0 },
        &info(owner),
        ExecuteMsg::WhitelistCollection {
            address: "col".to_string(),
            reward: coin(10, "inj"),
            cycle: 604_800,
            is_whitelisted: true,
            spots: 9,
            lockup_period: None,
        },
    )
    .unwrap();

    match query(&state, QueryMsg::GetConfig {}) {
        QueryAnswer::Config(c) => {
            assert_eq!(c.owner, "owner");
            assert_eq!(c.unstake_fee, coin(2, "inj"));
            assert_eq!(c.fee_collected, 0);
        },
        _ => panic!("wrong answer kind"),
    }
    match query(&state, QueryMsg::GetCollections {}) {
        QueryAnswer::Collections(cs) => {
            assert_eq!(cs.len(), 1);
            assert_eq!(cs[0].address, "col");
        },
        _ => panic!("wrong answer kind"),
    }
    match query(&state, QueryMsg::GetStakingsByOwner { owner: "nobody".to_string() }) {
        QueryAnswer::Stakings(ss) => assert!(ss.is_empty()),
        _ => panic!("wrong answer kind"),
    }
}
