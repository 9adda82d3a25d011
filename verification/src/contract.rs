//! The dispatchers: one call routes one message to its operation.
//!
//! Their contracts restate each operation's `..._post` predicate under the
//! arm of the message that was sent, so a host shell around the library
//! needs nothing but these two functions and `instantiate`.

use vstd::prelude::*;

use crate::error::ContractError;
use crate::execute::{change_fee, change_fee_post, claim, claim_post, deposit_collection_reward,
    deposit_fits, deposit_post, result_view, stake, stake_post, transfer_ownership,
    transfer_ownership_post, unstake, unstake_allowed, unstake_post, whitelist, whitelist_post,
    withdraw_fee, withdraw_fee_post};
use crate::msg::{CollectionResponseView, ConfigResponseView, Env, ExecuteMsg, ExecuteMsgView,
    MessageInfo, MessageInfoView, QueryAnswer, QueryAnswerView, QueryMsg, QueryMsgView, Response,
    StakingResponseView};
use crate::order::lex_lt;
use crate::query::{collection_response_of, get_collections, get_config, get_stakings_by_owner,
    staking_response_of};
use crate::state::{State, StateView};

verus! {

/// What a state-changing call asks of its caller beyond well-formedness:
/// a whitelist call names a positive cycle; a deposit cannot overflow the
/// pool; an unstake call happens at or after the record's start and cannot
/// overflow the collected-fee balance. See the operations' own contracts.
pub open spec fn execute_allowed(
    pre: StateView,
    now: u64,
    info: MessageInfoView,
    msg: ExecuteMsgView,
) -> bool {
    match msg {
        ExecuteMsgView::WhitelistCollection { cycle, .. } => cycle >= 1,
        ExecuteMsgView::DepositCollectionReward { address } => deposit_fits(
            pre,
            address,
            info.funds,
        ),
        ExecuteMsgView::Unstake { index } => unstake_allowed(pre, info, index, now),
        _ => true,
    }
}

/// The dispatched call behaves as the matching operation's contract says.
pub open spec fn execute_post(
    pre: StateView,
    post: StateView,
    now: u64,
    info: MessageInfoView,
    msg: ExecuteMsgView,
    r: Result<crate::msg::ResponseView, ContractError>,
) -> bool {
    match msg {
        ExecuteMsgView::TransferOwnership { address } => transfer_ownership_post(
            pre,
            post,
            info,
            address,
            r,
        ),
        ExecuteMsgView::ChangeFee { fee } => change_fee_post(pre, post, info, fee, r),
        ExecuteMsgView::WhitelistCollection {
            address,
            reward,
            cycle,
            is_whitelisted,
            spots,
            lockup_period,
        } => whitelist_post(
            pre,
            post,
            info,
            address,
            reward,
            cycle,
            is_whitelisted,
            spots,
            lockup_period,
            r,
        ),
        ExecuteMsgView::DepositCollectionReward { address } => deposit_post(
            pre,
            post,
            address,
            info.funds,
            r,
        ),
        ExecuteMsgView::ReceiveNft(m) => stake_post(pre, post, now, info, m, r),
        ExecuteMsgView::Unstake { index } => unstake_post(pre, post, now, info, index, r),
        ExecuteMsgView::ClaimReward { index } => claim_post(pre, post, info, index, r),
        ExecuteMsgView::WithdrawFee { fee } => withdraw_fee_post(pre, post, info, fee, r),
    }
}

/// Routes a state-changing message to its operation.
pub fn execute(state: &mut State, env: &Env, info: &MessageInfo, msg: ExecuteMsg) -> (r: Result<
    Response,
    ContractError,
>)
    requires
        old(state).wf(),
        execute_allowed(old(state)@, env.block_time, info@, msg@),
    ensures
        final(state).wf(),
        execute_post(old(state)@, final(state)@, env.block_time, info@, msg@, result_view(r)),
        r is Err ==> *final(state) == *old(state),
{
    match msg {
        ExecuteMsg::TransferOwnership { address } => transfer_ownership(state, info, address),
        ExecuteMsg::ChangeFee { fee } => change_fee(state, info, fee),
        ExecuteMsg::WhitelistCollection {
            address,
            reward,
            cycle,
            is_whitelisted,
            spots,
            lockup_period,
        } => whitelist(state, info, address, reward, cycle, is_whitelisted, spots, lockup_period),
        ExecuteMsg::DepositCollectionReward { address } => deposit_collection_reward(
            state,
            info,
            address,
        ),
        ExecuteMsg::ReceiveNft(m) => stake(state, env, info, m),
        ExecuteMsg::Unstake { index } => unstake(state, env, info, index),
        ExecuteMsg::ClaimReward { index } => claim(state, info, index),
        ExecuteMsg::WithdrawFee { fee } => withdraw_fee(state, info, fee),
    }
}

/// The config answer reports the configuration as stored.
pub open spec fn config_answer_ok(pre: StateView, c: ConfigResponseView) -> bool {
    &&& c.owner == pre.config.owner
    &&& c.unstake_fee == pre.config.unstake_fee
    &&& c.fee_collected == pre.config.fee_collected
}

/// The collections answer lists exactly the registered collections, each
/// with its stored fields, in ascending address order.
pub open spec fn collections_answer_ok(pre: StateView, cs: Seq<CollectionResponseView>) -> bool {
    &&& forall|i: int|
        0 <= i < cs.len() ==> pre.collections.contains_key((#[trigger] cs[i]).address) && cs[i]
            == collection_response_of(cs[i].address, pre.collections[cs[i].address])
    &&& forall|i: int, j: int|
        0 <= i < j < cs.len() ==> lex_lt((#[trigger] cs[i]).address, (#[trigger] cs[j]).address)
    &&& forall|a: Seq<char>|
        #[trigger] pre.collections.contains_key(a) ==> exists|i: int|
            0 <= i < cs.len() && (#[trigger] cs[i]).address == a
}

/// The stakings answer lists the owner's records in append order.
pub open spec fn stakings_answer_ok(
    pre: StateView,
    owner: Seq<char>,
    ss: Seq<StakingResponseView>,
) -> bool {
    &&& ss.len() == crate::execute::records_of(pre, owner).len()
    &&& forall|i: int|
        0 <= i < ss.len() ==> (#[trigger] ss[i]) == staking_response_of(
            crate::execute::records_of(pre, owner)[i],
        )
}

/// The answered query is the one that was asked, and its content is right.
pub open spec fn query_post(pre: StateView, msg: QueryMsgView, r: QueryAnswerView) -> bool {
    match msg {
        QueryMsgView::GetConfig {  } => match r {
            QueryAnswerView::Config(c) => config_answer_ok(pre, c),
            _ => false,
        },
        QueryMsgView::GetCollections {  } => match r {
            QueryAnswerView::Collections(cs) => collections_answer_ok(pre, cs),
            _ => false,
        },
        QueryMsgView::GetStakingsByOwner { owner } => match r {
            QueryAnswerView::Stakings(ss) => stakings_answer_ok(pre, owner, ss),
            _ => false,
        },
    }
}

/// Routes a read-only message to its projection.
pub fn query(state: &State, msg: QueryMsg) -> (r: QueryAnswer)
    requires
        state.wf(),
    ensures
        query_post(state@, msg@, r@),
{
    match msg {
        QueryMsg::GetConfig {  } => QueryAnswer::Config(get_config(state)),
        QueryMsg::GetCollections {  } => {
            let cs = get_collections(state);
            proof {
                let v = cs@.map_values(|c: crate::msg::CollectionResponse| c@);
                assert forall|i: int|
                    0 <= i < v.len() implies state@.collections.contains_key((
                #[trigger] v[i]).address) && v[i] == collection_response_of(
                    v[i].address,
                    state@.collections[v[i].address],
                ) by {
                    assert(v[i] == cs@[i]@);
                }
                assert forall|i: int, j: int|
                    0 <= i < j < v.len() implies lex_lt(
                    (#[trigger] v[i]).address,
                    (#[trigger] v[j]).address,
                ) by {
                    assert(v[i] == cs@[i]@);
                    assert(v[j] == cs@[j]@);
                }
                assert forall|a: Seq<char>| #[trigger]
                    state@.collections.contains_key(a) implies exists|i: int|
                    0 <= i < v.len() && (#[trigger] v[i]).address == a by {
                    let i = choose|i: int| 0 <= i < cs@.len() && (#[trigger] cs@[i])@.address == a;
                    assert(0 <= i < v.len() && v[i].address == a);
                }
            }
            QueryAnswer::Collections(cs)
        },
        QueryMsg::GetStakingsByOwner { owner } => {
            let ss = get_stakings_by_owner(state, &owner);
            proof {
                let v = ss@.map_values(|s: crate::msg::StakingResponse| s@);
                assert forall|i: int|
                    0 <= i < v.len() implies (#[trigger] v[i]) == staking_response_of(
                    crate::execute::records_of(state@, owner@)[i],
                ) by {
                    assert(v[i] == ss@[i]@);
                }
            }
            QueryAnswer::Stakings(ss)
        },
    }
}

} // verus!
