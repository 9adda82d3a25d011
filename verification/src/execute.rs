//! The state-changing operations.
//!
//! Every operation is a pure transition on a [`State`]: it validates, applies
//! the change, and returns the events and outgoing instructions the host
//! should record and carry out. A failed call leaves the state exactly as it
//! was. Each operation's full behaviour is a named `..._post` predicate over
//! the state views, shared with the dispatcher.

use vstd::prelude::*;

use crate::error::ContractError;
use crate::msg::{coins_view, Env, Event, EventView, InstantiateMsg, MessageInfo, MessageInfoView,
    OutMsg, OutMsgView, Response, ResponseView, UniversalNftReceiveMsg,
    UniversalNftReceiveMsgView};
use crate::order::lex_lt;
use crate::state::{coin, coin_eq, coll_assoc, find_collection, find_ledger, ledger_assoc,
    lemma_assoc_map_dom, lemma_assoc_map_index, lemma_assoc_map_insert_at, lemma_assoc_map_update,
    lemma_wf_after_config_change, lemma_wf_after_ledger_update, lemma_wf_after_registry_update,
    records_view, Coin, CoinView, Collection, CollectionEntry, CollectionView, Config, LedgerEntry,
    Staking, StakingView, State, StateView, DEFAULT_LOCKUP_SECONDS};

verus! {

/// The view of an operation's outcome.
pub open spec fn result_view(r: Result<Response, ContractError>) -> Result<
    ResponseView,
    ContractError,
> {
    match r {
        Ok(resp) => Ok(resp@),
        Err(e) => Err(e),
    }
}

/// Pure guard: fails with `Unauthorized` when the caller is not the stored
/// owner. Used by every admin-scoped operation.
pub fn check_contract_owner_only(info: &MessageInfo, config: &Config) -> (r: Result<
    bool,
    ContractError,
>)
    ensures
        info@.sender == config@.owner ==> r == Ok::<bool, ContractError>(true),
        info@.sender != config@.owner ==> r == Err::<bool, ContractError>(
            ContractError::Unauthorized,
        ),
{
    if config.owner == info.sender {
        Ok(true)
    } else {
        Err(ContractError::Unauthorized)
    }
}

/// What initialization establishes: the caller owns the contract, the fee
/// balance starts at zero, and both stores start empty.
pub open spec fn instantiate_post(
    post: StateView,
    info: MessageInfoView,
    msg_fee: CoinView,
    resp: ResponseView,
) -> bool {
    &&& post.config.owner == info.sender
    &&& post.config.unstake_fee == msg_fee
    &&& post.config.fee_collected == 0
    &&& post.collections =~= Map::<Seq<char>, CollectionView>::empty()
    &&& post.stakings =~= Map::<Seq<char>, Seq<StakingView>>::empty()
    &&& resp.events =~= seq![
        EventView::Instantiated { contract_owner: info.sender, unstake_fee: msg_fee },
    ]
    &&& resp.messages.len() == 0
}

/// Creates the contract state. Runs exactly once, at creation: the caller
/// becomes the owner and the caller-supplied unstake fee is recorded.
pub fn instantiate(info: &MessageInfo, msg: InstantiateMsg) -> (r: (State, Response))
    ensures
        r.0.wf(),
        instantiate_post(r.0@, info@, msg.unstake_fee@, r.1@),
{
    let state = State {
        config: Config {
            owner: info.sender.clone(),
            unstake_fee: msg.unstake_fee,
            fee_collected: 0,
        },
        collections: Vec::new(),
        stakings: Vec::new(),
    };
    let mut events: Vec<Event> = Vec::new();
    events.push(
        Event::Instantiated {
            contract_owner: state.config.owner.clone(),
            unstake_fee: state.config.unstake_fee.duplicate(),
        },
    );
    let resp = Response { events, messages: Vec::new() };
    proof {
        assert(coll_assoc(state.collections@) =~= Seq::empty());
        assert(ledger_assoc(state.stakings@) =~= Seq::empty());
        assert(resp@.events =~= seq![
            EventView::Instantiated { contract_owner: info@.sender, unstake_fee: msg.unstake_fee@ },
        ]);
    }
    (state, resp)
}

/// What transferring ownership does: owner-only; replaces the owner and
/// reports the old and new one; everything else is untouched.
pub open spec fn transfer_ownership_post(
    pre: StateView,
    post: StateView,
    info: MessageInfoView,
    new_owner: Seq<char>,
    r: Result<ResponseView, ContractError>,
) -> bool {
    match r {
        Ok(resp) => {
            &&& info.sender == pre.config.owner
            &&& post.config.owner == new_owner
            &&& post.config.unstake_fee == pre.config.unstake_fee
            &&& post.config.fee_collected == pre.config.fee_collected
            &&& post.collections == pre.collections
            &&& post.stakings == pre.stakings
            &&& resp.events =~= seq![
                EventView::OwnershipTransferred { old_owner: pre.config.owner, new_owner },
            ]
            &&& resp.messages.len() == 0
        },
        Err(e) => {
            &&& e == ContractError::Unauthorized
            &&& info.sender != pre.config.owner
            &&& post == pre
        },
    }
}

/// Replaces the contract owner.
pub fn transfer_ownership(state: &mut State, info: &MessageInfo, new_owner: String) -> (r: Result<
    Response,
    ContractError,
>)
    requires
        old(state).wf(),
    ensures
        final(state).wf(),
        transfer_ownership_post(old(state)@, final(state)@, info@, new_owner@, result_view(r)),
        r is Err ==> *final(state) == *old(state),
{
    if let Err(e) = check_contract_owner_only(info, &state.config) {
        return Err(e);
    }
    let old_owner = state.config.owner.clone();
    state.config.owner = new_owner;
    let mut events: Vec<Event> = Vec::new();
    events.push(
        Event::OwnershipTransferred { old_owner, new_owner: state.config.owner.clone() },
    );
    let resp = Response { events, messages: Vec::new() };
    proof {
        lemma_wf_after_config_change(*old(state), *state);
        assert(resp@.events =~= seq![
            EventView::OwnershipTransferred {
                old_owner: old(state)@.config.owner,
                new_owner: state@.config.owner,
            },
        ]);
    }
    Ok(resp)
}

/// What changing the unstake fee does: owner-only; replaces the fee and
/// reports the old and new one; everything else is untouched.
pub open spec fn change_fee_post(
    pre: StateView,
    post: StateView,
    info: MessageInfoView,
    new_fee: CoinView,
    r: Result<ResponseView, ContractError>,
) -> bool {
    match r {
        Ok(resp) => {
            &&& info.sender == pre.config.owner
            &&& post.config.owner == pre.config.owner
            &&& post.config.unstake_fee == new_fee
            &&& post.config.fee_collected == pre.config.fee_collected
            &&& post.collections == pre.collections
            &&& post.stakings == pre.stakings
            &&& resp.events =~= seq![
                EventView::FeeChanged { old_fee: pre.config.unstake_fee, new_fee },
            ]
            &&& resp.messages.len() == 0
        },
        Err(e) => {
            &&& e == ContractError::Unauthorized
            &&& info.sender != pre.config.owner
            &&& post == pre
        },
    }
}

/// Replaces the fee charged for an early unstake.
pub fn change_fee(state: &mut State, info: &MessageInfo, new_fee: Coin) -> (r: Result<
    Response,
    ContractError,
>)
    requires
        old(state).wf(),
    ensures
        final(state).wf(),
        change_fee_post(old(state)@, final(state)@, info@, new_fee@, result_view(r)),
        r is Err ==> *final(state) == *old(state),
{
    if let Err(e) = check_contract_owner_only(info, &state.config) {
        return Err(e);
    }
    let old_fee = state.config.unstake_fee.duplicate();
    state.config.unstake_fee = new_fee;
    let mut events: Vec<Event> = Vec::new();
    events.push(
        Event::FeeChanged { old_fee, new_fee: state.config.unstake_fee.duplicate() },
    );
    let resp = Response { events, messages: Vec::new() };
    proof {
        lemma_wf_after_config_change(*old(state), *state);
        assert(resp@.events =~= seq![
            EventView::FeeChanged {
                old_fee: old(state)@.config.unstake_fee,
                new_fee: state@.config.unstake_fee,
            },
        ]);
    }
    Ok(resp)
}

/// What withdrawing collected fees does: owner-only; fails when more is
/// asked than has been collected, else decrements the collected balance
/// before issuing the payout, so the same fee cannot be withdrawn twice.
pub open spec fn withdraw_fee_post(
    pre: StateView,
    post: StateView,
    info: MessageInfoView,
    fee: CoinView,
    r: Result<ResponseView, ContractError>,
) -> bool {
    match r {
        Ok(resp) => {
            &&& info.sender == pre.config.owner
            &&& fee.amount <= pre.config.fee_collected
            &&& post.config.owner == pre.config.owner
            &&& post.config.unstake_fee == pre.config.unstake_fee
            &&& post.config.fee_collected == pre.config.fee_collected - fee.amount
            &&& post.collections == pre.collections
            &&& post.stakings == pre.stakings
            &&& resp.events =~= seq![EventView::FeeWithdrawn { address: info.sender, fee }]
            &&& resp.messages =~~= seq![
                OutMsgView::BankSend { to_address: info.sender, amount: seq![fee] },
            ]
        },
        Err(e) => {
            &&& post == pre
            &&& ((e == ContractError::Unauthorized && info.sender != pre.config.owner) || (e
                == ContractError::NotEnoughFeeCollected && info.sender == pre.config.owner
                && fee.amount > pre.config.fee_collected))
        },
    }
}

/// Pays out part of the collected unstake fees to the owner.
pub fn withdraw_fee(state: &mut State, info: &MessageInfo, fee: Coin) -> (r: Result<
    Response,
    ContractError,
>)
    requires
        old(state).wf(),
    ensures
        final(state).wf(),
        withdraw_fee_post(old(state)@, final(state)@, info@, fee@, result_view(r)),
        r is Err ==> *final(state) == *old(state),
{
    let ghost fee_view = fee@;
    if let Err(e) = check_contract_owner_only(info, &state.config) {
        return Err(e);
    }
    if fee.amount > state.config.fee_collected {
        return Err(ContractError::NotEnoughFeeCollected);
    }
    state.config.fee_collected = state.config.fee_collected - fee.amount;
    let mut events: Vec<Event> = Vec::new();
    events.push(
        Event::FeeWithdrawn { address: info.sender.clone(), fee: fee.duplicate() },
    );
    let mut amount: Vec<Coin> = Vec::new();
    amount.push(fee);
    let mut messages: Vec<OutMsg> = Vec::new();
    messages.push(OutMsg::BankSend { to_address: info.sender.clone(), amount });
    let resp = Response { events, messages };
    proof {
        lemma_wf_after_config_change(*old(state), *state);
        assert(resp@.events =~= seq![
            EventView::FeeWithdrawn { address: info@.sender, fee: fee_view },
        ]);
        assert(resp@.messages =~~= seq![
            OutMsgView::BankSend { to_address: info@.sender, amount: seq![fee_view] },
        ]);
    }
    Ok(resp)
}

/// The lockup period a whitelist call configures: the given one, or the
/// default when none is supplied.
pub open spec fn spec_lockup(lockup_period: Option<u64>) -> u64 {
    match lockup_period {
        Some(l) => l,
        None => DEFAULT_LOCKUP_SECONDS,
    }
}

/// The pool balance a collection holds before a call: zero when it is not
/// registered yet.
pub open spec fn pool_of(pre: StateView, address: Seq<char>) -> u128 {
    if pre.collections.contains_key(address) {
        pre.collections[address].pool_amount
    } else {
        0
    }
}

/// What whitelisting does: owner-only; an unseen collection is created with
/// an empty pool, a registered one gets its reward, cycle, flag, capacity
/// and lockup overwritten while its pool balance survives.
pub open spec fn whitelist_post(
    pre: StateView,
    post: StateView,
    info: MessageInfoView,
    address: Seq<char>,
    reward: CoinView,
    cycle: u64,
    is_whitelisted: bool,
    spots: u64,
    lockup_period: Option<u64>,
    r: Result<ResponseView, ContractError>,
) -> bool {
    match r {
        Ok(resp) => {
            &&& info.sender == pre.config.owner
            &&& post.config == pre.config
            &&& post.stakings == pre.stakings
            &&& post.collections =~= pre.collections.insert(
                address,
                (CollectionView {
                    reward,
                    cycle,
                    is_whitelisted,
                    spots,
                    lockup_period: spec_lockup(lockup_period),
                    pool_amount: pool_of(pre, address),
                }),
            )
            &&& resp.events =~= seq![
                EventView::CollectionWhitelisted {
                    address,
                    reward,
                    cycle,
                    is_whitelisted,
                    spots,
                    lockup_period: spec_lockup(lockup_period),
                },
            ]
            &&& resp.messages.len() == 0
        },
        Err(e) => {
            &&& e == ContractError::Unauthorized
            &&& info.sender != pre.config.owner
            &&& post == pre
        },
    }
}

/// Registers a collection for staking, or reconfigures a registered one.
/// The pool balance survives re-whitelisting.
pub fn whitelist(
    state: &mut State,
    info: &MessageInfo,
    address: String,
    reward: Coin,
    cycle: u64,
    is_whitelisted: bool,
    spots: u64,
    lockup_period: Option<u64>,
) -> (r: Result<Response, ContractError>)
    requires
        old(state).wf(),
        cycle >= 1,
    ensures
        final(state).wf(),
        whitelist_post(
            old(state)@,
            final(state)@,
            info@,
            address@,
            reward@,
            cycle,
            is_whitelisted,
            spots,
            lockup_period,
            result_view(r),
        ),
        r is Err ==> *final(state) == *old(state),
{
    let ghost reward_view = reward@;
    if let Err(e) = check_contract_owner_only(info, &state.config) {
        return Err(e);
    }
    let reward_reported = reward.duplicate();
    let lockup = match lockup_period {
        Some(l) => l,
        None => DEFAULT_LOCKUP_SECONDS,
    };
    let ghost new_view = (CollectionView {
        reward: reward_view,
        cycle,
        is_whitelisted,
        spots,
        lockup_period: spec_lockup(lockup_period),
        pool_amount: pool_of(old(state)@, address@),
    });
    match find_collection(&state.collections, &address) {
        Some(ci) => {
            let pool = state.collections[ci].collection.pool_amount;
            proof {
                state.lemma_collections_keys_distinct();
                lemma_assoc_map_index(coll_assoc(state.collections@), ci as int);
            }
            let new_coll = Collection::new(reward, cycle, is_whitelisted, spots, lockup, pool);
            state.collections[ci] = CollectionEntry {
                address: address.clone(),
                collection: new_coll,
            };
            proof {
                lemma_assoc_map_update(coll_assoc(old(state).collections@), ci as int, new_view);
                assert(coll_assoc(state.collections@) =~= coll_assoc(
                    old(state).collections@,
                ).update(ci as int, (address@, new_view)));
                assert(state@.collections =~= old(state)@.collections.insert(address@, new_view));
                assert forall|x: int, y: int|
                    0 <= x < y < state.collections@.len() implies lex_lt(
                    (#[trigger] state.collections@[x]).address@,
                    (#[trigger] state.collections@[y]).address@,
                ) by {
                    assert(state.collections@[x].address@ == old(
                        state,
                    ).collections@[x].address@);
                    assert(state.collections@[y].address@ == old(
                        state,
                    ).collections@[y].address@);
                }
                lemma_wf_after_registry_update(*old(state), *state, address@, new_view);
            }
        },
        None => {
            let pos = crate::state::insert_position(&state.collections, &address);
            let new_coll = Collection::new(reward, cycle, is_whitelisted, spots, lockup, 0);
            state.collections.insert(
                pos,
                CollectionEntry { address: address.clone(), collection: new_coll },
            );
            proof {
                lemma_assoc_map_dom(coll_assoc(old(state).collections@), address@);
                lemma_assoc_map_insert_at(
                    coll_assoc(old(state).collections@),
                    pos as int,
                    address@,
                    new_view,
                );
                assert(coll_assoc(state.collections@) =~= coll_assoc(
                    old(state).collections@,
                ).insert(pos as int, (address@, new_view)));
                assert(state@.collections =~= old(state)@.collections.insert(address@, new_view));
                assert forall|x: int, y: int|
                    0 <= x < y < state.collections@.len() implies lex_lt(
                    (#[trigger] state.collections@[x]).address@,
                    (#[trigger] state.collections@[y]).address@,
                ) by {
                    let s = old(state).collections@;
                    if x < pos {
                        assert(state.collections@[x] == s[x]);
                    }
                    if y < pos {
                        assert(state.collections@[y] == s[y]);
                    }
                    if x > pos {
                        assert(state.collections@[x] == s[x - 1]);
                    }
                    if y > pos {
                        assert(state.collections@[y] == s[y - 1]);
                    }
                }
                lemma_wf_after_registry_update(*old(state), *state, address@, new_view);
            }
        },
    }
    let mut events: Vec<Event> = Vec::new();
    events.push(
        Event::CollectionWhitelisted {
            address,
            reward: reward_reported,
            cycle,
            is_whitelisted,
            spots,
            lockup_period: lockup,
        },
    );
    let resp = Response { events, messages: Vec::new() };
    Ok(resp)
}

/// The position of the first attached fund in the wanted denomination.
pub open spec fn first_fund_with(funds: Seq<CoinView>, denom: Seq<char>) -> Option<int>
    decreases funds.len(),
{
    if funds.len() == 0 {
        None
    } else if funds[0].denom == denom {
        Some(0int)
    } else {
        match first_fund_with(funds.drop_first(), denom) {
            Some(i) => Some(i + 1),
            None => None,
        }
    }
}

/// A fund in the wanted denomination with nothing matching before it is the
/// first one.
pub proof fn lemma_first_fund_with_index(funds: Seq<CoinView>, denom: Seq<char>, i: int)
    requires
        0 <= i < funds.len(),
        funds[i].denom == denom,
        forall|k: int| 0 <= k < i ==> (#[trigger] funds[k]).denom != denom,
    ensures
        first_fund_with(funds, denom) == Some(i),
    decreases i,
{
    if i > 0 {
        assert(forall|k: int|
            0 <= k < funds.drop_first().len() ==> #[trigger] funds.drop_first()[k] == funds[k
                + 1]);
        lemma_first_fund_with_index(funds.drop_first(), denom, i - 1);
    }
}

/// With no fund in the wanted denomination there is no first one.
pub proof fn lemma_first_fund_with_none(funds: Seq<CoinView>, denom: Seq<char>)
    requires
        forall|k: int| 0 <= k < funds.len() ==> (#[trigger] funds[k]).denom != denom,
    ensures
        first_fund_with(funds, denom) is None,
    decreases funds.len(),
{
    if funds.len() > 0 {
        assert(forall|k: int|
            0 <= k < funds.drop_first().len() ==> #[trigger] funds.drop_first()[k] == funds[k
                + 1]);
        lemma_first_fund_with_none(funds.drop_first(), denom);
    }
}

/// Finds the first attached fund in the wanted denomination.
fn find_fund(funds: &Vec<Coin>, denom: &String) -> (r: Option<usize>)
    ensures
        match r {
            Some(i) => {
                &&& i < funds@.len()
                &&& first_fund_with(coins_view(funds@), denom@) == Some(i as int)
            },
            None => first_fund_with(coins_view(funds@), denom@) is None,
        },
{
    let n = funds.len();
    let mut i: usize = 0;
    while i < n
        invariant
            i <= n,
            n == funds@.len(),
            forall|k: int| 0 <= k < i ==> (#[trigger] coins_view(funds@)[k]).denom != denom@,
        decreases n - i,
    {
        if funds[i].denom == *denom {
            proof {
                lemma_first_fund_with_index(coins_view(funds@), denom@, i as int);
            }
            return Some(i);
        }
        i = i + 1;
    }
    proof {
        lemma_first_fund_with_none(coins_view(funds@), denom@);
    }
    None
}

/// Whether crediting the attached deposit cannot overflow the pool balance.
/// A caller outside the dispatcher checks this before the call.
pub open spec fn deposit_fits(pre: StateView, address: Seq<char>, funds: Seq<CoinView>) -> bool {
    pre.collections.contains_key(address) ==> match first_fund_with(
        funds,
        pre.collections[address].reward.denom,
    ) {
        Some(i) => pre.collections[address].pool_amount + funds[i].amount <= u128::MAX,
        None => true,
    }
}

/// What depositing into a reward pool does: any caller; needs a registered
/// collection and an attached fund in the reward denomination, and credits
/// the first such fund's amount to the pool. This is the only credit path
/// to a pool.
pub open spec fn deposit_post(
    pre: StateView,
    post: StateView,
    address: Seq<char>,
    funds: Seq<CoinView>,
    r: Result<ResponseView, ContractError>,
) -> bool {
    match r {
        Ok(resp) => {
            &&& pre.collections.contains_key(address)
            &&& {
                let coll = pre.collections[address];
                match first_fund_with(funds, coll.reward.denom) {
                    Some(i) => {
                        let amount = funds[i].amount;
                        &&& post.config == pre.config
                        &&& post.stakings == pre.stakings
                        &&& post.collections =~= pre.collections.insert(
                            address,
                            (CollectionView {
                                reward: coll.reward,
                                cycle: coll.cycle,
                                is_whitelisted: coll.is_whitelisted,
                                spots: coll.spots,
                                lockup_period: coll.lockup_period,
                                pool_amount: (coll.pool_amount + amount) as u128,
                            }),
                        )
                        &&& resp.events =~= seq![
                            EventView::CollectionRewardDeposited { address, amount },
                        ]
                        &&& resp.messages.len() == 0
                    },
                    None => false,
                }
            }
        },
        Err(e) => {
            &&& e == ContractError::Unknown
            &&& post == pre
            &&& (!pre.collections.contains_key(address) || first_fund_with(
                funds,
                pre.collections[address].reward.denom,
            ) is None)
        },
    }
}

/// Credits an attached fund in the reward denomination to a registered
/// collection's reward pool.
pub fn deposit_collection_reward(state: &mut State, info: &MessageInfo, address: String) -> (r:
    Result<Response, ContractError>)
    requires
        old(state).wf(),
        deposit_fits(old(state)@, address@, info@.funds),
    ensures
        final(state).wf(),
        deposit_post(old(state)@, final(state)@, address@, info@.funds, result_view(r)),
        r is Err ==> *final(state) == *old(state),
{
    let ci = match find_collection(&state.collections, &address) {
        Some(ci) => ci,
        None => {
            proof {
                lemma_assoc_map_dom(coll_assoc(state.collections@), address@);
            }
            return Err(ContractError::Unknown);
        },
    };
    proof {
        state.lemma_collections_keys_distinct();
        lemma_assoc_map_index(coll_assoc(state.collections@), ci as int);
    }
    let fi = match find_fund(&info.funds, &state.collections[ci].collection.reward.denom) {
        Some(fi) => fi,
        None => {
            return Err(ContractError::Unknown);
        },
    };
    let amount = info.funds[fi].amount;
    let pool = state.collections[ci].collection.pool_amount;
    let new_coll = Collection::new(
        state.collections[ci].collection.reward.duplicate(),
        state.collections[ci].collection.cycle,
        state.collections[ci].collection.is_whitelisted,
        state.collections[ci].collection.spots,
        state.collections[ci].collection.lockup_period,
        pool + amount,
    );
    let ghost new_view = new_coll@;
    state.collections[ci] = CollectionEntry { address: address.clone(), collection: new_coll };
    proof {
        lemma_assoc_map_update(coll_assoc(old(state).collections@), ci as int, new_view);
        assert(coll_assoc(state.collections@) =~= coll_assoc(old(state).collections@).update(
            ci as int,
            (address@, new_view),
        ));
        assert(state@.collections =~= old(state)@.collections.insert(address@, new_view));
        assert forall|x: int, y: int|
            0 <= x < y < state.collections@.len() implies lex_lt(
            (#[trigger] state.collections@[x]).address@,
            (#[trigger] state.collections@[y]).address@,
        ) by {
            assert(state.collections@[x].address@ == old(state).collections@[x].address@);
            assert(state.collections@[y].address@ == old(state).collections@[y].address@);
        }
        lemma_wf_after_registry_update(*old(state), *state, address@, new_view);
    }
    let mut events: Vec<Event> = Vec::new();
    events.push(Event::CollectionRewardDeposited { address, amount });
    let resp = Response { events, messages: Vec::new() };
    Ok(resp)
}

/// The records an owner holds before a call: none when the owner has no
/// ledger entry yet.
pub open spec fn records_of(pre: StateView, owner: Seq<char>) -> Seq<StakingView> {
    if pre.stakings.contains_key(owner) {
        pre.stakings[owner]
    } else {
        Seq::empty()
    }
}

/// What staking does: invoked as the deposit-notification callback of a
/// registered token contract, after custody has already transferred; the
/// notifying contract is the caller, the original owner is named in the
/// message. Appends one fresh record in custody and reports its ordinal.
pub open spec fn stake_post(
    pre: StateView,
    post: StateView,
    now: u64,
    info: MessageInfoView,
    msg: UniversalNftReceiveMsgView,
    r: Result<ResponseView, ContractError>,
) -> bool {
    match r {
        Ok(resp) => {
            &&& pre.collections.contains_key(info.sender)
            &&& post.config == pre.config
            &&& post.collections == pre.collections
            &&& post.stakings =~= pre.stakings.insert(
                msg.sender,
                records_of(pre, msg.sender).push(
                    (StakingView {
                        token_address: info.sender,
                        token_id: msg.token_id,
                        start_timestamp: now,
                        end_timestamp: 0,
                        is_paid: false,
                    }),
                ),
            )
            &&& resp.events =~= seq![
                EventView::Staked {
                    token_address: info.sender,
                    token_id: msg.token_id,
                    owner: msg.sender,
                    start_timestamp: now,
                    index: records_of(pre, msg.sender).len() as u64,
                },
            ]
            &&& resp.messages.len() == 0
        },
        Err(e) => {
            &&& e == ContractError::NotWhitelisted
            &&& !pre.collections.contains_key(info.sender)
            &&& post == pre
        },
    }
}

/// Records a token the caller (a registered token contract) has just
/// transferred into custody on behalf of the staker named in the message.
pub fn stake(
    state: &mut State,
    env: &Env,
    info: &MessageInfo,
    msg: UniversalNftReceiveMsg,
) -> (r: Result<Response, ContractError>)
    requires
        old(state).wf(),
    ensures
        final(state).wf(),
        stake_post(old(state)@, final(state)@, env.block_time, info@, msg@, result_view(r)),
        r is Err ==> *final(state) == *old(state),
{
    match find_collection(&state.collections, &info.sender) {
        Some(ci) => {
            proof {
                assert(coll_assoc(state.collections@)[ci as int].0 == info@.sender);
                lemma_assoc_map_dom(coll_assoc(state.collections@), info@.sender);
            }
        },
        None => {
            proof {
                lemma_assoc_map_dom(coll_assoc(state.collections@), info@.sender);
            }
            return Err(ContractError::NotWhitelisted);
        },
    }
    let owner = msg.sender;
    let rec = Staking::new(info.sender.clone(), msg.token_id.clone(), env.block_time, false);
    let ghost rec_view = rec@;
    let index: u64;
    match find_ledger(&state.stakings, &owner) {
        Some(oi) => {
            index = state.stakings[oi].records.len() as u64;
            proof {
                state.lemma_ledger_keys_distinct();
                lemma_assoc_map_index(ledger_assoc(state.stakings@), oi as int);
            }
            crate::state::push_record(&mut state.stakings, oi, rec);
            proof {
                let pre_assoc = ledger_assoc(old(state).stakings@);
                let new_recs = records_of(old(state)@, owner@).push(rec_view);
                assert(records_view(state.stakings@[oi as int].records@) =~= new_recs);
                lemma_assoc_map_update(pre_assoc, oi as int, new_recs);
                assert(ledger_assoc(state.stakings@) =~= pre_assoc.update(
                    oi as int,
                    (owner@, new_recs),
                ));
                assert(state@.stakings =~= old(state)@.stakings.insert(owner@, new_recs));
                assert forall|x: int, y: int|
                    0 <= x < y < state.stakings@.len() implies (
                #[trigger] state.stakings@[x]).owner@ != (#[trigger] state.stakings@[y]).owner@ by {
                    assert(state.stakings@[x].owner@ == old(state).stakings@[x].owner@);
                    assert(state.stakings@[y].owner@ == old(state).stakings@[y].owner@);
                }
                assert forall|i: int| 0 <= i < new_recs.len() implies old(state)@.record_ok(
                    #[trigger] new_recs[i],
                ) by {
                    if i < new_recs.len() - 1 {
                        assert(old(state)@.record_ok(old(state)@.stakings[owner@][i]));
                    }
                }
                lemma_wf_after_ledger_update(*old(state), *state, owner@, new_recs);
            }
        },
        None => {
            index = 0;
            let mut records: Vec<Staking> = Vec::new();
            records.push(rec);
            state.stakings.push(LedgerEntry { owner: owner.clone(), records });
            proof {
                let pre_assoc = ledger_assoc(old(state).stakings@);
                let new_recs = records_of(old(state)@, owner@).push(rec_view);
                lemma_assoc_map_dom(pre_assoc, owner@);
                assert(ledger_assoc(state.stakings@).drop_last() =~= pre_assoc);
                assert(records_view(
                    state.stakings@[state.stakings@.len() - 1].records@,
                ) =~= new_recs);
                assert(ledger_assoc(state.stakings@).last() == (owner@, new_recs));
                assert(state@.stakings =~= old(state)@.stakings.insert(owner@, new_recs));
                assert forall|x: int, y: int|
                    0 <= x < y < state.stakings@.len() implies (
                #[trigger] state.stakings@[x]).owner@ != (#[trigger] state.stakings@[y]).owner@ by {
                    if y < state.stakings@.len() - 1 {
                        assert(state.stakings@[x] == old(state).stakings@[x]);
                        assert(state.stakings@[y] == old(state).stakings@[y]);
                    } else {
                        assert(state.stakings@[x] == old(state).stakings@[x]);
                        assert(ledger_assoc(old(state).stakings@)[x].0 == old(
                            state,
                        ).stakings@[x].owner@);
                    }
                }
                assert forall|i: int| 0 <= i < new_recs.len() implies old(state)@.record_ok(
                    #[trigger] new_recs[i],
                ) by {}
                lemma_wf_after_ledger_update(*old(state), *state, owner@, new_recs);
            }
        },
    }
    let mut events: Vec<Event> = Vec::new();
    events.push(
        Event::Staked {
            token_address: info.sender.clone(),
            token_id: msg.token_id,
            owner,
            start_timestamp: env.block_time,
            index,
        },
    );
    let resp = Response { events, messages: Vec::new() };
    Ok(resp)
}

/// Whether the owner's ledger has a record at this ordinal.
pub open spec fn has_record(pre: StateView, owner: Seq<char>, index: u64) -> bool {
    index < records_of(pre, owner).len()
}

/// The record at an ordinal of an owner's ledger.
pub open spec fn record_at(pre: StateView, owner: Seq<char>, index: u64) -> StakingView {
    records_of(pre, owner)[index as int]
}

/// Whether withdrawing now is an early exit: the collection's lockup period
/// has not elapsed since the custody window opened.
pub open spec fn early_unstake(pre: StateView, rec: StakingView, now: u64) -> bool {
    now - rec.start_timestamp < pre.collections[rec.token_address].lockup_period
}

/// Whether the attached funds are exactly the configured unstake fee: one
/// fund, equal in denomination and amount.
pub open spec fn pays_unstake_fee(pre: StateView, funds: Seq<CoinView>) -> bool {
    funds.len() == 1 && funds[0] == pre.config.unstake_fee
}

/// The record with its custody window closed now.
pub open spec fn closed_record(rec: StakingView, now: u64) -> StakingView {
    StakingView {
        token_address: rec.token_address,
        token_id: rec.token_id,
        start_timestamp: rec.start_timestamp,
        end_timestamp: now,
        is_paid: rec.is_paid,
    }
}

/// The record marked settled.
pub open spec fn paid_record(rec: StakingView) -> StakingView {
    StakingView {
        token_address: rec.token_address,
        token_id: rec.token_id,
        start_timestamp: rec.start_timestamp,
        end_timestamp: rec.end_timestamp,
        is_paid: true,
    }
}

/// What the host guarantees an unstake call, and what machine limits ask of
/// it: block time never runs backwards, so it is at or after the referenced
/// record's start; and when the early-exit fee would be credited, the
/// collected balance can take it. A caller outside the dispatcher checks
/// both before the call.
pub open spec fn unstake_allowed(
    pre: StateView,
    info: MessageInfoView,
    index: u64,
    now: u64,
) -> bool {
    has_record(pre, info.sender, index) ==> {
        let rec = record_at(pre, info.sender, index);
        &&& now >= rec.start_timestamp
        &&& (rec.end_timestamp == 0 && early_unstake(pre, rec, now) && pays_unstake_fee(
            pre,
            info.funds,
        ) ==> pre.config.fee_collected + pre.config.unstake_fee.amount <= u128::MAX)
    }
}

/// What unstaking does: the caller withdraws their record at the given
/// ordinal. The record must still be in custody; before the lockup elapses
/// the caller must attach exactly the configured unstake fee, which is
/// credited to the collected balance. The custody window closes now and a
/// custody-return instruction to the token contract is issued.
pub open spec fn unstake_post(
    pre: StateView,
    post: StateView,
    now: u64,
    info: MessageInfoView,
    index: u64,
    r: Result<ResponseView, ContractError>,
) -> bool {
    let owner = info.sender;
    match r {
        Ok(resp) => {
            &&& has_record(pre, owner, index)
            &&& {
                let rec = record_at(pre, owner, index);
                let early = early_unstake(pre, rec, now);
                &&& rec.end_timestamp == 0
                &&& (early ==> pays_unstake_fee(pre, info.funds))
                &&& post.config.owner == pre.config.owner
                &&& post.config.unstake_fee == pre.config.unstake_fee
                &&& post.config.fee_collected == if early {
                    (pre.config.fee_collected + pre.config.unstake_fee.amount) as u128
                } else {
                    pre.config.fee_collected
                }
                &&& post.collections == pre.collections
                &&& post.stakings =~= pre.stakings.insert(
                    owner,
                    records_of(pre, owner).update(index as int, closed_record(rec, now)),
                )
                &&& resp.messages =~= seq![
                    OutMsgView::TransferNft {
                        contract_addr: rec.token_address,
                        recipient: owner,
                        token_id: rec.token_id,
                    },
                ]
                &&& resp.events =~= seq![
                    EventView::Unstaked {
                        token_address: rec.token_address,
                        token_id: rec.token_id,
                        owner,
                        start_timestamp: rec.start_timestamp,
                        end_timestamp: now,
                        index,
                    },
                ]
            }
        },
        Err(e) => {
            &&& post == pre
            &&& ((e == ContractError::WrongIndex && !has_record(pre, owner, index)) || (e
                == ContractError::AlreadyUnstaked && has_record(pre, owner, index) && record_at(
                pre,
                owner,
                index,
            ).end_timestamp != 0) || (e == ContractError::NotEnoughUnstakeFee && has_record(
                pre,
                owner,
                index,
            ) && record_at(pre, owner, index).end_timestamp == 0 && early_unstake(
                pre,
                record_at(pre, owner, index),
                now,
            ) && !pays_unstake_fee(pre, info.funds)))
        },
    }
}

/// Closes the custody window of the caller's record at the given ordinal
/// and instructs the token contract to return the token.
pub fn unstake(state: &mut State, env: &Env, info: &MessageInfo, index: u64) -> (r: Result<
    Response,
    ContractError,
>)
    requires
        old(state).wf(),
        unstake_allowed(old(state)@, info@, index, env.block_time),
    ensures
        final(state).wf(),
        unstake_post(old(state)@, final(state)@, env.block_time, info@, index, result_view(r)),
        r is Err ==> *final(state) == *old(state),
{
    let now = env.block_time;
    let oi = match find_ledger(&state.stakings, &info.sender) {
        Some(oi) => oi,
        None => {
            proof {
                lemma_assoc_map_dom(ledger_assoc(state.stakings@), info@.sender);
            }
            return Err(ContractError::WrongIndex);
        },
    };
    proof {
        state.lemma_ledger_keys_distinct();
        lemma_assoc_map_index(ledger_assoc(state.stakings@), oi as int);
    }
    if index >= state.stakings[oi].records.len() as u64 {
        return Err(ContractError::WrongIndex);
    }
    let ri = index as usize;
    let token_address = state.stakings[oi].records[ri].token_address.clone();
    let token_id = state.stakings[oi].records[ri].token_id.clone();
    let start = state.stakings[oi].records[ri].start_timestamp;
    let was_paid = state.stakings[oi].records[ri].is_paid;
    if state.stakings[oi].records[ri].end_timestamp != 0 {
        return Err(ContractError::AlreadyUnstaked);
    }
    proof {
        assert(old(state)@.record_ok(record_at(old(state)@, info@.sender, index)));
    }
    let ci = match find_collection(&state.collections, &token_address) {
        Some(ci) => ci,
        None => {
            proof {
                lemma_assoc_map_dom(coll_assoc(state.collections@), token_address@);
            }
            vstd::pervasive::unreached()
        },
    };
    proof {
        state.lemma_collections_keys_distinct();
        lemma_assoc_map_index(coll_assoc(state.collections@), ci as int);
    }
    if now - start < state.collections[ci].collection.lockup_period {
        if !(info.funds.len() == 1 && coin_eq(&info.funds[0], &state.config.unstake_fee)) {
            return Err(ContractError::NotEnoughUnstakeFee);
        }
        state.config.fee_collected = state.config.fee_collected
            + state.config.unstake_fee.amount;
    }
    let closed = Staking {
        token_address: token_address.clone(),
        token_id: token_id.clone(),
        start_timestamp: start,
        end_timestamp: now,
        is_paid: was_paid,
    };
    let ghost closed_view = closed@;
    crate::state::set_record(&mut state.stakings, oi, ri, closed);
    proof {
        let pre = old(state)@;
        let owner = info@.sender;
        let pre_assoc = ledger_assoc(old(state).stakings@);
        let new_recs = records_of(pre, owner).update(index as int, closed_view);
        assert(records_view(state.stakings@[oi as int].records@) =~= new_recs);
        lemma_assoc_map_update(pre_assoc, oi as int, new_recs);
        assert(ledger_assoc(state.stakings@) =~= pre_assoc.update(oi as int, (owner, new_recs)));
        assert(state@.stakings =~= pre.stakings.insert(owner, new_recs));
        assert forall|x: int, y: int|
            0 <= x < y < state.stakings@.len() implies (#[trigger] state.stakings@[x]).owner@ != (
        #[trigger] state.stakings@[y]).owner@ by {
            assert(state.stakings@[x].owner@ == old(state).stakings@[x].owner@);
            assert(state.stakings@[y].owner@ == old(state).stakings@[y].owner@);
        }
        assert forall|i: int| 0 <= i < new_recs.len() implies old(state)@.record_ok(
            #[trigger] new_recs[i],
        ) by {
            if i != index {
                assert(old(state)@.record_ok(pre.stakings[owner][i]));
            }
        }
        lemma_wf_after_ledger_update(*old(state), *state, owner, new_recs);
    }
    let mut messages: Vec<OutMsg> = Vec::new();
    messages.push(
        OutMsg::TransferNft {
            contract_addr: token_address.clone(),
            recipient: info.sender.clone(),
            token_id: token_id.clone(),
        },
    );
    let mut events: Vec<Event> = Vec::new();
    events.push(
        Event::Unstaked {
            token_address,
            token_id,
            owner: info.sender.clone(),
            start_timestamp: start,
            end_timestamp: now,
            index,
        },
    );
    let resp = Response { events, messages };
    Ok(resp)
}

/// The reward owed for the record at an ordinal of an owner's ledger, per
/// the formula of [`crate::reward`], over the record's closed custody
/// window.
pub open spec fn claim_amount(pre: StateView, owner: Seq<char>, index: u64) -> int {
    let rec = record_at(pre, owner, index);
    let coll = pre.collections[rec.token_address];
    crate::reward::spec_reward(
        coll.reward.amount,
        coll.cycle,
        (rec.end_timestamp - rec.start_timestamp) as u64,
    )
}

/// What claiming does: the caller settles their record at the given
/// ordinal. The record must be withdrawn already and not yet settled, and
/// the collection's pool must cover the computed reward — pool sufficiency
/// is validated before the record is marked settled, so a failed claim
/// leaves the record claimable. The reward, even zero, settles the record
/// for good; a positive one is paid from the pool.
pub open spec fn claim_post(
    pre: StateView,
    post: StateView,
    info: MessageInfoView,
    index: u64,
    r: Result<ResponseView, ContractError>,
) -> bool {
    let owner = info.sender;
    match r {
        Ok(resp) => {
            &&& has_record(pre, owner, index)
            &&& {
                let rec = record_at(pre, owner, index);
                let coll = pre.collections[rec.token_address];
                let amount = claim_amount(pre, owner, index);
                let payout = (CoinView { denom: coll.reward.denom, amount: amount as u128 });
                &&& rec.end_timestamp != 0
                &&& !rec.is_paid
                &&& amount <= coll.pool_amount
                &&& post.config == pre.config
                &&& post.stakings =~= pre.stakings.insert(
                    owner,
                    records_of(pre, owner).update(index as int, paid_record(rec)),
                )
                &&& post.collections =~= pre.collections.insert(
                    rec.token_address,
                    (CollectionView {
                        reward: coll.reward,
                        cycle: coll.cycle,
                        is_whitelisted: coll.is_whitelisted,
                        spots: coll.spots,
                        lockup_period: coll.lockup_period,
                        pool_amount: (coll.pool_amount - amount) as u128,
                    }),
                )
                &&& (amount > 0 ==> resp.messages =~~= seq![
                    OutMsgView::BankSend { to_address: owner, amount: seq![payout] },
                ])
                &&& (amount == 0 ==> resp.messages.len() == 0)
                &&& resp.events =~= seq![
                    EventView::Claimed {
                        token_address: rec.token_address,
                        token_id: rec.token_id,
                        owner,
                        start_timestamp: rec.start_timestamp,
                        end_timestamp: rec.end_timestamp,
                        reward: payout,
                        index,
                    },
                ]
            }
        },
        Err(e) => {
            &&& post == pre
            &&& ((e == ContractError::WrongIndex && !has_record(pre, owner, index)) || (e
                == ContractError::NotUnstaked && has_record(pre, owner, index) && record_at(
                pre,
                owner,
                index,
            ).end_timestamp == 0) || (e == ContractError::RewardAlreadyClaimed && has_record(
                pre,
                owner,
                index,
            ) && record_at(pre, owner, index).end_timestamp != 0 && record_at(
                pre,
                owner,
                index,
            ).is_paid) || (e == ContractError::NotEnoughRewardPool && has_record(pre, owner, index)
                && record_at(pre, owner, index).end_timestamp != 0 && !record_at(
                pre,
                owner,
                index,
            ).is_paid && claim_amount(pre, owner, index) > pre.collections[record_at(
                pre,
                owner,
                index,
            ).token_address].pool_amount))
        },
    }
}

/// Settles the caller's withdrawn record at the given ordinal, paying the
/// proportional reward from the collection's pool.
pub fn claim(state: &mut State, info: &MessageInfo, index: u64) -> (r: Result<
    Response,
    ContractError,
>)
    requires
        old(state).wf(),
    ensures
        final(state).wf(),
        claim_post(old(state)@, final(state)@, info@, index, result_view(r)),
        r is Err ==> *final(state) == *old(state),
{
    let oi = match find_ledger(&state.stakings, &info.sender) {
        Some(oi) => oi,
        None => {
            proof {
                lemma_assoc_map_dom(ledger_assoc(state.stakings@), info@.sender);
            }
            return Err(ContractError::WrongIndex);
        },
    };
    proof {
        state.lemma_ledger_keys_distinct();
        lemma_assoc_map_index(ledger_assoc(state.stakings@), oi as int);
    }
    if index >= state.stakings[oi].records.len() as u64 {
        return Err(ContractError::WrongIndex);
    }
    let ri = index as usize;
    let token_address = state.stakings[oi].records[ri].token_address.clone();
    let token_id = state.stakings[oi].records[ri].token_id.clone();
    let start = state.stakings[oi].records[ri].start_timestamp;
    let end = state.stakings[oi].records[ri].end_timestamp;
    if end == 0 {
        return Err(ContractError::NotUnstaked);
    }
    if state.stakings[oi].records[ri].is_paid {
        return Err(ContractError::RewardAlreadyClaimed);
    }
    proof {
        assert(old(state)@.record_ok(record_at(old(state)@, info@.sender, index)));
    }
    let ci = match find_collection(&state.collections, &token_address) {
        Some(ci) => ci,
        None => {
            proof {
                lemma_assoc_map_dom(coll_assoc(state.collections@), token_address@);
            }
            vstd::pervasive::unreached()
        },
    };
    proof {
        state.lemma_collections_keys_distinct();
        lemma_assoc_map_index(coll_assoc(state.collections@), ci as int);
    }
    let duration = end - start;
    let reward_amount = crate::reward::compute_reward(
        state.collections[ci].collection.reward.amount,
        state.collections[ci].collection.cycle,
        duration,
    );
    if state.collections[ci].collection.pool_amount < reward_amount {
        return Err(ContractError::NotEnoughRewardPool);
    }
    let settled = Staking {
        token_address: token_address.clone(),
        token_id: token_id.clone(),
        start_timestamp: start,
        end_timestamp: end,
        is_paid: true,
    };
    let ghost settled_view = settled@;
    crate::state::set_record(&mut state.stakings, oi, ri, settled);
    proof {
        let pre = old(state)@;
        let owner = info@.sender;
        let pre_assoc = ledger_assoc(old(state).stakings@);
        let new_recs = records_of(pre, owner).update(index as int, paid_record(
            record_at(pre, owner, index),
        ));
        assert(records_view(state.stakings@[oi as int].records@) =~= new_recs);
        lemma_assoc_map_update(pre_assoc, oi as int, new_recs);
        assert(ledger_assoc(state.stakings@) =~= pre_assoc.update(oi as int, (owner, new_recs)));
        assert(state@.stakings =~= pre.stakings.insert(owner, new_recs));
        assert forall|x: int, y: int|
            0 <= x < y < state.stakings@.len() implies (#[trigger] state.stakings@[x]).owner@ != (
        #[trigger] state.stakings@[y]).owner@ by {
            assert(state.stakings@[x].owner@ == old(state).stakings@[x].owner@);
            assert(state.stakings@[y].owner@ == old(state).stakings@[y].owner@);
        }
        assert forall|i: int| 0 <= i < new_recs.len() implies old(state)@.record_ok(
            #[trigger] new_recs[i],
        ) by {
            if i != index {
                assert(old(state)@.record_ok(pre.stakings[owner][i]));
            }
        }
        lemma_wf_after_ledger_update(*old(state), *state, owner, new_recs);
    }
    let ghost mid = *state;
    let reward_denom = state.collections[ci].collection.reward.denom.clone();
    let mut messages: Vec<OutMsg> = Vec::new();
    if reward_amount > 0 {
        let new_coll = Collection::new(
            state.collections[ci].collection.reward.duplicate(),
            state.collections[ci].collection.cycle,
            state.collections[ci].collection.is_whitelisted,
            state.collections[ci].collection.spots,
            state.collections[ci].collection.lockup_period,
            state.collections[ci].collection.pool_amount - reward_amount,
        );
        let ghost new_view = new_coll@;
        state.collections[ci] = CollectionEntry {
            address: token_address.clone(),
            collection: new_coll,
        };
        proof {
            lemma_assoc_map_update(coll_assoc(mid.collections@), ci as int, new_view);
            assert(coll_assoc(state.collections@) =~= coll_assoc(mid.collections@).update(
                ci as int,
                (token_address@, new_view),
            ));
            assert(state@.collections =~= mid@.collections.insert(token_address@, new_view));
            assert forall|x: int, y: int|
                0 <= x < y < state.collections@.len() implies lex_lt(
                (#[trigger] state.collections@[x]).address@,
                (#[trigger] state.collections@[y]).address@,
            ) by {
                assert(state.collections@[x].address@ == mid.collections@[x].address@);
                assert(state.collections@[y].address@ == mid.collections@[y].address@);
            }
            lemma_wf_after_registry_update(mid, *state, token_address@, new_view);
        }
        messages.push(
            OutMsg::BankSend {
                to_address: info.sender.clone(),
                amount: vec![coin(reward_amount, reward_denom.as_str())],
            },
        );
    } else {
        proof {
            assert(state@.collections =~= old(state)@.collections.insert(
                token_address@,
                old(state)@.collections[token_address@],
            ));
        }
    }
    let mut events: Vec<Event> = Vec::new();
    events.push(
        Event::Claimed {
            token_address,
            token_id,
            owner: info.sender.clone(),
            start_timestamp: start,
            end_timestamp: end,
            reward: coin(reward_amount, reward_denom.as_str()),
            index,
        },
    );
    let resp = Response { events, messages };
    Ok(resp)
}

} // verus!
