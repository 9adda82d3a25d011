//! Entry-point messages, response shapes, and the structured events and
//! outgoing instructions that a call produces.
//!
//! The host runtime authenticates callers and decodes wire messages before
//! they reach the dispatcher; here a caller is a [`MessageInfo`] of plain
//! values and the block time is an [`Env`].

use vstd::prelude::*;

use crate::state::{Coin, CoinView};

verus! {

/// What the host supplies about the current block: its time, in seconds.
pub struct Env {
    pub block_time: u64,
}

/// The authenticated caller and the funds attached to the call.
pub struct MessageInfo {
    pub sender: String,
    pub funds: Vec<Coin>,
}

/// View of a [`MessageInfo`].
#[verifier::ext_equal]
pub struct MessageInfoView {
    pub sender: Seq<char>,
    pub funds: Seq<CoinView>,
}

/// The views of a sequence of coins.
pub open spec fn coins_view(s: Seq<Coin>) -> Seq<CoinView> {
    s.map_values(|c: Coin| c@)
}

impl View for MessageInfo {
    type V = MessageInfoView;

    open spec fn view(&self) -> MessageInfoView {
        MessageInfoView { sender: self.sender@, funds: coins_view(self.funds@) }
    }
}

/// The creation message: the fee charged for an early unstake.
pub struct InstantiateMsg {
    pub unstake_fee: Coin,
}

/// The deposit notification a token contract sends when a token is
/// transferred into custody: the original owner, the token, and an opaque
/// payload.
pub struct UniversalNftReceiveMsg {
    pub sender: String,
    pub token_id: String,
    pub msg: Vec<u8>,
    pub edition: Option<u64>,
}

/// View of a [`UniversalNftReceiveMsg`].
#[verifier::ext_equal]
pub struct UniversalNftReceiveMsgView {
    pub sender: Seq<char>,
    pub token_id: Seq<char>,
    pub msg: Seq<u8>,
    pub edition: Option<u64>,
}

impl View for UniversalNftReceiveMsg {
    type V = UniversalNftReceiveMsgView;

    open spec fn view(&self) -> UniversalNftReceiveMsgView {
        UniversalNftReceiveMsgView {
            sender: self.sender@,
            token_id: self.token_id@,
            msg: self.msg@,
            edition: self.edition,
        }
    }
}

/// The deposit notification in the shape some token contracts use.
pub struct TalisCw721ReceiveMsg {
    pub sender: String,
    pub token_id: String,
    pub msg: Vec<u8>,
    pub edition: Option<u64>,
}

/// A request to change state.
pub enum ExecuteMsg {
    TransferOwnership { address: String },
    ChangeFee { fee: Coin },
    WhitelistCollection {
        address: String,
        reward: Coin,
        cycle: u64,
        is_whitelisted: bool,
        spots: u64,
        lockup_period: Option<u64>,
    },
    DepositCollectionReward { address: String },
    ReceiveNft(UniversalNftReceiveMsg),
    Unstake { index: u64 },
    ClaimReward { index: u64 },
    WithdrawFee { fee: Coin },
}

/// View of an [`ExecuteMsg`].
#[verifier::ext_equal]
pub enum ExecuteMsgView {
    TransferOwnership { address: Seq<char> },
    ChangeFee { fee: CoinView },
    WhitelistCollection {
        address: Seq<char>,
        reward: CoinView,
        cycle: u64,
        is_whitelisted: bool,
        spots: u64,
        lockup_period: Option<u64>,
    },
    DepositCollectionReward { address: Seq<char> },
    ReceiveNft(UniversalNftReceiveMsgView),
    Unstake { index: u64 },
    ClaimReward { index: u64 },
    WithdrawFee { fee: CoinView },
}

impl View for ExecuteMsg {
    type V = ExecuteMsgView;

    open spec fn view(&self) -> ExecuteMsgView {
        match self {
            ExecuteMsg::TransferOwnership { address } => ExecuteMsgView::TransferOwnership {
                address: address@,
            },
            ExecuteMsg::ChangeFee { fee } => ExecuteMsgView::ChangeFee { fee: fee@ },
            ExecuteMsg::WhitelistCollection {
                address,
                reward,
                cycle,
                is_whitelisted,
                spots,
                lockup_period,
            } => ExecuteMsgView::WhitelistCollection {
                address: address@,
                reward: reward@,
                cycle: *cycle,
                is_whitelisted: *is_whitelisted,
                spots: *spots,
                lockup_period: *lockup_period,
            },
            ExecuteMsg::DepositCollectionReward { address } => {
                ExecuteMsgView::DepositCollectionReward { address: address@ }
            },
            ExecuteMsg::ReceiveNft(m) => ExecuteMsgView::ReceiveNft(m@),
            ExecuteMsg::Unstake { index } => ExecuteMsgView::Unstake { index: *index },
            ExecuteMsg::ClaimReward { index } => ExecuteMsgView::ClaimReward { index: *index },
            ExecuteMsg::WithdrawFee { fee } => ExecuteMsgView::WithdrawFee { fee: fee@ },
        }
    }
}

/// A read-only request.
pub enum QueryMsg {
    GetConfig {},
    GetCollections {},
    GetStakingsByOwner { owner: String },
}

/// View of a [`QueryMsg`].
#[verifier::ext_equal]
pub enum QueryMsgView {
    GetConfig {},
    GetCollections {},
    GetStakingsByOwner { owner: Seq<char> },
}

impl View for QueryMsg {
    type V = QueryMsgView;

    open spec fn view(&self) -> QueryMsgView {
        match self {
            QueryMsg::GetConfig {  } => QueryMsgView::GetConfig {  },
            QueryMsg::GetCollections {  } => QueryMsgView::GetCollections {  },
            QueryMsg::GetStakingsByOwner { owner } => QueryMsgView::GetStakingsByOwner {
                owner: owner@,
            },
        }
    }
}

/// The configuration, as the config query reports it.
#[derive(Debug, PartialEq)]
pub struct ConfigResponse {
    pub owner: String,
    pub unstake_fee: Coin,
    pub fee_collected: u128,
}

/// View of a [`ConfigResponse`].
#[verifier::ext_equal]
pub struct ConfigResponseView {
    pub owner: Seq<char>,
    pub unstake_fee: CoinView,
    pub fee_collected: u128,
}

impl View for ConfigResponse {
    type V = ConfigResponseView;

    open spec fn view(&self) -> ConfigResponseView {
        ConfigResponseView {
            owner: self.owner@,
            unstake_fee: self.unstake_fee@,
            fee_collected: self.fee_collected,
        }
    }
}

/// One registry entry, as the collections query reports it.
#[derive(Debug, PartialEq)]
pub struct CollectionResponse {
    pub address: String,
    pub reward: Coin,
    pub cycle: u64,
    pub is_whitelisted: bool,
    pub spots: u64,
}

/// View of a [`CollectionResponse`].
#[verifier::ext_equal]
pub struct CollectionResponseView {
    pub address: Seq<char>,
    pub reward: CoinView,
    pub cycle: u64,
    pub is_whitelisted: bool,
    pub spots: u64,
}

impl View for CollectionResponse {
    type V = CollectionResponseView;

    open spec fn view(&self) -> CollectionResponseView {
        CollectionResponseView {
            address: self.address@,
            reward: self.reward@,
            cycle: self.cycle,
            is_whitelisted: self.is_whitelisted,
            spots: self.spots,
        }
    }
}

/// One staking record, as the ledger query reports it.
#[derive(Debug, PartialEq)]
pub struct StakingResponse {
    pub token_address: String,
    pub token_id: String,
    pub start_timestamp: u64,
    pub end_timestamp: u64,
    pub is_paid: bool,
}

/// View of a [`StakingResponse`].
#[verifier::ext_equal]
pub struct StakingResponseView {
    pub token_address: Seq<char>,
    pub token_id: Seq<char>,
    pub start_timestamp: u64,
    pub end_timestamp: u64,
    pub is_paid: bool,
}

impl View for StakingResponse {
    type V = StakingResponseView;

    open spec fn view(&self) -> StakingResponseView {
        StakingResponseView {
            token_address: self.token_address@,
            token_id: self.token_id@,
            start_timestamp: self.start_timestamp,
            end_timestamp: self.end_timestamp,
            is_paid: self.is_paid,
        }
    }
}

/// Token metadata as the external token service reports it.
#[derive(Debug, PartialEq)]
pub struct UniversalNftInfoResponse {
    pub token_uri: Option<String>,
}

/// An outgoing instruction the host is asked to carry out after the call.
#[derive(Debug, PartialEq)]
pub enum OutMsg {
    /// Instruct the token contract to return custody of a token.
    TransferNft { contract_addr: String, recipient: String, token_id: String },
    /// Pay coins from the contract's balance to an address.
    BankSend { to_address: String, amount: Vec<Coin> },
}

/// View of an [`OutMsg`].
#[verifier::ext_equal]
pub enum OutMsgView {
    TransferNft { contract_addr: Seq<char>, recipient: Seq<char>, token_id: Seq<char> },
    BankSend { to_address: Seq<char>, amount: Seq<CoinView> },
}

impl View for OutMsg {
    type V = OutMsgView;

    open spec fn view(&self) -> OutMsgView {
        match self {
            OutMsg::TransferNft { contract_addr, recipient, token_id } => OutMsgView::TransferNft {
                contract_addr: contract_addr@,
                recipient: recipient@,
                token_id: token_id@,
            },
            OutMsg::BankSend { to_address, amount } => OutMsgView::BankSend {
                to_address: to_address@,
                amount: coins_view(amount@),
            },
        }
    }
}

/// A structured event recording what a successful call did.
#[derive(Debug, PartialEq)]
pub enum Event {
    Instantiated { contract_owner: String, unstake_fee: Coin },
    OwnershipTransferred { old_owner: String, new_owner: String },
    FeeChanged { old_fee: Coin, new_fee: Coin },
    CollectionWhitelisted {
        address: String,
        reward: Coin,
        cycle: u64,
        is_whitelisted: bool,
        spots: u64,
        lockup_period: u64,
    },
    CollectionRewardDeposited { address: String, amount: u128 },
    FeeWithdrawn { address: String, fee: Coin },
    Staked {
        token_address: String,
        token_id: String,
        owner: String,
        start_timestamp: u64,
        index: u64,
    },
    Unstaked {
        token_address: String,
        token_id: String,
        owner: String,
        start_timestamp: u64,
        end_timestamp: u64,
        index: u64,
    },
    Claimed {
        token_address: String,
        token_id: String,
        owner: String,
        start_timestamp: u64,
        end_timestamp: u64,
        reward: Coin,
        index: u64,
    },
}

/// View of an [`Event`].
#[verifier::ext_equal]
pub enum EventView {
    Instantiated { contract_owner: Seq<char>, unstake_fee: CoinView },
    OwnershipTransferred { old_owner: Seq<char>, new_owner: Seq<char> },
    FeeChanged { old_fee: CoinView, new_fee: CoinView },
    CollectionWhitelisted {
        address: Seq<char>,
        reward: CoinView,
        cycle: u64,
        is_whitelisted: bool,
        spots: u64,
        lockup_period: u64,
    },
    CollectionRewardDeposited { address: Seq<char>, amount: u128 },
    FeeWithdrawn { address: Seq<char>, fee: CoinView },
    Staked {
        token_address: Seq<char>,
        token_id: Seq<char>,
        owner: Seq<char>,
        start_timestamp: u64,
        index: u64,
    },
    Unstaked {
        token_address: Seq<char>,
        token_id: Seq<char>,
        owner: Seq<char>,
        start_timestamp: u64,
        end_timestamp: u64,
        index: u64,
    },
    Claimed {
        token_address: Seq<char>,
        token_id: Seq<char>,
        owner: Seq<char>,
        start_timestamp: u64,
        end_timestamp: u64,
        reward: CoinView,
        index: u64,
    },
}

impl View for Event {
    type V = EventView;

    open spec fn view(&self) -> EventView {
        match self {
            Event::Instantiated { contract_owner, unstake_fee } => EventView::Instantiated {
                contract_owner: contract_owner@,
                unstake_fee: unstake_fee@,
            },
            Event::OwnershipTransferred { old_owner, new_owner } => {
                EventView::OwnershipTransferred { old_owner: old_owner@, new_owner: new_owner@ }
            },
            Event::FeeChanged { old_fee, new_fee } => EventView::FeeChanged {
                old_fee: old_fee@,
                new_fee: new_fee@,
            },
            Event::CollectionWhitelisted {
                address,
                reward,
                cycle,
                is_whitelisted,
                spots,
                lockup_period,
            } => EventView::CollectionWhitelisted {
                address: address@,
                reward: reward@,
                cycle: *cycle,
                is_whitelisted: *is_whitelisted,
                spots: *spots,
                lockup_period: *lockup_period,
            },
            Event::CollectionRewardDeposited { address, amount } => {
                EventView::CollectionRewardDeposited { address: address@, amount: *amount }
            },
            Event::FeeWithdrawn { address, fee } => EventView::FeeWithdrawn {
                address: address@,
                fee: fee@,
            },
            Event::Staked { token_address, token_id, owner, start_timestamp, index } => {
                EventView::Staked {
                    token_address: token_address@,
                    token_id: token_id@,
                    owner: owner@,
                    start_timestamp: *start_timestamp,
                    index: *index,
                }
            },
            Event::Unstaked {
                token_address,
                token_id,
                owner,
                start_timestamp,
                end_timestamp,
                index,
            } => EventView::Unstaked {
                token_address: token_address@,
                token_id: token_id@,
                owner: owner@,
                start_timestamp: *start_timestamp,
                end_timestamp: *end_timestamp,
                index: *index,
            },
            Event::Claimed {
                token_address,
                token_id,
                owner,
                start_timestamp,
                end_timestamp,
                reward,
                index,
            } => EventView::Claimed {
                token_address: token_address@,
                token_id: token_id@,
                owner: owner@,
                start_timestamp: *start_timestamp,
                end_timestamp: *end_timestamp,
                reward: reward@,
                index: *index,
            },
        }
    }
}

/// What a successful call hands back to the host: events to record and
/// instructions to carry out.
#[derive(Debug, PartialEq)]
pub struct Response {
    pub events: Vec<Event>,
    pub messages: Vec<OutMsg>,
}

/// View of a [`Response`].
#[verifier::ext_equal]
pub struct ResponseView {
    pub events: Seq<EventView>,
    pub messages: Seq<OutMsgView>,
}

impl View for Response {
    type V = ResponseView;

    open spec fn view(&self) -> ResponseView {
        ResponseView {
            events: self.events@.map_values(|e: Event| e@),
            messages: self.messages@.map_values(|m: OutMsg| m@),
        }
    }
}

/// The structured answer to a [`QueryMsg`].
#[derive(Debug, PartialEq)]
pub enum QueryAnswer {
    Config(ConfigResponse),
    Collections(Vec<CollectionResponse>),
    Stakings(Vec<StakingResponse>),
}

/// View of a [`QueryAnswer`].
#[verifier::ext_equal]
pub enum QueryAnswerView {
    Config(ConfigResponseView),
    Collections(Seq<CollectionResponseView>),
    Stakings(Seq<StakingResponseView>),
}

impl View for QueryAnswer {
    type V = QueryAnswerView;

    open spec fn view(&self) -> QueryAnswerView {
        match self {
            QueryAnswer::Config(c) => QueryAnswerView::Config(c@),
            QueryAnswer::Collections(cs) => QueryAnswerView::Collections(
                cs@.map_values(|c: CollectionResponse| c@),
            ),
            QueryAnswer::Stakings(ss) => QueryAnswerView::Stakings(
                ss@.map_values(|s: StakingResponse| s@),
            ),
        }
    }
}

} // verus!
