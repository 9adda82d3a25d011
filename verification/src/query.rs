//! Read-only views that project the registry and the ledger into response
//! shapes.

use vstd::prelude::*;

use crate::msg::{CollectionResponse, CollectionResponseView, ConfigResponse, StakingResponse,
    StakingResponseView};
use crate::order::lex_lt;
use crate::state::{coll_assoc, find_ledger, ledger_assoc, lemma_assoc_map_dom,
    lemma_assoc_map_index, CollectionView, StakingView, State};

verus! {

/// The response shape of one registry entry.
pub open spec fn collection_response_of(
    address: Seq<char>,
    c: CollectionView,
) -> CollectionResponseView {
    CollectionResponseView {
        address,
        reward: c.reward,
        cycle: c.cycle,
        is_whitelisted: c.is_whitelisted,
        spots: c.spots,
    }
}

/// The response shape of one staking record.
pub open spec fn staking_response_of(rec: StakingView) -> StakingResponseView {
    StakingResponseView {
        token_address: rec.token_address,
        token_id: rec.token_id,
        start_timestamp: rec.start_timestamp,
        end_timestamp: rec.end_timestamp,
        is_paid: rec.is_paid,
    }
}

/// Reports the configuration: owner, unstake fee, and collected fee balance.
pub fn get_config(state: &State) -> (r: ConfigResponse)
    ensures
        r@.owner == state@.config.owner,
        r@.unstake_fee == state@.config.unstake_fee,
        r@.fee_collected == state@.config.fee_collected,
{
    ConfigResponse {
        owner: state.config.owner.clone(),
        unstake_fee: state.config.unstake_fee.duplicate(),
        fee_collected: state.config.fee_collected,
    }
}

/// Reports every registry entry, in ascending address order: one response
/// per registered collection, carrying that collection's stored fields.
pub fn get_collections(state: &State) -> (r: Vec<CollectionResponse>)
    requires
        state.wf(),
    ensures
        r@.len() == state.collections@.len(),
        forall|i: int|
            0 <= i < r@.len() ==> (#[trigger] r@[i])@ == collection_response_of(
                state.collections@[i].address@,
                state.collections@[i].collection@,
            ),
        forall|i: int, j: int|
            0 <= i < j < r@.len() ==> lex_lt(
                (#[trigger] r@[i])@.address,
                (#[trigger] r@[j])@.address,
            ),
        forall|a: Seq<char>|
            #[trigger] state@.collections.contains_key(a) ==> exists|i: int|
                0 <= i < r@.len() && (#[trigger] r@[i])@.address == a,
        forall|i: int|
            0 <= i < r@.len() ==> state@.collections.contains_key((#[trigger] r@[i])@.address)
                && r@[i]@ == collection_response_of(
                r@[i]@.address,
                state@.collections[r@[i]@.address],
            ),
{
    let n = state.collections.len();
    let mut r: Vec<CollectionResponse> = Vec::new();
    let mut i: usize = 0;
    while i < n
        invariant
            i <= n,
            n == state.collections@.len(),
            r@.len() == i,
            forall|k: int|
                0 <= k < i ==> (#[trigger] r@[k])@ == collection_response_of(
                    state.collections@[k].address@,
                    state.collections@[k].collection@,
                ),
        decreases n - i,
    {
        let entry = &state.collections[i];
        r.push(
            CollectionResponse {
                address: entry.address.clone(),
                reward: entry.collection.reward.duplicate(),
                cycle: entry.collection.cycle,
                is_whitelisted: entry.collection.is_whitelisted,
                spots: entry.collection.spots,
            },
        );
        i = i + 1;
    }
    proof {
        assert forall|a: Seq<char>| #[trigger]
            state@.collections.contains_key(a) implies exists|j: int|
            0 <= j < r@.len() && (#[trigger] r@[j])@.address == a by {
            lemma_assoc_map_dom(coll_assoc(state.collections@), a);
            let j = choose|j: int|
                0 <= j < coll_assoc(state.collections@).len() && (#[trigger] coll_assoc(
                    state.collections@,
                )[j]).0 == a;
            assert(r@[j]@.address == a);
        }
        state.lemma_collections_keys_distinct();
        assert forall|i: int|
            0 <= i < r@.len() implies state@.collections.contains_key((
        #[trigger] r@[i])@.address) && r@[i]@ == collection_response_of(
            r@[i]@.address,
            state@.collections[r@[i]@.address],
        ) by {
            lemma_assoc_map_index(coll_assoc(state.collections@), i);
        }
    }
    r
}

/// Reports one owner's full record list in append order, or nothing when
/// the owner has no ledger entry.
pub fn get_stakings_by_owner(state: &State, owner: &String) -> (r: Vec<StakingResponse>)
    requires
        state.wf(),
    ensures
        r@.len() == crate::execute::records_of(state@, owner@).len(),
        forall|i: int|
            0 <= i < r@.len() ==> (#[trigger] r@[i])@ == staking_response_of(
                crate::execute::records_of(state@, owner@)[i],
            ),
{
    let oi = match find_ledger(&state.stakings, owner) {
        Some(oi) => oi,
        None => {
            proof {
                lemma_assoc_map_dom(ledger_assoc(state.stakings@), owner@);
            }
            return Vec::new();
        },
    };
    proof {
        state.lemma_ledger_keys_distinct();
        lemma_assoc_map_index(ledger_assoc(state.stakings@), oi as int);
    }
    let records = &state.stakings[oi].records;
    let n = records.len();
    let mut r: Vec<StakingResponse> = Vec::new();
    let mut i: usize = 0;
    while i < n
        invariant
            i <= n,
            n == records@.len(),
            r@.len() == i,
            forall|k: int|
                0 <= k < i ==> (#[trigger] r@[k])@ == staking_response_of(records@[k]@),
        decreases n - i,
    {
        let rec = &records[i];
        r.push(
            StakingResponse {
                token_address: rec.token_address.clone(),
                token_id: rec.token_id.clone(),
                start_timestamp: rec.start_timestamp,
                end_timestamp: rec.end_timestamp,
                is_paid: rec.is_paid,
            },
        );
        i = i + 1;
    }
    r
}

} // verus!
