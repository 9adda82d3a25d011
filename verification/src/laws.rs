//! Laws of the ledger, stated and proved over whole runs of the
//! dispatcher: how records may evolve, and how reward pools move.

use vstd::prelude::*;

use crate::contract::execute_post;
use crate::error::ContractError;
use crate::execute::{claim_amount, first_fund_with, has_record, record_at, records_of};
use crate::msg::{ExecuteMsgView, MessageInfoView, ResponseView};
use crate::state::{StakingView, StateView};

verus! {

/// How one record may change across one call: its token, collection and
/// start never change; a closed custody window stays closed at the same
/// time; a settled record stays settled.
pub open spec fn record_evolves(a: StakingView, b: StakingView) -> bool {
    &&& b.token_address == a.token_address
    &&& b.token_id == a.token_id
    &&& b.start_timestamp == a.start_timestamp
    &&& (a.end_timestamp != 0 ==> b.end_timestamp == a.end_timestamp)
    &&& (a.is_paid ==> b.is_paid)
}

/// Records are never removed, and each one evolves by [`record_evolves`].
pub open spec fn ledger_evolves(pre: StateView, post: StateView) -> bool {
    forall|o: Seq<char>, i: int|
        pre.stakings.contains_key(o) && 0 <= i < pre.stakings[o].len() ==> {
            &&& post.stakings.contains_key(o)
            &&& pre.stakings[o].len() <= post.stakings[o].len()
            &&& record_evolves(#[trigger] pre.stakings[o][i], post.stakings[o][i])
        }
}

/// A ledger whose one changed entry grew out of the old one evolves.
proof fn lemma_evolves_after_insert(
    pre: StateView,
    post: StateView,
    owner: Seq<char>,
    recs: Seq<StakingView>,
)
    requires
        post.stakings == pre.stakings.insert(owner, recs),
        records_of(pre, owner).len() <= recs.len(),
        forall|i: int|
            0 <= i < records_of(pre, owner).len() ==> record_evolves(
                records_of(pre, owner)[i],
                #[trigger] recs[i],
            ),
    ensures
        ledger_evolves(pre, post),
{
    assert forall|o: Seq<char>, i: int|
        pre.stakings.contains_key(o) && 0 <= i < pre.stakings[o].len() implies {
        &&& post.stakings.contains_key(o)
        &&& pre.stakings[o].len() <= post.stakings[o].len()
        &&& record_evolves(#[trigger] pre.stakings[o][i], post.stakings[o][i])
    } by {
        if o == owner {
            assert(records_of(pre, owner) == pre.stakings[owner]);
            assert(record_evolves(records_of(pre, owner)[i], recs[i]));
        }
    }
}

/// Law: every dispatched call evolves the ledger — no record is removed,
/// none changes its token or start, a closed custody window never reopens
/// or moves, and a settled record never becomes unsettled. With
/// [`lemma_run_record_evolves`] this makes each record's two flags flip at
/// most once over any run.
pub proof fn lemma_execute_evolves_ledger(
    pre: StateView,
    post: StateView,
    now: u64,
    info: MessageInfoView,
    msg: ExecuteMsgView,
    r: Result<ResponseView, ContractError>,
)
    requires
        execute_post(pre, post, now, info, msg, r),
    ensures
        ledger_evolves(pre, post),
{
    match r {
        Err(_) => {
            assert(post == pre);
        },
        Ok(_) => {
            match msg {
                ExecuteMsgView::ReceiveNft(m) => {
                    let recs = records_of(pre, m.sender).push(
                        (StakingView {
                            token_address: info.sender,
                            token_id: m.token_id,
                            start_timestamp: now,
                            end_timestamp: 0,
                            is_paid: false,
                        }),
                    );
                    lemma_evolves_after_insert(pre, post, m.sender, recs);
                },
                ExecuteMsgView::Unstake { index } => {
                    let rec = record_at(pre, info.sender, index);
                    let recs = records_of(pre, info.sender).update(
                        index as int,
                        crate::execute::closed_record(rec, now),
                    );
                    lemma_evolves_after_insert(pre, post, info.sender, recs);
                },
                ExecuteMsgView::ClaimReward { index } => {
                    let rec = record_at(pre, info.sender, index);
                    let recs = records_of(pre, info.sender).update(
                        index as int,
                        crate::execute::paid_record(rec),
                    );
                    lemma_evolves_after_insert(pre, post, info.sender, recs);
                },
                _ => {
                    assert(post.stakings == pre.stakings);
                },
            }
        },
    }
}

/// A run of the ledger: consecutive states each related by one call's
/// evolution.
pub open spec fn evolving_run(states: Seq<StateView>) -> bool {
    forall|k: int| 0 <= k < states.len() - 1 ==> ledger_evolves(#[trigger] states[k], states[k + 1])
}

/// Along a run, a record stays present and evolves from any earlier point
/// to any later one.
pub proof fn lemma_run_record_evolves(
    states: Seq<StateView>,
    o: Seq<char>,
    i: int,
    x: int,
    y: int,
)
    requires
        evolving_run(states),
        0 <= x <= y < states.len(),
        states[x].stakings.contains_key(o),
        0 <= i < states[x].stakings[o].len(),
    ensures
        states[y].stakings.contains_key(o),
        i < states[y].stakings[o].len(),
        record_evolves(states[x].stakings[o][i], states[y].stakings[o][i]),
    decreases y - x,
{
    if x < y {
        lemma_run_record_evolves(states, o, i, x, y - 1);
        assert(ledger_evolves(states[y - 1], states[y]));
    }
}

/// Law: along any run, a record's `is_paid` turns from false to true at
/// most once — two such flips are the same step.
pub proof fn lemma_is_paid_flips_at_most_once(
    states: Seq<StateView>,
    o: Seq<char>,
    i: int,
    j: int,
    k: int,
)
    requires
        evolving_run(states),
        0 <= j && j + 1 < states.len(),
        0 <= k && k + 1 < states.len(),
        states[j].stakings.contains_key(o),
        0 <= i < states[j].stakings[o].len(),
        states[k].stakings.contains_key(o),
        i < states[k].stakings[o].len(),
        !states[j].stakings[o][i].is_paid,
        states[j + 1].stakings[o][i].is_paid,
        !states[k].stakings[o][i].is_paid,
        states[k + 1].stakings[o][i].is_paid,
    ensures
        j == k,
{
    if j < k {
        lemma_run_record_evolves(states, o, i, j, j + 1);
        lemma_run_record_evolves(states, o, i, j + 1, k);
    }
    if k < j {
        lemma_run_record_evolves(states, o, i, k, k + 1);
        lemma_run_record_evolves(states, o, i, k + 1, j);
    }
}

/// Law: along any run, a record's `end_timestamp` turns from zero to
/// nonzero at most once — two such flips are the same step.
pub proof fn lemma_end_flips_at_most_once(
    states: Seq<StateView>,
    o: Seq<char>,
    i: int,
    j: int,
    k: int,
)
    requires
        evolving_run(states),
        0 <= j && j + 1 < states.len(),
        0 <= k && k + 1 < states.len(),
        states[j].stakings.contains_key(o),
        0 <= i < states[j].stakings[o].len(),
        states[k].stakings.contains_key(o),
        i < states[k].stakings[o].len(),
        states[j].stakings[o][i].end_timestamp == 0,
        states[j + 1].stakings[o][i].end_timestamp != 0,
        states[k].stakings[o][i].end_timestamp == 0,
        states[k + 1].stakings[o][i].end_timestamp != 0,
    ensures
        j == k,
{
    if j < k {
        lemma_run_record_evolves(states, o, i, j, j + 1);
        lemma_run_record_evolves(states, o, i, j + 1, k);
    }
    if k < j {
        lemma_run_record_evolves(states, o, i, k, k + 1);
        lemma_run_record_evolves(states, o, i, k + 1, j);
    }
}

/// One movement of a reward pool.
pub enum PoolOp {
    Deposit { amount: u128 },
    Payout { amount: u128 },
}

/// The pool balance after applying the movements in order.
pub open spec fn pool_after(init: int, ops: Seq<PoolOp>) -> int
    decreases ops.len(),
{
    if ops.len() == 0 {
        init
    } else {
        match ops.last() {
            PoolOp::Deposit { amount } => pool_after(init, ops.drop_last()) + amount,
            PoolOp::Payout { amount } => pool_after(init, ops.drop_last()) - amount,
        }
    }
}

/// The sum of all deposits among the movements.
pub open spec fn deposits_total(ops: Seq<PoolOp>) -> int
    decreases ops.len(),
{
    if ops.len() == 0 {
        0
    } else {
        deposits_total(ops.drop_last()) + match ops.last() {
            PoolOp::Deposit { amount } => amount as int,
            PoolOp::Payout { .. } => 0,
        }
    }
}

/// The sum of all payouts among the movements.
pub open spec fn payouts_total(ops: Seq<PoolOp>) -> int
    decreases ops.len(),
{
    if ops.len() == 0 {
        0
    } else {
        payouts_total(ops.drop_last()) + match ops.last() {
            PoolOp::Payout { amount } => amount as int,
            PoolOp::Deposit { .. } => 0,
        }
    }
}

/// Every payout was covered by the pool at its time — which is what the
/// claim operation enforces before paying.
pub open spec fn payouts_covered(init: int, ops: Seq<PoolOp>) -> bool
    decreases ops.len(),
{
    if ops.len() == 0 {
        true
    } else {
        payouts_covered(init, ops.drop_last()) && match ops.last() {
            PoolOp::Payout { amount } => amount <= pool_after(init, ops.drop_last()),
            PoolOp::Deposit { .. } => true,
        }
    }
}

/// Law: after any sequence of deposits and covered claim payouts, a pool
/// equals its initial balance plus the sum of the deposits minus the sum of
/// the payouts, and is never negative.
pub proof fn lemma_pool_accounting(init: u128, ops: Seq<PoolOp>)
    requires
        payouts_covered(init as int, ops),
    ensures
        pool_after(init as int, ops) == init + deposits_total(ops) - payouts_total(ops),
        pool_after(init as int, ops) >= 0,
    decreases ops.len(),
{
    if ops.len() > 0 {
        lemma_pool_accounting(init, ops.drop_last());
    }
}

/// The movement one dispatched call makes on one collection's pool: a
/// successful deposit on it credits the matched fund, a successful claim of
/// a record staked from it debits the computed reward, everything else
/// moves nothing.
pub open spec fn pool_op_of(
    pre: StateView,
    info: MessageInfoView,
    msg: ExecuteMsgView,
    r: Result<ResponseView, ContractError>,
    a: Seq<char>,
) -> Option<PoolOp> {
    match r {
        Err(_) => None,
        Ok(_) => match msg {
            ExecuteMsgView::DepositCollectionReward { address } => if address == a {
                match first_fund_with(info.funds, pre.collections[a].reward.denom) {
                    Some(i) => Some(PoolOp::Deposit { amount: info.funds[i].amount }),
                    None => None,
                }
            } else {
                None
            },
            ExecuteMsgView::ClaimReward { index } => if has_record(pre, info.sender, index)
                && record_at(pre, info.sender, index).token_address == a {
                Some(
                    PoolOp::Payout { amount: claim_amount(pre, info.sender, index) as u128 },
                )
            } else {
                None
            },
            _ => None,
        },
    }
}

/// Law: a registered collection stays registered, and every dispatched call
/// moves its pool exactly by its pool operation — a deposit credit, a
/// covered claim payout debit, or nothing. [`lemma_run_pool_accounting`]
/// folds this over a whole run.
pub proof fn lemma_execute_pool_step(
    pre: StateView,
    post: StateView,
    now: u64,
    info: MessageInfoView,
    msg: ExecuteMsgView,
    r: Result<ResponseView, ContractError>,
    a: Seq<char>,
)
    requires
        pre.wf(),
        crate::contract::execute_allowed(pre, now, info, msg),
        execute_post(pre, post, now, info, msg, r),
        pre.collections.contains_key(a),
    ensures
        post.collections.contains_key(a),
        match pool_op_of(pre, info, msg, r, a) {
            None => post.collections[a].pool_amount == pre.collections[a].pool_amount,
            Some(PoolOp::Deposit { amount }) => post.collections[a].pool_amount
                == pre.collections[a].pool_amount + amount,
            Some(PoolOp::Payout { amount }) => amount <= pre.collections[a].pool_amount
                && post.collections[a].pool_amount == pre.collections[a].pool_amount - amount,
        },
{
    match r {
        Err(_) => {
            assert(post == pre);
        },
        Ok(_) => {
            match msg {
                ExecuteMsgView::DepositCollectionReward { address } => {
                    assert(pre.collections.contains_key(address));
                    assert(first_fund_with(
                        info.funds,
                        pre.collections[address].reward.denom,
                    ) is Some);
                },
                ExecuteMsgView::ClaimReward { index } => {
                    let rec = record_at(pre, info.sender, index);
                    assert(pre.stakings.contains_key(info.sender));
                    assert(pre.record_ok(pre.stakings[info.sender][index as int]));
                    assert(pre.collections.contains_key(rec.token_address));
                    if rec.token_address == a {
                        assert(claim_amount(pre, info.sender, index)
                            <= pre.collections[a].pool_amount);
                    }
                },
                ExecuteMsgView::WhitelistCollection { address, .. } => {
                    if address == a {
                        assert(post.collections[a].pool_amount == crate::execute::pool_of(
                            pre,
                            a,
                        ));
                    }
                },
                _ => {
                    assert(post.collections == pre.collections);
                },
            }
        },
    }
}

/// One dispatched call of a run: when it happened, who sent what, and what
/// came back.
pub struct StepView {
    pub now: u64,
    pub info: MessageInfoView,
    pub msg: ExecuteMsgView,
    pub r: Result<ResponseView, ContractError>,
}

/// A run of the contract: each step starts from a well-formed state, meets
/// what the dispatcher asks of its caller, and behaves as its contract
/// says.
pub open spec fn run_ok(states: Seq<StateView>, steps: Seq<StepView>) -> bool {
    &&& states.len() == steps.len() + 1
    &&& forall|k: int|
        0 <= k < steps.len() ==> {
            let s = #[trigger] steps[k];
            &&& states[k].wf()
            &&& crate::contract::execute_allowed(states[k], s.now, s.info, s.msg)
            &&& execute_post(states[k], states[k + 1], s.now, s.info, s.msg, s.r)
        }
}

/// The movements a run makes on one collection's pool, in order.
pub open spec fn run_pool_ops(
    states: Seq<StateView>,
    steps: Seq<StepView>,
    a: Seq<char>,
) -> Seq<PoolOp>
    decreases steps.len(),
{
    if steps.len() == 0 {
        Seq::empty()
    } else {
        let prefix = run_pool_ops(states.drop_last(), steps.drop_last(), a);
        let s = steps.last();
        match pool_op_of(states[steps.len() - 1], s.info, s.msg, s.r, a) {
            Some(op) => prefix.push(op),
            None => prefix,
        }
    }
}

/// Law: over any run, a collection registered at the start is still
/// registered at the end, every payout its pool made was covered at its
/// time, and its final balance is exactly its initial balance plus the sum
/// of the deposits credited to it minus the sum of the claim payouts taken
/// from it — never negative.
pub proof fn lemma_run_pool_accounting(states: Seq<StateView>, steps: Seq<StepView>, a: Seq<char>)
    requires
        run_ok(states, steps),
        states[0].collections.contains_key(a),
    ensures
        states.last().collections.contains_key(a),
        payouts_covered(states[0].collections[a].pool_amount as int, run_pool_ops(states, steps, a)),
        states.last().collections[a].pool_amount == pool_after(
            states[0].collections[a].pool_amount as int,
            run_pool_ops(states, steps, a),
        ),
        states.last().collections[a].pool_amount == states[0].collections[a].pool_amount
            + deposits_total(run_pool_ops(states, steps, a)) - payouts_total(
            run_pool_ops(states, steps, a),
        ),
    decreases steps.len(),
{
    let init = states[0].collections[a].pool_amount as int;
    let ops = run_pool_ops(states, steps, a);
    if steps.len() == 0 {
        assert(states.last() == states[0]);
    } else {
        let n = steps.len() as int;
        let front_states = states.drop_last();
        let front_steps = steps.drop_last();
        assert(run_ok(front_states, front_steps)) by {
            assert(forall|k: int|
                0 <= k < front_states.len() ==> #[trigger] front_states[k] == states[k]);
            assert(forall|k: int|
                0 <= k < front_steps.len() ==> #[trigger] front_steps[k] == steps[k]);
        }
        assert(front_states[0] == states[0]);
        lemma_run_pool_accounting(front_states, front_steps, a);
        let s = steps.last();
        assert(states[n - 1].wf() && crate::contract::execute_allowed(
            states[n - 1],
            s.now,
            s.info,
            s.msg,
        ) && execute_post(states[n - 1], states[n], s.now, s.info, s.msg, s.r));
        assert(front_states.last() == states[n - 1]);
        lemma_execute_pool_step(states[n - 1], states[n], s.now, s.info, s.msg, s.r, a);
        let prefix = run_pool_ops(front_states, front_steps, a);
        match pool_op_of(states[n - 1], s.info, s.msg, s.r, a) {
            Some(op) => {
                assert(ops == prefix.push(op));
                assert(prefix.push(op).drop_last() =~= prefix);
                assert(prefix.push(op).last() == op);
            },
            None => {
                assert(ops == prefix);
            },
        }
        lemma_pool_accounting(states[0].collections[a].pool_amount, ops);
        assert(states.last() == states[n]);
    }
}

/// A run of the dispatcher is an evolving run of the ledger, so the
/// flip-at-most-once laws hold of it.
pub proof fn lemma_run_evolves(states: Seq<StateView>, steps: Seq<StepView>)
    requires
        run_ok(states, steps),
    ensures
        evolving_run(states),
{
    assert forall|k: int|
        0 <= k < states.len() - 1 implies ledger_evolves(#[trigger] states[k], states[k + 1]) by {
        let s = steps[k];
        lemma_execute_evolves_ledger(states[k], states[k + 1], s.now, s.info, s.msg, s.r);
    }
}

} // verus!
