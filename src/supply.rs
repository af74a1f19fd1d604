//! Conservation of value: transfers between identifiers move balances around
//! without changing their sum, and each sealed block mints one reward.
use crate::block::Transfer;
use crate::ledger::{all_transfers, balance, balance_in, delta, system_id, LedgerView};
use vstd::prelude::*;

verus! {

/// The sum of the balances of `ids` after `txs`.
pub open spec fn total_balance(txs: Seq<Transfer>, ids: Seq<Seq<char>>) -> int
    decreases ids.len(),
{
    if ids.len() == 0 {
        0
    } else {
        total_balance(txs, ids.drop_last()) + balance_in(txs, ids.last())
    }
}

/// What one transfer adds to the balances of `ids` taken together.
pub open spec fn sum_delta(t: Transfer, ids: Seq<Seq<char>>) -> int
    decreases ids.len(),
{
    if ids.len() == 0 {
        0
    } else {
        sum_delta(t, ids.drop_last()) + delta(t, ids.last())
    }
}

/// What one transfer moves into the group `ids` from outside it.
pub open spec fn inflow(t: Transfer, ids: Seq<Seq<char>>) -> int {
    (if ids.contains(t.receiver@) { t.amount as int } else { 0 }) - (if ids.contains(t.sender@) {
        t.amount as int
    } else {
        0
    })
}

/// What the transfers move into the group `ids` from outside it, in all.
pub open spec fn net_inflow(txs: Seq<Transfer>, ids: Seq<Seq<char>>) -> int
    decreases txs.len(),
{
    if txs.len() == 0 {
        0
    } else {
        net_inflow(txs.drop_last(), ids) + inflow(txs.last(), ids)
    }
}

proof fn lemma_sum_delta(t: Transfer, ids: Seq<Seq<char>>)
    requires
        ids.no_duplicates(),
    ensures
        sum_delta(t, ids) == inflow(t, ids),
    decreases ids.len(),
{
    if ids.len() > 0 {
        let rest = ids.drop_last();
        assert(rest.no_duplicates());
        lemma_sum_delta(t, rest);
        assert forall|x: Seq<char>| ids.contains(x) <==> (rest.contains(x) || x == ids.last()) by {
            if ids.contains(x) {
                let k = choose|k: int| 0 <= k < ids.len() && ids[k] == x;
                if k < ids.len() - 1 {
                    assert(rest[k] == x);
                }
            }
            if rest.contains(x) {
                let k = choose|k: int| 0 <= k < rest.len() && rest[k] == x;
                assert(ids[k] == x);
            }
            if x == ids.last() {
                assert(ids[ids.len() - 1] == x);
            }
        }
        assert(!rest.contains(ids.last())) by {
            if rest.contains(ids.last()) {
                let k = choose|k: int| 0 <= k < rest.len() && rest[k] == ids.last();
                assert(ids[k] == ids[ids.len() - 1]);
            }
        }
    }
}

proof fn lemma_total_push(txs: Seq<Transfer>, t: Transfer, ids: Seq<Seq<char>>)
    ensures
        total_balance(txs.push(t), ids) == total_balance(txs, ids) + sum_delta(t, ids),
    decreases ids.len(),
{
    if ids.len() > 0 {
        lemma_total_push(txs, t, ids.drop_last());
        assert(txs.push(t).drop_last() =~= txs);
    }
}

/// The balances of distinct identifiers add up to what the transfers moved into
/// that group from outside it: a transfer between two members changes the sum by
/// nothing, one from outside adds its amount, one to outside takes it away.
pub proof fn lemma_total_is_net_inflow(txs: Seq<Transfer>, ids: Seq<Seq<char>>)
    requires
        ids.no_duplicates(),
    ensures
        total_balance(txs, ids) == net_inflow(txs, ids),
    decreases txs.len(),
{
    if txs.len() == 0 {
        lemma_total_empty(txs, ids);
    } else {
        let rest = txs.drop_last();
        lemma_total_is_net_inflow(rest, ids);
        assert(rest.push(txs.last()) =~= txs);
        lemma_total_push(rest, txs.last(), ids);
        lemma_sum_delta(txs.last(), ids);
    }
}

proof fn lemma_total_empty(txs: Seq<Transfer>, ids: Seq<Seq<char>>)
    requires
        txs.len() == 0,
    ensures
        total_balance(txs, ids) == 0,
    decreases ids.len(),
{
    if ids.len() > 0 {
        lemma_total_empty(txs, ids.drop_last());
    }
}

proof fn lemma_net_inflow_closed(txs: Seq<Transfer>, ids: Seq<Seq<char>>)
    requires
        forall|k: int|
            0 <= k < txs.len() ==> ids.contains(#[trigger] txs[k].sender@) && ids.contains(
                txs[k].receiver@,
            ),
    ensures
        net_inflow(txs, ids) == 0,
    decreases txs.len(),
{
    if txs.len() > 0 {
        let rest = txs.drop_last();
        assert forall|k: int| 0 <= k < rest.len() implies ids.contains(#[trigger] rest[k].sender@)
            && ids.contains(rest[k].receiver@) by {
            assert(rest[k] == txs[k]);
        }
        lemma_net_inflow_closed(rest, ids);
        assert(txs.last() == txs[txs.len() - 1]);
    }
}

proof fn lemma_net_inflow_append(a: Seq<Transfer>, b: Seq<Transfer>, ids: Seq<Seq<char>>)
    ensures
        net_inflow(a + b, ids) == net_inflow(a, ids) + net_inflow(b, ids),
    decreases b.len(),
{
    if b.len() > 0 {
        lemma_net_inflow_append(a, b.drop_last(), ids);
        assert((a + b).drop_last() =~= a + b.drop_last());
        assert((a + b).last() == b.last());
    }
}

/// Where every sender and every receiver on the chain belongs to the group of
/// distinct identifiers `ids` (as on a ledger without reward transfers, where
/// `ids` lists every participant), their balances sum to zero.
pub proof fn lemma_closed_balances_sum_to_zero(v: LedgerView, ids: Seq<Seq<char>>)
    requires
        v.wf(),
        ids.no_duplicates(),
        forall|k: int|
            0 <= k < all_transfers(v.chain).len() ==> ids.contains(
                #[trigger] all_transfers(v.chain)[k].sender@,
            ) && ids.contains(all_transfers(v.chain)[k].receiver@),
    ensures
        total_balance(all_transfers(v.chain), ids) == 0,
{
    lemma_total_is_net_inflow(all_transfers(v.chain), ids);
    lemma_net_inflow_closed(all_transfers(v.chain), ids);
}

/// In every state of the ledger, the balances of all identifiers other than the
/// system one sum to the opposite of the system identifier's balance: value
/// enters circulation only through transfers from the system identifier (the
/// mining rewards) and leaves it only through transfers to it. `ids` lists
/// distinct identifiers, not the system one, that hold every other party.
pub proof fn lemma_supply_mirrors_system(v: LedgerView, ids: Seq<Seq<char>>)
    requires
        v.wf(),
        ids.no_duplicates(),
        !ids.contains(system_id()),
        forall|k: int|
            0 <= k < all_transfers(v.chain).len() ==> {
                &&& ids.contains(#[trigger] all_transfers(v.chain)[k].sender@)
                    || all_transfers(v.chain)[k].sender@ == system_id()
                &&& ids.contains(all_transfers(v.chain)[k].receiver@)
                    || all_transfers(v.chain)[k].receiver@ == system_id()
            },
    ensures
        total_balance(all_transfers(v.chain), ids) == -balance(v.chain, system_id()),
{
    let txs = all_transfers(v.chain);
    let full = ids.push(system_id());
    assert(full.drop_last() =~= ids);
    assert forall|i: int, j: int| 0 <= i < full.len() && 0 <= j < full.len() && i != j implies full[i]
        != full[j] by {
        if i == ids.len() as int {
            assert(ids[j] == full[j]);
        } else if j == ids.len() as int {
            assert(ids[i] == full[i]);
        }
    }
    assert forall|x: Seq<char>| ids.contains(x) implies full.contains(x) by {
        let k = choose|k: int| 0 <= k < ids.len() && ids[k] == x;
        assert(full[k] == x);
    }
    assert(full[ids.len() as int] == system_id());
    assert(full.contains(system_id()));
    lemma_total_is_net_inflow(txs, full);
    lemma_net_inflow_closed(txs, full);
}

/// Sealing a block raises the summed balance of every identifier but the system
/// one by exactly the mining reward: the reward is credited to the miner with no
/// matching debit, and the other transfers of the block, between identifiers of
/// the group, move value without creating any. `before` and `after` are the
/// ledger around a successful `mine_pending_transactions`, as its contract states
/// them; `ids` lists distinct identifiers, the miner and every party of the
/// pending transfers among them, and not the system identifier.
pub proof fn lemma_mining_mints_reward(
    before: LedgerView,
    after: LedgerView,
    miner: Seq<char>,
    ids: Seq<Seq<char>>,
)
    requires
        after.chain.len() == before.chain.len() + 1,
        after.chain.drop_last() == before.chain,
        after.chain.last().transactions@.len() == before.pending.len() + 1,
        after.chain.last().transactions@.drop_last() == before.pending,
        after.chain.last().transactions@.last().sender@ == system_id(),
        after.chain.last().transactions@.last().receiver@ == miner,
        after.chain.last().transactions@.last().amount == before.mining_reward,
        ids.no_duplicates(),
        ids.contains(miner),
        !ids.contains(system_id()),
        forall|k: int|
            0 <= k < before.pending.len() ==> ids.contains(#[trigger] before.pending[k].sender@)
                && ids.contains(before.pending[k].receiver@),
    ensures
        total_balance(all_transfers(after.chain), ids) == total_balance(
            all_transfers(before.chain),
            ids,
        ) + before.mining_reward,
{
    let block = after.chain.last().transactions@;
    let reward = block.last();
    assert(all_transfers(after.chain) == all_transfers(before.chain) + block);
    lemma_total_is_net_inflow(all_transfers(after.chain), ids);
    lemma_total_is_net_inflow(all_transfers(before.chain), ids);
    lemma_net_inflow_append(all_transfers(before.chain), block, ids);
    lemma_net_inflow_closed(before.pending, ids);
    assert(before.pending.push(reward) =~= block);
    assert(before.pending.push(reward).drop_last() =~= before.pending);
    assert(inflow(reward, ids) == before.mining_reward);
}

} // verus!
