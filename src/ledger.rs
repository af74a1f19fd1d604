//! The chain of sealed blocks, the queue of pending transfers and balances
//! derived by replaying every transfer.
use crate::block::{meets_difficulty, unsealable, Block, SealError, Transfer};
use vstd::prelude::*;

verus! {

/// The identifier that mining rewards are sent from.
pub open spec fn system_id() -> Seq<char> {
    seq!['S', 'y', 's', 't', 'e', 'm']
}

/// The reward credited to the miner of each sealed block.
pub const MINING_REWARD: i64 = 100;

/// Every transfer of the chain, block by block, in order.
pub open spec fn all_transfers(chain: Seq<Block>) -> Seq<Transfer>
    decreases chain.len(),
{
    if chain.len() == 0 {
        Seq::empty()
    } else {
        all_transfers(chain.drop_last()) + chain.last().transactions@
    }
}

/// What one transfer does to the balance of `id`.
pub open spec fn delta(t: Transfer, id: Seq<char>) -> int {
    (if t.receiver@ == id { t.amount as int } else { 0 }) - (if t.sender@ == id { t.amount as int } else { 0 })
}

/// The balance of `id` after the given transfers, starting from zero.
pub open spec fn balance_in(txs: Seq<Transfer>, id: Seq<char>) -> int
    decreases txs.len(),
{
    if txs.len() == 0 {
        0
    } else {
        balance_in(txs.drop_last(), id) + delta(txs.last(), id)
    }
}

/// The balance of `id` replayed over the whole chain.
pub open spec fn balance(chain: Seq<Block>, id: Seq<char>) -> int {
    balance_in(all_transfers(chain), id)
}

/// The abstract state of a ledger.
pub ghost struct LedgerView {
    pub chain: Seq<Block>,
    pub pending: Seq<Transfer>,
    pub mining_reward: int,
}

impl LedgerView {
    /// Consecutive blocks are linked by hash and by index.
    pub open spec fn linked(self) -> bool {
        forall|i: int|
            0 < i < self.chain.len() ==> {
                &&& #[trigger] self.chain[i].previous_hash@ == self.chain[i - 1].hash@
                &&& self.chain[i].index == self.chain[i - 1].index + 1
            }
    }

    pub open spec fn wf(self) -> bool {
        &&& self.chain.len() >= 1
        &&& self.chain[0].index == 0
        &&& self.chain[0].previous_hash@ == seq!['0']
        &&& self.chain[0].transactions@.len() == 0
        &&& forall|i: int| 0 <= i < self.chain.len() ==> (#[trigger] self.chain[i]).is_sealed()
        &&& forall|i: int| 0 <= i < self.chain.len() ==> (#[trigger] self.chain[i]).index == i
        &&& self.linked()
        &&& all_transfers(self.chain).len() + self.pending.len() <= usize::MAX
        &&& self.mining_reward == MINING_REWARD
    }
}

/// A chain that starts with a genesis block and is only ever appended to, and
/// the transfers that wait for the next block.
pub struct Blockchain {
    chain: Vec<Block>,
    pending_transactions: Vec<Transfer>,
    mining_reward: i64,
}

impl View for Blockchain {
    type V = LedgerView;

    closed spec fn view(&self) -> LedgerView {
        LedgerView {
            chain: self.chain@,
            pending: self.pending_transactions@,
            mining_reward: self.mining_reward as int,
        }
    }
}

proof fn lemma_all_transfers_push(chain: Seq<Block>, b: Block)
    ensures
        all_transfers(chain.push(b)) == all_transfers(chain) + b.transactions@,
{
    assert(chain.push(b).drop_last() =~= chain);
}

proof fn lemma_balance_push(txs: Seq<Transfer>, t: Transfer, id: Seq<char>)
    ensures
        balance_in(txs.push(t), id) == balance_in(txs, id) + delta(t, id),
{
    assert(txs.push(t).drop_last() =~= txs);
}

proof fn lemma_all_transfers_prefix(chain: Seq<Block>, i: int)
    requires
        0 <= i <= chain.len(),
    ensures
        all_transfers(chain.take(i)).len() <= all_transfers(chain).len(),
    decreases chain.len(),
{
    if i < chain.len() {
        assert(chain.drop_last().take(i) =~= chain.take(i));
        lemma_all_transfers_prefix(chain.drop_last(), i);
    }
    assert(chain.take(chain.len() as int) =~= chain);
}

/// On a well-formed ledger each block after the first names its predecessor's
/// hash as its previous hash and carries the next index.
pub proof fn lemma_chain_linkage(v: LedgerView)
    requires
        v.wf(),
    ensures
        forall|i: int|
            0 < i < v.chain.len() ==> {
                &&& #[trigger] v.chain[i].previous_hash@ == v.chain[i - 1].hash@
                &&& v.chain[i].index == v.chain[i - 1].index + 1
            },
{
}

/// On a well-formed ledger every block's hash carries the difficulty prefix and
/// equals the hash recomputed from the block's stored fields.
pub proof fn lemma_blocks_meet_difficulty(v: LedgerView)
    requires
        v.wf(),
    ensures
        forall|i: int|
            0 <= i < v.chain.len() ==> {
                &&& meets_difficulty(#[trigger] v.chain[i].hash@)
                &&& v.chain[i].hash@ == v.chain[i].expected_hash()
            },
{
    assert forall|i: int| 0 <= i < v.chain.len() implies {
        &&& meets_difficulty(#[trigger] v.chain[i].hash@)
        &&& v.chain[i].hash@ == v.chain[i].expected_hash()
    } by {
        assert(v.chain[i].is_sealed());
    }
}

/// Replaying two runs of transfers one after the other adds their effects.
pub proof fn lemma_balance_append(a: Seq<Transfer>, b: Seq<Transfer>, id: Seq<char>)
    ensures
        balance_in(a + b, id) == balance_in(a, id) + balance_in(b, id),
    decreases b.len(),
{
    if b.len() > 0 {
        lemma_balance_append(a, b.drop_last(), id);
        assert((a + b).drop_last() =~= a + b.drop_last());
        assert((a + b).last() == b.last());
    }
}

/// `txs` is the pending queue followed by one reward of `reward` from the system
/// identifier to `miner`.
pub open spec fn is_reward_batch(txs: Seq<Transfer>, pending: Seq<Transfer>, miner: Seq<char>, reward: int) -> bool {
    &&& txs.len() == pending.len() + 1
    &&& txs.drop_last() == pending
    &&& txs.last().sender@ == system_id()
    &&& txs.last().receiver@ == miner
    &&& txs.last().amount == reward
}

/// Copies a batch of transfers.
fn copy_transfers(v: &Vec<Transfer>) -> (r: Vec<Transfer>)
    ensures
        r@ == v@,
{
    let mut r: Vec<Transfer> = Vec::new();
    let mut i: usize = 0;
    while i < v.len()
        invariant
            i <= v@.len(),
            r@ == v@.subrange(0, i as int),
        decreases v@.len() - i,
    {
        r.push(v[i].duplicate());
        i = i + 1;
        assert(r@ =~= v@.subrange(0, i as int));
    }
    assert(v@.subrange(0, i as int) =~= v@);
    r
}

impl Blockchain {
    pub open spec fn wf(&self) -> bool {
        self@.wf()
    }

    /// A ledger whose chain holds only the genesis block, sealed at `timestamp`
    /// (milliseconds since the Unix epoch). Fails only where no nonce seals the
    /// genesis block at that time.
    pub fn new(timestamp: u64) -> (r: Result<Blockchain, SealError>)
        ensures
            match r {
                Ok(l) => {
                    &&& l.wf()
                    &&& l@.chain.len() == 1
                    &&& l@.pending.len() == 0
                    &&& l@.mining_reward == MINING_REWARD
                    &&& l@.chain[0].index == 0
                    &&& l@.chain[0].timestamp == timestamp
                    &&& l@.chain[0].previous_hash@ == seq!['0']
                    &&& l@.chain[0].transactions@.len() == 0
                    &&& l@.chain[0].is_sealed()
                },
                Err(e) => {
                    &&& e == SealError::MiningTimeout
                    &&& unsealable(0, timestamp, Seq::empty(), seq!['0'])
                },
            },
    {
        proof {
            reveal_strlit("0");
        }
        let zero = String::from_str("0");
        assert(zero@ =~= seq!['0']);
        let empty: Vec<Transfer> = Vec::new();
        assert(empty@ =~= Seq::<Transfer>::empty());
        let genesis = Block::new(0, empty, zero, timestamp);
        match genesis {
            Ok(b) => {
                let chain = vec![b];
                proof {
                    assert(chain@.drop_last() =~= Seq::<Block>::empty());
                    assert(chain@.len() == 1);
                    assert(chain@.last().transactions@.len() == 0);
                    assert(all_transfers(chain@.drop_last()) == Seq::<Transfer>::empty());
                    assert(all_transfers(chain@) =~= Seq::<Transfer>::empty());
                }
                Ok(Blockchain { chain, pending_transactions: Vec::new(), mining_reward: MINING_REWARD })
            },
            Err(e) => Err(e),
        }
    }

    /// Queues a transfer for the next block. Nothing about it is checked.
    pub fn create_transaction(&mut self, sender: String, receiver: String, amount: i64)
        requires
            old(self).wf(),
            all_transfers(old(self)@.chain).len() + old(self)@.pending.len() < usize::MAX,
        ensures
            final(self).wf(),
            final(self)@.chain == old(self)@.chain,
            final(self)@.pending.len() == old(self)@.pending.len() + 1,
            final(self)@.pending.drop_last() == old(self)@.pending,
            final(self)@.pending.last().sender@ == sender@,
            final(self)@.pending.last().receiver@ == receiver@,
            final(self)@.pending.last().amount == amount,
    {
        let new_tx = Transfer { sender, receiver, amount };
        self.pending_transactions.push(new_tx);
        assert(self@.pending.drop_last() =~= old(self)@.pending);
    }

    /// Appends the reward for `miner_address` to the pending transfers, seals them
    /// at `timestamp` (milliseconds since the Unix epoch) into a block linked to
    /// the last one and empties the queue. Fails only where no nonce seals that
    /// batch at that time, and then leaves the ledger as it was.
    pub fn mine_pending_transactions(&mut self, miner_address: String, timestamp: u64) -> (r: Result<
        (),
        SealError,
    >)
        requires
            old(self).wf(),
            all_transfers(old(self)@.chain).len() + old(self)@.pending.len() < usize::MAX,
            old(self)@.chain.len() <= u32::MAX,
        ensures
            final(self).wf(),
            match r {
                Ok(()) => {
                    let b = final(self)@.chain.last();
                    &&& final(self)@.chain.len() == old(self)@.chain.len() + 1
                    &&& final(self)@.chain.drop_last() == old(self)@.chain
                    &&& final(self)@.pending.len() == 0
                    &&& b.index == old(self)@.chain.len()
                    &&& b.index == old(self)@.chain.last().index + 1
                    &&& b.timestamp == timestamp
                    &&& b.previous_hash@ == old(self)@.chain.last().hash@
                    &&& is_reward_batch(
                        b.transactions@,
                        old(self)@.pending,
                        miner_address@,
                        old(self)@.mining_reward,
                    )
                    &&& b.transactions@.len() == old(self)@.pending.len() + 1
                    &&& b.transactions@.drop_last() == old(self)@.pending
                    &&& b.transactions@.last().sender@ == system_id()
                    &&& b.transactions@.last().receiver@ == miner_address@
                    &&& b.transactions@.last().amount == old(self)@.mining_reward
                    &&& final(self)@.mining_reward == old(self)@.mining_reward
                    &&& forall|id: Seq<char>|
                        #![trigger balance(final(self)@.chain, id)]
                        balance(final(self)@.chain, id) == balance(old(self)@.chain, id) + balance_in(
                            b.transactions@,
                            id,
                        )
                },
                Err(e) => {
                    &&& e == SealError::MiningTimeout
                    &&& final(self)@ == old(self)@
                    &&& exists|txs: Seq<Transfer>|
                        #[trigger] is_reward_batch(
                            txs,
                            old(self)@.pending,
                            miner_address@,
                            old(self)@.mining_reward,
                        ) && unsealable(
                            old(self)@.chain.len() as u32,
                            timestamp,
                            txs,
                            old(self)@.chain.last().hash@,
                        )
                },
            },
    {
        proof {
            reveal_strlit("System");
        }
        let system = String::from_str("System");
        assert(system@ =~= system_id());
        let mut batch = copy_transfers(&self.pending_transactions);
        let reward_tx = Transfer { sender: system, receiver: miner_address, amount: self.mining_reward };
        batch.push(reward_tx);
        let last = self.chain.len() - 1;
        let next_index = self.chain[last].index + 1;
        let prev = self.chain[last].hash.clone();
        let ghost batch_view = batch@;
        proof {
            assert(batch_view.drop_last() =~= old(self)@.pending);
            assert(old(self)@.chain.last() == old(self)@.chain[last as int]);
            assert(next_index == old(self)@.chain.len() as u32);
        }
        match Block::new(next_index, batch, prev, timestamp) {
            Ok(b) => {
                let ghost old_chain = self@.chain;
                self.chain.push(b);
                self.pending_transactions.clear();
                proof {
                    lemma_all_transfers_push(old_chain, b);
                    assert(self@.chain.drop_last() =~= old_chain);
                    assert forall|id: Seq<char>|
                        balance(self@.chain, id) == balance(old_chain, id) + balance_in(
                            b.transactions@,
                            id,
                        ) by {
                        lemma_balance_append(all_transfers(old_chain), b.transactions@, id);
                    }
                }
                Ok(())
            },
            Err(e) => {
                assert(is_reward_batch(batch_view, old(self)@.pending, miner_address@, old(self)@.mining_reward));
                Err(e)
            },
        }
    }

    /// The balance of `address`: every amount it received minus every amount it
    /// sent, over all blocks of the chain. Pending transfers do not count.
    pub fn get_balance_of(&self, address: &str) -> (r: i128)
        requires
            self.wf(),
        ensures
            r == balance(self@.chain, address@),
    {
        let id = String::from_str(address);
        let ghost c = self@.chain;
        let mut total: i128 = 0;
        let mut i: usize = 0;
        while i < self.chain.len()
            invariant
                c == self@.chain,
                self.wf(),
                id@ == address@,
                i <= c.len(),
                total == balance_in(all_transfers(c.take(i as int)), id@),
                -(all_transfers(c.take(i as int)).len() * 0x8000_0000_0000_0000) <= total,
                total <= all_transfers(c.take(i as int)).len() * 0x8000_0000_0000_0000,
            decreases c.len() - i,
        {
            let txs = &self.chain[i].transactions;
            let ghost before = all_transfers(c.take(i as int));
            proof {
                assert(c.take(i + 1).drop_last() =~= c.take(i as int));
                lemma_all_transfers_prefix(c, i + 1);
            }
            let mut j: usize = 0;
            while j < txs.len()
                invariant
                    i < c.len(),
                    txs@ == c[i as int].transactions@,
                    before + txs@ == all_transfers(c.take(i + 1)),
                    all_transfers(c.take(i + 1)).len() <= usize::MAX,
                    id@ == address@,
                    j <= txs@.len(),
                    total == balance_in(before + txs@.take(j as int), id@),
                    -((before.len() + j) * 0x8000_0000_0000_0000) <= total,
                    total <= (before.len() + j) * 0x8000_0000_0000_0000,
                decreases txs@.len() - j,
            {
                let t = &txs[j];
                let mut d: i128 = 0;
                if t.receiver == id {
                    d = d + t.amount as i128;
                }
                if t.sender == id {
                    d = d - t.amount as i128;
                }
                proof {
                    assert(before + txs@.take(j + 1) =~= (before + txs@.take(j as int)).push(*t));
                    lemma_balance_push(before + txs@.take(j as int), *t, id@);
                }
                total = total + d;
                j = j + 1;
            }
            assert(txs@.take(j as int) =~= txs@);
            i = i + 1;
        }
        assert(c.take(i as int) =~= c);
        total
    }

    /// How many transfers the ledger holds, sealed and pending.
    pub fn transfer_count(&self) -> (r: usize)
        requires
            self.wf(),
        ensures
            r == all_transfers(self@.chain).len() + self@.pending.len(),
    {
        let ghost c = self@.chain;
        let mut n: usize = 0;
        let mut i: usize = 0;
        while i < self.chain.len()
            invariant
                c == self@.chain,
                self.wf(),
                i <= c.len(),
                n == all_transfers(c.take(i as int)).len(),
            decreases c.len() - i,
        {
            proof {
                assert(c.take(i + 1).drop_last() =~= c.take(i as int));
                lemma_all_transfers_prefix(c, i + 1);
            }
            n = n + self.chain[i].transactions.len();
            i = i + 1;
        }
        assert(c.take(i as int) =~= c);
        n + self.pending_transactions.len()
    }

    /// The sealed blocks, genesis first.
    pub fn chain(&self) -> (r: &Vec<Block>)
        ensures
            r@ == self@.chain,
    {
        &self.chain
    }

    /// The transfers that wait for the next block, in submission order.
    pub fn pending_transactions(&self) -> (r: &Vec<Transfer>)
        ensures
            r@ == self@.pending,
    {
        &self.pending_transactions
    }

    /// The amount credited to the miner of each block.
    pub fn mining_reward(&self) -> (r: i64)
        ensures
            r == self@.mining_reward,
    {
        self.mining_reward
    }
}

} // verus!
