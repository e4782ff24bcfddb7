//! The ledger: the chain of blocks, the pool of pending transactions, the
//! mining difficulty and its retargeting, and balances replayed from the chain.
use vstd::prelude::*;
use crate::block::{block_hash, has_zero_prefix, Block};
use crate::clock::clock_seconds;
use crate::transaction::{views_of, Transaction, TransactionView};

verus! {

/// Reward credited to the miner of each block: 6.25 coins, in base units.
pub const MINING_REWARD: u64 = 625_000_000;

/// Seconds aimed at between blocks; mining faster raises the difficulty and
/// mining slower than twice this lowers it.
pub const TARGET_BLOCK_SECONDS: i64 = 10;

/// Sender of the reward transaction of each block.
pub const REWARD_SENDER: &'static str = "System";

/// Sender of the transaction that pays a block's fees to its miner.
pub const FEES_SENDER: &'static str = "Fees";

/// What a transaction adds to the balance of `addr`: its amount when `addr`
/// receives it, less its amount when `addr` sends it.
pub open spec fn tx_delta(t: TransactionView, addr: Seq<char>) -> int {
    (if t.receiver == addr { t.amount as int } else { 0 }) - (if t.sender == addr {
        t.amount as int
    } else {
        0
    })
}

/// The balance of `addr` over a list of transactions.
pub open spec fn balance_in(ts: Seq<TransactionView>, addr: Seq<char>) -> int
    decreases ts.len(),
{
    if ts.len() == 0 {
        0
    } else {
        balance_in(ts.drop_last(), addr) + tx_delta(ts.last(), addr)
    }
}

/// The balance of `addr` replayed over every block.
pub open spec fn chain_balance(blocks: Seq<Block>, addr: Seq<char>) -> int
    decreases blocks.len(),
{
    if blocks.len() == 0 {
        0
    } else {
        chain_balance(blocks.drop_last(), addr) + balance_in(
            views_of(blocks.last().transactions@),
            addr,
        )
    }
}

/// The number of transactions in all blocks.
pub open spec fn tx_count(blocks: Seq<Block>) -> nat
    decreases blocks.len(),
{
    if blocks.len() == 0 {
        0
    } else {
        tx_count(blocks.drop_last()) + blocks.last().transactions@.len()
    }
}

/// The sum of the fees of a list of transactions.
pub open spec fn fee_total(ts: Seq<TransactionView>) -> nat
    decreases ts.len(),
{
    if ts.len() == 0 {
        0
    } else {
        fee_total(ts.drop_last()) + ts.last().fee as nat
    }
}

/// A sequence in reverse order.
pub open spec fn reversed<T>(s: Seq<T>) -> Seq<T> {
    Seq::new(s.len(), |i: int| s[s.len() - 1 - i])
}

/// Every block after the first links to its predecessor's hash and holds the
/// hash recomputed from its own fields.
pub open spec fn chain_valid(blocks: Seq<Block>) -> bool {
    forall|i: int|
        1 <= i < blocks.len() ==> {
            &&& (#[trigger] blocks[i]).previous_hash@ == blocks[i - 1].hash@
            &&& blocks[i].hash@ == blocks[i].computed_hash()
        }
}

/// No nonce gives the block with these fields a hash that begins with
/// `difficulty` zeros.
pub open spec fn unsolvable(
    index: u32,
    timestamp: i64,
    txs: Seq<TransactionView>,
    previous_hash: Seq<char>,
    difficulty: u32,
) -> bool {
    forall|n: u64|
        !has_zero_prefix(
            #[trigger] block_hash(index, timestamp, txs, previous_hash, n),
            difficulty as nat,
        )
}

/// The reward transaction for a block mined by `miner`.
pub open spec fn reward_view(miner: Seq<char>) -> TransactionView {
    TransactionView {
        sender: REWARD_SENDER@,
        receiver: miner,
        amount: MINING_REWARD,
        fee: 0,
        signature: Seq::empty(),
    }
}

/// The transaction paying `total` fees to `miner`.
pub open spec fn fee_view(miner: Seq<char>, total: u64) -> TransactionView {
    TransactionView {
        sender: FEES_SENDER@,
        receiver: miner,
        amount: total,
        fee: 0,
        signature: Seq::empty(),
    }
}

/// The transactions of a block mined by `miner` from the pending pool `pool`:
/// the reward, the pool from the most recently submitted to the first, and,
/// when the fees add up to more than zero, their payment to the miner.
pub open spec fn mined_list(miner: Seq<char>, pool: Seq<TransactionView>) -> Seq<TransactionView> {
    seq![reward_view(miner)] + reversed(pool) + if fee_total(pool) > 0 {
        seq![fee_view(miner, fee_total(pool) as u64)]
    } else {
        Seq::empty()
    }
}

/// The difficulty after a block mined `elapsed` seconds after the previous
/// one: one more below the target interval (up to `u32::MAX`), one less (down
/// to 1) above twice the target, otherwise unchanged.
pub open spec fn retargeted(difficulty: u32, elapsed: int) -> u32 {
    if elapsed < TARGET_BLOCK_SECONDS {
        if difficulty < u32::MAX {
            (difficulty + 1) as u32
        } else {
            difficulty
        }
    } else if elapsed > 2 * TARGET_BLOCK_SECONDS && difficulty > 1 {
        (difficulty - 1) as u32
    } else {
        difficulty
    }
}

/// Largest amount of one transaction, plus one.
pub open spec fn amount_bound() -> int {
    0x1_0000_0000_0000_0000
}

/// The transaction count of a prefix of the chain is at most that of the
/// whole chain.
proof fn lemma_count_prefix(blocks: Seq<Block>, i: int)
    requires
        0 <= i <= blocks.len(),
    ensures
        tx_count(blocks.subrange(0, i)) <= tx_count(blocks),
    decreases blocks.len(),
{
    if i < blocks.len() {
        assert(blocks.drop_last().subrange(0, i) =~= blocks.subrange(0, i));
        lemma_count_prefix(blocks.drop_last(), i);
    } else {
        assert(blocks.subrange(0, i) =~= blocks);
    }
}

/// One more transaction moves a balance by at most one amount bound.
proof fn lemma_bound_step(k: int)
    requires
        0 <= k,
    ensures
        (k + 1) * amount_bound() == k * amount_bound() + amount_bound(),
{
    assert((k + 1) * amount_bound() == k * amount_bound() + amount_bound()) by (nonlinear_arith);
}

/// Below `2^63` transactions, the balance bound fits in an `i128`.
proof fn lemma_bound_fits(k: int)
    requires
        0 <= k < 0x8000_0000_0000_0000,
    ensures
        k * amount_bound() <= 0x7fff_ffff_ffff_ffff_0000_0000_0000_0000,
{
    assert(k * amount_bound() <= 0x7fff_ffff_ffff_ffff * amount_bound()) by (nonlinear_arith)
        requires
            0 <= k <= 0x7fff_ffff_ffff_ffff,
    ;
}

/// Appending a block adds its transactions' effect to every balance.
proof fn lemma_balance_append(before: Seq<Block>, after: Seq<Block>)
    requires
        after.len() == before.len() + 1,
        after.drop_last() == before,
    ensures
        forall|addr: Seq<char>|
            #[trigger] chain_balance(after, addr) == chain_balance(before, addr) + balance_in(
                views_of(after.last().transactions@),
                addr,
            ),
{
}

/// A block holding only its reward credits the miner with exactly the reward.
proof fn lemma_reward_only(miner: Seq<char>)
    requires
        miner != REWARD_SENDER@,
    ensures
        balance_in(mined_list(miner, Seq::empty()), miner) == MINING_REWARD,
{
    let l = mined_list(miner, Seq::empty());
    assert(fee_total(Seq::<TransactionView>::empty()) == 0);
    assert(l =~= seq![reward_view(miner)]);
    assert(l.drop_last() =~= Seq::<TransactionView>::empty());
    assert(balance_in(l.drop_last(), miner) == 0);
    assert(l.last() == reward_view(miner));
    assert(tx_delta(reward_view(miner), miner) == MINING_REWARD);
}

/// The ledger.
#[derive(Debug)]
pub struct Blockchain {
    pub chain: Vec<Block>,
    /// Submitted transactions not yet mined, in order of submission.
    pub mempool: Vec<Transaction>,
    pub difficulty: u32,
    /// When the last block was mined (or the ledger created), in seconds since
    /// the Unix epoch.
    pub last_mined_time: i64,
}

impl Blockchain {
    /// The chain holds its genesis block and the difficulty is at least 1.
    pub open spec fn well_formed(&self) -> bool {
        self.chain@.len() > 0 && self.difficulty >= 1
    }

    /// The balance of `addr` replayed over the confirmed chain.
    pub open spec fn balance_of(&self, addr: Seq<char>) -> int {
        chain_balance(self.chain@, addr)
    }

    /// Whether another block can follow the last one without its index
    /// overflowing.
    pub open spec fn can_extend(&self) -> bool {
        self.chain@.len() > 0 && self.chain@.last().index < u32::MAX
    }

    /// A ledger whose genesis block and last mining time are both `now`: the
    /// genesis block has index 0, no transactions and predecessor hash `"0"`,
    /// and is mined at `difficulty` from nonce 0.
    pub fn with_time(difficulty: u32, now: i64) -> (r: Self)
        requires
            difficulty >= 1,
        ensures
            r.well_formed(),
            r.chain@.len() == 1,
            r.chain@[0].index == 0,
            r.chain@[0].timestamp == now,
            r.chain@[0].transactions@.len() == 0,
            r.chain@[0].previous_hash@ == "0"@,
            r.chain@[0].hash@ == r.chain@[0].computed_hash(),
            forall|n: u64|
                n < r.chain@[0].nonce ==> !has_zero_prefix(
                    #[trigger] block_hash(0, r.chain@[0].timestamp, Seq::empty(), "0"@, n),
                    difficulty as nat,
                ),
            has_zero_prefix(r.chain@[0].hash@, difficulty as nat) || r.chain@[0].nonce == u64::MAX,
            r.mempool@.len() == 0,
            r.difficulty == difficulty,
            r.last_mined_time == now,
            chain_valid(r.chain@),
            tx_count(r.chain@) == 0,
            forall|addr: Seq<char>| #[trigger] chain_balance(r.chain@, addr) == 0,
    {
        let mut genesis = Block::with_timestamp(0, Vec::new(), "0".to_owned(), 0, now);
        let _ = genesis.mine_block(difficulty);
        let mut chain: Vec<Block> = Vec::new();
        chain.push(genesis);
        let r = Blockchain { chain, mempool: Vec::new(), difficulty, last_mined_time: now };
        assert(views_of(r.chain@[0].transactions@) =~= Seq::empty());
        assert(tx_count(r.chain@.drop_last()) == 0);
        assert forall|addr: Seq<char>| #[trigger] chain_balance(r.chain@, addr) == 0 by {
            assert(r.chain@.drop_last().len() == 0);
            assert(chain_balance(r.chain@.drop_last(), addr) == 0);
            assert(balance_in(views_of(r.chain@.last().transactions@), addr) == 0);
        }
        r
    }

    /// A ledger created now (see `with_time`).
    pub fn new(difficulty: u32) -> (r: Self)
        requires
            difficulty >= 1,
        ensures
            r.well_formed(),
            r.chain@.len() == 1,
            r.chain@[0].index == 0,
            r.chain@[0].transactions@.len() == 0,
            r.chain@[0].previous_hash@ == "0"@,
            r.chain@[0].hash@ == r.chain@[0].computed_hash(),
            forall|n: u64|
                n < r.chain@[0].nonce ==> !has_zero_prefix(
                    #[trigger] block_hash(0, r.chain@[0].timestamp, Seq::empty(), "0"@, n),
                    difficulty as nat,
                ),
            has_zero_prefix(r.chain@[0].hash@, difficulty as nat) || r.chain@[0].nonce == u64::MAX,
            r.mempool@.len() == 0,
            r.difficulty == difficulty,
            r.last_mined_time == r.chain@[0].timestamp,
            chain_valid(r.chain@),
            tx_count(r.chain@) == 0,
            forall|addr: Seq<char>| #[trigger] chain_balance(r.chain@, addr) == 0,
    {
        Blockchain::with_time(difficulty, clock_seconds())
    }

    /// The balance of `address` replayed over every confirmed block: amounts
    /// received less amounts sent. Pending transactions do not count. Below
    /// `2^63` confirmed transactions every partial sum fits in an `i128`.
    pub fn get_balance(&self, address: &str) -> (r: i128)
        requires
            tx_count(self.chain@) < 0x8000_0000_0000_0000,
        ensures
            r == self.balance_of(address@),
    {
        let addr = address.to_owned();
        let mut balance: i128 = 0;
        let mut i: usize = 0;
        while i < self.chain.len()
            invariant
                i <= self.chain@.len(),
                addr@ == address@,
                tx_count(self.chain@) < 0x8000_0000_0000_0000,
                balance == chain_balance(self.chain@.subrange(0, i as int), address@),
                -(tx_count(self.chain@.subrange(0, i as int)) * amount_bound()) <= balance
                    <= tx_count(self.chain@.subrange(0, i as int)) * amount_bound(),
            decreases self.chain@.len() - i,
        {
            let txs = &self.chain[i].transactions;
            let ghost done = self.chain@.subrange(0, i as int);
            let ghost upto = self.chain@.subrange(0, i + 1);
            proof {
                assert(upto.drop_last() =~= done);
                lemma_count_prefix(self.chain@, i + 1);
            }
            let mut j: usize = 0;
            while j < txs.len()
                invariant
                    j <= txs@.len(),
                    addr@ == address@,
                    tx_count(done) + txs@.len() == tx_count(upto),
                    tx_count(upto) < 0x8000_0000_0000_0000,
                    balance == chain_balance(done, address@) + balance_in(
                        views_of(txs@.subrange(0, j as int)),
                        address@,
                    ),
                    -((tx_count(done) + j) * amount_bound()) <= balance <= (tx_count(done) + j)
                        * amount_bound(),
                decreases txs@.len() - j,
            {
                let t = &txs[j];
                let mut delta: i128 = 0;
                if t.receiver == addr {
                    delta = delta + t.amount as i128;
                }
                if t.sender == addr {
                    delta = delta - t.amount as i128;
                }
                proof {
                    lemma_bound_step(tx_count(done) + j);
                    lemma_bound_fits(tx_count(done) + j + 1);
                    let vs = views_of(txs@.subrange(0, j + 1));
                    assert(vs.drop_last() =~= views_of(txs@.subrange(0, j as int)));
                    assert(vs.last() == t@);
                }
                balance = balance + delta;
                j = j + 1;
            }
            proof {
                assert(txs@.subrange(0, j as int) =~= txs@);
            }
            i = i + 1;
        }
        proof {
            assert(self.chain@.subrange(0, i as int) =~= self.chain@);
        }
        balance
    }

    /// Mines the pending pool into a new block for `miner_address`: the reward
    /// transaction, then the pool drained from the most recently submitted to
    /// the first, then, when their fees add up to more than zero, a transaction
    /// paying those fees to the miner. The block is mined and appended as
    /// `add_block` does, and the difficulty is retargeted against the current
    /// time. The pool is left empty in every case. Returns whether the block
    /// was appended.
    pub fn mine_pending_transactions(&mut self, miner_address: &str) -> (appended: bool)
        requires
            old(self).can_extend(),
            fee_total(views_of(old(self).mempool@)) <= u64::MAX,
        ensures
            final(self).mempool@.len() == 0,
            appended ==> final(self).chain@.drop_last() == old(self).chain@,
            appended ==> final(self).chain@.len() == old(self).chain@.len() + 1,
            appended ==> tx_count(final(self).chain@) == tx_count(old(self).chain@) + mined_list(
                miner_address@,
                views_of(old(self).mempool@),
            ).len(),
            appended ==> ({
                let b = final(self).chain@.last();
                &&& b.index == old(self).chain@.last().index + 1
                &&& views_of(b.transactions@) == mined_list(
                    miner_address@,
                    views_of(old(self).mempool@),
                )
                &&& b.previous_hash@ == old(self).chain@.last().hash@
                &&& b.hash@ == b.computed_hash()
                &&& has_zero_prefix(b.hash@, old(self).difficulty as nat)
            }),
            appended ==> forall|addr: Seq<char>|
                #[trigger] chain_balance(final(self).chain@, addr) == chain_balance(
                    old(self).chain@,
                    addr,
                ) + balance_in(mined_list(miner_address@, views_of(old(self).mempool@)), addr),
            appended && old(self).mempool@.len() == 0 && miner_address@ != REWARD_SENDER@
                ==> final(self).balance_of(miner_address@) == old(self).balance_of(miner_address@)
                + MINING_REWARD,
            !appended ==> final(self).chain == old(self).chain,
            !appended ==> exists|timestamp: i64|
                #[trigger] unsolvable(
                    (old(self).chain@.last().index + 1) as u32,
                    timestamp,
                    mined_list(miner_address@, views_of(old(self).mempool@)),
                    old(self).chain@.last().hash@,
                    old(self).difficulty,
                ),
            final(self).difficulty == retargeted(
                old(self).difficulty,
                final(self).last_mined_time - old(self).last_mined_time,
            ),
            old(self).difficulty >= 1 ==> final(self).difficulty >= 1,
            chain_valid(old(self).chain@) ==> chain_valid(final(self).chain@),
    {
        let ghost pool = views_of(old(self).mempool@);
        let mut block_transactions: Vec<Transaction> = Vec::new();
        block_transactions.push(Transaction::new(REWARD_SENDER, miner_address, MINING_REWARD, 0));
        let mut total_fee: u64 = 0;
        while self.mempool.len() > 0
            invariant
                self.chain == old(self).chain,
                self.difficulty == old(self).difficulty,
                self.last_mined_time == old(self).last_mined_time,
                self.mempool@.len() <= pool.len(),
                views_of(self.mempool@) == pool.subrange(0, self.mempool@.len() as int),
                views_of(block_transactions@) == seq![reward_view(miner_address@)] + reversed(
                    pool,
                ).subrange(0, pool.len() - self.mempool@.len()),
                total_fee + fee_total(views_of(self.mempool@)) == fee_total(pool),
                fee_total(pool) <= u64::MAX,
            decreases self.mempool@.len(),
        {
            let ghost before = self.mempool@;
            let ghost before_txs = block_transactions@;
            match self.mempool.pop() {
                Some(tx) => {
                    proof {
                        let vb = views_of(before);
                        assert(vb.drop_last() =~= views_of(self.mempool@));
                        assert(vb.last() == tx@);
                        assert(fee_total(vb) == fee_total(vb.drop_last()) + tx.fee);
                    }
                    total_fee = total_fee + tx.fee;
                    block_transactions.push(tx);
                    proof {
                        assert(views_of(before)[before.len() - 1] == tx@);
                        assert(tx@ == pool[before.len() - 1]);
                        assert(views_of(block_transactions@) =~= views_of(before_txs).push(tx@));
                        assert(views_of(self.mempool@) =~= pool.subrange(
                            0,
                            self.mempool@.len() as int,
                        ));
                        assert(views_of(block_transactions@) =~= seq![reward_view(miner_address@)]
                            + reversed(pool).subrange(0, pool.len() - self.mempool@.len()));
                    }
                },
                None => {},
            }
        }
        proof {
            assert(reversed(pool).subrange(0, pool.len() as int) =~= reversed(pool));
        }
        if total_fee > 0 {
            block_transactions.push(Transaction::new(FEES_SENDER, miner_address, total_fee, 0));
        }
        assert(views_of(block_transactions@) =~= mined_list(miner_address@, pool));
        let appended = self.add_block(block_transactions);
        proof {
            if appended {
                lemma_balance_append(old(self).chain@, self.chain@);
                if pool.len() == 0 && miner_address@ != REWARD_SENDER@ {
                    lemma_reward_only(miner_address@);
                }
            }
        }
        self.adjust_difficulty();
        appended
    }

    /// Appends `tx` to the pending pool, unchecked.
    pub fn submit(&mut self, tx: Transaction)
        ensures
            final(self).mempool@ == old(self).mempool@.push(tx),
            final(self).chain == old(self).chain,
            final(self).difficulty == old(self).difficulty,
            final(self).last_mined_time == old(self).last_mined_time,
            forall|addr: Seq<char>|
                #[trigger] chain_balance(final(self).chain@, addr) == chain_balance(
                    old(self).chain@,
                    addr,
                ),
    {
        self.mempool.push(tx);
    }

    /// Whether every block after the first links to its predecessor's hash and
    /// holds the hash recomputed from its own fields.
    pub fn is_valid(&self) -> (r: bool)
        ensures
            r == chain_valid(self.chain@),
    {
        let mut i: usize = 1;
        while i < self.chain.len()
            invariant
                1 <= i,
                i <= self.chain@.len() || self.chain@.len() == 0,
                forall|j: int|
                    1 <= j < i && j < self.chain@.len() ==> {
                        &&& (#[trigger] self.chain@[j]).previous_hash@ == self.chain@[j - 1].hash@
                        &&& self.chain@[j].hash@ == self.chain@[j].computed_hash()
                    },
            decreases self.chain@.len() - i,
        {
            let current = &self.chain[i];
            let previous = &self.chain[i - 1];
            if !(current.previous_hash == previous.hash) {
                return false;
            }
            let recomputed = current.calculate_hash();
            if !(current.hash == recomputed) {
                return false;
            }
            i = i + 1;
        }
        true
    }

    /// Builds a block of `transactions` after the last one, stamped with the
    /// current time, mines it at the current difficulty and appends it. Returns
    /// whether a nonce was found; otherwise the chain is left as it was.
    pub fn add_block(&mut self, transactions: Vec<Transaction>) -> (appended: bool)
        requires
            old(self).can_extend(),
        ensures
            final(self).mempool == old(self).mempool,
            final(self).difficulty == old(self).difficulty,
            final(self).last_mined_time == old(self).last_mined_time,
            appended ==> final(self).chain@.drop_last() == old(self).chain@,
            appended ==> final(self).chain@.len() == old(self).chain@.len() + 1,
            appended ==> tx_count(final(self).chain@) == tx_count(old(self).chain@)
                + transactions@.len(),
            appended ==> ({
                let b = final(self).chain@.last();
                &&& b.index == old(self).chain@.last().index + 1
                &&& b.transactions == transactions
                &&& b.previous_hash@ == old(self).chain@.last().hash@
                &&& b.hash@ == b.computed_hash()
                &&& has_zero_prefix(b.hash@, old(self).difficulty as nat)
                &&& forall|n: u64|
                    n < b.nonce ==> !has_zero_prefix(
                        #[trigger] block_hash(
                            b.index,
                            b.timestamp,
                            views_of(transactions@),
                            b.previous_hash@,
                            n,
                        ),
                        old(self).difficulty as nat,
                    )
            }),
            !appended ==> final(self).chain == old(self).chain,
            !appended ==> exists|timestamp: i64|
                #[trigger] unsolvable(
                    (old(self).chain@.last().index + 1) as u32,
                    timestamp,
                    views_of(transactions@),
                    old(self).chain@.last().hash@,
                    old(self).difficulty,
                ),
            chain_valid(old(self).chain@) ==> chain_valid(final(self).chain@),
    {
        let last = self.chain.len() - 1;
        let index = self.chain[last].index + 1;
        let previous_hash = self.chain[last].hash.clone();
        let mut block = Block::new(index, transactions, previous_hash, 0);
        let found = block.mine_block(self.difficulty);
        if found {
            self.chain.push(block);
            assert(self.chain@.drop_last() =~= old(self).chain@);
        } else {
            assert(unsolvable(
                index,
                block.timestamp,
                views_of(block.transactions@),
                block.previous_hash@,
                self.difficulty,
            ));
        }
        found
    }

    /// Retargets the difficulty for a block mined at time `now` (seconds since
    /// the Unix epoch) and records `now` as the time of the last mining.
    pub fn adjust_difficulty_at(&mut self, now: i64)
        ensures
            final(self).difficulty == retargeted(
                old(self).difficulty,
                now - old(self).last_mined_time,
            ),
            old(self).difficulty >= 1 ==> final(self).difficulty >= 1,
            final(self).last_mined_time == now,
            final(self).chain == old(self).chain,
            final(self).mempool == old(self).mempool,
    {
        let elapsed: i128 = now as i128 - self.last_mined_time as i128;
        if elapsed < TARGET_BLOCK_SECONDS as i128 {
            if self.difficulty < u32::MAX {
                self.difficulty = self.difficulty + 1;
            }
        } else if elapsed > 2 * TARGET_BLOCK_SECONDS as i128 {
            if self.difficulty > 1 {
                self.difficulty = self.difficulty - 1;
            }
        }
        self.last_mined_time = now;
    }

    /// Retargets the difficulty against the current time (see
    /// `adjust_difficulty_at`).
    pub fn adjust_difficulty(&mut self)
        ensures
            final(self).difficulty == retargeted(
                old(self).difficulty,
                final(self).last_mined_time - old(self).last_mined_time,
            ),
            old(self).difficulty >= 1 ==> final(self).difficulty >= 1,
            final(self).chain == old(self).chain,
            final(self).mempool == old(self).mempool,
    {
        let now = clock_seconds();
        self.adjust_difficulty_at(now);
    }
}

} // verus!
