//! The ledger: a genesis block followed by linked, sealed blocks, and the
//! wallet ledger that receives mining rewards.
use vstd::prelude::*;
use vstd::string::StringExecFns;
use vstd::utf8::{encode_utf8, encode_scalar};
use crate::block::{
    commitment, committable, fails_below, has_leading_zeros, preimage, transactions_body,
    transactions_text, Block, Transaction,
};
use crate::decimal::lemma_decimal_short;
use crate::primitives::MAX_DIGEST_INPUT;
use crate::wallet::WalletManager;

verus! {

/// Leading zero hex digits that a mined block's hash must have.
pub const DIFFICULTY: u32 = 2;

/// Base units in one coin.
pub const UNITS_PER_COIN: u64 = 100_000_000;

/// Reward credited to a miner for each mined block: ten coins.
pub const MINING_REWARD: u64 = 1_000_000_000;

/// Why a block was not appended.
#[derive(Debug, Clone, Copy, PartialEq, Eq)]
pub enum ChainError {
    /// The tail block already has the largest index.
    IndexExhausted,
    /// The new block's commitment input is too long for SHA-256.
    InputTooLong,
    /// No timestamp from the starting one up gives a hash with enough leading zeros.
    NoProofFound,
}

/// The `previous_hash` of the genesis block: there is no predecessor.
pub open spec fn sentinel() -> Seq<char> {
    seq!['0']
}

/// The fixed first block: index zero, no transactions, the sentinel as predecessor.
pub open spec fn is_genesis(b: Block) -> bool {
    &&& b.index == 0
    &&& b.previous_hash@ == sentinel()
    &&& b.transactions@.len() == 0
}

/// `next` follows `prev`: it names `prev`'s hash and has the next index.
pub open spec fn links(prev: Block, next: Block) -> bool {
    &&& next.previous_hash@ == prev.hash@
    &&& next.index == prev.index + 1
}

/// A genesis block followed by linked blocks, every one of them sealed.
pub open spec fn chain_valid(c: Seq<Block>) -> bool {
    &&& c.len() >= 1
    &&& is_genesis(c[0])
    &&& forall|i: int| 0 <= i < c.len() ==> (#[trigger] c[i]).is_sealed()
    &&& forall|i: int| 1 <= i < c.len() ==> links(c[i - 1], #[trigger] c[i])
}

/// `after` is `before` with one sealed block appended that links to `before`'s tail.
pub open spec fn appended(before: Seq<Block>, after: Seq<Block>) -> bool {
    &&& before.len() >= 1
    &&& after.len() == before.len() + 1
    &&& after.take(before.len() as int) == before
    &&& after.last().is_sealed()
    &&& links(before.last(), after.last())
}

/// The balances after crediting `amount` at `a`: unchanged when `a` is unknown
/// or the sum would overflow.
pub open spec fn after_credit(m: Map<Seq<char>, u64>, a: Seq<char>, amount: u64) -> Map<
    Seq<char>,
    u64,
> {
    if m.contains_key(a) && m[a] + amount <= u64::MAX {
        m.insert(a, (m[a] + amount) as u64)
    } else {
        m
    }
}

proof fn lemma_utf8_len(s: Seq<char>)
    ensures
        encode_utf8(s).len() <= 4 * s.len(),
    decreases s.len(),
{
    if s.len() > 0 {
        assert(encode_scalar(s[0] as u32).len() <= 4);
        lemma_utf8_len(s.drop_first());
    }
}

/// A block without transactions can always be committed to.
proof fn lemma_empty_committable(index: u32, timestamp: u64, ts: Seq<Transaction>)
    requires
        ts.len() == 0,
    ensures
        committable(index, timestamp, ts),
{
    lemma_decimal_short(index as nat);
    lemma_decimal_short(timestamp as nat);
    reveal_strlit("[");
    reveal_strlit("]");
    assert(transactions_body(ts) == Seq::<char>::empty());
    assert(transactions_text(ts).len() == 2);
    lemma_utf8_len(preimage(index, timestamp, ts));
}

/// Every block of a valid chain carries the commitment of its own index,
/// timestamp and transactions.
pub proof fn lemma_blocks_sealed(c: Seq<Block>)
    requires
        chain_valid(c),
    ensures
        forall|i: int|
            0 <= i < c.len() ==> (#[trigger] c[i]).hash@ == commitment(
                c[i].index,
                c[i].timestamp,
                c[i].transactions@,
            ),
{
    assert forall|i: int| 0 <= i < c.len() implies (#[trigger] c[i]).hash@ == commitment(
        c[i].index,
        c[i].timestamp,
        c[i].transactions@,
    ) by {
        assert(c[i].is_sealed());
    }
}

/// In a valid chain each block after the genesis block names its predecessor's
/// hash and has the next index; so the block at position `i` has index `i`.
pub proof fn lemma_chain_linked(c: Seq<Block>)
    requires
        chain_valid(c),
    ensures
        forall|i: int|
            1 <= i < c.len() ==> (#[trigger] c[i]).previous_hash@ == c[i - 1].hash@ && c[i].index
                == c[i - 1].index + 1,
        forall|i: int| 0 <= i < c.len() ==> (#[trigger] c[i]).index == i,
{
    assert forall|i: int| 0 <= i < c.len() implies (#[trigger] c[i]).index == i by {
        lemma_index_is_position(c, i);
    }
}

proof fn lemma_index_is_position(c: Seq<Block>, i: int)
    requires
        chain_valid(c),
        0 <= i < c.len(),
    ensures
        c[i].index == i,
    decreases i,
{
    if i > 0 {
        lemma_index_is_position(c, i - 1);
        assert(links(c[i - 1], c[i]));
    }
}

/// Appending one block the way [`Blockchain::add_transaction`] and
/// [`Blockchain::mine_block`] do keeps a chain valid.
pub proof fn lemma_append_keeps_valid(before: Seq<Block>, after: Seq<Block>)
    requires
        chain_valid(before),
        appended(before, after),
    ensures
        chain_valid(after),
{
    let n = before.len() as int;
    assert forall|i: int| 0 <= i < n implies #[trigger] after[i] == before[i] by {
        assert(after.take(n)[i] == after[i]);
    }
    assert forall|i: int| 0 <= i < after.len() implies (#[trigger] after[i]).is_sealed() by {
        if i < n {
            assert(after[i] == before[i]);
        }
    }
    assert forall|i: int| 1 <= i < after.len() implies links(after[i - 1], #[trigger] after[i]) by {
        if i < n {
            assert(after[i] == before[i]);
            assert(after[i - 1] == before[i - 1]);
        } else {
            assert(after[i - 1] == before[n - 1]);
        }
    }
}

/// A run of appends, one after another: after `k` of them the chain is valid,
/// has exactly `k` more blocks, and still begins with every block it had.
pub proof fn lemma_appends_accumulate(states: Seq<Seq<Block>>)
    requires
        states.len() >= 1,
        chain_valid(states[0]),
        forall|k: int| 0 <= k < states.len() - 1 ==> appended(#[trigger] states[k], states[k + 1]),
    ensures
        chain_valid(states.last()),
        states.last().len() == states[0].len() + states.len() - 1,
        states.last().take(states[0].len() as int) == states[0],
    decreases states.len(),
{
    if states.len() > 1 {
        let prefix = states.drop_last();
        assert forall|k: int| 0 <= k < prefix.len() - 1 implies appended(
            #[trigger] prefix[k],
            prefix[k + 1],
        ) by {
            assert(prefix[k] == states[k]);
            assert(prefix[k + 1] == states[k + 1]);
        }
        lemma_appends_accumulate(prefix);
        let k = states.len() - 2;
        assert(appended(states[k], states[k + 1]));
        lemma_append_keeps_valid(prefix.last(), states.last());
        let n0 = states[0].len() as int;
        let mid = prefix.last();
        let last = states.last();
        assert(last.take(n0) =~= mid.take(n0)) by {
            assert forall|i: int| 0 <= i < n0 implies last.take(n0)[i] == mid.take(n0)[i] by {
                assert(last.take(mid.len() as int)[i] == last[i]);
            }
        }
    }
}

/// Mining credits exactly the reward at a known address whose balance can hold it.
pub proof fn lemma_reward_credited(before: Map<Seq<char>, u64>, after: Map<Seq<char>, u64>, a: Seq<char>)
    requires
        after == after_credit(before, a, MINING_REWARD),
        before.contains_key(a),
        before[a] + MINING_REWARD <= u64::MAX,
    ensures
        after.contains_key(a),
        after[a] == before[a] + MINING_REWARD,
{
}

/// The chain together with the wallet ledger it rewards.
pub struct Blockchain {
    chain: Vec<Block>,
    wallet_manager: WalletManager,
}

impl Blockchain {
    /// The blocks, genesis first.
    pub closed spec fn blocks(&self) -> Seq<Block> {
        self.chain@
    }

    /// The wallet ledger's balances.
    pub closed spec fn balances(&self) -> Map<Seq<char>, u64> {
        self.wallet_manager.balances()
    }

    /// The wallet ledger holds at most one wallet per address.
    pub closed spec fn wallets_wf(&self) -> bool {
        self.wallet_manager.wf()
    }

    /// The chain is valid and the wallet ledger well formed.
    pub open spec fn wf(&self) -> bool {
        chain_valid(self.blocks()) && self.wallets_wf()
    }

    /// A ledger holding only a genesis block stamped with `timestamp`.
    pub fn new(wallet_manager: WalletManager, timestamp: u64) -> (r: Blockchain)
        requires
            wallet_manager.wf(),
        ensures
            r.wf(),
            r.blocks().len() == 1,
            is_genesis(r.blocks()[0]),
            r.blocks()[0].timestamp == timestamp,
            r.balances() == wallet_manager.balances(),
    {
        let ghost empty = Seq::<Transaction>::empty();
        proof {
            lemma_empty_committable(0, timestamp, empty);
        }
        let transactions: Vec<Transaction> = Vec::new();
        assert(transactions@ == empty);
        let genesis = Block::new(0, transactions, String::from_str("0"), timestamp).unwrap();
        proof {
            reveal_strlit("0");
            assert(genesis.previous_hash@ =~= sentinel());
        }
        let mut chain: Vec<Block> = Vec::new();
        chain.push(genesis);
        let r = Blockchain { chain, wallet_manager };
        assert(r.blocks()[0] == genesis);
        r
    }

    /// The blocks, genesis first.
    pub fn chain(&self) -> (r: &Vec<Block>)
        ensures
            r@ == self.blocks(),
    {
        &self.chain
    }

    /// The wallet ledger.
    pub fn wallet_manager(&self) -> (r: &WalletManager)
        requires
            self.wf(),
        ensures
            r.wf(),
            r.balances() == self.balances(),
    {
        &self.wallet_manager
    }

    /// Credits `amount` at `address` in the wallet ledger; see
    /// [`WalletManager::credit_wallet`].
    pub fn credit_wallet(&mut self, address: &str, amount: u64) -> (credited: bool)
        requires
            old(self).wf(),
        ensures
            final(self).wf(),
            final(self).blocks() == old(self).blocks(),
            final(self).balances() == after_credit(old(self).balances(), address@, amount),
            credited == (old(self).balances().contains_key(address@)
                && old(self).balances()[address@] + amount <= u64::MAX),
    {
        self.wallet_manager.credit_wallet(address, amount)
    }

    /// The balance at `address`, or `None` for an unknown address.
    pub fn get_balance(&self, address: &str) -> (r: Option<u64>)
        requires
            self.wf(),
        ensures
            r == (if self.balances().contains_key(address@) {
                Some(self.balances()[address@])
            } else {
                None::<u64>
            }),
    {
        self.wallet_manager.get_balance(address)
    }

    /// Appends a block stamped with `timestamp` that carries `transaction` alone
    /// and links to the tail. No proof of work is done.
    pub fn add_transaction(&mut self, transaction: Transaction, timestamp: u64) -> (r: Result<
        (),
        ChainError,
    >)
        requires
            old(self).wf(),
        ensures
            final(self).wf(),
            final(self).balances() == old(self).balances(),
            ({
                let tail = old(self).blocks().last();
                if tail.index == u32::MAX {
                    r == Err::<(), ChainError>(ChainError::IndexExhausted)
                } else if !committable(
                    (tail.index + 1) as u32,
                    timestamp,
                    seq![transaction],
                ) {
                    r == Err::<(), ChainError>(ChainError::InputTooLong)
                } else {
                    r is Ok
                }
            }),
            r is Err ==> final(self).blocks() == old(self).blocks(),
            r is Ok ==> {
                let b = final(self).blocks().last();
                &&& appended(old(self).blocks(), final(self).blocks())
                &&& b.timestamp == timestamp
                &&& b.transactions@ == seq![transaction]
            },
    {
        let n = self.chain.len();
        let tail = &self.chain[n - 1];
        if tail.index == u32::MAX {
            return Err(ChainError::IndexExhausted);
        }
        let index = tail.index + 1;
        let previous_hash = tail.hash.clone();
        let transactions = vec![transaction];
        match Block::new(index, transactions, previous_hash, timestamp) {
            None => Err(ChainError::InputTooLong),
            Some(block) => {
                self.chain.push(block);
                proof {
                    assert(self.blocks().take(n as int) =~= old(self).blocks());
                    assert forall|i: int| 1 <= i < self.blocks().len() implies links(
                        self.blocks()[i - 1],
                        #[trigger] self.blocks()[i],
                    ) by {
                        if i < n {
                            assert(self.blocks()[i] == old(self).blocks()[i]);
                            assert(self.blocks()[i - 1] == old(self).blocks()[i - 1]);
                        }
                    }
                }
                Ok(())
            },
        }
    }

    /// Mines a block without transactions that links to the tail: the search
    /// starts at `timestamp` and the hash needs [`DIFFICULTY`] leading zeros.
    /// Once the block is appended, [`MINING_REWARD`] is credited at
    /// `miner_address` (nothing is credited to an unknown address).
    pub fn mine_block(&mut self, miner_address: &str, timestamp: u64) -> (r: Result<(), ChainError>)
        requires
            old(self).wf(),
        ensures
            final(self).wf(),
            ({
                let tail = old(self).blocks().last();
                let index = (tail.index + 1) as u32;
                let none: Seq<Transaction> = Seq::empty();
                if tail.index == u32::MAX {
                    r == Err::<(), ChainError>(ChainError::IndexExhausted)
                } else if fails_below(index, none, timestamp, u64::MAX, DIFFICULTY as nat)
                    && !has_leading_zeros(commitment(index, u64::MAX, none), DIFFICULTY as nat) {
                    r == Err::<(), ChainError>(ChainError::NoProofFound)
                } else {
                    r is Ok
                }
            }),
            r is Err ==> final(self).blocks() == old(self).blocks() && final(self).balances()
                == old(self).balances(),
            r is Ok ==> {
                let b = final(self).blocks().last();
                &&& appended(old(self).blocks(), final(self).blocks())
                &&& b.transactions@.len() == 0
                &&& has_leading_zeros(b.hash@, DIFFICULTY as nat)
                &&& timestamp <= b.timestamp
                &&& fails_below(b.index, b.transactions@, timestamp, b.timestamp, DIFFICULTY as nat)
                &&& final(self).balances() == after_credit(
                    old(self).balances(),
                    miner_address@,
                    MINING_REWARD,
                )
            },
    {
        let n = self.chain.len();
        let tail = &self.chain[n - 1];
        if tail.index == u32::MAX {
            return Err(ChainError::IndexExhausted);
        }
        let index = tail.index + 1;
        let previous_hash = tail.hash.clone();
        let transactions: Vec<Transaction> = Vec::new();
        let ghost none = transactions@;
        proof {
            lemma_empty_committable(index, timestamp, none);
        }
        let mut block = Block::new(index, transactions, previous_hash, timestamp).unwrap();
        let found = block.mine(DIFFICULTY);
        if !found {
            proof {
                lemma_empty_committable(index, block.timestamp, none);
            }
            return Err(ChainError::NoProofFound);
        }
        self.chain.push(block);
        proof {
            assert(self.blocks().take(n as int) =~= old(self).blocks());
            assert forall|i: int| 1 <= i < self.blocks().len() implies links(
                self.blocks()[i - 1],
                #[trigger] self.blocks()[i],
            ) by {
                if i < n {
                    assert(self.blocks()[i] == old(self).blocks()[i]);
                    assert(self.blocks()[i - 1] == old(self).blocks()[i - 1]);
                }
            }
        }
        self.wallet_manager.credit_wallet(miner_address, MINING_REWARD);
        Ok(())
    }
}

} // verus!
