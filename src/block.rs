//! Transactions, blocks, the hash commitment over a block's fields, and the
//! proof-of-work search.
use vstd::prelude::*;
use vstd::string::StringExecFns;
use vstd::string::StrSliceExecFns;
use vstd::utf8::encode_utf8;
use crate::decimal::{decimal, push_decimal};
use crate::primitives::{
    hex_encode, hex_of, json_string, json_string_of, sha256, sha256_of, MAX_DIGEST_INPUT,
};

verus! {

/// A transfer of `amount` base units (see [`crate::chain::UNITS_PER_COIN`]) from
/// `sender` to `receiver`.
#[derive(Clone, Debug)]
pub struct Transaction {
    pub sender: String,
    pub receiver: String,
    pub amount: u64,
}

/// A block of the ledger. `hash` is meant to be the commitment over
/// `index`, `timestamp` and `transactions` (see [`Block::is_sealed`]).
#[derive(Clone, Debug)]
pub struct Block {
    pub index: u32,
    pub timestamp: u64,
    pub transactions: Vec<Transaction>,
    pub previous_hash: String,
    pub hash: String,
}

/// Canonical text of one transaction: a JSON object with the fields in order.
pub open spec fn transaction_text(t: Transaction) -> Seq<char> {
    "{\"sender\":"@ + json_string_of(t.sender@) + ",\"receiver\":"@ + json_string_of(t.receiver@)
        + ",\"amount\":"@ + decimal(t.amount as nat) + "}"@
}

/// The transactions' texts joined by commas.
pub open spec fn transactions_body(ts: Seq<Transaction>) -> Seq<char>
    decreases ts.len(),
{
    if ts.len() == 0 {
        Seq::empty()
    } else if ts.len() == 1 {
        transaction_text(ts[0])
    } else {
        transactions_body(ts.drop_last()) + ","@ + transaction_text(ts.last())
    }
}

/// Canonical text of a transaction list: a JSON array.
pub open spec fn transactions_text(ts: Seq<Transaction>) -> Seq<char> {
    "["@ + transactions_body(ts) + "]"@
}

/// The text a block commits to: index, then timestamp, then transactions.
pub open spec fn preimage(index: u32, timestamp: u64, ts: Seq<Transaction>) -> Seq<char> {
    decimal(index as nat) + decimal(timestamp as nat) + transactions_text(ts)
}

/// Whether the UTF-8 encoding of `data` is short enough to be digested.
pub open spec fn digest_fits(data: Seq<char>) -> bool {
    encode_utf8(data).len() < MAX_DIGEST_INPUT
}

/// Lowercase hex text of the SHA-256 digest of the UTF-8 encoding of `data`.
pub open spec fn hash_text(data: Seq<char>) -> Seq<char> {
    hex_of(sha256_of(encode_utf8(data)))
}

/// The hash commitment of a block's fields.
pub open spec fn commitment(index: u32, timestamp: u64, ts: Seq<Transaction>) -> Seq<char> {
    hash_text(preimage(index, timestamp, ts))
}

/// Whether the commitment of these fields can be computed.
pub open spec fn committable(index: u32, timestamp: u64, ts: Seq<Transaction>) -> bool {
    digest_fits(preimage(index, timestamp, ts))
}

/// `h` begins with at least `d` `'0'` characters.
pub open spec fn has_leading_zeros(h: Seq<char>, d: nat) -> bool {
    d <= h.len() && forall|i: int| 0 <= i < d ==> h[i] == '0'
}

fn push_json_string(s: &mut String, v: &String)
    ensures
        final(s)@ == old(s)@ + json_string_of(v@),
{
    match json_string(v.as_str()) {
        Ok(q) => s.append(q.as_str()),
        Err(_) => {},
    }
}

fn push_transaction_text(s: &mut String, t: &Transaction)
    ensures
        final(s)@ == old(s)@ + transaction_text(*t),
{
    s.append("{\"sender\":");
    push_json_string(s, &t.sender);
    s.append(",\"receiver\":");
    push_json_string(s, &t.receiver);
    s.append(",\"amount\":");
    push_decimal(s, t.amount);
    s.append("}");
    assert(s@ =~= old(s)@ + transaction_text(*t));
}

/// The canonical text of a transaction list.
pub fn transactions_json(ts: &Vec<Transaction>) -> (r: String)
    ensures
        r@ == transactions_text(ts@),
{
    let mut s = String::from_str("[");
    let n = ts.len();
    let mut i: usize = 0;
    while i < n
        invariant
            n == ts@.len(),
            i <= n,
            s@ == "["@ + transactions_body(ts@.take(i as int)),
        decreases n - i,
    {
        if i > 0 {
            s.append(",");
        }
        push_transaction_text(&mut s, &ts[i]);
        proof {
            let next = ts@.take(i + 1);
            assert(next.drop_last() =~= ts@.take(i as int));
            assert(next.last() == ts@[i as int]);
            assert(s@ =~= "["@ + transactions_body(next));
        }
        i = i + 1;
    }
    assert(ts@.take(n as int) =~= ts@);
    s.append("]");
    s
}

/// The text that a block with these fields commits to.
pub fn preimage_text(index: u32, timestamp: u64, ts: &Vec<Transaction>) -> (r: String)
    ensures
        r@ == preimage(index, timestamp, ts@),
{
    let mut s = String::new();
    push_decimal(&mut s, index as u64);
    push_decimal(&mut s, timestamp);
    let body = transactions_json(ts);
    s.append(body.as_str());
    assert(s@ =~= preimage(index, timestamp, ts@));
    s
}

/// Whether `hash` begins with at least `difficulty` `'0'` characters.
pub fn meets_difficulty(hash: &str, difficulty: u32) -> (r: bool)
    ensures
        r == has_leading_zeros(hash@, difficulty as nat),
{
    let len = hash.unicode_len();
    if (difficulty as usize) > len {
        return false;
    }
    let mut i: usize = 0;
    while i < difficulty as usize
        invariant
            difficulty as nat <= hash@.len(),
            i <= difficulty,
            forall|j: int| 0 <= j < i ==> hash@[j] == '0',
        decreases difficulty as usize - i,
    {
        if hash.get_char(i) != '0' {
            return false;
        }
        i = i + 1;
    }
    true
}

/// The commitment of the given fields, or `None` when it cannot be computed.
pub fn commit(index: u32, timestamp: u64, ts: &Vec<Transaction>) -> (r: Option<String>)
    ensures
        r is Some <==> committable(index, timestamp, ts@),
        r matches Some(h) ==> h@ == commitment(index, timestamp, ts@),
{
    let data = preimage_text(index, timestamp, ts);
    Block::calculate_hash(data.as_str())
}

/// Every timestamp in `[from, to)` gives a computable commitment that lacks
/// `d` leading zeros.
pub open spec fn fails_below(index: u32, ts: Seq<Transaction>, from: u64, to: u64, d: nat) -> bool {
    forall|t: u64|
        #![trigger committable(index, t, ts)]
        #![trigger commitment(index, t, ts)]
        from <= t < to ==> {
            &&& committable(index, t, ts)
            &&& !has_leading_zeros(commitment(index, t, ts), d)
        }
}

/// The commitment depends on the index, timestamp and transactions alone: two
/// sealed blocks that agree on those fields carry the same hash.
pub proof fn lemma_commitment_deterministic(a: Block, b: Block)
    requires
        a.is_sealed(),
        b.is_sealed(),
        a.index == b.index,
        a.timestamp == b.timestamp,
        a.transactions@ == b.transactions@,
    ensures
        a.hash@ == b.hash@,
{
}

impl Block {
    /// `hash` is the commitment of the block's current index, timestamp and
    /// transactions.
    pub open spec fn is_sealed(&self) -> bool {
        &&& committable(self.index, self.timestamp, self.transactions@)
        &&& self.hash@ == commitment(self.index, self.timestamp, self.transactions@)
    }

    /// Hex text of the SHA-256 digest of `data`, or `None` when `data` is too
    /// long for SHA-256.
    pub fn calculate_hash(data: &str) -> (r: Option<String>)
        ensures
            r is Some <==> digest_fits(data@),
            r matches Some(h) ==> h@ == hash_text(data@),
    {
        let bytes = data.as_bytes();
        if bytes.len() as u64 >= MAX_DIGEST_INPUT {
            return None;
        }
        let digest = sha256(bytes);
        Some(hex_encode(digest.as_slice()))
    }

    /// A block with the given fields, stamped with `timestamp` and sealed with
    /// its commitment; `None` when the commitment cannot be computed.
    pub fn new(index: u32, transactions: Vec<Transaction>, previous_hash: String, timestamp: u64)
        -> (r: Option<Block>)
        ensures
            r is Some <==> committable(index, timestamp, transactions@),
            r matches Some(b) ==> {
                &&& b.index == index
                &&& b.timestamp == timestamp
                &&& b.transactions@ == transactions@
                &&& b.previous_hash@ == previous_hash@
                &&& b.is_sealed()
            },
    {
        match commit(index, timestamp, &transactions) {
            Some(hash) => Some(Block { index, timestamp, transactions, previous_hash, hash }),
            None => None,
        }
    }

    /// Proof-of-work search. Tries timestamps upward from the current one and
    /// stops at the first whose commitment begins with `difficulty` zeros,
    /// sealing the block with it. Returns `false`, with `hash` untouched, when the
    /// timestamps run out or a commitment cannot be computed.
    pub fn mine(&mut self, difficulty: u32) -> (found: bool)
        ensures
            final(self).index == old(self).index,
            final(self).transactions@ == old(self).transactions@,
            final(self).previous_hash@ == old(self).previous_hash@,
            old(self).timestamp <= final(self).timestamp,
            fails_below(old(self).index, old(self).transactions@, old(self).timestamp,
                final(self).timestamp, difficulty as nat),
            found ==> final(self).is_sealed() && has_leading_zeros(final(self).hash@, difficulty as nat),
            !found ==> final(self).hash@ == old(self).hash@ && {
                ||| !committable(final(self).index, final(self).timestamp, final(self).transactions@)
                ||| (final(self).timestamp == u64::MAX && !has_leading_zeros(
                    commitment(final(self).index, u64::MAX, final(self).transactions@),
                    difficulty as nat,
                ))
            },
    {
        let ghost start = self.timestamp;
        loop
            invariant
                self.index == old(self).index,
                self.transactions@ == old(self).transactions@,
                self.previous_hash@ == old(self).previous_hash@,
                self.hash@ == old(self).hash@,
                start == old(self).timestamp,
                start <= self.timestamp,
                fails_below(self.index, self.transactions@, start, self.timestamp, difficulty as nat),
            decreases u64::MAX - self.timestamp,
        {
            let attempt = commit(self.index, self.timestamp, &self.transactions);
            if attempt.is_none() {
                return false;
            }
            let h = attempt.unwrap();
            if meets_difficulty(h.as_str(), difficulty) {
                self.hash = h;
                return true;
            }
            if self.timestamp == u64::MAX {
                return false;
            }
            let ghost tried = self.timestamp;
            let ghost before = self.transactions@;
            self.timestamp = self.timestamp + 1;
            proof {
                assert forall|t: u64| start <= t < self.timestamp implies {
                    &&& committable(self.index, t, self.transactions@)
                    &&& !has_leading_zeros(
                        #[trigger] commitment(self.index, t, self.transactions@),
                        difficulty as nat,
                    )
                } by {
                    if t < tried {
                        assert(fails_below(self.index, before, start, tried, difficulty as nat));
                    }
                }
            }
        }
    }
}

} // verus!
