//! The wallet ledger: balances in base units, keyed by address.
use vstd::prelude::*;
use vstd::string::StringExecFns;
use crate::primitives::{is_alphanumeric, random_alphanumeric};

verus! {

/// Characters in a generated wallet address.
pub const ADDRESS_LEN: usize = 8;

/// One address and its balance in base units.
pub struct Wallet {
    pub address: String,
    pub balance: u64,
}

impl Wallet {
    /// A wallet at `address` with a zero balance.
    pub fn new(address: String) -> (r: Wallet)
        ensures
            r.address@ == address@,
            r.balance == 0,
    {
        Wallet { address, balance: 0 }
    }
}

/// The wallets, at most one per address.
pub struct WalletManager {
    wallets: Vec<Wallet>,
}

/// No two wallets share an address.
pub open spec fn addresses_unique(ws: Seq<Wallet>) -> bool {
    forall|i: int, j: int|
        0 <= i < ws.len() && 0 <= j < ws.len() && i != j ==> #[trigger] ws[i].address@
            != #[trigger] ws[j].address@
}

/// Some wallet of `ws` has address `a`.
pub open spec fn has_address(ws: Seq<Wallet>, a: Seq<char>) -> bool {
    exists|i: int| 0 <= i < ws.len() && #[trigger] ws[i].address@ == a
}

/// The balance of each address of `ws`.
pub open spec fn balances_of(ws: Seq<Wallet>) -> Map<Seq<char>, u64> {
    Map::new(
        |a: Seq<char>| has_address(ws, a),
        |a: Seq<char>| ws[choose|i: int| 0 <= i < ws.len() && #[trigger] ws[i].address@ == a].balance,
    )
}

/// With unique addresses, the wallet at position `i` gives its address's balance.
proof fn lemma_balance_at(ws: Seq<Wallet>, i: int)
    requires
        addresses_unique(ws),
        0 <= i < ws.len(),
    ensures
        balances_of(ws).contains_key(ws[i].address@),
        balances_of(ws)[ws[i].address@] == ws[i].balance,
{
    let a = ws[i].address@;
    assert(has_address(ws, a));
    let j = choose|j: int| 0 <= j < ws.len() && #[trigger] ws[j].address@ == a;
    assert(j == i);
}

/// Replacing the balance at position `i` updates that address alone.
proof fn lemma_balance_update(ws: Seq<Wallet>, i: int, w: Wallet)
    requires
        addresses_unique(ws),
        0 <= i < ws.len(),
        w.address@ == ws[i].address@,
    ensures
        addresses_unique(ws.update(i, w)),
        balances_of(ws.update(i, w)) == balances_of(ws).insert(w.address@, w.balance),
{
    let nw = ws.update(i, w);
    assert(addresses_unique(nw)) by {
        assert forall|p: int, q: int|
            0 <= p < nw.len() && 0 <= q < nw.len() && p != q implies #[trigger] nw[p].address@
                != #[trigger] nw[q].address@ by {
            assert(nw[p].address@ == ws[p].address@);
            assert(nw[q].address@ == ws[q].address@);
        }
    }
    assert forall|a: Seq<char>| has_address(nw, a) <==> has_address(ws, a) by {
        if has_address(nw, a) {
            let k = choose|k: int| 0 <= k < nw.len() && #[trigger] nw[k].address@ == a;
            assert(ws[k].address@ == a);
        }
        if has_address(ws, a) {
            let k = choose|k: int| 0 <= k < ws.len() && #[trigger] ws[k].address@ == a;
            assert(nw[k].address@ == a);
        }
    }
    assert forall|a: Seq<char>| #[trigger] balances_of(nw).contains_key(a) implies balances_of(nw)[a]
        == balances_of(ws).insert(w.address@, w.balance)[a] by {
        let k = choose|k: int| 0 <= k < nw.len() && #[trigger] nw[k].address@ == a;
        lemma_balance_at(nw, k);
        if k != i {
            lemma_balance_at(ws, k);
        }
    }
    assert(balances_of(nw) =~= balances_of(ws).insert(w.address@, w.balance));
}

/// Appending a wallet at a new address adds that address alone.
proof fn lemma_balance_push(ws: Seq<Wallet>, w: Wallet)
    requires
        addresses_unique(ws),
        !has_address(ws, w.address@),
    ensures
        addresses_unique(ws.push(w)),
        balances_of(ws.push(w)) == balances_of(ws).insert(w.address@, w.balance),
{
    let nw = ws.push(w);
    assert(addresses_unique(nw)) by {
        assert forall|p: int, q: int|
            0 <= p < nw.len() && 0 <= q < nw.len() && p != q implies #[trigger] nw[p].address@
                != #[trigger] nw[q].address@ by {
            if p == ws.len() {
                assert(ws[q].address@ == nw[q].address@);
            } else if q == ws.len() {
                assert(ws[p].address@ == nw[p].address@);
            }
        }
    }
    assert forall|a: Seq<char>| has_address(nw, a) <==> (has_address(ws, a) || a == w.address@) by {
        if has_address(nw, a) {
            let k = choose|k: int| 0 <= k < nw.len() && #[trigger] nw[k].address@ == a;
            if k < ws.len() {
                assert(ws[k].address@ == a);
            }
        }
        if has_address(ws, a) {
            let k = choose|k: int| 0 <= k < ws.len() && #[trigger] ws[k].address@ == a;
            assert(nw[k].address@ == a);
        }
        if a == w.address@ {
            assert(nw[ws.len() as int].address@ == a);
        }
    }
    assert forall|a: Seq<char>| #[trigger] balances_of(nw).contains_key(a) implies balances_of(nw)[a]
        == balances_of(ws).insert(w.address@, w.balance)[a] by {
        let k = choose|k: int| 0 <= k < nw.len() && #[trigger] nw[k].address@ == a;
        lemma_balance_at(nw, k);
        if k < ws.len() {
            assert(ws[k] == nw[k]);
            lemma_balance_at(ws, k);
        }
    }
    assert(balances_of(nw) =~= balances_of(ws).insert(w.address@, w.balance));
}

impl WalletManager {
    /// No two wallets share an address.
    pub closed spec fn wf(&self) -> bool {
        addresses_unique(self.wallets@)
    }

    /// The balance of each known address.
    pub closed spec fn balances(&self) -> Map<Seq<char>, u64> {
        balances_of(self.wallets@)
    }

    /// A manager with no wallets.
    pub fn new() -> (r: WalletManager)
        ensures
            r.wf(),
            r.balances() == Map::<Seq<char>, u64>::empty(),
    {
        let r = WalletManager { wallets: Vec::new() };
        assert(r.balances() =~= Map::<Seq<char>, u64>::empty());
        r
    }

    /// The position of the wallet at `address`, if any.
    fn position(&self, address: &String) -> (r: Option<usize>)
        requires
            self.wf(),
        ensures
            r matches Some(i) ==> i < self.wallets@.len() && self.wallets@[i as int].address@
                == address@,
            r is None ==> !has_address(self.wallets@, address@),
    {
        let mut i: usize = 0;
        while i < self.wallets.len()
            invariant
                i <= self.wallets@.len(),
                forall|j: int| 0 <= j < i ==> #[trigger] self.wallets@[j].address@ != address@,
            decreases self.wallets@.len() - i,
        {
            if self.wallets[i].address == *address {
                return Some(i);
            }
            i = i + 1;
        }
        None
    }

    /// A fresh random address of [`ADDRESS_LEN`] letters and digits.
    pub fn generate_address(&self) -> (r: String)
        ensures
            r@.len() == ADDRESS_LEN,
            forall|i: int| 0 <= i < r@.len() ==> is_alphanumeric(#[trigger] r@[i]),
    {
        random_alphanumeric(ADDRESS_LEN)
    }

    /// Opens a wallet with a zero balance at a fresh random address and returns
    /// the address. Should the address already be known, its balance restarts at zero.
    pub fn create_wallet(&mut self) -> (r: String)
        requires
            old(self).wf(),
        ensures
            final(self).wf(),
            final(self).balances() == old(self).balances().insert(r@, 0),
            r@.len() == ADDRESS_LEN,
            forall|i: int| 0 <= i < r@.len() ==> is_alphanumeric(#[trigger] r@[i]),
    {
        let address = self.generate_address();
        let wallet = Wallet::new(address.clone());
        match self.position(&address) {
            Some(i) => {
                proof {
                    lemma_balance_update(self.wallets@, i as int, wallet);
                }
                self.wallets.set(i, wallet);
            },
            None => {
                proof {
                    lemma_balance_push(self.wallets@, wallet);
                }
                self.wallets.push(wallet);
            },
        }
        address
    }

    /// Adds `amount` to the balance at `address`. Returns `false`, changing
    /// nothing, when the address is unknown or the sum would overflow.
    pub fn credit_wallet(&mut self, address: &str, amount: u64) -> (credited: bool)
        requires
            old(self).wf(),
        ensures
            final(self).wf(),
            credited == (old(self).balances().contains_key(address@)
                && old(self).balances()[address@] + amount <= u64::MAX),
            credited ==> final(self).balances() == old(self).balances().insert(
                address@,
                (old(self).balances()[address@] + amount) as u64,
            ),
            !credited ==> final(self).balances() == old(self).balances(),
    {
        let key = String::from_str(address);
        match self.position(&key) {
            Some(i) => {
                proof {
                    lemma_balance_at(self.wallets@, i as int);
                }
                let balance = self.wallets[i].balance;
                if balance > u64::MAX - amount {
                    return false;
                }
                let wallet = Wallet { address: key, balance: balance + amount };
                proof {
                    lemma_balance_update(self.wallets@, i as int, wallet);
                }
                self.wallets.set(i, wallet);
                true
            },
            None => false,
        }
    }

    /// The balance at `address`, or `None` for an unknown address.
    pub fn get_balance(&self, address: &str) -> (r: Option<u64>)
        requires
            self.wf(),
        ensures
            r == (if self.balances().contains_key(address@) {
                Some(self.balances()[address@])
            } else {
                None::<u64>
            }),
    {
        let key = String::from_str(address);
        match self.position(&key) {
            Some(i) => {
                proof {
                    lemma_balance_at(self.wallets@, i as int);
                }
                Some(self.wallets[i].balance)
            },
            None => None,
        }
    }
}

} // verus!
