//! A single-node append-only ledger: blocks linked by SHA-256 commitments,
//! a proof-of-work search over the block timestamp, and a wallet ledger that
//! receives mining rewards.
use vstd::prelude::*;

pub mod decimal;
pub mod primitives;
pub mod block;
pub mod wallet;
pub mod chain;

verus! {

} // verus!
