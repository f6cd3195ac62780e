//! Closed enumerations shared with the surrounding protocol: the kinds of
//! algorithm binaries, ledger transactions, token supply buckets, and
//! rewards that the wider system distinguishes.

use vstd::prelude::*;

verus! {

/// How an algorithm is packaged for execution.
#[derive(Clone, Copy, Debug, PartialEq, Eq, Structural)]
pub enum AlgorithmType {
    Wasm,
    Ptx,
}

/// The kinds of transactions a block confirms.
#[derive(Clone, Copy, Debug, PartialEq, Eq, Structural, Hash)]
pub enum TxType {
    Algorithm,
    Benchmark,
    Binary,
    Breakthrough,
    Challenge,
    Delegate,
    Deposit,
    Fraud,
    Precommit,
    Proof,
    RewardShare,
    Topup,
    Vote,
}

/// The buckets the token supply is accounted under.
#[derive(Clone, Copy, Debug, PartialEq, Eq, Structural, Hash)]
pub enum SupplyType {
    Circulating,
    Locked,
    Burnt,
}

/// Whom a reward is paid to.
#[derive(Clone, Copy, Debug, PartialEq, Eq, Structural, Hash)]
pub enum RewardType {
    Benchmarker,
    Algorithm,
    Breakthrough,
    Delegator,
}

} // verus!
