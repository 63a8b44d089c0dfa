//! Protocol payloads and persisted token records: deploys, mints, transfers,
//! and per-account balances.

use vstd::prelude::*;
use crate::fixed::Fixed128;
use crate::types::{FullHash, InscriptionId, TokenTick};

verus! {

/// Fractional digits a deploy gets when it names none.
pub const DEFAULT_DEC: u8 = 18;

/// The most fractional digits a deploy may name.
pub const MAX_DEC: u8 = 18;

/// A mint payload.
#[derive(Clone, Copy, Debug)]
pub enum MintProto {
    Bel20 { tick: TokenTick, amt: Fixed128 },
}

/// A transfer payload.
#[derive(Clone, Copy, Debug)]
pub enum TransferProto {
    Bel20 { tick: TokenTick, amt: Fixed128 },
}

/// A deploy payload; `lim` defaults to `max` when absent.
#[derive(Clone, Copy, Debug)]
pub enum DeployProto {
    Bel20 { tick: TokenTick, max: Fixed128, lim: Option<Fixed128>, dec: u8 },
}

/// The persisted record of a deployed token.
#[derive(Clone, Copy, Debug)]
pub struct DeployProtoDB {
    pub tick: TokenTick,
    pub max: Fixed128,
    pub lim: Fixed128,
    pub dec: u8,
    pub supply: Fixed128,
    pub transfer_count: u64,
    pub mint_count: u64,
    pub height: u32,
    pub created: u32,
    pub deployer: FullHash,
    pub transactions: u32,
}

impl DeployProtoDB {
    /// Whether the whole supply has been minted.
    pub fn is_completed(&self) -> (r: bool)
        ensures
            r == (self.supply@ == self.max@),
    {
        self.supply.units == self.max.units
    }
}

/// A token's metadata: where it was deployed and its running counters.
#[derive(Clone, Copy, Debug)]
pub struct TokenMeta {
    pub genesis: InscriptionId,
    pub proto: DeployProtoDB,
}

/// The stored form of `TokenMeta`.
#[derive(Clone, Copy, Debug)]
pub struct TokenMetaDB {
    pub genesis: InscriptionId,
    pub proto: DeployProtoDB,
}

impl TokenMetaDB {
    pub fn is_completed(&self) -> (r: bool)
        ensures
            r == (self.proto.supply@ == self.proto.max@),
    {
        self.proto.is_completed()
    }

    pub fn from_meta(meta: TokenMeta) -> (r: Self)
        ensures
            r.genesis == meta.genesis && r.proto == meta.proto,
    {
        TokenMetaDB { genesis: meta.genesis, proto: meta.proto }
    }

    pub fn into_meta(self) -> (r: TokenMeta)
        ensures
            r.genesis == self.genesis && r.proto == self.proto,
    {
        TokenMeta { genesis: self.genesis, proto: self.proto }
    }
}

/// The persisted record of an active (not yet spent) transferable.
#[derive(Clone, Copy, Debug)]
pub struct TransferProtoDB {
    pub tick: TokenTick,
    pub amt: Fixed128,
    pub height: u32,
}

impl TransferProtoDB {
    pub fn into_proto(self) -> (r: TransferProto)
        ensures
            r == (TransferProto::Bel20 { tick: self.tick, amt: self.amt }),
    {
        TransferProto::Bel20 { tick: self.tick, amt: self.amt }
    }
}

/// The balance row of one `(address, ticker)` pair.
#[derive(Clone, Copy, Debug)]
pub struct TokenBalance {
    pub balance: Fixed128,
    pub transferable_balance: Fixed128,
    pub transfers_count: u64,
}

impl TokenBalance {
    /// The empty balance row.
    pub fn new() -> (r: Self)
        ensures
            r.balance@ == 0,
            r.transferable_balance@ == 0,
            r.transfers_count == 0,
    {
        TokenBalance {
            balance: Fixed128::zero(),
            transferable_balance: Fixed128::zero(),
            transfers_count: 0,
        }
    }
}

} // verus!
