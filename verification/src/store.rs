//! The persisted state of the indexer, modelled as typed tables. The block
//! pipeline mutates it and the reorg journal rolls it back.

use vstd::prelude::*;
use crate::history::HistoryValue;
use crate::proto::{TokenBalance, TokenMeta, TransferProtoDB};
use crate::types::{
    AddressToken, AddressTokenId, FullHash, HistoryLocation, LowerCaseTick, Outpoint, TxOut,
};
use crate::vecmap::VecMap;

verus! {

/// The mathematical image of the whole store.
#[verifier::ext_equal]
pub struct StoreV {
    pub token_to_meta: Map<Seq<u8>, TokenMeta>,
    pub address_token_to_balance: Map<(Seq<u8>, Seq<u8>), TokenBalance>,
    pub address_location_to_transfer: Map<(Seq<u8>, u32, u64), (FullHash, TransferProtoDB)>,
    pub address_token_to_history: Map<(Seq<u8>, Seq<u8>, u64), HistoryValue>,
    pub block_events: Map<u32, Seq<AddressTokenId>>,
    pub outpoint_to_event: Map<(Seq<u8>, u32), AddressTokenId>,
    pub proof_of_history: Map<u32, Seq<u8>>,
    pub block_hashes: Map<u32, Seq<u8>>,
    pub fullhash_to_address: Map<Seq<u8>, Seq<u8>>,
    pub prevouts: Map<(Seq<u8>, u32), TxOut>,
    pub last_block: Option<u32>,
    pub last_history_id: Option<u64>,
}

/// All tables of the indexer.
pub struct TokenStore {
    /// Deployed tokens by lowercase ticker.
    pub token_to_meta: VecMap<LowerCaseTick, TokenMeta>,
    /// Balances by (address, lowercase ticker).
    pub address_token_to_balance: VecMap<AddressToken, TokenBalance>,
    /// Active transferables by location, with their owner.
    pub address_location_to_transfer: VecMap<HistoryLocation, (FullHash, TransferProtoDB)>,
    /// History rows by (address, ticker, id).
    pub address_token_to_history: VecMap<AddressTokenId, HistoryValue>,
    /// Row keys created by each block, in id order.
    pub block_events: VecMap<u32, Vec<AddressTokenId>>,
    /// The row a transaction output gave rise to.
    pub outpoint_to_event: VecMap<Outpoint, AddressTokenId>,
    /// The proof-of-history link of each block.
    pub proof_of_history: VecMap<u32, [u8; 32]>,
    /// The hash of each applied block.
    pub block_hashes: VecMap<u32, [u8; 32]>,
    /// Display text of each known address hash.
    pub fullhash_to_address: VecMap<FullHash, Vec<u8>>,
    /// Transient prevout cache for the classic block path.
    pub prevouts: VecMap<Outpoint, TxOut>,
    /// The last fully applied block.
    pub last_block: Option<u32>,
    /// The last history id assigned.
    pub last_history_id: Option<u64>,
}

impl View for TokenStore {
    type V = StoreV;

    open spec fn view(&self) -> StoreV {
        StoreV {
            token_to_meta: self.token_to_meta@,
            address_token_to_balance: self.address_token_to_balance@,
            address_location_to_transfer: self.address_location_to_transfer@,
            address_token_to_history: self.address_token_to_history@,
            block_events: Map::new(
                |h: u32| self.block_events@.contains_key(h),
                |h: u32| self.block_events@[h]@,
            ),
            outpoint_to_event: self.outpoint_to_event@,
            proof_of_history: Map::new(
                |h: u32| self.proof_of_history@.contains_key(h),
                |h: u32| self.proof_of_history@[h]@,
            ),
            block_hashes: Map::new(
                |h: u32| self.block_hashes@.contains_key(h),
                |h: u32| self.block_hashes@[h]@,
            ),
            fullhash_to_address: crate::poh::disp_map(self.fullhash_to_address@),
            prevouts: self.prevouts@,
            last_block: self.last_block,
            last_history_id: self.last_history_id,
        }
    }
}

impl TokenStore {
    /// A store with nothing in it: the state before the first block.
    pub fn new() -> (r: Self)
        ensures
            r@.token_to_meta == Map::<Seq<u8>, TokenMeta>::empty(),
            r@.address_token_to_balance == Map::<(Seq<u8>, Seq<u8>), TokenBalance>::empty(),
            r@.address_location_to_transfer == Map::<
                (Seq<u8>, u32, u64),
                (FullHash, TransferProtoDB),
            >::empty(),
            r@.address_token_to_history == Map::<(Seq<u8>, Seq<u8>, u64), HistoryValue>::empty(),
            r@.block_events == Map::<u32, Seq<AddressTokenId>>::empty(),
            r@.outpoint_to_event == Map::<(Seq<u8>, u32), AddressTokenId>::empty(),
            r@.proof_of_history == Map::<u32, Seq<u8>>::empty(),
            r@.block_hashes == Map::<u32, Seq<u8>>::empty(),
            r@.fullhash_to_address == Map::<Seq<u8>, Seq<u8>>::empty(),
            r@.prevouts == Map::<(Seq<u8>, u32), TxOut>::empty(),
            r@.last_block is None,
            r@.last_history_id is None,
    {
        let r = TokenStore {
            token_to_meta: VecMap::new(),
            address_token_to_balance: VecMap::new(),
            address_location_to_transfer: VecMap::new(),
            address_token_to_history: VecMap::new(),
            block_events: VecMap::new(),
            outpoint_to_event: VecMap::new(),
            proof_of_history: VecMap::new(),
            block_hashes: VecMap::new(),
            fullhash_to_address: VecMap::new(),
            prevouts: VecMap::new(),
            last_block: None,
            last_history_id: None,
        };
        proof {
            assert(r@.block_events =~= Map::<u32, Seq<AddressTokenId>>::empty());
            assert(r@.proof_of_history =~= Map::<u32, Seq<u8>>::empty());
            assert(r@.block_hashes =~= Map::<u32, Seq<u8>>::empty());
            assert(r@.fullhash_to_address =~= Map::<Seq<u8>, Seq<u8>>::empty());
        }
        r
    }
}

} // verus!
