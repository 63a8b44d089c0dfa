//! The block pipeline: turn a block of parsed token inscriptions into
//! interpreter actions, apply them, assign history ids, fold the
//! proof-of-history chain, and persist everything, journalling the inverse.

use vstd::prelude::*;
use crate::fixed::Fixed128;
use crate::hashing::{compute_script_hash, default_poh_hash, sha256_of};
use crate::history::{expand_all, expand_history, rows_of_seq, HistoryValue};
use crate::holders::{Holders, HoldersV};
use crate::interpreter::{run, state_of, StateV, TokenAction, TokenCache};
use crate::poh::{generate_history_hash, poh_next_spec};
use crate::proto::{DeployProtoDB, MintProto, TokenMeta, TransferProto, TransferProtoDB};
use crate::reorg::{remove_history_entries, reorg_push, ReorgCache, TokenHistoryEntry};
use crate::store::{StoreV, TokenStore};
use crate::types::{
    bytes_clone, AddressTokenId, FullHash, HistoryLocation, InscriptionId, TokenTick, TxidN,
};
use crate::vecmap::VecMap;

verus! {

/// What identifies a block to the pipeline.
#[derive(Clone, Copy, Debug)]
pub struct BlockInfo {
    pub height: u32,
    pub created: u32,
    pub block_hash: [u8; 32],
    pub prev_block_hash: [u8; 32],
}

/// An address as the upstream supplies it: a display string or a raw hash.
#[derive(Clone, Debug)]
pub enum TokenAddress {
    Standard(String),
    NonStandard(FullHash),
}

/// An address resolved to its locking script, or a raw hash.
#[derive(Clone, Debug)]
pub enum ParsedTokenAddress {
    Standard(Vec<u8>),
    NonStandard(FullHash),
}

impl ParsedTokenAddress {
    /// The canonical hash key of this address.
    pub fn compute_script_hash(&self) -> (r: FullHash)
        ensures
            r@ == spec_addr_hash(*self),
    {
        match self {
            ParsedTokenAddress::Standard(script) => compute_script_hash(script.as_slice()),
            ParsedTokenAddress::NonStandard(hash) => *hash,
        }
    }
}

/// The hash an address resolves to.
pub open spec fn spec_addr_hash(a: ParsedTokenAddress) -> Seq<u8> {
    match a {
        ParsedTokenAddress::Standard(script) => sha256_of(script@),
        ParsedTokenAddress::NonStandard(hash) => hash@,
    }
}

/// A token operation as the upstream reports it.
#[derive(Clone, Copy, Debug)]
pub enum ParsedTokenActionRest {
    Deploy { tick: TokenTick, max: Fixed128, lim: Fixed128, dec: u8 },
    Mint { tick: TokenTick, amt: Fixed128 },
    DeployTransfer { tick: TokenTick, amt: Fixed128 },
    SpentTransfer { outpoint: Option<crate::types::Outpoint>, tick: TokenTick, amt: Fixed128 },
}

/// One inscription of a block, with its addresses still in script form.
#[derive(Clone, Debug)]
pub struct ParsedTokenHistory {
    pub from: ParsedTokenAddress,
    pub to: ParsedTokenAddress,
    pub from_location: HistoryLocation,
    pub to_location: HistoryLocation,
    pub leaked: bool,
    pub token: ParsedTokenActionRest,
}

/// A block of parsed inscriptions.
#[derive(Clone, Debug)]
pub struct ParsedTokenHistoryData {
    pub block_info: BlockInfo,
    pub inscriptions: Vec<ParsedTokenHistory>,
}

/// One inscription with its addresses resolved to hash keys.
#[derive(Clone, Copy, Debug)]
pub struct ResolvedTokenHistory {
    pub from: FullHash,
    pub to: FullHash,
    pub from_location: HistoryLocation,
    pub to_location: HistoryLocation,
    pub leaked: bool,
    pub token: ParsedTokenActionRest,
}

/// A block ready for the interpreter.
#[derive(Clone, Debug)]
pub struct ResolvedTokenHistoryData {
    pub block_info: BlockInfo,
    pub inscriptions: Vec<ResolvedTokenHistory>,
}

/// Resolve every address of a parsed block to its hash key.
pub fn resolve_block(b: &ParsedTokenHistoryData) -> (r: ResolvedTokenHistoryData)
    ensures
        r.block_info == b.block_info,
        r.inscriptions@.len() == b.inscriptions@.len(),
        forall|i: int|
            0 <= i < b.inscriptions@.len() ==> {
                let p = #[trigger] b.inscriptions@[i];
                let q = r.inscriptions@[i];
                &&& q.from@ == spec_addr_hash(p.from)
                &&& q.to@ == spec_addr_hash(p.to)
                &&& q.from_location == p.from_location
                &&& q.to_location == p.to_location
                &&& q.leaked == p.leaked
                &&& q.token == p.token
            },
{
    let n = b.inscriptions.len();
    let mut out: Vec<ResolvedTokenHistory> = Vec::new();
    let mut i: usize = 0;
    while i < n
        invariant
            0 <= i <= n,
            n == b.inscriptions@.len(),
            out@.len() == i,
            forall|j: int|
                0 <= j < i ==> {
                    let p = #[trigger] b.inscriptions@[j];
                    let q = out@[j];
                    &&& q.from@ == spec_addr_hash(p.from)
                    &&& q.to@ == spec_addr_hash(p.to)
                    &&& q.from_location == p.from_location
                    &&& q.to_location == p.to_location
                    &&& q.leaked == p.leaked
                    &&& q.token == p.token
                },
        decreases n - i,
    {
        let insc = &b.inscriptions[i];
        out.push(
            ResolvedTokenHistory {
                from: insc.from.compute_script_hash(),
                to: insc.to.compute_script_hash(),
                from_location: insc.from_location,
                to_location: insc.to_location,
                leaked: insc.leaked,
                token: insc.token,
            },
        );
        i = i + 1;
    }
    ResolvedTokenHistoryData { block_info: b.block_info, inscriptions: out }
}

/// What one inscription contributes: its actions, the transferable it may
/// seed, and the deploy index after it.
pub open spec fn build_one(x: ResolvedTokenHistory, height: u32, created: u32, deploy_idx: u32) -> (
    Seq<TokenAction>,
    Option<((Seq<u8>, u32, u64), TransferProtoDB)>,
    u32,
) {
    let txid = TxidN(x.from_location.outpoint.txid);
    let vout = x.from_location.outpoint.vout;
    match x.token {
        ParsedTokenActionRest::Mint { tick, amt } => {
            if !x.leaked {
                (
                    seq![
                        TokenAction::Mint {
                            owner: x.to,
                            proto: MintProto::Bel20 { tick, amt },
                            txid,
                            vout,
                        },
                    ],
                    None,
                    deploy_idx,
                )
            } else {
                (Seq::empty(), None, deploy_idx)
            }
        },
        ParsedTokenActionRest::DeployTransfer { tick, amt } => {
            if !x.leaked {
                (
                    seq![
                        TokenAction::Transfer {
                            location: x.to_location,
                            owner: x.to,
                            proto: TransferProto::Bel20 { tick, amt },
                            txid,
                            vout,
                        },
                    ],
                    Some((x.to_location@, TransferProtoDB { tick, amt, height })),
                    deploy_idx,
                )
            } else {
                (Seq::empty(), None, deploy_idx)
            }
        },
        ParsedTokenActionRest::SpentTransfer { outpoint, .. } => {
            if x.leaked {
                match outpoint {
                    Some(op) => (
                        seq![
                            TokenAction::Transferred {
                                transfer_location: x.from_location,
                                recipient: None,
                                txid: TxidN(op.txid),
                                vout: op.vout,
                            },
                        ],
                        None,
                        deploy_idx,
                    ),
                    None => (Seq::empty(), None, deploy_idx),
                }
            } else {
                (
                    seq![
                        TokenAction::Transferred {
                            transfer_location: x.from_location,
                            recipient: Some(x.to),
                            txid,
                            vout,
                        },
                    ],
                    None,
                    deploy_idx,
                )
            }
        },
        ParsedTokenActionRest::Deploy { tick, max, lim, dec } => {
            if !x.leaked && deploy_idx < u32::MAX {
                (
                    seq![
                        TokenAction::Deploy {
                            genesis: InscriptionId { txid, index: deploy_idx },
                            proto: DeployProtoDB {
                                tick,
                                max,
                                lim,
                                dec,
                                supply: crate::fixed::fixed_units(0),
                                transfer_count: 0,
                                mint_count: 0,
                                height,
                                created,
                                deployer: x.to,
                                transactions: 1,
                            },
                            owner: x.to,
                        },
                    ],
                    None,
                    (deploy_idx + 1) as u32,
                )
            } else {
                (Seq::empty(), None, deploy_idx)
            }
        },
    }
}

/// The actions, seeded transferables and deploy count of a block prefix.
pub open spec fn build_rec(inscs: Seq<ResolvedTokenHistory>, height: u32, created: u32) -> (
    Seq<TokenAction>,
    Map<(Seq<u8>, u32, u64), TransferProtoDB>,
    u32,
)
    decreases inscs.len(),
{
    if inscs.len() == 0 {
        (Seq::empty(), Map::empty(), 0u32)
    } else {
        let front = build_rec(inscs.drop_last(), height, created);
        let one = build_one(inscs.last(), height, created, front.2);
        (
            front.0 + one.0,
            match one.1 {
                Some(kv) => front.1.insert(kv.0, kv.1),
                None => front.1,
            },
            one.2,
        )
    }
}

proof fn lemma_build_len(inscs: Seq<ResolvedTokenHistory>, height: u32, created: u32)
    ensures
        build_rec(inscs, height, created).0.len() <= inscs.len(),
    decreases inscs.len(),
{
    if inscs.len() > 0 {
        lemma_build_len(inscs.drop_last(), height, created);
        let one = build_one(inscs.last(), height, created, build_rec(inscs.drop_last(), height, created).2);
        assert(one.0.len() <= 1);
    }
}

/// Each action emits at most one history entry.
proof fn lemma_run_hist_len(st: StateV, actions: Seq<TokenAction>)
    ensures
        run(st, actions).1.len() <= actions.len(),
    decreases actions.len(),
{
    if actions.len() > 0 {
        let first = crate::interpreter::step(st, actions[0]);
        assert(first.1.len() <= 1);
        lemma_run_hist_len(first.0, actions.skip(1));
    }
}

/// The id after which a block's fresh history ids start.
pub open spec fn last_id_of(sv: StoreV) -> u64 {
    match sv.last_history_id {
        Some(v) => v,
        None => 0,
    }
}

/// The proof-of-history link the next block chains from.
pub open spec fn prev_poh_of(sv: StoreV) -> Seq<u8> {
    match sv.last_block {
        Some(h) => if sv.proof_of_history.contains_key(h) {
            sv.proof_of_history[h]
        } else {
            crate::hashing::default_hash_spec()
        },
        None => crate::hashing::default_hash_spec(),
    }
}

/// Whether a block's rows can be given ids without exhausting them.
pub open spec fn block_fits(sv: StoreV, b: ResolvedTokenHistoryData) -> bool {
    &&& b.inscriptions@.len() <= u32::MAX as int
    &&& last_id_of(sv) + 2 * b.inscriptions@.len() <= u64::MAX
}

/// The display map after recording a block's fresh address strings.
pub open spec fn fold_addrs(m: Map<Seq<u8>, Seq<u8>>, addrs: Seq<(FullHash, Vec<u8>)>) -> Map<
    Seq<u8>,
    Seq<u8>,
>
    decreases addrs.len(),
{
    if addrs.len() == 0 {
        m
    } else {
        fold_addrs(m, addrs.drop_last()).insert(addrs.last().0@, addrs.last().1@)
    }
}

/// The history table after writing a block's rows.
pub open spec fn fold_rows(
    m: Map<(Seq<u8>, Seq<u8>, u64), HistoryValue>,
    rows: Seq<(AddressTokenId, HistoryValue)>,
) -> Map<(Seq<u8>, Seq<u8>, u64), HistoryValue>
    decreases rows.len(),
{
    if rows.len() == 0 {
        m
    } else {
        fold_rows(m, rows.drop_last()).insert(rows.last().0@, rows.last().1)
    }
}

/// The outpoint index after writing a block's rows.
pub open spec fn fold_outpoints(
    m: Map<(Seq<u8>, u32), AddressTokenId>,
    rows: Seq<(AddressTokenId, HistoryValue)>,
) -> Map<(Seq<u8>, u32), AddressTokenId>
    decreases rows.len(),
{
    if rows.len() == 0 {
        m
    } else {
        fold_outpoints(m, rows.drop_last()).insert(
            rows.last().1.action.spec_outpoint(),
            rows.last().0,
        )
    }
}

/// The keys of a block's rows, in row order.
pub open spec fn keys_of(rows: Seq<(AddressTokenId, HistoryValue)>) -> Seq<AddressTokenId> {
    Seq::new(rows.len(), |i: int| rows[i].0)
}

/// Everything one block does: the new store and holders index, the rows it
/// wrote, and the journal entries that undo it.
#[verifier::opaque]
pub open spec fn apply_block_spec(
    sv: StoreV,
    hv: HoldersV,
    b: ResolvedTokenHistoryData,
    addrs: Seq<(FullHash, Vec<u8>)>,
) -> (StoreV, HoldersV, Seq<(AddressTokenId, HistoryValue)>, Seq<TokenHistoryEntry>) {
    let height = b.block_info.height;
    let built = build_rec(b.inscriptions@, height, b.block_info.created);
    let st0 = StateV {
        tokens: sv.token_to_meta,
        accounts: sv.address_token_to_balance,
        all_transfers: built.1,
        valid_transfers: sv.address_location_to_transfer,
        holders: hv,
    };
    let out = run(st0, built.0);
    let start_id = last_id_of(sv);
    let rows = expand_all(out.1, start_id as int, height);
    let am1 = fold_addrs(sv.fullhash_to_address, addrs);
    let poh = poh_next_spec(prev_poh_of(sv), rows, am1);
    let sv1 = StoreV {
        token_to_meta: out.0.tokens,
        address_token_to_balance: out.0.accounts,
        address_location_to_transfer: out.0.valid_transfers,
        address_token_to_history: fold_rows(sv.address_token_to_history, rows),
        block_events: sv.block_events.insert(height, keys_of(rows)),
        outpoint_to_event: fold_outpoints(sv.outpoint_to_event, rows),
        proof_of_history: sv.proof_of_history.insert(height, poh),
        block_hashes: sv.block_hashes.insert(height, b.block_info.block_hash@),
        fullhash_to_address: am1,
        prevouts: sv.prevouts,
        last_block: Some(height),
        last_history_id: Some((start_id + rows_of_seq(out.1)) as u64),
    };
    (sv1, out.0.holders, rows, out.2 + remove_history_entries(rows))
}

pub struct InitialIndexer {}

impl InitialIndexer {
    /// Apply one block: build the interpreter's actions from its
    /// inscriptions, validate and apply them, assign history ids, fold the
    /// proof-of-history chain, persist every table, and journal the block's
    /// inverse operations. Fails only when the id space cannot hold the
    /// block's rows, and then changes nothing.
    #[verifier::rlimit(100)]
    pub fn handle_block(
        b: &ResolvedTokenHistoryData,
        addrs: &Vec<(FullHash, Vec<u8>)>,
        store: &mut TokenStore,
        holders: &mut Holders,
        reorg: &mut ReorgCache,
    ) -> (r: Result<Vec<(AddressTokenId, HistoryValue)>, ()>)
        ensures
            block_fits(old(store)@, *b) ==> ({
                let out = apply_block_spec(old(store)@, old(holders)@, *b, addrs@);
                let pushed = reorg_push(
                    old(reorg).blocks_v(),
                    b.block_info.height,
                    last_id_of(old(store)@),
                );
                &&& r is Ok
                &&& final(store)@ == out.0
                &&& final(holders)@ == out.1
                &&& r.unwrap()@ == out.2
                &&& final(reorg).blocks_v() == pushed.update(
                    pushed.len() - 1,
                    (b.block_info.height, last_id_of(old(store)@), out.3),
                )
            }),
            !block_fits(old(store)@, *b) ==> {
                &&& r is Err
                &&& *final(store) == *old(store)
                &&& *final(holders) == *old(holders)
                &&& final(reorg).blocks_v() == old(reorg).blocks_v()
            },
    {
        let ghost sv0 = store@;
        let ghost hv0 = holders@;
        let ghost rv0 = reorg.blocks_v();
        let height = b.block_info.height;
        let created = b.block_info.created;
        let n_insc = b.inscriptions.len();
        if n_insc as u64 > u32::MAX as u64 {
            return Err(());
        }
        let start_id: u64 = match store.last_history_id {
            Some(v) => v,
            None => 0,
        };
        if start_id > u64::MAX - 2 * (n_insc as u64) {
            return Err(());
        }
        proof {
            assert(block_fits(sv0, *b));
            reveal(apply_block_spec);
        }
        let ghost out = apply_block_spec(sv0, hv0, *b, addrs@);
        reorg.new_block(height, start_id);

        // preload the interpreter cache and queue the block's actions
        let mut cache = TokenCache::new();
        core::mem::swap(&mut cache.tokens, &mut store.token_to_meta);
        core::mem::swap(&mut cache.token_accounts, &mut store.address_token_to_balance);
        core::mem::swap(&mut cache.valid_transfers, &mut store.address_location_to_transfer);
        let mut deploy_idx: u32 = 0;
        let mut i: usize = 0;
        while i < n_insc
            invariant
                0 <= i <= n_insc,
                n_insc == b.inscriptions@.len(),
                n_insc <= u32::MAX as usize,
                height == b.block_info.height,
                created == b.block_info.created,
                cache.token_actions@ == build_rec(
                    b.inscriptions@.take(i as int),
                    height,
                    created,
                ).0,
                cache.all_transfers@ == build_rec(b.inscriptions@.take(i as int), height, created).1,
                deploy_idx == build_rec(b.inscriptions@.take(i as int), height, created).2,
                cache.tokens@ == sv0.token_to_meta,
                cache.token_accounts@ == sv0.address_token_to_balance,
                cache.valid_transfers@ == sv0.address_location_to_transfer,
            decreases n_insc - i,
        {
            proof {
                assert(b.inscriptions@.take(i + 1).drop_last() =~= b.inscriptions@.take(i as int));
                assert(b.inscriptions@.take(i + 1).last() == b.inscriptions@[i as int]);
            }
            let insc = &b.inscriptions[i];
            let txid = TxidN(insc.from_location.outpoint.txid);
            let vout = insc.from_location.outpoint.vout;
            match insc.token {
                ParsedTokenActionRest::Mint { tick, amt } => {
                    if !insc.leaked {
                        cache.token_actions.push(
                            TokenAction::Mint {
                                owner: insc.to,
                                proto: MintProto::Bel20 { tick, amt },
                                txid,
                                vout,
                            },
                        );
                    }
                },
                ParsedTokenActionRest::DeployTransfer { tick, amt } => {
                    if !insc.leaked {
                        cache.token_actions.push(
                            TokenAction::Transfer {
                                location: insc.to_location,
                                owner: insc.to,
                                proto: TransferProto::Bel20 { tick, amt },
                                txid,
                                vout,
                            },
                        );
                        cache.all_transfers.insert(
                            insc.to_location,
                            TransferProtoDB { tick, amt, height },
                        );
                    }
                },
                ParsedTokenActionRest::SpentTransfer { outpoint, .. } => {
                    if insc.leaked {
                        match outpoint {
                            Some(op) => {
                                cache.token_actions.push(
                                    TokenAction::Transferred {
                                        transfer_location: insc.from_location,
                                        recipient: None,
                                        txid: TxidN(op.txid),
                                        vout: op.vout,
                                    },
                                );
                            },
                            None => {},
                        }
                    } else {
                        cache.token_actions.push(
                            TokenAction::Transferred {
                                transfer_location: insc.from_location,
                                recipient: Some(insc.to),
                                txid,
                                vout,
                            },
                        );
                    }
                },
                ParsedTokenActionRest::Deploy { tick, max, lim, dec } => {
                    if !insc.leaked && deploy_idx < u32::MAX {
                        cache.token_actions.push(
                            TokenAction::Deploy {
                                genesis: InscriptionId { txid, index: deploy_idx },
                                proto: DeployProtoDB {
                                    tick,
                                    max,
                                    lim,
                                    dec,
                                    supply: Fixed128::zero(),
                                    transfer_count: 0,
                                    mint_count: 0,
                                    height,
                                    created,
                                    deployer: insc.to,
                                    transactions: 1,
                                },
                                owner: insc.to,
                            },
                        );
                        deploy_idx = deploy_idx + 1;
                    }
                },
            }
            proof {
                assert(cache.token_actions@ =~= build_rec(
                    b.inscriptions@.take(i + 1),
                    height,
                    created,
                ).0);
                assert(cache.all_transfers@ =~= build_rec(
                    b.inscriptions@.take(i + 1),
                    height,
                    created,
                ).1);
            }
            i = i + 1;
        }
        proof {
            assert(b.inscriptions@.take(n_insc as int) =~= b.inscriptions@);
        }
        let ghost built = build_rec(b.inscriptions@, height, created);
        let ghost st0 = (StateV {
            tokens: sv0.token_to_meta,
            accounts: sv0.address_token_to_balance,
            all_transfers: built.1,
            valid_transfers: sv0.address_location_to_transfer,
            holders: hv0,
        });
        proof {
            assert(state_of(cache, *holders) =~= st0);
        }

        // interpret the block
        let mut jvec: Vec<TokenHistoryEntry> = Vec::new();
        let history = cache.process_token_actions(holders, &mut jvec);
        let ghost interp = run(st0, built.0);
        let TokenCache { tokens, token_accounts, valid_transfers, token_actions: _, all_transfers: _ }
            = cache;
        store.token_to_meta = tokens;
        store.address_token_to_balance = token_accounts;
        store.address_location_to_transfer = valid_transfers;

        // assign history ids
        proof {
            lemma_build_len(b.inscriptions@, height, created);
            lemma_run_hist_len(st0, built.0);
        }
        let (rows, new_last) = expand_history(&history, start_id, height);

        // record the block's fresh address strings
        let na = addrs.len();
        let mut a: usize = 0;
        let mut addr_tbl: VecMap<FullHash, Vec<u8>> = VecMap::new();
        core::mem::swap(&mut addr_tbl, &mut store.fullhash_to_address);
        while a < na
            invariant
                0 <= a <= na,
                na == addrs@.len(),
                crate::poh::disp_map(addr_tbl@) == fold_addrs(
                    sv0.fullhash_to_address,
                    addrs@.take(a as int),
                ),
            decreases na - a,
        {
            proof {
                assert(addrs@.take(a + 1).drop_last() =~= addrs@.take(a as int));
                assert(addrs@.take(a + 1).last() == addrs@[a as int]);
            }
            let entry = &addrs[a];
            let copied = bytes_clone(entry.1.as_slice());
            addr_tbl.insert(entry.0, copied);
            proof {
                assert(crate::poh::disp_map(addr_tbl@) =~= fold_addrs(
                    sv0.fullhash_to_address,
                    addrs@.take(a + 1),
                ));
            }
            a = a + 1;
        }
        proof {
            assert(addrs@.take(na as int) =~= addrs@);
        }
        core::mem::swap(&mut addr_tbl, &mut store.fullhash_to_address);

        // fold the proof-of-history chain
        let prev: [u8; 32] = match store.last_block {
            Some(h) => match store.proof_of_history.get_copy(&h) {
                Some(p) => p,
                None => default_poh_hash(),
            },
            None => default_poh_hash(),
        };
        proof {
            assert(prev@ == prev_poh_of(sv0));
        }
        let poh = generate_history_hash(&prev, &rows, &store.fullhash_to_address);
        store.proof_of_history.insert(height, poh);
        store.block_hashes.insert(height, b.block_info.block_hash);

        // persist the rows and their indexes
        let nr = rows.len();
        let mut hist_tbl: VecMap<AddressTokenId, HistoryValue> = VecMap::new();
        core::mem::swap(&mut hist_tbl, &mut store.address_token_to_history);
        let mut op_tbl: VecMap<crate::types::Outpoint, AddressTokenId> = VecMap::new();
        core::mem::swap(&mut op_tbl, &mut store.outpoint_to_event);
        let mut keys: Vec<AddressTokenId> = Vec::new();
        let mut rhe: Vec<TokenHistoryEntry> = Vec::new();
        let mut t: usize = 0;
        while t < nr
            invariant
                0 <= t <= nr,
                nr == rows@.len(),
                hist_tbl@ == fold_rows(sv0.address_token_to_history, rows@.take(t as int)),
                op_tbl@ == fold_outpoints(sv0.outpoint_to_event, rows@.take(t as int)),
                keys@ == keys_of(rows@).take(t as int),
                rhe@ == remove_history_entries(rows@).take(t as int),
            decreases nr - t,
        {
            proof {
                assert(rows@.take(t + 1).drop_last() =~= rows@.take(t as int));
                assert(rows@.take(t + 1).last() == rows@[t as int]);
            }
            let row = &rows[t];
            hist_tbl.insert(row.0, row.1);
            op_tbl.insert(row.1.action.outpoint(), row.0);
            keys.push(row.0);
            rhe.push(TokenHistoryEntry::RemoveHistory(row.0));
            proof {
                assert(hist_tbl@ =~= fold_rows(sv0.address_token_to_history, rows@.take(t + 1)));
                assert(op_tbl@ =~= fold_outpoints(sv0.outpoint_to_event, rows@.take(t + 1)));
                assert(keys@ =~= keys_of(rows@).take(t + 1));
                assert(rhe@ =~= remove_history_entries(rows@).take(t + 1));
            }
            t = t + 1;
        }
        proof {
            assert(rows@.take(nr as int) =~= rows@);
            assert(keys_of(rows@).take(nr as int) =~= keys_of(rows@));
            assert(remove_history_entries(rows@).take(nr as int) =~= remove_history_entries(
                rows@,
            ));
        }
        core::mem::swap(&mut hist_tbl, &mut store.address_token_to_history);
        core::mem::swap(&mut op_tbl, &mut store.outpoint_to_event);
        store.block_events.insert(height, keys);

        // advance the cursors, written last
        store.last_history_id = Some(new_last);
        store.last_block = Some(height);

        // journal the inverse operations
        let ghost jv = jvec@;
        reorg.record(jvec);
        let ghost rv1 = reorg.blocks_v();
        reorg.record(rhe);
        proof {
            let pushed = reorg_push(rv0, height, start_id);
            assert(final(reorg).blocks_v() =~= pushed.update(
                pushed.len() - 1,
                (height, start_id, out.3),
            )) by {
                assert(interp.2 == out.3.take(interp.2.len() as int)) by {
                    assert(out.3 =~= interp.2 + remove_history_entries(rows@));
                    assert(out.3.take(interp.2.len() as int) =~= interp.2);
                }
                assert((Seq::<TokenHistoryEntry>::empty() + jv) + remove_history_entries(rows@)
                    =~= out.3);
            }
            assert(final(store)@ =~= out.0);
            assert(final(holders)@ == out.1);
            assert(rows@ == out.2);
        }
        Ok(rows)
    }

    /// Apply a run of blocks in order, stopping at the first block whose
    /// rows cannot be given ids.
    #[verifier::rlimit(100)]
    pub fn handle_batch(
        blocks: &Vec<ResolvedTokenHistoryData>,
        addrs: &Vec<(FullHash, Vec<u8>)>,
        store: &mut TokenStore,
        holders: &mut Holders,
        reorg: &mut ReorgCache,
    ) -> (r: Result<Vec<(AddressTokenId, HistoryValue)>, ()>)
        ensures
            ({
                match run_blocks(
                    old(store)@,
                    old(holders)@,
                    old(reorg).blocks_v(),
                    blocks@,
                    addrs@,
                ) {
                    Some(t) => {
                        &&& r is Ok
                        &&& final(store)@ == t.0
                        &&& final(holders)@ == t.1
                        &&& final(reorg).blocks_v() == t.2
                        &&& r.unwrap()@ == t.3
                    },
                    None => r is Err,
                }
            }),
    {
        let ghost sv0 = store@;
        let ghost hv0 = holders@;
        let ghost rv0 = reorg.blocks_v();
        let ghost whole = run_blocks(sv0, hv0, rv0, blocks@, addrs@);
        let n = blocks.len();
        let mut rows_all: Vec<(AddressTokenId, HistoryValue)> = Vec::new();
        let mut i: usize = 0;
        proof {
            assert(blocks@.skip(0) =~= blocks@);
            assert(rows_all@ =~= Seq::<(AddressTokenId, HistoryValue)>::empty());
            if whole is Some {
                assert(Seq::<(AddressTokenId, HistoryValue)>::empty() + whole.unwrap().3
                    =~= whole.unwrap().3);
            }
        }
        while i < n
            invariant
                0 <= i <= n,
                n == blocks@.len(),
                sv0 == old(store)@,
                hv0 == old(holders)@,
                rv0 == old(reorg).blocks_v(),
                whole == run_blocks(sv0, hv0, rv0, blocks@, addrs@),
                ({
                    let here = run_blocks(
                        store@,
                        holders@,
                        reorg.blocks_v(),
                        blocks@.skip(i as int),
                        addrs@,
                    );
                    match (here, whole) {
                        (Some(a), Some(b)) => a.0 == b.0 && a.1 == b.1 && a.2 == b.2 && rows_all@
                            + a.3 == b.3,
                        (None, None) => true,
                        _ => false,
                    }
                }),
            decreases n - i,
        {
            let ghost rest = blocks@.skip(i as int);
            let ghost svc = store@;
            let ghost hvc = holders@;
            let ghost rvc = reorg.blocks_v();
            proof {
                assert(rest[0] == blocks@[i as int]);
                assert(rest.skip(1) =~= blocks@.skip(i + 1));
                assert(rest.len() > 0);
            }
            let block = &blocks[i];
            match Self::handle_block(block, addrs, store, holders, reorg) {
                Ok(mut rows) => {
                    proof {
                        if !block_fits(svc, *block) {
                            assert(false);
                        }
                        lemma_run_blocks_unfold(svc, hvc, rvc, rest, addrs@);
                    }
                    let nr = rows.len();
                    let ghost rseq = rows@;
                    let ghost acc0 = rows_all@;
                    let mut t: usize = 0;
                    while t < nr
                        invariant
                            0 <= t <= nr,
                            nr == rseq.len(),
                            rows@ == rseq.skip(t as int),
                            rows_all@ == acc0 + rseq.take(t as int),
                        decreases nr - t,
                    {
                        proof {
                            assert(rseq.skip(t as int)[0] == rseq[t as int]);
                        }
                        let row = rows.remove(0);
                        rows_all.push(row);
                        proof {
                            assert(rows@ =~= rseq.skip(t + 1));
                            assert(rows_all@ =~= acc0 + rseq.take(t + 1));
                        }
                        t = t + 1;
                    }
                    proof {
                        assert(rseq.take(nr as int) =~= rseq);
                        let here = run_blocks(svc, hvc, rvc, rest, addrs@);
                        let next = run_blocks(
                            store@,
                            holders@,
                            reorg.blocks_v(),
                            blocks@.skip(i + 1),
                            addrs@,
                        );
                        if here is Some {
                            assert(next is Some);
                            assert(here.unwrap().3 == rseq + next.unwrap().3);
                            assert(acc0 + (rseq + next.unwrap().3) =~= (acc0 + rseq)
                                + next.unwrap().3);
                        }
                    }
                },
                Err(_) => {
                    proof {
                        assert(!block_fits(svc, *block));
                        lemma_run_blocks_none(svc, hvc, rvc, rest, addrs@);
                        assert(run_blocks(svc, hvc, rvc, blocks@.skip(i as int), addrs@) is None);
                        assert(whole is None);
                    }
                    return Err(());
                },
            }
            i = i + 1;
        }
        proof {
            assert(blocks@.skip(n as int) =~= Seq::<ResolvedTokenHistoryData>::empty());
            lemma_run_blocks_empty(store@, holders@, reorg.blocks_v(), addrs@);
            if whole is Some {
                assert(rows_all@ + Seq::<(AddressTokenId, HistoryValue)>::empty() =~= rows_all@);
            }
        }
        Ok(rows_all)
    }
}

/// An empty run of blocks changes nothing.
proof fn lemma_run_blocks_empty(
    sv: StoreV,
    hv: HoldersV,
    rv: Seq<crate::reorg::ReorgBlockV>,
    addrs: Seq<(FullHash, Vec<u8>)>,
)
    ensures
        run_blocks(sv, hv, rv, Seq::empty(), addrs) == Some(
            (sv, hv, rv, Seq::<(AddressTokenId, HistoryValue)>::empty()),
        ),
{
    reveal(run_blocks);
}

/// A run of blocks whose first block does not fit fails.
proof fn lemma_run_blocks_none(
    sv: StoreV,
    hv: HoldersV,
    rv: Seq<crate::reorg::ReorgBlockV>,
    blocks: Seq<ResolvedTokenHistoryData>,
    addrs: Seq<(FullHash, Vec<u8>)>,
)
    requires
        blocks.len() > 0,
        !block_fits(sv, blocks[0]),
    ensures
        run_blocks(sv, hv, rv, blocks, addrs) is None,
{
    reveal(run_blocks);
}

/// One step of a run of blocks.
proof fn lemma_run_blocks_unfold(
    sv: StoreV,
    hv: HoldersV,
    rv: Seq<crate::reorg::ReorgBlockV>,
    blocks: Seq<ResolvedTokenHistoryData>,
    addrs: Seq<(FullHash, Vec<u8>)>,
)
    requires
        blocks.len() > 0,
        block_fits(sv, blocks[0]),
    ensures
        ({
            let out = apply_block_spec(sv, hv, blocks[0], addrs);
            let pushed = reorg_push(rv, blocks[0].block_info.height, last_id_of(sv));
            let rv1 = pushed.update(
                pushed.len() - 1,
                (blocks[0].block_info.height, last_id_of(sv), out.3),
            );
            run_blocks(sv, hv, rv, blocks, addrs) == match run_blocks(
                out.0,
                out.1,
                rv1,
                blocks.skip(1),
                addrs,
            ) {
                Some(t) => Some((t.0, t.1, t.2, out.2 + t.3)),
                None => None::<
                    (
                        StoreV,
                        HoldersV,
                        Seq<crate::reorg::ReorgBlockV>,
                        Seq<(AddressTokenId, HistoryValue)>,
                    ),
                >,
            }
        }),
{
    reveal(run_blocks);
}

/// The result of applying a run of blocks: the final store, holders index,
/// journal, and every row written, or nothing when ids would run out.
#[verifier::opaque]
pub open spec fn run_blocks(
    sv: StoreV,
    hv: HoldersV,
    rv: Seq<crate::reorg::ReorgBlockV>,
    blocks: Seq<ResolvedTokenHistoryData>,
    addrs: Seq<(FullHash, Vec<u8>)>,
) -> Option<(StoreV, HoldersV, Seq<crate::reorg::ReorgBlockV>, Seq<(AddressTokenId, HistoryValue)>)>
    decreases blocks.len(),
{
    if blocks.len() == 0 {
        Some((sv, hv, rv, Seq::empty()))
    } else if block_fits(sv, blocks[0]) {
        let out = apply_block_spec(sv, hv, blocks[0], addrs);
        let pushed = reorg_push(rv, blocks[0].block_info.height, last_id_of(sv));
        let rv1 = pushed.update(
            pushed.len() - 1,
            (blocks[0].block_info.height, last_id_of(sv), out.3),
        );
        match run_blocks(out.0, out.1, rv1, blocks.skip(1), addrs) {
            Some(t) => Some((t.0, t.1, t.2, out.2 + t.3)),
            None => None,
        }
    } else {
        None
    }
}

} // verus!
