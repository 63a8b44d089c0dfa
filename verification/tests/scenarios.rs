//! End-to-end scenarios: deploy, capped mints, transfer lifecycle, reorg
//! rollback, burned transfers and duplicate deploys, with the exact
//! proof-of-history chain.

use bel20_indexer::fixed::{Fixed128, UNITS_PER_TOKEN};
use bel20_indexer::history::{HistoryValue, TokenHistoryDB};
use bel20_indexer::holders::Holders;
use bel20_indexer::pipeline::{
    BlockInfo, InitialIndexer, ParsedTokenActionRest, ResolvedTokenHistory,
    ResolvedTokenHistoryData,
};
use bel20_indexer::poh::serialize_history_rows;
use bel20_indexer::reorg::ReorgCache;
use bel20_indexer::store::TokenStore;
use bel20_indexer::types::{
    AddressToken, AddressTokenId, FullHash, HistoryLocation, LowerCaseTick, Outpoint,
    TokenTick,
};
use bel20_indexer::vecmap::VecMap;
use sha2::Digest;

fn fh(b: u8) -> FullHash {
    FullHash([b; 32])
}

fn amount(whole: u64) -> Fixed128 {
    Fixed128 { units: whole as u128 * UNITS_PER_TOKEN }
}

fn tick() -> TokenTick {
    TokenTick(*b"tEst")
}

fn lower() -> LowerCaseTick {
    LowerCaseTick(b"test".to_vec())
}

fn loc(txid_byte: u8, vout: u32, offset: u64) -> HistoryLocation {
    HistoryLocation { offset, outpoint: Outpoint { txid: [txid_byte; 32], vout } }
}

fn block(height: u32, inscriptions: Vec<ResolvedTokenHistory>) -> ResolvedTokenHistoryData {
    ResolvedTokenHistoryData {
        block_info: BlockInfo {
            height,
            created: height,
            block_hash: [height as u8; 32],
            prev_block_hash: [height as u8 - 1; 32],
        },
        inscriptions,
    }
}

fn deploy_insc(to: FullHash, txid_byte: u8) -> ResolvedTokenHistory {
    ResolvedTokenHistory {
        from: to,
        to,
        from_location: loc(txid_byte, 0, 0),
        to_location: loc(txid_byte, 0, 0),
        leaked: false,
        token: ParsedTokenActionRest::Deploy {
            tick: tick(),
            max: amount(1000),
            lim: amount(100),
            dec: 8,
        },
    }
}

fn mint_insc(to: FullHash, whole: u64, txid_byte: u8) -> ResolvedTokenHistory {
    ResolvedTokenHistory {
        from: to,
        to,
        from_location: loc(txid_byte, 0, 0),
        to_location: loc(txid_byte, 0, 0),
        leaked: false,
        token: ParsedTokenActionRest::Mint { tick: tick(), amt: amount(whole) },
    }
}

fn transfer_insc(to: FullHash, whole: u64, at: HistoryLocation, txid_byte: u8) -> ResolvedTokenHistory {
    ResolvedTokenHistory {
        from: to,
        to,
        from_location: loc(txid_byte, 0, 0),
        to_location: at,
        leaked: false,
        token: ParsedTokenActionRest::DeployTransfer { tick: tick(), amt: amount(whole) },
    }
}

fn spend_insc(
    from_loc: HistoryLocation,
    to: FullHash,
    whole: u64,
    txid_byte: u8,
) -> ResolvedTokenHistory {
    ResolvedTokenHistory {
        from: fh(1),
        to,
        from_location: from_loc,
        to_location: loc(txid_byte, 0, 0),
        leaked: false,
        token: ParsedTokenActionRest::SpentTransfer {
            outpoint: None,
            tick: tick(),
            amt: amount(whole),
        },
    }
}

fn leak_insc(from_loc: HistoryLocation, whole: u64, txid_byte: u8) -> ResolvedTokenHistory {
    ResolvedTokenHistory {
        from: fh(1),
        to: fh(1),
        from_location: from_loc,
        to_location: loc(txid_byte, 0, 0),
        leaked: true,
        token: ParsedTokenActionRest::SpentTransfer {
            outpoint: Some(Outpoint { txid: [txid_byte; 32], vout: 0 }),
            tick: tick(),
            amt: amount(whole),
        },
    }
}

struct World {
    store: TokenStore,
    holders: Holders,
    reorg: ReorgCache,
    addrs: Vec<(FullHash, Vec<u8>)>,
}

fn world() -> World {
    World {
        store: TokenStore::new(),
        holders: Holders::new(),
        reorg: ReorgCache::new(),
        addrs: vec![
            (fh(1), b"addrA".to_vec()),
            (fh(2), b"addrB".to_vec()),
            (fh(3), b"addrC".to_vec()),
        ],
    }
}

fn apply(w: &mut World, b: ResolvedTokenHistoryData) -> Vec<(AddressTokenId, HistoryValue)> {
    InitialIndexer::handle_block(&b, &w.addrs, &mut w.store, &mut w.holders, &mut w.reorg)
        .unwrap()
}

fn balance_of(w: &World, addr: FullHash) -> (u128, u128, u64) {
    let key = AddressToken { address: addr, token: lower() };
    match w.store.address_token_to_balance.get(&key) {
        Some(b) => (b.balance.units, b.transferable_balance.units, b.transfers_count),
        None => (0, 0, 0),
    }
}

fn units(whole: u64) -> u128 {
    whole as u128 * UNITS_PER_TOKEN
}

#[test]
fn deploy_creates_token_and_history() {
    let mut w = world();
    let rows = apply(&mut w, block(100, vec![deploy_insc(fh(1), 10)]));
    let meta = *w.store.token_to_meta.get(&lower()).unwrap();
    assert_eq!(meta.proto.tick.0, *b"tEst");
    assert_eq!(meta.proto.max.units, units(1000));
    assert_eq!(meta.proto.lim.units, units(100));
    assert_eq!(meta.proto.dec, 8);
    assert_eq!(meta.proto.supply.units, 0);
    assert_eq!(meta.proto.mint_count, 0);
    assert_eq!(meta.proto.transfer_count, 0);
    assert_eq!(meta.proto.transactions, 1);
    assert_eq!(meta.proto.deployer, fh(1));
    assert_eq!(meta.genesis.txid.0, [10; 32]);
    assert_eq!(meta.genesis.index, 0);
    assert_eq!(rows.len(), 1);
    assert_eq!(rows[0].0.id, 1);
    assert_eq!(rows[0].0.address, fh(1));
    assert!(matches!(rows[0].1.action, TokenHistoryDB::Deploy { .. }));
    assert_eq!(w.store.last_block, Some(100));
    assert_eq!(w.store.last_history_id, Some(1));
}

#[test]
fn deploy_row_serializes_canonically_and_chains_poh() {
    let mut w = world();
    let rows = apply(&mut w, block(100, vec![deploy_insc(fh(1), 10)]));
    let mut disp: VecMap<FullHash, Vec<u8>> = VecMap::new();
    for (h, s) in &w.addrs {
        disp.insert(*h, s.clone());
    }
    let bytes = serialize_history_rows(&rows, &disp);
    let expected = format!(
        "{{\"id\":1,\"address\":\"addrA\",\"tick\":\"tEst\",\"height\":100,\
         \"type\":\"Deploy\",\"max\":\"1000\",\"lim\":\"100\",\"dec\":8,\
         \"txid\":\"{}\",\"vout\":0}}",
        "0a".repeat(32)
    );
    assert_eq!(String::from_utf8(bytes.clone()).unwrap(), expected);
    // POH_100 = sha256(sha256("null") || sha256(rows))
    let seed = sha2::Sha256::digest(b"null");
    let part = sha2::Sha256::digest(&bytes);
    let mut joined = seed.to_vec();
    joined.extend_from_slice(&part);
    let expected_poh = sha2::Sha256::digest(&joined);
    let stored = *w.store.proof_of_history.get(&100).unwrap();
    assert_eq!(stored.to_vec(), expected_poh.to_vec());
}

#[test]
fn mint_over_cap_is_clamped() {
    let mut w = world();
    apply(&mut w, block(100, vec![deploy_insc(fh(1), 10)]));
    let rows = apply(
        &mut w,
        block(
            101,
            vec![
                mint_insc(fh(1), 60, 11),
                mint_insc(fh(2), 60, 12),
                mint_insc(fh(3), 200, 13),
            ],
        ),
    );
    assert_eq!(balance_of(&w, fh(1)), (units(60), 0, 0));
    assert_eq!(balance_of(&w, fh(2)), (units(60), 0, 0));
    // the third mint asks for more than the per-mint limit and is dropped
    let meta = *w.store.token_to_meta.get(&lower()).unwrap();
    assert_eq!(rows.len(), 2);
    assert_eq!(meta.proto.supply.units, units(120));
    assert_eq!(meta.proto.mint_count, 2);
}

#[test]
fn mint_clamps_at_cap_boundary() {
    // a smaller cap shows the clamp: cap 100, lim 100, mints 60 + 60 + 200
    let mut w = world();
    let mut d = deploy_insc(fh(1), 10);
    d.token = ParsedTokenActionRest::Deploy {
        tick: tick(),
        max: amount(100),
        lim: amount(100),
        dec: 8,
    };
    apply(&mut w, block(100, vec![d]));
    let rows = apply(
        &mut w,
        block(
            101,
            vec![
                mint_insc(fh(1), 60, 11),
                mint_insc(fh(2), 60, 12),
                mint_insc(fh(3), 200, 13),
            ],
        ),
    );
    // 60 to A, clamped 40 to B, nothing left for C (and 200 > lim anyway)
    assert_eq!(balance_of(&w, fh(1)), (units(60), 0, 0));
    assert_eq!(balance_of(&w, fh(2)), (units(40), 0, 0));
    assert_eq!(balance_of(&w, fh(3)), (0, 0, 0));
    let meta = *w.store.token_to_meta.get(&lower()).unwrap();
    assert_eq!(meta.proto.supply.units, units(100));
    assert_eq!(meta.proto.supply.units, meta.proto.max.units);
    assert_eq!(meta.proto.mint_count, 2);
    assert_eq!(rows.len(), 2);
    match rows[1].1.action {
        TokenHistoryDB::Mint { amt, .. } => assert_eq!(amt.units, units(40)),
        _ => panic!("expected a mint row"),
    }
    assert_eq!(w.holders.holders_by_tick(&lower()), 2);
}

fn minted_world() -> World {
    let mut w = world();
    apply(&mut w, block(100, vec![deploy_insc(fh(1), 10)]));
    apply(
        &mut w,
        block(
            101,
            vec![
                mint_insc(fh(1), 60, 11),
                mint_insc(fh(2), 60, 12),
                mint_insc(fh(3), 40, 13),
            ],
        ),
    );
    w
}

#[test]
fn mint_block_totals() {
    let w = minted_world();
    let meta = *w.store.token_to_meta.get(&lower()).unwrap();
    assert_eq!(meta.proto.supply.units, units(160));
    assert_eq!(meta.proto.mint_count, 3);
    assert_eq!(meta.proto.transactions, 4);
    assert_eq!(w.holders.holders_by_tick(&lower()), 3);
}

#[test]
fn transfer_create_and_spend() {
    let mut w = minted_world();
    let x0 = loc(42, 0, 0);
    apply(&mut w, block(102, vec![transfer_insc(fh(1), 30, x0, 14)]));
    assert_eq!(balance_of(&w, fh(1)), (units(30), units(30), 1));
    assert!(w.store.address_location_to_transfer.get(&x0).is_some());
    let rows = apply(&mut w, block(103, vec![spend_insc(x0, fh(2), 30, 15)]));
    assert_eq!(balance_of(&w, fh(1)), (units(30), 0, 0));
    assert_eq!(balance_of(&w, fh(2)), (units(90), 0, 0));
    assert!(w.store.address_location_to_transfer.get(&x0).is_none());
    // one send row then one receive row with adjacent ids
    assert_eq!(rows.len(), 2);
    assert_eq!(rows[1].0.id, rows[0].0.id + 1);
    assert!(matches!(rows[0].1.action, TokenHistoryDB::Send { .. }));
    assert!(matches!(rows[1].1.action, TokenHistoryDB::Receive { .. }));
}

#[test]
fn transfer_with_too_many_decimals_is_rejected() {
    let mut w = minted_world();
    let before = balance_of(&w, fh(1));
    let x0 = loc(42, 0, 0);
    let mut t = transfer_insc(fh(1), 1, x0, 14);
    // scale 9 exceeds the deploy's 8 fractional digits
    t.token = ParsedTokenActionRest::DeployTransfer {
        tick: tick(),
        amt: Fixed128 { units: 1_000_000_000 },
    };
    let rows = apply(&mut w, block(102, vec![t]));
    assert_eq!(rows.len(), 0);
    assert_eq!(balance_of(&w, fh(1)), before);
    assert!(w.store.address_location_to_transfer.get(&x0).is_none());
}

#[test]
fn reorg_rolls_two_blocks_back_exactly() {
    let mut w = minted_world();
    let meta_before = *w.store.token_to_meta.get(&lower()).unwrap();
    let balances_before = (
        balance_of(&w, fh(1)),
        balance_of(&w, fh(2)),
        balance_of(&w, fh(3)),
    );
    let x0 = loc(42, 0, 0);
    apply(&mut w, block(102, vec![transfer_insc(fh(1), 30, x0, 14)]));
    apply(&mut w, block(103, vec![spend_insc(x0, fh(2), 30, 15)]));
    // the chain forks: drop 102 and 103 and play empty replacements
    let World { mut store, mut holders, mut reorg, addrs } = w;
    reorg.restore(&mut store, &mut holders, 102);
    let mut w = World { store, holders, reorg, addrs };
    apply(&mut w, block(102, vec![]));
    apply(&mut w, block(103, vec![]));
    let meta_after = *w.store.token_to_meta.get(&lower()).unwrap();
    assert_eq!(meta_after.proto.supply.units, meta_before.proto.supply.units);
    assert_eq!(meta_after.proto.mint_count, meta_before.proto.mint_count);
    assert_eq!(meta_after.proto.transfer_count, meta_before.proto.transfer_count);
    assert_eq!(meta_after.proto.transactions, meta_before.proto.transactions);
    assert_eq!(
        (
            balance_of(&w, fh(1)),
            balance_of(&w, fh(2)),
            balance_of(&w, fh(3)),
        ),
        balances_before
    );
    assert!(w.store.address_location_to_transfer.get(&x0).is_none());
    assert_eq!(w.store.last_block, Some(103));
    assert_eq!(w.store.last_history_id, Some(4));
}

#[test]
fn leaked_transfer_burns_without_credit() {
    let mut w = minted_world();
    let y0 = loc(43, 0, 0);
    apply(&mut w, block(104, vec![transfer_insc(fh(1), 10, y0, 16)]));
    assert_eq!(balance_of(&w, fh(1)), (units(50), units(10), 1));
    let meta_before = *w.store.token_to_meta.get(&lower()).unwrap();
    let rows = apply(&mut w, block(105, vec![leak_insc(y0, 10, 17)]));
    // the sender is debited and nobody is credited
    assert_eq!(balance_of(&w, fh(1)), (units(50), 0, 0));
    let meta = *w.store.token_to_meta.get(&lower()).unwrap();
    assert_eq!(meta.proto.supply.units, units(160));
    assert_eq!(meta.proto.transactions, meta_before.proto.transactions + 1);
    assert_eq!(rows.len(), 1);
    assert_eq!(rows[0].0.address, fh(1));
    match rows[0].1.action {
        TokenHistoryDB::SendReceive { amt, .. } => assert_eq!(amt.units, units(10)),
        _ => panic!("expected a self-send row"),
    }
}

#[test]
fn duplicate_deploy_is_rejected() {
    let mut w = minted_world();
    let before = *w.store.token_to_meta.get(&lower()).unwrap();
    let rows = apply(&mut w, block(106, vec![deploy_insc(fh(2), 99)]));
    assert_eq!(rows.len(), 0);
    let after = *w.store.token_to_meta.get(&lower()).unwrap();
    assert_eq!(after.proto.deployer, before.proto.deployer);
    assert_eq!(after.proto.transactions, before.proto.transactions);
    assert_eq!(w.store.last_history_id, Some(4));
}

#[test]
fn reprocessing_a_prefix_reproduces_the_poh_chain() {
    let w1 = minted_world();
    let mut w2 = world();
    apply(&mut w2, block(100, vec![deploy_insc(fh(1), 10)]));
    // the prefix run and the longer run agree on block 100's link
    assert_eq!(
        w1.store.proof_of_history.get(&100).unwrap(),
        w2.store.proof_of_history.get(&100).unwrap()
    );
    // and two identical full runs agree everywhere
    let w3 = minted_world();
    assert_eq!(
        w1.store.proof_of_history.get(&101).unwrap(),
        w3.store.proof_of_history.get(&101).unwrap()
    );
    assert_ne!(
        w1.store.proof_of_history.get(&100).unwrap(),
        w1.store.proof_of_history.get(&101).unwrap()
    );
}

#[test]
fn already_spent_transfer_is_skipped() {
    let mut w = minted_world();
    let x0 = loc(42, 0, 0);
    apply(&mut w, block(102, vec![transfer_insc(fh(1), 30, x0, 14)]));
    apply(&mut w, block(103, vec![spend_insc(x0, fh(2), 30, 15)]));
    let before = (balance_of(&w, fh(1)), balance_of(&w, fh(2)));
    // spending the same location again does nothing
    let rows = apply(&mut w, block(104, vec![spend_insc(x0, fh(3), 30, 16)]));
    assert_eq!(rows.len(), 0);
    assert_eq!((balance_of(&w, fh(1)), balance_of(&w, fh(2))), before);
}

#[test]
fn insufficient_balance_rejects_transfer() {
    let mut w = minted_world();
    let x0 = loc(42, 0, 0);
    let rows = apply(&mut w, block(102, vec![transfer_insc(fh(1), 61, x0, 14)]));
    assert_eq!(rows.len(), 0);
    assert_eq!(balance_of(&w, fh(1)), (units(60), 0, 0));
}

#[test]
fn mint_of_unknown_token_is_dropped() {
    let mut w = world();
    let rows = apply(&mut w, block(100, vec![mint_insc(fh(1), 5, 11)]));
    assert_eq!(rows.len(), 0);
    assert!(w.store.token_to_meta.get(&lower()).is_none());
}

#[test]
fn batch_equals_block_by_block_restart() {
    // one run applies both blocks in a single batch; the other stops after
    // the first block and continues from the committed state
    let mut w1 = world();
    let blocks = vec![
        block(100, vec![deploy_insc(fh(1), 10)]),
        block(101, vec![mint_insc(fh(1), 60, 11), mint_insc(fh(2), 60, 12)]),
    ];
    let addrs = w1.addrs.clone();
    let rows_batch = InitialIndexer::handle_batch(
        &blocks,
        &addrs,
        &mut w1.store,
        &mut w1.holders,
        &mut w1.reorg,
    )
    .unwrap();

    let mut w2 = world();
    let mut rows_single = apply(&mut w2, block(100, vec![deploy_insc(fh(1), 10)]));
    rows_single.extend(apply(
        &mut w2,
        block(101, vec![mint_insc(fh(1), 60, 11), mint_insc(fh(2), 60, 12)]),
    ));

    assert_eq!(rows_batch.len(), rows_single.len());
    for (a, b) in rows_batch.iter().zip(rows_single.iter()) {
        assert_eq!(a.0, b.0);
    }
    assert_eq!(w1.store.last_block, w2.store.last_block);
    assert_eq!(w1.store.last_history_id, w2.store.last_history_id);
    assert_eq!(
        w1.store.proof_of_history.get(&101).unwrap(),
        w2.store.proof_of_history.get(&101).unwrap()
    );
    assert_eq!(balance_of(&w1, fh(1)), balance_of(&w2, fh(1)));
    assert_eq!(balance_of(&w1, fh(2)), balance_of(&w2, fh(2)));
}
