//! Unit tests for the decimal grammar, the offset resolver, the holders
//! index, history id assignment and the canonical row serialization.

use bel20_indexer::errors::Brc4ParseErr;
use bel20_indexer::fixed::{parse_decimal, Fixed128, MAX_AMOUNT_UNITS, UNITS_PER_TOKEN};
use bel20_indexer::hashing::{compute_script_hash, default_poh_hash, op_return_hash};
use bel20_indexer::history::{expand_history, HistoryTokenAction, TokenHistoryDB};
use bel20_indexer::holders::Holders;
use bel20_indexer::params::{first_page, page_size_default, pages_of, validate_tick, Args, TokensArgs, FilterBy, SortBy};
use bel20_indexer::searcher::{InscriptionSearcher, Transaction, TxIn};
use bel20_indexer::types::{AddressToken, FullHash, HistoryLocation, LowerCaseTick, Outpoint, TokenTick, TxOut, TxidN};
use bel20_indexer::vecmap::VecMap;
use sha2::Digest;

fn fh(b: u8) -> FullHash {
    FullHash([b; 32])
}

#[test]
fn parse_whole_number() {
    let v = parse_decimal(b"1000").unwrap();
    assert_eq!(v.units, 1000 * UNITS_PER_TOKEN);
}

#[test]
fn parse_fractional_number() {
    let v = parse_decimal(b"12.34").unwrap();
    assert_eq!(v.units, 12 * UNITS_PER_TOKEN + 340_000_000_000_000_000);
}

#[test]
fn parse_eighteen_fractional_digits() {
    let v = parse_decimal(b"0.000000000000000001").unwrap();
    assert_eq!(v.units, 1);
}

#[test]
fn parse_max_amount() {
    let v = parse_decimal(b"18446744073709551615").unwrap();
    assert_eq!(v.units, MAX_AMOUNT_UNITS);
}

#[test]
fn parse_rejects_empty() {
    assert_eq!(parse_decimal(b"").unwrap_err(), Brc4ParseErr::DecimalEmpty);
}

#[test]
fn parse_rejects_sign() {
    assert_eq!(parse_decimal(b"+5").unwrap_err(), Brc4ParseErr::DecimalPlusMinus);
    assert_eq!(parse_decimal(b"-5").unwrap_err(), Brc4ParseErr::DecimalPlusMinus);
}

#[test]
fn parse_rejects_dot_at_ends() {
    assert_eq!(parse_decimal(b".5").unwrap_err(), Brc4ParseErr::DecimalDotStartEnd);
    assert_eq!(parse_decimal(b"5.").unwrap_err(), Brc4ParseErr::DecimalDotStartEnd);
}

#[test]
fn parse_rejects_spaces() {
    assert_eq!(parse_decimal(b" 5").unwrap_err(), Brc4ParseErr::DecimalSpaces);
    assert_eq!(parse_decimal(b"5 ").unwrap_err(), Brc4ParseErr::DecimalSpaces);
}

#[test]
fn parse_rejects_bad_digit() {
    assert_eq!(parse_decimal(b"12a4").unwrap_err(), Brc4ParseErr::InvalidDigit);
    assert_eq!(parse_decimal(b"1.2.3").unwrap_err(), Brc4ParseErr::InvalidDigit);
    assert_eq!(parse_decimal(b"1 2").unwrap_err(), Brc4ParseErr::InvalidDigit);
}

#[test]
fn parse_rejects_overflow() {
    assert_eq!(
        parse_decimal(b"18446744073709551616").unwrap_err(),
        Brc4ParseErr::DecimalOverflow
    );
    assert_eq!(
        parse_decimal(b"0.0000000000000000001").unwrap_err(),
        Brc4ParseErr::DecimalOverflow
    );
}

#[test]
fn scale_counts_used_fractional_digits() {
    assert_eq!(parse_decimal(b"1").unwrap().scale(), 0);
    assert_eq!(parse_decimal(b"1.5").unwrap().scale(), 1);
    assert_eq!(parse_decimal(b"0.00000001").unwrap().scale(), 8);
    assert_eq!(parse_decimal(b"0.000000001").unwrap().scale(), 9);
}

#[test]
fn fixed_min_and_compare() {
    let a = Fixed128 { units: 5 };
    let b = Fixed128 { units: 9 };
    assert_eq!(a.min(b).units, 5);
    assert!(a.lt(&b));
    assert!(a.le(&a));
    assert!(!b.le(&a));
}

#[test]
fn script_hash_is_sha256() {
    let h = compute_script_hash(b"BURNED");
    assert_eq!(h, op_return_hash());
    // known digest of the empty string
    let e = compute_script_hash(b"");
    assert_eq!(
        e.0.to_vec(),
        hex::decode("e3b0c44298fc1c149afbf4c8996fb92427ae41e4649b934ca495991b7852b855").unwrap()
    );
}

#[test]
fn default_hash_is_sha256_of_null() {
    let d = sha2::Sha256::digest(b"null");
    assert_eq!(default_poh_hash().to_vec(), d.to_vec());
}

fn outpoint(n: u8, vout: u32) -> Outpoint {
    Outpoint { txid: [n; 32], vout }
}

#[test]
fn calc_offsets_pays_fee_from_tail() {
    // two inputs of 50 and 30, outputs total 60: fee 20 eats into the tail
    let tx = Transaction {
        input: vec![
            TxIn { previous_output: outpoint(1, 0) },
            TxIn { previous_output: outpoint(2, 0) },
        ],
        output: vec![
            TxOut { value: 60, script_pubkey: vec![] },
        ],
    };
    let mut prevouts: VecMap<Outpoint, TxOut> = VecMap::new();
    prevouts.insert(outpoint(1, 0), TxOut { value: 50, script_pubkey: vec![] });
    prevouts.insert(outpoint(2, 0), TxOut { value: 30, script_pubkey: vec![] });
    let offs = InscriptionSearcher::calc_offsets(&tx, &prevouts).unwrap();
    // surviving values are [50, 10]; offsets are their prefix sums
    assert_eq!(offs, vec![0, 50]);
}

#[test]
fn calc_offsets_drops_fee_swallowed_inputs() {
    // the whole second input pays the fee
    let tx = Transaction {
        input: vec![
            TxIn { previous_output: outpoint(1, 0) },
            TxIn { previous_output: outpoint(2, 0) },
        ],
        output: vec![
            TxOut { value: 50, script_pubkey: vec![] },
        ],
    };
    let mut prevouts: VecMap<Outpoint, TxOut> = VecMap::new();
    prevouts.insert(outpoint(1, 0), TxOut { value: 50, script_pubkey: vec![] });
    prevouts.insert(outpoint(2, 0), TxOut { value: 30, script_pubkey: vec![] });
    let offs = InscriptionSearcher::calc_offsets(&tx, &prevouts).unwrap();
    assert_eq!(offs, vec![0]);
}

#[test]
fn calc_offsets_needs_all_prevouts() {
    let tx = Transaction {
        input: vec![TxIn { previous_output: outpoint(9, 0) }],
        output: vec![],
    };
    let prevouts: VecMap<Outpoint, TxOut> = VecMap::new();
    assert!(InscriptionSearcher::calc_offsets(&tx, &prevouts).is_none());
}

#[test]
fn output_index_resolves_offsets() {
    let outs = vec![
        TxOut { value: 10, script_pubkey: vec![] },
        TxOut { value: 5, script_pubkey: vec![] },
    ];
    assert_eq!(InscriptionSearcher::get_output_index_by_input(Some(0), &outs), Ok((0, 0)));
    assert_eq!(InscriptionSearcher::get_output_index_by_input(Some(9), &outs), Ok((0, 9)));
    assert_eq!(InscriptionSearcher::get_output_index_by_input(Some(10), &outs), Ok((1, 0)));
    assert_eq!(InscriptionSearcher::get_output_index_by_input(Some(14), &outs), Ok((1, 4)));
}

#[test]
fn output_index_past_total_is_leaked() {
    let outs = vec![TxOut { value: 10, script_pubkey: vec![] }];
    assert_eq!(InscriptionSearcher::get_output_index_by_input(Some(10), &outs), Err(()));
    assert_eq!(InscriptionSearcher::get_output_index_by_input(None, &outs), Err(()));
}

#[test]
fn expand_assigns_contiguous_ids_sender_first() {
    let tick = TokenTick(*b"tEst");
    let a = fh(1);
    let b = fh(2);
    let txid = TxidN([7; 32]);
    let actions = vec![
        HistoryTokenAction::Mint { tick, amt: Fixed128 { units: 5 }, recipient: a, txid, vout: 0 },
        HistoryTokenAction::Send {
            tick,
            amt: Fixed128 { units: 3 },
            recipient: b,
            sender: a,
            txid,
            vout: 0,
        },
    ];
    let (rows, last) = expand_history(&actions, 10, 100);
    assert_eq!(last, 13);
    assert_eq!(rows.len(), 3);
    assert_eq!(rows[0].0.id, 11);
    assert_eq!(rows[1].0.id, 12);
    assert_eq!(rows[2].0.id, 13);
    // the sender's Send row precedes the recipient's Receive row
    assert_eq!(rows[1].0.address, a);
    assert!(matches!(rows[1].1.action, TokenHistoryDB::Send { .. }));
    assert_eq!(rows[2].0.address, b);
    assert!(matches!(rows[2].1.action, TokenHistoryDB::Receive { .. }));
}

#[test]
fn self_send_collapses_to_send_receive() {
    let tick = TokenTick(*b"tEst");
    let a = fh(1);
    let txid = TxidN([7; 32]);
    let actions = vec![
        HistoryTokenAction::Send {
            tick,
            amt: Fixed128 { units: 3 },
            recipient: a,
            sender: a,
            txid,
            vout: 0,
        },
    ];
    let (rows, last) = expand_history(&actions, 0, 100);
    assert_eq!(last, 1);
    assert_eq!(rows.len(), 1);
    assert!(matches!(rows[0].1.action, TokenHistoryDB::SendReceive { .. }));
}

#[test]
fn holders_track_totals_and_counts() {
    let mut holders = Holders::new();
    let tick = LowerCaseTick(b"test".to_vec());
    let a = fh(1);
    assert_eq!(holders.holders_by_tick(&tick), 0);
    holders.increase(&tick, &a, Fixed128 { units: 0 }, Fixed128 { units: 10 });
    assert_eq!(holders.holders_by_tick(&tick), 1);
    holders.increase(&tick, &fh(2), Fixed128 { units: 0 }, Fixed128 { units: 4 });
    assert_eq!(holders.holders_by_tick(&tick), 2);
    // raising an existing holder does not change the count
    holders.increase(&tick, &a, Fixed128 { units: 10 }, Fixed128 { units: 1 });
    assert_eq!(holders.holders_by_tick(&tick), 2);
    let entries = holders.get_holders(&tick);
    assert_eq!(entries.len(), 2);
    // dropping a holder to zero removes it from the count
    holders.decrease(&tick, &a, Fixed128 { units: 11 }, Fixed128 { units: 11 });
    assert_eq!(holders.holders_by_tick(&tick), 1);
    assert_eq!(holders.get_holders(&tick).len(), 1);
}

#[test]
fn tick_keys_fold_ascii_case_only() {
    let t = TokenTick(*b"tEsT");
    assert_eq!(t.to_lowercase().0, b"test".to_vec());
    let raw = LowerCaseTick::of_bytes(&[200, 65, 97, 48]);
    assert_eq!(raw.0, vec![200, 97, 97, 48]);
}

#[test]
fn address_token_search_bounds() {
    let (lo, hi) = AddressToken::search(fh(9));
    assert_eq!(lo.address, fh(9));
    assert_eq!(lo.token.0, vec![0, 0, 0, 0]);
    assert_eq!(hi.token.0, vec![255, 255, 255, 255]);
}

#[test]
fn params_validate() {
    assert_eq!(page_size_default(), 6);
    assert_eq!(first_page(), 1);
    assert!(validate_tick("tEst").is_ok());
    assert!(validate_tick("token").is_err());
    let good = Args { page_size: 6, page: 1, tick: "test".to_string() };
    assert!(good.validate().is_ok());
    let bad = Args { page_size: 21, page: 1, tick: "test".to_string() };
    assert!(bad.validate().is_err());
    let zero_page = Args { page_size: 6, page: 0, tick: "test".to_string() };
    assert!(zero_page.validate().is_err());
    let search = TokensArgs {
        page_size: 10,
        page: 2,
        sort_by: SortBy::TransactionsDesc,
        filter_by: FilterBy::All,
        search: Some("abcde".to_string()),
    };
    assert!(search.validate().is_err());
    assert_eq!(pages_of(0, 6), 0);
    assert_eq!(pages_of(13, 6), 3);
    assert_eq!(pages_of(12, 6), 2);
}

#[test]
fn location_views_are_distinct() {
    let l1 = HistoryLocation { offset: 0, outpoint: outpoint(1, 0) };
    let l2 = HistoryLocation { offset: 1, outpoint: outpoint(1, 0) };
    assert_ne!(l1, l2);
}
