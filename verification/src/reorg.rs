//! The reorg journal: per-block inverse operations, kept for a bounded
//! window, and the exact rollback that replays them.

use vstd::prelude::*;
use crate::fixed::{fixed_units, Fixed128};
use crate::holders::{holders_decrease_spec, holders_increase_spec, Holders, HoldersV};
use crate::proto::{DeployProtoDB, TokenBalance, TokenMeta, TransferProtoDB};
use crate::store::{StoreV, TokenStore};
use crate::types::{
    AddressLocation, AddressToken, AddressTokenId, FullHash, HistoryLocation, lower_seq, Outpoint,
    TokenTick, TxOut,
};
use crate::vecmap::MapKey;

verus! {

/// How many recent blocks the journal can roll back.
pub const REORG_CACHE_MAX_LEN: usize = 30;

/// One inverse operation, recorded as its block was applied.
#[derive(Clone, Debug)]
pub enum TokenHistoryEntry {
    /// Undo a deploy: drop the token's metadata.
    RemoveDeployed(TokenTick),
    /// Undo a mint: debit the receiver of the ticker by the amount and
    /// shrink its supply.
    RemoveMint(FullHash, TokenTick, Fixed128),
    /// Undo a transfer creation: move the amount back to the owner's
    /// spendable balance.
    RemoveTransfer(HistoryLocation, FullHash, TokenTick, Fixed128),
    /// Undo a transfer spend: re-add the active transfer and take back any
    /// recipient credit.
    RestoreTransferred(AddressLocation, TransferProtoDB, Option<FullHash>),
    /// Drop a history row written by the block.
    RemoveHistory(AddressTokenId),
    /// Put back a prevout the block consumed.
    RestorePrevout(Outpoint, TxOut),
}

/// One block's journal: the pre-block history id and the inverse operations
/// in the order they were recorded.
pub type ReorgBlockV = (u32, u64, Seq<TokenHistoryEntry>);

/// What appending a block does to the journal: the oldest block leaves once
/// the window is full.
pub open spec fn reorg_push(rv: Seq<ReorgBlockV>, height: u32, last_history_id: u64) -> Seq<
    ReorgBlockV,
> {
    (if rv.len() >= REORG_CACHE_MAX_LEN as int {
        rv.skip(1)
    } else {
        rv
    }).push((height, last_history_id, Seq::empty()))
}

/// The journal of the most recent blocks.
pub struct ReorgCache {
    blocks: Vec<(u32, u64, Vec<TokenHistoryEntry>)>,
}

impl ReorgCache {
    /// The recorded blocks, oldest first.
    pub closed spec fn blocks_v(&self) -> Seq<ReorgBlockV> {
        Seq::new(self.blocks@.len(), |i: int| (self.blocks@[i].0, self.blocks@[i].1, self.blocks@[i].2@))
    }

    /// An empty journal.
    pub fn new() -> (r: Self)
        ensures
            r.blocks_v() == Seq::<ReorgBlockV>::empty(),
    {
        let r = ReorgCache { blocks: Vec::new() };
        proof {
            assert(r.blocks_v() =~= Seq::<ReorgBlockV>::empty());
        }
        r
    }

    /// Open a journal entry for a new block, evicting the oldest entry when
    /// the window is full.
    pub fn new_block(&mut self, block_height: u32, last_history_id: u64)
        ensures
            final(self).blocks_v() == reorg_push(
                old(self).blocks_v(),
                block_height,
                last_history_id,
            ),
    {
        if self.blocks.len() >= REORG_CACHE_MAX_LEN {
            let _ = self.blocks.remove(0);
            proof {
                assert(self.blocks_v() =~= old(self).blocks_v().skip(1));
            }
        }
        let ghost mid = self.blocks_v();
        self.blocks.push((block_height, last_history_id, Vec::new()));
        proof {
            assert(self.blocks_v() =~= mid.push(
                (block_height, last_history_id, Seq::<TokenHistoryEntry>::empty()),
            ));
        }
    }

    /// Append inverse operations to the newest block's entry.
    pub fn record(&mut self, entries: Vec<TokenHistoryEntry>)
        requires
            old(self).blocks_v().len() > 0,
        ensures
            ({
                let rv = old(self).blocks_v();
                let last = rv[rv.len() - 1];
                final(self).blocks_v() == rv.update(
                    rv.len() - 1,
                    (last.0, last.1, last.2 + entries@),
                )
            }),
    {
        let ghost rv = self.blocks_v();
        let i = self.blocks.len() - 1;
        let mut slot = self.blocks.remove(i);
        let ghost e0 = slot.2@;
        let n = entries.len();
        let mut entries = entries;
        let mut k: usize = 0;
        let ghost es = entries@;
        while k < n
            invariant
                0 <= k <= n,
                n == es.len(),
                rv.len() > 0,
                slot.0 == rv[rv.len() - 1].0,
                slot.1 == rv[rv.len() - 1].1,
                e0 == rv[rv.len() - 1].2,
                entries@ == es.skip(k as int),
                slot.2@ == e0 + es.take(k as int),
            decreases n - k,
        {
            proof {
                assert(es.skip(k as int)[0] == es[k as int]);
            }
            let e = entries.remove(0);
            slot.2.push(e);
            proof {
                assert(entries@ =~= es.skip(k + 1));
                assert(slot.2@ =~= e0 + es.take(k + 1));
            }
            k = k + 1;
        }
        proof {
            assert(es.take(n as int) =~= es);
        }
        self.blocks.push(slot);
        proof {
            assert(self.blocks_v() =~= rv.update(
                rv.len() - 1,
                (rv[rv.len() - 1].0, rv[rv.len() - 1].1, rv[rv.len() - 1].2 + es),
            ));
        }
    }

    /// How many blocks the journal currently holds.
    pub fn len(&self) -> (r: usize)
        ensures
            r as int == self.blocks_v().len(),
    {
        self.blocks.len()
    }

    /// Roll the store and holders index back to just below `block_height`,
    /// undoing every journalled block at or above it in reverse order.
    pub fn restore(&mut self, store: &mut TokenStore, holders: &mut Holders, block_height: u32)
        ensures
            ({
                let out = rollback_spec(
                    old(store)@,
                    old(holders)@,
                    old(self).blocks_v(),
                    block_height,
                );
                &&& final(store)@ == out.0
                &&& final(holders)@ == out.1
                &&& final(self).blocks_v() == out.2
            }),
    {
        let ghost sv0 = store@;
        let ghost hv0 = holders@;
        let ghost rv0 = self.blocks_v();
        loop
            invariant
                sv0 == old(store)@,
                hv0 == old(holders)@,
                rv0 == old(self).blocks_v(),
                rollback_spec(store@, holders@, self.blocks_v(), block_height) == rollback_spec(
                    sv0,
                    hv0,
                    rv0,
                    block_height,
                ),
            ensures
                rollback_spec(store@, holders@, self.blocks_v(), block_height) == rollback_spec(
                    sv0,
                    hv0,
                    rv0,
                    block_height,
                ),
                self.blocks_v().len() == 0 || self.blocks_v().last().0 < block_height,
            decreases self.blocks_v().len(),
        {
            let n = self.blocks.len();
            if n == 0 {
                break ;
            }
            if self.blocks[n - 1].0 < block_height {
                proof {
                    assert(self.blocks_v().last().0 < block_height);
                }
                break ;
            }
            let ghost rv_here = self.blocks_v();
            let ghost sv_it = store@;
            let ghost hv_it = holders@;
            let (height, last_id, mut entries) = self.blocks.pop().unwrap();
            proof {
                assert(self.blocks_v() =~= rv_here.drop_last());
                assert(rv_here.last() == (height, last_id, entries@));
            }
            // cursors and per-block tables first
            store.last_block = if height > 0 {
                Some(height - 1)
            } else {
                None
            };
            store.last_history_id = Some(last_id);
            let _ = store.block_hashes.remove(&height);
            let _ = store.proof_of_history.remove(&height);
            let _ = store.block_events.remove(&height);
            let ghost sv1 = store@;
            let ghost hv1 = holders@;
            let ghost es = entries@;
            // replay the inverse operations backwards
            loop
                invariant
                    undo_entries(store@, holders@, entries@) == undo_entries(sv1, hv1, es),
                ensures
                    entries@.len() == 0,
                    undo_entries(sv1, hv1, es) == (store@, holders@),
                decreases entries@.len(),
            {
                match entries.pop() {
                    Some(e) => {
                        let ghost before = entries@;
                        undo_entry_exec(store, holders, e);
                        proof {
                            assert(before =~= before.push(e).drop_last());
                        }
                    },
                    None => {
                        break ;
                    },
                }
            }
            proof {
                assert(sv1 =~~= (StoreV {
                    last_block: if height > 0 {
                        Some((height - 1) as u32)
                    } else {
                        None
                    },
                    last_history_id: Some(last_id),
                    block_hashes: sv_it.block_hashes.remove(height),
                    proof_of_history: sv_it.proof_of_history.remove(height),
                    block_events: sv_it.block_events.remove(height),
                    ..sv_it
                }));
                assert(undo_block(sv_it, hv_it, rv_here.last()) == (store@, holders@));
            }
        }
    }

    /// Roll back every journalled block.
    pub fn restore_all(&mut self, store: &mut TokenStore, holders: &mut Holders)
        ensures
            ({
                let out = rollback_spec(old(store)@, old(holders)@, old(self).blocks_v(), 0);
                &&& final(store)@ == out.0
                &&& final(holders)@ == out.1
                &&& final(self).blocks_v() == out.2
            }),
    {
        self.restore(store, holders, 0);
    }
}

/// The inverse operations that drop a block's history rows.
pub open spec fn remove_history_entries(rows: Seq<(AddressTokenId, crate::history::HistoryValue)>) -> Seq<
    TokenHistoryEntry,
> {
    Seq::new(rows.len(), |i: int| TokenHistoryEntry::RemoveHistory(rows[i].0))
}

/// What undoing one journalled operation does to the store and the holders
/// index. An inverse whose data is no longer present leaves the state alone.
pub open spec fn undo_entry(sv: StoreV, hv: HoldersV, e: TokenHistoryEntry) -> (StoreV, HoldersV) {
    match e {
        TokenHistoryEntry::RemoveDeployed(tick) => (
            StoreV { token_to_meta: sv.token_to_meta.remove(lower_seq(tick@)), ..sv },
            hv,
        ),
        TokenHistoryEntry::RemoveMint(owner, tick, amt) => {
            let key = lower_seq(tick@);
            let akey = (owner@, key);
            if !sv.token_to_meta.contains_key(key) || !sv.address_token_to_balance.contains_key(
                akey,
            ) {
                (sv, hv)
            } else {
                let meta = sv.token_to_meta[key];
                let acct = sv.address_token_to_balance[akey];
                if meta.proto.supply@ < amt@ || meta.proto.mint_count == 0
                    || meta.proto.transactions == 0 || acct.balance@ < amt@ || acct.balance@
                    + acct.transferable_balance@ > u128::MAX as int {
                    (sv, hv)
                } else {
                    let prev_total = acct.balance@ + acct.transferable_balance@;
                    let new_meta = TokenMeta {
                        genesis: meta.genesis,
                        proto: DeployProtoDB {
                            supply: fixed_units(meta.proto.supply@ - amt@),
                            mint_count: (meta.proto.mint_count - 1) as u64,
                            transactions: (meta.proto.transactions - 1) as u32,
                            ..meta.proto
                        },
                    };
                    let new_acct = TokenBalance {
                        balance: fixed_units(acct.balance@ - amt@),
                        ..acct
                    };
                    (
                        StoreV {
                            token_to_meta: sv.token_to_meta.insert(key, new_meta),
                            address_token_to_balance: sv.address_token_to_balance.insert(
                                akey,
                                new_acct,
                            ),
                            ..sv
                        },
                        holders_decrease_spec(hv, key, owner@, prev_total, amt@),
                    )
                }
            }
        },
        TokenHistoryEntry::RemoveTransfer(location, owner, tick, amt) => {
            let key = lower_seq(tick@);
            let akey = (owner@, key);
            if !sv.token_to_meta.contains_key(key) || !sv.address_token_to_balance.contains_key(
                akey,
            ) {
                (sv, hv)
            } else {
                let meta = sv.token_to_meta[key];
                let acct = sv.address_token_to_balance[akey];
                if meta.proto.transfer_count == 0 || meta.proto.transactions == 0
                    || acct.transferable_balance@ < amt@ || acct.transfers_count == 0
                    || acct.balance@ + amt@ > u128::MAX as int {
                    (sv, hv)
                } else {
                    let new_meta = TokenMeta {
                        genesis: meta.genesis,
                        proto: DeployProtoDB {
                            transfer_count: (meta.proto.transfer_count - 1) as u64,
                            transactions: (meta.proto.transactions - 1) as u32,
                            ..meta.proto
                        },
                    };
                    let new_acct = TokenBalance {
                        balance: fixed_units(acct.balance@ + amt@),
                        transferable_balance: fixed_units(acct.transferable_balance@ - amt@),
                        transfers_count: (acct.transfers_count - 1) as u64,
                    };
                    (
                        StoreV {
                            token_to_meta: sv.token_to_meta.insert(key, new_meta),
                            address_token_to_balance: sv.address_token_to_balance.insert(
                                akey,
                                new_acct,
                            ),
                            address_location_to_transfer: sv.address_location_to_transfer.remove(
                                location@,
                            ),
                            ..sv
                        },
                        hv,
                    )
                }
            }
        },
        TokenHistoryEntry::RestoreTransferred(al, proto, recipient) => undo_transferred(
            sv,
            hv,
            al,
            proto,
            recipient,
        ),
        TokenHistoryEntry::RemoveHistory(k) => (
            StoreV { address_token_to_history: sv.address_token_to_history.remove(k@), ..sv },
            hv,
        ),
        TokenHistoryEntry::RestorePrevout(op, txout) => (
            StoreV { prevouts: sv.prevouts.insert(op@, txout), ..sv },
            hv,
        ),
    }
}

/// Undo the spend of a transferable: the sender gets the active transfer
/// back and any credited recipient is debited again.
pub open spec fn undo_transferred(
    sv: StoreV,
    hv: HoldersV,
    al: AddressLocation,
    proto: TransferProtoDB,
    recipient: Option<FullHash>,
) -> (StoreV, HoldersV) {
    let sender = al.address;
    let amt = proto.amt;
    let key = lower_seq(proto.tick@);
    let skey = (sender@, key);
    if !sv.token_to_meta.contains_key(key) || !sv.address_token_to_balance.contains_key(skey) {
        (sv, hv)
    } else {
        let meta = sv.token_to_meta[key];
        let acct = sv.address_token_to_balance[skey];
        let prev_total = acct.balance@ + acct.transferable_balance@;
        if meta.proto.transactions == 0 || prev_total > u128::MAX as int || prev_total + amt@
            > u128::MAX as int || acct.transfers_count == u64::MAX {
            (sv, hv)
        } else {
            let sender_new = TokenBalance {
                balance: acct.balance,
                transferable_balance: fixed_units(acct.transferable_balance@ + amt@),
                transfers_count: (acct.transfers_count + 1) as u64,
            };
            let rcheck = match recipient {
                Some(r) => {
                    let rkey = (r@, key);
                    if rkey == skey {
                        Some((rkey, sender_new))
                    } else if sv.address_token_to_balance.contains_key(rkey) {
                        Some((rkey, sv.address_token_to_balance[rkey]))
                    } else {
                        None
                    }
                },
                None => Some(((sender@, key), sender_new)),
            };
            if recipient is Some && (rcheck is None || {
                let racct = rcheck.unwrap().1;
                racct.balance@ < amt@ || racct.balance@ + racct.transferable_balance@
                    > u128::MAX as int
            }) {
                (sv, hv)
            } else {
                let new_meta = TokenMeta {
                    genesis: meta.genesis,
                    proto: DeployProtoDB {
                        transactions: (meta.proto.transactions - 1) as u32,
                        ..meta.proto
                    },
                };
                let accounts1 = sv.address_token_to_balance.insert(skey, sender_new);
                let hv1 = holders_increase_spec(hv, key, sender@, prev_total, amt@);
                let (accounts2, hv2) = match recipient {
                    Some(r) => {
                        let rkey = rcheck.unwrap().0;
                        let racct = rcheck.unwrap().1;
                        let rprev = racct.balance@ + racct.transferable_balance@;
                        (
                            accounts1.insert(
                                rkey,
                                TokenBalance {
                                    balance: fixed_units(racct.balance@ - amt@),
                                    ..racct
                                },
                            ),
                            holders_decrease_spec(hv1, key, r@, rprev, amt@),
                        )
                    },
                    None => (accounts1, hv1),
                };
                (
                    StoreV {
                        token_to_meta: sv.token_to_meta.insert(key, new_meta),
                        address_token_to_balance: accounts2,
                        address_location_to_transfer: sv.address_location_to_transfer.insert(
                            al.location@,
                            (sender, proto),
                        ),
                        ..sv
                    },
                    hv2,
                )
            }
        }
    }
}

/// Undo a block's operations in reverse insertion order.
pub open spec fn undo_entries(sv: StoreV, hv: HoldersV, entries: Seq<TokenHistoryEntry>) -> (
    StoreV,
    HoldersV,
)
    decreases entries.len(),
{
    if entries.len() == 0 {
        (sv, hv)
    } else {
        let first = undo_entry(sv, hv, entries.last());
        undo_entries(first.0, first.1, entries.drop_last())
    }
}

/// Undo one whole block: drop its rows, hashes and cursors, then replay its
/// inverse operations backwards.
pub open spec fn undo_block(sv: StoreV, hv: HoldersV, bv: ReorgBlockV) -> (StoreV, HoldersV) {
    let sv1 = StoreV {
        last_block: if bv.0 > 0 {
            Some((bv.0 - 1) as u32)
        } else {
            None
        },
        last_history_id: Some(bv.1),
        block_hashes: sv.block_hashes.remove(bv.0),
        proof_of_history: sv.proof_of_history.remove(bv.0),
        block_events: sv.block_events.remove(bv.0),
        ..sv
    };
    undo_entries(sv1, hv, bv.2)
}

/// Undo one journalled operation on the live state.
#[verifier::rlimit(100)]
fn undo_entry_exec(store: &mut TokenStore, holders: &mut Holders, e: TokenHistoryEntry)
    ensures
        final(store)@ == undo_entry(old(store)@, old(holders)@, e).0,
        final(holders)@ == undo_entry(old(store)@, old(holders)@, e).1,
{
    let ghost out = undo_entry(store@, holders@, e);
    match e {
        TokenHistoryEntry::RemoveDeployed(tick) => {
            let key = tick.to_lowercase();
            let _ = store.token_to_meta.remove(&key);
            proof {
                assert(final(store)@ =~= out.0);
            }
        },
        TokenHistoryEntry::RemoveMint(owner, tick, amt) => {
            let key = tick.to_lowercase();
            let akey = AddressToken { address: owner, token: key.key_clone() };
            let meta = match store.token_to_meta.get_copy(&key) {
                Some(m) => m,
                None => {
                    return ;
                },
            };
            let acct = match store.address_token_to_balance.get_copy(&akey) {
                Some(a) => a,
                None => {
                    return ;
                },
            };
            if meta.proto.supply.lt(&amt) || meta.proto.mint_count == 0 || meta.proto.transactions
                == 0 || acct.balance.lt(&amt) {
                return ;
            }
            let prev_total = match acct.balance.checked_add(acct.transferable_balance) {
                Some(t) => t,
                None => {
                    return ;
                },
            };
            let new_meta = TokenMeta {
                genesis: meta.genesis,
                proto: DeployProtoDB {
                    supply: meta.proto.supply.sub(amt),
                    mint_count: meta.proto.mint_count - 1,
                    transactions: meta.proto.transactions - 1,
                    ..meta.proto
                },
            };
            let new_acct = TokenBalance {
                balance: acct.balance.sub(amt),
                transferable_balance: acct.transferable_balance,
                transfers_count: acct.transfers_count,
            };
            holders.decrease(&key, &owner, prev_total, amt);
            store.token_to_meta.insert(key, new_meta);
            store.address_token_to_balance.insert(akey, new_acct);
            proof {
                assert(final(store)@ =~= out.0);
            }
        },
        TokenHistoryEntry::RemoveTransfer(location, owner, tick, amt) => {
            let key = tick.to_lowercase();
            let akey = AddressToken { address: owner, token: key.key_clone() };
            let meta = match store.token_to_meta.get_copy(&key) {
                Some(m) => m,
                None => {
                    return ;
                },
            };
            let acct = match store.address_token_to_balance.get_copy(&akey) {
                Some(a) => a,
                None => {
                    return ;
                },
            };
            if meta.proto.transfer_count == 0 || meta.proto.transactions == 0
                || acct.transferable_balance.lt(&amt) || acct.transfers_count == 0 {
                return ;
            }
            if acct.balance.checked_add(amt).is_none() {
                return ;
            }
            let new_meta = TokenMeta {
                genesis: meta.genesis,
                proto: DeployProtoDB {
                    transfer_count: meta.proto.transfer_count - 1,
                    transactions: meta.proto.transactions - 1,
                    ..meta.proto
                },
            };
            let new_acct = TokenBalance {
                balance: acct.balance.add(amt),
                transferable_balance: acct.transferable_balance.sub(amt),
                transfers_count: acct.transfers_count - 1,
            };
            store.token_to_meta.insert(key, new_meta);
            store.address_token_to_balance.insert(akey, new_acct);
            let _ = store.address_location_to_transfer.remove(&location);
            proof {
                assert(final(store)@ =~= out.0);
            }
        },
        TokenHistoryEntry::RestoreTransferred(al, proto, recipient) => {
            let sender = al.address;
            let amt = proto.amt;
            let key = proto.tick.to_lowercase();
            let skey = AddressToken { address: sender, token: key.key_clone() };
            let meta = match store.token_to_meta.get_copy(&key) {
                Some(m) => m,
                None => {
                    return ;
                },
            };
            let acct = match store.address_token_to_balance.get_copy(&skey) {
                Some(a) => a,
                None => {
                    return ;
                },
            };
            if meta.proto.transactions == 0 || acct.transfers_count == u64::MAX {
                return ;
            }
            let prev_total = match acct.balance.checked_add(acct.transferable_balance) {
                Some(t) => t,
                None => {
                    return ;
                },
            };
            if prev_total.checked_add(amt).is_none() {
                return ;
            }
            let sender_new = TokenBalance {
                balance: acct.balance,
                transferable_balance: acct.transferable_balance.add(amt),
                transfers_count: acct.transfers_count + 1,
            };
            // check the recipient side before touching anything
            let rinfo: Option<(AddressToken, TokenBalance)> = match &recipient {
                Some(r) => {
                    let rkey = AddressToken { address: *r, token: key.key_clone() };
                    if rkey.key_eq(&skey) {
                        Some((rkey, sender_new))
                    } else {
                        match store.address_token_to_balance.get_copy(&rkey) {
                            Some(b) => Some((rkey, b)),
                            None => None,
                        }
                    }
                },
                None => Some((AddressToken { address: sender, token: key.key_clone() }, sender_new)),
            };
            if recipient.is_some() {
                match &rinfo {
                    Some(ri) => {
                        if ri.1.balance.lt(&amt) {
                            return ;
                        }
                        if ri.1.balance.checked_add(ri.1.transferable_balance).is_none() {
                            return ;
                        }
                    },
                    None => {
                        return ;
                    },
                }
            }
            let new_meta = TokenMeta {
                genesis: meta.genesis,
                proto: DeployProtoDB {
                    transactions: meta.proto.transactions - 1,
                    ..meta.proto
                },
            };
            holders.increase(&key, &sender, prev_total, amt);
            store.address_token_to_balance.insert(skey, sender_new);
            match &recipient {
                Some(r) => {
                    let ri = match rinfo {
                        Some(ri) => ri,
                        None => {
                            proof {
                                assert(false);
                            }
                            return ;
                        },
                    };
                    let rprev = ri.1.balance.add(ri.1.transferable_balance);
                    holders.decrease(&key, r, rprev, amt);
                    store.address_token_to_balance.insert(
                        ri.0,
                        TokenBalance {
                            balance: ri.1.balance.sub(amt),
                            transferable_balance: ri.1.transferable_balance,
                            transfers_count: ri.1.transfers_count,
                        },
                    );
                },
                None => {},
            }
            store.token_to_meta.insert(key, new_meta);
            store.address_location_to_transfer.insert(al.location, (sender, proto));
            proof {
                assert(final(store)@ =~= out.0);
                assert(final(holders)@ =~= out.1);
            }
        },
        TokenHistoryEntry::RemoveHistory(k) => {
            let _ = store.address_token_to_history.remove(&k);
            proof {
                assert(final(store)@ =~= out.0);
            }
        },
        TokenHistoryEntry::RestorePrevout(op, txout) => {
            store.prevouts.insert(op, txout);
            proof {
                assert(final(store)@ =~= out.0);
            }
        },
    }
}

/// Roll the state back to just below `target`: pop journalled blocks while
/// their height is at or above it, undoing each.
pub open spec fn rollback_spec(
    sv: StoreV,
    hv: HoldersV,
    rv: Seq<ReorgBlockV>,
    target: u32,
) -> (StoreV, HoldersV, Seq<ReorgBlockV>)
    decreases rv.len(),
{
    if rv.len() == 0 || rv.last().0 < target {
        (sv, hv, rv)
    } else {
        let one = undo_block(sv, hv, rv.last());
        rollback_spec(one.0, one.1, rv.drop_last(), target)
    }
}

} // verus!
