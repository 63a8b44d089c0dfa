//! The token interpreter: apply deploy, mint, transfer and transferred
//! actions to the cached state under the protocol's validity rules, emit
//! history, and record the journal entries that undo the block.

use vstd::prelude::*;
use crate::fixed::{fixed_units, scale_of, Fixed128};
use crate::hashing::op_return_hash_spec;
use crate::history::HistoryTokenAction;
use crate::holders::{holders_decrease_spec, holders_increase_spec, Holders, HoldersV};
use crate::proto::{DeployProtoDB, MintProto, TokenBalance, TokenMeta, TransferProto, TransferProtoDB};
use crate::reorg::TokenHistoryEntry;
use crate::types::{
    lower_seq, AddressLocation, AddressToken, FullHash, HistoryLocation, InscriptionId,
    LowerCaseTick, TokenTick, TxidN,
};
use crate::vecmap::{MapKey, VecMap};

verus! {

/// A raw action handed to the interpreter, in block order.
#[derive(Clone, Copy, Debug)]
pub enum TokenAction {
    /// Deploy a new token.
    Deploy { genesis: InscriptionId, proto: DeployProtoDB, owner: FullHash },
    /// Mint into an owner's balance.
    Mint { owner: FullHash, proto: MintProto, txid: TxidN, vout: u32 },
    /// Create a transferable at a location.
    Transfer {
        location: HistoryLocation,
        owner: FullHash,
        proto: TransferProto,
        txid: TxidN,
        vout: u32,
    },
    /// Spend a previously created transferable.
    Transferred {
        transfer_location: HistoryLocation,
        recipient: Option<FullHash>,
        txid: TxidN,
        vout: u32,
    },
}

/// The interpreter's working state: caches preloaded from the store.
pub struct TokenCache {
    /// Deployed tokens by lowercase ticker.
    pub tokens: VecMap<LowerCaseTick, TokenMeta>,
    /// Balances by (address, lowercase ticker).
    pub token_accounts: VecMap<AddressToken, TokenBalance>,
    /// Actions parsed from the block, not yet validated.
    pub token_actions: Vec<TokenAction>,
    /// Transferables created in this block and not yet spent.
    pub all_transfers: VecMap<HistoryLocation, TransferProtoDB>,
    /// Persisted active transferables, with their owner.
    pub valid_transfers: VecMap<HistoryLocation, (FullHash, TransferProtoDB)>,
}

/// The mathematical image of the interpreter state plus the holders index.
#[verifier::ext_equal]
pub struct StateV {
    pub tokens: Map<Seq<u8>, TokenMeta>,
    pub accounts: Map<(Seq<u8>, Seq<u8>), TokenBalance>,
    pub all_transfers: Map<(Seq<u8>, u32, u64), TransferProtoDB>,
    pub valid_transfers: Map<(Seq<u8>, u32, u64), (FullHash, TransferProtoDB)>,
    pub holders: HoldersV,
}

pub open spec fn state_of(c: TokenCache, h: Holders) -> StateV {
    StateV {
        tokens: c.tokens@,
        accounts: c.token_accounts@,
        all_transfers: c.all_transfers@,
        valid_transfers: c.valid_transfers@,
        holders: h@,
    }
}

/// The empty balance row.
pub open spec fn zero_balance() -> TokenBalance {
    TokenBalance {
        balance: fixed_units(0),
        transferable_balance: fixed_units(0),
        transfers_count: 0,
    }
}

pub open spec fn account_or_zero(st: StateV, akey: (Seq<u8>, Seq<u8>)) -> TokenBalance {
    if st.accounts.contains_key(akey) {
        st.accounts[akey]
    } else {
        zero_balance()
    }
}

/// What one step returns: the new state, the history it emitted, and the
/// journal entries that undo it.
pub type StepOut = (StateV, Seq<HistoryTokenAction>, Seq<TokenHistoryEntry>);

pub open spec fn skip_step(st: StateV) -> StepOut {
    (st, Seq::empty(), Seq::empty())
}

/// A deploy is accepted only for a ticker not yet deployed.
pub open spec fn step_deploy(
    st: StateV,
    genesis: InscriptionId,
    proto: DeployProtoDB,
    owner: FullHash,
) -> StepOut {
    let key = lower_seq(proto.tick@);
    if st.tokens.contains_key(key) {
        skip_step(st)
    } else {
        (
            StateV { tokens: st.tokens.insert(key, TokenMeta { genesis, proto }), ..st },
            seq![
                HistoryTokenAction::Deploy {
                    tick: proto.tick,
                    max: proto.max,
                    lim: proto.lim,
                    dec: proto.dec,
                    recipient: owner,
                    txid: genesis.txid,
                    vout: genesis.index,
                },
            ],
            seq![TokenHistoryEntry::RemoveDeployed(proto.tick)],
        )
    }
}

/// A mint must name a deployed ticker, respect its decimals and per-mint
/// limit, and is clamped to what is left of the supply cap.
pub open spec fn step_mint(
    st: StateV,
    owner: FullHash,
    tick: TokenTick,
    amt: Fixed128,
    txid: TxidN,
    vout: u32,
) -> StepOut {
    let key = lower_seq(tick@);
    if !st.tokens.contains_key(key) {
        skip_step(st)
    } else {
        let meta = st.tokens[key];
        if scale_of(amt@, 18) > meta.proto.dec as int {
            skip_step(st)
        } else if meta.proto.lim@ < amt@ {
            skip_step(st)
        } else if meta.proto.supply@ == meta.proto.max@ {
            skip_step(st)
        } else if meta.proto.max@ < meta.proto.supply@ {
            skip_step(st)
        } else {
            let rem = meta.proto.max@ - meta.proto.supply@;
            let amt2 = if amt@ <= rem {
                amt
            } else {
                fixed_units(rem)
            };
            let akey = (owner@, key);
            let prev = account_or_zero(st, akey);
            if meta.proto.transactions == u32::MAX || meta.proto.mint_count == u64::MAX {
                skip_step(st)
            } else if prev.balance@ + prev.transferable_balance@ > u128::MAX as int {
                skip_step(st)
            } else if prev.balance@ + prev.transferable_balance@ + amt2@ > u128::MAX as int {
                skip_step(st)
            } else {
                let new_meta = TokenMeta {
                    genesis: meta.genesis,
                    proto: DeployProtoDB {
                        supply: fixed_units(meta.proto.supply@ + amt2@),
                        transactions: (meta.proto.transactions + 1) as u32,
                        mint_count: (meta.proto.mint_count + 1) as u64,
                        ..meta.proto
                    },
                };
                let new_bal = TokenBalance {
                    balance: fixed_units(prev.balance@ + amt2@),
                    ..prev
                };
                let h1 = holders_increase_spec(
                    st.holders,
                    key,
                    owner@,
                    prev.balance@ + prev.transferable_balance@,
                    amt2@,
                );
                (
                    StateV {
                        tokens: st.tokens.insert(key, new_meta),
                        accounts: st.accounts.insert(akey, new_bal),
                        holders: h1,
                        ..st
                    },
                    seq![
                        HistoryTokenAction::Mint { tick, amt: amt2, recipient: owner, txid, vout },
                    ],
                    seq![TokenHistoryEntry::RemoveMint(owner, tick, amt2)],
                )
            }
        }
    }
}

/// Creating a transferable consumes the parsed envelope at its location,
/// requires a deployed ticker, valid decimals, and enough spendable balance.
pub open spec fn step_transfer(
    st: StateV,
    location: HistoryLocation,
    owner: FullHash,
    tick: TokenTick,
    amt: Fixed128,
    txid: TxidN,
    vout: u32,
) -> StepOut {
    let lkey = location@;
    if !st.all_transfers.contains_key(lkey) {
        skip_step(st)
    } else {
        let data = st.all_transfers[lkey];
        let st1 = StateV { all_transfers: st.all_transfers.remove(lkey), ..st };
        let key = lower_seq(tick@);
        if !st1.tokens.contains_key(key) {
            skip_step(st1)
        } else {
            let meta = st1.tokens[key];
            if scale_of(amt@, 18) > meta.proto.dec as int {
                skip_step(st1)
            } else {
                let akey = (owner@, key);
                if !st1.accounts.contains_key(akey) {
                    skip_step(st1)
                } else {
                    let acct = st1.accounts[akey];
                    if amt@ > acct.balance@ {
                        skip_step(st1)
                    } else if acct.transfers_count == u64::MAX || meta.proto.transfer_count
                        == u64::MAX || meta.proto.transactions == u32::MAX {
                        skip_step(st1)
                    } else if acct.transferable_balance@ + amt@ > u128::MAX as int {
                        skip_step(st1)
                    } else {
                        let new_acct = TokenBalance {
                            balance: fixed_units(acct.balance@ - amt@),
                            transferable_balance: fixed_units(acct.transferable_balance@ + amt@),
                            transfers_count: (acct.transfers_count + 1) as u64,
                        };
                        let new_meta = TokenMeta {
                            genesis: meta.genesis,
                            proto: DeployProtoDB {
                                transfer_count: (meta.proto.transfer_count + 1) as u64,
                                transactions: (meta.proto.transactions + 1) as u32,
                                ..meta.proto
                            },
                        };
                        (
                            StateV {
                                tokens: st1.tokens.insert(key, new_meta),
                                accounts: st1.accounts.insert(akey, new_acct),
                                valid_transfers: st1.valid_transfers.insert(lkey, (owner, data)),
                                ..st1
                            },
                            seq![
                                HistoryTokenAction::DeployTransfer {
                                    tick,
                                    amt,
                                    recipient: owner,
                                    txid,
                                    vout,
                                },
                            ],
                            seq![TokenHistoryEntry::RemoveTransfer(location, owner, tick, amt)],
                        )
                    }
                }
            }
        }
    }
}

/// Spending a transferable debits the sender and, unless the target burns,
/// credits the recipient; a burn or missing target becomes a self-send.
pub open spec fn step_transferred(
    st: StateV,
    transfer_location: HistoryLocation,
    recipient: Option<FullHash>,
    txid: TxidN,
    vout: u32,
) -> StepOut {
    let lkey = transfer_location@;
    if !st.valid_transfers.contains_key(lkey) {
        skip_step(st)
    } else {
        let (sender, proto) = st.valid_transfers[lkey];
        let st1 = StateV { valid_transfers: st.valid_transfers.remove(lkey), ..st };
        let amt = proto.amt;
        let key = lower_seq(proto.tick@);
        let akey = (sender@, key);
        if !st1.accounts.contains_key(akey) {
            skip_step(st1)
        } else {
            let old_acct = st1.accounts[akey];
            if old_acct.transfers_count == 0 || old_acct.transferable_balance@ < amt@ {
                skip_step(st1)
            } else if !st1.tokens.contains_key(key) {
                skip_step(st1)
            } else {
                let meta = st1.tokens[key];
                let prev_total = old_acct.balance@ + old_acct.transferable_balance@;
                if meta.proto.transactions == u32::MAX || prev_total > u128::MAX as int {
                    skip_step(st1)
                } else {
                    let credit = match recipient {
                        Some(r) => r@ != op_return_hash_spec(),
                        None => false,
                    };
                    let debited = TokenBalance {
                        balance: old_acct.balance,
                        transferable_balance: fixed_units(old_acct.transferable_balance@ - amt@),
                        transfers_count: (old_acct.transfers_count - 1) as u64,
                    };
                    let new_meta = TokenMeta {
                        genesis: meta.genesis,
                        proto: DeployProtoDB {
                            transactions: (meta.proto.transactions + 1) as u32,
                            ..meta.proto
                        },
                    };
                    let rkey = if credit {
                        (recipient.unwrap()@, key)
                    } else {
                        akey
                    };
                    let racct = if credit {
                        if rkey == akey {
                            debited
                        } else if st1.accounts.contains_key(rkey) {
                            st1.accounts[rkey]
                        } else {
                            zero_balance()
                        }
                    } else {
                        debited
                    };
                    let rtotal = racct.balance@ + racct.transferable_balance@;
                    if credit && (rtotal > u128::MAX as int || rtotal + amt@ > u128::MAX as int) {
                        skip_step(st1)
                    } else {
                        let h1 = holders_decrease_spec(st1.holders, key, sender@, prev_total, amt@);
                        let accounts1 = st1.accounts.insert(akey, debited);
                        let base = StateV {
                            accounts: accounts1,
                            tokens: st1.tokens.insert(key, new_meta),
                            holders: h1,
                            ..st1
                        };
                        let hist_rcpt = if credit {
                            recipient.unwrap()
                        } else {
                            sender
                        };
                        let final_st = if credit {
                            let credited = TokenBalance {
                                balance: fixed_units(racct.balance@ + amt@),
                                ..racct
                            };
                            StateV {
                                accounts: accounts1.insert(rkey, credited),
                                holders: holders_increase_spec(
                                    h1,
                                    key,
                                    recipient.unwrap()@,
                                    rtotal,
                                    amt@,
                                ),
                                ..base
                            }
                        } else {
                            base
                        };
                        (
                            final_st,
                            seq![
                                HistoryTokenAction::Send {
                                    tick: proto.tick,
                                    amt,
                                    recipient: hist_rcpt,
                                    sender,
                                    txid,
                                    vout,
                                },
                            ],
                            seq![
                                TokenHistoryEntry::RestoreTransferred(
                                    AddressLocation { address: sender, location: transfer_location },
                                    proto,
                                    if credit {
                                        Some(recipient.unwrap())
                                    } else {
                                        None
                                    },
                                ),
                            ],
                        )
                    }
                }
            }
        }
    }
}

/// Apply one action.
pub open spec fn step(st: StateV, a: TokenAction) -> StepOut {
    match a {
        TokenAction::Deploy { genesis, proto, owner } => step_deploy(st, genesis, proto, owner),
        TokenAction::Mint { owner, proto: MintProto::Bel20 { tick, amt }, txid, vout } => step_mint(
            st,
            owner,
            tick,
            amt,
            txid,
            vout,
        ),
        TokenAction::Transfer {
            location,
            owner,
            proto: TransferProto::Bel20 { tick, amt },
            txid,
            vout,
        } => step_transfer(st, location, owner, tick, amt, txid, vout),
        TokenAction::Transferred { transfer_location, recipient, txid, vout } => step_transferred(
            st,
            transfer_location,
            recipient,
            txid,
            vout,
        ),
    }
}

/// Apply a sequence of actions in order, concatenating what they emit.
pub open spec fn run(st: StateV, actions: Seq<TokenAction>) -> StepOut
    decreases actions.len(),
{
    if actions.len() == 0 {
        (st, Seq::empty(), Seq::empty())
    } else {
        let first = step(st, actions[0]);
        let rest = run(first.0, actions.skip(1));
        (rest.0, first.1 + rest.1, first.2 + rest.2)
    }
}

pub proof fn lemma_run_snoc(st: StateV, s: Seq<TokenAction>, a: TokenAction)
    ensures
        ({
            let whole = run(st, s.push(a));
            let front = run(st, s);
            let last = step(front.0, a);
            whole.0 == last.0 && whole.1 == front.1 + last.1 && whole.2 == front.2 + last.2
        }),
    decreases s.len(),
{
    reveal_with_fuel(run, 3);
    let whole = run(st, s.push(a));
    let front = run(st, s);
    if s.len() == 0 {
        assert(s.push(a)[0] == a);
        assert(s.push(a).skip(1) =~= Seq::<TokenAction>::empty());
        let last = step(st, a);
        assert(whole.1 =~= front.1 + last.1);
        assert(whole.2 =~= front.2 + last.2);
    } else {
        assert(s.push(a)[0] == s[0]);
        assert(s.push(a).skip(1) =~= s.skip(1).push(a));
        let first = step(st, s[0]);
        lemma_run_snoc(first.0, s.skip(1), a);
        let frest = run(first.0, s.skip(1));
        let last = step(front.0, a);
        assert(whole.1 =~= front.1 + last.1);
        assert(whole.2 =~= front.2 + last.2);
    }
}

impl TokenCache {
    /// An empty cache.
    pub fn new() -> (r: Self)
        ensures
            r.tokens@ == Map::<Seq<u8>, TokenMeta>::empty(),
            r.token_accounts@ == Map::<(Seq<u8>, Seq<u8>), TokenBalance>::empty(),
            r.all_transfers@ == Map::<(Seq<u8>, u32, u64), TransferProtoDB>::empty(),
            r.valid_transfers@ == Map::<(Seq<u8>, u32, u64), (FullHash, TransferProtoDB)>::empty(),
            r.token_actions@ == Seq::<TokenAction>::empty(),
    {
        let r = TokenCache {
            tokens: VecMap::new(),
            token_accounts: VecMap::new(),
            token_actions: Vec::new(),
            all_transfers: VecMap::new(),
            valid_transfers: VecMap::new(),
        };
        proof {
            assert(r.token_actions@ =~= Seq::<TokenAction>::empty());
        }
        r
    }

    /// Validate and apply every queued action in order. Returns the accepted
    /// actions as history; the holders index is kept in lock-step with every
    /// balance write, and each accepted action appends its inverse to the
    /// journal.
    pub fn process_token_actions(
        &mut self,
        holders: &mut Holders,
        journal: &mut Vec<TokenHistoryEntry>,
    ) -> (r: Vec<HistoryTokenAction>)
        ensures
            ({
                let out = run(
                    state_of(*old(self), *old(holders)),
                    old(self).token_actions@,
                );
                &&& state_of(*final(self), *final(holders)) == out.0
                &&& r@ == out.1
                &&& final(journal)@ == old(journal)@ + out.2
                &&& final(self).token_actions@.len() == 0
            }),
    {
        let mut actions: Vec<TokenAction> = Vec::new();
        core::mem::swap(&mut self.token_actions, &mut actions);
        let ghost st0 = state_of(*self, *holders);
        let ghost acts = actions@;
        let ghost j0 = journal@;
        let mut history: Vec<HistoryTokenAction> = Vec::new();
        let n = actions.len();
        let mut i: usize = 0;
        while i < n
            invariant
                0 <= i <= n,
                n == acts.len(),
                actions@ == acts,
                self.token_actions@.len() == 0,
                state_of(*self, *holders) == run(st0, acts.take(i as int)).0,
                history@ == run(st0, acts.take(i as int)).1,
                journal@ == j0 + run(st0, acts.take(i as int)).2,
            decreases n - i,
        {
            let ghost st_i = run(st0, acts.take(i as int)).0;
            proof {
                assert(acts.take(i + 1) =~= acts.take(i as int).push(acts[i as int]));
                lemma_run_snoc(st0, acts.take(i as int), acts[i as int]);
            }
            let action = actions[i];
            match action {
                TokenAction::Deploy { genesis, proto, owner } => {
                    let key = proto.tick.to_lowercase();
                    if !self.tokens.contains_key(&key) {
                        self.tokens.insert(key, TokenMeta { genesis, proto });
                        history.push(
                            HistoryTokenAction::Deploy {
                                tick: proto.tick,
                                max: proto.max,
                                lim: proto.lim,
                                dec: proto.dec,
                                recipient: owner,
                                txid: genesis.txid,
                                vout: genesis.index,
                            },
                        );
                        journal.push(TokenHistoryEntry::RemoveDeployed(proto.tick));
                    }
                },
                TokenAction::Mint { owner, proto: MintProto::Bel20 { tick, amt }, txid, vout } => {
                    self.apply_mint(holders, journal, &mut history, owner, tick, amt, txid, vout, Ghost(st_i));
                },
                TokenAction::Transfer {
                    location,
                    owner,
                    proto: TransferProto::Bel20 { tick, amt },
                    txid,
                    vout,
                } => {
                    self.apply_transfer(
                        holders,
                        journal,
                        &mut history,
                        location,
                        owner,
                        tick,
                        amt,
                        txid,
                        vout,
                        Ghost(st_i),
                    );
                },
                TokenAction::Transferred { transfer_location, recipient, txid, vout } => {
                    self.apply_transferred(
                        holders,
                        journal,
                        &mut history,
                        transfer_location,
                        recipient,
                        txid,
                        vout,
                        Ghost(st_i),
                    );
                },
            }
            proof {
                assert(state_of(*self, *holders) =~= run(st0, acts.take(i + 1)).0);
                assert(history@ =~= run(st0, acts.take(i + 1)).1);
                assert(journal@ =~= j0 + run(st0, acts.take(i + 1)).2);
            }
            i = i + 1;
        }
        proof {
            assert(acts.take(n as int) =~= acts);
        }
        history
    }

    /// One mint, exactly as `step_mint` describes it.
    #[verifier::rlimit(60)]
    fn apply_mint(
        &mut self,
        holders: &mut Holders,
        journal: &mut Vec<TokenHistoryEntry>,
        history: &mut Vec<HistoryTokenAction>,
        owner: FullHash,
        tick: TokenTick,
        amt: Fixed128,
        txid: TxidN,
        vout: u32,
        Ghost(st_i): Ghost<StateV>,
    )
        requires
            st_i == state_of(*old(self), *old(holders)),
        ensures
            ({
                let out = step_mint(st_i, owner, tick, amt, txid, vout);
                &&& state_of(*final(self), *final(holders)) == out.0
                &&& final(history)@ == old(history)@ + out.1
                &&& final(journal)@ == old(journal)@ + out.2
                &&& final(self).token_actions@ == old(self).token_actions@
            }),
    {
        let ghost out = step_mint(st_i, owner, tick, amt, txid, vout);
        let key = tick.to_lowercase();
        let meta = match self.tokens.get_copy(&key) {
            Some(m) => m,
            None => {
                proof {
                    assert(final(history)@ =~= old(history)@ + out.1);
                    assert(final(journal)@ =~= old(journal)@ + out.2);
                }
                return ;
            },
        };
        if amt.scale() > meta.proto.dec || meta.proto.lim.lt(&amt) || meta.proto.supply.units
            == meta.proto.max.units {
            proof {
                assert(final(history)@ =~= old(history)@ + out.1);
                assert(final(journal)@ =~= old(journal)@ + out.2);
            }
            return ;
        }
        let remaining = match meta.proto.max.checked_sub(meta.proto.supply) {
            Some(r) => r,
            None => {
                proof {
                    assert(final(history)@ =~= old(history)@ + out.1);
                    assert(final(journal)@ =~= old(journal)@ + out.2);
                }
                return ;
            },
        };
        let amt2 = amt.min(remaining);
        let akey = AddressToken { address: owner, token: key.key_clone() };
        let prev = match self.token_accounts.get_copy(&akey) {
            Some(b) => b,
            None => TokenBalance::new(),
        };
        if meta.proto.transactions == u32::MAX || meta.proto.mint_count == u64::MAX {
            proof {
                assert(final(history)@ =~= old(history)@ + out.1);
                assert(final(journal)@ =~= old(journal)@ + out.2);
            }
            return ;
        }
        let prev_total = match prev.balance.checked_add(prev.transferable_balance) {
            Some(t) => t,
            None => {
                proof {
                    assert(final(history)@ =~= old(history)@ + out.1);
                    assert(final(journal)@ =~= old(journal)@ + out.2);
                }
                return ;
            },
        };
        if prev_total.checked_add(amt2).is_none() {
            proof {
                assert(final(history)@ =~= old(history)@ + out.1);
                assert(final(journal)@ =~= old(journal)@ + out.2);
            }
            return ;
        }
        // all checks passed: the index moves before the balance write
        proof {
            assert(amt2@ <= remaining@);
            assert(meta.proto.supply@ + amt2@ <= meta.proto.max@);
            assert(prev.balance@ + amt2@ <= prev_total@ + amt2@);
        }
        holders.increase(&key, &owner, prev_total, amt2);
        let new_bal = TokenBalance {
            balance: prev.balance.add(amt2),
            transferable_balance: prev.transferable_balance,
            transfers_count: prev.transfers_count,
        };
        self.token_accounts.insert(akey, new_bal);
        let new_meta = TokenMeta {
            genesis: meta.genesis,
            proto: DeployProtoDB {
                supply: meta.proto.supply.add(amt2),
                transactions: meta.proto.transactions + 1,
                mint_count: meta.proto.mint_count + 1,
                ..meta.proto
            },
        };
        self.tokens.insert(key, new_meta);
        history.push(HistoryTokenAction::Mint { tick, amt: amt2, recipient: owner, txid, vout });
        journal.push(TokenHistoryEntry::RemoveMint(owner, tick, amt2));
        proof {
            assert(state_of(*self, *holders) =~= out.0);
            assert(final(history)@ =~= old(history)@ + out.1);
            assert(final(journal)@ =~= old(journal)@ + out.2);
        }
    }

    /// One transferable creation, exactly as `step_transfer` describes it.
    #[verifier::rlimit(60)]
    fn apply_transfer(
        &mut self,
        holders: &mut Holders,
        journal: &mut Vec<TokenHistoryEntry>,
        history: &mut Vec<HistoryTokenAction>,
        location: HistoryLocation,
        owner: FullHash,
        tick: TokenTick,
        amt: Fixed128,
        txid: TxidN,
        vout: u32,
        Ghost(st_i): Ghost<StateV>,
    )
        requires
            st_i == state_of(*old(self), *old(holders)),
        ensures
            ({
                let out = step_transfer(st_i, location, owner, tick, amt, txid, vout);
                &&& state_of(*final(self), *final(holders)) == out.0
                &&& final(history)@ == old(history)@ + out.1
                &&& final(journal)@ == old(journal)@ + out.2
                &&& final(self).token_actions@ == old(self).token_actions@
            }),
    {
        let ghost out = step_transfer(st_i, location, owner, tick, amt, txid, vout);
        let data = match self.all_transfers.remove(&location) {
            Some(d) => d,
            None => {
                proof {
                    assert(state_of(*self, *holders) =~= out.0);
                    assert(final(history)@ =~= old(history)@ + out.1);
                    assert(final(journal)@ =~= old(journal)@ + out.2);
                }
                return ;
            },
        };
        let ghost st1 = (StateV { all_transfers: st_i.all_transfers.remove(location@), ..st_i });
        proof {
            assert(state_of(*self, *holders) =~= st1);
        }
        let key = tick.to_lowercase();
        let meta = match self.tokens.get_copy(&key) {
            Some(m) => m,
            None => {
                proof {
                    assert(final(history)@ =~= old(history)@ + out.1);
                    assert(final(journal)@ =~= old(journal)@ + out.2);
                }
                return ;
            },
        };
        if amt.scale() > meta.proto.dec {
            proof {
                assert(final(history)@ =~= old(history)@ + out.1);
                assert(final(journal)@ =~= old(journal)@ + out.2);
            }
            return ;
        }
        let akey = AddressToken { address: owner, token: key.key_clone() };
        let acct = match self.token_accounts.get_copy(&akey) {
            Some(b) => b,
            None => {
                proof {
                    assert(final(history)@ =~= old(history)@ + out.1);
                    assert(final(journal)@ =~= old(journal)@ + out.2);
                }
                return ;
            },
        };
        if acct.balance.lt(&amt) || acct.transfers_count == u64::MAX || meta.proto.transfer_count
            == u64::MAX || meta.proto.transactions == u32::MAX {
            proof {
                assert(final(history)@ =~= old(history)@ + out.1);
                assert(final(journal)@ =~= old(journal)@ + out.2);
            }
            return ;
        }
        if acct.transferable_balance.checked_add(amt).is_none() {
            proof {
                assert(final(history)@ =~= old(history)@ + out.1);
                assert(final(journal)@ =~= old(journal)@ + out.2);
            }
            return ;
        }
        journal.push(TokenHistoryEntry::RemoveTransfer(location, owner, tick, amt));
        let new_acct = TokenBalance {
            balance: acct.balance.sub(amt),
            transferable_balance: acct.transferable_balance.add(amt),
            transfers_count: acct.transfers_count + 1,
        };
        self.token_accounts.insert(akey, new_acct);
        history.push(HistoryTokenAction::DeployTransfer { tick, amt, recipient: owner, txid, vout });
        self.valid_transfers.insert(location, (owner, data));
        let new_meta = TokenMeta {
            genesis: meta.genesis,
            proto: DeployProtoDB {
                transfer_count: meta.proto.transfer_count + 1,
                transactions: meta.proto.transactions + 1,
                ..meta.proto
            },
        };
        self.tokens.insert(key, new_meta);
        proof {
            assert(state_of(*self, *holders) =~= out.0);
            assert(final(history)@ =~= old(history)@ + out.1);
            assert(final(journal)@ =~= old(journal)@ + out.2);
        }
    }

    /// One transferable spend, exactly as `step_transferred` describes it.
    #[verifier::rlimit(100)]
    fn apply_transferred(
        &mut self,
        holders: &mut Holders,
        journal: &mut Vec<TokenHistoryEntry>,
        history: &mut Vec<HistoryTokenAction>,
        transfer_location: HistoryLocation,
        recipient: Option<FullHash>,
        txid: TxidN,
        vout: u32,
        Ghost(st_i): Ghost<StateV>,
    )
        requires
            st_i == state_of(*old(self), *old(holders)),
        ensures
            ({
                let out = step_transferred(st_i, transfer_location, recipient, txid, vout);
                &&& state_of(*final(self), *final(holders)) == out.0
                &&& final(history)@ == old(history)@ + out.1
                &&& final(journal)@ == old(journal)@ + out.2
                &&& final(self).token_actions@ == old(self).token_actions@
            }),
    {
        let ghost out = step_transferred(st_i, transfer_location, recipient, txid, vout);
        let (sender, proto) = match self.valid_transfers.remove(&transfer_location) {
            Some(v) => v,
            None => {
                proof {
                    assert(state_of(*self, *holders) =~= out.0);
                    assert(final(history)@ =~= old(history)@ + out.1);
                    assert(final(journal)@ =~= old(journal)@ + out.2);
                }
                return ;
            },
        };
        let ghost st1 = (StateV {
            valid_transfers: st_i.valid_transfers.remove(transfer_location@),
            ..st_i
        });
        proof {
            assert(state_of(*self, *holders) =~= st1);
        }
        let amt = proto.amt;
        let key = proto.tick.to_lowercase();
        let akey = AddressToken { address: sender, token: key.key_clone() };
        let old_acct = match self.token_accounts.get_copy(&akey) {
            Some(b) => b,
            None => {
                proof {
                    assert(final(history)@ =~= old(history)@ + out.1);
                    assert(final(journal)@ =~= old(journal)@ + out.2);
                }
                return ;
            },
        };
        if old_acct.transfers_count == 0 || old_acct.transferable_balance.lt(&amt) {
            proof {
                assert(final(history)@ =~= old(history)@ + out.1);
                assert(final(journal)@ =~= old(journal)@ + out.2);
            }
            return ;
        }
        let meta = match self.tokens.get_copy(&key) {
            Some(m) => m,
            None => {
                proof {
                    assert(final(history)@ =~= old(history)@ + out.1);
                    assert(final(journal)@ =~= old(journal)@ + out.2);
                }
                return ;
            },
        };
        if meta.proto.transactions == u32::MAX {
            proof {
                assert(final(history)@ =~= old(history)@ + out.1);
                assert(final(journal)@ =~= old(journal)@ + out.2);
            }
            return ;
        }
        let prev_total = match old_acct.balance.checked_add(old_acct.transferable_balance) {
            Some(t) => t,
            None => {
                proof {
                    assert(final(history)@ =~= old(history)@ + out.1);
                    assert(final(journal)@ =~= old(journal)@ + out.2);
                }
                return ;
            },
        };
        let credit = match &recipient {
            Some(r) => !r.is_op_return_hash(),
            None => false,
        };
        let debited = TokenBalance {
            balance: old_acct.balance,
            transferable_balance: old_acct.transferable_balance.sub(amt),
            transfers_count: old_acct.transfers_count - 1,
        };
        let racct = if credit {
            let r = match &recipient {
                Some(r) => *r,
                None => sender,
            };
            let rkey = AddressToken { address: r, token: key.key_clone() };
            if rkey.key_eq(&akey) {
                debited
            } else {
                match self.token_accounts.get_copy(&rkey) {
                    Some(b) => b,
                    None => TokenBalance::new(),
                }
            }
        } else {
            debited
        };
        if credit {
            let rtotal = match racct.balance.checked_add(racct.transferable_balance) {
                Some(t) => t,
                None => {
                    proof {
                        assert(final(history)@ =~= old(history)@ + out.1);
                        assert(final(journal)@ =~= old(journal)@ + out.2);
                    }
                    return ;
                },
            };
            if rtotal.checked_add(amt).is_none() {
                proof {
                    assert(final(history)@ =~= old(history)@ + out.1);
                    assert(final(journal)@ =~= old(journal)@ + out.2);
                }
                return ;
            }
        }
        // the sender side settles before any recipient credit
        holders.decrease(&key, &sender, prev_total, amt);
        self.token_accounts.insert(akey, debited);
        let new_meta = TokenMeta {
            genesis: meta.genesis,
            proto: DeployProtoDB { transactions: meta.proto.transactions + 1, ..meta.proto },
        };
        self.tokens.insert(key.key_clone(), new_meta);
        let hist_rcpt = if credit {
            match &recipient {
                Some(r) => *r,
                None => sender,
            }
        } else {
            sender
        };
        if credit {
            let r = hist_rcpt;
            let rkey = AddressToken { address: r, token: key.key_clone() };
            let rtotal = racct.balance.add(racct.transferable_balance);
            holders.increase(&key, &r, rtotal, amt);
            let credited = TokenBalance {
                balance: racct.balance.add(amt),
                transferable_balance: racct.transferable_balance,
                transfers_count: racct.transfers_count,
            };
            self.token_accounts.insert(rkey, credited);
        }
        history.push(
            HistoryTokenAction::Send {
                tick: proto.tick,
                amt,
                recipient: hist_rcpt,
                sender,
                txid,
                vout,
            },
        );
        journal.push(
            TokenHistoryEntry::RestoreTransferred(
                AddressLocation { address: sender, location: transfer_location },
                proto,
                if credit {
                    Some(hist_rcpt)
                } else {
                    None
                },
            ),
        );
        proof {
            assert(state_of(*self, *holders) =~= out.0);
            assert(final(history)@ =~= old(history)@ + out.1);
            assert(final(journal)@ =~= old(journal)@ + out.2);
        }
    }
}

} // verus!
