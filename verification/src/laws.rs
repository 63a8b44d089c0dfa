//! The global laws of the interpreter and pipeline: balance accounting,
//! supply bounds, and composability of block runs (which gives both restart
//! idempotence and proof-of-history prefix stability).

use vstd::prelude::*;
use crate::hashing::op_return_hash_spec;
use crate::history::HistoryTokenAction;
use crate::holders::HoldersV;
use crate::interpreter::{run, step, StateV, TokenAction};
use crate::pipeline::{apply_block_spec, block_fits, last_id_of, run_blocks, ResolvedTokenHistoryData};
use crate::reorg::reorg_push;
use crate::proto::{MintProto, TransferProto};
use crate::store::StoreV;
use crate::types::{lower_seq, AddressTokenId, FullHash};

verus! {

/// The combined balance of one account, zero when the row is absent.
pub open spec fn total_of(st: StateV, addr: Seq<u8>, tick: Seq<u8>) -> int {
    if st.accounts.contains_key((addr, tick)) {
        st.accounts[(addr, tick)].balance@ + st.accounts[(addr, tick)].transferable_balance@
    } else {
        0
    }
}

/// What one emitted action credits (+) or debits (-) an account.
pub open spec fn action_delta(h: HistoryTokenAction, addr: Seq<u8>, tick: Seq<u8>) -> int {
    match h {
        HistoryTokenAction::Deploy { .. } => 0,
        HistoryTokenAction::Mint { tick: t, amt, recipient, .. } => if recipient@ == addr
            && lower_seq(t@) == tick {
            amt@
        } else {
            0
        },
        HistoryTokenAction::DeployTransfer { .. } => 0,
        HistoryTokenAction::Send { tick: t, amt, recipient, sender, .. } => if lower_seq(t@)
            == tick {
            (if sender@ == addr {
                -amt@
            } else {
                0
            }) + (if recipient@ == addr {
                amt@
            } else {
                0
            })
        } else {
            0
        },
    }
}

/// The net credit of a history stream to one account.
pub open spec fn hist_delta(hist: Seq<HistoryTokenAction>, addr: Seq<u8>, tick: Seq<u8>) -> int
    decreases hist.len(),
{
    if hist.len() == 0 {
        0
    } else {
        hist_delta(hist.drop_last(), addr, tick) + action_delta(hist.last(), addr, tick)
    }
}

/// No action spends a transferable into the burn address or into a missing
/// output; burned amounts leave all balances, so accounting skips them.
pub open spec fn no_burns(actions: Seq<TokenAction>) -> bool {
    forall|i: int|
        0 <= i < actions.len() ==> match #[trigger] actions[i] {
            TokenAction::Transferred { recipient, .. } => match recipient {
                Some(r) => r@ != op_return_hash_spec(),
                None => false,
            },
            _ => true,
        }
}

proof fn lemma_hist_delta_concat(
    a: Seq<HistoryTokenAction>,
    b: Seq<HistoryTokenAction>,
    addr: Seq<u8>,
    tick: Seq<u8>,
)
    ensures
        hist_delta(a + b, addr, tick) == hist_delta(a, addr, tick) + hist_delta(b, addr, tick),
    decreases b.len(),
{
    if b.len() == 0 {
        assert(a + b =~= a);
    } else {
        assert((a + b).drop_last() =~= a + b.drop_last());
        lemma_hist_delta_concat(a, b.drop_last(), addr, tick);
    }
}

/// One step moves an account's total by exactly what its emitted history
/// says, as long as nothing is burned.
#[verifier::rlimit(100)]
proof fn lemma_step_balance(st: StateV, a: TokenAction, addr: Seq<u8>, tick: Seq<u8>)
    requires
        no_burns(seq![a]),
    ensures
        ({
            let out = step(st, a);
            total_of(out.0, addr, tick) == total_of(st, addr, tick) + hist_delta(
                out.1,
                addr,
                tick,
            )
        }),
{
    reveal_with_fuel(hist_delta, 3);
    let out = step(st, a);
    assert(seq![a][0] == a);
    if out.1.len() > 0 {
        assert(out.1 =~= seq![out.1[0]]);
        assert(out.1.drop_last() =~= Seq::<HistoryTokenAction>::empty());
    }
    match a {
        TokenAction::Deploy { genesis, proto, owner } => {
            assert(a == (TokenAction::Deploy { genesis, proto, owner }));
            assert(total_of(out.0, addr, tick) == total_of(st, addr, tick) + hist_delta(
                out.1,
                addr,
                tick,
            ));
        },
        TokenAction::Mint { owner, proto: MintProto::Bel20 { tick: t, amt }, txid, vout } => {
            assert(a == (TokenAction::Mint {
                owner,
                proto: MintProto::Bel20 { tick: t, amt },
                txid,
                vout,
            }));
            assert(total_of(out.0, addr, tick) == total_of(st, addr, tick) + hist_delta(
                out.1,
                addr,
                tick,
            ));
        },
        TokenAction::Transfer { location, owner, proto: TransferProto::Bel20 { tick: t, amt }, txid, vout } => {
            assert(a == (TokenAction::Transfer {
                location,
                owner,
                proto: TransferProto::Bel20 { tick: t, amt },
                txid,
                vout,
            }));
            assert(total_of(out.0, addr, tick) == total_of(st, addr, tick) + hist_delta(
                out.1,
                addr,
                tick,
            ));
        },
        TokenAction::Transferred { transfer_location, recipient, txid, vout } => {
            assert(a == (TokenAction::Transferred { transfer_location, recipient, txid, vout }));
            let lkey = transfer_location@;
            if st.valid_transfers.contains_key(lkey) {
                let (sender, proto) = st.valid_transfers[lkey];
                let key = lower_seq(proto.tick@);
                let akey = (sender@, key);
                let r = recipient.unwrap();
                assert(r@ != op_return_hash_spec());
                if out.1.len() > 0 {
                    let rkey = (r@, key);
                    if (addr, tick) == akey && (addr, tick) == rkey {
                        assert(total_of(out.0, addr, tick) == total_of(st, addr, tick)
                            + action_delta(out.1[0], addr, tick));
                    } else if (addr, tick) == akey {
                        assert(total_of(out.0, addr, tick) == total_of(st, addr, tick)
                            - proto.amt@);
                    } else if (addr, tick) == rkey {
                        assert(total_of(out.0, addr, tick) == total_of(st, addr, tick)
                            + proto.amt@);
                    } else {
                        assert(total_of(out.0, addr, tick) == total_of(st, addr, tick));
                    }
                }
            }
            assert(total_of(out.0, addr, tick) == total_of(st, addr, tick) + hist_delta(
                out.1,
                addr,
                tick,
            ));
        },
    }
}

/// Balance accounting: running any burn-free action stream moves every
/// account's combined balance by exactly the net amount its history credits
/// it. Burned spends leave the books (the sender is debited with no matching
/// credit), so streams that burn are accounted separately.
pub proof fn lemma_run_balance_accounting(
    st: StateV,
    actions: Seq<TokenAction>,
    addr: Seq<u8>,
    tick: Seq<u8>,
)
    requires
        no_burns(actions),
    ensures
        ({
            let out = run(st, actions);
            total_of(out.0, addr, tick) == total_of(st, addr, tick) + hist_delta(
                out.1,
                addr,
                tick,
            )
        }),
    decreases actions.len(),
{
    if actions.len() == 0 {
    } else {
        let first = step(st, actions[0]);
        assert(no_burns(seq![actions[0]])) by {
            assert(seq![actions[0]][0] == actions[0]);
        }
        lemma_step_balance(st, actions[0], addr, tick);
        assert(no_burns(actions.skip(1))) by {
            assert(forall|i: int|
                0 <= i < actions.skip(1).len() ==> #[trigger] actions.skip(1)[i] == actions[i
                    + 1]);
        }
        lemma_run_balance_accounting(first.0, actions.skip(1), addr, tick);
        let rest = run(first.0, actions.skip(1));
        lemma_hist_delta_concat(first.1, rest.1, addr, tick);
    }
}

/// Every deploy action carries a fresh record: no pre-mined supply and no
/// counted mints.
pub open spec fn deploys_start_empty(actions: Seq<TokenAction>) -> bool {
    forall|i: int|
        0 <= i < actions.len() ==> match #[trigger] actions[i] {
            TokenAction::Deploy { proto, .. } => proto.supply@ == 0 && proto.mint_count == 0,
            _ => true,
        }
}

/// Supply stays within its cap on every token.
pub open spec fn supply_ok(st: StateV) -> bool {
    forall|k: Seq<u8>|
        st.tokens.contains_key(k) ==> 0 <= (#[trigger] st.tokens[k]).proto.supply@
            <= st.tokens[k].proto.max@
}

#[verifier::rlimit(100)]
proof fn lemma_step_supply(st: StateV, a: TokenAction)
    requires
        supply_ok(st),
        deploys_start_empty(seq![a]),
    ensures
        supply_ok(step(st, a).0),
{
    assert(seq![a][0] == a);
    let out = step(st, a).0;
    match a {
        TokenAction::Deploy { genesis, proto, owner } => {
            assert(a == (TokenAction::Deploy { genesis, proto, owner }));
            assert forall|k: Seq<u8>| out.tokens.contains_key(k) implies 0 <= (
            #[trigger] out.tokens[k]).proto.supply@ <= out.tokens[k].proto.max@ by {
                if st.tokens.contains_key(k) && out.tokens[k] == st.tokens[k] {
                }
            }
        },
        TokenAction::Mint { owner, proto: MintProto::Bel20 { tick: t, amt }, txid, vout } => {
            assert(a == (TokenAction::Mint {
                owner,
                proto: MintProto::Bel20 { tick: t, amt },
                txid,
                vout,
            }));
            assert forall|k: Seq<u8>| out.tokens.contains_key(k) implies 0 <= (
            #[trigger] out.tokens[k]).proto.supply@ <= out.tokens[k].proto.max@ by {
                if st.tokens.contains_key(k) && out.tokens[k] == st.tokens[k] {
                }
            }
        },
        TokenAction::Transfer { location, owner, proto: TransferProto::Bel20 { tick: t, amt }, txid, vout } => {
            assert(a == (TokenAction::Transfer {
                location,
                owner,
                proto: TransferProto::Bel20 { tick: t, amt },
                txid,
                vout,
            }));
            assert forall|k: Seq<u8>| out.tokens.contains_key(k) implies 0 <= (
            #[trigger] out.tokens[k]).proto.supply@ <= out.tokens[k].proto.max@ by {
                if st.tokens.contains_key(k) && out.tokens[k] == st.tokens[k] {
                }
            }
        },
        TokenAction::Transferred { transfer_location, recipient, txid, vout } => {
            assert(a == (TokenAction::Transferred { transfer_location, recipient, txid, vout }));
            assert forall|k: Seq<u8>| out.tokens.contains_key(k) implies 0 <= (
            #[trigger] out.tokens[k]).proto.supply@ <= out.tokens[k].proto.max@ by {
                if st.tokens.contains_key(k) && out.tokens[k] == st.tokens[k] {
                }
            }
        },
    }
}

/// Supply bounds: running any action stream whose deploys start at zero
/// supply keeps every token's supply between zero and its cap.
pub proof fn lemma_run_supply_bounds(st: StateV, actions: Seq<TokenAction>)
    requires
        supply_ok(st),
        deploys_start_empty(actions),
    ensures
        supply_ok(run(st, actions).0),
    decreases actions.len(),
{
    if actions.len() > 0 {
        assert(deploys_start_empty(seq![actions[0]])) by {
            assert(seq![actions[0]][0] == actions[0]);
        }
        lemma_step_supply(st, actions[0]);
        assert(deploys_start_empty(actions.skip(1))) by {
            assert(forall|i: int|
                0 <= i < actions.skip(1).len() ==> #[trigger] actions.skip(1)[i] == actions[i
                    + 1]);
        }
        lemma_run_supply_bounds(step(st, actions[0]).0, actions.skip(1));
    }
}

/// Every mint asks for the full per-mint limit of its (deployed) token.
pub open spec fn mints_at_limit(st: StateV, actions: Seq<TokenAction>) -> bool
    decreases actions.len(),
{
    if actions.len() == 0 {
        true
    } else {
        (match actions[0] {
            TokenAction::Mint { proto: MintProto::Bel20 { tick, amt }, .. } => {
                st.tokens.contains_key(lower_seq(tick@)) ==> amt@ >= st.tokens[lower_seq(
                    tick@,
                )].proto.lim@
            },
            _ => true,
        }) && mints_at_limit(step(st, actions[0]).0, actions.skip(1))
    }
}

/// The mint counter never runs past the cap: `lim * mint_count` stays within
/// one limit of the cap, and the supply witnesses the mints so far.
pub open spec fn mint_count_ok(st: StateV) -> bool {
    forall|k: Seq<u8>|
        st.tokens.contains_key(k) ==> {
            let p = (#[trigger] st.tokens[k]).proto;
            &&& p.supply@ >= vstd::math::min(p.lim@ * p.mint_count, p.max@)
            &&& p.lim@ * p.mint_count <= p.max@ + p.lim@
        }
}

#[verifier::rlimit(100)]
proof fn lemma_step_mint_count(st: StateV, a: TokenAction)
    requires
        supply_ok(st),
        mint_count_ok(st),
        deploys_start_empty(seq![a]),
        (match a {
            TokenAction::Mint { proto: MintProto::Bel20 { tick, amt }, .. } => {
                st.tokens.contains_key(lower_seq(tick@)) ==> amt@ >= st.tokens[lower_seq(
                    tick@,
                )].proto.lim@
            },
            _ => true,
        }),
    ensures
        mint_count_ok(step(st, a).0),
{
    assert(seq![a][0] == a);
    match a {
        TokenAction::Mint { owner, proto: MintProto::Bel20 { tick, amt }, txid, vout } => {
            assert(a == (TokenAction::Mint {
                owner,
                proto: MintProto::Bel20 { tick, amt },
                txid,
                vout,
            }));
            let key = lower_seq(tick@);
            if st.tokens.contains_key(key) {
                let p = st.tokens[key].proto;
                let out = step(st, a).0;
                if out.tokens != st.tokens {
                    // the mint was accepted: amt == lim, supply < max
                    assert(amt@ <= p.lim@ && amt@ >= p.lim@);
                    assert(p.supply@ < p.max@);
                    assert(p.supply@ >= vstd::math::min(p.lim@ * p.mint_count, p.max@));
                    assert(p.lim@ * p.mint_count <= p.supply@) by (nonlinear_arith)
                        requires
                            p.supply@ >= vstd::math::min(p.lim@ * p.mint_count, p.max@),
                            p.supply@ < p.max@,
                    ;
                    let mc1 = p.mint_count + 1;
                    let rem = p.max@ - p.supply@;
                    let amt2 = if amt@ <= rem {
                        amt@
                    } else {
                        rem
                    };
                    assert(p.lim@ * mc1 == p.lim@ * p.mint_count + p.lim@) by (nonlinear_arith)
                        requires
                            mc1 == p.mint_count + 1,
                    ;
                    assert(p.supply@ + amt2 >= vstd::math::min(p.lim@ * mc1, p.max@));
                    assert(p.lim@ * mc1 <= p.max@ + p.lim@);
                    let q = out.tokens[key].proto;
                    assert(q.supply@ == p.supply@ + amt2);
                    assert(q.mint_count == mc1 && q.lim == p.lim && q.max == p.max);
                    assert forall|k: Seq<u8>| out.tokens.contains_key(k) implies {
                        let q2 = (#[trigger] out.tokens[k]).proto;
                        &&& q2.supply@ >= vstd::math::min(q2.lim@ * q2.mint_count, q2.max@)
                        &&& q2.lim@ * q2.mint_count <= q2.max@ + q2.lim@
                    } by {
                        if k != key {
                            assert(out.tokens[k] == st.tokens[k]);
                        }
                    }
                }
            }
        },
        TokenAction::Deploy { genesis, proto, owner } => {
            assert(a == (TokenAction::Deploy { genesis, proto, owner }));
            let out = step(st, a).0;
            assert forall|k: Seq<u8>| out.tokens.contains_key(k) implies {
                let q2 = (#[trigger] out.tokens[k]).proto;
                &&& q2.supply@ >= vstd::math::min(q2.lim@ * q2.mint_count, q2.max@)
                &&& q2.lim@ * q2.mint_count <= q2.max@ + q2.lim@
            } by {
                if st.tokens.contains_key(k) && out.tokens[k] == st.tokens[k] {
                } else {
                    let q2 = out.tokens[k].proto;
                    assert(q2.mint_count == 0 && q2.supply@ == 0);
                    assert(q2.lim@ * 0 == 0) by (nonlinear_arith);
                }
            }
        },
        TokenAction::Transfer { location, owner, proto: TransferProto::Bel20 { tick, amt }, txid, vout } => {
            assert(a == (TokenAction::Transfer {
                location,
                owner,
                proto: TransferProto::Bel20 { tick, amt },
                txid,
                vout,
            }));
            let out = step(st, a).0;
            assert forall|k: Seq<u8>| out.tokens.contains_key(k) implies {
                let q2 = (#[trigger] out.tokens[k]).proto;
                &&& q2.supply@ >= vstd::math::min(q2.lim@ * q2.mint_count, q2.max@)
                &&& q2.lim@ * q2.mint_count <= q2.max@ + q2.lim@
            } by {
                if st.tokens.contains_key(k) && out.tokens[k] == st.tokens[k] {
                } else {
                    let q2 = out.tokens[k].proto;
                    let p2 = st.tokens[k].proto;
                    assert(q2.mint_count == p2.mint_count && q2.supply == p2.supply && q2.lim
                        == p2.lim && q2.max == p2.max);
                }
            }
        },
        TokenAction::Transferred { transfer_location, recipient, txid, vout } => {
            assert(a == (TokenAction::Transferred { transfer_location, recipient, txid, vout }));
            let out = step(st, a).0;
            assert forall|k: Seq<u8>| out.tokens.contains_key(k) implies {
                let q2 = (#[trigger] out.tokens[k]).proto;
                &&& q2.supply@ >= vstd::math::min(q2.lim@ * q2.mint_count, q2.max@)
                &&& q2.lim@ * q2.mint_count <= q2.max@ + q2.lim@
            } by {
                if st.tokens.contains_key(k) && out.tokens[k] == st.tokens[k] {
                } else {
                    let q2 = out.tokens[k].proto;
                    let p2 = st.tokens[k].proto;
                    assert(q2.mint_count == p2.mint_count && q2.supply == p2.supply && q2.lim
                        == p2.lim && q2.max == p2.max);
                }
            }
        },
    }
}

/// Mint counting: when every mint asks for the full per-mint limit, the
/// counter satisfies `lim * mint_count <= max + lim` on every token, which is
/// `mint_count <= max / lim + 1` whenever `lim > 0`. A stream that mints
/// below the limit escapes this bound.
pub proof fn lemma_run_mint_count(st: StateV, actions: Seq<TokenAction>)
    requires
        supply_ok(st),
        mint_count_ok(st),
        deploys_start_empty(actions),
        mints_at_limit(st, actions),
    ensures
        mint_count_ok(run(st, actions).0),
    decreases actions.len(),
{
    if actions.len() > 0 {
        assert(deploys_start_empty(seq![actions[0]])) by {
            assert(seq![actions[0]][0] == actions[0]);
        }
        lemma_step_mint_count(st, actions[0]);
        lemma_step_supply(st, actions[0]);
        assert(deploys_start_empty(actions.skip(1))) by {
            assert(forall|i: int|
                0 <= i < actions.skip(1).len() ==> #[trigger] actions.skip(1)[i] == actions[i
                    + 1]);
        }
        lemma_run_mint_count(step(st, actions[0]).0, actions.skip(1));
    }
}

/// The adding step used to sum active-transfer amounts.
pub open spec fn pair_sum_fn() -> spec_fn(int, ((Seq<u8>, u32, u64), int)) -> int {
    |acc: int, p: ((Seq<u8>, u32, u64), int)| acc + p.1
}

/// The active transfers owned by one account, as (location, amount) pairs.
pub open spec fn active_transfers_of(
    vt: Map<(Seq<u8>, u32, u64), (FullHash, crate::proto::TransferProtoDB)>,
    addr: Seq<u8>,
    tick: Seq<u8>,
) -> Set<((Seq<u8>, u32, u64), int)> {
    Set::new(
        |p: ((Seq<u8>, u32, u64), int)|
            vt.contains_key(p.0) && vt[p.0].0@ == addr && lower_seq(vt[p.0].1.tick@) == tick && p.1
                == vt[p.0].1.amt@,
    )
}

/// The sum of the active transfer amounts owned by one account.
pub open spec fn transferable_sum(
    vt: Map<(Seq<u8>, u32, u64), (FullHash, crate::proto::TransferProtoDB)>,
    addr: Seq<u8>,
    tick: Seq<u8>,
) -> int {
    active_transfers_of(vt, addr, tick).fold(0, pair_sum_fn())
}

/// Transferable conservation: every account's transferable balance is the
/// sum of the active transfers it owns, and its transfer counter is their
/// number.
pub open spec fn conserving(st: StateV) -> bool {
    &&& st.valid_transfers.dom().finite()
    &&& forall|addr: Seq<u8>, tick: Seq<u8>|
        {
            let s = #[trigger] active_transfers_of(st.valid_transfers, addr, tick);
            if st.accounts.contains_key((addr, tick)) {
                st.accounts[(addr, tick)].transferable_balance@ == s.fold(0, pair_sum_fn())
                    && st.accounts[(addr, tick)].transfers_count as int == s.len()
            } else {
                s.fold(0, pair_sum_fn()) == 0 && s.len() == 0
            }
        }
    &&& forall|k: (Seq<u8>, u32, u64)|
        #[trigger] st.valid_transfers.contains_key(k) ==> st.tokens.contains_key(
            lower_seq(st.valid_transfers[k].1.tick@),
        )
}

proof fn lemma_active_finite(
    vt: Map<(Seq<u8>, u32, u64), (FullHash, crate::proto::TransferProtoDB)>,
    addr: Seq<u8>,
    tick: Seq<u8>,
)
    requires
        vt.dom().finite(),
    ensures
        active_transfers_of(vt, addr, tick).finite(),
{
    broadcast use vstd::set_lib::lemma_set_subset_finite;

    let f = |k: (Seq<u8>, u32, u64)| (k, vt[k].1.amt@);
    vt.dom().lemma_map_finite(f);
    let s = active_transfers_of(vt, addr, tick);
    assert forall|p: ((Seq<u8>, u32, u64), int)| #[trigger] s.contains(p) implies vt.dom().map(
        f,
    ).contains(p) by {
        assert(vt.dom().contains(p.0) && f(p.0) == p);
    }
    assert(s.subset_of(vt.dom().map(f)));
}

/// A sum of nonnegative amounts is nonnegative and at least any one member.
proof fn lemma_fold_nonneg(s: Set<((Seq<u8>, u32, u64), int)>)
    requires
        s.finite(),
        forall|p: ((Seq<u8>, u32, u64), int)| #[trigger] s.contains(p) ==> p.1 >= 0,
    ensures
        s.fold(0, pair_sum_fn()) >= 0,
        forall|p: ((Seq<u8>, u32, u64), int)| #[trigger] s.contains(p) ==> s.fold(
            0,
            pair_sum_fn(),
        ) >= p.1,
    decreases s.len(),
{
    broadcast use vstd::set::group_set_axioms;

    assert(vstd::set::fold::is_fun_commutative(pair_sum_fn()));
    if s.len() == 0 {
        vstd::set_lib::lemma_set_empty_equivalency_len(s);
        vstd::set::fold::lemma_fold_empty(0int, pair_sum_fn());
        assert forall|p: ((Seq<u8>, u32, u64), int)| #[trigger] s.contains(p) implies s.fold(
            0,
            pair_sum_fn(),
        ) >= p.1 by {}
    } else {
        let x = s.choose();
        assert(s.contains(x));
        let r = s.remove(x);
        lemma_fold_nonneg(r);
        vstd::set::fold::lemma_fold_insert(r, 0int, pair_sum_fn(), x);
        assert(r.insert(x) =~= s);
        assert(s.fold(0, pair_sum_fn()) == r.fold(0, pair_sum_fn()) + x.1);
        assert forall|p: ((Seq<u8>, u32, u64), int)| #[trigger] s.contains(p) implies s.fold(
            0,
            pair_sum_fn(),
        ) >= p.1 by {
            if p != x {
                assert(r.contains(p));
            }
        }
    }
}

/// Removing one member takes exactly its amount out of the sum.
proof fn lemma_fold_remove(s: Set<((Seq<u8>, u32, u64), int)>, p: ((Seq<u8>, u32, u64), int))
    requires
        s.finite(),
        s.contains(p),
    ensures
        s.fold(0, pair_sum_fn()) == s.remove(p).fold(0, pair_sum_fn()) + p.1,
{
    broadcast use vstd::set::group_set_axioms;

    assert(vstd::set::fold::is_fun_commutative(pair_sum_fn()));
    let r = s.remove(p);
    vstd::set::fold::lemma_fold_insert(r, 0int, pair_sum_fn(), p);
    assert(r.insert(p) =~= s);
}

proof fn lemma_active_insert(
    vt: Map<(Seq<u8>, u32, u64), (FullHash, crate::proto::TransferProtoDB)>,
    lkey: (Seq<u8>, u32, u64),
    owner: FullHash,
    data: crate::proto::TransferProtoDB,
    addr: Seq<u8>,
    tick: Seq<u8>,
)
    requires
        !vt.contains_key(lkey),
    ensures
        owner@ == addr && lower_seq(data.tick@) == tick ==> active_transfers_of(
            vt.insert(lkey, (owner, data)),
            addr,
            tick,
        ) == active_transfers_of(vt, addr, tick).insert((lkey, data.amt@))
            && !active_transfers_of(vt, addr, tick).contains((lkey, data.amt@)),
        !(owner@ == addr && lower_seq(data.tick@) == tick) ==> active_transfers_of(
            vt.insert(lkey, (owner, data)),
            addr,
            tick,
        ) == active_transfers_of(vt, addr, tick),
{
    let s0 = active_transfers_of(vt, addr, tick);
    let s1 = active_transfers_of(vt.insert(lkey, (owner, data)), addr, tick);
    if owner@ == addr && lower_seq(data.tick@) == tick {
        assert(s1 =~= s0.insert((lkey, data.amt@)));
    } else {
        assert(s1 =~= s0);
    }
}

proof fn lemma_active_remove(
    vt: Map<(Seq<u8>, u32, u64), (FullHash, crate::proto::TransferProtoDB)>,
    lkey: (Seq<u8>, u32, u64),
    addr: Seq<u8>,
    tick: Seq<u8>,
)
    requires
        vt.contains_key(lkey),
    ensures
        vt[lkey].0@ == addr && lower_seq(vt[lkey].1.tick@) == tick ==> active_transfers_of(
            vt.remove(lkey),
            addr,
            tick,
        ) == active_transfers_of(vt, addr, tick).remove((lkey, vt[lkey].1.amt@))
            && active_transfers_of(vt, addr, tick).contains((lkey, vt[lkey].1.amt@)),
        !(vt[lkey].0@ == addr && lower_seq(vt[lkey].1.tick@) == tick) ==> active_transfers_of(
            vt.remove(lkey),
            addr,
            tick,
        ) == active_transfers_of(vt, addr, tick),
{
    let s0 = active_transfers_of(vt, addr, tick);
    let s1 = active_transfers_of(vt.remove(lkey), addr, tick);
    if vt[lkey].0@ == addr && lower_seq(vt[lkey].1.tick@) == tick {
        assert(s1 =~= s0.remove((lkey, vt[lkey].1.amt@)));
    } else {
        assert(s1 =~= s0);
    }
}

/// Per-action side conditions for conservation: a created transferable sits
/// at a location with no live transferable, its seeded record matches the
/// action, and a spend does not run the counters into the machine ceilings.
pub open spec fn transfer_action_ok(st: StateV, a: TokenAction) -> bool {
    match a {
        TokenAction::Transfer { location, proto: TransferProto::Bel20 { tick, amt }, .. } => {
            &&& !st.valid_transfers.contains_key(location@)
            &&& (st.all_transfers.contains_key(location@) ==> st.all_transfers[location@].tick
                == tick && st.all_transfers[location@].amt == amt)
        },
        TokenAction::Transferred { transfer_location, recipient, .. } => {
            st.valid_transfers.contains_key(transfer_location@) ==> {
                let sender = st.valid_transfers[transfer_location@].0;
                let proto = st.valid_transfers[transfer_location@].1;
                let key = lower_seq(proto.tick@);
                let skey = (sender@, key);
                &&& (st.tokens.contains_key(key) ==> st.tokens[key].proto.transactions
                    != u32::MAX)
                &&& (st.accounts.contains_key(skey) ==> st.accounts[skey].balance@
                    + st.accounts[skey].transferable_balance@ <= u128::MAX as int)
                &&& (match recipient {
                    Some(r) => {
                        let rkey = (r@, key);
                        r@ != op_return_hash_spec() && rkey != skey
                            && st.accounts.contains_key(rkey) ==> {
                            st.accounts[rkey].balance@ + st.accounts[rkey].transferable_balance@
                                + proto.amt@ <= u128::MAX as int
                        }
                    },
                    None => true,
                })
            }
        },
        _ => true,
    }
}

/// The side conditions hold at every point of a run.
pub open spec fn transfers_ok(st: StateV, actions: Seq<TokenAction>) -> bool
    decreases actions.len(),
{
    if actions.len() == 0 {
        true
    } else {
        transfer_action_ok(st, actions[0]) && transfers_ok(
            step(st, actions[0]).0,
            actions.skip(1),
        )
    }
}

/// One step preserves transferable conservation.
#[verifier::rlimit(100)]
proof fn lemma_step_conserving(st: StateV, a: TokenAction)
    requires
        conserving(st),
        transfer_action_ok(st, a),
    ensures
        conserving(step(st, a).0),
{
    broadcast use vstd::set::group_set_axioms;

    let out = step(st, a).0;
    match a {
        TokenAction::Deploy { genesis, proto, owner } => {
            assert(a == (TokenAction::Deploy { genesis, proto, owner }));
            assert(out.valid_transfers == st.valid_transfers);
            assert(out.accounts == st.accounts);
            assert(conserving(out));
        },
        TokenAction::Mint { owner, proto: MintProto::Bel20 { tick: t, amt }, txid, vout } => {
            assert(a == (TokenAction::Mint {
                owner,
                proto: MintProto::Bel20 { tick: t, amt },
                txid,
                vout,
            }));
            assert(out.valid_transfers == st.valid_transfers);
            if out.accounts != st.accounts {
                let key = lower_seq(t@);
                let akey = (owner@, key);
                assert forall|addr: Seq<u8>, tick: Seq<u8>|
                    {
                        let s = #[trigger] active_transfers_of(out.valid_transfers, addr, tick);
                        if out.accounts.contains_key((addr, tick)) {
                            out.accounts[(addr, tick)].transferable_balance@ == s.fold(
                                0,
                                pair_sum_fn(),
                            ) && out.accounts[(addr, tick)].transfers_count as int == s.len()
                        } else {
                            s.fold(0, pair_sum_fn()) == 0 && s.len() == 0
                        }
                    } by {
                    assert(active_transfers_of(st.valid_transfers, addr, tick)
                        == active_transfers_of(out.valid_transfers, addr, tick));
                }
            }
            assert(conserving(out));
        },
        TokenAction::Transfer {
            location,
            owner,
            proto: TransferProto::Bel20 { tick: t, amt },
            txid,
            vout,
        } => {
            assert(a == (TokenAction::Transfer {
                location,
                owner,
                proto: TransferProto::Bel20 { tick: t, amt },
                txid,
                vout,
            }));
            if out.valid_transfers == st.valid_transfers {
                assert(out.accounts == st.accounts);
                assert forall|addr: Seq<u8>, tick: Seq<u8>|
                    {
                        let s = #[trigger] active_transfers_of(out.valid_transfers, addr, tick);
                        if out.accounts.contains_key((addr, tick)) {
                            out.accounts[(addr, tick)].transferable_balance@ == s.fold(
                                0,
                                pair_sum_fn(),
                            ) && out.accounts[(addr, tick)].transfers_count as int == s.len()
                        } else {
                            s.fold(0, pair_sum_fn()) == 0 && s.len() == 0
                        }
                    } by {
                    assert(active_transfers_of(st.valid_transfers, addr, tick)
                        == active_transfers_of(out.valid_transfers, addr, tick));
                }
                assert(conserving(out));
            } else {
                // the transferable was created
                let lkey = location@;
                let data = st.all_transfers[lkey];
                let key = lower_seq(t@);
                let akey = (owner@, key);
                assert(data.tick == t && data.amt == amt);
                assert(out.valid_transfers == st.valid_transfers.insert(lkey, (owner, data)));
                assert forall|addr: Seq<u8>, tick: Seq<u8>|
                    {
                        let s = #[trigger] active_transfers_of(out.valid_transfers, addr, tick);
                        if out.accounts.contains_key((addr, tick)) {
                            out.accounts[(addr, tick)].transferable_balance@ == s.fold(
                                0,
                                pair_sum_fn(),
                            ) && out.accounts[(addr, tick)].transfers_count as int == s.len()
                        } else {
                            s.fold(0, pair_sum_fn()) == 0 && s.len() == 0
                        }
                    } by {
                    let s0 = active_transfers_of(st.valid_transfers, addr, tick);
                    lemma_active_finite(st.valid_transfers, addr, tick);
                    lemma_active_insert(st.valid_transfers, lkey, owner, data, addr, tick);
                    if addr == owner@ && tick == key {
                        vstd::set::fold::lemma_fold_insert(
                            s0,
                            0int,
                            pair_sum_fn(),
                            (lkey, data.amt@),
                        );
                    }
                }
                assert(out.valid_transfers.dom().finite());
                assert(conserving(out));
            }
        },
        TokenAction::Transferred { transfer_location, recipient, txid, vout } => {
            assert(a == (TokenAction::Transferred { transfer_location, recipient, txid, vout }));
            let lkey = transfer_location@;
            if !st.valid_transfers.contains_key(lkey) {
                assert(conserving(out));
            } else {
                let sender = st.valid_transfers[lkey].0;
                let proto = st.valid_transfers[lkey].1;
                let amt = proto.amt;
                let key = lower_seq(proto.tick@);
                let skey = (sender@, key);
                let pair = (lkey, amt@);
                let s_sender = active_transfers_of(st.valid_transfers, sender@, key);
                lemma_active_finite(st.valid_transfers, sender@, key);
                assert(s_sender.contains(pair));
                assert(s_sender.remove(pair).len() == s_sender.len() - 1);
                // conservation rules out the degenerate skips
                assert(st.accounts.contains_key(skey));
                let acct = st.accounts[skey];
                assert(acct.transfers_count as int == s_sender.len());
                assert(acct.transfers_count != 0);
                assert forall|p: ((Seq<u8>, u32, u64), int)| #[trigger] s_sender.contains(
                    p,
                ) implies p.1 >= 0 by {}
                lemma_fold_nonneg(s_sender);
                assert(acct.transferable_balance@ >= amt@);
                assert(st.tokens.contains_key(key));
                assert(st.tokens[key].proto.transactions != u32::MAX);
                assert(acct.balance@ + acct.transferable_balance@ <= u128::MAX as int);
                // so the spend really happened
                lemma_fold_remove(s_sender, pair);
                assert(out.valid_transfers == st.valid_transfers.remove(lkey));
                assert forall|addr: Seq<u8>, tick: Seq<u8>|
                    {
                        let s = #[trigger] active_transfers_of(out.valid_transfers, addr, tick);
                        if out.accounts.contains_key((addr, tick)) {
                            out.accounts[(addr, tick)].transferable_balance@ == s.fold(
                                0,
                                pair_sum_fn(),
                            ) && out.accounts[(addr, tick)].transfers_count as int == s.len()
                        } else {
                            s.fold(0, pair_sum_fn()) == 0 && s.len() == 0
                        }
                    } by {
                    let s0 = active_transfers_of(st.valid_transfers, addr, tick);
                    lemma_active_finite(st.valid_transfers, addr, tick);
                    lemma_active_remove(st.valid_transfers, lkey, addr, tick);
                }
                assert(conserving(out));
            }
        },
    }
}

/// Transferable conservation: whenever every account's transferable balance
/// is the sum of the active transfers it owns and its counter is their
/// number, this still holds after running any action stream whose created
/// transferables are fresh and consistent and whose spends stay below the
/// machine ceilings.
pub proof fn lemma_run_conserving(st: StateV, actions: Seq<TokenAction>)
    requires
        conserving(st),
        transfers_ok(st, actions),
    ensures
        conserving(run(st, actions).0),
    decreases actions.len(),
{
    if actions.len() > 0 {
        lemma_step_conserving(st, actions[0]);
        lemma_run_conserving(step(st, actions[0]).0, actions.skip(1));
    }
}

/// The holders of one ticker rebuilt from the balance rows alone: every
/// account with a nonzero combined balance, keyed by (total, address).
pub open spec fn rebuilt_bucket(
    accounts: Map<(Seq<u8>, Seq<u8>), crate::proto::TokenBalance>,
    tick: Seq<u8>,
) -> Map<(int, Seq<u8>), ()> {
    Map::new(
        |p: (int, Seq<u8>)|
            accounts.contains_key((p.1, tick)) && accounts[(p.1, tick)].balance@ + accounts[(
                p.1,
                tick,
            )].transferable_balance@ == p.0 && p.0 != 0,
        |p: (int, Seq<u8>)| (),
    )
}

/// Holders consistency: for every ticker, the in-memory index holds exactly
/// what a fresh rebuild from the balance rows would hold.
pub open spec fn holders_match(st: StateV) -> bool {
    forall|tick: Seq<u8>|
        #[trigger] crate::holders::bucket_of(st.holders, tick) == rebuilt_bucket(
            st.accounts,
            tick,
        )
}

/// Every mint and transfer asks for a positive amount, as payload
/// validation guarantees.
pub open spec fn pos_amounts(actions: Seq<TokenAction>) -> bool {
    forall|i: int|
        0 <= i < actions.len() ==> match #[trigger] actions[i] {
            TokenAction::Mint { proto: MintProto::Bel20 { amt, .. }, .. } => amt@ > 0,
            TokenAction::Transfer { proto: TransferProto::Bel20 { amt, .. }, .. } => amt@ > 0,
            _ => true,
        }
}

/// Every live transferable carries a positive amount.
pub open spec fn pos_transfers(st: StateV) -> bool {
    forall|k: (Seq<u8>, u32, u64)|
        #[trigger] st.valid_transfers.contains_key(k) ==> st.valid_transfers[k].1.amt@ > 0
}

/// One step keeps the holders index equal to its rebuild.
#[verifier::rlimit(100)]
proof fn lemma_step_holders(st: StateV, a: TokenAction)
    requires
        holders_match(st),
        pos_transfers(st),
        pos_amounts(seq![a]),
        transfer_action_ok(st, a),
    ensures
        holders_match(step(st, a).0),
        pos_transfers(step(st, a).0),
{
    assert(seq![a][0] == a);
    let out = step(st, a).0;
    match a {
        TokenAction::Deploy { genesis, proto, owner } => {
            assert(a == (TokenAction::Deploy { genesis, proto, owner }));
            assert forall|tick: Seq<u8>| #[trigger] crate::holders::bucket_of(out.holders, tick)
                == rebuilt_bucket(out.accounts, tick) by {
                assert(crate::holders::bucket_of(out.holders, tick)
                    == crate::holders::bucket_of(st.holders, tick));
                assert(rebuilt_bucket(out.accounts, tick) == rebuilt_bucket(st.accounts, tick));
            }
        },
        TokenAction::Mint { owner, proto: MintProto::Bel20 { tick: t, amt }, txid, vout } => {
            assert(a == (TokenAction::Mint {
                owner,
                proto: MintProto::Bel20 { tick: t, amt },
                txid,
                vout,
            }));
            let key = lower_seq(t@);
            let akey = (owner@, key);
            if out.accounts == st.accounts {
                assert forall|tick: Seq<u8>| #[trigger] crate::holders::bucket_of(
                    out.holders,
                    tick,
                ) == rebuilt_bucket(out.accounts, tick) by {
                    assert(crate::holders::bucket_of(out.holders, tick)
                        == crate::holders::bucket_of(st.holders, tick));
                    assert(rebuilt_bucket(out.accounts, tick) == rebuilt_bucket(
                        st.accounts,
                        tick,
                    ));
                }
            } else {
                // the mint was accepted: a positive amount lands on the owner
                let meta = st.tokens[key];
                let rem = meta.proto.max@ - meta.proto.supply@;
                let amt2v = if amt@ <= rem {
                    amt@
                } else {
                    rem
                };
                assert(amt2v > 0);
                let prev = crate::interpreter::account_or_zero(st, akey);
                let prev_total = prev.balance@ + prev.transferable_balance@;
                assert forall|tick: Seq<u8>| #[trigger] crate::holders::bucket_of(
                    out.holders,
                    tick,
                ) == rebuilt_bucket(out.accounts, tick) by {
                    if tick == key {
                        assert(crate::holders::bucket_of(out.holders, key) =~= rebuilt_bucket(
                            out.accounts,
                            key,
                        ));
                    } else {
                        assert(crate::holders::bucket_of(out.holders, tick)
                            == crate::holders::bucket_of(st.holders, tick));
                        assert(rebuilt_bucket(out.accounts, tick) =~= rebuilt_bucket(
                            st.accounts,
                            tick,
                        ));
                    }
                }
            }
        },
        TokenAction::Transfer {
            location,
            owner,
            proto: TransferProto::Bel20 { tick: t, amt },
            txid,
            vout,
        } => {
            assert(a == (TokenAction::Transfer {
                location,
                owner,
                proto: TransferProto::Bel20 { tick: t, amt },
                txid,
                vout,
            }));
            assert(out.holders == st.holders);
            assert forall|tick: Seq<u8>| #[trigger] crate::holders::bucket_of(out.holders, tick)
                == rebuilt_bucket(out.accounts, tick) by {
                assert(crate::holders::bucket_of(out.holders, tick)
                    == crate::holders::bucket_of(st.holders, tick));
                assert(rebuilt_bucket(out.accounts, tick) =~= rebuilt_bucket(st.accounts, tick));
            }
        },
        TokenAction::Transferred { transfer_location, recipient, txid, vout } => {
            assert(a == (TokenAction::Transferred { transfer_location, recipient, txid, vout }));
            let lkey = transfer_location@;
            if out.holders == st.holders && out.accounts == st.accounts {
                assert forall|tick: Seq<u8>| #[trigger] crate::holders::bucket_of(
                    out.holders,
                    tick,
                ) == rebuilt_bucket(out.accounts, tick) by {
                    assert(crate::holders::bucket_of(out.holders, tick)
                        == crate::holders::bucket_of(st.holders, tick));
                    assert(rebuilt_bucket(out.accounts, tick) == rebuilt_bucket(
                        st.accounts,
                        tick,
                    ));
                }
            } else {
                let sender = st.valid_transfers[lkey].0;
                let proto = st.valid_transfers[lkey].1;
                let amt = proto.amt;
                let key = lower_seq(proto.tick@);
                let akey = (sender@, key);
                let acct = st.accounts[akey];
                let prev_total = acct.balance@ + acct.transferable_balance@;
                let bucket0 = crate::holders::bucket_of(st.holders, key);
                assert(bucket0 == rebuilt_bucket(st.accounts, key));
                // the index holds exactly one pair per nonzero holder
                assert(forall|p: (int, Seq<u8>)|
                    #[trigger] bucket0.contains_key(p) <==> (st.accounts.contains_key(
                        (p.1, key),
                    ) && st.accounts[(p.1, key)].balance@ + st.accounts[(
                        p.1,
                        key,
                    )].transferable_balance@ == p.0 && p.0 != 0));
                assert(amt@ > 0);
                assert(acct.transferable_balance@ >= amt@);
                assert(prev_total >= amt@ && prev_total > 0);
                let h1 = crate::holders::holders_decrease_spec(
                    st.holders,
                    key,
                    sender@,
                    prev_total,
                    amt@,
                );
                let bucket1 = crate::holders::bucket_of(h1, key);
                assert(bucket1 == if prev_total - amt@ != 0 {
                    bucket0.remove((prev_total, sender@)).insert((prev_total - amt@, sender@), ())
                } else {
                    bucket0.remove((prev_total, sender@))
                });
                let credit = match recipient {
                    Some(r) => r@ != op_return_hash_spec(),
                    None => false,
                };
                assert forall|tick: Seq<u8>| #[trigger] crate::holders::bucket_of(
                    out.holders,
                    tick,
                ) == rebuilt_bucket(out.accounts, tick) by {
                    if tick == key {
                        if credit {
                            let r = recipient.unwrap();
                            let rkey = (r@, key);
                            if rkey == akey {
                                // a self-send: the debit and the credit cancel
                                assert(r@ == sender@);
                                assert(crate::holders::bucket_of(out.holders, key)
                                    == bucket1.remove((prev_total - amt@, sender@)).insert(
                                    (prev_total, sender@),
                                    (),
                                ));
                                assert(crate::holders::bucket_of(out.holders, key)
                                    =~= rebuilt_bucket(out.accounts, key));
                            } else {
                                assert(r@ != sender@);
                                let racct = crate::interpreter::account_or_zero(st, rkey);
                                let rtotal = racct.balance@ + racct.transferable_balance@;
                                assert(crate::holders::bucket_of(out.holders, key)
                                    == bucket1.remove((rtotal, r@)).insert(
                                    (rtotal + amt@, r@),
                                    (),
                                ));
                                assert(crate::holders::bucket_of(out.holders, key)
                                    =~= rebuilt_bucket(out.accounts, key));
                            }
                        } else {
                            assert(crate::holders::bucket_of(out.holders, key)
                                =~= rebuilt_bucket(out.accounts, key));
                        }
                    } else {
                        assert(crate::holders::bucket_of(out.holders, tick)
                            == crate::holders::bucket_of(st.holders, tick));
                        assert(rebuilt_bucket(out.accounts, tick) =~= rebuilt_bucket(
                            st.accounts,
                            tick,
                        ));
                    }
                }
            }
        },
    }
    assert(pos_transfers(step(st, a).0)) by {
        assert forall|k: (Seq<u8>, u32, u64)| #[trigger] step(
            st,
            a,
        ).0.valid_transfers.contains_key(k) implies step(st, a).0.valid_transfers[k].1.amt@
            > 0 by {
            if st.valid_transfers.contains_key(k) && step(st, a).0.valid_transfers[k]
                == st.valid_transfers[k] {
            }
        }
    }
}

/// Holders consistency: whenever the index equals a fresh rebuild from the
/// balance rows, it still does after running any action stream whose mints
/// ask for positive amounts; the index is mutated strictly in lock-step with
/// every balance write.
pub proof fn lemma_run_holders(st: StateV, actions: Seq<TokenAction>)
    requires
        holders_match(st),
        pos_transfers(st),
        pos_amounts(actions),
        transfers_ok(st, actions),
    ensures
        holders_match(run(st, actions).0),
    decreases actions.len(),
{
    if actions.len() > 0 {
        assert(pos_amounts(seq![actions[0]])) by {
            assert(seq![actions[0]][0] == actions[0]);
        }
        lemma_step_holders(st, actions[0]);
        assert(pos_amounts(actions.skip(1))) by {
            assert(forall|i: int|
                0 <= i < actions.skip(1).len() ==> #[trigger] actions.skip(1)[i] == actions[i
                    + 1]);
        }
        lemma_run_holders(step(st, actions[0]).0, actions.skip(1));
    }
}

/// Reorg round trip, shown for a block that deploys one fresh token:
/// applying the block and then undoing its journal entry restores the token
/// table, every balance and transfer, the history rows, the per-block
/// tables, the cursors and the holders index exactly. The outpoint index
/// and the address book deliberately keep what the block wrote: rollback
/// leaves them untouched.
#[verifier::rlimit(100)]
pub proof fn lemma_deploy_rollback_roundtrip(
    sv: StoreV,
    hv: HoldersV,
    b: ResolvedTokenHistoryData,
    addrs: Seq<(FullHash, Vec<u8>)>,
)
    requires
        block_fits(sv, b),
        b.inscriptions@.len() == 1,
        !b.inscriptions@[0].leaked,
        (match b.inscriptions@[0].token {
            crate::pipeline::ParsedTokenActionRest::Deploy { tick, .. } => {
                !sv.token_to_meta.contains_key(lower_seq(tick@))
            },
            _ => false,
        }),
        // the block continues the chain
        b.block_info.height > 0,
        sv.last_block == Some((b.block_info.height - 1) as u32),
        sv.last_history_id is Some,
        !sv.block_hashes.contains_key(b.block_info.height),
        !sv.proof_of_history.contains_key(b.block_info.height),
        !sv.block_events.contains_key(b.block_info.height),
        // every stored row id lies at or below the cursor
        forall|k: (Seq<u8>, Seq<u8>, u64)|
            #[trigger] sv.address_token_to_history.contains_key(k) ==> k.2 <= last_id_of(sv),
    ensures
        ({
            let out = apply_block_spec(sv, hv, b, addrs);
            let undone = crate::reorg::undo_block(
                out.0,
                out.1,
                (b.block_info.height, last_id_of(sv), out.3),
            );
            &&& undone.0.token_to_meta == sv.token_to_meta
            &&& undone.0.address_token_to_balance == sv.address_token_to_balance
            &&& undone.0.address_location_to_transfer == sv.address_location_to_transfer
            &&& undone.0.address_token_to_history == sv.address_token_to_history
            &&& undone.0.block_events == sv.block_events
            &&& undone.0.proof_of_history == sv.proof_of_history
            &&& undone.0.block_hashes == sv.block_hashes
            &&& undone.0.last_block == sv.last_block
            &&& undone.0.last_history_id == sv.last_history_id
            &&& undone.1 == hv
        }),
{
    reveal(apply_block_spec);
    reveal_with_fuel(crate::pipeline::build_rec, 2);
    reveal_with_fuel(run, 2);
    reveal_with_fuel(crate::history::expand_all, 2);
    reveal_with_fuel(crate::history::rows_of_seq, 2);
    reveal_with_fuel(crate::pipeline::fold_rows, 2);
    reveal_with_fuel(crate::pipeline::fold_outpoints, 2);
    reveal_with_fuel(crate::reorg::undo_entries, 3);
    let height = b.block_info.height;
    let inscs = b.inscriptions@;
    assert(inscs.drop_last() =~= Seq::<crate::pipeline::ResolvedTokenHistory>::empty());
    assert(inscs.last() == inscs[0]);
    let built = crate::pipeline::build_rec(inscs, height, b.block_info.created);
    match b.inscriptions@[0].token {
        crate::pipeline::ParsedTokenActionRest::Deploy { tick, max, lim, dec } => {
            let key = lower_seq(tick@);
            assert(built.0.len() == 1);
            let action = built.0[0];
            assert(built.0 =~= seq![action]);
            assert(built.0.skip(1) =~= Seq::<TokenAction>::empty());
            let stepped = step(sv_state(sv, hv, built.1), action);
            let hist = stepped.1;
            assert(hist.len() == 1);
            let start_id = last_id_of(sv);
            let rows = crate::history::expand_all(hist, start_id as int, height);
            assert(hist.drop_last() =~= Seq::<HistoryTokenAction>::empty());
            assert(rows.len() == 1);
            let out = apply_block_spec(sv, hv, b, addrs);
            assert(out.3.len() == 2);
            assert(out.3[0] == crate::reorg::TokenHistoryEntry::RemoveDeployed(tick));
            assert(out.3[1] == crate::reorg::TokenHistoryEntry::RemoveHistory(rows[0].0));
            assert(out.3.drop_last() =~= seq![out.3[0]]);
            assert(seq![out.3[0]].drop_last() =~= Seq::<crate::reorg::TokenHistoryEntry>::empty());
            let undone = crate::reorg::undo_block(
                out.0,
                out.1,
                (height, start_id, out.3),
            );
            // the deploy row's id is fresh, so removing it restores the table
            assert(rows[0].0.id == start_id + 1);
            assert(!sv.address_token_to_history.contains_key(rows[0].0@));
            assert(undone.0.token_to_meta =~= sv.token_to_meta);
            assert(undone.0.address_token_to_history =~= sv.address_token_to_history);
            assert(undone.0.block_events =~= sv.block_events);
            assert(undone.0.proof_of_history =~= sv.proof_of_history);
            assert(undone.0.block_hashes =~= sv.block_hashes);
        },
        _ => {},
    }
}

/// The interpreter state a block starts from.
pub open spec fn sv_state(
    sv: StoreV,
    hv: HoldersV,
    seeded: Map<(Seq<u8>, u32, u64), crate::proto::TransferProtoDB>,
) -> StateV {
    StateV {
        tokens: sv.token_to_meta,
        accounts: sv.address_token_to_balance,
        all_transfers: seeded,
        valid_transfers: sv.address_location_to_transfer,
        holders: hv,
    }
}

/// Runs of blocks compose: applying `b1` then `b2` from where `b1` left off
/// is the same as applying `b1 + b2` in one go. This is what makes a restart
/// from the last committed block equal to an uninterrupted run, and it keeps
/// every proof-of-history link of a prefix unchanged when more blocks follow.
pub proof fn lemma_run_blocks_append(
    sv: StoreV,
    hv: HoldersV,
    rv: Seq<crate::reorg::ReorgBlockV>,
    b1: Seq<ResolvedTokenHistoryData>,
    b2: Seq<ResolvedTokenHistoryData>,
    addrs: Seq<(FullHash, Vec<u8>)>,
)
    ensures
        run_blocks(sv, hv, rv, b1 + b2, addrs) == match run_blocks(sv, hv, rv, b1, addrs) {
            Some(t) => match run_blocks(t.0, t.1, t.2, b2, addrs) {
                Some(u) => Some((u.0, u.1, u.2, t.3 + u.3)),
                None => None,
            },
            None => None::<
                (
                    StoreV,
                    HoldersV,
                    Seq<crate::reorg::ReorgBlockV>,
                    Seq<(AddressTokenId, crate::history::HistoryValue)>,
                ),
            >,
        },
    decreases b1.len(),
{
    reveal(run_blocks);
    if b1.len() == 0 {
        assert(b1 + b2 =~= b2);
        match run_blocks(sv, hv, rv, b2, addrs) {
            Some(u) => {
                assert(Seq::<(AddressTokenId, crate::history::HistoryValue)>::empty() + u.3
                    =~= u.3);
            },
            None => {},
        }
    } else {
        assert((b1 + b2)[0] == b1[0]);
        assert((b1 + b2).len() > 0);
        if block_fits(sv, b1[0]) {
            let out = apply_block_spec(sv, hv, b1[0], addrs);
            let pushed = reorg_push(rv, b1[0].block_info.height, last_id_of(sv));
            let rv1 = pushed.update(
                pushed.len() - 1,
                (b1[0].block_info.height, last_id_of(sv), out.3),
            );
            assert((b1 + b2).skip(1) =~= b1.skip(1) + b2);
            lemma_run_blocks_append(out.0, out.1, rv1, b1.skip(1), b2, addrs);
            match run_blocks(out.0, out.1, rv1, b1.skip(1), addrs) {
                Some(t) => {
                    match run_blocks(t.0, t.1, t.2, b2, addrs) {
                        Some(u) => {
                            assert(out.2 + (t.3 + u.3) =~= (out.2 + t.3) + u.3);
                        },
                        None => {},
                    }
                },
                None => {},
            }
        }
    }
}

} // verus!
