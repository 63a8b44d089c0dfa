//! History rows: the actions the interpreter emits, their stored form, and
//! the assignment of globally increasing row ids.

use vstd::prelude::*;
use crate::fixed::Fixed128;
use crate::types::{AddressTokenId, FullHash, Outpoint, TokenTick, TxidN};

verus! {

/// An accepted token action, as the interpreter reports it.
#[derive(Clone, Copy, Debug)]
pub enum HistoryTokenAction {
    Deploy {
        tick: TokenTick,
        max: Fixed128,
        lim: Fixed128,
        dec: u8,
        recipient: FullHash,
        txid: TxidN,
        vout: u32,
    },
    Mint { tick: TokenTick, amt: Fixed128, recipient: FullHash, txid: TxidN, vout: u32 },
    DeployTransfer { tick: TokenTick, amt: Fixed128, recipient: FullHash, txid: TxidN, vout: u32 },
    Send {
        tick: TokenTick,
        amt: Fixed128,
        recipient: FullHash,
        sender: FullHash,
        txid: TxidN,
        vout: u32,
    },
}

impl HistoryTokenAction {
    pub open spec fn spec_tick(&self) -> TokenTick {
        match *self {
            HistoryTokenAction::Deploy { tick, .. } => tick,
            HistoryTokenAction::Mint { tick, .. } => tick,
            HistoryTokenAction::DeployTransfer { tick, .. } => tick,
            HistoryTokenAction::Send { tick, .. } => tick,
        }
    }

    pub open spec fn spec_recipient(&self) -> FullHash {
        match *self {
            HistoryTokenAction::Deploy { recipient, .. } => recipient,
            HistoryTokenAction::Mint { recipient, .. } => recipient,
            HistoryTokenAction::DeployTransfer { recipient, .. } => recipient,
            HistoryTokenAction::Send { recipient, .. } => recipient,
        }
    }

    pub open spec fn spec_sender(&self) -> Option<FullHash> {
        match *self {
            HistoryTokenAction::Send { sender, .. } => Some(sender),
            _ => None,
        }
    }

    /// The ticker the action touches.
    pub fn tick(&self) -> (r: TokenTick)
        ensures
            r == self.spec_tick(),
    {
        match *self {
            HistoryTokenAction::Deploy { tick, .. } => tick,
            HistoryTokenAction::Mint { tick, .. } => tick,
            HistoryTokenAction::DeployTransfer { tick, .. } => tick,
            HistoryTokenAction::Send { tick, .. } => tick,
        }
    }

    /// Who is credited (for a send: the receiving side).
    pub fn recipient(&self) -> (r: FullHash)
        ensures
            r == self.spec_recipient(),
    {
        match *self {
            HistoryTokenAction::Deploy { recipient, .. } => recipient,
            HistoryTokenAction::Mint { recipient, .. } => recipient,
            HistoryTokenAction::DeployTransfer { recipient, .. } => recipient,
            HistoryTokenAction::Send { recipient, .. } => recipient,
        }
    }

    /// Who is debited, for a send.
    pub fn sender(&self) -> (r: Option<FullHash>)
        ensures
            r == self.spec_sender(),
    {
        match *self {
            HistoryTokenAction::Send { sender, .. } => Some(sender),
            _ => None,
        }
    }
}

/// The stored form of one history row.
#[derive(Clone, Copy, Debug)]
pub enum TokenHistoryDB {
    Deploy { max: Fixed128, lim: Fixed128, dec: u8, txid: TxidN, vout: u32 },
    Mint { amt: Fixed128, txid: TxidN, vout: u32 },
    DeployTransfer { amt: Fixed128, txid: TxidN, vout: u32 },
    Send { amt: Fixed128, recipient: FullHash, txid: TxidN, vout: u32 },
    Receive { amt: Fixed128, sender: FullHash, txid: TxidN, vout: u32 },
    SendReceive { amt: Fixed128, txid: TxidN, vout: u32 },
}

/// A stored history row: the block and what happened.
#[derive(Clone, Copy, Debug)]
pub struct HistoryValue {
    pub height: u32,
    pub action: TokenHistoryDB,
}

pub open spec fn spec_from_token_history(h: HistoryTokenAction) -> TokenHistoryDB {
    match h {
        HistoryTokenAction::Deploy { max, lim, dec, txid, vout, .. } => TokenHistoryDB::Deploy {
            max,
            lim,
            dec,
            txid,
            vout,
        },
        HistoryTokenAction::Mint { amt, txid, vout, .. } => TokenHistoryDB::Mint {
            amt,
            txid,
            vout,
        },
        HistoryTokenAction::DeployTransfer { amt, txid, vout, .. } => TokenHistoryDB::DeployTransfer {
            amt,
            txid,
            vout,
        },
        HistoryTokenAction::Send { amt, recipient, sender, txid, vout, .. } => {
            if sender@ == recipient@ {
                TokenHistoryDB::SendReceive { amt, txid, vout }
            } else {
                TokenHistoryDB::Send { amt, recipient, txid, vout }
            }
        },
    }
}

impl TokenHistoryDB {
    /// Collapse an interpreter action into its stored row form; a send to
    /// oneself becomes a single `SendReceive`.
    pub fn from_token_history(token_history: HistoryTokenAction) -> (r: TokenHistoryDB)
        ensures
            r == spec_from_token_history(token_history),
    {
        match token_history {
            HistoryTokenAction::Deploy { max, lim, dec, txid, vout, .. } => TokenHistoryDB::Deploy {
                max,
                lim,
                dec,
                txid,
                vout,
            },
            HistoryTokenAction::Mint { amt, txid, vout, .. } => TokenHistoryDB::Mint {
                amt,
                txid,
                vout,
            },
            HistoryTokenAction::DeployTransfer { amt, txid, vout, .. } => TokenHistoryDB::DeployTransfer {
                amt,
                txid,
                vout,
            },
            HistoryTokenAction::Send { amt, recipient, sender, txid, vout, .. } => {
                if sender.key_eq_hash(&recipient) {
                    TokenHistoryDB::SendReceive { amt, txid, vout }
                } else {
                    TokenHistoryDB::Send { amt, recipient, txid, vout }
                }
            },
        }
    }

    /// The other side of the row, where one exists.
    pub fn address(&self) -> (r: Option<&FullHash>)
        ensures
            match *self {
                TokenHistoryDB::Receive { ref sender, .. } => r == Some(sender),
                TokenHistoryDB::Send { ref recipient, .. } => r == Some(recipient),
                _ => r is None,
            },
    {
        match self {
            TokenHistoryDB::Receive { sender, .. } => Some(sender),
            TokenHistoryDB::Send { recipient, .. } => Some(recipient),
            _ => None,
        }
    }

    pub open spec fn spec_outpoint(&self) -> (Seq<u8>, u32) {
        match *self {
            TokenHistoryDB::Deploy { txid, vout, .. } => (txid@, vout),
            TokenHistoryDB::Mint { txid, vout, .. } => (txid@, vout),
            TokenHistoryDB::DeployTransfer { txid, vout, .. } => (txid@, vout),
            TokenHistoryDB::Send { txid, vout, .. } => (txid@, vout),
            TokenHistoryDB::Receive { txid, vout, .. } => (txid@, vout),
            TokenHistoryDB::SendReceive { txid, vout, .. } => (txid@, vout),
        }
    }

    /// The transaction output the row refers to.
    pub fn outpoint(&self) -> (r: Outpoint)
        ensures
            r@ == self.spec_outpoint(),
    {
        match *self {
            TokenHistoryDB::Deploy { txid, vout, .. } => Outpoint { txid: txid.0, vout },
            TokenHistoryDB::Mint { txid, vout, .. } => Outpoint { txid: txid.0, vout },
            TokenHistoryDB::DeployTransfer { txid, vout, .. } => Outpoint { txid: txid.0, vout },
            TokenHistoryDB::Send { txid, vout, .. } => Outpoint { txid: txid.0, vout },
            TokenHistoryDB::Receive { txid, vout, .. } => Outpoint { txid: txid.0, vout },
            TokenHistoryDB::SendReceive { txid, vout, .. } => Outpoint { txid: txid.0, vout },
        }
    }
}

impl FullHash {
    /// Equality of two address hashes.
    pub fn key_eq_hash(&self, other: &FullHash) -> (r: bool)
        ensures
            r == (self@ == other@),
    {
        crate::types::bytes_eq(self.0.as_slice(), other.0.as_slice())
    }
}

/// How many rows one action expands to: a send between two distinct parties
/// makes a sender row and a recipient row.
pub open spec fn rows_of(a: HistoryTokenAction) -> int {
    match a {
        HistoryTokenAction::Send { sender, recipient, .. } => if sender@ != recipient@ {
            2
        } else {
            1
        },
        _ => 1,
    }
}

/// Total rows a sequence of actions expands to.
pub open spec fn rows_of_seq(actions: Seq<HistoryTokenAction>) -> int
    decreases actions.len(),
{
    if actions.len() == 0 {
        0
    } else {
        rows_of_seq(actions.drop_last()) + rows_of(actions.last())
    }
}

/// The rows one action contributes, ids starting at `next_id`.
pub open spec fn expand_one(a: HistoryTokenAction, next_id: int, height: u32) -> Seq<
    (AddressTokenId, HistoryValue),
> {
    match a {
        HistoryTokenAction::Send { tick, amt, recipient, sender, txid, vout } => {
            if sender@ != recipient@ {
                seq![
                    (
                        AddressTokenId { address: sender, token: tick, id: next_id as u64 },
                        HistoryValue {
                            height,
                            action: TokenHistoryDB::Send { amt, recipient, txid, vout },
                        },
                    ),
                    (
                        AddressTokenId { address: recipient, token: tick, id: (next_id + 1) as u64 },
                        HistoryValue {
                            height,
                            action: TokenHistoryDB::Receive { amt, sender, txid, vout },
                        },
                    ),
                ]
            } else {
                seq![
                    (
                        AddressTokenId { address: recipient, token: tick, id: next_id as u64 },
                        HistoryValue { height, action: spec_from_token_history(a) },
                    ),
                ]
            }
        },
        _ => seq![
            (
                AddressTokenId { address: a.spec_recipient(), token: a.spec_tick(), id: next_id as u64 },
                HistoryValue { height, action: spec_from_token_history(a) },
            ),
        ],
    }
}

/// All rows of a block's actions, ids starting just above `start_id`.
pub open spec fn expand_all(
    actions: Seq<HistoryTokenAction>,
    start_id: int,
    height: u32,
) -> Seq<(AddressTokenId, HistoryValue)>
    decreases actions.len(),
{
    if actions.len() == 0 {
        Seq::empty()
    } else {
        expand_all(actions.drop_last(), start_id, height) + expand_one(
            actions.last(),
            start_id + 1 + rows_of_seq(actions.drop_last()),
            height,
        )
    }
}

proof fn lemma_rows_of_seq_nonneg(actions: Seq<HistoryTokenAction>)
    ensures
        rows_of_seq(actions) >= 0,
        actions.len() <= rows_of_seq(actions) <= 2 * actions.len(),
    decreases actions.len(),
{
    if actions.len() > 0 {
        lemma_rows_of_seq_nonneg(actions.drop_last());
    }
}

proof fn lemma_expand_all_len(actions: Seq<HistoryTokenAction>, start_id: int, height: u32)
    ensures
        expand_all(actions, start_id, height).len() == rows_of_seq(actions),
    decreases actions.len(),
{
    if actions.len() > 0 {
        lemma_expand_all_len(actions.drop_last(), start_id, height);
        lemma_rows_of_seq_nonneg(actions.drop_last());
    }
}

/// Assign fresh strictly increasing ids to a block's actions, expanding each
/// send between distinct parties into a sender row then a recipient row.
/// Returns the rows and the last id assigned.
pub fn expand_history(
    actions: &Vec<HistoryTokenAction>,
    start_id: u64,
    height: u32,
) -> (r: (Vec<(AddressTokenId, HistoryValue)>, u64))
    requires
        start_id + 2 * actions@.len() <= u64::MAX,
    ensures
        r.0@ == expand_all(actions@, start_id as int, height),
        r.1 as int == start_id + rows_of_seq(actions@),
{
    let n = actions.len();
    let mut rows: Vec<(AddressTokenId, HistoryValue)> = Vec::new();
    let mut last_id: u64 = start_id;
    let mut i: usize = 0;
    while i < n
        invariant
            0 <= i <= n,
            n == actions@.len(),
            start_id + 2 * n <= u64::MAX,
            last_id as int == start_id + rows_of_seq(actions@.take(i as int)),
            rows@ == expand_all(actions@.take(i as int), start_id as int, height),
        decreases n - i,
    {
        proof {
            lemma_rows_of_seq_nonneg(actions@.take(i as int));
            assert(actions@.take(i + 1).drop_last() =~= actions@.take(i as int));
            assert(actions@.take(i + 1).last() == actions@[i as int]);
            lemma_rows_of_seq_nonneg(actions@.take(i + 1));
        }
        let action = &actions[i];
        let tick = action.tick();
        let recipient = action.recipient();
        match *action {
            HistoryTokenAction::Send { amt, recipient: rcpt, sender, txid, vout, .. } => {
                if !sender.key_eq_hash(&rcpt) {
                    last_id = last_id + 1;
                    rows.push(
                        (
                            AddressTokenId { address: sender, token: tick, id: last_id },
                            HistoryValue {
                                height,
                                action: TokenHistoryDB::Send { amt, recipient: rcpt, txid, vout },
                            },
                        ),
                    );
                    last_id = last_id + 1;
                    rows.push(
                        (
                            AddressTokenId { address: rcpt, token: tick, id: last_id },
                            HistoryValue {
                                height,
                                action: TokenHistoryDB::Receive { amt, sender, txid, vout },
                            },
                        ),
                    );
                } else {
                    last_id = last_id + 1;
                    let db_action = TokenHistoryDB::from_token_history(*action);
                    rows.push(
                        (
                            AddressTokenId { address: recipient, token: tick, id: last_id },
                            HistoryValue { height, action: db_action },
                        ),
                    );
                }
            },
            _ => {
                last_id = last_id + 1;
                let db_action = TokenHistoryDB::from_token_history(*action);
                rows.push(
                    (
                        AddressTokenId { address: recipient, token: tick, id: last_id },
                        HistoryValue { height, action: db_action },
                    ),
                );
            },
        }
        proof {
            assert(rows@ =~= expand_all(actions@.take(i + 1), start_id as int, height));
        }
        i = i + 1;
    }
    proof {
        assert(actions@.take(n as int) =~= actions@);
    }
    (rows, last_id)
}

/// The ids a block's rows carry form the contiguous range just above
/// `start_id`, in order; a send row immediately precedes its receive row.
pub proof fn lemma_history_ordering(
    actions: Seq<HistoryTokenAction>,
    start_id: int,
    height: u32,
)
    requires
        0 <= start_id,
        start_id + 2 * actions.len() <= u64::MAX,
    ensures
        forall|i: int|
            0 <= i < expand_all(actions, start_id, height).len() ==> (#[trigger] expand_all(
                actions,
                start_id,
                height,
            )[i]).0.id as int == start_id + 1 + i,
    decreases actions.len(),
{
    let rows = expand_all(actions, start_id, height);
    if actions.len() > 0 {
        let front = actions.drop_last();
        lemma_history_ordering(front, start_id, height);
        lemma_expand_all_len(front, start_id, height);
        lemma_rows_of_seq_nonneg(front);
        let prefix = expand_all(front, start_id, height);
        let tail = expand_one(actions.last(), start_id + 1 + rows_of_seq(front), height);
        assert(rows == prefix + tail);
        let next_id = start_id + 1 + rows_of_seq(front);
        assert(0 <= next_id && next_id + 1 <= u64::MAX);
        assert forall|i: int| 0 <= i < rows.len() implies (#[trigger] rows[i]).0.id as int
            == start_id + 1 + i by {
            if i < prefix.len() {
                assert(rows[i] == prefix[i]);
            } else {
                assert(rows[i] == tail[i - prefix.len()]);
                assert(prefix.len() == rows_of_seq(front));
                match actions.last() {
                    HistoryTokenAction::Send { sender, recipient, .. } => {
                        if sender@ != recipient@ {
                            assert(tail[0].0.id as int == next_id);
                            assert(tail[1].0.id as int == next_id + 1);
                        } else {
                            assert(tail[0].0.id as int == next_id);
                        }
                    },
                    _ => {
                        assert(tail[0].0.id as int == next_id);
                    },
                }
            }
        }
    }
}

} // verus!
