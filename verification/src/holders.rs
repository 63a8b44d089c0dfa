//! The in-memory holders index: per ticker, the set of (total balance,
//! address) pairs with a nonzero total, plus a count of distinct holders.

use vstd::prelude::*;
use crate::fixed::Fixed128;
use crate::types::{FullHash, LowerCaseTick};
use crate::vecmap::{MapKey, VecMap};

verus! {

/// One holder of a token: the total balance and who owns it.
#[derive(Clone, Copy, Debug)]
pub struct SortedByBalance(pub Fixed128, pub FullHash);

impl View for SortedByBalance {
    type V = (int, Seq<u8>);

    open spec fn view(&self) -> (int, Seq<u8>) {
        (self.0@, self.1@)
    }
}

impl MapKey for SortedByBalance {
    fn key_eq(&self, other: &Self) -> (r: bool)
        ensures
            r == (self@ == other@),
    {
        self.0.units == other.0.units && self.1.key_eq(&other.1)
    }

    fn key_clone(&self) -> (r: Self)
        ensures
            r@ == self@,
    {
        *self
    }
}

/// The holders of one ticker, as a set of (total, address) pairs.
pub type HolderBucket = VecMap<SortedByBalance, ()>;

/// The mathematical image of the whole index.
#[verifier::ext_equal]
pub struct HoldersV {
    pub balances: Map<Seq<u8>, Map<(int, Seq<u8>), ()>>,
    pub stats: Map<Seq<u8>, u64>,
}

/// The bucket of a ticker, empty when the ticker is unknown.
pub open spec fn bucket_of(h: HoldersV, tick: Seq<u8>) -> Map<(int, Seq<u8>), ()> {
    if h.balances.contains_key(tick) {
        h.balances[tick]
    } else {
        Map::empty()
    }
}

pub open spec fn stat_of(h: HoldersV, tick: Seq<u8>) -> u64 {
    if h.stats.contains_key(tick) {
        h.stats[tick]
    } else {
        0
    }
}

/// The index after crediting `amt` to a holder whose prior total was `prev`.
pub open spec fn holders_increase_spec(
    h: HoldersV,
    tick: Seq<u8>,
    addr: Seq<u8>,
    prev: int,
    amt: int,
) -> HoldersV {
    let bucket = bucket_of(h, tick);
    let existed = bucket.contains_key((prev, addr));
    let bucket1 = bucket.remove((prev, addr)).insert((prev + amt, addr), ());
    HoldersV {
        balances: h.balances.insert(tick, bucket1),
        stats: if existed {
            h.stats
        } else {
            h.stats.insert(
                tick,
                if stat_of(h, tick) == u64::MAX {
                    u64::MAX
                } else {
                    (stat_of(h, tick) + 1) as u64
                },
            )
        },
    }
}

/// The index after debiting `amt` from a holder whose prior total was `prev`;
/// a holder whose total reaches zero leaves the count.
pub open spec fn holders_decrease_spec(
    h: HoldersV,
    tick: Seq<u8>,
    addr: Seq<u8>,
    prev: int,
    amt: int,
) -> HoldersV {
    let bucket = bucket_of(h, tick);
    let bucket1 = bucket.remove((prev, addr));
    if prev - amt != 0 {
        HoldersV { balances: h.balances.insert(tick, bucket1.insert((prev - amt, addr), ())), stats: h.stats }
    } else {
        HoldersV {
            balances: h.balances.insert(tick, bucket1),
            stats: h.stats.insert(
                tick,
                if stat_of(h, tick) == 0 {
                    0
                } else {
                    (stat_of(h, tick) - 1) as u64
                },
            ),
        }
    }
}

/// The in-memory holders index.
pub struct Holders {
    balances: VecMap<LowerCaseTick, HolderBucket>,
    stats: VecMap<LowerCaseTick, u64>,
}

impl View for Holders {
    type V = HoldersV;

    closed spec fn view(&self) -> HoldersV {
        HoldersV {
            balances: Map::new(
                |t: Seq<u8>| self.balances@.contains_key(t),
                |t: Seq<u8>| self.balances@[t]@,
            ),
            stats: self.stats@,
        }
    }
}

impl Holders {
    /// An index with no holders at all.
    pub fn new() -> (r: Self)
        ensures
            r@.balances == Map::<Seq<u8>, Map<(int, Seq<u8>), ()>>::empty(),
            r@.stats == Map::<Seq<u8>, u64>::empty(),
    {
        let r = Holders { balances: VecMap::new(), stats: VecMap::new() };
        proof {
            assert(r@.balances =~= Map::<Seq<u8>, Map<(int, Seq<u8>), ()>>::empty());
        }
        r
    }

    /// How many distinct holders a ticker has.
    pub fn holders_by_tick(&self, tick: &LowerCaseTick) -> (r: u64)
        ensures
            r == stat_of(self@, tick@),
    {
        match self.stats.get_copy(tick) {
            Some(n) => n,
            None => 0,
        }
    }

    /// Credit `amt` to `addr` whose balance row before the write is `prev`.
    pub fn increase(&mut self, tick: &LowerCaseTick, addr: &FullHash, prev_total: Fixed128, amt: Fixed128)
        requires
            prev_total@ + amt@ <= u128::MAX as int,
        ensures
            final(self)@ == holders_increase_spec(
                old(self)@,
                tick@,
                addr@,
                prev_total@,
                amt@,
            ),
    {
        let ghost h0 = self@;
        let mut bucket: HolderBucket = match self.balances.remove(tick) {
            Some(b) => b,
            None => VecMap::new(),
        };
        proof {
            assert(bucket@ =~= bucket_of(h0, tick@));
        }
        let key = SortedByBalance(prev_total, *addr);
        let existed = bucket.contains_key(&key);
        let _ = bucket.remove(&key);
        let ghost amt_v = amt@;
        let new_total = Fixed128 { units: prev_total.units + amt.units };
        bucket.insert(SortedByBalance(new_total, *addr), ());
        self.balances.insert(tick.key_clone(), bucket);
        if !existed {
            let n = self.holders_by_tick_counter(tick);
            let bumped = if n == u64::MAX {
                u64::MAX
            } else {
                n + 1
            };
            self.stats.insert(tick.key_clone(), bumped);
        }
        proof {
            let spec_r = holders_increase_spec(h0, tick@, addr@, prev_total@, amt_v);
            assert(self@.balances =~= spec_r.balances);
            assert(self@.stats =~= spec_r.stats);
            assert(self@ =~= spec_r);
        }
    }

    /// Debit `amt` from `addr` whose balance row before the write is `prev`.
    pub fn decrease(&mut self, tick: &LowerCaseTick, addr: &FullHash, prev_total: Fixed128, amt: Fixed128)
        requires
            amt@ <= prev_total@,
        ensures
            final(self)@ == holders_decrease_spec(
                old(self)@,
                tick@,
                addr@,
                prev_total@,
                amt@,
            ),
    {
        let ghost h0 = self@;
        let mut bucket: HolderBucket = match self.balances.remove(tick) {
            Some(b) => b,
            None => VecMap::new(),
        };
        proof {
            assert(bucket@ =~= bucket_of(h0, tick@));
        }
        let key = SortedByBalance(prev_total, *addr);
        let _ = bucket.remove(&key);
        let remaining = Fixed128 { units: prev_total.units - amt.units };
        if remaining.units != 0 {
            bucket.insert(SortedByBalance(remaining, *addr), ());
            self.balances.insert(tick.key_clone(), bucket);
        } else {
            self.balances.insert(tick.key_clone(), bucket);
            let n = self.holders_by_tick_counter(tick);
            let lowered = if n == 0 {
                0u64
            } else {
                n - 1
            };
            self.stats.insert(tick.key_clone(), lowered);
        }
        proof {
            let spec_r = holders_decrease_spec(h0, tick@, addr@, prev_total@, amt@);
            assert(self@.balances =~= spec_r.balances);
            assert(self@.stats =~= spec_r.stats);
            assert(self@ =~= spec_r);
        }
    }

    fn holders_by_tick_counter(&self, tick: &LowerCaseTick) -> (r: u64)
        ensures
            r == stat_of(self@, tick@),
    {
        match self.stats.get_copy(tick) {
            Some(n) => n,
            None => 0,
        }
    }

    /// The holders of one ticker, copied out.
    pub fn get_holders(&self, tick: &LowerCaseTick) -> (r: Vec<SortedByBalance>)
        ensures
            forall|i: int|
                0 <= i < r@.len() ==> bucket_of(self@, tick@).contains_key(
                    (#[trigger] r@[i])@,
                ),
            r@.len() == bucket_of(self@, tick@).dom().len(),
    {
        let mut out: Vec<SortedByBalance> = Vec::new();
        match self.balances.get(tick) {
            Some(bucket) => {
                bucket.view_facts();
                let n = bucket.len();
                let mut i: usize = 0;
                proof {
                    crate::vecmap::lemma_assoc_map_len(bucket.kv());
                }
                while i < n
                    invariant
                        0 <= i <= n,
                        n as int == bucket.spec_len(),
                        bucket@.dom().len() == bucket.kv().len(),
                        out@.len() == i,
                        bucket@ == bucket_of(self@, tick@),
                        forall|j: int|
                            0 <= j < i ==> bucket@.contains_key((#[trigger] out@[j])@),
                    decreases n - i,
                {
                    let e = bucket.entry_at(i);
                    out.push(e.0);
                    i = i + 1;
                }
                proof {
                    assert(bucket@.dom().len() == out@.len());
                }
            },
            None => {
                proof {
                    assert(bucket_of(self@, tick@) =~= Map::<(int, Seq<u8>), ()>::empty());
                    assert(bucket_of(self@, tick@).dom() =~= Set::<(int, Seq<u8>)>::empty());
                }
            },
        }
        out
    }
}

} // verus!
