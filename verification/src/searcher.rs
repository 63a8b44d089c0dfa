//! The offset resolver: map a transaction's inputs to fee-adjusted satoshi
//! offsets, and resolve a sat offset to the output that carries it.

use vstd::prelude::*;
use crate::types::{Outpoint, TxOut};
use crate::vecmap::VecMap;

verus! {

/// One transaction input: the output it spends.
#[derive(Clone, Copy, Debug)]
pub struct TxIn {
    pub previous_output: Outpoint,
}

/// A transaction, reduced to what offset resolution reads.
#[derive(Clone, Debug)]
pub struct Transaction {
    pub input: Vec<TxIn>,
    pub output: Vec<TxOut>,
}

/// Sum of a sequence of sat values.
pub open spec fn sum_of(vals: Seq<int>) -> int
    decreases vals.len(),
{
    if vals.len() == 0 {
        0
    } else {
        sum_of(vals.drop_last()) + vals.last()
    }
}

/// The values of the outputs a transaction's inputs spend, if the prevout
/// set has them all.
pub open spec fn prevout_values(
    tx: Transaction,
    outs: Map<(Seq<u8>, u32), TxOut>,
) -> Option<Seq<int>> {
    if forall|i: int|
        0 <= i < tx.input@.len() ==> outs.contains_key((#[trigger] tx.input@[i]).previous_output@) {
        Some(
            Seq::new(
                tx.input@.len(),
                |i: int| outs[tx.input@[i].previous_output@].value as int,
            ),
        )
    } else {
        None
    }
}

/// The values of a transaction's own outputs.
pub open spec fn output_values(tx: Transaction) -> Seq<int> {
    Seq::new(tx.output@.len(), |i: int| tx.output@[i].value as int)
}

/// The last-input-pays-fee rule: drop trailing inputs while their value is
/// within the remaining fee; the last surviving input is reduced by what is
/// left of it.
pub open spec fn trim_fee(vals: Seq<int>, fee: int) -> Seq<int>
    decreases vals.len(),
{
    if vals.len() == 0 {
        Seq::empty()
    } else if vals.last() > fee {
        vals.update(vals.len() - 1, vals.last() - fee)
    } else {
        trim_fee(vals.drop_last(), fee - vals.last())
    }
}

/// Cumulative start offsets of the surviving inputs.
pub open spec fn prefix_sums(vals: Seq<int>) -> Seq<int> {
    Seq::new(vals.len(), |i: int| sum_of(vals.take(i)))
}

proof fn lemma_sum_take_succ(vals: Seq<int>, i: int)
    requires
        0 <= i < vals.len(),
    ensures
        sum_of(vals.take(i + 1)) == sum_of(vals.take(i)) + vals[i],
{
    assert(vals.take(i + 1).drop_last() =~= vals.take(i));
    assert(vals.take(i + 1).last() == vals[i]);
}

proof fn lemma_sum_nonneg(vals: Seq<int>)
    requires
        forall|i: int| 0 <= i < vals.len() ==> #[trigger] vals[i] >= 0,
    ensures
        sum_of(vals) >= 0,
    decreases vals.len(),
{
    if vals.len() > 0 {
        assert(forall|i: int|
            0 <= i < vals.drop_last().len() ==> #[trigger] vals.drop_last()[i] == vals[i]);
        lemma_sum_nonneg(vals.drop_last());
    }
}

proof fn lemma_sum_take_bound(vals: Seq<int>, i: int)
    requires
        0 <= i <= vals.len(),
        forall|j: int| 0 <= j < vals.len() ==> #[trigger] vals[j] >= 0,
    ensures
        0 <= sum_of(vals.take(i)) <= sum_of(vals),
    decreases vals.len() - i,
{
    assert(forall|j: int| 0 <= j < i ==> #[trigger] vals.take(i)[j] == vals[j]);
    lemma_sum_nonneg(vals.take(i));
    if i == vals.len() {
        assert(vals.take(i) =~= vals);
    } else {
        lemma_sum_take_succ(vals, i);
        lemma_sum_take_bound(vals, i + 1);
    }
}

pub struct InscriptionSearcher {}

impl InscriptionSearcher {
    /// Fee-adjusted start offsets of a transaction's inputs: the fee is paid
    /// by the tail of the input list, and offsets are the prefix sums of the
    /// values that survive. `None` when a prevout is unknown.
    pub fn calc_offsets(tx: &Transaction, tx_outs: &VecMap<Outpoint, TxOut>) -> (r: Option<
        Vec<u64>,
    >)
        requires
            ({
                match prevout_values(*tx, tx_outs@) {
                    Some(vals) => sum_of(vals) <= u64::MAX as int && sum_of(output_values(*tx))
                        <= sum_of(vals),
                    None => true,
                }
            }),
        ensures
            ({
                match prevout_values(*tx, tx_outs@) {
                    Some(vals) => {
                        let trimmed = trim_fee(
                            vals,
                            sum_of(vals) - sum_of(output_values(*tx)),
                        );
                        match r {
                            Some(offs) => offs@.len() == trimmed.len() && forall|i: int|
                                0 <= i < offs@.len() ==> (#[trigger] offs@[i]) as int
                                    == prefix_sums(trimmed)[i],
                            None => false,
                        }
                    },
                    None => r is None,
                }
            }),
    {
        let n = tx.input.len();
        let mut input_values: Vec<u64> = Vec::new();
        let mut i: usize = 0;
        while i < n
            invariant
                0 <= i <= n,
                n == tx.input@.len(),
                input_values@.len() == i,
                forall|j: int|
                    0 <= j < i ==> tx_outs@.contains_key(
                        (#[trigger] tx.input@[j]).previous_output@,
                    ) && input_values@[j] == tx_outs@[tx.input@[j].previous_output@].value,
            decreases n - i,
        {
            match tx_outs.get(&tx.input[i].previous_output) {
                Some(out) => {
                    input_values.push(out.value);
                },
                None => {
                    return None;
                },
            }
            i = i + 1;
        }
        let ghost vals = prevout_values(*tx, tx_outs@).unwrap();
        proof {
            assert(prevout_values(*tx, tx_outs@) is Some);
            assert(forall|j: int| 0 <= j < n ==> input_values@[j] as int == #[trigger] vals[j]);
            assert(vals.len() == n);
        }
        // total input value
        let mut spend: u64 = 0;
        let mut k: usize = 0;
        while k < n
            invariant
                0 <= k <= n,
                n == input_values@.len() == vals.len(),
                forall|j: int| 0 <= j < n ==> input_values@[j] as int == #[trigger] vals[j],
                forall|j: int| 0 <= j < n ==> #[trigger] vals[j] >= 0,
                sum_of(vals) <= u64::MAX as int,
                spend as int == sum_of(vals.take(k as int)),
            decreases n - k,
        {
            proof {
                lemma_sum_take_succ(vals, k as int);
                lemma_sum_take_bound(vals, k + 1);
            }
            spend = spend + input_values[k];
            k = k + 1;
        }
        proof {
            assert(vals.take(n as int) =~= vals);
        }
        // total output value
        let m = tx.output.len();
        let ghost ovals = output_values(*tx);
        let mut out_sum: u64 = 0;
        let mut t: usize = 0;
        while t < m
            invariant
                0 <= t <= m,
                m == tx.output@.len() == ovals.len(),
                forall|j: int| 0 <= j < m ==> tx.output@[j].value as int == #[trigger] ovals[j],
                forall|j: int| 0 <= j < m ==> #[trigger] ovals[j] >= 0,
                sum_of(ovals) <= u64::MAX as int,
                out_sum as int == sum_of(ovals.take(t as int)),
            decreases m - t,
        {
            proof {
                lemma_sum_take_succ(ovals, t as int);
                lemma_sum_take_bound(ovals, t + 1);
                lemma_sum_nonneg(ovals);
            }
            out_sum = out_sum + tx.output[t].value;
            t = t + 1;
        }
        proof {
            assert(ovals.take(m as int) =~= ovals);
        }
        let mut fee: u64 = spend - out_sum;
        // trim the fee off the tail of the input list
        let ghost target = trim_fee(vals, sum_of(vals) - sum_of(ovals));
        let mut vals_exec = input_values;
        let ghost gl = vals_exec@.map_values(|v: u64| v as int);
        proof {
            assert(gl =~= vals);
        }
        loop
            invariant_except_break
                forall|j: int| 0 <= j < vals_exec@.len() ==> (#[trigger] vals_exec@[j]) as int
                    == vals[j],
                fee as int >= 0,
                target == trim_fee(
                    vals.take(vals_exec@.len() as int),
                    fee as int,
                ),
            invariant
                vals_exec@.len() <= n,
                n == vals.len(),
            ensures
                vals_exec@.len() <= n,
                forall|j: int| 0 <= j < vals_exec@.len() ==> (#[trigger] vals_exec@[j]) as int
                    == target[j],
                vals_exec@.len() == target.len(),
            decreases vals_exec@.len(),
        {
            let ghost len0 = vals_exec@.len() as int;
            proof {
                assert(vals.take(len0).len() == len0);
            }
            match vals_exec.pop() {
                Some(input) => {
                    proof {
                        assert(vals.take(len0).last() == vals[len0 - 1]);
                        assert(vals.take(len0).drop_last() =~= vals.take(len0 - 1));
                    }
                    if input > fee {
                        vals_exec.push(input - fee);
                        proof {
                            let tk = vals.take(len0);
                            assert(target == tk.update(len0 - 1, vals[len0 - 1] - fee));
                            assert(forall|j: int|
                                0 <= j < len0 ==> (#[trigger] vals_exec@[j]) as int == target[j]);
                        }
                        break ;
                    }
                    fee = fee - input;
                },
                None => {
                    proof {
                        assert(vals.take(0) =~= Seq::<int>::empty());
                        assert(target =~= Seq::<int>::empty());
                    }
                    break ;
                },
            }
        }
        // prefix sums, dropping the trailing total
        let cnt = vals_exec.len();
        let mut offsets: Vec<u64> = Vec::new();
        let mut acc: u64 = 0;
        let mut p: usize = 0;
        proof {
            assert forall|j: int| 0 <= j < target.len() implies #[trigger] target[j] >= 0 by {
                assert((vals_exec@[j]) as int == target[j]);
            }
            lemma_trim_sum_bound(vals, sum_of(vals) - sum_of(ovals));
        }
        while p < cnt
            invariant
                0 <= p <= cnt,
                cnt == vals_exec@.len() == target.len(),
                forall|j: int| 0 <= j < cnt ==> (#[trigger] vals_exec@[j]) as int == target[j],
                forall|j: int| 0 <= j < cnt ==> #[trigger] target[j] >= 0,
                sum_of(target) <= u64::MAX as int,
                acc as int == sum_of(target.take(p as int)),
                offsets@.len() == p,
                forall|j: int| 0 <= j < p ==> (#[trigger] offsets@[j]) as int == prefix_sums(
                    target,
                )[j],
            decreases cnt - p,
        {
            proof {
                lemma_sum_take_succ(target, p as int);
                lemma_sum_take_bound(target, p + 1);
            }
            offsets.push(acc);
            acc = acc + vals_exec[p];
            p = p + 1;
        }
        Some(offsets)
    }

    /// Resolve a sat offset to `(output index, offset within that output)`;
    /// an offset at or past the total output value is leaked to fees.
    pub fn get_output_index_by_input(offset: Option<u64>, tx_outs: &[TxOut]) -> (r: Result<
        (u32, u64),
        (),
    >)
        requires
            tx_outs@.len() <= u32::MAX as int,
        ensures
            ({
                match offset {
                    None => r is Err,
                    Some(off) => match r {
                        Ok(iv) => {
                            let (idx, rem) = iv;
                            &&& 0 <= idx < tx_outs@.len()
                            &&& rem < tx_outs@[idx as int].value
                            &&& off as int == sum_of(
                                Seq::new(idx as nat, |i: int| tx_outs@[i].value as int),
                            ) + rem
                        },
                        Err(_) => off as int >= sum_of(
                            Seq::new(tx_outs@.len(), |i: int| tx_outs@[i].value as int),
                        ),
                    },
                }
            }),
    {
        let Some(mut cur) = offset else {
            return Err(());
        };
        let ghost all = Seq::new(tx_outs@.len(), |i: int| tx_outs@[i].value as int);
        let n = tx_outs.len();
        let mut idx: usize = 0;
        while idx < n
            invariant
                0 <= idx <= n,
                n == tx_outs@.len() <= u32::MAX as int,
                all == Seq::new(tx_outs@.len(), |i: int| tx_outs@[i].value as int),
                offset is Some,
                offset.unwrap() as int == sum_of(all.take(idx as int)) + cur as int,
                forall|j: int| 0 <= j < all.len() ==> #[trigger] all[j] >= 0,
            decreases n - idx,
        {
            let v = tx_outs[idx].value;
            if cur < v {
                proof {
                    assert(all.take(idx as int) =~= Seq::new(
                        idx as nat,
                        |i: int| tx_outs@[i].value as int,
                    ));
                }
                return Ok((idx as u32, cur));
            }
            proof {
                lemma_sum_take_succ(all, idx as int);
            }
            cur = cur - v;
            idx = idx + 1;
        }
        proof {
            assert(all.take(n as int) =~= all);
        }
        Err(())
    }
}

/// The surviving input values sum to at most the original total.
proof fn lemma_trim_sum_bound(vals: Seq<int>, fee: int)
    requires
        forall|j: int| 0 <= j < vals.len() ==> #[trigger] vals[j] >= 0,
        fee >= 0,
    ensures
        sum_of(trim_fee(vals, fee)) <= sum_of(vals),
    decreases vals.len(),
{
    if vals.len() == 0 {
    } else if vals.last() > fee {
        let tr = vals.update(vals.len() - 1, vals.last() - fee);
        assert(tr.drop_last() =~= vals.drop_last());
        assert(sum_of(tr) == sum_of(vals.drop_last()) + vals.last() - fee);
    } else {
        assert(forall|j: int|
            0 <= j < vals.drop_last().len() ==> #[trigger] vals.drop_last()[j] == vals[j]);
        lemma_trim_sum_bound(vals.drop_last(), fee - vals.last());
    }
}

} // verus!
