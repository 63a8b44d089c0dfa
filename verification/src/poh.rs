//! Proof of history: the canonical serialization of expanded history rows
//! and the per-block rolling SHA-256 commitment over them.

use vstd::prelude::*;
use vstd::string::StringSliceAdditionalSpecFns;
use crate::fixed::{pow10, scale_of, Fixed128, UNITS_PER_TOKEN};
use crate::hashing::{default_hash_spec, default_poh_hash, op_return_hash_spec, sha256_of};
use crate::history::{HistoryValue, TokenHistoryDB};
use crate::types::{AddressTokenId, FullHash, TxidN};
use crate::vecmap::VecMap;

verus! {

/// One lowercase hexadecimal digit.
pub open spec fn hex_digit(v: int) -> u8 {
    if v < 10 {
        (48 + v) as u8
    } else {
        (87 + v) as u8
    }
}

/// Lowercase hex of a byte string, two digits per byte.
pub open spec fn hex_bytes_of(s: Seq<u8>) -> Seq<u8>
    decreases s.len(),
{
    if s.len() == 0 {
        Seq::empty()
    } else {
        hex_bytes_of(s.drop_last()) + seq![
            hex_digit(s.last() as int / 16),
            hex_digit(s.last() as int % 16),
        ]
    }
}

/// Relies on hex::encode: two lowercase hex digits per input byte, most
/// significant nibble first.
#[verifier::external_body]
fn hex_encode(data: &[u8]) -> (r: Vec<u8>)
    ensures
        r@ == hex_bytes_of(data@),
{
    hex::encode(data).into_bytes()
}

/// A byte string reversed.
pub open spec fn rev_bytes(s: Seq<u8>) -> Seq<u8> {
    Seq::new(s.len(), |i: int| s[s.len() - 1 - i])
}

/// Decimal digits of a nonnegative number.
pub open spec fn dec_bytes(n: int) -> Seq<u8>
    decreases
            (if n >= 0 {
                n
            } else {
                0
            }),
{
    if n < 10 {
        seq![(48 + n) as u8]
    } else {
        dec_bytes(n / 10).push((48 + n % 10) as u8)
    }
}

/// `width` decimal digits of `v`, zero padded at the front.
pub open spec fn pad_digits(v: int, width: nat) -> Seq<u8>
    decreases width,
{
    if width == 0 {
        Seq::empty()
    } else {
        pad_digits(v / 10, (width - 1) as nat).push((48 + v % 10) as u8)
    }
}

/// The canonical decimal text of a fixed-point amount: the whole part, then
/// a dot and the fractional digits with trailing zeros removed, if any.
pub open spec fn fixed_dec_bytes(a: Fixed128) -> Seq<u8> {
    let whole = a@ / (UNITS_PER_TOKEN as int);
    let frac = a@ % (UNITS_PER_TOKEN as int);
    if frac == 0 {
        dec_bytes(whole)
    } else {
        let sc = scale_of(frac, 18);
        dec_bytes(whole) + seq![46u8] + pad_digits(frac / pow10((18 - sc) as nat), sc as nat)
    }
}

/// The display texts of a map of owned address strings.
pub open spec fn disp_map(am: Map<Seq<u8>, Vec<u8>>) -> Map<Seq<u8>, Seq<u8>> {
    Map::new(|k: Seq<u8>| am.contains_key(k), |k: Seq<u8>| am[k]@)
}

/// The display text standing for an address hash: the burn marker, the
/// recorded string, or the non-standard marker.
pub open spec fn addr_disp(am: Map<Seq<u8>, Seq<u8>>, hash: Seq<u8>) -> Seq<u8> {
    if hash == op_return_hash_spec() {
        "BURNED".spec_bytes()
    } else if am.contains_key(hash) {
        am[hash]
    } else {
        "non-standard".spec_bytes()
    }
}

/// The canonical text of a transaction id: reversed lowercase hex.
pub open spec fn txid_text(t: TxidN) -> Seq<u8> {
    hex_bytes_of(rev_bytes(t@))
}

/// The action fields of one row.
pub open spec fn json_action_bytes(a: TokenHistoryDB, am: Map<Seq<u8>, Seq<u8>>) -> Seq<u8> {
    match a {
        TokenHistoryDB::Deploy { max, lim, dec, txid, vout } => ",\"type\":\"Deploy\",\"max\":\"".spec_bytes()
            + fixed_dec_bytes(max) + "\",\"lim\":\"".spec_bytes() + fixed_dec_bytes(lim)
            + "\",\"dec\":".spec_bytes() + dec_bytes(dec as int) + ",\"txid\":\"".spec_bytes()
            + txid_text(txid) + "\",\"vout\":".spec_bytes() + dec_bytes(vout as int),
        TokenHistoryDB::Mint { amt, txid, vout } => ",\"type\":\"Mint\",\"amt\":\"".spec_bytes()
            + fixed_dec_bytes(amt) + "\",\"txid\":\"".spec_bytes() + txid_text(txid)
            + "\",\"vout\":".spec_bytes() + dec_bytes(vout as int),
        TokenHistoryDB::DeployTransfer { amt, txid, vout } => ",\"type\":\"DeployTransfer\",\"amt\":\"".spec_bytes()
            + fixed_dec_bytes(amt) + "\",\"txid\":\"".spec_bytes() + txid_text(txid)
            + "\",\"vout\":".spec_bytes() + dec_bytes(vout as int),
        TokenHistoryDB::Send { amt, recipient, txid, vout } => ",\"type\":\"Send\",\"amt\":\"".spec_bytes()
            + fixed_dec_bytes(amt) + "\",\"recipient\":\"".spec_bytes() + addr_disp(
            am,
            recipient@,
        ) + "\",\"txid\":\"".spec_bytes() + txid_text(txid) + "\",\"vout\":".spec_bytes()
            + dec_bytes(vout as int),
        TokenHistoryDB::Receive { amt, sender, txid, vout } => ",\"type\":\"Receive\",\"amt\":\"".spec_bytes()
            + fixed_dec_bytes(amt) + "\",\"sender\":\"".spec_bytes() + addr_disp(am, sender@)
            + "\",\"txid\":\"".spec_bytes() + txid_text(txid) + "\",\"vout\":".spec_bytes()
            + dec_bytes(vout as int),
        TokenHistoryDB::SendReceive { amt, txid, vout } => ",\"type\":\"SendReceive\",\"amt\":\"".spec_bytes()
            + fixed_dec_bytes(amt) + "\",\"txid\":\"".spec_bytes() + txid_text(txid)
            + "\",\"vout\":".spec_bytes() + dec_bytes(vout as int),
    }
}

/// One serialized row.
pub open spec fn json_row_bytes(
    k: AddressTokenId,
    v: HistoryValue,
    am: Map<Seq<u8>, Seq<u8>>,
) -> Seq<u8> {
    "{\"id\":".spec_bytes() + dec_bytes(k.id as int) + ",\"address\":\"".spec_bytes() + addr_disp(
        am,
        k.address@,
    ) + "\",\"tick\":\"".spec_bytes() + k.token@ + "\",\"height\":".spec_bytes() + dec_bytes(
        v.height as int,
    ) + json_action_bytes(v.action, am) + "}".spec_bytes()
}

/// All rows of one block, concatenated in order.
pub open spec fn json_rows_bytes(
    rows: Seq<(AddressTokenId, HistoryValue)>,
    am: Map<Seq<u8>, Seq<u8>>,
) -> Seq<u8>
    decreases rows.len(),
{
    if rows.len() == 0 {
        Seq::empty()
    } else {
        json_rows_bytes(rows.drop_last(), am) + json_row_bytes(
            rows.last().0,
            rows.last().1,
            am,
        )
    }
}

/// A block's own contribution: the digest of its rows, or the seed digest
/// for a block with no rows.
pub open spec fn block_part_spec(
    rows: Seq<(AddressTokenId, HistoryValue)>,
    am: Map<Seq<u8>, Seq<u8>>,
) -> Seq<u8> {
    if rows.len() == 0 {
        default_hash_spec()
    } else {
        sha256_of(json_rows_bytes(rows, am))
    }
}

/// The next proof-of-history link.
pub open spec fn poh_next_spec(
    prev: Seq<u8>,
    rows: Seq<(AddressTokenId, HistoryValue)>,
    am: Map<Seq<u8>, Seq<u8>>,
) -> Seq<u8> {
    sha256_of(prev + block_part_spec(rows, am))
}

/// Append the bytes of an ASCII literal.
fn push_lit(out: &mut Vec<u8>, s: &str)
    ensures
        final(out)@ == old(out)@ + s.spec_bytes(),
{
    let bytes = s.as_bytes();
    let n = bytes.len();
    let mut i: usize = 0;
    while i < n
        invariant
            0 <= i <= n,
            n == bytes@.len(),
            bytes@ == s.spec_bytes(),
            out@ == old(out)@ + bytes@.take(i as int),
        decreases n - i,
    {
        out.push(bytes[i]);
        proof {
            assert(out@ =~= old(out)@ + bytes@.take(i + 1));
        }
        i = i + 1;
    }
    proof {
        assert(bytes@.take(n as int) =~= bytes@);
    }
}

/// Append the decimal digits of a number.
fn push_dec_u128(out: &mut Vec<u8>, n: u128)
    ensures
        final(out)@ == old(out)@ + dec_bytes(n as int),
    decreases n,
{
    if n < 10 {
        out.push(48 + n as u8);
        proof {
            assert(final(out)@ =~= old(out)@ + dec_bytes(n as int));
        }
    } else {
        push_dec_u128(out, n / 10);
        out.push(48 + (n % 10) as u8);
        proof {
            assert(final(out)@ =~= old(out)@ + dec_bytes(n as int));
        }
    }
}

fn push_dec_u64(out: &mut Vec<u8>, n: u64)
    ensures
        final(out)@ == old(out)@ + dec_bytes(n as int),
{
    push_dec_u128(out, n as u128);
}

/// Append exactly `width` decimal digits of `v`, zero padded.
fn push_padded(out: &mut Vec<u8>, v: u128, width: u8)
    ensures
        final(out)@ == old(out)@ + pad_digits(v as int, width as nat),
    decreases width,
{
    if width > 0 {
        push_padded(out, v / 10, width - 1);
        out.push(48 + (v % 10) as u8);
        proof {
            assert(final(out)@ =~= old(out)@ + pad_digits(v as int, width as nat));
        }
    } else {
        proof {
            assert(final(out)@ =~= old(out)@ + pad_digits(v as int, 0));
        }
    }
}

/// Append the canonical decimal text of an amount.
fn push_fixed_dec(out: &mut Vec<u8>, a: Fixed128)
    ensures
        final(out)@ == old(out)@ + fixed_dec_bytes(a),
{
    let whole = a.units / UNITS_PER_TOKEN;
    let frac = a.units % UNITS_PER_TOKEN;
    push_dec_u128(out, whole);
    if frac != 0 {
        out.push(46);
        let sc = Fixed128 { units: frac }.scale();
        let ghost scg = scale_of(frac as int, 18);
        proof {
            lemma_scale_range(frac as int, 18);
        }
        let divisor = pow10_small(18 - sc);
        push_padded(out, frac / divisor, sc);
        proof {
            assert(final(out)@ =~= old(out)@ + fixed_dec_bytes(a));
        }
    }
}

proof fn lemma_scale_range(u: int, d: int)
    requires
        0 <= u,
        0 <= d,
    ensures
        0 <= scale_of(u, d) <= d,
    decreases d,
{
    if !(d <= 0 || u % 10 != 0) {
        lemma_scale_range(u / 10, d - 1);
    }
}

/// Exec power of ten for splitting fractional digits.
fn pow10_small(k: u8) -> (r: u128)
    requires
        k <= 18,
    ensures
        r as int == pow10(k as nat),
        r >= 1,
{
    let mut r: u128 = 1;
    let mut i: u8 = 0;
    while i < k
        invariant
            0 <= i <= k <= 18,
            r as int == pow10(i as nat),
            r >= 1,
        decreases k - i,
    {
        proof {
            crate::fixed::lemma_pow10_mono((i + 1) as nat, 18);
            crate::fixed::lemma_pow10_18();
        }
        r = r * 10;
        i = i + 1;
    }
    r
}

/// Append the display text of an address hash.
fn push_addr(out: &mut Vec<u8>, addrs: &VecMap<FullHash, Vec<u8>>, hash: &FullHash)
    ensures
        final(out)@ == old(out)@ + addr_disp(disp_map(addrs@), hash@),
{
    if hash.is_op_return_hash() {
        push_lit(out, "BURNED");
    } else {
        match addrs.get(hash) {
            Some(s) => {
                let copy = crate::types::bytes_clone(s.as_slice());
                let n = copy.len();
                let mut i: usize = 0;
                while i < n
                    invariant
                        0 <= i <= n,
                        n == copy@.len(),
                        out@ == old(out)@ + copy@.take(i as int),
                    decreases n - i,
                {
                    out.push(copy[i]);
                    proof {
                        assert(out@ =~= old(out)@ + copy@.take(i + 1));
                    }
                    i = i + 1;
                }
                proof {
                    assert(copy@.take(n as int) =~= copy@);
                }
            },
            None => {
                push_lit(out, "non-standard");
            },
        }
    }
}

/// Append the canonical reversed-hex text of a transaction id.
fn push_txid(out: &mut Vec<u8>, txid: &TxidN)
    ensures
        final(out)@ == old(out)@ + txid_text(*txid),
{
    let mut rev: Vec<u8> = Vec::new();
    let mut i: usize = 0;
    while i < 32
        invariant
            0 <= i <= 32,
            txid@.len() == 32,
            rev@ == rev_bytes(txid@).take(i as int),
        decreases 32 - i,
    {
        rev.push(txid.0[31 - i]);
        proof {
            assert(rev@ =~= rev_bytes(txid@).take(i + 1));
        }
        i = i + 1;
    }
    proof {
        assert(rev_bytes(txid@).take(32) =~= rev_bytes(txid@));
    }
    let hexed = hex_encode(rev.as_slice());
    let n = hexed.len();
    let mut j: usize = 0;
    while j < n
        invariant
            0 <= j <= n,
            n == hexed@.len(),
            hexed@ == txid_text(*txid),
            out@ == old(out)@ + hexed@.take(j as int),
        decreases n - j,
    {
        out.push(hexed[j]);
        proof {
            assert(out@ =~= old(out)@ + hexed@.take(j + 1));
        }
        j = j + 1;
    }
    proof {
        assert(hexed@.take(n as int) =~= hexed@);
    }
}

/// Append one serialized row.
/// Append the action fields of one row.
#[verifier::rlimit(100)]
fn push_action(out: &mut Vec<u8>, action: &TokenHistoryDB, addrs: &VecMap<FullHash, Vec<u8>>)
    ensures
        final(out)@ == old(out)@ + json_action_bytes(*action, disp_map(addrs@)),
{
    match *action {
        TokenHistoryDB::Deploy { max, lim, dec, txid, vout } => {
            push_lit(out, ",\"type\":\"Deploy\",\"max\":\"");
            push_fixed_dec(out, max);
            push_lit(out, "\",\"lim\":\"");
            push_fixed_dec(out, lim);
            push_lit(out, "\",\"dec\":");
            push_dec_u64(out, dec as u64);
            push_lit(out, ",\"txid\":\"");
            push_txid(out, &txid);
            push_lit(out, "\",\"vout\":");
            push_dec_u64(out, vout as u64);
        },
        TokenHistoryDB::Mint { amt, txid, vout } => {
            push_lit(out, ",\"type\":\"Mint\",\"amt\":\"");
            push_fixed_dec(out, amt);
            push_lit(out, "\",\"txid\":\"");
            push_txid(out, &txid);
            push_lit(out, "\",\"vout\":");
            push_dec_u64(out, vout as u64);
        },
        TokenHistoryDB::DeployTransfer { amt, txid, vout } => {
            push_lit(out, ",\"type\":\"DeployTransfer\",\"amt\":\"");
            push_fixed_dec(out, amt);
            push_lit(out, "\",\"txid\":\"");
            push_txid(out, &txid);
            push_lit(out, "\",\"vout\":");
            push_dec_u64(out, vout as u64);
        },
        TokenHistoryDB::Send { amt, recipient, txid, vout } => {
            push_lit(out, ",\"type\":\"Send\",\"amt\":\"");
            push_fixed_dec(out, amt);
            push_lit(out, "\",\"recipient\":\"");
            push_addr(out, addrs, &recipient);
            push_lit(out, "\",\"txid\":\"");
            push_txid(out, &txid);
            push_lit(out, "\",\"vout\":");
            push_dec_u64(out, vout as u64);
        },
        TokenHistoryDB::Receive { amt, sender, txid, vout } => {
            push_lit(out, ",\"type\":\"Receive\",\"amt\":\"");
            push_fixed_dec(out, amt);
            push_lit(out, "\",\"sender\":\"");
            push_addr(out, addrs, &sender);
            push_lit(out, "\",\"txid\":\"");
            push_txid(out, &txid);
            push_lit(out, "\",\"vout\":");
            push_dec_u64(out, vout as u64);
        },
        TokenHistoryDB::SendReceive { amt, txid, vout } => {
            push_lit(out, ",\"type\":\"SendReceive\",\"amt\":\"");
            push_fixed_dec(out, amt);
            push_lit(out, "\",\"txid\":\"");
            push_txid(out, &txid);
            push_lit(out, "\",\"vout\":");
            push_dec_u64(out, vout as u64);
        },
    }
    proof {
        assert(final(out)@ =~= old(out)@ + json_action_bytes(*action, disp_map(addrs@)));
    }
}

/// Append one serialized row.
#[verifier::rlimit(100)]
fn push_row(
    out: &mut Vec<u8>,
    k: &AddressTokenId,
    v: &HistoryValue,
    addrs: &VecMap<FullHash, Vec<u8>>,
)
    ensures
        final(out)@ == old(out)@ + json_row_bytes(*k, *v, disp_map(addrs@)),
{
    let ghost header = "{\"id\":".spec_bytes() + dec_bytes(k.id as int)
        + ",\"address\":\"".spec_bytes() + addr_disp(disp_map(addrs@), k.address@)
        + "\",\"tick\":\"".spec_bytes() + k.token@ + "\",\"height\":".spec_bytes()
        + dec_bytes(v.height as int);
    push_lit(out, "{\"id\":");
    push_dec_u64(out, k.id);
    push_lit(out, ",\"address\":\"");
    push_addr(out, addrs, &k.address);
    push_lit(out, "\",\"tick\":\"");
    out.push(k.token.0[0]);
    out.push(k.token.0[1]);
    out.push(k.token.0[2]);
    out.push(k.token.0[3]);
    push_lit(out, "\",\"height\":");
    push_dec_u64(out, v.height as u64);
    proof {
        assert(k.token@ =~= seq![k.token.0[0], k.token.0[1], k.token.0[2], k.token.0[3]]);
        assert(out@ =~= old(out)@ + header);
    }
    push_action(out, &v.action, addrs);
    proof {
        assert(out@ =~= old(out)@ + (header + json_action_bytes(v.action, disp_map(addrs@))));
    }
    push_lit(out, "}");
    proof {
        assert(final(out)@ =~= old(out)@ + json_row_bytes(*k, *v, disp_map(addrs@)));
    }
}

/// Serialize a block's rows in id order.
pub fn serialize_history_rows(
    rows: &Vec<(AddressTokenId, HistoryValue)>,
    addrs: &VecMap<FullHash, Vec<u8>>,
) -> (r: Vec<u8>)
    ensures
        r@ == json_rows_bytes(rows@, disp_map(addrs@)),
{
    let mut out: Vec<u8> = Vec::new();
    let n = rows.len();
    let mut i: usize = 0;
    while i < n
        invariant
            0 <= i <= n,
            n == rows@.len(),
            out@ == json_rows_bytes(rows@.take(i as int), disp_map(addrs@)),
        decreases n - i,
    {
        proof {
            assert(rows@.take(i + 1).drop_last() =~= rows@.take(i as int));
            assert(rows@.take(i + 1).last() == rows@[i as int]);
        }
        let entry = &rows[i];
        push_row(&mut out, &entry.0, &entry.1, addrs);
        proof {
            assert(out@ =~= json_rows_bytes(rows@.take(i + 1), disp_map(addrs@)));
        }
        i = i + 1;
    }
    proof {
        assert(rows@.take(n as int) =~= rows@);
    }
    out
}

/// Fold one block into the proof-of-history chain.
pub fn generate_history_hash(
    prev: &[u8; 32],
    rows: &Vec<(AddressTokenId, HistoryValue)>,
    addrs: &VecMap<FullHash, Vec<u8>>,
) -> (r: [u8; 32])
    ensures
        r@ == poh_next_spec(prev@, rows@, disp_map(addrs@)),
{
    let part: [u8; 32] = if rows.len() == 0 {
        default_poh_hash()
    } else {
        let bytes = serialize_history_rows(rows, addrs);
        crate::hashing::sha256_arr(bytes.as_slice())
    };
    let mut joined: Vec<u8> = Vec::new();
    let mut i: usize = 0;
    while i < 32
        invariant
            0 <= i <= 32,
            prev@.len() == 32,
            joined@ == prev@.take(i as int),
        decreases 32 - i,
    {
        joined.push(prev[i]);
        proof {
            assert(joined@ =~= prev@.take(i + 1));
        }
        i = i + 1;
    }
    proof {
        assert(prev@.take(32) =~= prev@);
    }
    let mut j: usize = 0;
    while j < 32
        invariant
            0 <= j <= 32,
            part@.len() == 32,
            joined@ == prev@ + part@.take(j as int),
        decreases 32 - j,
    {
        joined.push(part[j]);
        proof {
            assert(joined@ =~= prev@ + part@.take(j + 1));
        }
        j = j + 1;
    }
    proof {
        assert(prev@ + part@.take(32) =~= prev@ + part@);
        assert(joined@ =~= prev@ + part@);
    }
    crate::hashing::sha256_arr(joined.as_slice())
}

} // verus!
