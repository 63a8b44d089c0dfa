//! Identifier types of the indexer: script hashes, tickers, outpoints,
//! locations, and the composite keys of the persisted tables.

use vstd::prelude::*;
use crate::vecmap::MapKey;

verus! {

/// Byte-for-byte equality of two slices.
pub fn bytes_eq(a: &[u8], b: &[u8]) -> (r: bool)
    ensures
        r == (a@ == b@),
{
    if a.len() != b.len() {
        proof {
            assert(a@ != b@) by {
                assert(a@.len() != b@.len());
            }
        }
        return false;
    }
    let n = a.len();
    let mut i: usize = 0;
    while i < n
        invariant
            0 <= i <= n,
            n == a@.len() == b@.len(),
            forall|j: int| 0 <= j < i ==> a@[j] == b@[j],
        decreases n - i,
    {
        if a[i] != b[i] {
            return false;
        }
        i = i + 1;
    }
    proof {
        assert(a@ =~= b@);
    }
    true
}

/// An owned copy of a byte slice.
pub fn bytes_clone(v: &[u8]) -> (r: Vec<u8>)
    ensures
        r@ == v@,
{
    let n = v.len();
    let mut out: Vec<u8> = Vec::new();
    let mut i: usize = 0;
    while i < n
        invariant
            0 <= i <= n,
            n == v@.len(),
            out@ == v@.take(i as int),
        decreases n - i,
    {
        out.push(v[i]);
        proof {
            assert(out@ =~= v@.take(i + 1));
        }
        i = i + 1;
    }
    proof {
        assert(v@.take(n as int) =~= v@);
    }
    out
}

pub open spec fn ascii_lower(b: u8) -> u8 {
    if 65 <= b <= 90 {
        (b + 32) as u8
    } else {
        b
    }
}

/// The ASCII-lowercase image of a byte string.
pub open spec fn lower_seq(s: Seq<u8>) -> Seq<u8> {
    Seq::new(s.len(), |i: int| ascii_lower(s[i]))
}

/// The canonical 32-byte script hash standing for an address.
#[derive(Clone, Copy, Debug, PartialEq, Eq, Hash)]
pub struct FullHash(pub [u8; 32]);

impl View for FullHash {
    type V = Seq<u8>;

    open spec fn view(&self) -> Seq<u8> {
        self.0@
    }
}

impl MapKey for FullHash {
    fn key_eq(&self, other: &Self) -> (r: bool)
        ensures
            r == (self@ == other@),
    {
        bytes_eq(self.0.as_slice(), other.0.as_slice())
    }

    fn key_clone(&self) -> (r: Self)
        ensures
            r@ == self@,
    {
        *self
    }
}

/// A transaction id as raw bytes.
#[derive(Clone, Copy, Debug, PartialEq, Eq, Hash)]
pub struct TxidN(pub [u8; 32]);

impl View for TxidN {
    type V = Seq<u8>;

    open spec fn view(&self) -> Seq<u8> {
        self.0@
    }
}

impl TxidN {
    pub fn eq_txid(&self, other: &Self) -> (r: bool)
        ensures
            r == (self@ == other@),
    {
        bytes_eq(self.0.as_slice(), other.0.as_slice())
    }
}

/// The 4-byte ticker exactly as the envelope carried it.
#[derive(Clone, Copy, Debug, PartialEq, Eq, Hash)]
pub struct TokenTick(pub [u8; 4]);

impl View for TokenTick {
    type V = Seq<u8>;

    open spec fn view(&self) -> Seq<u8> {
        self.0@
    }
}

impl TokenTick {
    /// The case-insensitive lookup key of this ticker.
    pub fn to_lowercase(&self) -> (r: LowerCaseTick)
        ensures
            r@ == lower_seq(self@),
    {
        let mut out: Vec<u8> = Vec::new();
        let mut i: usize = 0;
        while i < 4
            invariant
                0 <= i <= 4,
                self@.len() == 4,
                out@ == lower_seq(self@).take(i as int),
            decreases 4 - i,
        {
            let b = self.0[i];
            let lb = if 65 <= b && b <= 90 {
                b + 32
            } else {
                b
            };
            out.push(lb);
            proof {
                assert(out@ =~= lower_seq(self@).take(i + 1));
            }
            i = i + 1;
        }
        proof {
            assert(lower_seq(self@).take(4) =~= lower_seq(self@));
        }
        LowerCaseTick(out)
    }
}

impl MapKey for TokenTick {
    fn key_eq(&self, other: &Self) -> (r: bool)
        ensures
            r == (self@ == other@),
    {
        bytes_eq(self.0.as_slice(), other.0.as_slice())
    }

    fn key_clone(&self) -> (r: Self)
        ensures
            r@ == self@,
    {
        *self
    }
}

/// A ticker lowered to its canonical lookup form.
#[derive(Clone, Debug, PartialEq, Eq, Hash)]
pub struct LowerCaseTick(pub Vec<u8>);

impl View for LowerCaseTick {
    type V = Seq<u8>;

    open spec fn view(&self) -> Seq<u8> {
        self.0@
    }
}

impl LowerCaseTick {
    /// Lower arbitrary ticker bytes into the canonical key.
    pub fn of_bytes(v: &[u8]) -> (r: Self)
        ensures
            r@ == lower_seq(v@),
    {
        let n = v.len();
        let mut out: Vec<u8> = Vec::new();
        let mut i: usize = 0;
        while i < n
            invariant
                0 <= i <= n,
                n == v@.len(),
                out@ == lower_seq(v@).take(i as int),
            decreases n - i,
        {
            let b = v[i];
            let lb = if 65 <= b && b <= 90 {
                b + 32
            } else {
                b
            };
            out.push(lb);
            proof {
                assert(out@ =~= lower_seq(v@).take(i + 1));
            }
            i = i + 1;
        }
        proof {
            assert(lower_seq(v@).take(n as int) =~= lower_seq(v@));
        }
        LowerCaseTick(out)
    }
}

impl MapKey for LowerCaseTick {
    fn key_eq(&self, other: &Self) -> (r: bool)
        ensures
            r == (self@ == other@),
    {
        bytes_eq(self.0.as_slice(), other.0.as_slice())
    }

    fn key_clone(&self) -> (r: Self)
        ensures
            r@ == self@,
    {
        LowerCaseTick(bytes_clone(self.0.as_slice()))
    }
}

/// A transaction output reference.
#[derive(Clone, Copy, Debug, PartialEq, Eq, Hash)]
pub struct Outpoint {
    pub txid: [u8; 32],
    pub vout: u32,
}

impl View for Outpoint {
    type V = (Seq<u8>, u32);

    open spec fn view(&self) -> (Seq<u8>, u32) {
        (self.txid@, self.vout)
    }
}

impl MapKey for Outpoint {
    fn key_eq(&self, other: &Self) -> (r: bool)
        ensures
            r == (self@ == other@),
    {
        bytes_eq(self.txid.as_slice(), other.txid.as_slice()) && self.vout == other.vout
    }

    fn key_clone(&self) -> (r: Self)
        ensures
            r@ == self@,
    {
        *self
    }
}

/// A satoshi position: an outpoint plus the offset inside it.
#[derive(Clone, Copy, Debug, PartialEq, Eq, Hash)]
pub struct HistoryLocation {
    pub offset: u64,
    pub outpoint: Outpoint,
}

impl View for HistoryLocation {
    type V = (Seq<u8>, u32, u64);

    open spec fn view(&self) -> (Seq<u8>, u32, u64) {
        (self.outpoint.txid@, self.outpoint.vout, self.offset)
    }
}

impl MapKey for HistoryLocation {
    fn key_eq(&self, other: &Self) -> (r: bool)
        ensures
            r == (self@ == other@),
    {
        self.outpoint.key_eq(&other.outpoint) && self.offset == other.offset
    }

    fn key_clone(&self) -> (r: Self)
        ensures
            r@ == self@,
    {
        *self
    }
}

/// Where an inscription was created: its genesis transaction and index.
#[derive(Clone, Copy, Debug, PartialEq, Eq, Hash)]
pub struct InscriptionId {
    pub txid: TxidN,
    pub index: u32,
}

impl View for InscriptionId {
    type V = (Seq<u8>, u32);

    open spec fn view(&self) -> (Seq<u8>, u32) {
        (self.txid@, self.index)
    }
}

/// A balance key: owner script hash and lowercase ticker.
#[derive(Clone, Debug, PartialEq, Eq, Hash)]
pub struct AddressToken {
    pub address: FullHash,
    pub token: LowerCaseTick,
}

impl View for AddressToken {
    type V = (Seq<u8>, Seq<u8>);

    open spec fn view(&self) -> (Seq<u8>, Seq<u8>) {
        (self.address@, self.token@)
    }
}

impl AddressToken {
    /// Inclusive key bounds that cover every ticker of one address.
    pub fn search(address: FullHash) -> (r: (AddressToken, AddressToken))
        ensures
            r.0@ == (address@, seq![0u8, 0u8, 0u8, 0u8]),
            r.1@ == (address@, seq![255u8, 255u8, 255u8, 255u8]),
    {
        let start = AddressToken { address, token: LowerCaseTick(vec![0u8, 0u8, 0u8, 0u8]) };
        let end = AddressToken {
            address,
            token: LowerCaseTick(vec![255u8, 255u8, 255u8, 255u8]),
        };
        proof {
            assert(start.token@ =~= seq![0u8, 0u8, 0u8, 0u8]);
            assert(end.token@ =~= seq![255u8, 255u8, 255u8, 255u8]);
        }
        (start, end)
    }
}

impl MapKey for AddressToken {
    fn key_eq(&self, other: &Self) -> (r: bool)
        ensures
            r == (self@ == other@),
    {
        self.address.key_eq(&other.address) && self.token.key_eq(&other.token)
    }

    fn key_clone(&self) -> (r: Self)
        ensures
            r@ == self@,
    {
        AddressToken { address: self.address, token: self.token.key_clone() }
    }
}

/// A history row key: owner, original-case ticker and the global row id.
#[derive(Clone, Copy, Debug, PartialEq, Eq, Hash)]
pub struct AddressTokenId {
    pub address: FullHash,
    pub token: TokenTick,
    pub id: u64,
}

impl View for AddressTokenId {
    type V = (Seq<u8>, Seq<u8>, u64);

    open spec fn view(&self) -> (Seq<u8>, Seq<u8>, u64) {
        (self.address@, self.token@, self.id)
    }
}

impl MapKey for AddressTokenId {
    fn key_eq(&self, other: &Self) -> (r: bool)
        ensures
            r == (self@ == other@),
    {
        self.address.key_eq(&other.address) && self.token.key_eq(&other.token) && self.id
            == other.id
    }

    fn key_clone(&self) -> (r: Self)
        ensures
            r@ == self@,
    {
        *self
    }
}

/// An active-transfer key: owner script hash and the sat location.
#[derive(Clone, Copy, Debug, PartialEq, Eq, Hash)]
pub struct AddressLocation {
    pub address: FullHash,
    pub location: HistoryLocation,
}

impl View for AddressLocation {
    type V = (Seq<u8>, (Seq<u8>, u32, u64));

    open spec fn view(&self) -> (Seq<u8>, (Seq<u8>, u32, u64)) {
        (self.address@, self.location@)
    }
}

impl MapKey for AddressLocation {
    fn key_eq(&self, other: &Self) -> (r: bool)
        ensures
            r == (self@ == other@),
    {
        self.address.key_eq(&other.address) && self.location.key_eq(&other.location)
    }

    fn key_clone(&self) -> (r: Self)
        ensures
            r@ == self@,
    {
        *self
    }
}

/// A transaction output: its value in sats and its locking script.
#[derive(Clone, Debug, PartialEq, Eq)]
pub struct TxOut {
    pub value: u64,
    pub script_pubkey: Vec<u8>,
}

impl View for TxOut {
    type V = (u64, Seq<u8>);

    open spec fn view(&self) -> (u64, Seq<u8>) {
        (self.value, self.script_pubkey@)
    }
}

impl TxOut {
    pub fn clone_out(&self) -> (r: Self)
        ensures
            r@ == self@,
    {
        TxOut { value: self.value, script_pubkey: bytes_clone(self.script_pubkey.as_slice()) }
    }
}

impl MapKey for u32 {
    fn key_eq(&self, other: &Self) -> (r: bool)
        ensures
            r == (self@ == other@),
    {
        *self == *other
    }

    fn key_clone(&self) -> (r: Self)
        ensures
            r@ == self@,
    {
        *self
    }
}

impl MapKey for u64 {
    fn key_eq(&self, other: &Self) -> (r: bool)
        ensures
            r == (self@ == other@),
    {
        *self == *other
    }

    fn key_clone(&self) -> (r: Self)
        ensures
            r@ == self@,
    {
        *self
    }
}

} // verus!
