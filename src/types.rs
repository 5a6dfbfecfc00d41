use vstd::prelude::*;

verus! {

broadcast use vstd::array::group_array_axioms;

/// A 32-byte double-SHA256 digest: a transaction id or a block hash.
#[derive(Clone, Copy, Debug, PartialEq, Eq, Hash)]
pub struct Hash256 {
    pub bytes: [u8; 32],
}

/// Compares two digests byte by byte.
pub fn same_hash(a: &Hash256, b: &Hash256) -> (r: bool)
    ensures
        r == (*a == *b),
{
    let mut i: usize = 0;
    while i < 32
        invariant
            i <= 32,
            forall|j: int| 0 <= j < i ==> a.bytes[j] == b.bytes[j],
        decreases 32 - i,
    {
        if a.bytes[i] != b.bytes[i] {
            return false;
        }
        i = i + 1;
    }
    assert(a.bytes =~= b.bytes);
    true
}

/// Identifies a transaction output: the id of its transaction and its index there.
#[derive(Clone, Copy, Debug, PartialEq, Eq, Hash)]
pub struct OutPoint {
    pub txid: Hash256,
    pub vout: u32,
}

/// Compares two output references by value.
pub fn same_point(a: &OutPoint, b: &OutPoint) -> (r: bool)
    ensures
        r == (*a == *b),
{
    a.vout == b.vout && same_hash(&a.txid, &b.txid)
}

/// Compares two byte strings.
pub fn same_bytes(a: &Vec<u8>, b: &Vec<u8>) -> (r: bool)
    ensures
        r == (a@ == b@),
{
    if a.len() != b.len() {
        return false;
    }
    let mut i: usize = 0;
    while i < a.len()
        invariant
            i <= a.len(),
            a.len() == b.len(),
            forall|j: int| 0 <= j < i ==> a@[j] == b@[j],
        decreases a.len() - i,
    {
        if a[i] != b[i] {
            return false;
        }
        i = i + 1;
    }
    assert(a@ =~= b@);
    true
}

/// Copies a byte string.
pub fn copy_bytes(a: &Vec<u8>) -> (r: Vec<u8>)
    ensures
        r@ == a@,
{
    let mut r: Vec<u8> = Vec::new();
    let mut i: usize = 0;
    while i < a.len()
        invariant
            i <= a.len(),
            r@ == a@.take(i as int),
        decreases a.len() - i,
    {
        r.push(a[i]);
        i = i + 1;
        assert(r@ =~= a@.take(i as int));
    }
    assert(a@.take(a.len() as int) =~= a@);
    r
}

/// A transaction output: an amount and the script that locks it.
#[derive(Clone, Debug, PartialEq, Eq, Hash)]
pub struct TxOut {
    pub value: u64,
    pub script_pubkey: Vec<u8>,
}

/// The mathematical value of an output.
pub struct TxOutV {
    pub value: u64,
    pub script_pubkey: Seq<u8>,
}

impl View for TxOut {
    type V = TxOutV;

    open spec fn view(&self) -> TxOutV {
        TxOutV { value: self.value, script_pubkey: self.script_pubkey@ }
    }
}

impl TxOut {
    /// A copy with the same value and script.
    pub fn copy(&self) -> (r: TxOut)
        ensures
            r@ == self@,
    {
        TxOut { value: self.value, script_pubkey: copy_bytes(&self.script_pubkey) }
    }
}

/// Which key owns a script: account, sub-account and key index, with an
/// optional tweak and an optional relative timelock in blocks.
#[derive(Clone, Debug, PartialEq, Eq, Hash)]
pub struct KeyDerivation {
    pub account: u32,
    pub sub: u32,
    pub kix: u32,
    pub tweak: Option<Vec<u8>>,
    pub csv: Option<u16>,
}

/// The mathematical value of a key derivation.
pub struct KeyDerivationV {
    pub account: u32,
    pub sub: u32,
    pub kix: u32,
    pub tweak: Option<Seq<u8>>,
    pub csv: Option<u16>,
}

/// The view of an optional tweak.
pub open spec fn tweak_view(t: Option<Vec<u8>>) -> Option<Seq<u8>> {
    match t {
        Some(v) => Some(v@),
        None => None,
    }
}

impl View for KeyDerivation {
    type V = KeyDerivationV;

    open spec fn view(&self) -> KeyDerivationV {
        KeyDerivationV {
            account: self.account,
            sub: self.sub,
            kix: self.kix,
            tweak: tweak_view(self.tweak),
            csv: self.csv,
        }
    }
}

/// A copy of an optional tweak.
pub fn copy_tweak(t: &Option<Vec<u8>>) -> (r: Option<Vec<u8>>)
    ensures
        tweak_view(r) == tweak_view(*t),
{
    match t {
        Some(v) => Some(copy_bytes(v)),
        None => None,
    }
}

impl KeyDerivation {
    /// A copy with the same fields.
    pub fn copy(&self) -> (r: KeyDerivation)
        ensures
            r@ == self@,
    {
        KeyDerivation {
            account: self.account,
            sub: self.sub,
            kix: self.kix,
            tweak: copy_tweak(&self.tweak),
            csv: self.csv,
        }
    }

    /// The derivation of another key index of the same sub-account, with the same
    /// tweak and timelock.
    pub fn with_kix(&self, kix: u32) -> (r: KeyDerivation)
        ensures
            r@ == (KeyDerivationV { kix, ..self@ }),
    {
        KeyDerivation {
            account: self.account,
            sub: self.sub,
            kix,
            tweak: copy_tweak(&self.tweak),
            csv: self.csv,
        }
    }
}

/// A spendable output owned by the wallet, with the derivation of its key.
#[derive(Clone, Debug, PartialEq, Eq, Hash)]
pub struct Coin {
    pub output: TxOut,
    pub derivation: KeyDerivation,
}

/// The mathematical value of a coin.
pub struct CoinV {
    pub output: TxOutV,
    pub derivation: KeyDerivationV,
}

impl View for Coin {
    type V = CoinV;

    open spec fn view(&self) -> CoinV {
        CoinV { output: self.output@, derivation: self.derivation@ }
    }
}

impl Coin {
    /// A copy with the same output and derivation.
    pub fn copy(&self) -> (r: Coin)
        ensures
            r@ == self@,
    {
        Coin { output: self.output.copy(), derivation: self.derivation.copy() }
    }
}

/// A transaction as the ledger reads it: its id, the outputs its inputs spend,
/// and its outputs in index order.
#[derive(Clone, Debug, PartialEq, Eq, Hash)]
pub struct Transaction {
    pub txid: Hash256,
    pub input: Vec<OutPoint>,
    pub output: Vec<TxOut>,
}

/// A block as the ledger reads it: its hash and its transactions, the coinbase first.
#[derive(Clone, Debug, PartialEq, Eq, Hash)]
pub struct Block {
    pub hash: Hash256,
    pub txdata: Vec<Transaction>,
}

/// Binds a transaction to the block that confirms it, by its position there.
#[derive(Clone, Copy, Debug, PartialEq, Eq, Hash)]
pub struct Proof {
    pub txid: Hash256,
    pub block_hash: Hash256,
    pub position: usize,
}

impl View for Proof {
    type V = Proof;

    open spec fn view(&self) -> Proof {
        *self
    }
}

impl Proof {
    /// The proof of the transaction at `position` in `block`.
    pub fn new(block: &Block, position: usize) -> (r: Proof)
        requires
            position < block.txdata.len(),
        ensures
            r.txid == block.txdata@[position as int].txid,
            r.block_hash == block.hash,
            r.position == position,
    {
        Proof { txid: block.txdata[position].txid, block_hash: block.hash, position }
    }

    /// The id of the proved transaction.
    pub fn get_txid(&self) -> (r: Hash256)
        ensures
            r == self.txid,
    {
        self.txid
    }

    /// The hash of the block the transaction was proved against.
    pub fn get_block_hash(&self) -> (r: Hash256)
        ensures
            r == self.block_hash,
    {
        self.block_hash
    }
}

} // verus!
