use vstd::prelude::*;

use crate::ledger::{Coins, LedgerV};
use crate::types::{copy_bytes, same_bytes, Block, Hash256, Coin, CoinV, KeyDerivation, KeyDerivationV, OutPoint, Proof, Transaction};

verus! {

/// Watched scripts with the derivations of the keys that own them, as a
/// sequence of entries in which later entries stand in place of earlier ones.
pub type WatchedScripts = Seq<(Vec<u8>, KeyDerivation)>;

/// The keys that the wallet watches: the scripts they own, and more of them
/// on request.
pub trait ScriptSource {
    /// The scripts watched now, with the derivations of the keys that own them.
    spec fn watched_scripts(&self) -> WatchedScripts;

    /// Every watched script, with the derivation of the key that owns it.
    fn get_scripts(&self) -> (r: Vec<(Vec<u8>, KeyDerivation)>)
        ensures
            r@ == self.watched_scripts(),
    ;

    /// Watches the keys of sub-account `sub` of `account` past index `kix`, and
    /// returns the key indexes and scripts that are newly watched.
    fn look_ahead(&mut self, account: u32, sub: u32, kix: u32) -> Vec<(u32, Vec<u8>)>;
}

/// The position of the last entry of `scripts` for `script`, if any: later
/// entries stand in place of earlier ones.
pub fn find_script(scripts: &Vec<(Vec<u8>, KeyDerivation)>, script: &Vec<u8>) -> (r: Option<usize>)
    ensures
        match r {
            Some(i) => i < scripts.len() && scripts@[i as int].0@ == script@ && forall|j: int|
                i < j < scripts.len() ==> (#[trigger] scripts@[j]).0@ != script@,
            None => forall|j: int| 0 <= j < scripts.len() ==> (#[trigger] scripts@[j]).0@ != script@,
        },
{
    let mut i: usize = scripts.len();
    while i > 0
        invariant
            i <= scripts.len(),
            forall|j: int| i <= j < scripts.len() ==> (#[trigger] scripts@[j]).0@ != script@,
        decreases i,
    {
        i = i - 1;
        if same_bytes(&scripts[i].0, script) {
            return Some(i);
        }
    }
    None
}

/// Appends the newly watched `found` scripts to `scripts`, each owned by the key
/// of `d`'s sub-account at the index given with it.
pub fn watch(scripts: &mut Vec<(Vec<u8>, KeyDerivation)>, found: &Vec<(u32, Vec<u8>)>, d: &KeyDerivation)
    ensures
        final(scripts)@.len() == old(scripts)@.len() + found@.len(),
        forall|j: int| 0 <= j < old(scripts)@.len() ==> #[trigger] final(scripts)@[j] == old(scripts)@[j],
        forall|k: int|
            0 <= k < found@.len() ==> {
                &&& (#[trigger] final(scripts)@[old(scripts)@.len() + k]).0@ == found@[k].1@
                &&& final(scripts)@[old(scripts)@.len() + k].1@ == (KeyDerivationV { kix: found@[k].0, ..d@ })
            },
{
    let ghost start = scripts@;
    let mut k: usize = 0;
    while k < found.len()
        invariant
            k <= found@.len(),
            scripts@.len() == start.len() + k,
            forall|j: int| 0 <= j < start.len() ==> #[trigger] scripts@[j] == start[j],
            forall|m: int|
                0 <= m < k ==> {
                    &&& (#[trigger] scripts@[start.len() + m]).0@ == found@[m].1@
                    &&& scripts@[start.len() + m].1@ == (KeyDerivationV { kix: found@[m].0, ..d@ })
                },
        decreases found@.len() - k,
    {
        let s = copy_bytes(&found[k].1);
        let dk = d.with_kix(found[k].0);
        scripts.push((s, dk));
        k = k + 1;
    }
}

/// Script `s` is among `scripts`.
pub open spec fn watched(scripts: Seq<(Vec<u8>, KeyDerivation)>, s: Seq<u8>) -> bool {
    exists|j: int| 0 <= j < scripts.len() && (#[trigger] scripts[j]).0@ == s
}

/// Coin `c` at `p` is an output of a transaction of `block`.
pub open spec fn output_in_block(block: Block, p: OutPoint, c: CoinV) -> bool {
    exists|k: int|
        0 <= k < block.txdata.len() && (#[trigger] block.txdata@[k]).txid == p.txid && p.vout
            < block.txdata@[k].output.len() && block.txdata@[k].output@[p.vout as int]@ == c.output
}

/// The output at `v` of the transaction at `k` of `block`.
pub open spec fn out_point(block: Block, k: int, v: int) -> OutPoint {
    OutPoint { txid: block.txdata@[k].txid, vout: v as u32 }
}

/// Some input of a transaction of `block` at a position in `from..to` spends `p`.
pub open spec fn spent_between(block: Block, p: OutPoint, from: int, to: int) -> bool {
    exists|k: int, i: int|
        from <= k < to && 0 <= i < block.txdata@[k].input.len() && #[trigger] block.txdata@[k].input@[i] == p
}

/// Some transaction of `block` at a position in `from..to` has id `t`.
pub open spec fn txid_between(block: Block, t: Hash256, from: int, to: int) -> bool {
    exists|k: int| from <= k < to && (#[trigger] block.txdata@[k]).txid == t
}

/// Every input of a transaction of `block` but the coinbase leaves its output
/// unconfirmed in `v`, unless a transaction at or after it has that output's id.
pub open spec fn block_spends_done(v: LedgerV, block: Block) -> bool {
    forall|k: int, i: int|
        1 <= k < block.txdata.len() && 0 <= i < block.txdata@[k].input.len() && !txid_between(
            block,
            block.txdata@[k].input@[i].txid,
            k,
            block.txdata.len() as int,
        ) ==> !v.confirmed.contains_key(#[trigger] block.txdata@[k].input@[i])
}

/// Every output of `block` to a script of `scripts` is confirmed in `v`,
/// unless a later transaction of `block` spends it.
pub open spec fn block_outputs_found(v: LedgerV, block: Block, scripts: Seq<(Vec<u8>, KeyDerivation)>) -> bool {
    forall|k: int, o: int|
        0 <= k < block.txdata.len() && 0 <= o < block.txdata@[k].output.len() && watched(
            scripts,
            (#[trigger] block.txdata@[k].output@[o]).script_pubkey@,
        ) && !spent_between(block, out_point(block, k, o), k + 1, block.txdata.len() as int)
            ==> v.confirmed.contains_key(out_point(block, k, o))
}

/// Every input of `tx` leaves its output unconfirmed in `v`.
pub open spec fn transaction_spends_done(v: LedgerV, tx: Transaction) -> bool {
    forall|i: int| 0 <= i < tx.input.len() ==> !v.confirmed.contains_key(#[trigger] tx.input@[i])
}

/// Every output of `tx` to a script of `scripts` is, in `v`, confirmed or
/// unconfirmed with that output.
pub open spec fn transaction_outputs_found(v: LedgerV, tx: Transaction, scripts: Seq<(Vec<u8>, KeyDerivation)>) -> bool {
    forall|o: int|
        0 <= o < tx.output.len() && watched(scripts, (#[trigger] tx.output@[o]).script_pubkey@) ==> {
            let p = OutPoint { txid: tx.txid, vout: o as u32 };
            ||| v.confirmed.contains_key(p)
            ||| v.unconfirmed.contains_key(p) && v.unconfirmed[p].output == tx.output@[o]@
        }
}

/// Some input of a transaction of `block` but the coinbase spends a coin
/// confirmed in `o`.
pub open spec fn block_spends_some(o: LedgerV, block: Block) -> bool {
    exists|k: int, j: int|
        1 <= k < block.txdata.len() && 0 <= j < block.txdata@[k].input.len() && o.confirmed.contains_key(
            #[trigger] block.txdata@[k].input@[j],
        )
}

/// Some output of `block` pays a script of `scripts`.
pub open spec fn block_pays_some(block: Block, scripts: Seq<(Vec<u8>, KeyDerivation)>) -> bool {
    exists|k: int, v: int|
        0 <= k < block.txdata.len() && 0 <= v < block.txdata@[k].output.len() && watched(
            scripts,
            (#[trigger] block.txdata@[k].output@[v]).script_pubkey@,
        )
}

/// Some input of `tx` spends a coin confirmed in `o`.
pub open spec fn transaction_spends_some(o: LedgerV, tx: Transaction) -> bool {
    exists|j: int| 0 <= j < tx.input.len() && o.confirmed.contains_key(#[trigger] tx.input@[j])
}

/// Some output of `tx` pays a script of `scripts`.
pub open spec fn transaction_pays_some(tx: Transaction, scripts: Seq<(Vec<u8>, KeyDerivation)>) -> bool {
    exists|v: int| 0 <= v < tx.output.len() && watched(scripts, (#[trigger] tx.output@[v]).script_pubkey@)
}

/// What scanning `block` may change from `o` to `v`: coins are confirmed only
/// from its outputs, proofs are added only against it, confirmed coins leave
/// only when an input of a transaction but the coinbase spends them, and
/// unconfirmed coins only leave, and only when they are outputs of its
/// transactions.
pub open spec fn block_scan(o: LedgerV, v: LedgerV, block: Block) -> bool {
    &&& forall|p: OutPoint| #[trigger] v.confirmed.contains_key(p) ==>
        (o.confirmed.contains_key(p) && v.confirmed[p] == o.confirmed[p])
            || output_in_block(block, p, v.confirmed[p])
    &&& forall|p: OutPoint| #[trigger] v.unconfirmed.contains_key(p) ==>
        o.unconfirmed.contains_key(p) && v.unconfirmed[p] == o.unconfirmed[p]
    &&& forall|t| #[trigger] v.proofs.contains_key(t) ==>
        (o.proofs.contains_key(t) && v.proofs[t] == o.proofs[t]) || v.proofs[t].block_hash == block.hash
    &&& forall|p: OutPoint| #[trigger] o.confirmed.contains_key(p) && !v.confirmed.contains_key(p)
        ==> spent_between(block, p, 1, block.txdata.len() as int)
    &&& forall|p: OutPoint| #[trigger] o.unconfirmed.contains_key(p) && !v.unconfirmed.contains_key(p)
        ==> txid_between(block, p.txid, 0, block.txdata.len() as int)
}

/// What scanning unconfirmed transaction `tx` may change from `o` to `v`:
/// confirmed coins and proofs only leave, confirmed coins only when an input
/// of `tx` spends them; unconfirmed coins stay, and are added or replaced only
/// from its outputs.
pub open spec fn transaction_scan(o: LedgerV, v: LedgerV, tx: Transaction) -> bool {
    &&& forall|p: OutPoint| #[trigger] v.confirmed.contains_key(p) ==>
        o.confirmed.contains_key(p) && v.confirmed[p] == o.confirmed[p]
    &&& forall|t| #[trigger] v.proofs.contains_key(t) ==>
        o.proofs.contains_key(t) && v.proofs[t] == o.proofs[t]
    &&& forall|p: OutPoint| #[trigger] v.unconfirmed.contains_key(p) ==>
        (o.unconfirmed.contains_key(p) && v.unconfirmed[p] == o.unconfirmed[p]) || (p.txid == tx.txid
            && p.vout < tx.output.len() && tx.output@[p.vout as int]@ == v.unconfirmed[p].output)
    &&& forall|p: OutPoint| #[trigger] o.confirmed.contains_key(p) && !v.confirmed.contains_key(p)
        ==> tx.input@.contains(p)
    &&& forall|p: OutPoint| #[trigger] o.unconfirmed.contains_key(p) ==> v.unconfirmed.contains_key(p)
}

impl Coins {
    /// Scans `block` with `scripts` as the watched scripts to begin with: the
    /// inputs of every transaction but the first (the coinbase) spend confirmed
    /// coins, and each output to a watched script becomes a confirmed coin, with
    /// a proof of its transaction against `block` unless one is there already;
    /// after each such output `source` watches keys past the one that matched,
    /// and its new scripts are watched for the rest of the scan. Returns true
    /// when an input spent a confirmed coin or an output matched, and false only
    /// when the ledger is unchanged.
    pub fn process_with<W: ScriptSource>(
        &mut self,
        source: &mut W,
        scripts: Vec<(Vec<u8>, KeyDerivation)>,
        block: &Block,
    ) -> (r: bool)
        requires
            old(self).wf(),
            forall|k: int|
                0 <= k < block.txdata.len() ==> (#[trigger] block.txdata@[k]).output.len() <= u32::MAX,
        ensures
            final(self).wf(),
            !r ==> final(self)@ == old(self)@,
            block_scan(old(self)@, final(self)@, *block),
            block_spends_done(final(self)@, *block),
            block_outputs_found(final(self)@, *block, scripts@),
            block_spends_some(old(self)@, *block) || block_pays_some(*block, scripts@) ==> r,
    {
        let ghost o = self@;
        let ghost init = scripts@;
        let ghost n = block.txdata.len() as int;
        let mut scripts = scripts;
        let mut modified = false;
        let mut txnr: usize = 0;
        while txnr < block.txdata.len()
            invariant
                self.wf(),
                n == block.txdata.len(),
                txnr <= n,
                forall|k: int|
                    0 <= k < block.txdata.len() ==> (#[trigger] block.txdata@[k]).output.len() <= u32::MAX,
                !modified ==> self@ == o,
                block_scan(o, self@, *block),
                scripts@.len() >= init.len(),
                forall|j: int| 0 <= j < init.len() ==> #[trigger] scripts@[j] == init[j],
                forall|k: int, i: int|
                    1 <= k < txnr && 0 <= i < block.txdata@[k].input.len() && !txid_between(
                        *block,
                        block.txdata@[k].input@[i].txid,
                        k,
                        txnr as int,
                    ) ==> !self@.confirmed.contains_key(#[trigger] block.txdata@[k].input@[i]),
                forall|k: int, v: int|
                    0 <= k < txnr && 0 <= v < block.txdata@[k].output.len() && watched(
                        init,
                        (#[trigger] block.txdata@[k].output@[v]).script_pubkey@,
                    ) && !spent_between(*block, out_point(*block, k, v), k + 1, txnr as int)
                        ==> self@.confirmed.contains_key(out_point(*block, k, v)),
                forall|k: int, j: int|
                    1 <= k < txnr && 0 <= j < block.txdata@[k].input.len() && o.confirmed.contains_key(
                        #[trigger] block.txdata@[k].input@[j],
                    ) ==> modified,
                forall|k: int, v: int|
                    0 <= k < txnr && 0 <= v < block.txdata@[k].output.len() && watched(
                        init,
                        (#[trigger] block.txdata@[k].output@[v]).script_pubkey@,
                    ) ==> modified,
            decreases block.txdata.len() - txnr,
        {
            let tx = &block.txdata[txnr];
            let ghost t = txnr as int;
            if txnr > 0 {
                let mut i: usize = 0;
                while i < tx.input.len()
                    invariant
                        self.wf(),
                        n == block.txdata.len(),
                        1 <= t < n,
                        *tx == block.txdata@[t],
                        i <= tx.input.len(),
                        !modified ==> self@ == o,
                        block_scan(o, self@, *block),
                        forall|k: int, j: int|
                            1 <= k < t && 0 <= j < block.txdata@[k].input.len() && !txid_between(
                                *block,
                                block.txdata@[k].input@[j].txid,
                                k,
                                t,
                            ) ==> !self@.confirmed.contains_key(#[trigger] block.txdata@[k].input@[j]),
                        forall|j: int| 0 <= j < i ==> !self@.confirmed.contains_key(#[trigger] tx.input@[j]),
                        forall|k: int, v: int|
                            0 <= k < t && 0 <= v < block.txdata@[k].output.len() && watched(
                                init,
                                (#[trigger] block.txdata@[k].output@[v]).script_pubkey@,
                            ) && !spent_between(*block, out_point(*block, k, v), k + 1, t) && (forall|j: int|
                                0 <= j < i ==> tx.input@[j] != out_point(*block, k, v))
                                ==> self@.confirmed.contains_key(out_point(*block, k, v)),
                        forall|k: int, j: int|
                            1 <= k < t && 0 <= j < block.txdata@[k].input.len() && o.confirmed.contains_key(
                                #[trigger] block.txdata@[k].input@[j],
                            ) ==> modified,
                        forall|j: int| 0 <= j < i && o.confirmed.contains_key(#[trigger] tx.input@[j]) ==> modified,
                        forall|k: int, v: int|
                            0 <= k < t && 0 <= v < block.txdata@[k].output.len() && watched(
                                init,
                                (#[trigger] block.txdata@[k].output@[v]).script_pubkey@,
                            ) ==> modified,
                    decreases tx.input.len() - i,
                {
                    let spent = self.remove_confirmed(&tx.input[i]);
                    if spent {
                        modified = true;
                    }
                    i = i + 1;
                }
            }
            proof {
                assert forall|k: int, i: int|
                    1 <= k <= t && 0 <= i < block.txdata@[k].input.len() && !txid_between(
                        *block,
                        block.txdata@[k].input@[i].txid,
                        k,
                        t + 1,
                    ) implies !self@.confirmed.contains_key(#[trigger] block.txdata@[k].input@[i]) by {
                    if k < t {
                        let id = block.txdata@[k].input@[i].txid;
                        if txid_between(*block, id, k, t) {
                            let k2 = choose|k2: int| k <= k2 < t && (#[trigger] block.txdata@[k2]).txid == id;
                            assert(txid_between(*block, id, k, t + 1));
                        }
                    }
                }
                assert forall|k: int, v: int|
                    0 <= k < t && 0 <= v < block.txdata@[k].output.len() && watched(
                        init,
                        (#[trigger] block.txdata@[k].output@[v]).script_pubkey@,
                    ) && !spent_between(*block, out_point(*block, k, v), k + 1, t + 1)
                        implies self@.confirmed.contains_key(out_point(*block, k, v)) by {
                    let q = out_point(*block, k, v);
                    if spent_between(*block, q, k + 1, t) {
                        let (k2, j) = choose|k2: int, j: int|
                            k + 1 <= k2 < t && 0 <= j < block.txdata@[k2].input.len()
                                && #[trigger] block.txdata@[k2].input@[j] == q;
                        assert(spent_between(*block, q, k + 1, t + 1));
                    }
                    assert forall|j: int| 0 <= j < tx.input.len() implies tx.input@[j] != q by {
                        if tx.input@[j] == q {
                            assert(block.txdata@[t].input@[j] == q);
                            assert(spent_between(*block, q, k + 1, t + 1));
                        }
                    }
                }
            }
            let mut vout: usize = 0;
            while vout < tx.output.len()
                invariant
                    self.wf(),
                    n == block.txdata.len(),
                    0 <= t < n,
                    txnr == t,
                    *tx == block.txdata@[t],
                    tx.output.len() <= u32::MAX,
                    vout <= tx.output.len(),
                    !modified ==> self@ == o,
                    block_scan(o, self@, *block),
                    scripts@.len() >= init.len(),
                    forall|j: int| 0 <= j < init.len() ==> #[trigger] scripts@[j] == init[j],
                    forall|k: int, i: int|
                        1 <= k <= t && 0 <= i < block.txdata@[k].input.len() && !txid_between(
                            *block,
                            block.txdata@[k].input@[i].txid,
                            k,
                            t + 1,
                        ) ==> !self@.confirmed.contains_key(#[trigger] block.txdata@[k].input@[i]),
                    forall|k: int, v: int|
                        0 <= k < t && 0 <= v < block.txdata@[k].output.len() && watched(
                            init,
                            (#[trigger] block.txdata@[k].output@[v]).script_pubkey@,
                        ) && !spent_between(*block, out_point(*block, k, v), k + 1, t + 1)
                            ==> self@.confirmed.contains_key(out_point(*block, k, v)),
                    forall|v: int|
                        0 <= v < vout && watched(init, (#[trigger] block.txdata@[t].output@[v]).script_pubkey@)
                            ==> self@.confirmed.contains_key(out_point(*block, t, v)),
                    forall|k: int, j: int|
                        1 <= k <= t && 0 <= j < block.txdata@[k].input.len() && o.confirmed.contains_key(
                            #[trigger] block.txdata@[k].input@[j],
                        ) ==> modified,
                    forall|k: int, v: int|
                        0 <= k < t && 0 <= v < block.txdata@[k].output.len() && watched(
                            init,
                            (#[trigger] block.txdata@[k].output@[v]).script_pubkey@,
                        ) ==> modified,
                    forall|v: int|
                        0 <= v < vout && watched(init, (#[trigger] block.txdata@[t].output@[v]).script_pubkey@) ==> modified,
                decreases tx.output.len() - vout,
            {
                let output = &tx.output[vout];
                match find_script(&scripts, &output.script_pubkey) {
                    Some(j) => {
                        let d = scripts[j].1.copy();
                        let found = source.look_ahead(d.account, d.sub, d.kix);
                        let point = OutPoint { txid: tx.txid, vout: vout as u32 };
                        let coin = Coin { output: output.copy(), derivation: d.copy() };
                        let proof = Proof::new(block, txnr);
                        let ghost before = self@;
                        self.confirm_output(point, coin, proof);
                        proof {
                            assert(block.txdata@[t].txid == point.txid);
                            assert(point == out_point(*block, t, vout as int));
                            assert(output_in_block(*block, point, self@.confirmed[point]));
                            let v = self@;
                            assert forall|p: OutPoint| #[trigger] v.confirmed.contains_key(p) implies
                                (o.confirmed.contains_key(p) && v.confirmed[p] == o.confirmed[p])
                                    || output_in_block(*block, p, v.confirmed[p]) by {
                                if p != point {
                                    assert(before.confirmed.contains_key(p));
                                }
                            }
                            assert forall|k: int, i: int|
                                1 <= k <= t && 0 <= i < block.txdata@[k].input.len() && !txid_between(
                                    *block,
                                    block.txdata@[k].input@[i].txid,
                                    k,
                                    t + 1,
                                ) implies !v.confirmed.contains_key(#[trigger] block.txdata@[k].input@[i]) by {
                                if block.txdata@[k].input@[i] == point {
                                    assert(txid_between(*block, point.txid, k, t + 1));
                                }
                            }
                        }
                        modified = true;
                        watch(&mut scripts, &found, &d);
                    },
                    None => {
                        proof {
                            if watched(init, output.script_pubkey@) {
                                let j = choose|j: int|
                                    0 <= j < init.len() && (#[trigger] init[j]).0@ == output.script_pubkey@;
                                assert(scripts@[j] == init[j]);
                            }
                        }
                    },
                }
                vout = vout + 1;
            }
            txnr = txnr + 1;
        }
        modified
    }

    /// Scans `block` against the scripts that `source` watches when the scan
    /// begins; see `process_with`. Blocks are to be scanned in the order of the
    /// chain: the ledger cannot tell when they are not.
    pub fn process<W: ScriptSource>(&mut self, source: &mut W, block: &Block) -> (r: bool)
        requires
            old(self).wf(),
            forall|k: int|
                0 <= k < block.txdata.len() ==> (#[trigger] block.txdata@[k]).output.len() <= u32::MAX,
        ensures
            final(self).wf(),
            !r ==> final(self)@ == old(self)@,
            block_scan(old(self)@, final(self)@, *block),
            block_spends_done(final(self)@, *block),
            block_outputs_found(final(self)@, *block, old(source).watched_scripts()),
            block_spends_some(old(self)@, *block) || block_pays_some(*block, old(source).watched_scripts()) ==> r,
    {
        let scripts = source.get_scripts();
        self.process_with(source, scripts, block)
    }

    /// Scans unconfirmed transaction `tx` with `scripts` as the watched scripts
    /// to begin with: its inputs spend confirmed coins, and each output to a
    /// watched script becomes an unconfirmed coin unless it is confirmed
    /// already; after each such output `source` watches keys past the one that
    /// matched, and its new scripts are watched for the rest of the scan.
    /// Returns true when an input spent a confirmed coin or an output matched,
    /// and false only when the ledger is unchanged.
    pub fn process_unconfirmed_transaction_with<W: ScriptSource>(
        &mut self,
        source: &mut W,
        scripts: Vec<(Vec<u8>, KeyDerivation)>,
        tx: &Transaction,
    ) -> (r: bool)
        requires
            old(self).wf(),
            tx.output.len() <= u32::MAX,
        ensures
            final(self).wf(),
            !r ==> final(self)@ == old(self)@,
            transaction_scan(old(self)@, final(self)@, *tx),
            transaction_spends_done(final(self)@, *tx),
            transaction_outputs_found(final(self)@, *tx, scripts@),
            transaction_spends_some(old(self)@, *tx) || transaction_pays_some(*tx, scripts@) ==> r,
    {
        let ghost o = self@;
        let ghost init = scripts@;
        let mut scripts = scripts;
        let mut modified = false;
        let mut i: usize = 0;
        while i < tx.input.len()
            invariant
                self.wf(),
                i <= tx.input.len(),
                !modified ==> self@ == o,
                transaction_scan(o, self@, *tx),
                forall|j: int| 0 <= j < i ==> !self@.confirmed.contains_key(#[trigger] tx.input@[j]),
                forall|j: int| 0 <= j < i && o.confirmed.contains_key(#[trigger] tx.input@[j]) ==> modified,
            decreases tx.input.len() - i,
        {
            let spent = self.remove_confirmed(&tx.input[i]);
            if spent {
                modified = true;
            }
            i = i + 1;
        }
        let mut vout: usize = 0;
        while vout < tx.output.len()
            invariant
                self.wf(),
                tx.output.len() <= u32::MAX,
                vout <= tx.output.len(),
                !modified ==> self@ == o,
                transaction_scan(o, self@, *tx),
                scripts@.len() >= init.len(),
                forall|j: int| 0 <= j < init.len() ==> #[trigger] scripts@[j] == init[j],
                forall|j: int| 0 <= j < tx.input.len() ==> !self@.confirmed.contains_key(#[trigger] tx.input@[j]),
                forall|v: int|
                    0 <= v < vout && watched(init, (#[trigger] tx.output@[v]).script_pubkey@) ==> {
                        let p = OutPoint { txid: tx.txid, vout: v as u32 };
                        ||| self@.confirmed.contains_key(p)
                        ||| self@.unconfirmed.contains_key(p) && self@.unconfirmed[p].output
                            == tx.output@[v]@
                    },
                forall|j: int| 0 <= j < tx.input.len() && o.confirmed.contains_key(#[trigger] tx.input@[j]) ==> modified,
                forall|v: int| 0 <= v < vout && watched(init, (#[trigger] tx.output@[v]).script_pubkey@) ==> modified,
            decreases tx.output.len() - vout,
        {
            let output = &tx.output[vout];
            match find_script(&scripts, &output.script_pubkey) {
                Some(j) => {
                    let d = scripts[j].1.copy();
                    let found = source.look_ahead(d.account, d.sub, d.kix);
                    let point = OutPoint { txid: tx.txid, vout: vout as u32 };
                    let coin = Coin { output: output.copy(), derivation: d.copy() };
                    let ghost before = self@;
                    self.record_unconfirmed(point, coin);
                    proof {
                        let v = self@;
                        assert forall|w: int|
                            0 <= w < vout + 1 && watched(init, (#[trigger] tx.output@[w]).script_pubkey@) implies {
                                let q = OutPoint { txid: tx.txid, vout: w as u32 };
                                ||| v.confirmed.contains_key(q)
                                ||| v.unconfirmed.contains_key(q) && v.unconfirmed[q].output == tx.output@[w]@
                            } by {
                            let q = OutPoint { txid: tx.txid, vout: w as u32 };
                            if w < vout {
                                assert(q != point);
                                if before.unconfirmed.contains_key(q) {
                                    assert(v.unconfirmed.contains_key(q));
                                }
                            }
                        }
                        assert forall|p: OutPoint| #[trigger] v.unconfirmed.contains_key(p) implies
                            (o.unconfirmed.contains_key(p) && v.unconfirmed[p] == o.unconfirmed[p]) || (
                            p.txid == tx.txid && p.vout < tx.output.len() && tx.output@[p.vout as int]@
                                == v.unconfirmed[p].output) by {
                            if p != point || before.confirmed.contains_key(point) {
                                assert(before.unconfirmed.contains_key(p));
                            }
                        }
                    }
                    modified = true;
                    watch(&mut scripts, &found, &d);
                },
                None => {
                    proof {
                        if watched(init, output.script_pubkey@) {
                            let j = choose|j: int| 0 <= j < init.len() && (#[trigger] init[j]).0@ == output.script_pubkey@;
                            assert(scripts@[j] == init[j]);
                        }
                    }
                },
            }
            vout = vout + 1;
        }
        modified
    }

    /// Scans unconfirmed transaction `tx`, such as one of the wallet's own
    /// spends, against the scripts that `source` watches; see
    /// `process_unconfirmed_transaction_with`.
    pub fn process_unconfirmed_transaction<W: ScriptSource>(
        &mut self,
        source: &mut W,
        tx: &Transaction,
    ) -> (r: bool)
        requires
            old(self).wf(),
            tx.output.len() <= u32::MAX,
        ensures
            final(self).wf(),
            !r ==> final(self)@ == old(self)@,
            transaction_scan(old(self)@, final(self)@, *tx),
            transaction_spends_done(final(self)@, *tx),
            transaction_outputs_found(final(self)@, *tx, old(source).watched_scripts()),
            transaction_spends_some(old(self)@, *tx) || transaction_pays_some(*tx, old(source).watched_scripts()) ==> r,
    {
        let scripts = source.get_scripts();
        self.process_unconfirmed_transaction_with(source, scripts, tx)
    }
}

} // verus!
