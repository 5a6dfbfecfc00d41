use vstd::prelude::*;

use crate::entries::{
    entries_map, has_key, lemma_empty_entries, lemma_entry, lemma_push_entry, lemma_remove_entry,
    lemma_take_all, lemma_take_entry, unique_keys,
};
use crate::selection::{
    candidates_view, eligible, offered, select_inputs, selection, shuffle, sort_by_value,
    sorted_by_value, Candidate, CandidateV,
};
use crate::types::{same_hash, same_point, Coin, CoinV, Hash256, OutPoint, Proof};

verus! {

/// What a ledger holds: its confirmed and unconfirmed coins by output, and
/// its proofs by transaction id.
pub struct LedgerV {
    pub confirmed: Map<OutPoint, CoinV>,
    pub unconfirmed: Map<OutPoint, CoinV>,
    pub proofs: Map<Hash256, Proof>,
}

/// Some output of transaction `t` is among the coins of `m`.
pub open spec fn has_output_of(m: Map<OutPoint, CoinV>, t: Hash256) -> bool {
    exists|q: OutPoint| #[trigger] m.contains_key(q) && q.txid == t
}

/// The rules that tie the three maps of a ledger together.
pub open spec fn ledger_invariants(v: LedgerV) -> bool {
    // no output is both confirmed and unconfirmed
    &&& forall|p: OutPoint| #[trigger] v.confirmed.contains_key(p) ==> !v.unconfirmed.contains_key(p)
    // every confirmed output has the proof of its transaction
    &&& forall|p: OutPoint| #[trigger] v.confirmed.contains_key(p) ==> v.proofs.contains_key(p.txid)
    // a proof is kept exactly while some output of its transaction is confirmed
    &&& forall|t: Hash256| #[trigger] v.proofs.contains_key(t) ==> has_output_of(v.confirmed, t)
    // each proof is filed under the id of the transaction it proves
    &&& forall|t: Hash256| #[trigger] v.proofs.contains_key(t) ==> v.proofs[t].txid == t
}

/// The ledger after coin `c` at `p` is confirmed with `proof`: it leaves the
/// unconfirmed coins, and `proof` is filed unless its transaction has one.
pub open spec fn with_confirmed(v: LedgerV, p: OutPoint, c: CoinV, proof: Proof) -> LedgerV {
    LedgerV {
        confirmed: v.confirmed.insert(p, c),
        unconfirmed: v.unconfirmed.remove(p),
        proofs: if v.proofs.contains_key(p.txid) {
            v.proofs
        } else {
            v.proofs.insert(p.txid, proof)
        },
    }
}

/// The ledger after coin `c` at `p` is seen unconfirmed: it is recorded unless
/// `p` is confirmed.
pub open spec fn with_unconfirmed(v: LedgerV, p: OutPoint, c: CoinV) -> LedgerV {
    if v.confirmed.contains_key(p) {
        v
    } else {
        LedgerV { unconfirmed: v.unconfirmed.insert(p, c), ..v }
    }
}

/// The output `q` is confirmed by block `h`: the proof of its transaction is
/// against that block.
pub open spec fn confirmed_by(v: LedgerV, q: OutPoint, h: Hash256) -> bool {
    v.proofs.contains_key(q.txid) && v.proofs[q.txid].block_hash == h
}

/// The ledger after block `h` left the best chain: the coins it confirmed go
/// back to the unconfirmed ones, and the proofs against it are dropped.
pub open spec fn unwound(v: LedgerV, h: Hash256) -> LedgerV {
    LedgerV {
        confirmed: Map::new(
            |q: OutPoint| v.confirmed.contains_key(q) && !confirmed_by(v, q, h),
            |q: OutPoint| v.confirmed[q],
        ),
        unconfirmed: Map::new(
            |q: OutPoint|
                v.unconfirmed.contains_key(q) || (v.confirmed.contains_key(q) && confirmed_by(v, q, h)),
            |q: OutPoint|
                if v.confirmed.contains_key(q) {
                    v.confirmed[q]
                } else {
                    v.unconfirmed[q]
                },
        ),
        proofs: Map::new(
            |t: Hash256| v.proofs.contains_key(t) && v.proofs[t].block_hash != h,
            |t: Hash256| v.proofs[t],
        ),
    }
}

/// Unwinding a block keeps the ledger rules.
pub proof fn lemma_unwound_invariants(v: LedgerV, h: Hash256)
    requires
        ledger_invariants(v),
    ensures
        ledger_invariants(unwound(v, h)),
{
    let u = unwound(v, h);
    assert forall|t: Hash256| #[trigger] u.proofs.contains_key(t) implies has_output_of(
        u.confirmed,
        t,
    ) by {
        let q = choose|q: OutPoint| #[trigger] v.confirmed.contains_key(q) && q.txid == t;
        assert(u.confirmed.contains_key(q));
    }
}

/// The sum of the output values of a sequence of coins.
pub open spec fn value_total(s: Seq<(OutPoint, Coin)>) -> int
    decreases s.len(),
{
    if s.len() == 0 {
        0
    } else {
        value_total(s.drop_last()) + s.last().1.output.value
    }
}

/// Why the ledger could not answer.
#[derive(Clone, Copy, Debug, PartialEq, Eq)]
pub enum LedgerError {
    /// The height of a block that confirms a coin is unknown.
    UnknownBlockHeight,
}

/// The coins that belong to the wallet.
pub struct Coins {
    unconfirmed: Vec<(OutPoint, Coin)>,
    confirmed: Vec<(OutPoint, Coin)>,
    proofs: Vec<(Hash256, Proof)>,
}

impl View for Coins {
    type V = LedgerV;

    closed spec fn view(&self) -> LedgerV {
        LedgerV {
            confirmed: entries_map(self.confirmed@),
            unconfirmed: entries_map(self.unconfirmed@),
            proofs: entries_map(self.proofs@),
        }
    }
}

/// The position of the entry for `p`, if there is one.
fn find_point(v: &Vec<(OutPoint, Coin)>, p: &OutPoint) -> (r: Option<usize>)
    ensures
        match r {
            Some(i) => i < v.len() && v@[i as int].0 == *p,
            None => !has_key(v@, *p),
        },
{
    let mut i: usize = 0;
    while i < v.len()
        invariant
            i <= v.len(),
            forall|j: int| 0 <= j < i ==> v@[j].0 != *p,
        decreases v.len() - i,
    {
        if same_point(&v[i].0, p) {
            return Some(i);
        }
        i = i + 1;
    }
    None
}

/// The position of the proof of transaction `t`, if there is one.
fn find_txid(v: &Vec<(Hash256, Proof)>, t: &Hash256) -> (r: Option<usize>)
    ensures
        match r {
            Some(i) => i < v.len() && v@[i as int].0 == *t,
            None => !has_key(v@, *t),
        },
{
    let mut i: usize = 0;
    while i < v.len()
        invariant
            i <= v.len(),
            forall|j: int| 0 <= j < i ==> v@[j].0 != *t,
        decreases v.len() - i,
    {
        if same_hash(&v[i].0, t) {
            return Some(i);
        }
        i = i + 1;
    }
    None
}

/// Whether some coin of `v` is an output of transaction `t`.
fn any_output_of(v: &Vec<(OutPoint, Coin)>, t: &Hash256) -> (r: bool)
    ensures
        r == has_output_of(entries_map(v@), *t),
{
    let mut i: usize = 0;
    while i < v.len()
        invariant
            i <= v.len(),
            forall|j: int| 0 <= j < i ==> v@[j].0.txid != *t,
        decreases v.len() - i,
    {
        if same_hash(&v[i].0.txid, t) {
            let ghost q = v@[i as int].0;
            assert(has_key(v@, q));
            assert(entries_map(v@).contains_key(q));
            return true;
        }
        i = i + 1;
    }
    assert forall|q: OutPoint| #[trigger] entries_map(v@).contains_key(q) implies q.txid != *t by {
        let j = choose|j: int| 0 <= j < v@.len() && #[trigger] v@[j].0 == q;
    }
    false
}

/// Removes the coin at `p`, returning it.
fn take_coin(v: &mut Vec<(OutPoint, Coin)>, p: &OutPoint) -> (r: Option<Coin>)
    requires
        unique_keys(old(v)@),
    ensures
        unique_keys(final(v)@),
        entries_map(final(v)@) == entries_map(old(v)@).remove(*p),
        match r {
            Some(c) => entries_map(old(v)@).contains_key(*p) && c@ == entries_map(old(v)@)[*p],
            None => !entries_map(old(v)@).contains_key(*p),
        },
{
    match find_point(v, p) {
        Some(i) => {
            proof {
                lemma_remove_entry(v@, i as int);
                lemma_entry(v@, i as int);
            }
            let e = v.remove(i);
            Some(e.1)
        },
        None => {
            assert(entries_map(v@).remove(*p) =~= entries_map(v@));
            None
        },
    }
}

/// Files coin `c` under `p`, in place of any coin there.
fn put_coin(v: &mut Vec<(OutPoint, Coin)>, p: OutPoint, c: Coin)
    requires
        unique_keys(old(v)@),
    ensures
        unique_keys(final(v)@),
        entries_map(final(v)@) == entries_map(old(v)@).insert(p, c@),
{
    let _ = take_coin(v, &p);
    proof {
        assert(!entries_map(v@).contains_key(p));
        lemma_push_entry(v@, p, c);
    }
    v.push((p, c));
    assert(entries_map(old(v)@).remove(p).insert(p, c@) =~= entries_map(old(v)@).insert(p, c@));
}

/// Removes the proof filed under `t`.
fn take_proof(v: &mut Vec<(Hash256, Proof)>, t: &Hash256)
    requires
        unique_keys(old(v)@),
    ensures
        unique_keys(final(v)@),
        entries_map(final(v)@) == entries_map(old(v)@).remove(*t),
{
    match find_txid(v, t) {
        Some(i) => {
            proof {
                lemma_remove_entry(v@, i as int);
            }
            let _ = v.remove(i);
        },
        None => {
            assert(entries_map(v@).remove(*t) =~= entries_map(v@));
        },
    }
}

/// Files `proof` under `t`, in place of any proof there.
fn put_proof(v: &mut Vec<(Hash256, Proof)>, t: Hash256, proof: Proof)
    requires
        unique_keys(old(v)@),
    ensures
        unique_keys(final(v)@),
        entries_map(final(v)@) == entries_map(old(v)@).insert(t, proof),
{
    take_proof(v, &t);
    proof {
        assert(!entries_map(v@).contains_key(t));
        lemma_push_entry(v@, t, proof);
    }
    v.push((t, proof));
    assert(entries_map(old(v)@).remove(t).insert(t, proof) =~= entries_map(old(v)@).insert(t, proof));
}

/// The sum of the output values of `v`.
fn sum_values(v: &Vec<(OutPoint, Coin)>) -> (r: u64)
    requires
        value_total(v@) <= u64::MAX,
    ensures
        r == value_total(v@),
{
    let mut sum: u64 = 0;
    let mut i: usize = 0;
    while i < v.len()
        invariant
            i <= v.len(),
            value_total(v@) <= u64::MAX,
            sum == value_total(v@.take(i as int)),
        decreases v.len() - i,
    {
        proof {
            assert(v@.take(i + 1).drop_last() =~= v@.take(i as int));
            lemma_total_prefix(v@, i + 1);
        }
        sum = sum + v[i].1.output.value;
        i = i + 1;
    }
    proof {
        lemma_take_all(v@);
    }
    sum
}

/// A prefix never sums to more than the whole.
proof fn lemma_total_prefix(s: Seq<(OutPoint, Coin)>, n: int)
    requires
        0 <= n <= s.len(),
    ensures
        value_total(s.take(n)) <= value_total(s),
    decreases s.len() - n,
{
    if n < s.len() {
        lemma_total_prefix(s, n + 1);
        assert(s.take(n + 1).drop_last() =~= s.take(n));
    } else {
        lemma_take_all(s);
    }
}

impl Coins {
    /// The ledger's entries are keyed uniquely and its maps obey the ledger rules.
    pub closed spec fn wf(&self) -> bool {
        &&& unique_keys(self.confirmed@)
        &&& unique_keys(self.unconfirmed@)
        &&& unique_keys(self.proofs@)
        &&& ledger_invariants(self@)
    }

    /// The confirmed coins as a sequence of entries.
    pub closed spec fn confirmed_entries(&self) -> Seq<(OutPoint, Coin)> {
        self.confirmed@
    }

    /// The unconfirmed coins as a sequence of entries.
    pub closed spec fn unconfirmed_entries(&self) -> Seq<(OutPoint, Coin)> {
        self.unconfirmed@
    }

    /// A well-formed ledger obeys the ledger rules.
    pub proof fn lemma_wf(&self)
        requires
            self.wf(),
        ensures
            ledger_invariants(self@),
            entries_map(self.confirmed_entries()) == self@.confirmed,
            entries_map(self.unconfirmed_entries()) == self@.unconfirmed,
    {
    }

    /// An empty ledger.
    pub fn new() -> (r: Coins)
        ensures
            r.wf(),
            r@.confirmed == Map::<OutPoint, CoinV>::empty(),
            r@.unconfirmed == Map::<OutPoint, CoinV>::empty(),
            r@.proofs == Map::<Hash256, Proof>::empty(),
    {
        let r = Coins { confirmed: Vec::new(), proofs: Vec::new(), unconfirmed: Vec::new() };
        proof {
            lemma_empty_entries(r.confirmed@);
            lemma_empty_entries(r.unconfirmed@);
            lemma_empty_entries(r.proofs@);
        }
        r
    }

    /// Restores a confirmed coin and the proof of its transaction, as saved
    /// earlier; nothing is checked beyond what `requires` states.
    pub fn add_confirmed(&mut self, point: OutPoint, coin: Coin, proof: Proof)
        requires
            old(self).wf(),
            proof.txid == point.txid,
            !old(self)@.unconfirmed.contains_key(point),
        ensures
            final(self).wf(),
            final(self)@.confirmed == old(self)@.confirmed.insert(point, coin@),
            final(self)@.unconfirmed == old(self)@.unconfirmed,
            final(self)@.proofs == old(self)@.proofs.insert(proof.txid, proof),
    {
        let ghost c = coin@;
        put_coin(&mut self.confirmed, point, coin);
        put_proof(&mut self.proofs, proof.txid, proof);
        proof {
            let v = self@;
            let o = old(self)@;
            assert(ledger_invariants(o));
            assert forall|p: OutPoint| #[trigger] v.confirmed.contains_key(p) implies !v.unconfirmed.contains_key(p)
                && v.proofs.contains_key(p.txid) by {
                if p != point {
                    assert(o.confirmed.contains_key(p));
                }
            }
            assert forall|t: Hash256| #[trigger] v.proofs.contains_key(t) implies has_output_of(
                v.confirmed,
                t,
            ) && v.proofs[t].txid == t by {
                if t == point.txid {
                    assert(v.confirmed.contains_key(point));
                } else {
                    assert(old(self)@.proofs.contains_key(t));
                    let q = choose|q: OutPoint| #[trigger]
                        old(self)@.confirmed.contains_key(q) && q.txid == t;
                    assert(v.confirmed.contains_key(q));
                }
            }
        }
    }

    /// Removes a confirmed coin and, once no coin of its transaction stays
    /// confirmed, the proof of that transaction. Returns whether it was there.
    pub fn remove_confirmed(&mut self, point: &OutPoint) -> (r: bool)
        requires
            old(self).wf(),
        ensures
            final(self).wf(),
            r == old(self)@.confirmed.contains_key(*point),
            !r ==> final(self)@ == old(self)@,
            final(self)@.confirmed == old(self)@.confirmed.remove(*point),
            final(self)@.unconfirmed == old(self)@.unconfirmed,
            final(self)@.proofs == (if has_output_of(final(self)@.confirmed, point.txid) {
                old(self)@.proofs
            } else {
                old(self)@.proofs.remove(point.txid)
            }),
    {
        let ghost o = self@;
        let removed = take_coin(&mut self.confirmed, point);
        match removed {
            None => {
                proof {
                    assert(self@.confirmed =~= o.confirmed);
                    assert(self@ == o);
                    assert(ledger_invariants(o));
                    if !has_output_of(o.confirmed, point.txid) {
                        assert(o.proofs.remove(point.txid) =~= o.proofs);
                    }
                }
                false
            },
            Some(_) => {
                if !any_output_of(&self.confirmed, &point.txid) {
                    take_proof(&mut self.proofs, &point.txid);
                }
                proof {
                    let v = self@;
                    assert(ledger_invariants(o));
                    assert forall|p: OutPoint| #[trigger] v.confirmed.contains_key(p) implies !v.unconfirmed.contains_key(p)
                        && v.proofs.contains_key(p.txid) by {
                        assert(o.confirmed.contains_key(p));
                        if p.txid == point.txid {
                            assert(has_output_of(v.confirmed, point.txid));
                        }
                    }
                    assert forall|t: Hash256| #[trigger] v.proofs.contains_key(t) implies has_output_of(
                        v.confirmed,
                        t,
                    ) && v.proofs[t].txid == t by {
                        assert(o.proofs.contains_key(t));
                        let q = choose|q: OutPoint| #[trigger]
                            o.confirmed.contains_key(q) && q.txid == t;
                        if q != *point {
                            assert(v.confirmed.contains_key(q));
                        }
                    }
                }
                true
            },
        }
    }

    /// Confirms coin `coin` at `point`: it leaves the unconfirmed coins, and
    /// `proof` is filed for its transaction unless a proof is there already.
    pub fn confirm_output(&mut self, point: OutPoint, coin: Coin, proof: Proof)
        requires
            old(self).wf(),
            proof.txid == point.txid,
        ensures
            final(self).wf(),
            final(self)@ == with_confirmed(old(self)@, point, coin@, proof),
    {
        let ghost o = self@;
        let _ = take_coin(&mut self.unconfirmed, &point);
        put_coin(&mut self.confirmed, point, coin);
        if find_txid(&self.proofs, &point.txid).is_none() {
            proof {
                assert(!entries_map(self.proofs@).contains_key(point.txid));
            }
            put_proof(&mut self.proofs, point.txid, proof);
        } else {
            proof {
                assert(o.proofs.contains_key(point.txid));
            }
        }
        proof {
            let v = self@;
            assert(ledger_invariants(o));
            assert forall|p: OutPoint| #[trigger] v.confirmed.contains_key(p) implies !v.unconfirmed.contains_key(p)
                && v.proofs.contains_key(p.txid) by {
                if p != point {
                    assert(o.confirmed.contains_key(p));
                }
            }
            assert forall|t: Hash256| #[trigger] v.proofs.contains_key(t) implies has_output_of(
                v.confirmed,
                t,
            ) && v.proofs[t].txid == t by {
                if t == point.txid {
                    assert(v.confirmed.contains_key(point));
                } else {
                    assert(o.proofs.contains_key(t));
                    let q = choose|q: OutPoint| #[trigger] o.confirmed.contains_key(q) && q.txid == t;
                    assert(v.confirmed.contains_key(q));
                }
            }
        }
    }

    /// Records coin `coin` at `point` as unconfirmed, unless `point` is
    /// confirmed already.
    pub fn record_unconfirmed(&mut self, point: OutPoint, coin: Coin)
        requires
            old(self).wf(),
        ensures
            final(self).wf(),
            final(self)@ == with_unconfirmed(old(self)@, point, coin@),
    {
        let ghost o = self@;
        if find_point(&self.confirmed, &point).is_none() {
            proof {
                assert(!o.confirmed.contains_key(point));
            }
            put_coin(&mut self.unconfirmed, point, coin);
            proof {
                let v = self@;
                assert(ledger_invariants(o));
                assert(v.confirmed == o.confirmed && v.proofs == o.proofs);
                assert forall|p: OutPoint| #[trigger] v.confirmed.contains_key(p) implies !v.unconfirmed.contains_key(p) by {
                    assert(p != point);
                }
                assert(ledger_invariants(v));
            }
        } else {
            proof {
                assert(o.confirmed.contains_key(point));
                assert(self@ == o);
                assert(ledger_invariants(o));
            }
        }
    }

    /// Takes back the confirmation of every coin that block `block_hash`
    /// confirmed: such coins become unconfirmed again and the proofs against
    /// that block are dropped.
    pub fn unwind_tip(&mut self, block_hash: &Hash256)
        requires
            old(self).wf(),
        ensures
            final(self).wf(),
            final(self)@ == unwound(old(self)@, *block_hash),
    {
        let ghost o = self@;
        let ghost conf = self.confirmed@;
        let ghost unconf = self.unconfirmed@;
        let h = *block_hash;
        let mut kept: Vec<(OutPoint, Coin)> = Vec::new();
        let mut i: usize = 0;
        proof {
            lemma_empty_entries(kept@);
            assert(conf.take(0) =~= Seq::<(OutPoint, Coin)>::empty());
            lemma_empty_entries(conf.take(0));
            assert(entries_map(kept@) =~= Map::new(
                |q: OutPoint| entries_map(conf.take(0)).contains_key(q) && !confirmed_by(o, q, h),
                |q: OutPoint| entries_map(conf.take(0))[q],
            ));
            assert(entries_map(self.unconfirmed@) =~= Map::new(
                |q: OutPoint|
                    o.unconfirmed.contains_key(q) || (entries_map(conf.take(0)).contains_key(q)
                        && confirmed_by(o, q, h)),
                |q: OutPoint|
                    if entries_map(conf.take(0)).contains_key(q) {
                        entries_map(conf.take(0))[q]
                    } else {
                        o.unconfirmed[q]
                    },
            ));
        }
        while i < self.confirmed.len()
            invariant
                self.confirmed@ == conf,
                entries_map(conf) == o.confirmed,
                entries_map(unconf) == o.unconfirmed,
                entries_map(self.proofs@) == o.proofs,
                unique_keys(conf),
                unique_keys(self.proofs@),
                ledger_invariants(o),
                i <= conf.len(),
                unique_keys(kept@),
                unique_keys(self.unconfirmed@),
                entries_map(kept@) == Map::new(
                    |q: OutPoint| entries_map(conf.take(i as int)).contains_key(q) && !confirmed_by(o, q, h),
                    |q: OutPoint| entries_map(conf.take(i as int))[q],
                ),
                entries_map(self.unconfirmed@) == Map::new(
                    |q: OutPoint|
                        o.unconfirmed.contains_key(q) || (entries_map(conf.take(i as int)).contains_key(q)
                            && confirmed_by(o, q, h)),
                    |q: OutPoint|
                        if entries_map(conf.take(i as int)).contains_key(q) {
                            entries_map(conf.take(i as int))[q]
                        } else {
                            o.unconfirmed[q]
                        },
                ),
            decreases conf.len() - i,
        {
            let point = self.confirmed[i].0;
            let lost = match find_txid(&self.proofs, &point.txid) {
                Some(k) => {
                    proof {
                        lemma_entry(self.proofs@, k as int);
                    }
                    same_hash(&self.proofs[k].1.block_hash, &h)
                },
                None => false,
            };
            let c = self.confirmed[i].1.copy();
            let ghost before = entries_map(conf.take(i as int));
            proof {
                lemma_take_entry(conf, i as int);
                lemma_entry(conf, i as int);
                assert(lost == confirmed_by(o, point, h));
            }
            let ghost after = entries_map(conf.take(i + 1));
            if lost {
                proof {
                    assert(o.confirmed.contains_key(point));
                    assert(!o.unconfirmed.contains_key(point));
                    assert(!entries_map(self.unconfirmed@).contains_key(point));
                    lemma_push_entry(self.unconfirmed@, point, c);
                }
                self.unconfirmed.push((point, c));
                proof {
                    assert(!entries_map(kept@).contains_key(point));
                    assert(entries_map(kept@) =~= Map::new(
                        |q: OutPoint| after.contains_key(q) && !confirmed_by(o, q, h),
                        |q: OutPoint| after[q],
                    ));
                    assert(entries_map(self.unconfirmed@) =~= Map::new(
                        |q: OutPoint|
                            o.unconfirmed.contains_key(q) || (after.contains_key(q) && confirmed_by(o, q, h)),
                        |q: OutPoint|
                            if after.contains_key(q) {
                                after[q]
                            } else {
                                o.unconfirmed[q]
                            },
                    ));
                }
            } else {
                proof {
                    assert(!entries_map(kept@).contains_key(point));
                    lemma_push_entry(kept@, point, c);
                }
                kept.push((point, c));
                proof {
                    assert(entries_map(kept@) =~= Map::new(
                        |q: OutPoint| after.contains_key(q) && !confirmed_by(o, q, h),
                        |q: OutPoint| after[q],
                    ));
                    assert(entries_map(self.unconfirmed@) =~= Map::new(
                        |q: OutPoint|
                            o.unconfirmed.contains_key(q) || (after.contains_key(q) && confirmed_by(o, q, h)),
                        |q: OutPoint|
                            if after.contains_key(q) {
                                after[q]
                            } else {
                                o.unconfirmed[q]
                            },
                    ));
                }
            }
            i = i + 1;
        }
        proof {
            lemma_take_all(conf);
        }
        self.confirmed = kept;
        let ghost pr = self.proofs@;
        let mut kept_proofs: Vec<(Hash256, Proof)> = Vec::new();
        let mut j: usize = 0;
        proof {
            lemma_empty_entries(kept_proofs@);
            assert(pr.take(0) =~= Seq::<(Hash256, Proof)>::empty());
            lemma_empty_entries(pr.take(0));
            assert(entries_map(kept_proofs@) =~= Map::new(
                |t: Hash256| entries_map(pr.take(0)).contains_key(t) && entries_map(pr.take(0))[t].block_hash != h,
                |t: Hash256| entries_map(pr.take(0))[t],
            ));
        }
        while j < self.proofs.len()
            invariant
                self.proofs@ == pr,
                entries_map(pr) == o.proofs,
                unique_keys(pr),
                j <= pr.len(),
                unique_keys(kept_proofs@),
                entries_map(kept_proofs@) == Map::new(
                    |t: Hash256| entries_map(pr.take(j as int)).contains_key(t) && entries_map(pr.take(j as int))[t].block_hash != h,
                    |t: Hash256| entries_map(pr.take(j as int))[t],
                ),
            decreases pr.len() - j,
        {
            let e = self.proofs[j];
            let ghost after = entries_map(pr.take(j + 1));
            proof {
                lemma_take_entry(pr, j as int);
            }
            if !same_hash(&e.1.block_hash, &h) {
                proof {
                    assert(!entries_map(kept_proofs@).contains_key(e.0));
                    lemma_push_entry(kept_proofs@, e.0, e.1);
                }
                kept_proofs.push(e);
            }
            proof {
                assert(entries_map(kept_proofs@) =~= Map::new(
                    |t: Hash256| after.contains_key(t) && after[t].block_hash != h,
                    |t: Hash256| after[t],
                ));
            }
            j = j + 1;
        }
        proof {
            lemma_take_all(pr);
        }
        self.proofs = kept_proofs;
        proof {
            let u = unwound(o, h);
            assert(self@.confirmed =~= u.confirmed);
            assert(self@.unconfirmed =~= u.unconfirmed);
            assert(self@.proofs =~= u.proofs);
            lemma_unwound_invariants(o, h);
        }
    }

    /// The confirmed coins.
    pub fn confirmed(&self) -> (r: &Vec<(OutPoint, Coin)>)
        ensures
            r@ == self.confirmed_entries(),
            self.wf() ==> unique_keys(r@) && entries_map(r@) == self@.confirmed,
    {
        &self.confirmed
    }

    /// The unconfirmed coins.
    pub fn unconfirmed(&self) -> (r: &Vec<(OutPoint, Coin)>)
        ensures
            r@ == self.unconfirmed_entries(),
            self.wf() ==> unique_keys(r@) && entries_map(r@) == self@.unconfirmed,
    {
        &self.unconfirmed
    }

    /// The proofs, each with the id of the transaction it proves.
    pub fn proofs(&self) -> (r: &Vec<(Hash256, Proof)>)
        requires
            self.wf(),
        ensures
            unique_keys(r@),
            entries_map(r@) == self@.proofs,
    {
        &self.proofs
    }

    /// The sum of the values of the confirmed coins.
    pub fn confirmed_balance(&self) -> (r: u64)
        requires
            value_total(self.confirmed_entries()) <= u64::MAX,
        ensures
            r == value_total(self.confirmed_entries()),
    {
        sum_values(&self.confirmed)
    }

    /// The sum of the values of the unconfirmed coins.
    pub fn unconfirmed_balance(&self) -> (r: u64)
        requires
            value_total(self.unconfirmed_entries()) <= u64::MAX,
        ensures
            r == value_total(self.unconfirmed_entries()),
    {
        sum_values(&self.unconfirmed)
    }

    /// The hash of the block that confirms the coin at `p`.
    pub open spec fn confirming_block(&self, p: OutPoint) -> Hash256 {
        self@.proofs[p.txid].block_hash
    }

    /// Confirmed coins to spend for at least `minimum` at block height `height`,
    /// with the heights that `block_height` gives their blocks: coins under a
    /// relative timelock that has run out (`h + csv < height`; a coin at
    /// exactly `h + csv` is kept) are left out, the rest sorted by
    /// value, taken from the smallest until `minimum` is reached, those that the
    /// surplus can spare dropped, and the result put in a random order.
    pub fn get_confirmed_coins<H: Fn(&Hash256) -> Option<u32>>(
        &self,
        minimum: u64,
        height: u32,
        block_height: H,
    ) -> (r: Result<Vec<Candidate>, LedgerError>)
        requires
            self.wf(),
            forall|h: &Hash256| block_height.requires((h,)),
        ensures
            match r {
                Ok(v) => exists|heights: Seq<u32>, sorted: Seq<CandidateV>|
                    {
                        &&& heights.len() == self.confirmed_entries().len()
                        &&& forall|i: int|
                            0 <= i < heights.len() ==> block_height.ensures(
                                (&self.confirming_block(self.confirmed_entries()[i].0),),
                                Some(#[trigger] heights[i]),
                            )
                        &&& sorted_by_value(sorted)
                        &&& sorted.to_multiset() == eligible(
                            self.confirmed_entries(),
                            heights,
                            height,
                        ).to_multiset()
                        &&& candidates_view(v@).to_multiset() == selection(
                            sorted,
                            minimum as int,
                        ).to_multiset()
                    },
                Err(e) => e == LedgerError::UnknownBlockHeight && exists|i: int|
                    0 <= i < self.confirmed_entries().len() && block_height.ensures(
                        (&self.confirming_block(#[trigger] self.confirmed_entries()[i].0),),
                        None,
                    ),
            },
            (forall|h: &Hash256| !block_height.ensures((h,), None)) ==> r is Ok,
    {
        let ghost conf = self.confirmed@;
        let mut have: Vec<Candidate> = Vec::new();
        let ghost mut heights: Seq<u32> = Seq::empty();
        let mut i: usize = 0;
        while i < self.confirmed.len()
            invariant
                self.wf(),
                conf == self.confirmed@,
                i <= conf.len(),
                heights.len() == i,
                forall|h: &Hash256| block_height.requires((h,)),
                forall|j: int|
                    0 <= j < i ==> block_height.ensures(
                        (&self.confirming_block(conf[j].0),),
                        Some(#[trigger] heights[j]),
                    ),
                candidates_view(have@) == eligible(conf.take(i as int), heights, height),
            decreases conf.len() - i,
        {
            let point = self.confirmed[i].0;
            proof {
                lemma_entry(conf, i as int);
                assert(self@.confirmed.contains_key(point));
                assert(ledger_invariants(self@));
                assert(self@.proofs.contains_key(point.txid));
            }
            let k = match find_txid(&self.proofs, &point.txid) {
                Some(k) => k,
                None => {
                    proof {
                        assert(entries_map(self.proofs@).contains_key(point.txid));
                    }
                    return Err(LedgerError::UnknownBlockHeight);
                },
            };
            proof {
                lemma_entry(self.proofs@, k as int);
            }
            let hash = self.proofs[k].1.block_hash;
            assert(hash == self.confirming_block(point));
            match block_height(&hash) {
                None => {
                    assert(block_height.ensures(
                        (&self.confirming_block(self.confirmed_entries()[i as int].0),),
                        None,
                    ));
                    return Err(LedgerError::UnknownBlockHeight);
                },
                Some(h) => {
                    let ghost before = candidates_view(have@);
                    let c = &self.confirmed[i].1;
                    let keep = match c.derivation.csv {
                        Some(csv) => (h as u64) + (csv as u64) >= height as u64,
                        None => true,
                    };
                    if keep {
                        have.push((point, c.copy(), h));
                    }
                    proof {
                        let hs = heights;
                        heights = heights.push(h);
                        let t = conf.take(i + 1);
                        assert(t.drop_last() =~= conf.take(i as int));
                        assert(heights.drop_last() =~= hs);
                        assert(t.last() == conf[i as int]);
                        assert(keep == offered(c@, h, height));
                        if keep {
                            assert(candidates_view(have@) =~= before.push((point, c@, h)));
                        }
                        assert(candidates_view(have@) == eligible(t, heights, height));
                    }
                },
            }
            i = i + 1;
        }
        proof {
            assert(conf.take(conf.len() as int) =~= conf);
        }
        let ghost unsorted = candidates_view(have@);
        sort_by_value(&mut have);
        let ghost sorted = candidates_view(have@);
        let mut inputs = select_inputs(have, minimum);
        shuffle(&mut inputs);
        proof {
            assert(sorted.to_multiset() == eligible(conf, heights, height).to_multiset());
            assert(candidates_view(inputs@).to_multiset() == selection(
                sorted,
                minimum as int,
            ).to_multiset());
            assert(sorted_by_value(sorted));
            assert(heights.len() == self.confirmed_entries().len());
            assert(forall|i: int|
                0 <= i < heights.len() ==> block_height.ensures(
                    (&self.confirming_block(self.confirmed_entries()[i].0),),
                    Some(#[trigger] heights[i]),
                ));
        }
        Ok(inputs)
    }
}

} // verus!
