use vstd::prelude::*;

use crate::ledger::{ledger_invariants, unwound, with_confirmed, with_unconfirmed, LedgerV};
use crate::selection::{first_within, lemma_total_remove, selection, shed, taken, taken_count, total_value, value_of, CandidateV};
use crate::types::{CoinV, OutPoint, Proof};

verus! {

/// A coin first seen unconfirmed, then confirmed by a block that files the
/// first proof of its transaction, and then unwound with that block, is left
/// as the unconfirmed scan left it: unconfirmed, with the same coin, not
/// confirmed, and with no proof for its transaction.
pub proof fn lemma_confirm_then_unwind(v: LedgerV, p: OutPoint, c: CoinV, proof: Proof)
    requires
        ledger_invariants(v),
        !v.confirmed.contains_key(p),
        !v.proofs.contains_key(p.txid),
        proof.txid == p.txid,
    ensures
        ({
            let seen = with_unconfirmed(v, p, c);
            let back = unwound(with_confirmed(seen, p, c, proof), proof.block_hash);
            &&& back.unconfirmed.contains_key(p)
            &&& back.unconfirmed[p] == seen.unconfirmed[p]
            &&& back.unconfirmed[p] == c
            &&& !back.confirmed.contains_key(p)
            &&& !back.proofs.contains_key(p.txid)
            &&& seen.unconfirmed.contains_key(p)
            &&& !seen.confirmed.contains_key(p)
            &&& !seen.proofs.contains_key(p.txid)
        }),
{
}

/// Confirming two outputs of one transaction, where no proof of it was filed
/// before, files exactly one proof for it: the first one.
pub proof fn lemma_one_proof_per_transaction(
    v: LedgerV,
    pa: OutPoint,
    ca: CoinV,
    proof_a: Proof,
    pb: OutPoint,
    cb: CoinV,
    proof_b: Proof,
)
    requires
        !v.proofs.contains_key(pa.txid),
        pa.txid == pb.txid,
    ensures
        ({
            let after = with_confirmed(with_confirmed(v, pa, ca, proof_a), pb, cb, proof_b);
            &&& after.proofs == v.proofs.insert(pa.txid, proof_a)
            &&& after.confirmed.contains_key(pa) && after.confirmed.contains_key(pb)
        }),
{
}

proof fn lemma_first_within(s: Seq<CandidateV>, c: int, i: int)
    requires
        0 <= i <= s.len(),
    ensures
        i <= first_within(s, c, i) <= s.len(),
        first_within(s, c, i) < s.len() ==> value_of(s[first_within(s, c, i)]) <= c,
    decreases s.len() - i,
{
    if i < s.len() && value_of(s[i]) > c {
        lemma_first_within(s, c, i + 1);
    }
}

/// Shedding coins against a surplus `c` lowers the sum by at most `c`.
proof fn lemma_shed_keeps(s: Seq<CandidateV>, c: int)
    requires
        c >= 0,
    ensures
        total_value(shed(s, c)) >= total_value(s) - c,
    decreases s.len(),
{
    let i = first_within(s, c, 0);
    lemma_first_within(s, c, 0);
    if 0 <= i < s.len() {
        lemma_total_remove(s, i);
        lemma_shed_keeps(s.remove(i), c - value_of(s[i]));
    }
}

proof fn lemma_total_take(s: Seq<CandidateV>, n: int)
    requires
        0 <= n <= s.len(),
    ensures
        total_value(s.take(n)) <= total_value(s),
    decreases s.len() - n,
{
    if n < s.len() {
        lemma_total_take(s, n + 1);
        assert(s.take(n + 1).drop_last() =~= s.take(n));
    } else {
        assert(s.take(n) =~= s);
    }
}

proof fn lemma_taken_reaches(s: Seq<CandidateV>, minimum: int, i: int)
    requires
        0 <= i <= s.len(),
        minimum <= total_value(s),
    ensures
        total_value(s.take(taken_count(s, minimum, i))) >= minimum,
        taken_count(s, minimum, i) <= s.len(),
    decreases s.len() - i,
{
    if i >= s.len() {
        assert(s.take(s.len() as int) =~= s);
    } else if total_value(s.take(i + 1)) < minimum {
        lemma_taken_reaches(s, minimum, i + 1);
    }
}

proof fn lemma_taken_all(s: Seq<CandidateV>, minimum: int, i: int)
    requires
        0 <= i <= s.len(),
        minimum > total_value(s),
    ensures
        taken_count(s, minimum, i) == s.len(),
    decreases s.len() - i,
{
    if i < s.len() {
        lemma_total_take(s, i + 1);
        lemma_taken_all(s, minimum, i + 1);
    }
}

/// A selection for `minimum` sums to at least `minimum` when the coins
/// offered do; when they do not, it is all of them.
pub proof fn lemma_selection_covers(s: Seq<CandidateV>, minimum: int)
    requires
        minimum >= 0,
    ensures
        minimum <= total_value(s) ==> total_value(selection(s, minimum)) >= minimum,
        minimum > total_value(s) ==> selection(s, minimum) == s,
{
    let t = taken(s, minimum);
    if minimum <= total_value(s) {
        lemma_taken_reaches(s, minimum, 0);
        if total_value(t) > minimum {
            lemma_shed_keeps(t, total_value(t) - minimum);
        }
    } else {
        lemma_taken_all(s, minimum, 0);
        assert(t =~= s);
    }
}

} // verus!
