use rand::seq::SliceRandom;
use vstd::prelude::*;

use crate::types::{Coin, CoinV, OutPoint};

verus! {

/// A coin offered for spending: its output, the coin and the height of the
/// block that confirmed it.
pub type Candidate = (OutPoint, Coin, u32);

/// The mathematical value of a candidate.
pub type CandidateV = (OutPoint, CoinV, u32);

/// The view of a candidate: its coin viewed.
pub open spec fn candidate_view(c: Candidate) -> CandidateV {
    (c.0, c.1@, c.2)
}

/// The view of each candidate of `s`.
pub open spec fn candidates_view(s: Seq<Candidate>) -> Seq<CandidateV> {
    s.map_values(|c: Candidate| candidate_view(c))
}

/// The output value of a candidate.
pub open spec fn value_of(c: CandidateV) -> int {
    c.1.output.value as int
}

/// Whether a coin confirmed at height `h` is offered at `height`: a coin with
/// a relative timelock of `csv` blocks is left out once `h + csv < height`,
/// so at `height == h + csv` it is still offered.
pub open spec fn offered(c: CoinV, h: u32, height: u32) -> bool {
    match c.derivation.csv {
        Some(csv) => !(h + csv < height),
        None => true,
    }
}

/// The candidates among coins `conf`, the coin at `i` confirmed at `heights[i]`.
pub open spec fn eligible(conf: Seq<(OutPoint, Coin)>, heights: Seq<u32>, height: u32) -> Seq<CandidateV>
    decreases conf.len(),
{
    if conf.len() == 0 || heights.len() == 0 {
        Seq::empty()
    } else {
        let rest = eligible(conf.drop_last(), heights.drop_last(), height);
        let (p, c) = conf.last();
        let h = heights.last();
        if offered(c@, h, height) {
            rest.push((p, c@, h))
        } else {
            rest
        }
    }
}

/// Values never decrease along `s`.
pub open spec fn sorted_by_value(s: Seq<CandidateV>) -> bool {
    forall|i: int, j: int| 0 <= i <= j < s.len() ==> value_of(#[trigger] s[i]) <= value_of(#[trigger] s[j])
}

/// The sum of the values of `s`.
pub open spec fn total_value(s: Seq<CandidateV>) -> int
    decreases s.len(),
{
    if s.len() == 0 {
        0
    } else {
        total_value(s.drop_last()) + value_of(s.last())
    }
}

/// How many coins of `s` are taken from the front, counting on from `i`: up to
/// and including the first whose running sum reaches `minimum`, or all.
pub open spec fn taken_count(s: Seq<CandidateV>, minimum: int, i: int) -> int
    decreases s.len() - i,
{
    if i >= s.len() {
        s.len() as int
    } else if total_value(s.take(i + 1)) >= minimum {
        i + 1
    } else {
        taken_count(s, minimum, i + 1)
    }
}

/// The coins taken from the front of `s` until their sum reaches `minimum`.
pub open spec fn taken(s: Seq<CandidateV>, minimum: int) -> Seq<CandidateV> {
    s.take(taken_count(s, minimum, 0))
}

/// The position of the first coin of `s`, from `i` on, worth at most `c`, or
/// the length of `s` if there is none.
pub open spec fn first_within(s: Seq<CandidateV>, c: int, i: int) -> int
    decreases s.len() - i,
{
    if i >= s.len() {
        s.len() as int
    } else if value_of(s[i]) <= c {
        i
    } else {
        first_within(s, c, i + 1)
    }
}

/// Drops, one at a time, the first coin worth at most the surplus `c`, and
/// lowers the surplus by its value, while there is one.
pub open spec fn shed(s: Seq<CandidateV>, c: int) -> Seq<CandidateV>
    decreases s.len(),
{
    let i = first_within(s, c, 0);
    if 0 <= i < s.len() {
        shed(s.remove(i), c - value_of(s[i]))
    } else {
        s
    }
}

/// The selection from coins `s`, sorted by value, for a spend of `minimum`.
pub open spec fn selection(s: Seq<CandidateV>, minimum: int) -> Seq<CandidateV> {
    let t = taken(s, minimum);
    if total_value(t) > minimum {
        shed(t, total_value(t) - minimum)
    } else {
        t
    }
}

/// Relies on the standard library's `sort_by_key` on slices, keyed by output
/// value: it permutes the elements into ascending order of the key.
#[verifier::external_body]
pub(crate) fn sort_by_value(v: &mut Vec<Candidate>)
    ensures
        candidates_view(final(v)@).to_multiset() == candidates_view(old(v)@).to_multiset(),
        sorted_by_value(candidates_view(final(v)@)),
{
    v.sort_by_key(|c| c.1.output.value);
}

/// Relies on rand's `SliceRandom::shuffle` with the thread-local generator: it
/// permutes the elements in place.
#[verifier::external_body]
pub(crate) fn shuffle(v: &mut Vec<Candidate>)
    ensures
        candidates_view(final(v)@).to_multiset() == candidates_view(old(v)@).to_multiset(),
{
    v.shuffle(&mut rand::thread_rng());
}

proof fn lemma_total_step(s: Seq<CandidateV>, i: int)
    requires
        0 <= i < s.len(),
    ensures
        total_value(s.take(i + 1)) == total_value(s.take(i)) + value_of(s[i]),
{
    assert(s.take(i + 1).drop_last() =~= s.take(i));
}

/// Removing the coin at `i` lowers the sum by its value.
pub proof fn lemma_total_remove(s: Seq<CandidateV>, i: int)
    requires
        0 <= i < s.len(),
    ensures
        total_value(s.remove(i)) == total_value(s) - value_of(s[i]),
    decreases s.len(),
{
    if i == s.len() - 1 {
        assert(s.remove(i) =~= s.drop_last());
    } else {
        lemma_total_remove(s.drop_last(), i);
        assert(s.remove(i).drop_last() =~= s.drop_last().remove(i));
        assert(s.remove(i).last() == s.last());
    }
}

proof fn lemma_taken_count_range(s: Seq<CandidateV>, minimum: int, i: int)
    requires
        0 <= i <= s.len(),
    ensures
        i <= taken_count(s, minimum, i) <= s.len(),
    decreases s.len() - i,
{
    if i < s.len() && total_value(s.take(i + 1)) < minimum {
        lemma_taken_count_range(s, minimum, i + 1);
    }
}

proof fn lemma_view_take(s: Seq<Candidate>, n: int)
    requires
        0 <= n <= s.len(),
    ensures
        candidates_view(s.take(n)) == candidates_view(s).take(n),
{
    assert(candidates_view(s.take(n)) =~= candidates_view(s).take(n));
}

proof fn lemma_view_remove(s: Seq<Candidate>, i: int)
    requires
        0 <= i < s.len(),
    ensures
        candidates_view(s.remove(i)) == candidates_view(s).remove(i),
{
    assert(candidates_view(s.remove(i)) =~= candidates_view(s).remove(i));
}

/// Picks coins from `have`, sorted by value, for a spend of at least
/// `minimum`: the smallest first until their sum reaches `minimum`, then
/// drops those that the surplus can spare.
pub fn select_inputs(have: Vec<Candidate>, minimum: u64) -> (r: Vec<Candidate>)
    ensures
        candidates_view(r@) == selection(candidates_view(have@), minimum as int),
{
    let ghost s = candidates_view(have@);
    let mut inputs = have;
    let mut sum: u128 = 0;
    let mut i: usize = 0;
    let mut reached = false;
    while i < inputs.len() && !reached
        invariant
            inputs@ == have@,
            s == candidates_view(inputs@),
            i <= inputs.len(),
            sum == total_value(s.take(i as int)),
            !reached ==> sum <= u64::MAX,
            reached ==> i >= 1 && taken_count(s, minimum as int, 0) == i,
            !reached ==> taken_count(s, minimum as int, 0) == taken_count(s, minimum as int, i as int),
        decreases inputs.len() - i,
    {
        proof {
            lemma_total_step(s, i as int);
        }
        sum = sum + inputs[i].1.output.value as u128;
        i = i + 1;
        if sum >= minimum as u128 {
            reached = true;
        }
    }
    proof {
        if !reached {
            lemma_taken_count_range(s, minimum as int, i as int);
        }
        lemma_view_take(inputs@, i as int);
    }
    inputs.truncate(i);
    assert(candidates_view(inputs@) == taken(s, minimum as int));
    assert(total_value(taken(s, minimum as int)) == sum);
    if sum > minimum as u128 {
        let mut change: u128 = sum - minimum as u128;
        let ghost t = candidates_view(inputs@);
        loop
            invariant
                shed(candidates_view(inputs@), change as int) == shed(t, (sum - minimum) as int),
            ensures
                candidates_view(inputs@) == shed(t, (sum - minimum) as int),
            decreases inputs.len(),
        {
            let ghost cur = candidates_view(inputs@);
            let mut j: usize = 0;
            while j < inputs.len() && inputs[j].1.output.value as u128 > change
                invariant
                    j <= inputs.len(),
                    cur == candidates_view(inputs@),
                    first_within(cur, change as int, 0) == first_within(cur, change as int, j as int),
                decreases inputs.len() - j,
            {
                j = j + 1;
            }
            if j == inputs.len() {
                assert(shed(cur, change as int) == cur);
                break;
            }
            let removed = inputs[j].1.output.value as u128;
            change = change - removed;
            proof {
                lemma_view_remove(inputs@, j as int);
            }
            inputs.remove(j);
        }
    }
    inputs
}

} // verus!
