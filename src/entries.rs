use vstd::prelude::*;

verus! {

/// Whether some entry of `s` has key `k`.
pub open spec fn has_key<K, V>(s: Seq<(K, V)>, k: K) -> bool {
    exists|i: int| 0 <= i < s.len() && #[trigger] s[i].0 == k
}

/// No two entries of `s` share a key.
pub open spec fn unique_keys<K, V>(s: Seq<(K, V)>) -> bool {
    forall|i: int, j: int|
        0 <= i < s.len() && 0 <= j < s.len() && i != j ==> #[trigger] s[i].0 != #[trigger] s[j].0
}

/// The map that a sequence of entries with unique keys stands for.
pub open spec fn entries_map<K, V: View>(s: Seq<(K, V)>) -> Map<K, V::V> {
    Map::new(
        |k: K| has_key(s, k),
        |k: K| s[choose|i: int| 0 <= i < s.len() && #[trigger] s[i].0 == k].1@,
    )
}

/// An entry of a sequence with unique keys is what the map holds at its key.
pub proof fn lemma_entry<K, V: View>(s: Seq<(K, V)>, i: int)
    requires
        unique_keys(s),
        0 <= i < s.len(),
    ensures
        entries_map(s).contains_key(s[i].0),
        entries_map(s)[s[i].0] == s[i].1@,
{
    let k = s[i].0;
    assert(has_key(s, k));
    let j = choose|j: int| 0 <= j < s.len() && #[trigger] s[j].0 == k;
    assert(s[j].0 == k);
    assert(j == i);
}

/// Removing the entry at `i` removes its key from the map.
pub proof fn lemma_remove_entry<K, V: View>(s: Seq<(K, V)>, i: int)
    requires
        unique_keys(s),
        0 <= i < s.len(),
    ensures
        unique_keys(s.remove(i)),
        entries_map(s.remove(i)) == entries_map(s).remove(s[i].0),
{
    let r = s.remove(i);
    let k = s[i].0;
    s.remove_ensures(i);
    assert forall|a: int, b: int|
        0 <= a < r.len() && 0 <= b < r.len() && a != b implies #[trigger] r[a].0
        != #[trigger] r[b].0 by {
        let sa = if a < i { a } else { a + 1 };
        let sb = if b < i { b } else { b + 1 };
        assert(r[a] == s[sa]);
        assert(r[b] == s[sb]);
    }
    let m = entries_map(s).remove(k);
    assert forall|q: K| #[trigger] has_key(r, q) == m.contains_key(q) by {
        if has_key(r, q) {
            let a = choose|a: int| 0 <= a < r.len() && #[trigger] r[a].0 == q;
            let sa = if a < i { a } else { a + 1 };
            assert(r[a] == s[sa]);
            assert(has_key(s, q));
        }
        if m.contains_key(q) {
            assert(has_key(s, q));
            let a = choose|a: int| 0 <= a < s.len() && #[trigger] s[a].0 == q;
            assert(a != i);
            let ra = if a < i { a } else { a - 1 };
            assert(r[ra] == s[a]);
        }
    }
    assert forall|q: K| #[trigger] m.contains_key(q) implies entries_map(r)[q] == m[q] by {
        assert(has_key(r, q));
        let a = choose|a: int| 0 <= a < r.len() && #[trigger] r[a].0 == q;
        let sa = if a < i { a } else { a + 1 };
        assert(r[a] == s[sa]);
        lemma_entry(r, a);
        lemma_entry(s, sa);
    }
    assert(entries_map(r) =~= m);
}

/// Appending an entry with a new key inserts that key into the map.
pub proof fn lemma_push_entry<K, V: View>(s: Seq<(K, V)>, k: K, v: V)
    requires
        unique_keys(s),
        !has_key(s, k),
    ensures
        unique_keys(s.push((k, v))),
        entries_map(s.push((k, v))) == entries_map(s).insert(k, v@),
{
    let r = s.push((k, v));
    assert forall|a: int, b: int|
        0 <= a < r.len() && 0 <= b < r.len() && a != b implies #[trigger] r[a].0
        != #[trigger] r[b].0 by {
        if a < s.len() {
            assert(r[a] == s[a]);
        }
        if b < s.len() {
            assert(r[b] == s[b]);
        }
    }
    let m = entries_map(s).insert(k, v@);
    assert forall|q: K| #[trigger] has_key(r, q) == m.contains_key(q) by {
        if has_key(r, q) {
            let a = choose|a: int| 0 <= a < r.len() && #[trigger] r[a].0 == q;
            if a < s.len() {
                assert(r[a] == s[a]);
                assert(has_key(s, q));
            }
        }
        if m.contains_key(q) {
            if q == k {
                assert(r[s.len() as int].0 == q);
            } else {
                assert(has_key(s, q));
                let a = choose|a: int| 0 <= a < s.len() && #[trigger] s[a].0 == q;
                assert(r[a] == s[a]);
            }
        }
    }
    assert forall|q: K| #[trigger] m.contains_key(q) implies entries_map(r)[q] == m[q] by {
        assert(has_key(r, q));
        let a = choose|a: int| 0 <= a < r.len() && #[trigger] r[a].0 == q;
        lemma_entry(r, a);
        if a < s.len() {
            assert(r[a] == s[a]);
            lemma_entry(s, a);
        }
    }
    assert(entries_map(r) =~= m);
}

/// The empty sequence stands for the empty map.
pub proof fn lemma_empty_entries<K, V: View>(s: Seq<(K, V)>)
    requires
        s.len() == 0,
    ensures
        unique_keys(s),
        entries_map(s) == Map::<K, V::V>::empty(),
{
    assert(entries_map(s) =~= Map::<K, V::V>::empty());
}

/// Taking one more entry of a sequence with unique keys inserts its key.
pub proof fn lemma_take_entry<K, V: View>(s: Seq<(K, V)>, i: int)
    requires
        unique_keys(s),
        0 <= i < s.len(),
    ensures
        unique_keys(s.take(i)),
        !has_key(s.take(i), s[i].0),
        s.take(i + 1) == s.take(i).push(s[i]),
        entries_map(s.take(i + 1)) == entries_map(s.take(i)).insert(s[i].0, s[i].1@),
{
    let t = s.take(i);
    assert(s.take(i + 1) =~= t.push(s[i]));
    assert forall|a: int, b: int|
        0 <= a < t.len() && 0 <= b < t.len() && a != b implies #[trigger] t[a].0
        != #[trigger] t[b].0 by {
        assert(t[a] == s[a]);
        assert(t[b] == s[b]);
    }
    if has_key(t, s[i].0) {
        let a = choose|a: int| 0 <= a < t.len() && #[trigger] t[a].0 == s[i].0;
        assert(t[a] == s[a]);
    }
    lemma_push_entry(t, s[i].0, s[i].1);
}

/// The whole sequence is taken once every entry is.
pub proof fn lemma_take_all<K, V>(s: Seq<(K, V)>)
    ensures
        s.take(s.len() as int) == s,
{
    assert(s.take(s.len() as int) =~= s);
}

} // verus!
