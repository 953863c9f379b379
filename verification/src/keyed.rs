//! Association lists keyed by names: what the library uses where a map
//! from names to values is needed.
use vstd::prelude::*;

verus! {

/// The keys of the list, in order.
pub open spec fn keys<X>(s: Seq<(Seq<char>, X)>) -> Seq<Seq<char>> {
    s.map_values(|p: (Seq<char>, X)| p.0)
}

/// No key occurs twice.
pub open spec fn distinct(s: Seq<Seq<char>>) -> bool {
    forall|i: int, j: int| 0 <= i < s.len() && 0 <= j < s.len() && i != j ==> s[i] != s[j]
}

/// Index of the last entry with key `k`, or -1 when there is none.
pub open spec fn pos<X>(s: Seq<(Seq<char>, X)>, k: Seq<char>) -> int
    decreases s.len(),
{
    if s.len() == 0 {
        -1
    } else if s.last().0 == k {
        s.len() - 1
    } else {
        pos(s.drop_last(), k)
    }
}

/// The value stored under `k`, if any.
pub open spec fn find<X>(s: Seq<(Seq<char>, X)>, k: Seq<char>) -> Option<X> {
    if pos(s, k) >= 0 {
        Some(s[pos(s, k)].1)
    } else {
        None
    }
}

/// The list with `k` now mapped to `v`: in place when `k` is present, at the
/// end otherwise.
pub open spec fn put<X>(s: Seq<(Seq<char>, X)>, k: Seq<char>, v: X) -> Seq<(Seq<char>, X)> {
    if pos(s, k) >= 0 {
        s.update(pos(s, k), (k, v))
    } else {
        s.push((k, v))
    }
}

pub proof fn lemma_pos<X>(s: Seq<(Seq<char>, X)>, k: Seq<char>)
    ensures
        -1 <= pos(s, k) < s.len(),
        pos(s, k) >= 0 ==> s[pos(s, k)].0 == k,
        pos(s, k) == -1 <==> forall|j: int| 0 <= j < s.len() ==> s[j].0 != k,
        distinct(keys(s)) ==> forall|j: int| 0 <= j < s.len() && s[j].0 == k ==> j == pos(s, k),
    decreases s.len(),
{
    if s.len() > 0 {
        lemma_pos(s.drop_last(), k);
        assert(keys(s.drop_last()) =~= keys(s).drop_last());
        if distinct(keys(s)) {
            assert(distinct(keys(s.drop_last()))) by {
                assert forall|a: int, b: int|
                    0 <= a < keys(s.drop_last()).len() && 0 <= b < keys(s.drop_last()).len() && a
                        != b implies keys(s.drop_last())[a] != keys(s.drop_last())[b] by {
                    assert(keys(s.drop_last())[a] == keys(s)[a]);
                    assert(keys(s.drop_last())[b] == keys(s)[b]);
                }
            }
            assert forall|j: int| 0 <= j < s.len() && s[j].0 == k implies j == pos(s, k) by {
                assert(keys(s)[j] == s[j].0);
                assert(keys(s)[s.len() - 1] == s.last().0);
                if j < s.len() - 1 {
                    assert(s.drop_last()[j] == s[j]);
                }
            }
        }
        if pos(s, k) == -1 {
            assert forall|j: int| 0 <= j < s.len() implies s[j].0 != k by {
                if j < s.len() - 1 {
                    assert(s[j] == s.drop_last()[j]);
                }
            }
        }
    }
}

/// Appending an entry: its key now finds the entry's value, every other key
/// what it found before.
pub proof fn lemma_find_push<X>(s: Seq<(Seq<char>, X)>, e: (Seq<char>, X), k: Seq<char>)
    ensures
        find(s.push(e), k) == if e.0 == k {
            Some(e.1)
        } else {
            find(s, k)
        },
{
    assert(s.push(e).drop_last() =~= s);
    if e.0 != k {
        lemma_pos(s, k);
        if pos(s, k) >= 0 {
            assert(s.push(e)[pos(s, k)] == s[pos(s, k)]);
        }
    }
}

/// In a list whose keys are distinct, no entry before the one at `p` has
/// its key.
pub proof fn lemma_find_before<X>(s: Seq<(Seq<char>, X)>, p: int)
    requires
        distinct(keys(s)),
        0 <= p < s.len(),
    ensures
        find(s.take(p), s[p].0) is None,
{
    lemma_pos(s.take(p), s[p].0);
    if pos(s.take(p), s[p].0) >= 0 {
        let q = pos(s.take(p), s[p].0);
        assert(keys(s)[q] == s[q].0);
        assert(keys(s)[p] == s[p].0);
    }
}

/// Putting a key keeps the keys distinct; the key is then mapped to the
/// value, and every other key keeps its value.
pub proof fn lemma_put<X>(s: Seq<(Seq<char>, X)>, k: Seq<char>, v: X)
    requires
        distinct(keys(s)),
    ensures
        distinct(keys(put(s, k, v))),
        find(put(s, k, v), k) == Some(v),
        forall|o: Seq<char>| o != k ==> find(put(s, k, v), o) == find(s, o),
        pos(s, k) >= 0 ==> keys(put(s, k, v)) == keys(s),
        pos(s, k) < 0 ==> keys(put(s, k, v)) == keys(s).push(k),
{
    lemma_pos(s, k);
    let t = put(s, k, v);
    if pos(s, k) >= 0 {
        assert(keys(t) =~= keys(s)) by {
            assert forall|j: int| 0 <= j < s.len() implies keys(t)[j] == keys(s)[j] by {
                if j == pos(s, k) {
                } else {
                    assert(t[j] == s[j]);
                }
            }
        }
    } else {
        assert(keys(t) =~= keys(s).push(k));
        assert forall|a: int, b: int|
            0 <= a < keys(t).len() && 0 <= b < keys(t).len() && a != b implies keys(t)[a]
            != keys(t)[b] by {
            if a < s.len() {
                assert(keys(t)[a] == keys(s)[a]);
                assert(keys(s)[a] == s[a].0);
            }
            if b < s.len() {
                assert(keys(t)[b] == keys(s)[b]);
                assert(keys(s)[b] == s[b].0);
            }
        }
    }
    lemma_pos(t, k);
    assert(keys(t)[pos(s, k) as int] == k || pos(s, k) < 0);
    if pos(s, k) >= 0 {
        assert(t[pos(s, k)].0 == k);
    } else {
        assert(t[s.len() as int].0 == k);
    }
    assert forall|o: Seq<char>| o != k implies find(t, o) == find(s, o) by {
        lemma_pos(t, o);
        lemma_pos(s, o);
        if pos(s, o) >= 0 {
            assert(t[pos(s, o)] == s[pos(s, o)]);
            assert(t[pos(s, o)].0 == o);
        }
        if pos(t, o) >= 0 {
            assert(t[pos(t, o)].0 == o);
            if pos(t, o) < s.len() {
                assert(t[pos(t, o)] == s[pos(t, o)]);
            }
        }
    }
}

} // verus!

verus! {

/// The (name, value) entries of a vector of named values.
pub open spec fn named<X>(v: Seq<(String, X)>) -> Seq<(Seq<char>, X)> {
    v.map_values(|p: (String, X)| (p.0@, p.1))
}

/// Index of the entry named `k` in `v`.
pub fn index_of<X>(v: &Vec<(String, X)>, k: &String) -> (r: Option<usize>)
    requires
        distinct(keys(named(v@))),
    ensures
        match r {
            Some(i) => i < v@.len() && i as int == pos(named(v@), k@),
            None => pos(named(v@), k@) == -1,
        },
{
    proof {
        lemma_pos(named(v@), k@);
    }
    assert(named(v@).len() == v@.len());
    let mut i: usize = 0;
    while i < v.len()
        invariant
            i <= v@.len(),
            named(v@).len() == v@.len(),
            -1 <= pos(named(v@), k@) < v@.len(),
            distinct(keys(named(v@))) ==> forall|j: int|
                0 <= j < v@.len() && named(v@)[j].0 == k@ ==> j == pos(named(v@), k@),
            pos(named(v@), k@) == -1 <==> forall|j: int|
                0 <= j < v@.len() ==> named(v@)[j].0 != k@,
            distinct(keys(named(v@))),
            forall|j: int| 0 <= j < i ==> named(v@)[j].0 != k@,
        decreases v@.len() - i,
    {
        if v[i].0 == *k {
            assert(named(v@)[i as int].0 == k@);
            return Some(i);
        }
        i = i + 1;
    }
    None
}

/// Maps `k` to `value` in `v`, in place when present, at the end otherwise.
pub fn put_named<X>(v: &mut Vec<(String, X)>, k: String, value: X)
    requires
        distinct(keys(named(old(v)@))),
    ensures
        distinct(keys(named(final(v)@))),
        named(final(v)@) == put(named(old(v)@), k@, value),
{
    let ghost before = named(v@);
    let ghost key = k@;
    let ghost val = value;
    proof {
        lemma_put(before, key, val);
    }
    match index_of(v, &k) {
        Some(i) => {
            v.set(i, (k, value));
            assert(named(v@) =~= before.update(i as int, (key, val)));
        },
        None => {
            v.push((k, value));
            assert(named(v@) =~= before.push((key, val)));
        },
    }
}

} // verus!
