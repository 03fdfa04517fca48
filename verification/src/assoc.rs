//! Association lists keyed by text, and the finite maps they stand for.

use vstd::prelude::*;
use crate::order::lemma_precedes_irreflexive;
use crate::order::lemma_precedes_transitive;
use crate::order::precedes;
use crate::order::rank;
use crate::order::Rank;

verus! {

/// Whether the pair at `i` in `s` has the key `k`.
pub open spec fn key_at<V>(s: Seq<(Seq<char>, V)>, i: int, k: Seq<char>) -> bool {
    0 <= i < s.len() && s[i].0 == k
}

/// Whether some pair of `s` has the key `k`.
pub open spec fn has_key<V>(s: Seq<(Seq<char>, V)>, k: Seq<char>) -> bool {
    exists|i: int| key_at(s, i, k)
}

/// A position at which `k` is the key, where there is one.
pub open spec fn index_of_key<V>(s: Seq<(Seq<char>, V)>, k: Seq<char>) -> int {
    choose|i: int| key_at(s, i, k)
}

/// Whether no key occurs twice in `s`.
pub open spec fn distinct_keys<V>(s: Seq<(Seq<char>, V)>) -> bool {
    forall|i: int, j: int| 0 <= i < j < s.len() ==> (#[trigger] s[i]).0 != (#[trigger] s[j]).0
}

/// The map from each key of `s` to the value beside it.
pub open spec fn as_map<V>(s: Seq<(Seq<char>, V)>) -> Map<Seq<char>, V> {
    Map::new(|k: Seq<char>| has_key(s, k), |k: Seq<char>| s[index_of_key(s, k)].1)
}

/// With distinct keys, the map gives at each key the value at that key's
/// one position.
pub proof fn lemma_as_map_at<V>(s: Seq<(Seq<char>, V)>, i: int)
    requires
        distinct_keys(s),
        0 <= i < s.len(),
    ensures
        as_map(s).contains_key(s[i].0),
        as_map(s)[s[i].0] == s[i].1,
        index_of_key(s, s[i].0) == i,
{
    assert(key_at(s, i, s[i].0));
    let j = index_of_key(s, s[i].0);
    assert(key_at(s, j, s[i].0));
    if j != i {
        if j < i {
            assert(s[j].0 != s[i].0);
        } else {
            assert(s[i].0 != s[j].0);
        }
    }
}

/// The empty list stands for the empty map.
pub proof fn lemma_as_map_empty<V>(s: Seq<(Seq<char>, V)>)
    requires
        s.len() == 0,
    ensures
        as_map(s) == Map::<Seq<char>, V>::empty(),
        distinct_keys(s),
{
    assert forall|k: Seq<char>| !has_key(s, k) by {
        if has_key(s, k) {
            let i = index_of_key(s, k);
            assert(key_at(s, i, k));
        }
    }
    assert(as_map(s) =~= Map::<Seq<char>, V>::empty());
}

/// Putting a pair with a new key anywhere into the list inserts it into the
/// map.
pub proof fn lemma_as_map_insert<V>(s: Seq<(Seq<char>, V)>, p: int, k: Seq<char>, v: V)
    requires
        distinct_keys(s),
        0 <= p <= s.len(),
        !has_key(s, k),
    ensures
        distinct_keys(s.insert(p, (k, v))),
        as_map(s.insert(p, (k, v))) == as_map(s).insert(k, v),
{
    let t = s.insert(p, (k, v));
    assert forall|i: int, j: int| 0 <= i < j < t.len() implies (#[trigger] t[i]).0 != (
    #[trigger] t[j]).0 by {
        let a = if i < p {
            i
        } else {
            i - 1
        };
        let b = if j < p {
            j
        } else {
            j - 1
        };
        if i == p {
            assert(key_at(s, b, s[b].0));
        } else if j == p {
            assert(key_at(s, a, s[a].0));
        } else {
            assert(s[a].0 != s[b].0);
        }
    }
    assert forall|q: Seq<char>| has_key(t, q) <==> (q == k || has_key(s, q)) by {
        if has_key(t, q) {
            let i = index_of_key(t, q);
            assert(key_at(t, i, q));
            if i != p {
                let a = if i < p {
                    i
                } else {
                    i - 1
                };
                assert(key_at(s, a, q));
            }
        }
        if q == k {
            assert(key_at(t, p, q));
        }
        if has_key(s, q) {
            let a = index_of_key(s, q);
            assert(key_at(s, a, q));
            let i = if a < p {
                a
            } else {
                a + 1
            };
            assert(key_at(t, i, q));
        }
    }
    assert forall|q: Seq<char>| has_key(t, q) implies #[trigger] as_map(t)[q] == as_map(s).insert(
        k,
        v,
    )[q] by {
        let i = index_of_key(t, q);
        assert(key_at(t, i, q));
        lemma_as_map_at(t, i);
        if i != p {
            let a = if i < p {
                i
            } else {
                i - 1
            };
            lemma_as_map_at(s, a);
        }
    }
    assert(as_map(t) =~= as_map(s).insert(k, v));
}

/// Replacing the value beside a key replaces it in the map.
pub proof fn lemma_as_map_update<V>(s: Seq<(Seq<char>, V)>, p: int, v: V)
    requires
        distinct_keys(s),
        0 <= p < s.len(),
    ensures
        distinct_keys(s.update(p, (s[p].0, v))),
        as_map(s.update(p, (s[p].0, v))) == as_map(s).insert(s[p].0, v),
{
    let k = s[p].0;
    let t = s.update(p, (k, v));
    assert forall|i: int, j: int| 0 <= i < j < t.len() implies (#[trigger] t[i]).0 != (
    #[trigger] t[j]).0 by {
        assert(s[i].0 != s[j].0);
    }
    assert forall|q: Seq<char>| has_key(t, q) <==> (q == k || has_key(s, q)) by {
        if has_key(t, q) {
            let i = index_of_key(t, q);
            assert(key_at(t, i, q));
            assert(key_at(s, i, q));
        }
        if q == k {
            assert(key_at(t, p, q));
        }
        if has_key(s, q) {
            let a = index_of_key(s, q);
            assert(key_at(s, a, q));
            assert(key_at(t, a, q));
        }
    }
    assert forall|q: Seq<char>| has_key(t, q) implies #[trigger] as_map(t)[q] == as_map(s).insert(
        k,
        v,
    )[q] by {
        let i = index_of_key(t, q);
        assert(key_at(t, i, q));
        lemma_as_map_at(t, i);
        if i != p {
            lemma_as_map_at(s, i);
        }
    }
    assert(as_map(t) =~= as_map(s).insert(k, v));
}

/// Taking a pair out of the list removes its key from the map.
pub proof fn lemma_as_map_remove<V>(s: Seq<(Seq<char>, V)>, p: int)
    requires
        distinct_keys(s),
        0 <= p < s.len(),
    ensures
        distinct_keys(s.remove(p)),
        as_map(s.remove(p)) == as_map(s).remove(s[p].0),
{
    let k = s[p].0;
    let t = s.remove(p);
    assert forall|i: int, j: int| 0 <= i < j < t.len() implies (#[trigger] t[i]).0 != (
    #[trigger] t[j]).0 by {
        let a = if i < p {
            i
        } else {
            i + 1
        };
        let b = if j < p {
            j
        } else {
            j + 1
        };
        assert(s[a].0 != s[b].0);
    }
    assert forall|q: Seq<char>| has_key(t, q) <==> (q != k && has_key(s, q)) by {
        if has_key(t, q) {
            let i = index_of_key(t, q);
            assert(key_at(t, i, q));
            let a = if i < p {
                i
            } else {
                i + 1
            };
            assert(key_at(s, a, q));
            if a < p {
                assert(s[a].0 != s[p].0);
            } else {
                assert(s[p].0 != s[a].0);
            }
        }
        if q != k && has_key(s, q) {
            let a = index_of_key(s, q);
            assert(key_at(s, a, q));
            let i = if a < p {
                a
            } else {
                a - 1
            };
            assert(key_at(t, i, q));
        }
    }
    assert forall|q: Seq<char>| has_key(t, q) implies #[trigger] as_map(t)[q] == as_map(s).remove(
        k,
    )[q] by {
        let i = index_of_key(t, q);
        assert(key_at(t, i, q));
        lemma_as_map_at(t, i);
        let a = if i < p {
            i
        } else {
            i + 1
        };
        lemma_as_map_at(s, a);
    }
    assert(as_map(t) =~= as_map(s).remove(k));
}

/// A list of distinct keys is as long as its map has keys.
pub proof fn lemma_as_map_len<V>(s: Seq<(Seq<char>, V)>)
    requires
        distinct_keys(s),
    ensures
        as_map(s).dom().finite(),
        as_map(s).dom().len() == s.len(),
    decreases s.len(),
{
    if s.len() == 0 {
        lemma_as_map_empty(s);
    } else {
        let p = s.len() - 1;
        let t = s.remove(p);
        lemma_as_map_remove(s, p);
        lemma_as_map_len(t);
        lemma_as_map_at(s, p);
        assert(as_map(s).dom() =~= as_map(t).dom().insert(s[p].0));
    }
}

/// Whether the keys of `s` stand in strictly ascending order.
pub open spec fn ascending<V>(s: Seq<(Seq<char>, V)>) -> bool {
    forall|i: int, j: int|
        0 <= i < j < s.len() ==> precedes((#[trigger] s[i]).0, (#[trigger] s[j]).0)
}

/// In an ascending list no key occurs twice.
pub proof fn lemma_ascending_distinct<V>(s: Seq<(Seq<char>, V)>)
    requires
        ascending(s),
    ensures
        distinct_keys(s),
{
    assert forall|i: int, j: int| 0 <= i < j < s.len() implies (#[trigger] s[i]).0 != (
    #[trigger] s[j]).0 by {
        lemma_precedes_irreflexive(s[i].0);
    }
}

/// The map that results from putting the pairs of `s` in one after the
/// other: of two pairs with one key the later one prevails.
pub open spec fn folded<V>(s: Seq<(Seq<char>, V)>) -> Map<Seq<char>, V>
    decreases s.len(),
{
    if s.len() == 0 {
        Map::empty()
    } else {
        folded(s.drop_last()).insert(s.last().0, s.last().1)
    }
}

/// Where no key occurs twice, no pair prevails over another: putting the
/// pairs in one after the other gives the map that the list stands for.
pub proof fn lemma_folded_distinct<V>(s: Seq<(Seq<char>, V)>)
    requires
        distinct_keys(s),
    ensures
        folded(s) == as_map(s),
    decreases s.len(),
{
    if s.len() == 0 {
        lemma_as_map_empty(s);
    } else {
        let n = s.len() - 1;
        let init = s.drop_last();
        assert forall|i: int, j: int| 0 <= i < j < init.len() implies (#[trigger] init[i]).0 != (
        #[trigger] init[j]).0 by {
            assert(s[i].0 != s[j].0);
        }
        lemma_folded_distinct(init);
        assert(!has_key(init, s[n].0)) by {
            if has_key(init, s[n].0) {
                let j = index_of_key(init, s[n].0);
                assert(key_at(init, j, s[n].0));
                assert(s[j].0 != s[n].0);
            }
        }
        lemma_as_map_insert(init, n, s[n].0, s[n].1);
        assert(init.insert(n, (s[n].0, s[n].1)) =~= s);
    }
}

/// The keys and the views of the values of a list of entries.
pub open spec fn keyed<V: View>(s: Seq<(String, V)>) -> Seq<(Seq<char>, V::V)> {
    s.map_values(|e: (String, V)| (e.0@, e.1@))
}

/// Where `key` stands in an ascending list: its position and `true` where
/// it is a key, else the position at which it would have to be put and
/// `false`.
pub(crate) fn locate<V: View>(entries: &Vec<(String, V)>, key: &str) -> (r: (usize, bool))
    requires
        ascending(keyed(entries@)),
    ensures
        r.0 <= entries.len(),
        r.1 ==> key_at(keyed(entries@), r.0 as int, key@),
        !r.1 ==> !has_key(keyed(entries@), key@),
        forall|j: int| 0 <= j < r.0 ==> precedes((#[trigger] keyed(entries@)[j]).0, key@),
        forall|j: int|
            r.0 <= j < entries.len() && !(r.1 && j == r.0) ==> precedes(
                key@,
                (#[trigger] keyed(entries@)[j]).0,
            ),
{
    let ghost all = keyed(entries@);
    let mut i: usize = 0;
    while i < entries.len()
        invariant
            i <= entries.len(),
            all == keyed(entries@),
            ascending(all),
            forall|j: int| 0 <= j < i ==> precedes((#[trigger] all[j]).0, key@),
        decreases entries.len() - i,
    {
        match rank(entries[i].0.as_str(), key) {
            Rank::Before => {},
            Rank::Same => {
                assert(all[i as int].0 == key@);
                assert forall|j: int| i < j < entries.len() implies precedes(
                    key@,
                    (#[trigger] all[j]).0,
                ) by {
                    assert(precedes(all[i as int].0, all[j].0));
                }
                return (i, true);
            },
            Rank::After => {
                assert(precedes(key@, all[i as int].0));
                assert forall|j: int| i <= j < entries.len() implies precedes(
                    key@,
                    (#[trigger] all[j]).0,
                ) by {
                    if i < j {
                        assert(precedes(all[i as int].0, all[j].0));
                        lemma_precedes_transitive(key@, all[i as int].0, all[j].0);
                    }
                }
                proof {
                    lemma_precedes_irreflexive(key@);
                    if has_key(all, key@) {
                        let k = index_of_key(all, key@);
                        assert(key_at(all, k, key@));
                        if k < i {
                            assert(precedes(all[k].0, key@));
                        } else {
                            assert(precedes(key@, all[k].0));
                        }
                    }
                }
                return (i, false);
            },
        }
        i = i + 1;
    }
    proof {
        lemma_precedes_irreflexive(key@);
        if has_key(all, key@) {
            let k = index_of_key(all, key@);
            assert(key_at(all, k, key@));
            assert(precedes(all[k].0, key@));
        }
    }
    (i, false)
}

/// Puts `value` under `key` into an ascending list, in place of what stood
/// under that key, and keeps the list ascending.
pub(crate) fn put<V: View>(entries: &mut Vec<(String, V)>, key: &str, value: V)
    requires
        ascending(keyed(old(entries)@)),
    ensures
        ascending(keyed(final(entries)@)),
        as_map(keyed(final(entries)@)) == as_map(keyed(old(entries)@)).insert(key@, value@),
{
    let ghost before = keyed(entries@);
    let ghost view = value@;
    let (pos, found) = locate(entries, key);
    if found {
        let _ = entries.remove(pos);
    }
    entries.insert(pos, (key.to_owned(), value));
    proof {
        let after = keyed(entries@);
        lemma_ascending_distinct(before);
        if found {
            lemma_as_map_update(before, pos as int, view);
            assert(after =~= before.update(pos as int, (key@, view)));
            assert forall|i: int, j: int| 0 <= i < j < after.len() implies precedes(
                (#[trigger] after[i]).0,
                (#[trigger] after[j]).0,
            ) by {
                assert(precedes(before[i].0, before[j].0));
            }
        } else {
            lemma_as_map_insert(before, pos as int, key@, view);
            assert(after =~= before.insert(pos as int, (key@, view)));
            assert forall|i: int, j: int| 0 <= i < j < after.len() implies precedes(
                (#[trigger] after[i]).0,
                (#[trigger] after[j]).0,
            ) by {
                if i == pos {
                    assert(precedes(key@, before[j - 1].0));
                } else if j == pos {
                    assert(precedes(before[i].0, key@));
                } else {
                    let a = if i < pos {
                        i
                    } else {
                        i - 1
                    };
                    let b = if j < pos {
                        j
                    } else {
                        j - 1
                    };
                    assert(precedes(before[a].0, before[b].0));
                }
            }
        }
    }
}

/// Takes the entry of `key` out of an ascending list. Where there is
/// none, the list stays as it is.
pub(crate) fn discard<V: View>(entries: &mut Vec<(String, V)>, key: &str)
    requires
        ascending(keyed(old(entries)@)),
    ensures
        ascending(keyed(final(entries)@)),
        as_map(keyed(final(entries)@)) == as_map(keyed(old(entries)@)).remove(key@),
        !as_map(keyed(old(entries)@)).contains_key(key@) ==> final(entries)@ == old(entries)@,
{
    let ghost before = keyed(entries@);
    let (pos, found) = locate(entries, key);
    proof {
        lemma_ascending_distinct(before);
    }
    if found {
        let _ = entries.remove(pos);
        proof {
            let after = keyed(entries@);
            lemma_as_map_remove(before, pos as int);
            lemma_as_map_at(before, pos as int);
            assert(after =~= before.remove(pos as int));
            assert forall|i: int, j: int| 0 <= i < j < after.len() implies precedes(
                (#[trigger] after[i]).0,
                (#[trigger] after[j]).0,
            ) by {
                let a = if i < pos {
                    i
                } else {
                    i + 1
                };
                let b = if j < pos {
                    j
                } else {
                    j + 1
                };
                assert(precedes(before[a].0, before[b].0));
            }
        }
    } else {
        proof {
            assert(as_map(before).remove(key@) =~= as_map(before));
        }
    }
}

} // verus!
