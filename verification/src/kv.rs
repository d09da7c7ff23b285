//! Association lists keyed by strings, and their map views.
//!
//! The library stores every keyed collection as a vector of pairs with
//! pairwise-distinct keys, and states contracts over the corresponding
//! `Map` from key views to values.

use vstd::prelude::*;

verus! {

/// True when the key views of the entries are pairwise distinct.
pub open spec fn unique_keys<V>(s: Seq<(String, V)>) -> bool {
    forall|i: int, j: int| 0 <= i < j < s.len() ==> s[i].0@ != s[j].0@
}

/// True when some entry's key has the given view.
pub open spec fn has_key<V>(s: Seq<(String, V)>, k: Seq<char>) -> bool {
    exists|i: int| 0 <= i < s.len() && s[i].0@ == k
}

/// The map view of an association list; on a duplicate key the later entry
/// wins.
pub open spec fn kv_map<V>(s: Seq<(String, V)>) -> Map<Seq<char>, V>
    decreases s.len(),
{
    if s.len() == 0 {
        Map::empty()
    } else {
        kv_map(s.drop_last()).insert(s.last().0@, s.last().1)
    }
}

/// The domain of the map view is exactly the set of key views.
pub proof fn lemma_kv_map_dom<V>(s: Seq<(String, V)>)
    ensures
        forall|k: Seq<char>| #[trigger] kv_map(s).dom().contains(k) <==> has_key(s, k),
    decreases s.len(),
{
    if s.len() > 0 {
        let d = s.drop_last();
        lemma_kv_map_dom(d);
        assert forall|k: Seq<char>| #[trigger] kv_map(s).dom().contains(k) implies has_key(s, k) by {
            if k == s.last().0@ {
                assert(s[s.len() - 1].0@ == k);
            } else {
                assert(kv_map(d).dom().contains(k));
                assert(has_key(d, k));
                let i = choose|i: int| 0 <= i < d.len() && d[i].0@ == k;
                assert(d[i] == s[i]);
                assert(s[i].0@ == k);
            }
        }
        assert forall|k: Seq<char>| has_key(s, k) implies #[trigger] kv_map(s).dom().contains(k) by {
            let i = choose|i: int| 0 <= i < s.len() && s[i].0@ == k;
            if i < s.len() - 1 {
                assert(d[i] == s[i]);
                assert(has_key(d, k));
                assert(kv_map(d).dom().contains(k));
            }
        }
    }
}

/// With pairwise-distinct keys, every entry is reflected verbatim in the map
/// view.
pub proof fn lemma_kv_map_index<V>(s: Seq<(String, V)>, i: int)
    requires
        unique_keys(s),
        0 <= i < s.len(),
    ensures
        kv_map(s).dom().contains(s[i].0@),
        kv_map(s)[s[i].0@] == s[i].1,
    decreases s.len(),
{
    if i == s.len() - 1 {
        lemma_kv_map_dom(s);
    } else {
        assert(unique_keys(s.drop_last())) by {
            assert(forall|a: int, b: int|
                0 <= a < b < s.drop_last().len() ==> s.drop_last()[a].0@ != s.drop_last()[b].0@);
        }
        lemma_kv_map_index(s.drop_last(), i);
        assert(s[i].0@ != s.last().0@);
    }
}

/// Appending an entry updates the map view at that entry's key.
pub proof fn lemma_kv_map_push<V>(s: Seq<(String, V)>, p: (String, V))
    ensures
        kv_map(s.push(p)) == kv_map(s).insert(p.0@, p.1),
{
    assert(s.push(p).drop_last() =~= s);
}

/// Replacing an entry in place updates the map view at that entry's key.
pub proof fn lemma_kv_map_update<V>(s: Seq<(String, V)>, i: int, p: (String, V))
    requires
        unique_keys(s),
        0 <= i < s.len(),
        p.0@ == s[i].0@,
    ensures
        kv_map(s.update(i, p)) == kv_map(s).insert(p.0@, p.1),
        unique_keys(s.update(i, p)),
    decreases s.len(),
{
    assert(unique_keys(s.update(i, p)));
    if i == s.len() - 1 {
        assert(s.update(i, p).drop_last() =~= s.drop_last());
        assert(s.update(i, p).last() == p);
    } else {
        let d = s.drop_last();
        assert(unique_keys(d));
        assert(s.update(i, p).drop_last() =~= d.update(i, p));
        lemma_kv_map_update(d, i, p);
        assert(s[i].0@ != s.last().0@);
        assert(kv_map(s.update(i, p)) =~= kv_map(s).insert(p.0@, p.1));
    }
}

/// Looks an entry up by key; returns the index of the first entry whose key
/// equals the one given.
pub fn find_key<V>(s: &Vec<(String, V)>, k: &String) -> (r: Option<usize>)
    ensures
        match r {
            Some(i) => i < s@.len() && s@[i as int].0@ == k@ && forall|j: int|
                0 <= j < i ==> s@[j].0@ != k@,
            None => !has_key(s@, k@),
        },
{
    let n = s.len();
    let mut i: usize = 0;
    while i < n
        invariant
            0 <= i <= n,
            n == s@.len(),
            forall|j: int| 0 <= j < i ==> s@[j].0@ != k@,
        decreases n - i,
    {
        if s[i].0 == *k {
            return Some(i);
        }
        i += 1;
    }
    None
}

} // verus!
