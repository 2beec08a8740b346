//! Association lists keyed by device keys.
//!
//! Per-device data is held in vectors of `(key, value)` pairs whose keys are
//! byte strings.  Their mathematical model is the finite map obtained by
//! inserting the pairs front to back, so a later pair shadows an earlier one
//! with the same key; the vectors the library builds carry distinct keys, on
//! which the two views agree.

use vstd::prelude::*;
use crate::parse::bytes_eq;

verus! {

/// View of a pair list with the keys taken to byte sequences.
pub open spec fn kv_view<T>(s: Seq<(Vec<u8>, T)>) -> Seq<(Seq<u8>, T)> {
    Seq::new(s.len(), |i: int| (s[i].0@, s[i].1))
}

/// Whether all keys of the pair list differ.
pub open spec fn distinct_keys<T>(s: Seq<(Seq<u8>, T)>) -> bool {
    forall|i: int, j: int| 0 <= i < j < s.len() ==> s[i].0 != s[j].0
}

/// The finite map a pair list denotes: pairs inserted front to back.
pub open spec fn entries_map<T>(s: Seq<(Seq<u8>, T)>) -> Map<Seq<u8>, T>
    decreases s.len(),
{
    if s.len() == 0 {
        Map::empty()
    } else {
        entries_map(s.drop_last()).insert(s.last().0, s.last().1)
    }
}

/// A key is in the map exactly when some pair carries it.
pub proof fn lemma_entries_map_contains<T>(s: Seq<(Seq<u8>, T)>, k: Seq<u8>)
    ensures
        entries_map(s).contains_key(k) <==> exists|i: int| 0 <= i < s.len() && s[i].0 == k,
    decreases s.len(),
{
    if s.len() > 0 {
        lemma_entries_map_contains(s.drop_last(), k);
        if s.last().0 == k {
            assert(s[s.len() - 1].0 == k);
        } else if entries_map(s.drop_last()).contains_key(k) {
            let i = choose|i: int| 0 <= i < s.len() - 1 && s.drop_last()[i].0 == k;
            assert(s[i].0 == k);
        } else if exists|i: int| 0 <= i < s.len() && s[i].0 == k {
            let i = choose|i: int| 0 <= i < s.len() && s[i].0 == k;
            assert(i < s.len() - 1 && s.drop_last()[i].0 == k);
        }
    }
}

/// The map takes each key to the value of its last pair.
pub proof fn lemma_entries_map_last<T>(s: Seq<(Seq<u8>, T)>, i: int)
    requires
        0 <= i < s.len(),
        forall|j: int| i < j < s.len() ==> s[j].0 != s[i].0,
    ensures
        entries_map(s).contains_key(s[i].0),
        entries_map(s)[s[i].0] == s[i].1,
    decreases s.len(),
{
    if i == s.len() - 1 {
    } else {
        assert(forall|j: int| i < j < s.len() - 1 ==> s.drop_last()[j].0 != s.drop_last()[i].0);
        lemma_entries_map_last(s.drop_last(), i);
        assert(s.last().0 != s[i].0);
    }
}

/// Replacing the value of a pair whose key no later pair repeats replaces
/// its entry in the map.
pub proof fn lemma_entries_map_update<T>(s: Seq<(Seq<u8>, T)>, i: int, v: T)
    requires
        0 <= i < s.len(),
        forall|j: int| i < j < s.len() ==> s[j].0 != s[i].0,
    ensures
        entries_map(s.update(i, (s[i].0, v))) =~= entries_map(s).insert(s[i].0, v),
    decreases s.len(),
{
    let t = s.update(i, (s[i].0, v));
    if i == s.len() - 1 {
        assert(t.drop_last() =~= s.drop_last());
        assert(t.last() == (s[i].0, v));
    } else {
        assert(t.drop_last() =~= s.drop_last().update(i, (s[i].0, v)));
        assert(forall|j: int| i < j < s.len() - 1 ==> s.drop_last()[j].0 != s.drop_last()[i].0);
        lemma_entries_map_update(s.drop_last(), i, v);
        assert(t.last() == s.last());
        assert(s.last().0 != s[i].0);
    }
}

/// Index of the last pair carrying `key`, if any.
pub fn kv_position<T>(v: &Vec<(Vec<u8>, T)>, key: &[u8]) -> (r: Option<usize>)
    ensures
        match r {
            Some(j) => {
                &&& j < v@.len()
                &&& kv_view(v@)[j as int].0 == key@
                &&& forall|j2: int| j < j2 < v@.len() ==> kv_view(v@)[j2].0 != key@
            },
            None => forall|j: int| 0 <= j < v@.len() ==> kv_view(v@)[j].0 != key@,
        },
{
    let n = v.len();
    let mut i = n;
    while i > 0
        invariant
            0 <= i <= n,
            n == v@.len(),
            forall|j: int| i <= j < n ==> kv_view(v@)[j].0 != key@,
        decreases i,
    {
        i = i - 1;
        if bytes_eq(v[i].0.as_slice(), key) {
            return Some(i);
        }
    }
    None
}

/// The map's entry for `key`, by value.
pub fn kv_find<T: Copy>(v: &Vec<(Vec<u8>, T)>, key: &[u8]) -> (r: Option<T>)
    ensures
        match r {
            Some(g) => entries_map(kv_view(v@)).contains_key(key@)
                && entries_map(kv_view(v@))[key@] == g,
            None => !entries_map(kv_view(v@)).contains_key(key@),
        },
{
    let r = kv_position(v, key);
    proof {
        lemma_entries_map_contains(kv_view(v@), key@);
    }
    match r {
        Some(j) => {
            proof {
                lemma_entries_map_last(kv_view(v@), j as int);
            }
            Some(v[j].1)
        },
        None => None,
    }
}

} // verus!
