//! The device reducer: summing per-context snapshots per physical device.
//!
//! A process may hold several open contexts against one device; their
//! snapshots are summed field-wise under the shared device key.  The empty
//! device key (a record without a physical-device identifier) groups like
//! any other key.

use vstd::prelude::*;
use crate::snapshot::DrmData;
use crate::table::{
    distinct_keys, entries_map, kv_position, kv_view, lemma_entries_map_contains,
    lemma_entries_map_last, lemma_entries_map_update,
};

verus! {

/// The per-device sums a list of `(device key, snapshot)` entries denotes:
/// each key maps to the field-wise sum of all snapshots entered under it.
pub open spec fn reduce_map(es: Seq<(Seq<u8>, DrmData)>) -> Map<Seq<u8>, DrmData>
    decreases es.len(),
{
    if es.len() == 0 {
        Map::empty()
    } else {
        let m = reduce_map(es.drop_last());
        let l = es.last();
        let prev = if m.contains_key(l.0) {
            m[l.0]
        } else {
            DrmData::spec_zero()
        };
        m.insert(l.0, DrmData::spec_add(prev, l.1))
    }
}

/// A key is summed exactly when some entry carries it.
pub proof fn lemma_reduce_map_contains(es: Seq<(Seq<u8>, DrmData)>, k: Seq<u8>)
    ensures
        reduce_map(es).contains_key(k) <==> exists|i: int| 0 <= i < es.len() && es[i].0 == k,
    decreases es.len(),
{
    if es.len() > 0 {
        lemma_reduce_map_contains(es.drop_last(), k);
        if es.last().0 == k {
            assert(es[es.len() - 1].0 == k);
        } else if reduce_map(es.drop_last()).contains_key(k) {
            let i = choose|i: int| 0 <= i < es.len() - 1 && es.drop_last()[i].0 == k;
            assert(es[i].0 == k);
        } else if exists|i: int| 0 <= i < es.len() && es[i].0 == k {
            let i = choose|i: int| 0 <= i < es.len() && es[i].0 == k;
            assert(i < es.len() - 1 && es.drop_last()[i].0 == k);
        }
    }
}

/// Groups the entries by device key, summing snapshots that share a key.
/// The result carries each key once.
pub fn reduce(entries: Vec<(Vec<u8>, DrmData)>) -> (out: Vec<(Vec<u8>, DrmData)>)
    ensures
        distinct_keys(kv_view(out@)),
        entries_map(kv_view(out@)) == reduce_map(kv_view(entries@)),
{
    let ghost es0 = kv_view(entries@);
    let mut rem = entries;
    let mut out: Vec<(Vec<u8>, DrmData)> = Vec::new();
    let ghost mut i: int = 0;
    proof {
        assert(kv_view(rem@) =~= es0.skip(0));
        assert(kv_view(out@) =~= Seq::<(Seq<u8>, DrmData)>::empty());
        assert(entries_map(kv_view(out@)) =~= reduce_map(es0.take(0)));
    }
    while rem.len() > 0
        invariant
            0 <= i <= es0.len(),
            i + rem@.len() == es0.len(),
            kv_view(rem@) =~= es0.skip(i),
            distinct_keys(kv_view(out@)),
            entries_map(kv_view(out@)) == reduce_map(es0.take(i)),
        decreases rem@.len(),
    {
        let ghost out_pre = kv_view(out@);
        let ghost rem_pre = rem@;
        let (k, d) = rem.remove(0);
        proof {
            assert(es0.skip(i)[0] == (k@, d));
            assert(rem@ =~= rem_pre.skip(1));
            assert forall|j: int| 0 <= j < rem@.len() implies kv_view(rem@)[j] == es0.skip(i + 1)[j] by {
                assert(rem@[j] == rem_pre[j + 1]);
                assert(kv_view(rem_pre)[j + 1] == es0.skip(i)[j + 1]);
                assert(es0.skip(i)[j + 1] == es0[i + 1 + j]);
            }
            assert(kv_view(rem@) =~= es0.skip(i + 1));
            assert(es0.take(i + 1).drop_last() =~= es0.take(i));
            assert(es0.take(i + 1).last() == es0[i]);
            assert(es0[i] == (k@, d));
        }
        match kv_position(&out, k.as_slice()) {
            Some(j) => {
                let mut nd = out[j].1;
                proof {
                    assert(out_pre[j as int].1 == nd);
                    lemma_entries_map_last(out_pre, j as int);
                    lemma_entries_map_contains(out_pre, k@);
                }
                nd.add(d);
                proof {
                    lemma_entries_map_update(out_pre, j as int, nd);
                }
                out.set(j, (k, nd));
                proof {
                    assert(kv_view(out@) =~= out_pre.update(j as int, (out_pre[j as int].0, nd)));
                }
            },
            None => {
                proof {
                    lemma_entries_map_contains(out_pre, k@);
                }
                out.push((k, d));
                proof {
                    assert(kv_view(out@) =~= out_pre.push((es0[i].0, d)));
                    assert(kv_view(out@).drop_last() =~= out_pre);
                    assert(DrmData::spec_add(DrmData::spec_zero(), d) == d);
                    assert(entries_map(kv_view(out@)) == entries_map(out_pre).insert(es0[i].0, d));
                }
            },
        }
        proof {
            i = i + 1;
        }
    }
    proof {
        assert(es0.take(i) =~= es0);
    }
    out
}

} // verus!
