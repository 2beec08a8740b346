//! The per-process device table and one sampling tick.
//!
//! A [`Process`] owns, per physical device, the [`GpuUsage`] state derived
//! from the accounting files of its open contexts.  One call of
//! [`Process::update`] is one tick: the raw file contents are parsed, records
//! without a client identifier are discarded, records sharing a client
//! identifier are collapsed to the last one, the rest are normalized and
//! summed per device, and the device table is reconciled — a device seen for
//! the first time gets a fresh state, a device seen again gets its rates
//! recomputed, and a device that no longer reports is dropped.  That
//! reconciliation is the sole eviction mechanism.

use vstd::prelude::*;
use crate::normalize::{device_key_of, normalize, normalize_spec};
use crate::parse::subvec;
use crate::record::{client_id_of, has_client_id, parse_pairs, parse_record, RawRecord};
use crate::reduce::{reduce, reduce_map};
use crate::snapshot::DrmData;
use crate::table::{distinct_keys, entries_map, kv_find, kv_view};
use crate::usage::GpuUsage;

verus! {

/// Byte-sequence views of a list of file contents.
pub open spec fn contents_view(cs: Seq<Vec<u8>>) -> Seq<Seq<u8>> {
    Seq::new(cs.len(), |i: int| cs[i]@)
}

/// Views of a list of parsed records.
pub open spec fn raw_views(rs: Seq<RawRecord>) -> Seq<Seq<(Seq<u8>, Seq<u8>)>> {
    Seq::new(rs.len(), |i: int| rs[i]@)
}

/// The records the given file contents parse to, in file order.
pub open spec fn records_of(cs: Seq<Seq<u8>>) -> Seq<Seq<(Seq<u8>, Seq<u8>)>> {
    Seq::new(cs.len(), |i: int| parse_pairs(cs[i], 0))
}

/// Whether some record in `rs` carries client identifier `c`.
pub open spec fn later_has_cid(rs: Seq<Seq<(Seq<u8>, Seq<u8>)>>, c: u64) -> bool {
    exists|x: int| 0 <= x < rs.len() && has_client_id(#[trigger] rs[x]) && client_id_of(rs[x]) == c
}

/// The records that survive selection: a record without a client identifier
/// is discarded, and of several records sharing one client identifier only
/// the last is kept.
pub open spec fn surviving(rs: Seq<Seq<(Seq<u8>, Seq<u8>)>>) -> Seq<Seq<(Seq<u8>, Seq<u8>)>>
    decreases rs.len(),
{
    if rs.len() == 0 {
        Seq::empty()
    } else {
        let h = rs.first();
        let t = rs.drop_first();
        if has_client_id(h) && !later_has_cid(t, client_id_of(h)) {
            seq![h] + surviving(t)
        } else {
            surviving(t)
        }
    }
}

/// Device key and snapshot of each record, in order.
pub open spec fn normalized(rs: Seq<Seq<(Seq<u8>, Seq<u8>)>>) -> Seq<(Seq<u8>, DrmData)> {
    Seq::new(rs.len(), |i: int| (device_key_of(rs[i]), normalize_spec(rs[i])))
}

/// The per-device cumulative snapshots one tick's file contents denote:
/// parse each file, discard and deduplicate by client identifier, normalize,
/// and sum per device key.
pub open spec fn snapshot_of(cs: Seq<Seq<u8>>) -> Map<Seq<u8>, DrmData> {
    reduce_map(normalized(surviving(records_of(cs))))
}

/// Parses one tick's accounting file contents into the per-device snapshot
/// table.
pub fn device_snapshots(contents: &Vec<Vec<u8>>) -> (out: Vec<(Vec<u8>, DrmData)>)
    ensures
        distinct_keys(kv_view(out@)),
        entries_map(kv_view(out@)) == snapshot_of(contents_view(contents@)),
{
    let n = contents.len();
    let mut records: Vec<RawRecord> = Vec::new();
    let mut i: usize = 0;
    while i < n
        invariant
            0 <= i <= n,
            n == contents@.len(),
            records@.len() == i,
            forall|j: int| 0 <= j < i ==> raw_views(records@)[j] == records_of(contents_view(contents@))[j],
        decreases n - i,
    {
        let ghost recs_pre = records@;
        let r = parse_record(contents[i].as_slice());
        let ghost rv_i = r@;
        records.push(r);
        proof {
            assert forall|j: int| 0 <= j < i + 1
                implies raw_views(records@)[j] == records_of(contents_view(contents@))[j] by {
                if j < i {
                    assert(records@[j] == recs_pre[j]);
                    assert(raw_views(recs_pre)[j] == records_of(contents_view(contents@))[j]);
                } else {
                    assert(records@[j] == records@.last());
                    assert(records@.last()@ == rv_i);
                    assert(contents_view(contents@)[j] == contents@[j]@);
                }
            }
        }
        i = i + 1;
    }
    let ghost rv = raw_views(records@);
    proof {
        assert(rv =~= records_of(contents_view(contents@)));
    }
    let m = records.len();
    let mut entries: Vec<(Vec<u8>, DrmData)> = Vec::new();
    i = 0;
    proof {
        assert(rv.skip(0) =~= rv);
        assert(kv_view(entries@) + normalized(surviving(rv.skip(0))) =~= normalized(surviving(rv)));
    }
    while i < m
        invariant
            0 <= i <= m,
            m == records@.len(),
            rv == raw_views(records@),
            kv_view(entries@) + normalized(surviving(rv.skip(i as int))) =~= normalized(surviving(rv)),
        decreases m - i,
    {
        let ghost pre = kv_view(entries@);
        let ghost h = rv[i as int];
        proof {
            assert(rv.skip(i as int).first() == h);
            assert(rv.skip(i as int).drop_first() =~= rv.skip(i + 1));
        }
        match records[i].client_id() {
            None => {
                proof {
                    assert(!has_client_id(h));
                    assert(surviving(rv.skip(i as int)) == surviving(rv.skip(i + 1)));
                }
            },
            Some(id) => {
                let mut found = false;
                let mut j = i + 1;
                while j < m
                    invariant
                        i + 1 <= j <= m,
                        m == records@.len(),
                        rv == raw_views(records@),
                        found <==> exists|x: int| i + 1 <= x < j && has_client_id(#[trigger] rv[x])
                            && client_id_of(rv[x]) == id,
                    decreases m - j,
                {
                    if !found {
                        match records[j].client_id() {
                            Some(id2) => {
                                if id2 == id {
                                    found = true;
                                    proof {
                                        assert(has_client_id(rv[j as int]) && client_id_of(rv[j as int]) == id);
                                    }
                                }
                            },
                            None => {},
                        }
                    }
                    j = j + 1;
                }
                proof {
                    let t = rv.skip(i + 1);
                    if found {
                        let x = choose|x: int| i + 1 <= x < m && has_client_id(#[trigger] rv[x])
                            && client_id_of(rv[x]) == id;
                        assert(t[x - i - 1] == rv[x]);
                        assert(later_has_cid(t, id));
                    } else if later_has_cid(t, id) {
                        let x = choose|x: int| 0 <= x < t.len() && has_client_id(#[trigger] t[x])
                            && client_id_of(t[x]) == id;
                        assert(t[x] == rv[i + 1 + x]);
                        assert(false);
                    }
                    assert(found == later_has_cid(rv.skip(i + 1), id));
                    assert(has_client_id(h) && client_id_of(h) == id);
                }
                if !found {
                    let e = normalize(&records[i]);
                    entries.push(e);
                    proof {
                        assert(surviving(rv.skip(i as int)) == seq![h] + surviving(rv.skip(i + 1)));
                        assert(kv_view(entries@) =~= pre + seq![(device_key_of(h), normalize_spec(h))]);
                        assert(normalized(seq![h] + surviving(rv.skip(i + 1)))
                            =~= seq![(device_key_of(h), normalize_spec(h))] + normalized(surviving(rv.skip(i + 1))));
                    }
                } else {
                    proof {
                        assert(surviving(rv.skip(i as int)) == surviving(rv.skip(i + 1)));
                    }
                }
            },
        }
        proof {
            assert(kv_view(entries@) + normalized(surviving(rv.skip(i + 1))) =~= normalized(surviving(rv)));
        }
        i = i + 1;
    }
    proof {
        assert(rv.skip(m as int) =~= Seq::<Seq<(Seq<u8>, Seq<u8>)>>::empty());
        assert(normalized(surviving(rv.skip(m as int))) =~= Seq::<(Seq<u8>, DrmData)>::empty());
        assert(kv_view(entries@) =~= normalized(surviving(rv)));
    }
    reduce(entries)
}

/// The usage state one device carries after a tick: a device not seen before
/// starts from the zero snapshot at discovery time, and either way the rate
/// calculator steps it to the new snapshot.
pub open spec fn step_usage(prev: Option<GpuUsage>, d: DrmData, now: u64) -> GpuUsage {
    match prev {
        Some(g) => GpuUsage::spec_update(g, d, now),
        None => GpuUsage::spec_update(GpuUsage::spec_new(now), d, now),
    }
}

/// The old table's entry for `k`, if it has one.
pub open spec fn table_get(om: Map<Seq<u8>, GpuUsage>, k: Seq<u8>) -> Option<GpuUsage> {
    if om.contains_key(k) {
        Some(om[k])
    } else {
        None
    }
}

/// The device table after reconciling `om` against the tick's snapshots:
/// its domain is exactly the devices that reported this tick, each stepped
/// from its old state when it had one.  Devices absent from `snap` are gone.
pub open spec fn reconcile_map(
    om: Map<Seq<u8>, GpuUsage>,
    snap: Map<Seq<u8>, DrmData>,
    now: u64,
) -> Map<Seq<u8>, GpuUsage> {
    Map::new(
        |k: Seq<u8>| snap.contains_key(k),
        |k: Seq<u8>| step_usage(table_get(om, k), snap[k], now),
    )
}

proof fn lemma_reconcile_entries(
    om: Map<Seq<u8>, GpuUsage>,
    red: Seq<(Seq<u8>, DrmData)>,
    nu: Seq<(Seq<u8>, GpuUsage)>,
    now: u64,
)
    requires
        nu.len() == red.len(),
        forall|j: int| 0 <= j < red.len()
            ==> nu[j] == (red[j].0, step_usage(table_get(om, #[trigger] red[j].0), red[j].1, now)),
    ensures
        entries_map(nu) =~= reconcile_map(om, entries_map(red), now),
    decreases red.len(),
{
    if red.len() == 0 {
        assert(reconcile_map(om, entries_map(red), now) =~= Map::<Seq<u8>, GpuUsage>::empty());
    } else {
        assert(forall|j: int| 0 <= j < red.len() - 1
            ==> nu.drop_last()[j] == (red.drop_last()[j].0,
                step_usage(table_get(om, #[trigger] red.drop_last()[j].0), red.drop_last()[j].1, now)));
        lemma_reconcile_entries(om, red.drop_last(), nu.drop_last(), now);
        assert(nu.last() == (red.last().0, step_usage(table_get(om, red.last().0), red.last().1, now)));
        assert(entries_map(nu) =~= reconcile_map(om, entries_map(red), now));
    }
}

/// One tracked process: its identifier, its name, and its per-device usage
/// table.
pub struct Process {
    pub pid: String,
    pub name: String,
    pub gpu_usage: Vec<(Vec<u8>, GpuUsage)>,
}

impl Process {
    /// The device table as a finite map.
    pub open spec fn usage_map(&self) -> Map<Seq<u8>, GpuUsage> {
        entries_map(kv_view(self.gpu_usage@))
    }

    /// A process starts with an empty device table; its accounting files are
    /// read and folded in by [`Process::update`].
    pub fn new(pid: String, name: String) -> (p: Process)
        ensures
            p.pid == pid,
            p.name == name,
            p.gpu_usage@.len() == 0,
            p.usage_map() =~= Map::<Seq<u8>, GpuUsage>::empty(),
            distinct_keys(kv_view(p.gpu_usage@)),
    {
        let p = Process { pid, name, gpu_usage: Vec::new() };
        proof {
            assert(kv_view(p.gpu_usage@) =~= Seq::<(Seq<u8>, GpuUsage)>::empty());
        }
        p
    }

    /// One sampling tick: `fdinfo_contents` are the raw contents of the
    /// process's accounting files, `now` the capture timestamp in
    /// nanoseconds.  Afterwards the device table holds exactly the devices
    /// that reported this tick: new ones freshly observed, known ones
    /// stepped by the rate calculator, absent ones evicted.
    pub fn update(&mut self, fdinfo_contents: &Vec<Vec<u8>>, now: u64)
        ensures
            final(self).pid == old(self).pid,
            final(self).name == old(self).name,
            distinct_keys(kv_view(final(self).gpu_usage@)),
            final(self).usage_map() == reconcile_map(
                old(self).usage_map(),
                snapshot_of(contents_view(fdinfo_contents@)),
                now,
            ),
    {
        let reduced = device_snapshots(fdinfo_contents);
        let ghost om = self.usage_map();
        let ghost red0 = kv_view(reduced@);
        let mut rem = reduced;
        let mut nu: Vec<(Vec<u8>, GpuUsage)> = Vec::new();
        let ghost mut i: int = 0;
        proof {
            assert(kv_view(rem@) =~= red0.skip(0));
        }
        while rem.len() > 0
            invariant
                0 <= i <= red0.len(),
                i + rem@.len() == red0.len(),
                kv_view(rem@) =~= red0.skip(i),
                *self == *old(self),
                om == self.usage_map(),
                nu@.len() == i,
                forall|j: int| 0 <= j < i ==> kv_view(nu@)[j]
                    == (red0[j].0, step_usage(table_get(om, #[trigger] red0[j].0), red0[j].1, now)),
            decreases rem@.len(),
        {
            let ghost rem_pre = rem@;
            let ghost nu_pre = kv_view(nu@);
            let (k, d) = rem.remove(0);
            proof {
                assert(red0.skip(i)[0] == (k@, d));
                assert(red0[i] == (k@, d));
                assert(rem@ =~= rem_pre.skip(1));
                assert forall|j: int| 0 <= j < rem@.len() implies kv_view(rem@)[j] == red0.skip(i + 1)[j] by {
                    assert(rem@[j] == rem_pre[j + 1]);
                    assert(kv_view(rem_pre)[j + 1] == red0.skip(i)[j + 1]);
                    assert(red0.skip(i)[j + 1] == red0[i + 1 + j]);
                }
                assert(kv_view(rem@) =~= red0.skip(i + 1));
            }
            let prev = kv_find(&self.gpu_usage, k.as_slice());
            let g = match prev {
                Some(g0) => {
                    let mut g1 = g0;
                    g1.update(d, now);
                    g1
                },
                None => {
                    let mut g1 = GpuUsage::new(now);
                    g1.update(d, now);
                    g1
                },
            };
            proof {
                assert(g == step_usage(table_get(om, k@), d, now));
            }
            nu.push((k, g));
            proof {
                assert(kv_view(nu@) =~= nu_pre.push((red0[i].0, g)));
                i = i + 1;
            }
        }
        proof {
            assert(i == red0.len());
            lemma_reconcile_entries(om, red0, kv_view(nu@), now);
            assert forall|a: int, b: int| 0 <= a < b < kv_view(nu@).len()
                implies kv_view(nu@)[a].0 != kv_view(nu@)[b].0 by {
                assert(kv_view(nu@)[a].0 == red0[a].0);
                assert(kv_view(nu@)[b].0 == red0[b].0);
            }
        }
        self.gpu_usage = nu;
    }
}

/// A process-name file's single line, without its trailing newline.
pub open spec fn comm_name_spec(s: Seq<u8>) -> Seq<u8> {
    if s.len() > 0 && s.last() == 10u8 {
        s.drop_last()
    } else {
        s
    }
}

/// Strips the trailing newline off a process-name file's content.
pub fn comm_name(content: &[u8]) -> (r: Vec<u8>)
    ensures
        r@ == comm_name_spec(content@),
{
    let n = content.len();
    if n > 0 && content[n - 1] == 10 {
        let r = subvec(content, 0, n - 1);
        proof {
            assert(r@ =~= content@.drop_last());
        }
        r
    } else {
        let r = subvec(content, 0, n);
        proof {
            assert(r@ =~= content@);
        }
        r
    }
}

} // verus!
