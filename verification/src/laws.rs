//! Laws of the sampling pipeline, stated and proved over the same spec
//! functions the executable contracts use.

use vstd::prelude::*;
use crate::normalize::{
    device_key_of, dur_at, key_engine_dec, key_engine_enc, key_engine_enc_1, key_engine_video,
    lemma_dur_at_bound, normalize_spec,
};
use crate::process::{
    later_has_cid, normalized, reconcile_map, step_usage, surviving, table_get,
};
use crate::record::{client_id_of, has_client_id};
use crate::reduce::{lemma_reduce_map_contains, reduce_map};
use crate::snapshot::DrmData;
use crate::usage::GpuUsage;

verus! {

/// Aggregating two snapshots whose field-wise sums fit their types yields
/// the exact field-wise sum.
pub proof fn lemma_additivity(a: DrmData, b: DrmData)
    requires
        a.render_time + b.render_time <= u128::MAX,
        a.computation_time + b.computation_time <= u128::MAX,
        a.copy_time + b.copy_time <= u128::MAX,
        a.encode_time + b.encode_time <= u128::MAX,
        a.decode_time + b.decode_time <= u128::MAX,
        a.video_enhance_time + b.video_enhance_time <= u128::MAX,
        a.vram + b.vram <= u64::MAX,
        a.gtt + b.gtt <= u64::MAX,
        a.cpuram + b.cpuram <= u64::MAX,
    ensures
        DrmData::spec_add(a, b).render_time == a.render_time + b.render_time,
        DrmData::spec_add(a, b).computation_time == a.computation_time + b.computation_time,
        DrmData::spec_add(a, b).copy_time == a.copy_time + b.copy_time,
        DrmData::spec_add(a, b).encode_time == a.encode_time + b.encode_time,
        DrmData::spec_add(a, b).decode_time == a.decode_time + b.decode_time,
        DrmData::spec_add(a, b).video_enhance_time == a.video_enhance_time + b.video_enhance_time,
        DrmData::spec_add(a, b).vram == a.vram + b.vram,
        DrmData::spec_add(a, b).gtt == a.gtt + b.gtt,
        DrmData::spec_add(a, b).cpuram == a.cpuram + b.cpuram,
{
}

proof fn lemma_later_has_cid_remove(t: Seq<Seq<(Seq<u8>, Seq<u8>)>>, i: int, c: u64)
    requires
        0 <= i < t.len(),
        !has_client_id(t[i]),
    ensures
        later_has_cid(t.remove(i), c) == later_has_cid(t, c),
{
    let u = t.remove(i);
    if later_has_cid(u, c) {
        let x = choose|x: int| 0 <= x < u.len() && has_client_id(#[trigger] u[x])
            && client_id_of(u[x]) == c;
        if x < i {
            assert(u[x] == t[x]);
        } else {
            assert(u[x] == t[x + 1]);
        }
        assert(later_has_cid(t, c));
    }
    if later_has_cid(t, c) {
        let x = choose|x: int| 0 <= x < t.len() && has_client_id(#[trigger] t[x])
            && client_id_of(t[x]) == c;
        if x < i {
            assert(u[x] == t[x]);
        } else {
            assert(x != i);
            assert(u[x - 1] == t[x]);
        }
        assert(later_has_cid(u, c));
    }
}

/// A record without the client-identifier key contributes nothing, wherever
/// in the tick's record list it sits and whatever other keys it carries:
/// dropping it changes neither the surviving records nor any per-device
/// snapshot derived from them.
pub proof fn lemma_discard_missing_client_id(rs: Seq<Seq<(Seq<u8>, Seq<u8>)>>, i: int)
    requires
        0 <= i < rs.len(),
        !has_client_id(rs[i]),
    ensures
        surviving(rs) == surviving(rs.remove(i)),
        reduce_map(normalized(surviving(rs))) == reduce_map(normalized(surviving(rs.remove(i)))),
    decreases rs.len(),
{
    let h = rs.first();
    let t = rs.drop_first();
    if i == 0 {
        assert(!has_client_id(h));
        assert(surviving(rs) == surviving(t));
        assert(rs.remove(0) =~= t);
    } else {
        assert(rs.remove(i).first() == h);
        assert(rs.remove(i).drop_first() =~= t.remove(i - 1));
        assert(t[i - 1] == rs[i]);
        lemma_discard_missing_client_id(t, i - 1);
        lemma_later_has_cid_remove(t, i - 1, client_id_of(h));
        if has_client_id(h) && !later_has_cid(t, client_id_of(h)) {
            assert(surviving(rs) == seq![h] + surviving(t));
            assert(surviving(rs.remove(i)) == seq![h] + surviving(t.remove(i - 1)));
        } else {
            assert(surviving(rs.remove(i)) == surviving(t.remove(i - 1)));
        }
    }
}

/// A tick's snapshot table holds a device exactly when some surviving record
/// reported that device's key: no device appears out of thin air, and every
/// surviving record's device is represented.
pub proof fn lemma_snapshot_domain(rs: Seq<Seq<(Seq<u8>, Seq<u8>)>>, k: Seq<u8>)
    ensures
        reduce_map(normalized(surviving(rs))).contains_key(k)
            <==> exists|i: int| 0 <= i < surviving(rs).len()
                && device_key_of(#[trigger] surviving(rs)[i]) == k,
{
    let sv = surviving(rs);
    let es = normalized(sv);
    lemma_reduce_map_contains(es, k);
    if exists|i: int| 0 <= i < es.len() && es[i].0 == k {
        let i = choose|i: int| 0 <= i < es.len() && es[i].0 == k;
        assert(device_key_of(sv[i]) == k);
    }
    if exists|i: int| 0 <= i < sv.len() && device_key_of(#[trigger] sv[i]) == k {
        let i = choose|i: int| 0 <= i < sv.len() && device_key_of(#[trigger] sv[i]) == k;
        assert(es[i].0 == k);
    }
}

/// The combined `video` counter feeds the encode and the decode field with
/// one and the same value: the encode field is the sum of the two encode
/// counters and the video counter, the decode field the sum of the decode
/// counter and that same video counter — never one without the other.
pub proof fn lemma_video_fanout(m: Seq<(Seq<u8>, Seq<u8>)>)
    ensures
        normalize_spec(m).encode_time == dur_at(m, key_engine_enc()) + dur_at(m, key_engine_enc_1())
            + dur_at(m, key_engine_video()),
        normalize_spec(m).decode_time == dur_at(m, key_engine_dec()) + dur_at(m, key_engine_video()),
{
    lemma_dur_at_bound(m, key_engine_enc());
    lemma_dur_at_bound(m, key_engine_enc_1());
    lemma_dur_at_bound(m, key_engine_video());
    lemma_dur_at_bound(m, key_engine_dec());
}

/// First observation of a device creates a usage state whose stored snapshot
/// is exactly the tick's freshly computed cumulative snapshot, captured at
/// the tick's timestamp, with no interval yet.
pub proof fn lemma_first_observation(
    om: Map<Seq<u8>, GpuUsage>,
    snap: Map<Seq<u8>, DrmData>,
    now: u64,
    k: Seq<u8>,
)
    requires
        snap.contains_key(k),
        !om.contains_key(k),
    ensures
        reconcile_map(om, snap, now).contains_key(k),
        reconcile_map(om, snap, now)[k] == step_usage(None, snap[k], now),
        reconcile_map(om, snap, now)[k].last_drm_data == snap[k],
        reconcile_map(om, snap, now)[k].last_calc_timestamp == now,
        reconcile_map(om, snap, now)[k].interval == 0,
{
}

/// Reconciliation keeps exactly the devices that reported this tick: a known
/// device that reported is stepped from its old state, one that did not
/// report is evicted, and when nothing reported the table empties.
pub proof fn lemma_eviction(om: Map<Seq<u8>, GpuUsage>, snap: Map<Seq<u8>, DrmData>, now: u64)
    ensures
        reconcile_map(om, snap, now).dom() =~= snap.dom(),
        forall|k: Seq<u8>| om.contains_key(k) && snap.contains_key(k)
            ==> #[trigger] reconcile_map(om, snap, now)[k]
                == GpuUsage::spec_update(om[k], snap[k], now),
        forall|k: Seq<u8>| !snap.contains_key(k)
            ==> !(#[trigger] reconcile_map(om, snap, now).contains_key(k)),
{
    assert forall|k: Seq<u8>| om.contains_key(k) && snap.contains_key(k)
        implies #[trigger] reconcile_map(om, snap, now)[k]
            == GpuUsage::spec_update(om[k], snap[k], now) by {
        assert(table_get(om, k) == Some(om[k]));
    }
}

/// The rate of an interval is determined by the two snapshots and the two
/// timestamps alone: each engine's rate is the fraction whose numerator is
/// the clamped difference of the engine's cumulative busy times and whose
/// denominator is the clamped difference of the timestamps.
pub proof fn lemma_rate_formula(g: GpuUsage, d: DrmData, t: u64)
    ensures
        GpuUsage::spec_update(g, d, t).render
            == crate::arith::sat_sub_u128(d.render_time, g.last_drm_data.render_time),
        GpuUsage::spec_update(g, d, t).computation
            == crate::arith::sat_sub_u128(d.computation_time, g.last_drm_data.computation_time),
        GpuUsage::spec_update(g, d, t).copy
            == crate::arith::sat_sub_u128(d.copy_time, g.last_drm_data.copy_time),
        GpuUsage::spec_update(g, d, t).encode
            == crate::arith::sat_sub_u128(d.encode_time, g.last_drm_data.encode_time),
        GpuUsage::spec_update(g, d, t).decode
            == crate::arith::sat_sub_u128(d.decode_time, g.last_drm_data.decode_time),
        GpuUsage::spec_update(g, d, t).video_enhance
            == crate::arith::sat_sub_u128(d.video_enhance_time, g.last_drm_data.video_enhance_time),
        GpuUsage::spec_update(g, d, t).interval
            == crate::arith::sat_sub_u64(t, g.last_calc_timestamp),
{
}

} // verus!
