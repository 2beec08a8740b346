//! Normalization of a raw record into a cumulative snapshot.
//!
//! Each recognized counter key contributes additively to one engine or
//! memory field of the snapshot.  Drivers report render time under `render`
//! or `gfx` (or both), and encode time under `enc` or a secondary `enc_1`;
//! a driver that cannot tell encode from decode reports a combined `video`
//! counter, which is added to both the encode and the decode field.

use vstd::prelude::*;
use crate::parse::{duration_nanos, duration_value, memory_kib, memory_value, parsed_u64, subvec};
use crate::record::{key_pdev, lookup, pdev_key, RawRecord};
use crate::snapshot::DrmData;

verus! {

/// `drm-engine-render`
pub open spec fn key_engine_render() -> Seq<u8> {
    seq![100u8, 114u8, 109u8, 45u8, 101u8, 110u8, 103u8, 105u8, 110u8, 101u8, 45u8,
        114u8, 101u8, 110u8, 100u8, 101u8, 114u8]
}

/// `drm-engine-gfx`
pub open spec fn key_engine_gfx() -> Seq<u8> {
    seq![100u8, 114u8, 109u8, 45u8, 101u8, 110u8, 103u8, 105u8, 110u8, 101u8, 45u8,
        103u8, 102u8, 120u8]
}

/// `drm-engine-dec`
pub open spec fn key_engine_dec() -> Seq<u8> {
    seq![100u8, 114u8, 109u8, 45u8, 101u8, 110u8, 103u8, 105u8, 110u8, 101u8, 45u8,
        100u8, 101u8, 99u8]
}

/// `drm-engine-enc`
pub open spec fn key_engine_enc() -> Seq<u8> {
    seq![100u8, 114u8, 109u8, 45u8, 101u8, 110u8, 103u8, 105u8, 110u8, 101u8, 45u8,
        101u8, 110u8, 99u8]
}

/// `drm-engine-enc_1`
pub open spec fn key_engine_enc_1() -> Seq<u8> {
    seq![100u8, 114u8, 109u8, 45u8, 101u8, 110u8, 103u8, 105u8, 110u8, 101u8, 45u8,
        101u8, 110u8, 99u8, 95u8, 49u8]
}

/// `drm-engine-video`
pub open spec fn key_engine_video() -> Seq<u8> {
    seq![100u8, 114u8, 109u8, 45u8, 101u8, 110u8, 103u8, 105u8, 110u8, 101u8, 45u8,
        118u8, 105u8, 100u8, 101u8, 111u8]
}

/// `drm-engine-compute`
pub open spec fn key_engine_compute() -> Seq<u8> {
    seq![100u8, 114u8, 109u8, 45u8, 101u8, 110u8, 103u8, 105u8, 110u8, 101u8, 45u8,
        99u8, 111u8, 109u8, 112u8, 117u8, 116u8, 101u8]
}

/// `drm-engine-video-enhance`
pub open spec fn key_engine_video_enhance() -> Seq<u8> {
    seq![100u8, 114u8, 109u8, 45u8, 101u8, 110u8, 103u8, 105u8, 110u8, 101u8, 45u8,
        118u8, 105u8, 100u8, 101u8, 111u8, 45u8, 101u8, 110u8, 104u8, 97u8, 110u8, 99u8, 101u8]
}

/// `drm-engine-copy`
pub open spec fn key_engine_copy() -> Seq<u8> {
    seq![100u8, 114u8, 109u8, 45u8, 101u8, 110u8, 103u8, 105u8, 110u8, 101u8, 45u8,
        99u8, 111u8, 112u8, 121u8]
}

/// `drm-memory-vram`
pub open spec fn key_memory_vram() -> Seq<u8> {
    seq![100u8, 114u8, 109u8, 45u8, 109u8, 101u8, 109u8, 111u8, 114u8, 121u8, 45u8,
        118u8, 114u8, 97u8, 109u8]
}

/// `drm-memory-gtt`
pub open spec fn key_memory_gtt() -> Seq<u8> {
    seq![100u8, 114u8, 109u8, 45u8, 109u8, 101u8, 109u8, 111u8, 114u8, 121u8, 45u8,
        103u8, 116u8, 116u8]
}

/// `drm-memory-cpu`
pub open spec fn key_memory_cpu() -> Seq<u8> {
    seq![100u8, 114u8, 109u8, 45u8, 109u8, 101u8, 109u8, 111u8, 114u8, 121u8, 45u8,
        99u8, 112u8, 117u8]
}

/// Busy time contributed under `key`: the parsed duration of its value, or
/// zero when the record does not carry the key.
pub open spec fn dur_at(m: Seq<(Seq<u8>, Seq<u8>)>, key: Seq<u8>) -> u128 {
    match lookup(m, key) {
        Some(v) => duration_nanos(v),
        None => 0,
    }
}

/// Memory size contributed under `key`, zero when the key is absent.
pub open spec fn mem_at(m: Seq<(Seq<u8>, Seq<u8>)>, key: Seq<u8>) -> u64 {
    match lookup(m, key) {
        Some(v) => memory_kib(v),
        None => 0,
    }
}

/// A parsed busy time never exceeds `u64::MAX` nanoseconds-per-millisecond
/// worth of counter, so a handful of them sum without overflowing `u128`.
pub proof fn lemma_dur_at_bound(m: Seq<(Seq<u8>, Seq<u8>)>, key: Seq<u8>)
    ensures
        dur_at(m, key) <= 0xFFFF_FFFF_FFFF_FFFFu128 * 1000000,
{
    if lookup(m, key) is Some {
        let v = lookup(m, key)->Some_0;
        let sp = crate::parse::find_byte(v, 32, 0);
        if sp != v.len() {
            let amount = parsed_u64(v.take(sp));
            assert(amount * 1000 <= 0xFFFF_FFFF_FFFF_FFFF * 1000000) by (nonlinear_arith)
                requires amount <= 0xFFFF_FFFF_FFFF_FFFF;
            assert(amount * 1000000 <= 0xFFFF_FFFF_FFFF_FFFF * 1000000) by (nonlinear_arith)
                requires amount <= 0xFFFF_FFFF_FFFF_FFFF;
        }
    }
}

/// The device key a record reports, the empty key when none is present.
pub open spec fn device_key_of(m: Seq<(Seq<u8>, Seq<u8>)>) -> Seq<u8> {
    match lookup(m, key_pdev()) {
        Some(v) => v,
        None => Seq::empty(),
    }
}

/// The snapshot a single record denotes: every recognized counter key
/// contributes additively to its engine or memory field, and the combined
/// `video` counter feeds both the encode and the decode field.
pub open spec fn normalize_spec(m: Seq<(Seq<u8>, Seq<u8>)>) -> DrmData {
    DrmData {
        render_time: (dur_at(m, key_engine_render()) + dur_at(m, key_engine_gfx())) as u128,
        computation_time: dur_at(m, key_engine_compute()),
        copy_time: dur_at(m, key_engine_copy()),
        encode_time: (dur_at(m, key_engine_enc()) + dur_at(m, key_engine_enc_1())
            + dur_at(m, key_engine_video())) as u128,
        decode_time: (dur_at(m, key_engine_dec()) + dur_at(m, key_engine_video())) as u128,
        video_enhance_time: dur_at(m, key_engine_video_enhance()),
        vram: mem_at(m, key_memory_vram()),
        gtt: mem_at(m, key_memory_gtt()),
        cpuram: mem_at(m, key_memory_cpu()),
    }
}

fn dur_get(rec: &RawRecord, key: &[u8]) -> (r: u128)
    ensures
        r == dur_at(rec@, key@),
{
    match rec.get(key) {
        Some(v) => duration_value(v.as_slice()),
        None => 0,
    }
}

fn mem_get(rec: &RawRecord, key: &[u8]) -> (r: u64)
    ensures
        r == mem_at(rec@, key@),
{
    match rec.get(key) {
        Some(v) => memory_value(v.as_slice()),
        None => 0,
    }
}

/// Turns one record into the device key it reports and the snapshot its
/// counters denote.
pub fn normalize(rec: &RawRecord) -> (r: (Vec<u8>, DrmData))
    ensures
        r.0@ == device_key_of(rec@),
        r.1 == normalize_spec(rec@),
{
    let k_render = [100u8, 114u8, 109u8, 45u8, 101u8, 110u8, 103u8, 105u8, 110u8, 101u8, 45u8,
        114u8, 101u8, 110u8, 100u8, 101u8, 114u8];
    let k_gfx = [100u8, 114u8, 109u8, 45u8, 101u8, 110u8, 103u8, 105u8, 110u8, 101u8, 45u8,
        103u8, 102u8, 120u8];
    let k_dec = [100u8, 114u8, 109u8, 45u8, 101u8, 110u8, 103u8, 105u8, 110u8, 101u8, 45u8,
        100u8, 101u8, 99u8];
    let k_enc = [100u8, 114u8, 109u8, 45u8, 101u8, 110u8, 103u8, 105u8, 110u8, 101u8, 45u8,
        101u8, 110u8, 99u8];
    let k_enc_1 = [100u8, 114u8, 109u8, 45u8, 101u8, 110u8, 103u8, 105u8, 110u8, 101u8, 45u8,
        101u8, 110u8, 99u8, 95u8, 49u8];
    let k_video = [100u8, 114u8, 109u8, 45u8, 101u8, 110u8, 103u8, 105u8, 110u8, 101u8, 45u8,
        118u8, 105u8, 100u8, 101u8, 111u8];
    let k_compute = [100u8, 114u8, 109u8, 45u8, 101u8, 110u8, 103u8, 105u8, 110u8, 101u8, 45u8,
        99u8, 111u8, 109u8, 112u8, 117u8, 116u8, 101u8];
    let k_enhance = [100u8, 114u8, 109u8, 45u8, 101u8, 110u8, 103u8, 105u8, 110u8, 101u8, 45u8,
        118u8, 105u8, 100u8, 101u8, 111u8, 45u8, 101u8, 110u8, 104u8, 97u8, 110u8, 99u8, 101u8];
    let k_copy = [100u8, 114u8, 109u8, 45u8, 101u8, 110u8, 103u8, 105u8, 110u8, 101u8, 45u8,
        99u8, 111u8, 112u8, 121u8];
    let k_vram = [100u8, 114u8, 109u8, 45u8, 109u8, 101u8, 109u8, 111u8, 114u8, 121u8, 45u8,
        118u8, 114u8, 97u8, 109u8];
    let k_gtt = [100u8, 114u8, 109u8, 45u8, 109u8, 101u8, 109u8, 111u8, 114u8, 121u8, 45u8,
        103u8, 116u8, 116u8];
    let k_cpu = [100u8, 114u8, 109u8, 45u8, 109u8, 101u8, 109u8, 111u8, 114u8, 121u8, 45u8,
        99u8, 112u8, 117u8];
    proof {
        assert(k_render@ =~= key_engine_render());
        assert(k_gfx@ =~= key_engine_gfx());
        assert(k_dec@ =~= key_engine_dec());
        assert(k_enc@ =~= key_engine_enc());
        assert(k_enc_1@ =~= key_engine_enc_1());
        assert(k_video@ =~= key_engine_video());
        assert(k_compute@ =~= key_engine_compute());
        assert(k_enhance@ =~= key_engine_video_enhance());
        assert(k_copy@ =~= key_engine_copy());
        assert(k_vram@ =~= key_memory_vram());
        assert(k_gtt@ =~= key_memory_gtt());
        assert(k_cpu@ =~= key_memory_cpu());
    }
    let render = dur_get(rec, k_render.as_slice());
    let gfx = dur_get(rec, k_gfx.as_slice());
    let dec = dur_get(rec, k_dec.as_slice());
    let enc = dur_get(rec, k_enc.as_slice());
    let enc_1 = dur_get(rec, k_enc_1.as_slice());
    let video = dur_get(rec, k_video.as_slice());
    let compute = dur_get(rec, k_compute.as_slice());
    let enhance = dur_get(rec, k_enhance.as_slice());
    let copy = dur_get(rec, k_copy.as_slice());
    let vram = mem_get(rec, k_vram.as_slice());
    let gtt = mem_get(rec, k_gtt.as_slice());
    let cpuram = mem_get(rec, k_cpu.as_slice());
    proof {
        lemma_dur_at_bound(rec@, key_engine_render());
        lemma_dur_at_bound(rec@, key_engine_gfx());
        lemma_dur_at_bound(rec@, key_engine_dec());
        lemma_dur_at_bound(rec@, key_engine_enc());
        lemma_dur_at_bound(rec@, key_engine_enc_1());
        lemma_dur_at_bound(rec@, key_engine_video());
    }
    let data = DrmData {
        render_time: render + gfx,
        computation_time: compute,
        copy_time: copy,
        encode_time: enc + enc_1 + video,
        decode_time: dec + video,
        video_enhance_time: enhance,
        vram,
        gtt,
        cpuram,
    };
    let key_arr = pdev_key();
    let key = match rec.get(key_arr.as_slice()) {
        Some(v) => subvec(v.as_slice(), 0, v.len()),
        None => Vec::new(),
    };
    proof {
        assert(key@ =~= device_key_of(rec@));
    }
    (key, data)
}

} // verus!
