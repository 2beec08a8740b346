//! Per-interval utilization rates derived from consecutive snapshots.
//!
//! A [`GpuUsage`] keeps, per (process, device) pair, the most recent
//! cumulative snapshot, the timestamp it was captured at, and the busy-time
//! deltas of the last sampling interval.  The utilization rate of an engine
//! is the fraction busy-time-delta divided by elapsed wall time; it is kept
//! as the exact pair of its numerator (the engine's delta field, in
//! nanoseconds) and its shared denominator (`interval`, in nanoseconds), so
//! no precision is lost.  An `interval` of zero means no rate exists yet:
//! that is the state right after a device's first observation.  A cumulative
//! counter that moved backwards (a driver-side reset) is clamped: its delta
//! floors at zero.

use vstd::prelude::*;
use crate::arith::{sat_sub_u128, sat_sub_u64, sub_sat_u128, sub_sat_u64};
use crate::snapshot::DrmData;

verus! {

/// Usage state of one device for one process: the busy-time deltas of the
/// last interval (rate numerators), the interval's wall-clock length (their
/// shared denominator), and the snapshot and timestamp they were derived
/// from.  Timestamps are nanoseconds on a monotonic clock.
#[derive(Clone, Copy, Debug)]
pub struct GpuUsage {
    pub render: u128,
    pub computation: u128,
    pub copy: u128,
    pub encode: u128,
    pub decode: u128,
    pub video_enhance: u128,
    pub interval: u64,
    pub last_drm_data: DrmData,
    pub last_calc_timestamp: u64,
}

impl GpuUsage {
    /// The state of a device first observed at `calc_timestamp`: a zero
    /// snapshot, no deltas, no interval.
    pub open spec fn spec_new(calc_timestamp: u64) -> GpuUsage {
        GpuUsage {
            render: 0,
            computation: 0,
            copy: 0,
            encode: 0,
            decode: 0,
            video_enhance: 0,
            interval: 0,
            last_drm_data: DrmData::spec_zero(),
            last_calc_timestamp: calc_timestamp,
        }
    }

    /// One step of the rate calculation: every delta is the clamped
    /// difference of the new and the retained cumulative field, the interval
    /// is the clamped difference of the timestamps, and the new snapshot and
    /// timestamp are retained.
    pub open spec fn spec_update(g: GpuUsage, new_drm: DrmData, calc_timestamp: u64) -> GpuUsage {
        GpuUsage {
            render: sat_sub_u128(new_drm.render_time, g.last_drm_data.render_time),
            computation: sat_sub_u128(new_drm.computation_time, g.last_drm_data.computation_time),
            copy: sat_sub_u128(new_drm.copy_time, g.last_drm_data.copy_time),
            encode: sat_sub_u128(new_drm.encode_time, g.last_drm_data.encode_time),
            decode: sat_sub_u128(new_drm.decode_time, g.last_drm_data.decode_time),
            video_enhance: sat_sub_u128(new_drm.video_enhance_time, g.last_drm_data.video_enhance_time),
            interval: sat_sub_u64(calc_timestamp, g.last_calc_timestamp),
            last_drm_data: new_drm,
            last_calc_timestamp: calc_timestamp,
        }
    }

    pub fn new(calc_timestamp: u64) -> (r: GpuUsage)
        ensures
            r == GpuUsage::spec_new(calc_timestamp),
    {
        GpuUsage {
            render: 0,
            computation: 0,
            copy: 0,
            encode: 0,
            decode: 0,
            video_enhance: 0,
            interval: 0,
            last_drm_data: DrmData::new(),
            last_calc_timestamp: calc_timestamp,
        }
    }

    /// Derives the rates of the interval between the retained snapshot and
    /// `new_drm`, then retains `new_drm` and `calc_timestamp` for the next
    /// tick.
    pub fn update(&mut self, new_drm: DrmData, calc_timestamp: u64)
        ensures
            *final(self) == GpuUsage::spec_update(*old(self), new_drm, calc_timestamp),
    {
        self.render = sub_sat_u128(new_drm.render_time, self.last_drm_data.render_time);
        self.computation = sub_sat_u128(new_drm.computation_time, self.last_drm_data.computation_time);
        self.copy = sub_sat_u128(new_drm.copy_time, self.last_drm_data.copy_time);
        self.encode = sub_sat_u128(new_drm.encode_time, self.last_drm_data.encode_time);
        self.decode = sub_sat_u128(new_drm.decode_time, self.last_drm_data.decode_time);
        self.video_enhance = sub_sat_u128(new_drm.video_enhance_time, self.last_drm_data.video_enhance_time);
        self.interval = sub_sat_u64(calc_timestamp, self.last_calc_timestamp);
        self.last_drm_data = new_drm;
        self.last_calc_timestamp = calc_timestamp;
    }
}

} // verus!
