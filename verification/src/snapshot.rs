//! Cumulative per-device accounting snapshots.
//!
//! A [`DrmData`] holds the cumulative busy time of the six engine categories
//! and the three memory sizes that one device reports for one process.  Busy
//! times are nanoseconds, memory sizes are kibibytes.  Snapshots from several
//! open contexts against the same device are combined field-wise with
//! [`DrmData::add`].

use vstd::prelude::*;
use crate::arith::{sat_add_u128, sat_add_u64, add_sat_u128, add_sat_u64};

verus! {

/// One cumulative accounting snapshot: per-engine busy times in nanoseconds
/// and memory sizes in kibibytes.
#[derive(Clone, Copy, Debug)]
pub struct DrmData {
    pub render_time: u128,
    pub computation_time: u128,
    pub copy_time: u128,
    pub encode_time: u128,
    pub decode_time: u128,
    pub video_enhance_time: u128,
    pub vram: u64,
    pub gtt: u64,
    pub cpuram: u64,
}

impl DrmData {
    /// The all-zero snapshot.
    pub open spec fn spec_zero() -> DrmData {
        DrmData {
            render_time: 0,
            computation_time: 0,
            copy_time: 0,
            encode_time: 0,
            decode_time: 0,
            video_enhance_time: 0,
            vram: 0,
            gtt: 0,
            cpuram: 0,
        }
    }

    /// Field-wise saturating sum of two snapshots.
    pub open spec fn spec_add(a: DrmData, b: DrmData) -> DrmData {
        DrmData {
            render_time: sat_add_u128(a.render_time, b.render_time),
            computation_time: sat_add_u128(a.computation_time, b.computation_time),
            copy_time: sat_add_u128(a.copy_time, b.copy_time),
            encode_time: sat_add_u128(a.encode_time, b.encode_time),
            decode_time: sat_add_u128(a.decode_time, b.decode_time),
            video_enhance_time: sat_add_u128(a.video_enhance_time, b.video_enhance_time),
            vram: sat_add_u64(a.vram, b.vram),
            gtt: sat_add_u64(a.gtt, b.gtt),
            cpuram: sat_add_u64(a.cpuram, b.cpuram),
        }
    }

    pub fn new() -> (r: DrmData)
        ensures
            r == DrmData::spec_zero(),
    {
        DrmData {
            render_time: 0,
            computation_time: 0,
            copy_time: 0,
            encode_time: 0,
            decode_time: 0,
            video_enhance_time: 0,
            vram: 0,
            gtt: 0,
            cpuram: 0,
        }
    }

    /// Accumulates another context's snapshot into this one, field by field.
    /// Each field saturates at its type's maximum instead of overflowing.
    pub fn add(&mut self, other: DrmData)
        ensures
            *final(self) == DrmData::spec_add(*old(self), other),
    {
        self.render_time = add_sat_u128(self.render_time, other.render_time);
        self.computation_time = add_sat_u128(self.computation_time, other.computation_time);
        self.copy_time = add_sat_u128(self.copy_time, other.copy_time);
        self.encode_time = add_sat_u128(self.encode_time, other.encode_time);
        self.decode_time = add_sat_u128(self.decode_time, other.decode_time);
        self.video_enhance_time = add_sat_u128(self.video_enhance_time, other.video_enhance_time);
        self.vram = add_sat_u64(self.vram, other.vram);
        self.gtt = add_sat_u64(self.gtt, other.gtt);
        self.cpuram = add_sat_u64(self.cpuram, other.cpuram);
    }
}

} // verus!
