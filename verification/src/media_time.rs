//! Rational media timestamps and per-sample timing records.

use vstd::prelude::*;

verus! {

/// Flag bit marking a time value as valid.
pub const TIME_FLAG_VALID: u32 = 1;

/// Timescale of stream timestamps: units per second for millisecond values.
pub const MILLIS_TIMESCALE: i32 = 1000;

/// Nominal frame rate used for the duration of each sample.
pub const NOMINAL_FRAME_RATE: i32 = 30;

/// A rational time value: `value / timescale` seconds.
#[derive(Debug, Clone, Copy, PartialEq, Eq, Structural)]
pub struct CMTime {
    pub value: i64,
    pub timescale: i32,
    pub flags: u32,
    pub epoch: i64,
}

impl CMTime {
    /// A valid time of `value / timescale` seconds in epoch zero.
    pub fn make(value: i64, timescale: i32) -> (t: CMTime)
        ensures
            t == (CMTime { value, timescale, flags: TIME_FLAG_VALID, epoch: 0 }),
            t.is_valid(),
    {
        assert(1u32 & 1u32 == 1u32) by (bit_vector);
        CMTime { value, timescale, flags: TIME_FLAG_VALID, epoch: 0 }
    }

    /// The invalid time: every field zero.
    pub fn invalid() -> (t: CMTime)
        ensures
            t == (CMTime { value: 0, timescale: 0, flags: 0, epoch: 0 }),
            !t.is_valid(),
    {
        assert(0u32 & 1u32 == 0u32) by (bit_vector);
        CMTime { value: 0, timescale: 0, flags: 0, epoch: 0 }
    }

    /// Whether the valid flag is set.
    pub open spec fn is_valid(self) -> bool {
        self.flags & TIME_FLAG_VALID == TIME_FLAG_VALID
    }
}

/// Timing of one sample handed to the decoder.
#[allow(non_snake_case)]
#[derive(Debug, Clone, Copy, PartialEq, Eq, Structural)]
pub struct CMSampleTimingInfo {
    pub duration: CMTime,
    pub presentationTimeStamp: CMTime,
    pub decodeTimeStamp: CMTime,
}

impl CMSampleTimingInfo {
    /// The timing of the frame with the stream timestamp `timestamp_ms`: it
    /// lasts one frame at the nominal rate, is presented at its timestamp,
    /// counted in milliseconds, and has no decode time of its own.
    pub fn for_frame(timestamp_ms: u32) -> (timing: CMSampleTimingInfo)
        ensures
            timing == (CMSampleTimingInfo {
                duration: CMTime {
                    value: 1,
                    timescale: NOMINAL_FRAME_RATE,
                    flags: TIME_FLAG_VALID,
                    epoch: 0,
                },
                presentationTimeStamp: CMTime {
                    value: timestamp_ms as i64,
                    timescale: MILLIS_TIMESCALE,
                    flags: TIME_FLAG_VALID,
                    epoch: 0,
                },
                decodeTimeStamp: CMTime { value: 0, timescale: 0, flags: 0, epoch: 0 },
            }),
    {
        CMSampleTimingInfo {
            duration: CMTime::make(1, NOMINAL_FRAME_RATE),
            presentationTimeStamp: CMTime::make(timestamp_ms as i64, MILLIS_TIMESCALE),
            decodeTimeStamp: CMTime::invalid(),
        }
    }
}

} // verus!
