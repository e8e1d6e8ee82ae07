//! Bookkeeping of the sink that feeds the decode capability.
//!
//! The decoder itself lives outside this library: it is built from a
//! configuration and either comes up or reports a status, and it decodes one
//! frame at a time and reports a status for each. What the sink decides is
//! kept here: that every configuration record asks for a new decoder, that a
//! decoder that failed to come up leaves the one before it in place, that
//! frames are dropped until a decoder is there, and how much noise a failed
//! decode deserves.

use vstd::prelude::*;
use bytes::Bytes;
use crate::byte_buffer::bytes_contents;
use crate::flv::{sets_view, AvcDecoderConfig, ConfigView};

verus! {

/// Status with which a decode succeeded.
pub const STATUS_OK: i32 = 0;

/// Status of a decoder that was handed data it cannot decode yet, such as a
/// frame that depends on a key frame it has not seen.
pub const STATUS_BAD_DATA: i32 = -12909;

/// Status of a codec that found the data of one frame malformed or
/// incomplete.
pub const STATUS_CODEC_BAD_DATA: i32 = -8969;

/// How a decode went, by the severity it is reported with.
#[derive(Debug, Clone, Copy, PartialEq, Eq, Structural)]
pub enum DecodeReport {
    /// The frame was decoded.
    Decoded,
    /// The decoder could not use the data. Expected before the first key
    /// frame; reported quietly.
    TransientBadData,
    /// The decoder failed otherwise. Reported as a warning.
    Failed,
}

/// The report that a decode status calls for.
pub open spec fn report_of(status: i32) -> DecodeReport {
    if status == STATUS_OK {
        DecodeReport::Decoded
    } else if status == STATUS_BAD_DATA || status == STATUS_CODEC_BAD_DATA {
        DecodeReport::TransientBadData
    } else {
        DecodeReport::Failed
    }
}

/// Sorts a decode status by the severity it is reported with. No status ends
/// the connection.
pub fn classify_status(status: i32) -> (report: DecodeReport)
    ensures
        report == report_of(status),
{
    if status == STATUS_OK {
        DecodeReport::Decoded
    } else if status == STATUS_BAD_DATA || status == STATUS_CODEC_BAD_DATA {
        DecodeReport::TransientBadData
    } else {
        DecodeReport::Failed
    }
}

/// The lengths of a list of byte strings.
pub open spec fn lengths_of(sets: Seq<Seq<u8>>) -> Seq<usize> {
    Seq::new(sets.len(), |i: int| sets[i].len() as usize)
}

/// The sizes of the parameter sets in the order the decoder is given them:
/// every SPS, then every PPS.
pub fn parameter_set_sizes(sps_list: &Vec<Vec<u8>>, pps_list: &Vec<Vec<u8>>) -> (sizes: Vec<usize>)
    ensures
        sizes@ == lengths_of(sets_view(sps_list@) + sets_view(pps_list@)),
{
    let ghost all = sets_view(sps_list@) + sets_view(pps_list@);
    let mut sizes: Vec<usize> = Vec::new();
    let mut i: usize = 0;
    while i < sps_list.len()
        invariant
            i <= sps_list@.len(),
            all == sets_view(sps_list@) + sets_view(pps_list@),
            sizes@ == lengths_of(all.take(i as int)),
        decreases sps_list@.len() - i,
    {
        sizes.push(sps_list[i].len());
        i = i + 1;
        assert(sizes@ =~= lengths_of(all.take(i as int)));
    }
    let mut j: usize = 0;
    while j < pps_list.len()
        invariant
            j <= pps_list@.len(),
            all == sets_view(sps_list@) + sets_view(pps_list@),
            sizes@ == lengths_of(all.take(sps_list@.len() + j)),
        decreases pps_list@.len() - j,
    {
        sizes.push(pps_list[j].len());
        j = j + 1;
        assert(sizes@ =~= lengths_of(all.take(sps_list@.len() + j)));
    }
    assert(all.take(all.len() as int) =~= all);
    sizes
}

/// What reaches the sink.
#[derive(Debug)]
pub enum SinkEvent {
    /// A configuration record arrived.
    ConfigArrived(AvcDecoderConfig),
    /// The decoder asked for came up.
    DecoderCreated,
    /// The decoder asked for did not come up.
    DecoderFailed { status: i32 },
    /// The NAL units of one frame arrived.
    FrameArrived { data: Bytes, timestamp: u32 },
    /// The decoder is done with a frame.
    DecodeFinished { status: i32 },
}

/// What the sink asks of its surroundings.
#[derive(Debug)]
pub enum SinkAction {
    /// Build a decoder from this configuration.
    CreateDecoder(AvcDecoderConfig),
    /// Decode this frame.
    Decode { data: Bytes, timestamp: u32 },
    /// Log at low severity.
    LogQuietly,
    /// Log at warning severity.
    LogWarning,
    /// Nothing to do.
    Nothing,
}

/// Mathematical content of a [`SinkAction`].
pub enum SinkActionView {
    CreateDecoder(ConfigView),
    Decode { payload: Seq<u8>, timestamp: u32 },
    LogQuietly,
    LogWarning,
    Nothing,
}

impl View for SinkAction {
    type V = SinkActionView;

    open spec fn view(&self) -> SinkActionView {
        match *self {
            SinkAction::CreateDecoder(config) => SinkActionView::CreateDecoder(config@),
            SinkAction::Decode { data, timestamp } => SinkActionView::Decode {
                payload: bytes_contents(data),
                timestamp,
            },
            SinkAction::LogQuietly => SinkActionView::LogQuietly,
            SinkAction::LogWarning => SinkActionView::LogWarning,
            SinkAction::Nothing => SinkActionView::Nothing,
        }
    }
}

/// The sink's state: whether a decoder is in place.
pub struct DecoderSink {
    has_decoder: bool,
}

/// What an event calls for, given whether a decoder is in place.
pub open spec fn sink_action(has_decoder: bool, event: SinkEvent) -> SinkActionView {
    match event {
        SinkEvent::ConfigArrived(config) => SinkActionView::CreateDecoder(config@),
        SinkEvent::DecoderCreated => SinkActionView::Nothing,
        SinkEvent::DecoderFailed { status } => SinkActionView::LogWarning,
        SinkEvent::FrameArrived { data, timestamp } => if has_decoder {
            SinkActionView::Decode { payload: bytes_contents(data), timestamp }
        } else {
            SinkActionView::Nothing
        },
        SinkEvent::DecodeFinished { status } => match report_of(status) {
            DecodeReport::Decoded => SinkActionView::Nothing,
            DecodeReport::TransientBadData => SinkActionView::LogQuietly,
            DecodeReport::Failed => SinkActionView::LogWarning,
        },
    }
}

/// Whether a decoder is in place after an event: a new one that came up
/// takes the place of the one before; one that did not leaves it there.
pub open spec fn sink_has_decoder(has_decoder: bool, event: SinkEvent) -> bool {
    has_decoder || event is DecoderCreated
}

impl DecoderSink {
    /// Whether a decoder is in place.
    pub closed spec fn has_decoder(&self) -> bool {
        self.has_decoder
    }

    /// A sink without a decoder.
    pub fn new() -> (sink: DecoderSink)
        ensures
            !sink.has_decoder(),
    {
        DecoderSink { has_decoder: false }
    }

    /// Takes in one event and says what to do about it.
    pub fn step(&mut self, event: SinkEvent) -> (action: SinkAction)
        ensures
            action@ == sink_action(old(self).has_decoder(), event),
            final(self).has_decoder() == sink_has_decoder(old(self).has_decoder(), event),
    {
        match event {
            SinkEvent::ConfigArrived(config) => SinkAction::CreateDecoder(config),
            SinkEvent::DecoderCreated => {
                self.has_decoder = true;
                SinkAction::Nothing
            },
            SinkEvent::DecoderFailed { status } => SinkAction::LogWarning,
            SinkEvent::FrameArrived { data, timestamp } => {
                if self.has_decoder {
                    SinkAction::Decode { data, timestamp }
                } else {
                    SinkAction::Nothing
                }
            },
            SinkEvent::DecodeFinished { status } => match classify_status(status) {
                DecodeReport::Decoded => SinkAction::Nothing,
                DecodeReport::TransientBadData => SinkAction::LogQuietly,
                DecodeReport::Failed => SinkAction::LogWarning,
            },
        }
    }

    /// Whether a decoder is in place.
    pub fn ready(&self) -> (ready: bool)
        ensures
            ready == self.has_decoder(),
    {
        self.has_decoder
    }
}

} // verus!
