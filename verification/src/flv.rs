//! Demultiplexer for the body of one video tag.
//!
//! A tag body starts with a byte whose low nibble names the codec, followed
//! (for AVC) by a packet-type byte and a three-byte composition offset. What
//! follows is either a decoder configuration record or a run of
//! length-prefixed NAL units.

use vstd::prelude::*;
use bytes::Bytes;
use crate::byte_buffer::{bytes_contents, bytes_as_slice, bytes_tail};

verus! {

/// Codec id carried in the low nibble of the first byte for AVC video.
pub const CODEC_AVC: u8 = 7;

/// Packet type of a decoder configuration record.
pub const PACKET_SEQUENCE_HEADER: u8 = 0;

/// Packet type of NAL unit data.
pub const PACKET_NALU: u8 = 1;

/// Packet type of the end-of-sequence marker.
pub const PACKET_END_OF_SEQUENCE: u8 = 2;

/// Bytes before the AVC data: tag header, packet type, composition offset.
pub const AVC_PREFIX_LEN: usize = 5;

/// Bytes of a configuration record before its first parameter set.
pub const RECORD_FIXED_LEN: usize = 6;

/// Parsed H.264 decoder configuration (SPS + PPS).
#[derive(Debug, Clone)]
pub struct AvcDecoderConfig {
    pub sps: Vec<Vec<u8>>,
    pub pps: Vec<Vec<u8>>,
    pub nalu_length_size: u8,
}

/// Mathematical content of an [`AvcDecoderConfig`].
pub struct ConfigView {
    pub sps: Seq<Seq<u8>>,
    pub pps: Seq<Seq<u8>>,
    pub nalu_length_size: u8,
}

/// The byte strings held by a list of parameter sets.
pub open spec fn sets_view(sets: Seq<Vec<u8>>) -> Seq<Seq<u8>> {
    Seq::new(sets.len(), |i: int| sets[i]@)
}

impl View for AvcDecoderConfig {
    type V = ConfigView;

    open spec fn view(&self) -> ConfigView {
        ConfigView {
            sps: sets_view(self.sps@),
            pps: sets_view(self.pps@),
            nalu_length_size: self.nalu_length_size,
        }
    }
}

/// Result of parsing a video tag body.
#[derive(Debug)]
pub enum VideoPacket {
    /// AVC sequence header containing SPS/PPS
    SequenceHeader(AvcDecoderConfig),
    /// Length-prefixed NAL units of one frame, forwarded as received
    NaluData { avcc_payload: Bytes, timestamp: u32 },
    /// End of sequence
    EndOfSequence,
    /// Not H.264, malformed or truncated: skipped
    Unsupported,
}

/// Mathematical content of a [`VideoPacket`].
pub enum PacketView {
    SequenceHeader(ConfigView),
    NaluData { avcc_payload: Seq<u8>, timestamp: u32 },
    EndOfSequence,
    Unsupported,
}

impl View for VideoPacket {
    type V = PacketView;

    open spec fn view(&self) -> PacketView {
        match *self {
            VideoPacket::SequenceHeader(config) => PacketView::SequenceHeader(config@),
            VideoPacket::NaluData { avcc_payload, timestamp } => PacketView::NaluData {
                avcc_payload: bytes_contents(avcc_payload),
                timestamp,
            },
            VideoPacket::EndOfSequence => PacketView::EndOfSequence,
            VideoPacket::Unsupported => PacketView::Unsupported,
        }
    }
}

/// The value of a two-byte big-endian length field at `pos`.
pub open spec fn be16_at(s: Seq<u8>, pos: int) -> int {
    s[pos] * 256 + s[pos + 1]
}

/// Reads `count` length-prefixed parameter sets from `s`, the first one
/// starting at `pos`. Gives the sets in order and the position after the last
/// one, or `None` when a length field or the bytes it announces would reach
/// past the end of `s`.
pub open spec fn read_sets(s: Seq<u8>, pos: int, count: nat) -> Option<(Seq<Seq<u8>>, int)>
    decreases count,
{
    if count == 0 {
        Some((Seq::empty(), pos))
    } else {
        match read_sets(s, pos, (count - 1) as nat) {
            None => None,
            Some((sets, at)) => {
                if at + 2 > s.len() {
                    None
                } else if at + 2 + be16_at(s, at) > s.len() {
                    None
                } else {
                    Some((sets.push(s.subrange(at + 2, at + 2 + be16_at(s, at))), at + 2 + be16_at(s, at)))
                }
            },
        }
    }
}

/// What a configuration record means. `record` is the tag body after its
/// five-byte prefix.
pub open spec fn parse_record_spec(record: Seq<u8>) -> PacketView {
    if record.len() < RECORD_FIXED_LEN {
        PacketView::Unsupported
    } else if record[0] != 1 {
        PacketView::Unsupported
    } else {
        match read_sets(record, RECORD_FIXED_LEN as int, (record[5] & 0x1F) as nat) {
            None => PacketView::Unsupported,
            Some((sps, at)) => {
                if at >= record.len() {
                    PacketView::Unsupported
                } else {
                    match read_sets(record, at + 1, record[at] as nat) {
                        None => PacketView::Unsupported,
                        Some((pps, end)) => PacketView::SequenceHeader(
                            ConfigView {
                                sps,
                                pps,
                                nalu_length_size: ((record[4] & 0x03) + 1) as u8,
                            },
                        ),
                    }
                }
            },
        }
    }
}

/// Whether a tag body is long enough to name a packet type and names AVC as
/// its codec.
pub open spec fn is_avc(data: Seq<u8>) -> bool {
    data.len() >= 2 && data[0] & 0x0F == CODEC_AVC
}

/// What a video tag body means.
pub open spec fn parse_spec(data: Seq<u8>, timestamp: u32) -> PacketView {
    if data.len() < 2 {
        PacketView::Unsupported
    } else if data[0] & 0x0F != CODEC_AVC {
        PacketView::Unsupported
    } else if data[1] == PACKET_SEQUENCE_HEADER {
        if data.len() < AVC_PREFIX_LEN + RECORD_FIXED_LEN {
            PacketView::Unsupported
        } else {
            parse_record_spec(data.skip(AVC_PREFIX_LEN as int))
        }
    } else if data[1] == PACKET_NALU {
        if data.len() < AVC_PREFIX_LEN {
            PacketView::Unsupported
        } else {
            PacketView::NaluData { avcc_payload: data.skip(AVC_PREFIX_LEN as int), timestamp }
        }
    } else if data[1] == PACKET_END_OF_SEQUENCE {
        PacketView::EndOfSequence
    } else {
        PacketView::Unsupported
    }
}

/// Whether one of the first `count` parameter sets of a run starting at `pos`
/// is cut short: the sets before it are whole, and its length field, or the
/// bytes that field announces, would reach past the end of `s`.
pub open spec fn sets_truncated(s: Seq<u8>, pos: int, count: nat) -> bool {
    exists|k: nat|
        k < count && (#[trigger] read_sets(s, pos, k) matches Some((_, at)) && (at + 2 > s.len()
            || at + 2 + be16_at(s, at) > s.len()))
}

/// Whether the configuration record of a sequence-header tag is cut short:
/// the tag ends inside its fixed part, inside an SPS entry, before the PPS
/// count, or inside a PPS entry.
pub open spec fn record_truncated(data: Seq<u8>) -> bool {
    data.len() < AVC_PREFIX_LEN + RECORD_FIXED_LEN || {
        let record = data.skip(AVC_PREFIX_LEN as int);
        let num_sps = (record[5] & 0x1F) as nat;
        sets_truncated(record, RECORD_FIXED_LEN as int, num_sps) || (read_sets(
            record,
            RECORD_FIXED_LEN as int,
            num_sps,
        ) matches Some((_, at)) && (at >= record.len() || sets_truncated(
            record,
            at + 1,
            record[at] as nat,
        )))
    }
}

/// Once reading fails, asking for more sets fails too.
pub proof fn lemma_read_sets_failure_persists(s: Seq<u8>, pos: int, k: nat, n: nat)
    requires
        k <= n,
        read_sets(s, pos, k) is None,
    ensures
        read_sets(s, pos, n) is None,
    decreases n,
{
    if k < n {
        lemma_read_sets_failure_persists(s, pos, k, (n - 1) as nat);
    }
}

/// Reading never moves backwards and never leaves the buffer: each set read
/// advances the position by its two-byte length field and its bytes.
pub proof fn lemma_read_sets_bounds(s: Seq<u8>, pos: int, n: nat)
    requires
        0 <= pos <= s.len(),
    ensures
        read_sets(s, pos, n) matches Some((sets, end)) ==> {
            &&& sets.len() == n
            &&& pos + 2 * n <= end <= s.len()
        },
    decreases n,
{
    if n > 0 {
        lemma_read_sets_bounds(s, pos, (n - 1) as nat);
    }
}

/// A run with a set that is cut short cannot be read.
pub proof fn lemma_truncated_sets_unreadable(s: Seq<u8>, pos: int, count: nat)
    requires
        sets_truncated(s, pos, count),
    ensures
        read_sets(s, pos, count) is None,
{
    let k = choose|k: nat|
        k < count && (#[trigger] read_sets(s, pos, k) matches Some((_, at)) && (at + 2 > s.len()
            || at + 2 + be16_at(s, at) > s.len()));
    assert(read_sets(s, pos, (k + 1) as nat) is None);
    lemma_read_sets_failure_persists(s, pos, (k + 1) as nat, count);
}

/// A sequence-header tag whose configuration record is cut short means
/// `Unsupported`.
pub proof fn lemma_truncated_record_unsupported(data: Seq<u8>, timestamp: u32)
    requires
        is_avc(data),
        data[1] == PACKET_SEQUENCE_HEADER,
        record_truncated(data),
    ensures
        parse_spec(data, timestamp) == PacketView::Unsupported,
{
    if data.len() >= AVC_PREFIX_LEN + RECORD_FIXED_LEN {
        let record = data.skip(AVC_PREFIX_LEN as int);
        let num_sps = (record[5] & 0x1F) as nat;
        if sets_truncated(record, RECORD_FIXED_LEN as int, num_sps) {
            lemma_truncated_sets_unreadable(record, RECORD_FIXED_LEN as int, num_sps);
        } else {
            match read_sets(record, RECORD_FIXED_LEN as int, num_sps) {
                Some((_, at)) => {
                    if at < record.len() {
                        lemma_truncated_sets_unreadable(record, at + 1, record[at] as nat);
                    }
                },
                None => {},
            }
        }
    }
}

/// Reads `count` length-prefixed parameter sets starting at `start`.
fn read_parameter_sets(record: &[u8], start: usize, count: usize) -> (r: Option<
    (Vec<Vec<u8>>, usize),
>)
    requires
        start <= record@.len(),
    ensures
        match read_sets(record@, start as int, count as nat) {
            None => r is None,
            Some((sets, end)) => r matches Some((v, e)) && sets_view(v@) == sets && e == end,
        },
{
    let mut sets: Vec<Vec<u8>> = Vec::new();
    let mut pos: usize = start;
    let mut i: usize = 0;
    assert(sets_view(sets@) =~= Seq::<Seq<u8>>::empty());
    while i < count
        invariant
            i <= count,
            pos <= record@.len(),
            read_sets(record@, start as int, i as nat) == Some((sets_view(sets@), pos as int)),
        decreases count - i,
    {
        if record.len() - pos < 2 {
            proof {
                lemma_read_sets_failure_persists(
                    record@,
                    start as int,
                    (i + 1) as nat,
                    count as nat,
                );
            }
            return None;
        }
        let hi: usize = record[pos] as usize;
        let lo: usize = record[pos + 1] as usize;
        let len: usize = hi * 256 + lo;
        assert(len == be16_at(record@, pos as int));
        if record.len() - (pos + 2) < len {
            proof {
                lemma_read_sets_failure_persists(
                    record@,
                    start as int,
                    (i + 1) as nat,
                    count as nat,
                );
            }
            return None;
        }
        let set: Vec<u8> = vstd::slice::slice_to_vec(
            vstd::slice::slice_subrange(record, pos + 2, pos + 2 + len),
        );
        proof {
            assert(sets_view(sets@.push(set)) =~= sets_view(sets@).push(set@));
        }
        sets.push(set);
        pos = pos + 2 + len;
        i = i + 1;
    }
    Some((sets, pos))
}

/// Parses the configuration record of a sequence-header packet.
///
/// Layout of the record, after the five-byte tag prefix: a version byte that
/// must be 1, profile, compatibility and level bytes, a byte whose low two
/// bits hold the NAL length size minus one, a byte whose low five bits count
/// the SPS entries, the SPS entries (each a two-byte big-endian length and that
/// many bytes), a byte counting the PPS entries, and the PPS entries in the
/// same framing. Anything that does not fit is `Unsupported`.
fn parse_sequence_header(data: &[u8]) -> (packet: VideoPacket)
    ensures
        packet@ == if data@.len() < AVC_PREFIX_LEN + RECORD_FIXED_LEN {
            PacketView::Unsupported
        } else {
            parse_record_spec(data@.skip(AVC_PREFIX_LEN as int))
        },
{
    if data.len() < AVC_PREFIX_LEN + RECORD_FIXED_LEN {
        return VideoPacket::Unsupported;
    }
    let record: &[u8] = vstd::slice::slice_subrange(data, AVC_PREFIX_LEN, data.len());
    assert(record@ == data@.skip(AVC_PREFIX_LEN as int));
    let version: u8 = record[0];
    if version != 1 {
        return VideoPacket::Unsupported;
    }
    let size_byte: u8 = record[4];
    let size_bits: u8 = size_byte & 0x03;
    assert(size_bits <= 3) by (bit_vector)
        requires
            size_bits == size_byte & 0x03,
    ;
    let nalu_length_size: u8 = size_bits + 1;
    let count_bits: u8 = record[5] & 0x1F;
    let num_sps: usize = count_bits as usize;
    let (sps, pos) = match read_parameter_sets(record, RECORD_FIXED_LEN, num_sps) {
        None => {
            return VideoPacket::Unsupported;
        },
        Some(found) => found,
    };
    proof {
        lemma_read_sets_bounds(record@, RECORD_FIXED_LEN as int, num_sps as nat);
    }
    if pos >= record.len() {
        return VideoPacket::Unsupported;
    }
    let num_pps: usize = record[pos] as usize;
    let (pps, _end) = match read_parameter_sets(record, pos + 1, num_pps) {
        None => {
            return VideoPacket::Unsupported;
        },
        Some(found) => found,
    };
    VideoPacket::SequenceHeader(AvcDecoderConfig { sps, pps, nalu_length_size })
}

/// Extracts the length-prefixed NAL units of a data packet: everything after
/// the five-byte prefix, untouched. A packet that ends with its prefix
/// forwards no bytes; one that is shorter than its prefix is `Unsupported`.
fn parse_nalu_data(data: &Bytes, timestamp: u32) -> (packet: VideoPacket)
    ensures
        bytes_contents(*data).len() < AVC_PREFIX_LEN ==> packet@ == PacketView::Unsupported,
        bytes_contents(*data).len() >= AVC_PREFIX_LEN ==> packet@ == (PacketView::NaluData {
            avcc_payload: bytes_contents(*data).skip(AVC_PREFIX_LEN as int),
            timestamp,
        }),
{
    let bytes: &[u8] = bytes_as_slice(data);
    if bytes.len() < AVC_PREFIX_LEN {
        return VideoPacket::Unsupported;
    }
    let avcc_payload: Bytes = bytes_tail(data, AVC_PREFIX_LEN);
    VideoPacket::NaluData { avcc_payload, timestamp }
}

/// Parses the body of one video tag.
///
/// The low nibble of byte 0 names the codec; only AVC is read. Byte 1 names
/// the packet type: a sequence header carries the decoder configuration, a
/// NAL packet carries frame data that is forwarded from byte 5 on exactly as
/// received, and an end-of-sequence marker carries nothing. Everything else,
/// and every record that is cut short, is `Unsupported`.
pub fn parse_video_data(data: &Bytes, timestamp: u32) -> (packet: VideoPacket)
    ensures
        packet@ == parse_spec(bytes_contents(*data), timestamp),
        bytes_contents(*data).len() < 2 ==> packet@ == PacketView::Unsupported,
        is_avc(bytes_contents(*data)) || packet@ == PacketView::Unsupported,
        is_avc(bytes_contents(*data)) && bytes_contents(*data)[1] == PACKET_END_OF_SEQUENCE
            ==> packet@ == PacketView::EndOfSequence,
        is_avc(bytes_contents(*data)) && bytes_contents(*data)[1] == PACKET_NALU
            && bytes_contents(*data).len() >= AVC_PREFIX_LEN ==> packet@ == (PacketView::NaluData {
            avcc_payload: bytes_contents(*data).skip(AVC_PREFIX_LEN as int),
            timestamp,
        }) && packet@->avcc_payload.len() == bytes_contents(*data).len() - AVC_PREFIX_LEN,
        is_avc(bytes_contents(*data)) && bytes_contents(*data)[1] == PACKET_SEQUENCE_HEADER
            && record_truncated(bytes_contents(*data)) ==> packet@ == PacketView::Unsupported,
        packet@ is SequenceHeader <==> is_avc(bytes_contents(*data)) && bytes_contents(*data)[1]
            == PACKET_SEQUENCE_HEADER && !record_truncated(bytes_contents(*data))
            && bytes_contents(*data)[AVC_PREFIX_LEN as int] == 1,
        is_avc(bytes_contents(*data)) && bytes_contents(*data)[1] > PACKET_END_OF_SEQUENCE
            ==> packet@ == PacketView::Unsupported,
{
    proof {
        if is_avc(bytes_contents(*data)) && bytes_contents(*data)[1] == PACKET_SEQUENCE_HEADER
            && record_truncated(bytes_contents(*data)) {
            lemma_truncated_record_unsupported(bytes_contents(*data), timestamp);
        }
        lemma_sequence_header_exactly(bytes_contents(*data), timestamp);
    }
    let bytes: &[u8] = bytes_as_slice(data);
    if bytes.len() < 2 {
        return VideoPacket::Unsupported;
    }
    let codec_id: u8 = bytes[0] & 0x0F;
    if codec_id != CODEC_AVC {
        return VideoPacket::Unsupported;
    }
    let avc_packet_type: u8 = bytes[1];
    if avc_packet_type == PACKET_SEQUENCE_HEADER {
        parse_sequence_header(bytes)
    } else if avc_packet_type == PACKET_NALU {
        parse_nalu_data(data, timestamp)
    } else if avc_packet_type == PACKET_END_OF_SEQUENCE {
        VideoPacket::EndOfSequence
    } else {
        VideoPacket::Unsupported
    }
}

/// The framing of one parameter set: its length as two big-endian bytes, then
/// its bytes.
pub open spec fn encode_set(set: Seq<u8>) -> Seq<u8> {
    seq![(set.len() / 256) as u8, (set.len() % 256) as u8] + set
}

/// The framing of a run of parameter sets, one after the other.
pub open spec fn encode_sets(sets: Seq<Seq<u8>>) -> Seq<u8>
    decreases sets.len(),
{
    if sets.len() == 0 {
        Seq::empty()
    } else {
        encode_sets(sets.drop_last()) + encode_set(sets.last())
    }
}

/// Whether the length of every set fits its two-byte length field.
pub open spec fn sets_encodable(sets: Seq<Seq<u8>>) -> bool {
    forall|i: int| 0 <= i < sets.len() ==> (#[trigger] sets[i]).len() <= 0xFFFF
}

/// Whether a configuration fits the record's fields: at most 31 SPS entries
/// (a five-bit count), at most 255 PPS entries (a one-byte count), every entry
/// at most 65535 bytes, and a NAL length size of 1 to 4.
pub open spec fn config_encodable(config: ConfigView) -> bool {
    &&& config.sps.len() <= 31
    &&& config.pps.len() <= 255
    &&& sets_encodable(config.sps)
    &&& sets_encodable(config.pps)
    &&& 1 <= config.nalu_length_size <= 4
}

/// The part of a configuration record that carries the parameter sets: the
/// SPS entries, the PPS count, the PPS entries.
pub open spec fn encode_record_body(config: ConfigView) -> Seq<u8> {
    encode_sets(config.sps) + seq![config.pps.len() as u8] + encode_sets(config.pps)
}

/// A whole configuration record, with the reserved bits of the two packed
/// bytes set.
pub open spec fn encode_record(
    config: ConfigView,
    profile: u8,
    compatibility: u8,
    level: u8,
) -> Seq<u8> {
    seq![
        1u8,
        profile,
        compatibility,
        level,
        0xFCu8 | ((config.nalu_length_size - 1) as u8),
        0xE0u8 | (config.sps.len() as u8),
    ] + encode_record_body(config)
}

/// A key-frame sequence-header tag that carries `config`, with a zero
/// composition offset.
pub open spec fn encode_sequence_header(
    config: ConfigView,
    profile: u8,
    compatibility: u8,
    level: u8,
) -> Seq<u8> {
    seq![0x17u8, PACKET_SEQUENCE_HEADER, 0u8, 0u8, 0u8] + encode_record(
        config,
        profile,
        compatibility,
        level,
    )
}

/// Reading back a framed run, wherever it stands in a buffer, gives the sets
/// that were framed and stops right after them.
pub proof fn lemma_read_encoded_sets(prefix: Seq<u8>, sets: Seq<Seq<u8>>, suffix: Seq<u8>)
    requires
        sets_encodable(sets),
    ensures
        read_sets(prefix + encode_sets(sets) + suffix, prefix.len() as int, sets.len()) == Some(
            (sets, (prefix.len() + encode_sets(sets).len()) as int),
        ),
    decreases sets.len(),
{
    let s = prefix + encode_sets(sets) + suffix;
    if sets.len() == 0 {
        assert(sets =~= Seq::<Seq<u8>>::empty());
    } else {
        let init = sets.drop_last();
        let last = sets.last();
        let rest = encode_set(last) + suffix;
        assert(sets_encodable(init)) by {
            assert forall|i: int| 0 <= i < init.len() implies (#[trigger] init[i]).len()
                <= 0xFFFF by {
                assert(init[i] == sets[i]);
            }
        }
        lemma_read_encoded_sets(prefix, init, rest);
        assert(s =~= prefix + encode_sets(init) + rest);
        let at: int = (prefix.len() + encode_sets(init).len()) as int;
        let len: int = last.len() as int;
        assert(sets[sets.len() - 1].len() <= 0xFFFF);
        assert(s[at] == (len / 256) as u8);
        assert(s[at + 1] == (len % 256) as u8);
        assert(be16_at(s, at) == len);
        assert(s.subrange(at + 2, at + 2 + len) =~= last);
        assert(init.push(last) =~= sets);
    }
}

/// The bytes that a successful read walked over are exactly the framing of
/// the sets it returned.
pub proof fn lemma_read_sets_region(s: Seq<u8>, pos: int, count: nat)
    requires
        0 <= pos <= s.len(),
    ensures
        read_sets(s, pos, count) matches Some((sets, end)) ==> {
            &&& sets.len() == count
            &&& sets_encodable(sets)
            &&& pos <= end <= s.len()
            &&& s.subrange(pos, end) == encode_sets(sets)
        },
    decreases count,
{
    if count == 0 {
        assert(s.subrange(pos, pos) =~= Seq::<u8>::empty());
    } else {
        lemma_read_sets_region(s, pos, (count - 1) as nat);
        match read_sets(s, pos, count) {
            Some((sets, end)) => {
                match read_sets(s, pos, (count - 1) as nat) {
                    Some((init, at)) => {
                        let len = be16_at(s, at);
                        let last = s.subrange(at + 2, at + 2 + len);
                        assert(sets == init.push(last));
                        assert(sets.drop_last() =~= init);
                        assert(sets.last() == last);
                        assert(len < 0x10000);
                        assert(s[at] == (len / 256) as u8);
                        assert(s[at + 1] == (len % 256) as u8);
                        assert(s.subrange(pos, end) =~= s.subrange(pos, at) + encode_set(last));
                    },
                    None => {},
                }
            },
            None => {},
        }
    }
}

/// Parsing the tag that frames a configuration gives that configuration
/// back: the same SPS and PPS byte strings in the same order, and the same
/// NAL length size.
pub proof fn lemma_parse_encoded_header(
    config: ConfigView,
    profile: u8,
    compatibility: u8,
    level: u8,
    timestamp: u32,
)
    requires
        config_encodable(config),
    ensures
        parse_spec(encode_sequence_header(config, profile, compatibility, level), timestamp)
            == PacketView::SequenceHeader(config),
{
    let data = encode_sequence_header(config, profile, compatibility, level);
    let record = encode_record(config, profile, compatibility, level);
    assert(0x17u8 & 0x0F == 7u8) by (bit_vector);
    assert(data.skip(AVC_PREFIX_LEN as int) =~= record);
    lemma_encoded_record_reads(config, profile, compatibility, level);
}

/// Framing the parameter sets of a parsed sequence header again gives back,
/// byte for byte, the part of the tag they were read from.
pub proof fn lemma_reencode_parsed_header(data: Seq<u8>, timestamp: u32)
    requires
        parse_spec(data, timestamp) is SequenceHeader,
    ensures
        ({
            let config = parse_spec(data, timestamp)->SequenceHeader_0;
            let body = encode_record_body(config);
            let start = AVC_PREFIX_LEN + RECORD_FIXED_LEN;
            &&& config_encodable(config)
            &&& start + body.len() <= data.len()
            &&& data.subrange(start as int, start + body.len()) == body
        }),
{
    let record = data.skip(AVC_PREFIX_LEN as int);
    let num_sps = (record[5] & 0x1F) as nat;
    let size_byte = record[4];
    let count_byte = record[5];
    assert(size_byte & 0x03 <= 3) by (bit_vector);
    assert(count_byte & 0x1F <= 31) by (bit_vector);
    lemma_read_sets_region(record, RECORD_FIXED_LEN as int, num_sps);
    match read_sets(record, RECORD_FIXED_LEN as int, num_sps) {
        Some((sps, at)) => {
            lemma_read_sets_region(record, at + 1, record[at] as nat);
            match read_sets(record, at + 1, record[at] as nat) {
                Some((pps, end)) => {
                    let config = parse_spec(data, timestamp)->SequenceHeader_0;
                    let body = encode_record_body(config);
                    let start = AVC_PREFIX_LEN + RECORD_FIXED_LEN;
                    assert(record.subrange(RECORD_FIXED_LEN as int, end) =~= record.subrange(
                        RECORD_FIXED_LEN as int,
                        at,
                    ) + seq![record[at]] + record.subrange(at + 1, end));
                    assert(data.subrange(start as int, start + body.len()) =~= record.subrange(
                        RECORD_FIXED_LEN as int,
                        end,
                    ));
                },
                None => {},
            }
        },
        None => {},
    }
}

/// A run that cannot be read has a set that is cut short.
pub proof fn lemma_unreadable_sets_truncated(s: Seq<u8>, pos: int, count: nat)
    requires
        read_sets(s, pos, count) is None,
    ensures
        sets_truncated(s, pos, count),
    decreases count,
{
    if count > 0 {
        let before = (count - 1) as nat;
        if read_sets(s, pos, before) is None {
            lemma_unreadable_sets_truncated(s, pos, before);
            let k = choose|k: nat|
                k < before && (#[trigger] read_sets(s, pos, k) matches Some((_, at)) && (at + 2
                    > s.len() || at + 2 + be16_at(s, at) > s.len()));
            assert(k < count);
        } else {
            assert(read_sets(s, pos, before) matches Some((_, at)) && (at + 2 > s.len() || at + 2
                + be16_at(s, at) > s.len()));
        }
    }
}

/// A tag means a sequence header exactly when it names AVC and that packet
/// type, its record has version 1, and the record is not cut short.
pub proof fn lemma_sequence_header_exactly(data: Seq<u8>, timestamp: u32)
    ensures
        parse_spec(data, timestamp) is SequenceHeader <==> is_avc(data) && data[1]
            == PACKET_SEQUENCE_HEADER && !record_truncated(data) && data[AVC_PREFIX_LEN as int]
            == 1,
{
    if is_avc(data) && data[1] == PACKET_SEQUENCE_HEADER && data.len() >= AVC_PREFIX_LEN
        + RECORD_FIXED_LEN {
        let record = data.skip(AVC_PREFIX_LEN as int);
        let num_sps = (record[5] & 0x1F) as nat;
        assert(record[0] == data[AVC_PREFIX_LEN as int]);
        match read_sets(record, RECORD_FIXED_LEN as int, num_sps) {
            None => {
                lemma_unreadable_sets_truncated(record, RECORD_FIXED_LEN as int, num_sps);
            },
            Some((_, at)) => {
                if sets_truncated(record, RECORD_FIXED_LEN as int, num_sps) {
                    lemma_truncated_sets_unreadable(record, RECORD_FIXED_LEN as int, num_sps);
                }
                if at < record.len() {
                    if read_sets(record, at + 1, record[at] as nat) is None {
                        lemma_unreadable_sets_truncated(record, at + 1, record[at] as nat);
                    } else if sets_truncated(record, at + 1, record[at] as nat) {
                        lemma_truncated_sets_unreadable(record, at + 1, record[at] as nat);
                    }
                }
            },
        }
    }
}

/// Reading from a buffer that was cut at `cut`: what lies before the cut is
/// read as before, and a run that reached past it cannot be read.
pub proof fn lemma_read_sets_cut(s: Seq<u8>, pos: int, count: nat, cut: int)
    requires
        0 <= pos <= cut <= s.len(),
        read_sets(s, pos, count) is Some,
    ensures
        read_sets(s, pos, count) matches Some((_, end)) && {
            &&& end <= cut ==> read_sets(s.take(cut), pos, count) == read_sets(s, pos, count)
            &&& end > cut ==> read_sets(s.take(cut), pos, count) is None
        },
    decreases count,
{
    if count > 0 {
        let before = (count - 1) as nat;
        lemma_read_sets_bounds(s, pos, before);
        lemma_read_sets_cut(s, pos, before, cut);
        match read_sets(s, pos, before) {
            Some((init, at)) => {
                if at <= cut {
                    if at + 2 <= cut {
                        assert(s.take(cut)[at] == s[at]);
                        assert(s.take(cut)[at + 1] == s[at + 1]);
                        let len = be16_at(s, at);
                        if at + 2 + len <= cut {
                            assert(s.take(cut).subrange(at + 2, at + 2 + len) =~= s.subrange(
                                at + 2,
                                at + 2 + len,
                            ));
                        }
                    }
                } else {
                    lemma_read_sets_failure_persists(s.take(cut), pos, before, count);
                }
            },
            None => {},
        }
    }
}

/// What reading the record of a framed configuration finds: the SPS entries
/// right behind the fixed part, the PPS count behind them, and the PPS
/// entries up to the last byte.
pub proof fn lemma_encoded_record_reads(
    config: ConfigView,
    profile: u8,
    compatibility: u8,
    level: u8,
)
    requires
        config_encodable(config),
    ensures
        ({
            let record = encode_record(config, profile, compatibility, level);
            let at = RECORD_FIXED_LEN + encode_sets(config.sps).len();
            &&& record.len() == at + 1 + encode_sets(config.pps).len()
            &&& record[0] == 1
            &&& (record[4] & 0x03) + 1 == config.nalu_length_size
            &&& record[5] & 0x1F == config.sps.len()
            &&& read_sets(record, RECORD_FIXED_LEN as int, config.sps.len()) == Some(
                (config.sps, at as int),
            )
            &&& record[at as int] == config.pps.len()
            &&& read_sets(record, at + 1, config.pps.len()) == Some(
                (config.pps, record.len() as int),
            )
        }),
{
    let record = encode_record(config, profile, compatibility, level);
    let size_bits = (config.nalu_length_size - 1) as u8;
    let num_sps = config.sps.len() as u8;
    let fixed = seq![
        1u8,
        profile,
        compatibility,
        level,
        0xFCu8 | size_bits,
        0xE0u8 | num_sps,
    ];
    assert((0xFCu8 | size_bits) & 0x03 == size_bits) by (bit_vector)
        requires
            size_bits <= 3,
    ;
    assert((0xE0u8 | num_sps) & 0x1F == num_sps) by (bit_vector)
        requires
            num_sps <= 31,
    ;
    let pps_part = seq![config.pps.len() as u8] + encode_sets(config.pps);
    lemma_read_encoded_sets(fixed, config.sps, pps_part);
    assert(record =~= fixed + encode_sets(config.sps) + pps_part);
    let at: int = (fixed.len() + encode_sets(config.sps).len()) as int;
    let head = fixed + encode_sets(config.sps) + seq![config.pps.len() as u8];
    lemma_read_encoded_sets(head, config.pps, Seq::<u8>::empty());
    assert(record =~= head + encode_sets(config.pps) + Seq::<u8>::empty());
    assert(record[at] == config.pps.len() as u8);
    assert(head.len() == at + 1);
    assert(record[4] == 0xFCu8 | size_bits);
    assert(record[5] == 0xE0u8 | num_sps);
}

/// A framed sequence header that is cut anywhere before its last byte means
/// `Unsupported`.
pub proof fn lemma_cut_header_unsupported(
    config: ConfigView,
    profile: u8,
    compatibility: u8,
    level: u8,
    timestamp: u32,
    cut: int,
)
    requires
        config_encodable(config),
        0 <= cut < encode_sequence_header(config, profile, compatibility, level).len(),
    ensures
        parse_spec(
            encode_sequence_header(config, profile, compatibility, level).take(cut),
            timestamp,
        ) == PacketView::Unsupported,
{
    let tag = encode_sequence_header(config, profile, compatibility, level);
    let record = encode_record(config, profile, compatibility, level);
    let data = tag.take(cut);
    lemma_encoded_record_reads(config, profile, compatibility, level);
    if cut >= AVC_PREFIX_LEN + RECORD_FIXED_LEN {
        let short = data.skip(AVC_PREFIX_LEN as int);
        let keep = cut - AVC_PREFIX_LEN;
        assert(tag.skip(AVC_PREFIX_LEN as int) =~= record);
        assert(short =~= record.take(keep));
        assert(short[0] == record[0] && short[5] == record[5]);
        let at = RECORD_FIXED_LEN + encode_sets(config.sps).len();
        lemma_read_sets_cut(record, RECORD_FIXED_LEN as int, config.sps.len(), keep);
        if at < keep {
            assert(short[at as int] == record[at as int]);
            lemma_read_sets_cut(record, at + 1, config.pps.len(), keep);
        }
    }
}

} // verus!
