//! RTP header codec: parse ingress datagrams into `RtpPacket`, serialize
//! packets for egress with a canonical header.
//!
//! Only the routing-relevant part of the RTP fixed header is interpreted:
//! version, padding flag, extension flag, CSRC count, marker, sequence,
//! timestamp and SSRC. The payload type is read past, not acted on.

use vstd::prelude::*;
use crate::RtpPacket;

verus! {

/// Why a datagram was rejected by the parser.
#[derive(Clone, Copy, PartialEq, Eq, Structural, Debug)]
pub enum ParseError {
    /// Shorter than the 12-byte fixed header.
    TooShort,
    /// Version field is not 2.
    BadVersion,
    /// CSRC list or header extension runs past the end of the datagram.
    Truncated,
}

/// RTP version field: high two bits of the first byte.
pub open spec fn spec_version(d: Seq<u8>) -> int {
    d[0] as int / 64
}

/// Padding flag: bit 5 of the first byte.
pub open spec fn spec_has_padding(d: Seq<u8>) -> bool {
    (d[0] as int / 32) % 2 == 1
}

/// Extension flag: bit 4 of the first byte.
pub open spec fn spec_has_extension(d: Seq<u8>) -> bool {
    (d[0] as int / 16) % 2 == 1
}

/// CSRC count: low four bits of the first byte.
pub open spec fn spec_csrc_count(d: Seq<u8>) -> int {
    d[0] as int % 16
}

/// Marker flag: high bit of the second byte.
pub open spec fn spec_marker(d: Seq<u8>) -> bool {
    d[1] as int / 128 == 1
}

/// Sequence number: bytes 2-3, big endian.
pub open spec fn spec_sequence(d: Seq<u8>) -> int {
    d[2] as int * 256 + d[3] as int
}

/// Timestamp: bytes 4-7, big endian.
pub open spec fn spec_timestamp(d: Seq<u8>) -> int {
    d[4] as int * 0x1000000 + d[5] as int * 0x10000 + d[6] as int * 0x100 + d[7] as int
}

/// SSRC: bytes 8-11, big endian.
pub open spec fn spec_ssrc(d: Seq<u8>) -> int {
    d[8] as int * 0x1000000 + d[9] as int * 0x10000 + d[10] as int * 0x100 + d[11] as int
}

/// Length of the fixed header plus the CSRC list.
pub open spec fn spec_header_len(d: Seq<u8>) -> int {
    12 + 4 * spec_csrc_count(d)
}

/// Number of 32-bit words in the header extension, read at the end of the
/// CSRC list. Meaningful only when the extension flag is set and the four
/// extension header bytes are present.
pub open spec fn spec_ext_words(d: Seq<u8>) -> int {
    d[spec_header_len(d) + 2] as int * 256 + d[spec_header_len(d) + 3] as int
}

/// Offset of the first payload byte.
pub open spec fn spec_payload_start(d: Seq<u8>) -> int {
    if spec_has_extension(d) {
        spec_header_len(d) + 4 + 4 * spec_ext_words(d)
    } else {
        spec_header_len(d)
    }
}

/// The CSRC list or the header extension runs past the end of the datagram.
pub open spec fn spec_truncated(d: Seq<u8>) -> bool {
    ||| spec_has_extension(d) && d.len() < spec_header_len(d) + 4
    ||| spec_payload_start(d) > d.len()
}

/// Padding length: the last byte of the datagram.
pub open spec fn spec_padding_len(d: Seq<u8>) -> int {
    d[d.len() - 1] as int
}

/// Offset one past the last payload byte: the padding, when its length byte
/// is plausible, is cut off the tail; otherwise it is ignored.
pub open spec fn spec_payload_end(d: Seq<u8>) -> int {
    if spec_has_padding(d) && 0 < spec_padding_len(d)
        && spec_padding_len(d) <= d.len() - spec_payload_start(d) {
        d.len() - spec_padding_len(d)
    } else {
        d.len() as int
    }
}

/// A datagram the parser accepts: long enough, version 2, not truncated.
pub open spec fn spec_well_formed(d: Seq<u8>) -> bool {
    &&& d.len() >= 12
    &&& spec_version(d) == 2
    &&& !spec_truncated(d)
}

/// Payload of a well-formed datagram.
pub open spec fn spec_payload(d: Seq<u8>) -> Seq<u8> {
    d.subrange(spec_payload_start(d), spec_payload_end(d))
}

/// Parse an ingress datagram. Accepts exactly the well-formed datagrams and
/// returns the routing fields and the payload; says which check failed
/// otherwise.
pub fn parse_rtp_packet(data: &[u8]) -> (r: Result<RtpPacket, ParseError>)
    ensures
        r is Ok <==> spec_well_formed(data@),
        data@.len() < 12 ==> r == Err::<RtpPacket, ParseError>(ParseError::TooShort),
        data@.len() >= 12 && spec_version(data@) != 2
            ==> r == Err::<RtpPacket, ParseError>(ParseError::BadVersion),
        data@.len() >= 12 && spec_version(data@) == 2 && spec_truncated(data@)
            ==> r == Err::<RtpPacket, ParseError>(ParseError::Truncated),
        r matches Ok(p) ==> {
            &&& p.marker == spec_marker(data@)
            &&& p.sequence as int == spec_sequence(data@)
            &&& p.timestamp as int == spec_timestamp(data@)
            &&& p.ssrc as int == spec_ssrc(data@)
            &&& p.payload@ == spec_payload(data@)
        },
{
    if data.len() < 12 {
        return Err(ParseError::TooShort);
    }

    let b0 = data[0];
    if b0 / 64 != 2 {
        return Err(ParseError::BadVersion);
    }
    let padding = (b0 / 32) % 2;
    let extension = (b0 / 16) % 2;
    let csrc_count = b0 % 16;
    let marker = data[1] / 128 == 1;

    let sequence: u16 = (data[2] as u16) * 256 + (data[3] as u16);
    let timestamp: u32 = (data[4] as u32) * 0x1000000 + (data[5] as u32) * 0x10000
        + (data[6] as u32) * 0x100 + (data[7] as u32);
    let ssrc: u32 = (data[8] as u32) * 0x1000000 + (data[9] as u32) * 0x10000
        + (data[10] as u32) * 0x100 + (data[11] as u32);

    let header_len: usize = 12 + 4 * (csrc_count as usize);
    let mut payload_start: usize = header_len;
    if extension == 1 {
        if data.len() < header_len + 4 {
            return Err(ParseError::Truncated);
        }
        let ext_words: usize = (data[header_len + 2] as usize) * 256
            + (data[header_len + 3] as usize);
        payload_start = header_len + 4 + 4 * ext_words;
    }
    if payload_start > data.len() {
        return Err(ParseError::Truncated);
    }

    let mut payload_end: usize = data.len();
    if padding == 1 {
        let padding_len = data[data.len() - 1] as usize;
        if padding_len > 0 && padding_len <= data.len() - payload_start {
            payload_end = data.len() - padding_len;
        }
    }

    let mut payload: Vec<u8> = Vec::new();
    let mut i: usize = payload_start;
    while i < payload_end
        invariant
            payload_start <= i <= payload_end,
            payload_end <= data@.len(),
            payload@ == data@.subrange(payload_start as int, i as int),
        decreases payload_end - i,
    {
        payload.push(data[i]);
        assert(payload@ == data@.subrange(payload_start as int, i + 1));
        i = i + 1;
    }
    assert(payload_end as int == spec_payload_end(data@));
    assert(payload@ == spec_payload(data@));

    Ok(RtpPacket { payload, timestamp, sequence, ssrc, marker })
}

/// The canonical 12-byte egress header: version 2, no padding, no extension,
/// no CSRCs, marker preserved, payload type dropped to zero.
pub open spec fn spec_header(marker: bool, sequence: u16, timestamp: u32, ssrc: u32) -> Seq<u8> {
    seq![
        128u8,
        if marker { 128u8 } else { 0u8 },
        (sequence / 256) as u8,
        (sequence % 256) as u8,
        (timestamp / 0x1000000) as u8,
        ((timestamp / 0x10000) % 256) as u8,
        ((timestamp / 0x100) % 256) as u8,
        (timestamp % 256) as u8,
        (ssrc / 0x1000000) as u8,
        ((ssrc / 0x10000) % 256) as u8,
        ((ssrc / 0x100) % 256) as u8,
        (ssrc % 256) as u8,
    ]
}

/// What the serializer emits: the canonical header, then the payload verbatim.
pub open spec fn spec_serialize(marker: bool, sequence: u16, timestamp: u32, ssrc: u32, payload: Seq<u8>) -> Seq<u8> {
    spec_header(marker, sequence, timestamp, ssrc) + payload
}

/// Serialize a packet for egress: canonical header, payload appended
/// unchanged. Sequence, timestamp and SSRC are relayed as they came in.
pub fn serialize_rtp_packet(packet: &RtpPacket) -> (r: Vec<u8>)
    ensures
        r@ == spec_serialize(packet.marker, packet.sequence, packet.timestamp, packet.ssrc, packet.payload@),
        r@.len() == 12 + packet.payload@.len(),
{
    let mut data: Vec<u8> = Vec::new();
    data.push(0x80);
    data.push(if packet.marker { 0x80 } else { 0x00 });
    data.push((packet.sequence / 256) as u8);
    data.push((packet.sequence % 256) as u8);
    data.push((packet.timestamp / 0x1000000) as u8);
    data.push(((packet.timestamp / 0x10000) % 256) as u8);
    data.push(((packet.timestamp / 0x100) % 256) as u8);
    data.push((packet.timestamp % 256) as u8);
    data.push((packet.ssrc / 0x1000000) as u8);
    data.push(((packet.ssrc / 0x10000) % 256) as u8);
    data.push(((packet.ssrc / 0x100) % 256) as u8);
    data.push((packet.ssrc % 256) as u8);
    assert(data@ =~= spec_header(packet.marker, packet.sequence, packet.timestamp, packet.ssrc));

    let ghost header = data@;
    let mut i: usize = 0;
    while i < packet.payload.len()
        invariant
            i <= packet.payload@.len(),
            data@ == header + packet.payload@.subrange(0, i as int),
            header == spec_header(packet.marker, packet.sequence, packet.timestamp, packet.ssrc),
        decreases packet.payload@.len() - i,
    {
        data.push(packet.payload[i]);
        assert(data@ =~= header + packet.payload@.subrange(0, i + 1));
        i = i + 1;
    }
    assert(packet.payload@.subrange(0, packet.payload@.len() as int) =~= packet.payload@);
    data
}

/// Law: the codec round-trips. A serialized packet is well formed, and
/// parsing it gives back the marker, sequence, timestamp, SSRC and payload
/// it was built from; hence re-serializing what `parse` returned and parsing
/// again changes none of the routing-relevant fields.
pub proof fn lemma_codec_round_trip(marker: bool, sequence: u16, timestamp: u32, ssrc: u32, payload: Seq<u8>)
    ensures
        ({
            let d = spec_serialize(marker, sequence, timestamp, ssrc, payload);
            &&& spec_well_formed(d)
            &&& spec_marker(d) == marker
            &&& spec_sequence(d) == sequence as int
            &&& spec_timestamp(d) == timestamp as int
            &&& spec_ssrc(d) == ssrc as int
            &&& spec_payload(d) == payload
        }),
{
    let h = spec_header(marker, sequence, timestamp, ssrc);
    let d = spec_serialize(marker, sequence, timestamp, ssrc, payload);
    assert(h.len() == 12);
    assert forall|i: int| 0 <= i < 12 implies d[i] == h[i] by {}
    assert(d[0] == 128);
    assert(spec_version(d) == 2);
    assert(!spec_has_extension(d));
    assert(!spec_has_padding(d));
    assert(spec_csrc_count(d) == 0);
    assert(spec_payload_start(d) == 12);
    assert(!spec_truncated(d));
    assert(spec_marker(d) == marker);
    assert((sequence / 256) as u8 as int * 256 + (sequence % 256) as u8 as int == sequence)
        by (bit_vector);
    assert((timestamp / 0x1000000) as u8 as int * 0x1000000
        + ((timestamp / 0x10000) % 256) as u8 as int * 0x10000
        + ((timestamp / 0x100) % 256) as u8 as int * 0x100
        + (timestamp % 256) as u8 as int == timestamp) by (bit_vector);
    assert((ssrc / 0x1000000) as u8 as int * 0x1000000
        + ((ssrc / 0x10000) % 256) as u8 as int * 0x10000
        + ((ssrc / 0x100) % 256) as u8 as int * 0x100
        + (ssrc % 256) as u8 as int == ssrc) by (bit_vector);
    assert(spec_payload_end(d) == d.len());
    assert(spec_payload(d) =~= payload);
}

/// Law: parsing, re-serializing and parsing again agrees with the first
/// parse on every routing-relevant field — marker, sequence, timestamp,
/// SSRC and payload — for every well-formed datagram.
pub proof fn lemma_parse_serialize_parse(d: Seq<u8>)
    requires
        spec_well_formed(d),
    ensures
        ({
            let r = spec_serialize(
                spec_marker(d),
                spec_sequence(d) as u16,
                spec_timestamp(d) as u32,
                spec_ssrc(d) as u32,
                spec_payload(d),
            );
            &&& spec_well_formed(r)
            &&& spec_marker(r) == spec_marker(d)
            &&& spec_sequence(r) == spec_sequence(d)
            &&& spec_timestamp(r) == spec_timestamp(d)
            &&& spec_ssrc(r) == spec_ssrc(d)
            &&& spec_payload(r) == spec_payload(d)
        }),
{
    assert(0 <= spec_sequence(d) < 0x10000);
    assert(0 <= spec_timestamp(d) < 0x100000000);
    assert(0 <= spec_ssrc(d) < 0x100000000);
    lemma_codec_round_trip(
        spec_marker(d),
        spec_sequence(d) as u16,
        spec_timestamp(d) as u32,
        spec_ssrc(d) as u32,
        spec_payload(d),
    );
}

} // verus!
