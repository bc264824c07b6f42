use rtp_fanout_server::codec::{parse_rtp_packet, serialize_rtp_packet, ParseError};

#[test]
fn test_rtp_packet_parsing() {
    // A valid RTP packet
    let mut packet = vec![0u8; 12];
    packet[0] = 0x80; // Version 2, no padding, no extension, 0 CSRC
    packet[1] = 0x60; // Marker=0, PT=96
    packet[2] = 0x00; // Sequence number high byte
    packet[3] = 0x01; // Sequence number low byte
    packet[4] = 0x00; // Timestamp
    packet[5] = 0x00;
    packet[6] = 0x00;
    packet[7] = 0x00;
    packet[8] = 0x12; // SSRC
    packet[9] = 0x34;
    packet[10] = 0x56;
    packet[11] = 0x78;

    packet.extend_from_slice(b"test payload");

    let parsed = parse_rtp_packet(&packet).unwrap();
    assert_eq!(parsed.sequence, 1);
    assert_eq!(parsed.timestamp, 0);
    assert_eq!(parsed.ssrc, 0x12345678);
    assert!(!parsed.marker);
    assert_eq!(parsed.payload, b"test payload");
}

#[test]
fn test_parse_too_short() {
    let data = [0x80u8; 11];
    assert_eq!(parse_rtp_packet(&data).unwrap_err(), ParseError::TooShort);
    let empty: [u8; 0] = [];
    assert_eq!(parse_rtp_packet(&empty).unwrap_err(), ParseError::TooShort);
}

#[test]
fn test_parse_bad_version() {
    let mut data = [0u8; 12];
    data[0] = 0x40; // version 1
    assert_eq!(parse_rtp_packet(&data).unwrap_err(), ParseError::BadVersion);
}

#[test]
fn test_parse_truncated_extension() {
    // Extension bit set but fewer than 12 + 4 bytes present.
    let mut data = vec![0u8; 13];
    data[0] = 0x90;
    assert_eq!(parse_rtp_packet(&data).unwrap_err(), ParseError::Truncated);

    // Extension header present but the declared extension words run past
    // the end of the datagram.
    let mut data = vec![0u8; 16];
    data[0] = 0x90;
    data[15] = 0x02; // ext_length = 2 words, but no bytes follow
    assert_eq!(parse_rtp_packet(&data).unwrap_err(), ParseError::Truncated);
}

#[test]
fn test_parse_extension_header() {
    // Header byte 0 = 0x90 (X=1), extension profile 0x0000, ext_length 1,
    // one 32-bit word of extension, then payload 'abc'.
    let mut data = vec![0u8; 12];
    data[0] = 0x90;
    data[8] = 0x00;
    data.extend_from_slice(&[0x00, 0x00, 0x00, 0x01]); // profile, ext_length = 1
    data.extend_from_slice(&[0xAA, 0xBB, 0xCC, 0xDD]); // extension word
    data.extend_from_slice(b"abc");
    let parsed = parse_rtp_packet(&data).unwrap();
    assert_eq!(parsed.payload, b"abc");
}

#[test]
fn test_parse_padding() {
    // Padding flag set; last byte says 2 bytes of padding.
    let mut data = vec![0u8; 12];
    data[0] = 0xA0; // version 2, padding
    data.extend_from_slice(b"hi");
    data.extend_from_slice(&[0x00, 0x02]);
    let parsed = parse_rtp_packet(&data).unwrap();
    assert_eq!(parsed.payload, b"hi");

    // An implausible padding length (larger than what follows the header)
    // is ignored rather than rejected.
    let mut data = vec![0u8; 12];
    data[0] = 0xA0;
    data.extend_from_slice(&[0x01, 0xFF]);
    let parsed = parse_rtp_packet(&data).unwrap();
    assert_eq!(parsed.payload, vec![0x01, 0xFF]);
}

#[test]
fn test_serialize_canonical_header() {
    let mut data = vec![0u8; 12];
    data[0] = 0x8F; // version 2, 15 CSRCs claimed — but only header present
    data[1] = 0xFF; // marker set, PT 127
    data[2] = 0xAB;
    data[3] = 0xCD;
    // 15 CSRCs would need 60 more bytes; give them, then a payload.
    let mut full = data.clone();
    full.extend_from_slice(&[0u8; 60]);
    full.extend_from_slice(b"xyz");
    let parsed = parse_rtp_packet(&full).unwrap();
    assert!(parsed.marker);
    assert_eq!(parsed.sequence, 0xABCD);
    assert_eq!(parsed.payload, b"xyz");

    // Serialization strips CSRCs, padding and extension, keeps the marker.
    let out = serialize_rtp_packet(&parsed);
    assert_eq!(out[0], 0x80);
    assert_eq!(out[1], 0x80);
    assert_eq!(out[2], 0xAB);
    assert_eq!(out[3], 0xCD);
    assert_eq!(&out[12..], b"xyz");
    assert_eq!(out.len(), 15);
}

#[test]
fn test_codec_round_trip() {
    let mut data = vec![
        0x80u8, 0x80, 0x12, 0x34, 0x01, 0x02, 0x03, 0x04, 0xDE, 0xAD, 0xBE, 0xEF,
    ];
    data.extend_from_slice(b"round trip payload");
    let p1 = parse_rtp_packet(&data).unwrap();
    let bytes = serialize_rtp_packet(&p1);
    let p2 = parse_rtp_packet(&bytes).unwrap();
    assert_eq!(p2.sequence, p1.sequence);
    assert_eq!(p2.timestamp, p1.timestamp);
    assert_eq!(p2.ssrc, p1.ssrc);
    assert_eq!(p2.marker, p1.marker);
    assert_eq!(p2.payload, p1.payload);
    // And a second round trip reproduces the same bytes exactly.
    assert_eq!(serialize_rtp_packet(&p2), bytes);
}
