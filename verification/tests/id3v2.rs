use fuel::bite::BiterError;
use fuel::id3v2::frame::ID3v2ParseFrameError;
use fuel::id3v2::header::ID3v2ParseHeaderError;
use fuel::id3v2::payload::{decode_payload, parse_payload, ID3v2Frame, ID3v2ParsePayloadError, ParsedAs};
use fuel::id3v2::types::{ID3v2FrameFlags, ID3v2FrameID, ID3v2HeaderFlags, ID3v2Magic, ID3v2Size};
use fuel::id3v2::{parse_id3v2, tag_needs_unsupported_encoding, ID3v2Error};
use fuel::reader::ByteReader;

/// A header for a tag at the start of the data that ends at byte `end`: its
/// size counts the bytes after the ten header bytes.
fn tag_header(end: u32) -> Vec<u8> {
    let size = end - 10;
    let syncsafe = [
        ((size >> 21) & 0x7F) as u8,
        ((size >> 14) & 0x7F) as u8,
        ((size >> 7) & 0x7F) as u8,
        (size & 0x7F) as u8,
    ];
    let mut v = vec![b'I', b'D', b'3', 4, 0, 0];
    v.extend_from_slice(&syncsafe);
    v
}

/// A frame with identifier `id` and payload `payload`.
fn frame(id: &[u8; 4], payload: &[u8]) -> Vec<u8> {
    let mut v = id.to_vec();
    v.extend_from_slice(&(payload.len() as u32).to_be_bytes());
    v.extend_from_slice(&[0, 0]);
    v.extend_from_slice(payload);
    v
}

#[test]
fn size_conversion() {
    assert_eq!(ID3v2Size(40).as_u32(), 40);
    assert_eq!(ID3v2Size(0x00000201).as_u32(), 257);
}

#[test]
fn syncsafe_sizes_drop_the_top_bit_of_each_byte() {
    assert_eq!(ID3v2Size(0x7F7F_7F7F).as_u32(), 0x0FFF_FFFF);
    assert_eq!(ID3v2Size(0x0000_0100).as_u32(), 128);
    assert_eq!(ID3v2Size(0).as_u32(), 0);
}

#[test]
fn frame_ids_as_text() {
    assert_eq!(ID3v2FrameID(*b"TIT2").as_str(), Some("TIT2".to_string()));
    assert_eq!(ID3v2FrameID(*b"tit2").as_str(), None);
    assert_eq!(ID3v2FrameID([0xFF, b'A', b'B', b'C']).as_str(), None);
}

#[test]
fn magic_is_checked() {
    assert!(ID3v2Magic(*b"ID3").is_valid());
    assert!(!ID3v2Magic(*b"ID4").is_valid());
}

#[test]
fn header_flags_know_their_bits() {
    let flags = ID3v2HeaderFlags::from_bits_retain(0b1000_0001);
    assert_eq!(flags.bits(), 0b1000_0001);
    assert!(flags.contains_unknown_bits());
    assert!(!flags.is_empty());
    assert!(ID3v2HeaderFlags::from_bits_retain(0).is_empty());
    assert!(!ID3v2FrameFlags::from_bits_retain(0x8000).contains_unknown_bits());
    assert!(ID3v2FrameFlags::from_bits_retain(0x0001).contains_unknown_bits());
}

#[test]
fn text_payloads_decode_utf8() {
    let frame = decode_payload(ID3v2FrameID(*b"TIT2"), &vec![3, b'H', b'i', 0]).unwrap();
    assert!(matches!(frame, ID3v2Frame::Title(ref s) if s == "Hi"));
}

#[test]
fn invalid_utf8_is_refused() {
    let r = decode_payload(ID3v2FrameID(*b"TALB"), &vec![3, 0xFF, 0xFE]);
    assert!(matches!(r, Err(ID3v2ParsePayloadError::StringParseError(ParsedAs::Utf8, _))));
}

#[test]
fn number_payloads_are_parsed() {
    let frame = decode_payload(ID3v2FrameID(*b"TBPM"), &vec![3, b'1', b'2', b'0']).unwrap();
    assert!(matches!(frame, ID3v2Frame::BPM(120)));
    let r = decode_payload(ID3v2FrameID(*b"TBPM"), &vec![3, b'x']);
    assert!(matches!(r, Err(ID3v2ParsePayloadError::StringParseError(ParsedAs::Integer, _))));
}

#[test]
fn unknown_frames_are_refused() {
    let r = decode_payload(ID3v2FrameID(*b"APIC"), &vec![3, 1, 2]);
    assert!(matches!(r, Err(ID3v2ParsePayloadError::UnknownTag(id)) if id == ID3v2FrameID(*b"APIC")));
}

#[test]
fn a_short_payload_is_a_read_error() {
    let mut stream = ByteReader::new(vec![3, b'a']);
    let r = parse_payload(&mut stream, ID3v2FrameID(*b"TIT2"), 5);
    assert!(matches!(r, Err(ID3v2ParsePayloadError::Read(_))));
    assert_eq!(stream.position(), 0);
}

#[test]
fn a_tag_with_two_frames() {
    let title = frame(b"TIT2", &[3, b'S', b'o', b'n', b'g']);
    let bpm = frame(b"TBPM", &[3, b'9', b'0']);
    let end = (10 + title.len() + bpm.len()) as u32;
    let mut data = tag_header(end);
    data.extend_from_slice(&title);
    data.extend_from_slice(&bpm);
    data.extend_from_slice(&[0u8; 10]);
    data.push(0xAA);
    let mut stream = ByteReader::new(data);
    let tags = parse_id3v2(&mut stream).unwrap();
    assert_eq!(tags.len(), 2);
    assert!(matches!(tags[0].frame, ID3v2Frame::Title(ref s) if s == "Song"));
    assert!(matches!(tags[1].frame, ID3v2Frame::BPM(90)));
    assert!(tags[0].flags.is_empty());
    // The reader stands at the end of the tag.
    assert_eq!(stream.position(), end as u64);
}

#[test]
fn a_tag_needs_its_magic() {
    let mut data = tag_header(10);
    data[0] = b'X';
    let mut stream = ByteReader::new(data);
    let r = parse_id3v2(&mut stream);
    assert!(matches!(r, Err(ID3v2Error::ParseHeader(ID3v2ParseHeaderError::InvalidMagic(_)))));
}

#[test]
fn a_tag_with_unknown_flags_is_refused() {
    let mut data = tag_header(10);
    data[5] = 0x01;
    let mut stream = ByteReader::new(data);
    let r = parse_id3v2(&mut stream);
    assert!(matches!(
        r,
        Err(ID3v2Error::ParseHeader(ID3v2ParseHeaderError::UnknownHeaderFlags(_)))
    ));
}

#[test]
fn a_short_tag_header_is_a_read_error() {
    let mut stream = ByteReader::new(vec![b'I', b'D', b'3']);
    let r = parse_id3v2(&mut stream);
    assert!(matches!(r, Err(ID3v2Error::ParseHeader(ID3v2ParseHeaderError::Read(_)))));
}

#[test]
fn a_bad_frame_fails_the_tag() {
    let bad = frame(b"ti!2", &[3, b'a']);
    let end = (10 + bad.len()) as u32;
    let mut data = tag_header(end);
    data.extend_from_slice(&bad);
    let mut stream = ByteReader::new(data);
    let r = parse_id3v2(&mut stream);
    assert!(matches!(r, Err(ID3v2Error::ParseFrame(_))));
}

#[test]
fn unknown_encodings_are_refused() {
    let r = decode_payload(ID3v2FrameID(*b"TIT2"), &vec![7, b'a']);
    assert!(matches!(r, Err(ID3v2ParsePayloadError::UnknownEncodingType(7))));
}

#[test]
fn a_bad_version_is_refused() {
    let mut data = tag_header(10);
    data[4] = 0xFF;
    let mut stream = ByteReader::new(data);
    let r = parse_id3v2(&mut stream);
    assert!(matches!(
        r,
        Err(ID3v2Error::ParseHeader(ID3v2ParseHeaderError::InvalidVersion(4, 0xFF)))
    ));
}

#[test]
fn known_tag_flags_are_not_handled() {
    let mut data = tag_header(10);
    data[5] = 0x80;
    let mut stream = ByteReader::new(data);
    let r = parse_id3v2(&mut stream);
    assert!(matches!(
        r,
        Err(ID3v2Error::ParseHeader(ID3v2ParseHeaderError::NotImplementedFlags(f))) if f.bits() == 0x80
    ));
}

#[test]
fn frame_flags_are_checked() {
    let mut unknown = frame(b"TIT2", &[3, b'a']);
    unknown[9] = 0x01;
    let end = (10 + unknown.len()) as u32;
    let mut data = tag_header(end);
    data.extend_from_slice(&unknown);
    let r = parse_id3v2(&mut ByteReader::new(data));
    assert!(matches!(
        r,
        Err(ID3v2Error::ParseFrame(ID3v2ParseFrameError::UnknownHeaderFlags(f))) if f.bits() == 0x0001
    ));

    let mut known = frame(b"TIT2", &[3, b'a']);
    known[8] = 0x40;
    let end = (10 + known.len()) as u32;
    let mut data = tag_header(end);
    data.extend_from_slice(&known);
    let r = parse_id3v2(&mut ByteReader::new(data));
    assert!(matches!(
        r,
        Err(ID3v2Error::ParseFrame(ID3v2ParseFrameError::NotImplementedFlags(f))) if f.bits() == 0x4000
    ));
}

#[test]
fn a_tag_that_ends_inside_a_frame_header() {
    let mut data = tag_header(40);
    data.extend_from_slice(b"TIT2");
    let r = parse_id3v2(&mut ByteReader::new(data));
    assert!(matches!(r, Err(ID3v2Error::ParseFrame(ID3v2ParseFrameError::Read(BiterError::EOF)))));
}

#[test]
fn a_payload_past_the_data_is_a_read_error() {
    let mut data = tag_header(40);
    let mut f = frame(b"TIT2", &[3, b'a', b'b']);
    f.truncate(12);
    data.extend_from_slice(&f);
    let r = parse_id3v2(&mut ByteReader::new(data));
    assert!(matches!(
        r,
        Err(ID3v2Error::ParsePayload(ID3v2ParsePayloadError::Read(BiterError::EOF)))
    ));
}

#[test]
fn an_unknown_frame_fails_the_tag() {
    let title = frame(b"TIT2", &[3, b'a']);
    let pic = frame(b"APIC", &[0, 1, 2]);
    let end = (10 + title.len() + pic.len()) as u32;
    let mut data = tag_header(end);
    data.extend_from_slice(&title);
    data.extend_from_slice(&pic);
    let r = parse_id3v2(&mut ByteReader::new(data));
    assert!(matches!(
        r,
        Err(ID3v2Error::ParsePayload(ID3v2ParsePayloadError::UnknownTag(id))) if id == ID3v2FrameID(*b"APIC")
    ));
}

#[test]
fn tags_with_latin1_or_utf16_text_are_found_beforehand() {
    let title = frame(b"TIT2", &[0, b'a']);
    let end = (10 + title.len()) as u32;
    let mut data = tag_header(end);
    data.extend_from_slice(&title);
    assert!(tag_needs_unsupported_encoding(&ByteReader::new(data)));

    let utf16 = frame(b"TALB", &[1, 0xFF, 0xFE]);
    let end = (10 + utf16.len()) as u32;
    let mut data = tag_header(end);
    data.extend_from_slice(&utf16);
    assert!(tag_needs_unsupported_encoding(&ByteReader::new(data)));

    let utf8 = frame(b"TIT2", &[3, b'a']);
    let end = (10 + utf8.len()) as u32;
    let mut data = tag_header(end);
    data.extend_from_slice(&utf8);
    assert!(!tag_needs_unsupported_encoding(&ByteReader::new(data)));

    let mut data = tag_header(10);
    data[0] = b'X';
    assert!(!tag_needs_unsupported_encoding(&ByteReader::new(data)));
}

#[test]
fn a_refused_frame_before_latin1_text_ends_the_search() {
    let pic = frame(b"APIC", &[3, 1]);
    let title = frame(b"TIT2", &[0, b'a']);
    let end = (10 + pic.len() + title.len()) as u32;
    let mut data = tag_header(end);
    data.extend_from_slice(&pic);
    data.extend_from_slice(&title);
    assert!(!tag_needs_unsupported_encoding(&ByteReader::new(data)));
}

#[test]
fn errors_leave_the_reader_where_reading_stopped() {
    // A refused frame header: the reader stands after it.
    let bad = frame(b"ti!2", &[3, b'a']);
    let end = (10 + bad.len()) as u32;
    let mut data = tag_header(end);
    data.extend_from_slice(&bad);
    let mut stream = ByteReader::new(data);
    assert!(parse_id3v2(&mut stream).is_err());
    assert_eq!(stream.position(), 20);

    // A refused payload after a good frame: the reader stands after the payload.
    let title = frame(b"TIT2", &[3, b'a']);
    let pic = frame(b"APIC", &[0, 1, 2]);
    let end = (10 + title.len() + pic.len()) as u32;
    let mut data = tag_header(end);
    data.extend_from_slice(&title);
    data.extend_from_slice(&pic);
    let mut stream = ByteReader::new(data);
    assert!(parse_id3v2(&mut stream).is_err());
    assert_eq!(stream.position(), end as u64);

    // A frame header cut short: the reader stands before it.
    let mut data = tag_header(40);
    data.extend_from_slice(b"TIT2");
    let mut stream = ByteReader::new(data);
    assert!(parse_id3v2(&mut stream).is_err());
    assert_eq!(stream.position(), 10);

    // A refused tag header: the reader stands after it.
    let mut data = tag_header(10);
    data[0] = b'X';
    let mut stream = ByteReader::new(data);
    assert!(parse_id3v2(&mut stream).is_err());
    assert_eq!(stream.position(), 10);
}

#[test]
fn an_empty_tag_ends_after_its_header() {
    let mut data = tag_header(10);
    data.extend_from_slice(&[0xFF, 0xFB, 0x90, 0x00]);
    let mut stream = ByteReader::new(data);
    let tags = parse_id3v2(&mut stream).unwrap();
    assert!(tags.is_empty());
    assert_eq!(stream.position(), 10);
}
