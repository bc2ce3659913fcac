use fuel::bite::BiterError;
use fuel::id3v2::payload::ID3v2Frame;
use fuel::id3v2::ID3v2Error;
use fuel::mpeg::header::{MPEGVersion, MpegParseHeaderError};
use fuel::mpeg1::layer3::huffman::{BigHuffmanTable, Count1HuffmanTable, HuffmanTables};
use fuel::mpeg1::layer3::main_data::DecodeMainDataError;
use fuel::mpeg1::layer3::reservoir::ReservoirError;
use fuel::mpeg1::layer3::MPEG1Layer3DecodeError;
use fuel::reader::ByteReader;
use fuel::{decode_stream, FuelError};

/// A tag with one title frame, followed by the ten bytes that are skipped after it.
fn tag() -> Vec<u8> {
    let payload = [3u8, b'T', b'u', b'n', b'e'];
    let size = 10 + payload.len();
    let mut v = vec![b'I', b'D', b'3', 4, 0, 0, 0, 0, 0, size as u8];
    v.extend_from_slice(b"TIT2");
    v.extend_from_slice(&(payload.len() as u32).to_be_bytes());
    v.extend_from_slice(&[0, 0]);
    v.extend_from_slice(&payload);
    v
}

fn tables() -> HuffmanTables {
    HuffmanTables {
        big: (0..32).map(|_| BigHuffmanTable::new(vec![], 0, 0)).collect(),
        count1: (0..2).map(|_| Count1HuffmanTable::new(vec![], 0, 0)).collect(),
    }
}

fn decode(data: Vec<u8>) -> Result<fuel::Audio, FuelError> {
    decode_stream(ByteReader::new(data), &tables())
}

#[test]
fn a_tag_and_no_frames() {
    let audio = decode(tag()).unwrap();
    assert_eq!(audio.tags.len(), 1);
    assert!(matches!(audio.tags[0].frame, ID3v2Frame::Title(ref s) if s == "Tune"));
    assert!(audio.frames.is_empty());
}

#[test]
fn a_stream_needs_a_tag() {
    let r = decode(vec![0xFF, 0xFB, 0x90, 0xC0]);
    assert!(matches!(r, Err(FuelError::ID3v2(ID3v2Error::ParseHeader(_)))));
}

#[test]
fn a_bad_sync_word_is_reported() {
    let mut data = tag();
    data.extend_from_slice(&[0x12, 0x34, 0x56, 0x78]);
    let r = decode(data);
    assert!(matches!(
        r,
        Err(FuelError::ParseHeader(MpegParseHeaderError::InvalidSyncWord(0x091)))
    ));
}

#[test]
fn mpeg25_is_not_decoded() {
    let mut data = tag();
    data.extend_from_slice(&[0xFF, 0xE3, 0x80, 0x00]);
    let r = decode(data);
    assert!(matches!(r, Err(FuelError::UnsupportedVersion(MPEGVersion::MPEG25))));
}

#[test]
fn mpeg2_is_not_decoded() {
    let mut data = tag();
    data.extend_from_slice(&[0xFF, 0xF3, 0x80, 0x00]);
    let r = decode(data);
    assert!(matches!(r, Err(FuelError::UnsupportedVersion(MPEGVersion::MPEG2))));
}

#[test]
fn layer2_headers_are_refused() {
    let mut data = tag();
    data.extend_from_slice(&[0xFF, 0xFD, 0x90, 0xC0]);
    let r = decode(data);
    assert!(matches!(r, Err(FuelError::ParseHeader(MpegParseHeaderError::UnsupportedLayer(2)))));
}

#[test]
fn the_free_bitrate_is_not_supported() {
    let mut data = tag();
    data.extend_from_slice(&[0xFF, 0xFB, 0x00, 0xC0]);
    data.extend_from_slice(&[0u8; 17]);
    let r = decode(data);
    assert!(matches!(
        r,
        Err(FuelError::FrameDecodeError(MPEG1Layer3DecodeError::UnsupportedFreeBitrate))
    ));
}

#[test]
fn side_info_cut_short() {
    let mut data = tag();
    data.extend_from_slice(&[0xFF, 0xFB, 0x90, 0xC0, 0, 0]);
    let r = decode(data);
    assert!(matches!(
        r,
        Err(FuelError::FrameDecodeError(MPEG1Layer3DecodeError::SideInfo(_)))
    ));
}

#[test]
fn main_data_follows_the_side_information() {
    // A 128 kbit/s, 44.1 kHz mono frame has 417 - 4 - 17 = 396 bytes of main
    // data, read from the bytes after the side information.
    let mut data = tag();
    data.extend_from_slice(&[0xFF, 0xFB, 0x90, 0xC0]);
    data.extend_from_slice(&[0u8; 17]);
    data.extend_from_slice(&[0u8; 395]);
    let r = decode(data);
    assert!(matches!(
        r,
        Err(FuelError::FrameDecodeError(MPEG1Layer3DecodeError::Reservoir(ReservoirError::Io(
            BiterError::EOF
        ))))
    ));
}

#[test]
fn an_empty_frame_decodes() {
    // With the whole main data there, it is decoded: no scalefactor bits and
    // no Huffman bits, every line zero.
    let mut data = tag();
    data.extend_from_slice(&[0xFF, 0xFB, 0x90, 0xC0]);
    data.extend_from_slice(&[0u8; 17]);
    data.extend_from_slice(&[0u8; 396]);
    let audio = decode(data).unwrap();
    assert_eq!(audio.tags.len(), 1);
    assert_eq!(audio.frames.len(), 1);
    assert_eq!(audio.frames[0].sample_rate, 44100);
    assert_eq!(audio.frames[0].used, 0);
}

#[test]
fn frames_follow_one_another() {
    // Three empty frames in a row are all decoded.
    let mut data = tag();
    for _ in 0..3 {
        data.extend_from_slice(&[0xFF, 0xFB, 0x90, 0xC0]);
        data.extend_from_slice(&[0u8; 17]);
        data.extend_from_slice(&[0u8; 396]);
    }
    let audio = decode(data).unwrap();
    assert_eq!(audio.frames.len(), 3);
}

#[test]
fn main_data_needing_huffman_tables_fails_without_them() {
    // Granule 0 claims one bit for its count1 region, which the empty count1
    // tree cannot decode.
    let mut data = tag();
    data.extend_from_slice(&[0xFF, 0xFB, 0x90, 0xC0]);
    let mut si = [0u8; 17];
    // part2_3_length of granule 0 starts at bit 18: value 1 ends at bit 29.
    si[3] = 0x04;
    data.extend_from_slice(&si);
    data.extend_from_slice(&[0u8; 396]);
    let r = decode(data);
    assert!(matches!(
        r,
        Err(FuelError::FrameDecodeError(MPEG1Layer3DecodeError::MainData(
            DecodeMainDataError::InvalidCount1HuffmanCode
        )))
    ));
}
