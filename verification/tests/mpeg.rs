use fuel::bite::{Biter, BiterError, DEFAULT_BUF_SIZE};
use fuel::mpeg::header::{
    parse_header, MPEGBitrate, MPEGEmphasis, MPEGLayer, MPEGMode, MPEGVersion, MpegParseHeaderError,
};
use fuel::mpeg::side_info::{
    parse_side_info, MpegParseSideInfoError, PerGranuleData, SubblockGain, TableSelect, SCFSI,
};
use fuel::reader::ByteReader;

fn reader_of(bytes: &[u8]) -> Biter<DEFAULT_BUF_SIZE> {
    Biter::<DEFAULT_BUF_SIZE>::new(ByteReader::new(bytes.to_vec()))
}

#[test]
fn an_mpeg1_layer3_header() {
    // Sync, MPEG-1, Layer III, no CRC, 128 kbit/s, 44.1 kHz, mono.
    let mut biter = reader_of(&[0xFF, 0xFB, 0x90, 0xC0]);
    let h = parse_header(&mut biter).unwrap();
    assert_eq!(h.version, MPEGVersion::MPEG1);
    assert_eq!(h.layer, MPEGLayer::LayerIII);
    assert_eq!(h.bitrate, MPEGBitrate::Fixed(128));
    assert_eq!(h.sampling_frequency, 44100);
    assert!(!h.padding_bit);
    assert!(!h.private_bit);
    assert_eq!(h.mode, MPEGMode::SingleChannel);
    assert!(!h.is_copyright);
    assert!(!h.is_original);
    assert_eq!(h.emphasis, MPEGEmphasis::NoEmphasis);
    assert_eq!(h.crc_word, None);
}

#[test]
fn a_header_with_crc_and_joint_stereo() {
    // MPEG-1, Layer III, CRC present, 320 kbit/s, 48 kHz, padding, joint stereo ext 3.
    let mut biter = reader_of(&[0xFF, 0xFA, 0xE6, 0x70, 0x12, 0x34]);
    let h = parse_header(&mut biter).unwrap();
    assert_eq!(h.bitrate, MPEGBitrate::Fixed(320));
    assert_eq!(h.sampling_frequency, 48000);
    assert!(h.padding_bit);
    assert_eq!(h.mode, MPEGMode::JointStereo { intensity_stereo: true, ms_stereo: true });
    assert_eq!(h.crc_word, Some(0x1234));
}

#[test]
fn the_mode_extension_bits_are_intensity_then_ms() {
    // Joint stereo; mode extension 01, 10 and 11.
    let mut biter = reader_of(&[0xFF, 0xFB, 0x90, 0x50]);
    let h = parse_header(&mut biter).unwrap();
    assert_eq!(h.mode, MPEGMode::JointStereo { intensity_stereo: true, ms_stereo: false });
    let mut biter = reader_of(&[0xFF, 0xFB, 0x90, 0x60]);
    let h = parse_header(&mut biter).unwrap();
    assert_eq!(h.mode, MPEGMode::JointStereo { intensity_stereo: false, ms_stereo: true });
    let mut biter = reader_of(&[0xFF, 0xFB, 0x90, 0x70]);
    let h = parse_header(&mut biter).unwrap();
    assert_eq!(h.mode, MPEGMode::JointStereo { intensity_stereo: true, ms_stereo: true });
    let mut biter = reader_of(&[0xFF, 0xFB, 0x90, 0x40]);
    let h = parse_header(&mut biter).unwrap();
    assert_eq!(h.mode, MPEGMode::JointStereo { intensity_stereo: false, ms_stereo: false });
}

#[test]
fn an_mpeg25_header_has_a_quarter_of_the_rate() {
    // MPEG-2.5 (IDex 0, ID 0), Layer III, 64 kbit/s, 11.025 kHz, stereo.
    let mut biter = reader_of(&[0xFF, 0xE3, 0x80, 0x00]);
    let h = parse_header(&mut biter).unwrap();
    assert_eq!(h.version, MPEGVersion::MPEG25);
    assert_eq!(h.bitrate, MPEGBitrate::Fixed(64));
    assert_eq!(h.sampling_frequency, 11025);
    assert_eq!(h.mode, MPEGMode::Stereo);
}

#[test]
fn an_mpeg2_header_uses_the_lower_rates() {
    // MPEG-2 (IDex 1, ID 0), Layer III, 22.05 kHz.
    let mut biter = reader_of(&[0xFF, 0xF3, 0x90, 0x00]);
    let h = parse_header(&mut biter).unwrap();
    assert_eq!(h.version, MPEGVersion::MPEG2);
    assert_eq!(h.bitrate, MPEGBitrate::Fixed(80));
    assert_eq!(h.sampling_frequency, 22050);
    let mut biter = reader_of(&[0xFF, 0xF3, 0x80, 0x00]);
    assert_eq!(parse_header(&mut biter).unwrap().bitrate, MPEGBitrate::Fixed(64));
    let mut biter = reader_of(&[0xFF, 0xF3, 0xE0, 0x00]);
    assert_eq!(parse_header(&mut biter).unwrap().bitrate, MPEGBitrate::Fixed(160));
    let mut biter = reader_of(&[0xFF, 0xF3, 0x10, 0x00]);
    assert_eq!(parse_header(&mut biter).unwrap().bitrate, MPEGBitrate::Fixed(8));
    let mut biter = reader_of(&[0xFF, 0xF3, 0x00, 0x00]);
    assert_eq!(parse_header(&mut biter).unwrap().bitrate, MPEGBitrate::Free);
    let mut biter = reader_of(&[0xFF, 0xF3, 0xF0, 0x00]);
    assert_eq!(parse_header(&mut biter).unwrap_err(), MpegParseHeaderError::BitrateError(0, 1, 15));
}

#[test]
fn only_layer3_headers_are_read() {
    // Layer II.
    let mut biter = reader_of(&[0xFF, 0xFD, 0x90, 0xC0]);
    assert_eq!(parse_header(&mut biter).unwrap_err(), MpegParseHeaderError::UnsupportedLayer(2));
}

#[test]
fn a_free_bitrate_header() {
    let mut biter = reader_of(&[0xFF, 0xFB, 0x00, 0xC0]);
    let h = parse_header(&mut biter).unwrap();
    assert_eq!(h.bitrate, MPEGBitrate::Free);
}

#[test]
fn header_errors() {
    let mut biter = reader_of(&[0xFF, 0x1B, 0x90, 0xC0]);
    assert_eq!(parse_header(&mut biter).unwrap_err(), MpegParseHeaderError::InvalidSyncWord(0x7F8));
    // The reserved version (IDex 0, ID 1).
    let mut biter = reader_of(&[0xFF, 0xEB, 0x90, 0xC0]);
    assert_eq!(
        parse_header(&mut biter).unwrap_err(),
        MpegParseHeaderError::UnsupportedMPEGVersion(1, 0)
    );
    // The reserved layer.
    let mut biter = reader_of(&[0xFF, 0xF9, 0x90, 0xC0]);
    assert_eq!(parse_header(&mut biter).unwrap_err(), MpegParseHeaderError::UnsupportedLayer(0));
    // The bad bitrate index 15.
    let mut biter = reader_of(&[0xFF, 0xFB, 0xF0, 0xC0]);
    assert_eq!(
        parse_header(&mut biter).unwrap_err(),
        MpegParseHeaderError::BitrateError(1, 1, 15)
    );
    // The reserved sampling frequency index 3.
    let mut biter = reader_of(&[0xFF, 0xFB, 0x9C, 0xC0]);
    assert_eq!(
        parse_header(&mut biter).unwrap_err(),
        MpegParseHeaderError::UnsupportedSamplingFrequency(1, 1, 3)
    );
    // The reserved emphasis 2 is CCITT J.17, 3 is not defined.
    let mut biter = reader_of(&[0xFF, 0xFB, 0x90, 0xC3]);
    assert_eq!(
        parse_header(&mut biter).unwrap_err(),
        MpegParseHeaderError::UnsupportedEmphasisType(3)
    );
    let mut biter = reader_of(&[0xFF, 0xFB]);
    assert_eq!(
        parse_header(&mut biter).unwrap_err(),
        MpegParseHeaderError::BiterError(BiterError::EOF)
    );
}

#[test]
fn side_info_tables_keep_what_is_set() {
    let mut scfsi = SCFSI::new();
    scfsi.set(1, 3, 1);
    assert_eq!(scfsi.get(1, 3), 1);
    assert_eq!(scfsi.get(0, 3), 0);

    let mut gains: PerGranuleData<u32> = PerGranuleData::new();
    gains.set(1, 0, 210);
    assert_eq!(gains.get(1, 0), 210);
    assert_eq!(gains.get(0, 1), 0);

    let mut tables = TableSelect::new();
    tables.set(0, 1, 2, 17);
    assert_eq!(tables.get(0, 1, 2), 17);
    assert_eq!(tables.get(0, 1, 1), 0);

    let mut sbg = SubblockGain::new();
    sbg.set(1, 1, 0, 5);
    assert_eq!(sbg.get(1, 1, 0), 5);
    assert_eq!(sbg.get(1, 1, 1), 0);
}

#[test]
fn mono_side_info_is_read() {
    let mut data = vec![0xFF, 0xFB, 0x90, 0xC0];
    // main_data_begin 3 (9 bits), private bits 0 (5 bits), scfsi 1111, then zeros.
    let mut si = vec![0u8; 17];
    si[0] = 0b0000_0001;
    si[1] = 0b1000_0011;
    si[2] = 0b1100_0000;
    data.extend_from_slice(&si);
    let mut biter = reader_of(&data);
    let h = parse_header(&mut biter).unwrap();
    let (info, main_data_begin) = parse_side_info(&h, &mut biter).unwrap();
    assert_eq!(main_data_begin, 3);
    assert_eq!(info.nch, 1);
    assert_eq!(info.ngr, 2);
    assert_eq!(info.scfsi.get(0, 0), 1);
    assert_eq!(info.scfsi.get(0, 3), 1);
    assert_eq!(info.part2_3_length.get(0, 0), 0);
}

#[test]
fn short_side_info_is_a_read_error() {
    let mut data = vec![0xFF, 0xFB, 0x90, 0xC0];
    data.extend_from_slice(&[0u8; 5]);
    let mut biter = reader_of(&data);
    let h = parse_header(&mut biter).unwrap();
    assert!(matches!(
        parse_side_info(&h, &mut biter),
        Err(MpegParseSideInfoError::IOError(BiterError::EOF))
    ));
}
