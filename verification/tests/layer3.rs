use fuel::bite::{Biter, BiterError, DEFAULT_BUF_SIZE};
use fuel::mpeg::header::parse_header;
use fuel::mpeg1::layer3::huffman::{
    BigHuffmanDecoder, BigHuffmanDecoderResult, BigHuffmanTable, BigHuffmanTableNode,
    BigHuffmanTableNodeValue, Count1HuffmanDecoderResult, Count1HuffmanTable,
    Count1HuffmanTableNode, Count1HuffmanTableNodeValue,
};
use fuel::mpeg1::layer3::huffman::HuffmanTables;
use fuel::mpeg1::layer3::main_data::{
    decode_main_data, DecodeMainDataError, GranuleScaleFactors, GranuleSpectralValues,
};
use fuel::mpeg1::layer3::reservoir::{Reservoir, ReservoirError, RESERVOIR_BACKPTR_MAX, RESERVOIR_CAP};
use fuel::mpeg1::layer3::side_info::{parse_side_info, BlockType, Granule, SCFSI};
use fuel::reader::ByteReader;
use fuel::mpeg::header::{MPEGBitrate, MPEGEmphasis, MPEGHeader, MPEGLayer, MPEGMode, MPEGVersion};
use fuel::mpeg1::{mpeg1_decoder_new, MPEG1DecoderNewError};
use fuel::sample_type::SampleType;

fn reader_of(bytes: &[u8]) -> Biter<DEFAULT_BUF_SIZE> {
    Biter::<DEFAULT_BUF_SIZE>::new(ByteReader::new(bytes.to_vec()))
}

/// A tree: `0` codes (1, 2); `10` codes (15, 0); `11` leads nowhere.
fn small_tree() -> BigHuffmanTable {
    let nodes = vec![
        BigHuffmanTableNode::new(None, Some(1), Some(2)),
        BigHuffmanTableNode::new(Some(BigHuffmanTableNodeValue { x: 1, y: 2 }), None, None),
        BigHuffmanTableNode::new(None, Some(3), None),
        BigHuffmanTableNode::new(Some(BigHuffmanTableNodeValue { x: 15, y: 0 }), None, None),
    ];
    BigHuffmanTable::new(nodes, 3, 0)
}

#[test]
fn huffman_walks_to_a_leaf_and_back_to_the_root() {
    let table = small_tree();
    assert_eq!(table.linbits(), 3);
    let mut decoder = BigHuffmanDecoder::new(&table);
    assert_eq!(
        decoder.feed(false),
        BigHuffmanDecoderResult::Valid(BigHuffmanTableNodeValue { x: 1, y: 2 })
    );
    assert_eq!(decoder.feed(true), BigHuffmanDecoderResult::NeedMoreBits);
    assert_eq!(
        decoder.feed(false),
        BigHuffmanDecoderResult::Valid(BigHuffmanTableNodeValue { x: 15, y: 0 })
    );
    // Back at the root after the leaf.
    assert_eq!(decoder.feed(true), BigHuffmanDecoderResult::NeedMoreBits);
    assert_eq!(decoder.feed(true), BigHuffmanDecoderResult::InvalidCode);
    // Back at the root after the dead end.
    assert_eq!(
        decoder.feed(false),
        BigHuffmanDecoderResult::Valid(BigHuffmanTableNodeValue { x: 1, y: 2 })
    );
}

#[test]
fn huffman_branches_out_of_the_tree_are_invalid() {
    let nodes = vec![BigHuffmanTableNode::new(None, Some(7), None)];
    let table = BigHuffmanTable::new(nodes, 0, 0);
    let mut decoder = BigHuffmanDecoder::new(&table);
    assert_eq!(decoder.feed(false), BigHuffmanDecoderResult::InvalidCode);
    let empty = BigHuffmanTable::new(vec![], 0, 0);
    let mut decoder = BigHuffmanDecoder::new(&empty);
    assert_eq!(decoder.feed(true), BigHuffmanDecoderResult::InvalidCode);
}

#[test]
fn count1_trees_are_walked_the_same_way() {
    let v = Count1HuffmanTableNodeValue::new(1, 0, 1, 0);
    let nodes = vec![
        Count1HuffmanTableNode::new(None, None, Some(1)),
        Count1HuffmanTableNode::new(Some(v), None, None),
    ];
    let table = Count1HuffmanTable::new(nodes, 0, 0);
    let mut decoder = fuel::mpeg1::layer3::huffman::Count1HuffmanDecoder::new(&table);
    assert_eq!(decoder.feed(true), Count1HuffmanDecoderResult::Valid(v));
    assert_eq!(decoder.feed(false), Count1HuffmanDecoderResult::InvalidCode);
}

#[test]
fn scfsi_groups_cover_the_long_bands() {
    let s = SCFSI::new(0b0101);
    assert!(s.is_shared_long_band(0));
    assert!(s.is_shared_long_band(5));
    assert!(!s.is_shared_long_band(6));
    assert!(s.is_shared_long_band(11));
    assert!(!s.is_shared_long_band(16));
    assert!(!s.is_shared_long_band(21));
    let t = SCFSI::new_from_bits(false, true, false, true);
    assert!(t.is_shared_long_band(10));
    assert!(t.is_shared_long_band(20));
    assert!(!t.is_shared_long_band(0));
}

#[test]
fn defaults_are_zero() {
    let g = Granule::default();
    assert_eq!(g.part2_3_length, 0);
    assert_eq!(g.block_type, BlockType::Long);
    assert_eq!(BlockType::default(), BlockType::Long);
    let sf = GranuleScaleFactors::default();
    assert_eq!(sf.long(20), 0);
    assert_eq!(sf.short(2, 11), 0);
    let sv = GranuleSpectralValues::default();
    assert_eq!(sv.line(575), 0);
}

#[test]
fn layer3_side_info_of_a_stereo_frame() {
    // MPEG-1 Layer III, 128 kbit/s, 44.1 kHz, stereo.
    let mut data = vec![0xFF, 0xFB, 0x90, 0x00];
    let mut si = vec![0u8; 32];
    // main_data_begin = 0x1FF (nine set bits), private bits 0, scfsi 0 and 0.
    si[0] = 0xFF;
    si[1] = 0x80;
    // Granule 0, channel 0 starts at bit 20: part2_3_length = 0xFFF.
    si[2] = 0x0F;
    si[3] = 0xFF;
    data.extend_from_slice(&si);
    let mut biter = reader_of(&data);
    let h = parse_header(&mut biter).unwrap();
    let info = parse_side_info(&h, &mut biter).unwrap();
    assert_eq!(info.main_data_begin, 0x1FF);
    assert_eq!(info.nch, 2);
    assert_eq!(info.ngr, 2);
    assert_eq!(info.granules[0][0].part2_3_length, 0xFFF);
    assert_eq!(info.granules[0][1].part2_3_length, 0);
    // The window switching flag of this granule is clear.
    assert!(!info.granules[0][0].window_switching_flag);
    assert!(biter.is_aligned::<8>());
}

#[test]
fn a_forbidden_block_type_is_refused() {
    // Mono: 18 bits of head; the granule's window switching flag is bit 33
    // of the block and the block type (0) follows.
    let mut data = vec![0xFF, 0xFB, 0x90, 0xC0];
    let mut si = vec![0u8; 17];
    let bit = 18 + 33;
    si[bit / 8] |= 0x80 >> (bit % 8);
    data.extend_from_slice(&si);
    let mut biter = reader_of(&data);
    let h = parse_header(&mut biter).unwrap();
    assert!(matches!(
        parse_side_info(&h, &mut biter),
        Err(fuel::mpeg1::layer3::side_info::MpegParseSideInfoError::InvalidBlockType(0))
    ));
}

#[test]
fn the_reservoir_checks_back_pointers() {
    let mut reservoir = Reservoir::new();
    assert_eq!(reservoir.available(), 0);
    let mut biter = reader_of(&[1, 2, 3, 4]);
    assert_eq!(
        reservoir.bite_and_view(RESERVOIR_BACKPTR_MAX + 1, 1, &mut biter),
        Err(ReservoirError::TooLarge { needed: RESERVOIR_BACKPTR_MAX + 1, capacity: RESERVOIR_BACKPTR_MAX })
    );
    assert_eq!(
        reservoir.bite_and_view(1, 1, &mut biter),
        Err(ReservoirError::Underflow { main_data_begin: 1, available: 0 })
    );
    assert_eq!(
        reservoir.bite_and_view(0, RESERVOIR_CAP + 1, &mut biter),
        Err(ReservoirError::TooLarge { needed: RESERVOIR_CAP + 1, capacity: RESERVOIR_CAP })
    );
    assert_eq!(reservoir.bite_and_view(0, 9, &mut biter), Err(ReservoirError::Io(BiterError::EOF)));
}

#[test]
fn the_reservoir_hands_back_earlier_main_data() {
    let mut reservoir = Reservoir::new();
    let mut biter = reader_of(&[1, 2, 3, 4, 5]);
    assert_eq!(reservoir.bite_and_view(0, 3, &mut biter).unwrap(), vec![1, 2, 3]);
    assert_eq!(reservoir.available(), 3);
    assert_eq!(reservoir.bite_and_view(2, 2, &mut biter).unwrap(), vec![2, 3, 4, 5]);
    assert_eq!(reservoir.available(), 5);
}

#[test]
fn the_reservoir_needs_a_byte_boundary() {
    let mut reservoir = Reservoir::new();
    let mut biter = reader_of(&[0xFF, 1, 2]);
    biter.read_bits_u32(3).unwrap();
    assert_eq!(reservoir.bite_and_view(0, 1, &mut biter), Err(ReservoirError::NotByteAligned));
}

fn header_with_layer(layer: MPEGLayer) -> MPEGHeader {
    MPEGHeader {
        version: MPEGVersion::MPEG1,
        layer,
        bitrate: MPEGBitrate::Fixed(128),
        sampling_frequency: 44100,
        padding_bit: false,
        private_bit: false,
        mode: MPEGMode::Stereo,
        is_copyright: false,
        is_original: false,
        emphasis: MPEGEmphasis::NoEmphasis,
        crc_word: None,
    }
}

#[test]
fn decoders_are_made_for_layer3_only() {
    assert!(mpeg1_decoder_new(&header_with_layer(MPEGLayer::LayerIII)).is_ok());
    assert!(matches!(
        mpeg1_decoder_new(&header_with_layer(MPEGLayer::LayerII)),
        Err(MPEG1DecoderNewError::UnsupportedLayer(MPEGLayer::LayerII))
    ));
    assert!(matches!(
        mpeg1_decoder_new(&header_with_layer(MPEGLayer::LayerI)),
        Err(MPEG1DecoderNewError::UnsupportedLayer(MPEGLayer::LayerI))
    ));
    assert!(fuel::mpeg1::layer3::mpeg1_layer3_decoder_new(&header_with_layer(MPEGLayer::LayerIII)).is_ok());
}

#[test]
fn sample_types_name_themselves() {
    assert_eq!(SampleType::F32.name(), "f32");
    assert_eq!(SampleType::I16.name(), "i16");
    assert_eq!(SampleType::F32.bits_per_sample(), 32);
    assert_eq!(SampleType::I16.bits_per_sample(), 16);
}

/// Packs `(value, width)` fields, most significant bit first, into bytes.
fn pack(fields: &[(u32, usize)], total_bits: usize) -> Vec<u8> {
    let mut bits: Vec<bool> = Vec::new();
    for &(v, w) in fields {
        for i in (0..w).rev() {
            bits.push((v >> i) & 1 == 1);
        }
    }
    bits.resize(total_bits, false);
    bits.chunks(8)
        .map(|c| c.iter().fold(0u8, |acc, &b| (acc << 1) | b as u8))
        .collect()
}

/// A mono frame header followed by side information whose first granule
/// holds `granule` (after its part2_3_length, big_values and global_gain).
fn mono_side_info(granule: &[(u32, usize)]) -> Vec<u8> {
    let mut fields = vec![(0, 9), (0, 5), (0, 4), (0, 12), (0, 9), (0, 8)];
    fields.extend_from_slice(granule);
    let mut data = vec![0xFF, 0xFB, 0x90, 0xC0];
    data.extend(pack(&fields, 136));
    data
}

#[test]
fn granules_keep_the_scalefactor_field_read() {
    // scalefac_compress 4, long blocks.
    let data = mono_side_info(&[(4, 4), (0, 1)]);
    let mut biter = reader_of(&data);
    let h = parse_header(&mut biter).unwrap();
    let info = parse_side_info(&h, &mut biter).unwrap();
    let g = info.granules[0][0];
    assert_eq!(g.scalefac_compress, 4);
    assert_eq!((g.slen1, g.slen2), (3, 0));
    assert_eq!(g.block_type, BlockType::Long);
    assert!(!g.window_switching_flag);
    assert_eq!(g.table_select, [0, 0, 0]);
    assert_eq!(g.subblock_gain, [0, 0, 0]);
}

#[test]
fn granules_keep_the_window_switching_flag() {
    // Window switching with short blocks, not mixed.
    let data = mono_side_info(&[(0, 4), (1, 1), (0b10, 2), (0, 1)]);
    let mut biter = reader_of(&data);
    let h = parse_header(&mut biter).unwrap();
    let info = parse_side_info(&h, &mut biter).unwrap();
    let g = info.granules[0][0];
    assert!(g.window_switching_flag);
    assert_eq!(g.block_type, BlockType::Short);
    assert!(!g.mixed_block_flag);
    assert_eq!(g.region0_count, 8);
    assert_eq!(g.region1_count, 12);
    assert_eq!(g.table_select[2], 0);
    assert_eq!(g.subblock_gain, [0, 0, 0]);
}

/// The bytes of a string of `0` and `1`, padded with zero bits.
fn bytes_of_bits(bits: &str) -> Vec<u8> {
    let bits: Vec<u8> = bits.bytes().filter(|b| *b == b'0' || *b == b'1').collect();
    let mut out = vec![0u8; (bits.len() + 7) / 8];
    for (i, b) in bits.iter().enumerate() {
        if *b == b'1' {
            out[i / 8] |= 0x80 >> (i % 8);
        }
    }
    out
}

/// A count1 tree: `1` codes (1, 0, 1, 0); `0` leads nowhere.
fn small_count1_tree() -> Count1HuffmanTable {
    let nodes = vec![
        Count1HuffmanTableNode::new(None, None, Some(1)),
        Count1HuffmanTableNode::new(Some(Count1HuffmanTableNodeValue::new(1, 0, 1, 0)), None, None),
    ];
    Count1HuffmanTable::new(nodes, 0, 0)
}

/// Big-values table 1 is the small tree, the others are empty; count1 table
/// A is the small count1 tree.
fn test_tables() -> HuffmanTables {
    let mut big: Vec<BigHuffmanTable> = (0..32).map(|_| BigHuffmanTable::new(vec![], 0, 0)).collect();
    big[1] = small_tree();
    HuffmanTables {
        big,
        count1: vec![small_count1_tree(), Count1HuffmanTable::new(vec![], 0, 0)],
    }
}

/// Parses a mono 44.1 kHz header and the side information `si` (136 bits).
fn mono_frame(si: &str) -> (MPEGHeader, fuel::mpeg1::layer3::side_info::MPEGSideInfo) {
    let mut data = vec![0xFF, 0xFB, 0x90, 0xC0];
    data.extend_from_slice(&bytes_of_bits(si));
    let mut biter = reader_of(&data);
    let h = parse_header(&mut biter).unwrap();
    let info = parse_side_info(&h, &mut biter).unwrap();
    (h, info)
}

const EMPTY_GRANULE: &str = "00000000000000000000000000000000000000000000000000000000000";

#[test]
fn a_granule_decodes_its_pair_and_its_quadruple() {
    // Granule 0: part2_3_length 9, big_values 1, no scalefactor bits, long
    // blocks, table_select 1 for region 0, count1 table A.
    let gr0 = "000000001001 000000001 00000000 0000 0 00001 00000 00000 0000 000 0 0 0";
    let si = format!("000000000 00000 0000 {} {}", gr0, EMPTY_GRANULE);
    let (h, info) = mono_frame(&si);
    assert_eq!(info.granules[0][0].part2_3_length, 9);
    assert_eq!(info.granules[0][0].big_values, 1);
    // The pair: code 10 is (15, 0), linbits 101 add 5 to 15, sign 1 makes it
    // negative; y is 0 and has no sign. The quadruple: code 1 is
    // (1, 0, 1, 0), sign 0 keeps the first 1, sign 1 negates the second.
    let mut md = reader_of(&bytes_of_bits("101011 1 0 1"));
    let r = decode_main_data(&h, &info, &mut md, 16, &test_tables()).unwrap();
    let v = &r.spectral_values[0][0];
    assert_eq!(v.line(0), -20);
    assert_eq!(v.line(1), 0);
    assert_eq!(v.line(2), 1);
    assert_eq!(v.line(3), 0);
    assert_eq!(v.line(4), -1);
    assert_eq!(v.line(5), 0);
    for l in 6..576 {
        assert_eq!(v.line(l), 0);
    }
    for l in 0..576 {
        assert_eq!(r.spectral_values[1][0].line(l), 0);
    }
}

#[test]
fn a_positive_pair() {
    // part2_3_length 3: the pair code 0 is (1, 2), both with sign bit 0.
    let gr0 = "000000000011 000000001 00000000 0000 0 00001 00000 00000 0000 000 0 0 0";
    let si = format!("000000000 00000 0000 {} {}", gr0, EMPTY_GRANULE);
    let (h, info) = mono_frame(&si);
    let mut md = reader_of(&bytes_of_bits("0 0 0"));
    let r = decode_main_data(&h, &info, &mut md, 8, &test_tables()).unwrap();
    let v = &r.spectral_values[0][0];
    assert_eq!(v.line(0), 1);
    assert_eq!(v.line(1), 2);
    assert_eq!(v.line(2), 0);
}

#[test]
fn count1_codes_stop_at_the_granule_end() {
    // part2_3_length 2: the count1 code 1 needs two sign bits after it, one
    // more than the granule has.
    let gr0 = "000000000010 000000000 00000000 0000 0 00000 00000 00000 0000 000 0 0 0";
    let si = format!("000000000 00000 0000 {} {}", gr0, EMPTY_GRANULE);
    let (h, info) = mono_frame(&si);
    let mut md = reader_of(&bytes_of_bits("1 1 1"));
    let r = decode_main_data(&h, &info, &mut md, 8, &test_tables());
    assert!(matches!(r, Err(DecodeMainDataError::Part23Overread)));
}

#[test]
fn count1_table_b_is_picked_by_its_flag() {
    // The same bits as above, with count1table_select set: table B is empty.
    let gr0 = "000000000011 000000000 00000000 0000 0 00000 00000 00000 0000 000 0 0 1";
    let si = format!("000000000 00000 0000 {} {}", gr0, EMPTY_GRANULE);
    let (h, info) = mono_frame(&si);
    let mut md = reader_of(&bytes_of_bits("1 0 1"));
    let r = decode_main_data(&h, &info, &mut md, 8, &test_tables());
    assert!(matches!(r, Err(DecodeMainDataError::InvalidCount1HuffmanCode)));
    // With table A the three bits are one quadruple: 1, 0, -1, 0.
    let gr0 = "000000000011 000000000 00000000 0000 0 00000 00000 00000 0000 000 0 0 0";
    let si = format!("000000000 00000 0000 {} {}", gr0, EMPTY_GRANULE);
    let (h, info) = mono_frame(&si);
    let mut md = reader_of(&bytes_of_bits("1 0 1"));
    let r = decode_main_data(&h, &info, &mut md, 8, &test_tables()).unwrap();
    let v = &r.spectral_values[0][0];
    assert_eq!((v.line(0), v.line(1), v.line(2), v.line(3)), (1, 0, -1, 0));
}

#[test]
fn short_block_scalefactors_split_six_and_six() {
    // Short blocks, scalefac_compress 6 (slen1 1, slen2 2): bands 0 to 5
    // take one bit each, bands 6 to 11 two, in three windows: 18 + 36 bits,
    // which is the whole part2_3_length.
    let gr0 = "000000110110 000000000 00000000 0110 1 10 0 00000 00000 000 000 000 0 0 0";
    let si = format!("000000000 00000 0000 {} {}", gr0, EMPTY_GRANULE);
    let (h, info) = mono_frame(&si);
    assert_eq!(info.granules[0][0].block_type, BlockType::Short);
    assert_eq!(info.granules[0][0].part2_3_length, 54);
    let ones = "1".repeat(54);
    let mut md = reader_of(&bytes_of_bits(&ones));
    let r = decode_main_data(&h, &info, &mut md, 56, &test_tables()).unwrap();
    let sf = &r.scale_factors[0][0];
    for w in 0..3 {
        for b in 0..6 {
            assert_eq!(sf.short(w, b), 1);
        }
        for b in 6..12 {
            assert_eq!(sf.short(w, b), 3);
        }
    }
}

#[test]
fn a_count1_code_word_of_two_bits() {
    // `01` codes (0, 1, 1, 0): one NeedMoreBits, then the value, then the
    // walk starts again at the root.
    let v = Count1HuffmanTableNodeValue::new(0, 1, 1, 0);
    let nodes = vec![
        Count1HuffmanTableNode::new(None, Some(1), None),
        Count1HuffmanTableNode::new(None, None, Some(2)),
        Count1HuffmanTableNode::new(Some(v), None, None),
    ];
    let table = Count1HuffmanTable::new(nodes, 0, 0);
    let mut decoder = fuel::mpeg1::layer3::huffman::Count1HuffmanDecoder::new(&table);
    assert_eq!(decoder.feed(false), Count1HuffmanDecoderResult::NeedMoreBits);
    assert_eq!(decoder.feed(true), Count1HuffmanDecoderResult::Valid(v));
    assert_eq!(decoder.feed(false), Count1HuffmanDecoderResult::NeedMoreBits);
    assert_eq!(decoder.feed(false), Count1HuffmanDecoderResult::InvalidCode);
    assert_eq!(decoder.feed(true), Count1HuffmanDecoderResult::InvalidCode);
}
