use fuel::bite::{Biter, BiterError, DEFAULT_BUF_SIZE};
use fuel::reader::ByteReader;

fn reader_of(bytes: &[u8]) -> Biter<DEFAULT_BUF_SIZE> {
    Biter::<DEFAULT_BUF_SIZE>::new(ByteReader::new(bytes.to_vec()))
}

#[test]
fn test_bits() {
    let data = [0b1010_1010u8, 0b1100_1100];
    let mut biter = reader_of(&data);

    assert_eq!(biter.read_bits_u32(4).unwrap(), 0b1010);
    assert_eq!(biter.read_bits_u32(4).unwrap(), 0b1010);
    assert_eq!(biter.read_bits_u32(8).unwrap(), 0b1100_1100);
}

#[test]
fn reads_across_bytes_and_words() {
    let mut biter = reader_of(&[0x12, 0x34, 0x56, 0x78, 0x9A]);
    assert_eq!(biter.read_bits_u32(12).unwrap(), 0x123);
    assert_eq!(biter.read_bits_u32(24).unwrap(), 0x456789);
    assert_eq!(biter.read_bits_u32(4).unwrap(), 0xA);
}

#[test]
fn reads_of_whole_bytes_are_big_endian() {
    let mut biter = reader_of(&[0xDE, 0xAD, 0xBE, 0xEF]);
    assert_eq!(biter.read_bits_u32(32).unwrap(), 0xDEAD_BEEF);
}

#[test]
fn reading_nothing_gives_zero() {
    let mut biter = reader_of(&[]);
    assert_eq!(biter.read_bits_u32(0).unwrap(), 0);
}

#[test]
fn too_many_bits_are_refused() {
    let mut biter = reader_of(&[0xFF; 8]);
    assert_eq!(biter.read_bits_u32(33), Err(BiterError::TooManyBits));
    // Nothing was consumed.
    assert_eq!(biter.read_bits_u32(8).unwrap(), 0xFF);
}

#[test]
fn end_of_stream_is_reported() {
    let mut biter = reader_of(&[0xAB]);
    assert_eq!(biter.read_bits_u32(4).unwrap(), 0xA);
    assert_eq!(biter.read_bits_u32(8), Err(BiterError::EOF));
}

#[test]
fn bitstrings_and_unsigned_values() {
    let mut biter = reader_of(&[0b1000_0111, 0b1000_0000]);
    let raw: u8 = biter.bslbf(8).unwrap();
    assert_eq!(raw, 0x87);
    let flag: bool = biter.uimsbf(1).unwrap();
    assert!(flag);
    let rest: u16 = biter.uimsbf(7).unwrap();
    assert_eq!(rest, 0);
}

#[test]
fn byte_align_skips_to_the_next_byte() {
    let mut biter = reader_of(&[0b1110_0000, 0x5A]);
    assert_eq!(biter.read_bits_u32(3).unwrap(), 0b111);
    assert!(!biter.is_aligned::<8>());
    biter.byte_align();
    assert!(biter.is_aligned::<8>());
    assert_eq!(biter.read_bits_u32(8).unwrap(), 0x5A);
}

#[test]
fn bits_read_counts_buffer_position_and_reservoir() {
    let mut biter = reader_of(&[1, 2, 3, 4]);
    assert_eq!(biter.bits_read(), 0);
    biter.read_bits_u32(4).unwrap();
    // One byte pulled into the buffer position, four bits left in the reservoir.
    assert_eq!(biter.bits_read(), 12);
    biter.read_bits_u32(4).unwrap();
    assert_eq!(biter.bits_read(), 8);
}

#[test]
fn aligned_bytes_come_from_the_stream() {
    let mut biter = reader_of(&[1, 2, 3]);
    let mut out = vec![0u8; 2];
    biter.read_aligned_bytes(&mut out).unwrap();
    assert_eq!(out, vec![1, 2]);
    let mut too_many = vec![0u8; 2];
    assert_eq!(biter.read_aligned_bytes(&mut too_many), Err(BiterError::EOF));
}

#[test]
fn aligned_bytes_need_a_byte_boundary() {
    let mut biter = reader_of(&[0xF0, 1, 2, 3]);
    biter.read_bits_u32(4).unwrap();
    let mut out = vec![0u8; 1];
    assert_eq!(biter.read_aligned_bytes(&mut out), Err(BiterError::NotByteAligned));
}

#[test]
fn seek_restarts_at_a_byte() {
    let mut biter = reader_of(&[0x11, 0x22, 0x33]);
    biter.read_bits_u32(12).unwrap();
    assert_eq!(biter.seek_to_byte(2), 2);
    assert_eq!(biter.read_bits_u32(8).unwrap(), 0x33);
    assert_eq!(biter.bits_read(), 8);
}

#[test]
fn into_inner_hands_back_the_stream() {
    let biter = reader_of(&[9, 8, 7]);
    let stream = biter.into_inner();
    assert_eq!(stream.position(), 0);
    assert_eq!(stream.into_inner(), vec![9, 8, 7]);
}

#[test]
fn aligned_bytes_start_with_the_buffered_ones() {
    let mut biter = reader_of(&[1, 2, 3]);
    assert_eq!(biter.read_bits_u32(8).unwrap(), 1);
    let mut out = vec![0u8; 2];
    biter.read_aligned_bytes(&mut out).unwrap();
    assert_eq!(out, vec![2, 3]);
}

#[test]
fn aligned_bytes_start_with_whole_bytes_of_the_reservoir() {
    let mut biter = reader_of(&[0xAB, 0xCD, 0xEF, 0x12]);
    assert_eq!(biter.read_bits_u32(4).unwrap(), 0xA);
    assert_eq!(biter.read_bits_u32(4).unwrap(), 0xB);
    let mut out = vec![0u8; 3];
    biter.read_aligned_bytes(&mut out).unwrap();
    assert_eq!(out, vec![0xCD, 0xEF, 0x12]);
}
