//! The ten byte header at the start of an ID3v2 tag.
use crate::bite::BiterError;
use crate::id3v2::types::{
    is_id3_magic, HEADER_KNOWN_BITS, ID3v2HeaderFlags, ID3v2Magic, ID3v2Size,
};
use crate::reader::ByteReader;
use vstd::prelude::*;

verus! {

/// Why an ID3v2 tag header was refused.
#[derive(Debug)]
pub enum ID3v2ParseHeaderError {
    /// The stream ended inside the header.
    Read(BiterError),
    /// The tag does not start with `ID3`.
    InvalidMagic(ID3v2Magic),
    /// The major or minor version is `$FF`.
    InvalidVersion(u8, u8),
    /// A flag without a defined meaning is set.
    UnknownHeaderFlags(ID3v2HeaderFlags),
    /// A flag is set whose handling is not implemented.
    NotImplementedFlags(ID3v2HeaderFlags),
}

/// The ID3v2 tag header, which should be the first information in the file.
#[derive(Debug, Clone, Copy)]
pub struct ID3v2Header {
    /// Always `ID3`.
    pub magic: ID3v2Magic,
    /// Never `$FF`.
    pub major_version: u8,
    /// Never `$FF`.
    pub minor_version: u8,
    /// Tag flags; all of them must be clear for the tag to be read.
    pub flags: ID3v2HeaderFlags,
    /// The size of the tag after the header.
    pub size: ID3v2Size,
}

/// What a ten byte tag header is found to be, checks in the order they are made.
#[derive(Debug, Clone, Copy, PartialEq, Eq)]
pub enum HeaderCheck {
    BadMagic,
    UnknownFlags,
    BadVersion,
    UnimplementedFlags,
    Valid,
}

/// Four bytes from index `i` as a big-endian number.
pub open spec fn be_u32_at(b: Seq<u8>, i: int) -> u32 {
    (b[i] as nat * 0x100_0000 + b[i + 1] as nat * 0x1_0000 + b[i + 2] as nat * 0x100 + b[i
        + 3] as nat) as u32
}

/// The verdict on the ten header bytes `b`.
pub open spec fn id3v2_header_check(b: Seq<u8>) -> HeaderCheck {
    if !is_id3_magic(b.take(3)) {
        HeaderCheck::BadMagic
    } else if b[5] & !HEADER_KNOWN_BITS != 0 {
        HeaderCheck::UnknownFlags
    } else if b[3] == 0xFF || b[4] == 0xFF {
        HeaderCheck::BadVersion
    } else if b[5] != 0 {
        HeaderCheck::UnimplementedFlags
    } else {
        HeaderCheck::Valid
    }
}

/// `h` holds the fields of the header bytes `b`.
pub open spec fn header_fields(h: ID3v2Header, b: Seq<u8>) -> bool {
    &&& h.magic.0@ == b.take(3)
    &&& h.major_version == b[3]
    &&& h.minor_version == b[4]
    &&& h.flags.value() == b[5]
    &&& h.size.0 == be_u32_at(b, 6)
}

/// `e` is the error for a tag header read from the bytes `rest`: the end of
/// the data inside the header, or the first check that the header fails.
pub open spec fn header_error_matches(e: ID3v2ParseHeaderError, rest: Seq<u8>) -> bool {
    if rest.len() < 10 {
        e matches ID3v2ParseHeaderError::Read(k) && k == BiterError::EOF
    } else {
        let b = rest.take(10);
        match id3v2_header_check(b) {
            HeaderCheck::BadMagic => e matches ID3v2ParseHeaderError::InvalidMagic(m) && m.0@
                == b.take(3),
            HeaderCheck::UnknownFlags => e matches ID3v2ParseHeaderError::UnknownHeaderFlags(f)
                && f.value() == b[5],
            HeaderCheck::BadVersion => e matches ID3v2ParseHeaderError::InvalidVersion(x, y) && x
                == b[3] && y == b[4],
            HeaderCheck::UnimplementedFlags => e matches ID3v2ParseHeaderError::NotImplementedFlags(
                f,
            ) && f.value() == b[5],
            HeaderCheck::Valid => false,
        }
    }
}

/// Four bytes from index `i` of `b` as a big-endian number.
pub(crate) fn read_be_u32(b: &Vec<u8>, i: usize) -> (r: u32)
    requires
        i + 4 <= b.len(),
    ensures
        r == be_u32_at(b@, i as int),
{
    let b0 = b[i] as u32;
    let b1 = b[i + 1] as u32;
    let b2 = b[i + 2] as u32;
    let b3 = b[i + 3] as u32;
    assert((b0 << 24u32) | (b1 << 16u32) | (b2 << 8u32) | b3 == b0 * 0x100_0000 + b1 * 0x1_0000 + b2
        * 0x100 + b3) by (bit_vector)
        requires
            b0 < 256,
            b1 < 256,
            b2 < 256,
            b3 < 256,
    ;
    (b0 << 24u32) | (b1 << 16u32) | (b2 << 8u32) | b3
}

/// Reads the tag header and checks it: magic `ID3`, no unknown flag, neither
/// version `$FF`, and no flag set at all.
pub fn parse_header(stream: &mut ByteReader) -> (r: Result<ID3v2Header, ID3v2ParseHeaderError>)
    ensures
        final(stream).data() == old(stream).data(),
        r matches Err(e) ==> header_error_matches(e, old(stream).rest()),
        old(stream).rest().len() < 10 ==> r is Err && final(stream).pos() == old(stream).pos(),
        old(stream).rest().len() >= 10 ==> ({
            let b = old(stream).rest().take(10);
            &&& final(stream).pos() == old(stream).pos() + 10
            &&& r is Ok <==> id3v2_header_check(b) == HeaderCheck::Valid
            &&& r matches Ok(h) ==> header_fields(h, b)
        }),
{
    let mut b = vec![0u8; 10];
    match stream.read_exact(&mut b) {
        Ok(()) => {},
        Err(e) => {
            return Err(ID3v2ParseHeaderError::Read(e));
        },
    }
    let magic = ID3v2Magic([b[0], b[1], b[2]]);
    assert(magic.0@ =~= b@.take(3));
    let flags = ID3v2HeaderFlags::from_bits_retain(b[5]);
    let header = ID3v2Header {
        magic,
        major_version: b[3],
        minor_version: b[4],
        flags,
        size: ID3v2Size(read_be_u32(&b, 6)),
    };
    if !header.magic.is_valid() {
        return Err(ID3v2ParseHeaderError::InvalidMagic(header.magic));
    }
    if header.flags.contains_unknown_bits() {
        return Err(ID3v2ParseHeaderError::UnknownHeaderFlags(header.flags));
    }
    if header.major_version == 0xFF || header.minor_version == 0xFF {
        return Err(ID3v2ParseHeaderError::InvalidVersion(header.major_version, header.minor_version));
    }
    if !header.flags.is_empty() {
        return Err(ID3v2ParseHeaderError::NotImplementedFlags(header.flags));
    }
    Ok(header)
}

} // verus!
