//! The ten byte header in front of each ID3v2 frame.
use crate::bite::BiterError;
use crate::id3v2::header::{be_u32_at, read_be_u32};
use crate::id3v2::types::{frame_id_text, FRAME_KNOWN_BITS, ID3v2FrameFlags, ID3v2FrameID};
use crate::reader::ByteReader;
use vstd::prelude::*;

verus! {

/// Why a frame header was refused.
#[derive(Debug)]
pub enum ID3v2ParseFrameError {
    /// The stream ended inside the frame header.
    Read(BiterError),
    /// The frame identifier holds a character other than `A`-`Z` and `0`-`9`.
    InvalidFrameID(ID3v2FrameID),
    /// A flag without a defined meaning is set.
    UnknownHeaderFlags(ID3v2FrameFlags),
    /// A flag is set whose handling is not implemented.
    NotImplementedFlags(ID3v2FrameFlags),
}

/// The header of one frame.
#[derive(Debug, Clone, Copy)]
pub struct ID3v2FrameHeader {
    /// Four characters out of `A`-`Z` and `0`-`9`.
    pub frame_id: ID3v2FrameID,
    /// Size of the payload in bytes, stored big-endian.
    pub size: u32,
    /// Frame flags, stored big-endian.
    pub flags: ID3v2FrameFlags,
}

/// What a ten byte frame header is found to be, checks in the order they are made.
#[derive(Debug, Clone, Copy, PartialEq, Eq)]
pub enum FrameCheck {
    BadId,
    UnknownFlags,
    UnimplementedFlags,
    Valid,
}

/// Two bytes from index `i` as a big-endian number.
pub open spec fn be_u16_at(b: Seq<u8>, i: int) -> u16 {
    (b[i] as nat * 0x100 + b[i + 1] as nat) as u16
}

/// The verdict on the ten frame header bytes `b`.
pub open spec fn id3v2_frame_check(b: Seq<u8>) -> FrameCheck {
    if frame_id_text(b.take(4)) is None {
        FrameCheck::BadId
    } else if be_u16_at(b, 8) & !FRAME_KNOWN_BITS != 0 {
        FrameCheck::UnknownFlags
    } else if be_u16_at(b, 8) != 0 {
        FrameCheck::UnimplementedFlags
    } else {
        FrameCheck::Valid
    }
}

/// `h` holds the fields of the frame header bytes `b`.
pub open spec fn frame_header_fields(h: ID3v2FrameHeader, b: Seq<u8>) -> bool {
    &&& h.frame_id.0@ == b.take(4)
    &&& h.size == be_u32_at(b, 4)
    &&& h.flags.value() == be_u16_at(b, 8)
}

/// `e` is the error for a frame header read from the bytes `rest`: the end of
/// the data inside the header, or the first check that the header fails.
pub open spec fn frame_error_matches(e: ID3v2ParseFrameError, rest: Seq<u8>) -> bool {
    if rest.len() < 10 {
        e matches ID3v2ParseFrameError::Read(k) && k == BiterError::EOF
    } else {
        let b = rest.take(10);
        match id3v2_frame_check(b) {
            FrameCheck::BadId => e matches ID3v2ParseFrameError::InvalidFrameID(id) && id.0@
                == b.take(4),
            FrameCheck::UnknownFlags => e matches ID3v2ParseFrameError::UnknownHeaderFlags(f)
                && f.value() == be_u16_at(b, 8),
            FrameCheck::UnimplementedFlags => e matches ID3v2ParseFrameError::NotImplementedFlags(
                f,
            ) && f.value() == be_u16_at(b, 8),
            FrameCheck::Valid => false,
        }
    }
}

/// Reads a frame header and checks it: a valid identifier and no flag set.
pub fn parse_frame(stream: &mut ByteReader) -> (r: Result<ID3v2FrameHeader, ID3v2ParseFrameError>)
    ensures
        final(stream).data() == old(stream).data(),
        r matches Err(e) ==> frame_error_matches(e, old(stream).rest()),
        old(stream).rest().len() < 10 ==> r is Err && final(stream).pos() == old(stream).pos(),
        old(stream).rest().len() >= 10 ==> ({
            let b = old(stream).rest().take(10);
            &&& final(stream).pos() == old(stream).pos() + 10
            &&& r is Ok <==> id3v2_frame_check(b) == FrameCheck::Valid
            &&& r matches Ok(h) ==> frame_header_fields(h, b)
        }),
{
    let mut b = vec![0u8; 10];
    match stream.read_exact(&mut b) {
        Ok(()) => {},
        Err(e) => {
            return Err(ID3v2ParseFrameError::Read(e));
        },
    }
    let frame_id = ID3v2FrameID([b[0], b[1], b[2], b[3]]);
    assert(frame_id.0@ =~= b@.take(4));
    let hi = b[8] as u16;
    let lo = b[9] as u16;
    assert((hi << 8u16) | lo == hi * 0x100 + lo) by (bit_vector)
        requires
            hi < 256,
            lo < 256,
    ;
    // Size in big-endian
    let header = ID3v2FrameHeader {
        frame_id,
        size: read_be_u32(&b, 4),
        flags: ID3v2FrameFlags::from_bits_retain((hi << 8u16) | lo),
    };
    if header.frame_id.as_str().is_none() {
        return Err(ID3v2ParseFrameError::InvalidFrameID(header.frame_id));
    }
    let flags = header.flags;
    if flags.contains_unknown_bits() {
        return Err(ID3v2ParseFrameError::UnknownHeaderFlags(flags));
    }
    if !flags.is_empty() {
        return Err(ID3v2ParseFrameError::NotImplementedFlags(flags));
    }
    Ok(header)
}

} // verus!
