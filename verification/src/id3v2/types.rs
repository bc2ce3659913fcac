//! On-disk field types of ID3v2 tags.
use crate::text::string_from_utf8;
use vstd::prelude::*;
use vstd::string::StrSliceExecFns;
use vstd::utf8::{decode_utf8, valid_utf8};

verus! {

/// Header flags of an ID3v2 tag.
#[derive(Debug, Clone, Copy, PartialEq, Eq)]
pub struct ID3v2HeaderFlags {
    bits: u8,
}

/// Whether unsynchronisation is used.
pub const HEADER_UNSYNCHRONIZATION: u8 = 0b1000_0000;

/// Whether the header is followed by an extended header.
pub const HEADER_EXTENDED_HEADER: u8 = 0b0100_0000;

/// Experimental indicator; set while the tag is in an experimental stage.
pub const HEADER_EXPERIMENTAL_INDICATOR: u8 = 0b0010_0000;

/// All header flag bits that have a meaning.
pub const HEADER_KNOWN_BITS: u8 = 0b1110_0000;

impl ID3v2HeaderFlags {
    /// The raw flag byte.
    pub closed spec fn value(self) -> u8 {
        self.bits
    }

    /// Flags with exactly the given bits, known or not.
    pub fn from_bits_retain(bits: u8) -> (r: Self)
        ensures
            r.value() == bits,
    {
        ID3v2HeaderFlags { bits }
    }

    /// The raw flag byte.
    pub fn bits(&self) -> (r: u8)
        ensures
            r == self.value(),
    {
        self.bits
    }

    /// Whether a bit without a defined meaning is set.
    pub fn contains_unknown_bits(&self) -> (r: bool)
        ensures
            r == (self.value() & !HEADER_KNOWN_BITS != 0),
    {
        self.bits & !HEADER_KNOWN_BITS != 0
    }

    /// Whether no bit is set.
    pub fn is_empty(&self) -> (r: bool)
        ensures
            r == (self.value() == 0),
    {
        self.bits == 0
    }
}

/// Frame header flags of an ID3v2 frame.
#[derive(Debug, Clone, Copy, PartialEq, Eq)]
pub struct ID3v2FrameFlags {
    bits: u16,
}

/// Preserve the frame when the tag is altered.
pub const FRAME_TAG_ALTER_PRESERVATION: u16 = 0b1000_0000_0000_0000;

/// Preserve the frame when the file, excluding the tag, is altered.
pub const FRAME_FILE_ALTER_PRESERVATION: u16 = 0b0100_0000_0000_0000;

/// The frame is read only.
pub const FRAME_READ_ONLY: u16 = 0b0010_0000_0000_0000;

/// The frame is compressed.
pub const FRAME_COMPRESSION: u16 = 0b0000_0000_1000_0000;

/// The frame is encrypted.
pub const FRAME_ENCRYPTED: u16 = 0b0000_0000_0100_0000;

/// The frame carries a group identifier.
pub const FRAME_GROUPING_IDENTITY: u16 = 0b0000_0000_0010_0000;

/// All frame flag bits that have a meaning.
pub const FRAME_KNOWN_BITS: u16 = 0b1110_0000_1110_0000;

impl ID3v2FrameFlags {
    /// The raw flag bits.
    pub closed spec fn value(self) -> u16 {
        self.bits
    }

    /// Flags with exactly the given bits, known or not.
    pub fn from_bits_retain(bits: u16) -> (r: Self)
        ensures
            r.value() == bits,
    {
        ID3v2FrameFlags { bits }
    }

    /// The raw flag bits.
    pub fn bits(&self) -> (r: u16)
        ensures
            r == self.value(),
    {
        self.bits
    }

    /// Whether a bit without a defined meaning is set.
    pub fn contains_unknown_bits(&self) -> (r: bool)
        ensures
            r == (self.value() & !FRAME_KNOWN_BITS != 0),
    {
        self.bits & !FRAME_KNOWN_BITS != 0
    }

    /// Whether no bit is set.
    pub fn is_empty(&self) -> (r: bool)
        ensures
            r == (self.value() == 0),
    {
        self.bits == 0
    }
}

/// The tag size: four bytes of seven bits each (the high bit of every byte is
/// zero), most significant byte first, so a 257 bytes long tag is `$00 00 02 01`.
#[derive(Debug, Clone, Copy, PartialEq, Eq)]
pub struct ID3v2Size(pub u32);

/// The number that a sync-safe size field encodes: the low seven bits of each
/// of its four bytes, most significant byte first.
pub open spec fn syncsafe_value(x: u32) -> nat {
    ((x / 0x100_0000) % 0x80) as nat * 0x20_0000 + ((x / 0x1_0000) % 0x80) as nat * 0x4000 + ((x
        / 0x100) % 0x80) as nat * 0x80 + (x % 0x80) as nat
}

impl ID3v2Size {
    /// The size in bytes.
    pub fn as_u32(&self) -> (r: u32)
        ensures
            r as nat == syncsafe_value(self.0),
    {
        let x = self.0;
        assert((((x >> 24u32) & 0x7F) << 21u32) | (((x >> 16u32) & 0x7F) << 14u32) | (((x
            >> 8u32) & 0x7F) << 7u32) | (x & 0x7F) == ((x / 0x100_0000) % 0x80) * 0x20_0000 + ((x
            / 0x1_0000) % 0x80) * 0x4000 + ((x / 0x100) % 0x80) * 0x80 + (x % 0x80))
            by (bit_vector);
        (((x >> 24u32) & 0x7F) << 21u32) | (((x >> 16u32) & 0x7F) << 14u32) | (((x >> 8u32)
            & 0x7F) << 7u32) | (x & 0x7F)
    }
}

/// The sync-safe size field that encodes the size `n`: seven bits of it in
/// each of four bytes, most significant first.
pub open spec fn syncsafe_field(n: u32) -> u32 {
    (((n >> 21u32) & 0x7F) << 24u32) | (((n >> 14u32) & 0x7F) << 16u32) | (((n >> 7u32) & 0x7F)
        << 8u32) | (n & 0x7F)
}

/// Every size below 2^28 has a sync-safe field, and reading the field back
/// gives the size.
pub proof fn law_syncsafe_roundtrip(n: u32)
    requires
        n < 0x1000_0000,
    ensures
        syncsafe_value(syncsafe_field(n)) == n,
{
    let e = syncsafe_field(n);
    assert(((e / 0x100_0000) % 0x80) * 0x20_0000 + ((e / 0x1_0000) % 0x80) * 0x4000 + ((e / 0x100)
        % 0x80) * 0x80 + (e % 0x80) == n) by (bit_vector)
        requires
            n < 0x1000_0000,
            e == (((n >> 21u32) & 0x7F) << 24u32) | (((n >> 14u32) & 0x7F) << 16u32) | (((n >> 7u32)
                & 0x7F) << 8u32) | (n & 0x7F),
    ;
}

/// The three identifying bytes at the start of a tag.
#[derive(Debug, Clone, Copy, PartialEq, Eq)]
pub struct ID3v2Magic(pub [u8; 3]);

/// Whether the bytes spell `ID3`.
pub open spec fn is_id3_magic(m: Seq<u8>) -> bool {
    m.len() == 3 && m[0] == 0x49 && m[1] == 0x44 && m[2] == 0x33
}

impl ID3v2Magic {
    /// Whether these are the bytes `ID3`.
    pub fn is_valid(&self) -> (r: bool)
        ensures
            r == is_id3_magic(self.0@),
    {
        self.0[0] == 0x49 && self.0[1] == 0x44 && self.0[2] == 0x33
    }
}

/// A frame identifier: four characters out of `A`-`Z` and `0`-`9`.
#[derive(Debug, Clone, Copy, PartialEq, Eq)]
pub struct ID3v2FrameID(pub [u8; 4]);

/// Whether `c` may stand in a frame identifier.
pub open spec fn is_frame_id_char(c: char) -> bool {
    ('A' <= c && c <= 'Z') || ('0' <= c && c <= '9')
}

/// The identifier's text, when its bytes are UTF-8 made only of frame identifier characters.
pub open spec fn frame_id_text(id: Seq<u8>) -> Option<Seq<char>> {
    if valid_utf8(id) && (forall|i: int|
        0 <= i < decode_utf8(id).len() ==> #[trigger] is_frame_id_char(decode_utf8(id)[i])) {
        Some(decode_utf8(id))
    } else {
        None
    }
}

impl ID3v2FrameID {
    /// The identifier as text, when it is valid: only upper-case latin
    /// letters and digits, in UTF-8.
    pub fn as_str(&self) -> (r: Option<String>)
        ensures
            r is Some <==> frame_id_text(self.0@) is Some,
            r matches Some(s) ==> s@ == frame_id_text(self.0@).unwrap(),
    {
        let bytes = vec![self.0[0], self.0[1], self.0[2], self.0[3]];
        assert(bytes@ =~= self.0@);
        let s = match string_from_utf8(bytes) {
            Some(s) => s,
            None => {
                return None;
            },
        };
        let n = s.as_str().unicode_len();
        let mut i: usize = 0;
        while i < n
            invariant
                n == s@.len(),
                i <= n,
                s@ == decode_utf8(self.0@),
                forall|j: int| 0 <= j < i ==> #[trigger] is_frame_id_char(s@[j]),
            decreases n - i,
        {
            let c = s.as_str().get_char(i);
            if !(('A' <= c && c <= 'Z') || ('0' <= c && c <= '9')) {
                assert(!is_frame_id_char(s@[i as int]));
                return None;
            }
            i = i + 1;
        }
        Some(s)
    }
}

} // verus!
