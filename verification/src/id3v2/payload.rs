//! Frame payloads of ID3v2 tags.
use crate::bite::BiterError;
use crate::id3v2::types::ID3v2FrameID;
use crate::reader::ByteReader;
use crate::text::{i64_from_decimal, parse_i64, string_from_utf8};
use vstd::prelude::*;
use vstd::utf8::{decode_utf8, valid_utf8};

verus! {

/// What a payload was being read as when its text did not parse.
#[derive(Debug, Clone, Copy, PartialEq, Eq)]
pub enum ParsedAs {
    /// UTF-8 text.
    Utf8,
    /// A decimal integer.
    Integer,
}

/// Why a frame payload could not be read.
#[derive(Debug)]
pub enum ID3v2ParsePayloadError {
    /// The stream ended inside the payload.
    Read(BiterError),
    /// No parser is known for the frame identifier.
    UnknownTag(ID3v2FrameID),
    /// The text encoding byte names no known encoding.
    UnknownEncodingType(u8),
    /// The payload bytes do not form the expected text.
    StringParseError(ParsedAs, Vec<u8>),
}

/// How the payload of a known frame is read.
#[derive(Debug, Clone, Copy, PartialEq, Eq)]
pub enum PayloadKind {
    /// As text.
    Text,
    /// As a decimal integer written as text.
    Integer,
}

/// A decoded frame.
#[derive(Debug)]
pub enum ID3v2Frame {
    Dummy,
    /// The `TALB` frame.
    Album(String),
    /// The `TBPM` frame.
    BPM(i64),
    /// The `TCOM` frame.
    Composer(String),
    /// The `TCON` frame.
    ContentType(String),
    /// The `TCOP` frame.
    CopyrightNessage(String),
    /// The `TDAT` frame.
    Date(String),
    /// The `TDLY` frame.
    PlaylistDelay(String),
    /// The `TENC` frame.
    EncodedBy(String),
    /// The `TEXT` frame.
    Lyricist(String),
    /// The `TFLT` frame.
    FileType(String),
    /// The `TIME` frame.
    Time(String),
    /// The `TIT1` frame.
    ContentGroupDescription(String),
    /// The `TIT2` frame.
    Title(String),
    /// The `TIT3` frame.
    Subtitle(String),
    /// The `TKEY` frame.
    InitialKey(String),
    /// The `TLAN` frame.
    Language(String),
    /// The `TLEN` frame.
    Length(String),
    /// The `TMED` frame.
    MediaType(String),
    /// The `TOAL` frame.
    OriginalAlbum(String),
    /// The `TOFN` frame.
    OriginalFilename(String),
    /// The `TOLY` frame.
    OriginalLyricist(String),
    /// The `TOPE` frame.
    OriginalArtist(String),
    /// The `TORY` frame.
    OriginalReleaseYear(String),
    /// The `TOWN` frame.
    Owner(String),
    /// The `TPE1` frame.
    LeadArtist(String),
    /// The `TPE2` frame.
    Band(String),
    /// The `TPE3` frame.
    Conductor(String),
    /// The `TPE4` frame.
    Remixed(String),
    /// The `TPOS` frame.
    PartOfSet(String),
    /// The `TPUB` frame.
    Publisher(String),
    /// The `TRCK` frame.
    TrackNumberPosition(String),
    /// The `TRDA` frame.
    RecordingDates(String),
    /// The `TRSN` frame.
    TRSN(String),
    /// The `TRSO` frame.
    TRSO(String),
    /// The `TSIZ` frame.
    Size(String),
    /// The `TSRC` frame.
    ISRC(String),
    /// The `TSSE` frame.
    Software(String),
    /// The `TYER` frame.
    Year(i64),
}

/// The frame identifier as a big-endian number.
pub open spec fn frame_code(id: Seq<u8>) -> u32 {
    (id[0] as nat * 0x100_0000 + id[1] as nat * 0x1_0000 + id[2] as nat * 0x100 + id[3] as nat) as u32
}

/// How the payload of the frame with identifier code `code` is read; nothing
/// for an unknown frame.
pub open spec fn payload_kind(code: u32) -> Option<PayloadKind> {
    match code {
        0x5441_4C42 => Some(PayloadKind::Text),
        0x5442_504D => Some(PayloadKind::Integer),
        0x5443_4F4D => Some(PayloadKind::Text),
        0x5443_4F4E => Some(PayloadKind::Text),
        0x5443_4F50 => Some(PayloadKind::Text),
        0x5444_4154 => Some(PayloadKind::Text),
        0x5444_4C59 => Some(PayloadKind::Text),
        0x5445_4E43 => Some(PayloadKind::Text),
        0x5445_5854 => Some(PayloadKind::Text),
        0x5446_4C54 => Some(PayloadKind::Text),
        0x5449_4D45 => Some(PayloadKind::Text),
        0x5449_5431 => Some(PayloadKind::Text),
        0x5449_5432 => Some(PayloadKind::Text),
        0x5449_5433 => Some(PayloadKind::Text),
        0x544B_4559 => Some(PayloadKind::Text),
        0x544C_414E => Some(PayloadKind::Text),
        0x544C_454E => Some(PayloadKind::Text),
        0x544D_4544 => Some(PayloadKind::Text),
        0x544F_414C => Some(PayloadKind::Text),
        0x544F_464E => Some(PayloadKind::Text),
        0x544F_4C59 => Some(PayloadKind::Text),
        0x544F_5045 => Some(PayloadKind::Text),
        0x544F_5259 => Some(PayloadKind::Text),
        0x544F_574E => Some(PayloadKind::Text),
        0x5450_4531 => Some(PayloadKind::Text),
        0x5450_4532 => Some(PayloadKind::Text),
        0x5450_4533 => Some(PayloadKind::Text),
        0x5450_4534 => Some(PayloadKind::Text),
        0x5450_4F53 => Some(PayloadKind::Text),
        0x5450_5542 => Some(PayloadKind::Text),
        0x5452_434B => Some(PayloadKind::Text),
        0x5452_4441 => Some(PayloadKind::Text),
        0x5452_534E => Some(PayloadKind::Text),
        0x5452_534F => Some(PayloadKind::Text),
        0x5453_495A => Some(PayloadKind::Text),
        0x5453_5243 => Some(PayloadKind::Text),
        0x5453_5345 => Some(PayloadKind::Text),
        0x5459_4552 => Some(PayloadKind::Integer),
        _ => None,
    }
}

/// The identifier code of a decoded frame (zero for `Dummy`).
pub open spec fn frame_kind_code(f: ID3v2Frame) -> u32 {
    match f {
        ID3v2Frame::Dummy => 0,
        ID3v2Frame::Album(_) => 0x5441_4C42,
        ID3v2Frame::BPM(_) => 0x5442_504D,
        ID3v2Frame::Composer(_) => 0x5443_4F4D,
        ID3v2Frame::ContentType(_) => 0x5443_4F4E,
        ID3v2Frame::CopyrightNessage(_) => 0x5443_4F50,
        ID3v2Frame::Date(_) => 0x5444_4154,
        ID3v2Frame::PlaylistDelay(_) => 0x5444_4C59,
        ID3v2Frame::EncodedBy(_) => 0x5445_4E43,
        ID3v2Frame::Lyricist(_) => 0x5445_5854,
        ID3v2Frame::FileType(_) => 0x5446_4C54,
        ID3v2Frame::Time(_) => 0x5449_4D45,
        ID3v2Frame::ContentGroupDescription(_) => 0x5449_5431,
        ID3v2Frame::Title(_) => 0x5449_5432,
        ID3v2Frame::Subtitle(_) => 0x5449_5433,
        ID3v2Frame::InitialKey(_) => 0x544B_4559,
        ID3v2Frame::Language(_) => 0x544C_414E,
        ID3v2Frame::Length(_) => 0x544C_454E,
        ID3v2Frame::MediaType(_) => 0x544D_4544,
        ID3v2Frame::OriginalAlbum(_) => 0x544F_414C,
        ID3v2Frame::OriginalFilename(_) => 0x544F_464E,
        ID3v2Frame::OriginalLyricist(_) => 0x544F_4C59,
        ID3v2Frame::OriginalArtist(_) => 0x544F_5045,
        ID3v2Frame::OriginalReleaseYear(_) => 0x544F_5259,
        ID3v2Frame::Owner(_) => 0x544F_574E,
        ID3v2Frame::LeadArtist(_) => 0x5450_4531,
        ID3v2Frame::Band(_) => 0x5450_4532,
        ID3v2Frame::Conductor(_) => 0x5450_4533,
        ID3v2Frame::Remixed(_) => 0x5450_4534,
        ID3v2Frame::PartOfSet(_) => 0x5450_4F53,
        ID3v2Frame::Publisher(_) => 0x5450_5542,
        ID3v2Frame::TrackNumberPosition(_) => 0x5452_434B,
        ID3v2Frame::RecordingDates(_) => 0x5452_4441,
        ID3v2Frame::TRSN(_) => 0x5452_534E,
        ID3v2Frame::TRSO(_) => 0x5452_534F,
        ID3v2Frame::Size(_) => 0x5453_495A,
        ID3v2Frame::ISRC(_) => 0x5453_5243,
        ID3v2Frame::Software(_) => 0x5453_5345,
        ID3v2Frame::Year(_) => 0x5459_4552,
    }
}

/// The text of a decoded text frame.
pub open spec fn frame_text(f: ID3v2Frame) -> Option<Seq<char>> {
    match f {
        ID3v2Frame::Album(s) => Some(s@),
        ID3v2Frame::Composer(s) => Some(s@),
        ID3v2Frame::ContentType(s) => Some(s@),
        ID3v2Frame::CopyrightNessage(s) => Some(s@),
        ID3v2Frame::Date(s) => Some(s@),
        ID3v2Frame::PlaylistDelay(s) => Some(s@),
        ID3v2Frame::EncodedBy(s) => Some(s@),
        ID3v2Frame::Lyricist(s) => Some(s@),
        ID3v2Frame::FileType(s) => Some(s@),
        ID3v2Frame::Time(s) => Some(s@),
        ID3v2Frame::ContentGroupDescription(s) => Some(s@),
        ID3v2Frame::Title(s) => Some(s@),
        ID3v2Frame::Subtitle(s) => Some(s@),
        ID3v2Frame::InitialKey(s) => Some(s@),
        ID3v2Frame::Language(s) => Some(s@),
        ID3v2Frame::Length(s) => Some(s@),
        ID3v2Frame::MediaType(s) => Some(s@),
        ID3v2Frame::OriginalAlbum(s) => Some(s@),
        ID3v2Frame::OriginalFilename(s) => Some(s@),
        ID3v2Frame::OriginalLyricist(s) => Some(s@),
        ID3v2Frame::OriginalArtist(s) => Some(s@),
        ID3v2Frame::OriginalReleaseYear(s) => Some(s@),
        ID3v2Frame::Owner(s) => Some(s@),
        ID3v2Frame::LeadArtist(s) => Some(s@),
        ID3v2Frame::Band(s) => Some(s@),
        ID3v2Frame::Conductor(s) => Some(s@),
        ID3v2Frame::Remixed(s) => Some(s@),
        ID3v2Frame::PartOfSet(s) => Some(s@),
        ID3v2Frame::Publisher(s) => Some(s@),
        ID3v2Frame::TrackNumberPosition(s) => Some(s@),
        ID3v2Frame::RecordingDates(s) => Some(s@),
        ID3v2Frame::TRSN(s) => Some(s@),
        ID3v2Frame::TRSO(s) => Some(s@),
        ID3v2Frame::Size(s) => Some(s@),
        ID3v2Frame::ISRC(s) => Some(s@),
        ID3v2Frame::Software(s) => Some(s@),
        _ => None,
    }
}

/// The number of a decoded integer frame.
pub open spec fn frame_number(f: ID3v2Frame) -> Option<i64> {
    match f {
        ID3v2Frame::BPM(v) => Some(v),
        ID3v2Frame::Year(v) => Some(v),
        _ => None,
    }
}

/// How the payload of the frame with identifier code `code` is read.
pub(crate) fn kind_of(code: u32) -> (r: Option<PayloadKind>)
    ensures
        r == payload_kind(code),
{
    match code {
        0x5441_4C42 => Some(PayloadKind::Text),
        0x5442_504D => Some(PayloadKind::Integer),
        0x5443_4F4D => Some(PayloadKind::Text),
        0x5443_4F4E => Some(PayloadKind::Text),
        0x5443_4F50 => Some(PayloadKind::Text),
        0x5444_4154 => Some(PayloadKind::Text),
        0x5444_4C59 => Some(PayloadKind::Text),
        0x5445_4E43 => Some(PayloadKind::Text),
        0x5445_5854 => Some(PayloadKind::Text),
        0x5446_4C54 => Some(PayloadKind::Text),
        0x5449_4D45 => Some(PayloadKind::Text),
        0x5449_5431 => Some(PayloadKind::Text),
        0x5449_5432 => Some(PayloadKind::Text),
        0x5449_5433 => Some(PayloadKind::Text),
        0x544B_4559 => Some(PayloadKind::Text),
        0x544C_414E => Some(PayloadKind::Text),
        0x544C_454E => Some(PayloadKind::Text),
        0x544D_4544 => Some(PayloadKind::Text),
        0x544F_414C => Some(PayloadKind::Text),
        0x544F_464E => Some(PayloadKind::Text),
        0x544F_4C59 => Some(PayloadKind::Text),
        0x544F_5045 => Some(PayloadKind::Text),
        0x544F_5259 => Some(PayloadKind::Text),
        0x544F_574E => Some(PayloadKind::Text),
        0x5450_4531 => Some(PayloadKind::Text),
        0x5450_4532 => Some(PayloadKind::Text),
        0x5450_4533 => Some(PayloadKind::Text),
        0x5450_4534 => Some(PayloadKind::Text),
        0x5450_4F53 => Some(PayloadKind::Text),
        0x5450_5542 => Some(PayloadKind::Text),
        0x5452_434B => Some(PayloadKind::Text),
        0x5452_4441 => Some(PayloadKind::Text),
        0x5452_534E => Some(PayloadKind::Text),
        0x5452_534F => Some(PayloadKind::Text),
        0x5453_495A => Some(PayloadKind::Text),
        0x5453_5243 => Some(PayloadKind::Text),
        0x5453_5345 => Some(PayloadKind::Text),
        0x5459_4552 => Some(PayloadKind::Integer),
        _ => None,
    }
}

/// The text frame with identifier code `code` holding `s`.
fn text_frame(code: u32, s: String) -> (f: ID3v2Frame)
    requires
        payload_kind(code) == Some(PayloadKind::Text),
    ensures
        frame_kind_code(f) == code,
        frame_text(f) == Some(s@),
{
    match code {
        0x5441_4C42 => ID3v2Frame::Album(s),
        0x5443_4F4D => ID3v2Frame::Composer(s),
        0x5443_4F4E => ID3v2Frame::ContentType(s),
        0x5443_4F50 => ID3v2Frame::CopyrightNessage(s),
        0x5444_4154 => ID3v2Frame::Date(s),
        0x5444_4C59 => ID3v2Frame::PlaylistDelay(s),
        0x5445_4E43 => ID3v2Frame::EncodedBy(s),
        0x5445_5854 => ID3v2Frame::Lyricist(s),
        0x5446_4C54 => ID3v2Frame::FileType(s),
        0x5449_4D45 => ID3v2Frame::Time(s),
        0x5449_5431 => ID3v2Frame::ContentGroupDescription(s),
        0x5449_5432 => ID3v2Frame::Title(s),
        0x5449_5433 => ID3v2Frame::Subtitle(s),
        0x544B_4559 => ID3v2Frame::InitialKey(s),
        0x544C_414E => ID3v2Frame::Language(s),
        0x544C_454E => ID3v2Frame::Length(s),
        0x544D_4544 => ID3v2Frame::MediaType(s),
        0x544F_414C => ID3v2Frame::OriginalAlbum(s),
        0x544F_464E => ID3v2Frame::OriginalFilename(s),
        0x544F_4C59 => ID3v2Frame::OriginalLyricist(s),
        0x544F_5045 => ID3v2Frame::OriginalArtist(s),
        0x544F_5259 => ID3v2Frame::OriginalReleaseYear(s),
        0x544F_574E => ID3v2Frame::Owner(s),
        0x5450_4531 => ID3v2Frame::LeadArtist(s),
        0x5450_4532 => ID3v2Frame::Band(s),
        0x5450_4533 => ID3v2Frame::Conductor(s),
        0x5450_4534 => ID3v2Frame::Remixed(s),
        0x5450_4F53 => ID3v2Frame::PartOfSet(s),
        0x5450_5542 => ID3v2Frame::Publisher(s),
        0x5452_434B => ID3v2Frame::TrackNumberPosition(s),
        0x5452_4441 => ID3v2Frame::RecordingDates(s),
        0x5452_534E => ID3v2Frame::TRSN(s),
        0x5452_534F => ID3v2Frame::TRSO(s),
        0x5453_495A => ID3v2Frame::Size(s),
        0x5453_5243 => ID3v2Frame::ISRC(s),
        _ => ID3v2Frame::Software(s),
    }
}

/// The integer frame with identifier code `code` holding `v`.
fn number_frame(code: u32, v: i64) -> (f: ID3v2Frame)
    requires
        payload_kind(code) == Some(PayloadKind::Integer),
    ensures
        frame_kind_code(f) == code,
        frame_number(f) == Some(v),
{
    if code == 0x5442_504D {
        ID3v2Frame::BPM(v)
    } else {
        ID3v2Frame::Year(v)
    }
}

/// An empty payload has no text encoding byte, and the encodings 0 (ISO-8859-1),
/// 1 (UTF-16 with byte order mark) and 2 (UTF-16BE) have no decoder: text in
/// such a payload cannot be read.
pub open spec fn encoding_unsupported(data: Seq<u8>) -> bool {
    data.len() == 0 || data[0] <= 2
}

/// The UTF-8 bytes of a text: one trailing NUL is dropped.
pub open spec fn utf8_body(d: Seq<u8>) -> Seq<u8> {
    if d.len() > 0 && d.last() == 0 {
        d.drop_last()
    } else {
        d
    }
}

/// The text of a payload: encoding byte 3 (UTF-8) followed by valid UTF-8.
pub open spec fn payload_string(data: Seq<u8>) -> Option<Seq<char>> {
    if data.len() > 0 && data[0] == 3 && valid_utf8(utf8_body(data.skip(1))) {
        Some(decode_utf8(utf8_body(data.skip(1))))
    } else {
        None
    }
}

/// Whether the payload of a frame with identifier code `code` decodes.
pub open spec fn payload_ok(code: u32, data: Seq<u8>) -> bool {
    match payload_kind(code) {
        Some(PayloadKind::Text) => payload_string(data) is Some,
        Some(PayloadKind::Integer) => payload_string(data) is Some && i64_from_decimal(
            payload_string(data).unwrap(),
        ) is Some,
        None => false,
    }
}

/// `f` is the frame decoded from the payload `data` of a frame with identifier code `code`.
pub open spec fn payload_frame(f: ID3v2Frame, code: u32, data: Seq<u8>) -> bool {
    &&& frame_kind_code(f) == code
    &&& match payload_kind(code) {
        Some(PayloadKind::Text) => frame_text(f) == payload_string(data),
        Some(PayloadKind::Integer) => frame_number(f) == i64_from_decimal(
            payload_string(data).unwrap(),
        ),
        None => false,
    }
}

/// A copy of `v[from..to]`.
fn copy_range(v: &Vec<u8>, from: usize, to: usize) -> (r: Vec<u8>)
    requires
        from <= to <= v@.len(),
    ensures
        r@ == v@.subrange(from as int, to as int),
{
    let mut r: Vec<u8> = Vec::new();
    let mut i = from;
    while i < to
        invariant
            from <= i <= to <= v@.len(),
            r@ == v@.subrange(from as int, i as int),
        decreases to - i,
    {
        r.push(v[i]);
        i = i + 1;
        assert(r@ =~= v@.subrange(from as int, i as int));
    }
    r
}

/// Decodes UTF-8 text, dropping a trailing NUL terminator.
fn parse_utf8(data: &Vec<u8>) -> (r: Result<String, ID3v2ParsePayloadError>)
    ensures
        r is Ok <==> valid_utf8(utf8_body(data@)),
        r matches Ok(s) ==> s@ == decode_utf8(utf8_body(data@)),
        r matches Err(e) ==> e matches ID3v2ParsePayloadError::StringParseError(k, v) && k
            == ParsedAs::Utf8 && v@ == data@,
{
    let n = data.len();
    // Get rid of the null terminator if it exists
    let vec = if n > 0 && data[n - 1] == 0 {
        copy_range(data, 0, n - 1)
    } else {
        copy_range(data, 0, n)
    };
    assert(vec@ =~= utf8_body(data@));
    match string_from_utf8(vec) {
        Some(s) => Ok(s),
        None => Err(ID3v2ParsePayloadError::StringParseError(ParsedAs::Utf8, copy_range(data, 0, n))),
    }
}

/// Text preceded by its encoding byte.
fn string_parser(arg: &Vec<u8>) -> (r: Result<String, ID3v2ParsePayloadError>)
    requires
        !encoding_unsupported(arg@),
    ensures
        r is Ok <==> payload_string(arg@) is Some,
        r matches Ok(s) ==> s@ == payload_string(arg@).unwrap(),
        arg@[0] > 3 ==> (r matches Err(e) && e matches ID3v2ParsePayloadError::UnknownEncodingType(
            b,
        ) && b == arg@[0]),
        arg@[0] == 3 ==> (r matches Err(e) ==> (e matches ID3v2ParsePayloadError::StringParseError(
            k,
            v,
        ) && k == ParsedAs::Utf8 && v@ == arg@.skip(1))),
{
    let encoding = arg[0];
    if encoding == 3 {
        let body = copy_range(arg, 1, arg.len());
        assert(body@ =~= arg@.skip(1));
        parse_utf8(&body)
    } else {
        Err(ID3v2ParsePayloadError::UnknownEncodingType(encoding))
    }
}

/// A decimal integer written as text.
fn i64_parser(arg: &Vec<u8>) -> (r: Result<i64, ID3v2ParsePayloadError>)
    requires
        !encoding_unsupported(arg@),
    ensures
        r is Ok <==> payload_string(arg@) is Some && i64_from_decimal(
            payload_string(arg@).unwrap(),
        ) is Some,
        r matches Ok(v) ==> Some(v) == i64_from_decimal(payload_string(arg@).unwrap()),
        arg@[0] > 3 ==> (r matches Err(e) && e matches ID3v2ParsePayloadError::UnknownEncodingType(
            b,
        ) && b == arg@[0]),
        payload_string(arg@) is Some ==> (r matches Err(e) ==> (
        e matches ID3v2ParsePayloadError::StringParseError(k, v) && k == ParsedAs::Integer && v@
            == arg@)),
        arg@[0] == 3 && payload_string(arg@) is None ==> (r matches Err(e)
            && e matches ID3v2ParsePayloadError::StringParseError(k, v) && k == ParsedAs::Utf8 && v@
            == arg@.skip(1)),
{
    let s = string_parser(arg)?;
    match parse_i64(s.as_str()) {
        Some(v) => Ok(v),
        None => Err(ID3v2ParsePayloadError::StringParseError(ParsedAs::Integer, copy_range(arg, 0, arg.len()))),
    }
}

/// The identifier of a frame as a big-endian number.
pub fn frame_id_code(id: &ID3v2FrameID) -> (r: u32)
    ensures
        r == frame_code(id.0@),
{
    let b0 = id.0[0] as u32;
    let b1 = id.0[1] as u32;
    let b2 = id.0[2] as u32;
    let b3 = id.0[3] as u32;
    assert((b0 << 24u32) | (b1 << 16u32) | (b2 << 8u32) | b3 == b0 * 0x100_0000 + b1 * 0x1_0000 + b2
        * 0x100 + b3) by (bit_vector)
        requires
            b0 < 256,
            b1 < 256,
            b2 < 256,
            b3 < 256,
    ;
    (b0 << 24u32) | (b1 << 16u32) | (b2 << 8u32) | b3
}

/// `e` is the error reported for the refused payload `data` of the frame
/// `id`: an unknown identifier, an unknown encoding byte, text that is not
/// UTF-8 (with the text bytes), or text that is no number (with the payload).
pub open spec fn payload_error_matches(e: ID3v2ParsePayloadError, id: Seq<u8>, data: Seq<u8>) -> bool {
    match payload_kind(frame_code(id)) {
        None => e matches ID3v2ParsePayloadError::UnknownTag(i) && i.0@ == id,
        Some(kind) => if data[0] > 3 {
            e == ID3v2ParsePayloadError::UnknownEncodingType(data[0])
        } else if payload_string(data) is None {
            e matches ID3v2ParsePayloadError::StringParseError(k, v) && k == ParsedAs::Utf8 && v@
                == data.skip(1)
        } else {
            e matches ID3v2ParsePayloadError::StringParseError(k, v) && k == ParsedAs::Integer
                && v@ == data
        },
    }
}

/// Decodes the payload `data` of the frame `frame_id` with the parser for its identifier.
pub fn decode_payload(frame_id: ID3v2FrameID, data: &Vec<u8>) -> (r: Result<
    ID3v2Frame,
    ID3v2ParsePayloadError,
>)
    requires
        payload_kind(frame_code(frame_id.0@)) is Some ==> !encoding_unsupported(data@),
    ensures
        r is Ok <==> payload_ok(frame_code(frame_id.0@), data@),
        r matches Ok(f) ==> payload_frame(f, frame_code(frame_id.0@), data@),
        payload_kind(frame_code(frame_id.0@)) is None ==> (r matches Err(e)
            && e matches ID3v2ParsePayloadError::UnknownTag(id) && id == frame_id),
        r matches Err(e) ==> payload_error_matches(e, frame_id.0@, data@),
{
    let code = frame_id_code(&frame_id);
    match kind_of(code) {
        None => Err(ID3v2ParsePayloadError::UnknownTag(frame_id)),
        Some(PayloadKind::Text) => {
            let s = string_parser(data)?;
            Ok(text_frame(code, s))
        },
        Some(PayloadKind::Integer) => {
            let v = i64_parser(data)?;
            Ok(number_frame(code, v))
        },
    }
}

/// Reads the `size` byte payload of the frame `frame_id` and decodes it.
pub fn parse_payload(stream: &mut ByteReader, frame_id: ID3v2FrameID, size: usize) -> (r: Result<
    ID3v2Frame,
    ID3v2ParsePayloadError,
>)
    requires
        size <= old(stream).rest().len() ==> payload_kind(frame_code(frame_id.0@)) is Some
            ==> !encoding_unsupported(old(stream).rest().take(size as int)),
    ensures
        final(stream).data() == old(stream).data(),
        size > old(stream).rest().len() ==> (r matches Err(e)
            && e matches ID3v2ParsePayloadError::Read(k) && k == BiterError::EOF && final(
            stream).pos() == old(stream).pos()),
        size <= old(stream).rest().len() ==> final(stream).pos() == old(stream).pos() + size && (
        r is Ok <==> payload_ok(frame_code(frame_id.0@), old(stream).rest().take(size as int))),
        r matches Ok(f) ==> payload_frame(
            f,
            frame_code(frame_id.0@),
            old(stream).rest().take(size as int),
        ),
        size <= old(stream).rest().len() ==> (r matches Err(e) ==> payload_error_matches(
            e,
            frame_id.0@,
            old(stream).rest().take(size as int),
        )),
{
    let mut buffer = vec![0u8; size];
    match stream.read_exact(&mut buffer) {
        Ok(()) => {},
        Err(e) => {
            return Err(ID3v2ParsePayloadError::Read(e));
        },
    }
    decode_payload(frame_id, &buffer)
}

/// The identifier code of the frame identifier of the four ASCII characters
/// `a`, `b`, `c`, `d`.
pub open spec fn id_code(a: char, b: char, c: char, d: char) -> u32 {
    frame_code(seq![a as u8, b as u8, c as u8, d as u8])
}

/// The known frames: the text information frames below, read as text, and
/// `TBPM` and `TYER`, read as numbers; each is decoded into the frame variant
/// named after it (`TPE1` into `LeadArtist`, `TIT2` into `Title`, ...).
pub proof fn law_known_frames(s: String, v: i64)
    ensures
        payload_kind(id_code('T', 'A', 'L', 'B')) == Some(PayloadKind::Text) && frame_kind_code(ID3v2Frame::Album(s)) == id_code('T', 'A', 'L', 'B'),
        payload_kind(id_code('T', 'B', 'P', 'M')) == Some(PayloadKind::Integer) && frame_kind_code(ID3v2Frame::BPM(v)) == id_code('T', 'B', 'P', 'M'),
        payload_kind(id_code('T', 'C', 'O', 'M')) == Some(PayloadKind::Text) && frame_kind_code(ID3v2Frame::Composer(s)) == id_code('T', 'C', 'O', 'M'),
        payload_kind(id_code('T', 'C', 'O', 'N')) == Some(PayloadKind::Text) && frame_kind_code(ID3v2Frame::ContentType(s)) == id_code('T', 'C', 'O', 'N'),
        payload_kind(id_code('T', 'C', 'O', 'P')) == Some(PayloadKind::Text) && frame_kind_code(ID3v2Frame::CopyrightNessage(s)) == id_code('T', 'C', 'O', 'P'),
        payload_kind(id_code('T', 'D', 'A', 'T')) == Some(PayloadKind::Text) && frame_kind_code(ID3v2Frame::Date(s)) == id_code('T', 'D', 'A', 'T'),
        payload_kind(id_code('T', 'D', 'L', 'Y')) == Some(PayloadKind::Text) && frame_kind_code(ID3v2Frame::PlaylistDelay(s)) == id_code('T', 'D', 'L', 'Y'),
        payload_kind(id_code('T', 'E', 'N', 'C')) == Some(PayloadKind::Text) && frame_kind_code(ID3v2Frame::EncodedBy(s)) == id_code('T', 'E', 'N', 'C'),
        payload_kind(id_code('T', 'E', 'X', 'T')) == Some(PayloadKind::Text) && frame_kind_code(ID3v2Frame::Lyricist(s)) == id_code('T', 'E', 'X', 'T'),
        payload_kind(id_code('T', 'F', 'L', 'T')) == Some(PayloadKind::Text) && frame_kind_code(ID3v2Frame::FileType(s)) == id_code('T', 'F', 'L', 'T'),
        payload_kind(id_code('T', 'I', 'M', 'E')) == Some(PayloadKind::Text) && frame_kind_code(ID3v2Frame::Time(s)) == id_code('T', 'I', 'M', 'E'),
        payload_kind(id_code('T', 'I', 'T', '1')) == Some(PayloadKind::Text) && frame_kind_code(ID3v2Frame::ContentGroupDescription(s)) == id_code('T', 'I', 'T', '1'),
        payload_kind(id_code('T', 'I', 'T', '2')) == Some(PayloadKind::Text) && frame_kind_code(ID3v2Frame::Title(s)) == id_code('T', 'I', 'T', '2'),
        payload_kind(id_code('T', 'I', 'T', '3')) == Some(PayloadKind::Text) && frame_kind_code(ID3v2Frame::Subtitle(s)) == id_code('T', 'I', 'T', '3'),
        payload_kind(id_code('T', 'K', 'E', 'Y')) == Some(PayloadKind::Text) && frame_kind_code(ID3v2Frame::InitialKey(s)) == id_code('T', 'K', 'E', 'Y'),
        payload_kind(id_code('T', 'L', 'A', 'N')) == Some(PayloadKind::Text) && frame_kind_code(ID3v2Frame::Language(s)) == id_code('T', 'L', 'A', 'N'),
        payload_kind(id_code('T', 'L', 'E', 'N')) == Some(PayloadKind::Text) && frame_kind_code(ID3v2Frame::Length(s)) == id_code('T', 'L', 'E', 'N'),
        payload_kind(id_code('T', 'M', 'E', 'D')) == Some(PayloadKind::Text) && frame_kind_code(ID3v2Frame::MediaType(s)) == id_code('T', 'M', 'E', 'D'),
        payload_kind(id_code('T', 'O', 'A', 'L')) == Some(PayloadKind::Text) && frame_kind_code(ID3v2Frame::OriginalAlbum(s)) == id_code('T', 'O', 'A', 'L'),
        payload_kind(id_code('T', 'O', 'F', 'N')) == Some(PayloadKind::Text) && frame_kind_code(ID3v2Frame::OriginalFilename(s)) == id_code('T', 'O', 'F', 'N'),
        payload_kind(id_code('T', 'O', 'L', 'Y')) == Some(PayloadKind::Text) && frame_kind_code(ID3v2Frame::OriginalLyricist(s)) == id_code('T', 'O', 'L', 'Y'),
        payload_kind(id_code('T', 'O', 'P', 'E')) == Some(PayloadKind::Text) && frame_kind_code(ID3v2Frame::OriginalArtist(s)) == id_code('T', 'O', 'P', 'E'),
        payload_kind(id_code('T', 'O', 'R', 'Y')) == Some(PayloadKind::Text) && frame_kind_code(ID3v2Frame::OriginalReleaseYear(s)) == id_code('T', 'O', 'R', 'Y'),
        payload_kind(id_code('T', 'O', 'W', 'N')) == Some(PayloadKind::Text) && frame_kind_code(ID3v2Frame::Owner(s)) == id_code('T', 'O', 'W', 'N'),
        payload_kind(id_code('T', 'P', 'E', '1')) == Some(PayloadKind::Text) && frame_kind_code(ID3v2Frame::LeadArtist(s)) == id_code('T', 'P', 'E', '1'),
        payload_kind(id_code('T', 'P', 'E', '2')) == Some(PayloadKind::Text) && frame_kind_code(ID3v2Frame::Band(s)) == id_code('T', 'P', 'E', '2'),
        payload_kind(id_code('T', 'P', 'E', '3')) == Some(PayloadKind::Text) && frame_kind_code(ID3v2Frame::Conductor(s)) == id_code('T', 'P', 'E', '3'),
        payload_kind(id_code('T', 'P', 'E', '4')) == Some(PayloadKind::Text) && frame_kind_code(ID3v2Frame::Remixed(s)) == id_code('T', 'P', 'E', '4'),
        payload_kind(id_code('T', 'P', 'O', 'S')) == Some(PayloadKind::Text) && frame_kind_code(ID3v2Frame::PartOfSet(s)) == id_code('T', 'P', 'O', 'S'),
        payload_kind(id_code('T', 'P', 'U', 'B')) == Some(PayloadKind::Text) && frame_kind_code(ID3v2Frame::Publisher(s)) == id_code('T', 'P', 'U', 'B'),
        payload_kind(id_code('T', 'R', 'C', 'K')) == Some(PayloadKind::Text) && frame_kind_code(ID3v2Frame::TrackNumberPosition(s)) == id_code('T', 'R', 'C', 'K'),
        payload_kind(id_code('T', 'R', 'D', 'A')) == Some(PayloadKind::Text) && frame_kind_code(ID3v2Frame::RecordingDates(s)) == id_code('T', 'R', 'D', 'A'),
        payload_kind(id_code('T', 'R', 'S', 'N')) == Some(PayloadKind::Text) && frame_kind_code(ID3v2Frame::TRSN(s)) == id_code('T', 'R', 'S', 'N'),
        payload_kind(id_code('T', 'R', 'S', 'O')) == Some(PayloadKind::Text) && frame_kind_code(ID3v2Frame::TRSO(s)) == id_code('T', 'R', 'S', 'O'),
        payload_kind(id_code('T', 'S', 'I', 'Z')) == Some(PayloadKind::Text) && frame_kind_code(ID3v2Frame::Size(s)) == id_code('T', 'S', 'I', 'Z'),
        payload_kind(id_code('T', 'S', 'R', 'C')) == Some(PayloadKind::Text) && frame_kind_code(ID3v2Frame::ISRC(s)) == id_code('T', 'S', 'R', 'C'),
        payload_kind(id_code('T', 'S', 'S', 'E')) == Some(PayloadKind::Text) && frame_kind_code(ID3v2Frame::Software(s)) == id_code('T', 'S', 'S', 'E'),
        payload_kind(id_code('T', 'Y', 'E', 'R')) == Some(PayloadKind::Integer) && frame_kind_code(ID3v2Frame::Year(v)) == id_code('T', 'Y', 'E', 'R'),
{
}

/// No other frame identifier is known: its frame is refused.
pub proof fn law_unknown_frames(code: u32)
    ensures
        payload_kind(code) is Some ==> (code == id_code('T', 'A', 'L', 'B') || code == id_code('T', 'B', 'P', 'M') || code == id_code('T', 'C', 'O', 'M') || code == id_code('T', 'C', 'O', 'N') || code == id_code('T', 'C', 'O', 'P') || code == id_code('T', 'D', 'A', 'T') || code == id_code('T', 'D', 'L', 'Y') || code == id_code('T', 'E', 'N', 'C') || code == id_code('T', 'E', 'X', 'T') || code == id_code('T', 'F', 'L', 'T') || code == id_code('T', 'I', 'M', 'E') || code == id_code('T', 'I', 'T', '1') || code == id_code('T', 'I', 'T', '2') || code == id_code('T', 'I', 'T', '3') || code == id_code('T', 'K', 'E', 'Y') || code == id_code('T', 'L', 'A', 'N') || code == id_code('T', 'L', 'E', 'N') || code == id_code('T', 'M', 'E', 'D') || code == id_code('T', 'O', 'A', 'L') || code == id_code('T', 'O', 'F', 'N') || code == id_code('T', 'O', 'L', 'Y') || code == id_code('T', 'O', 'P', 'E') || code == id_code('T', 'O', 'R', 'Y') || code == id_code('T', 'O', 'W', 'N') || code == id_code('T', 'P', 'E', '1') || code == id_code('T', 'P', 'E', '2') || code == id_code('T', 'P', 'E', '3') || code == id_code('T', 'P', 'E', '4') || code == id_code('T', 'P', 'O', 'S') || code == id_code('T', 'P', 'U', 'B') || code == id_code('T', 'R', 'C', 'K') || code == id_code('T', 'R', 'D', 'A') || code == id_code('T', 'R', 'S', 'N') || code == id_code('T', 'R', 'S', 'O') || code == id_code('T', 'S', 'I', 'Z') || code == id_code('T', 'S', 'R', 'C') || code == id_code('T', 'S', 'S', 'E') || code == id_code('T', 'Y', 'E', 'R')),
{
}

} // verus!
