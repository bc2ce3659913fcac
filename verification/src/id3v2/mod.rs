//! ID3v2 tags in front of the audio data.
pub mod frame;
pub mod header;
pub mod payload;
pub mod types;

use crate::bite::BiterError;
use crate::id3v2::frame::{
    be_u16_at, frame_error_matches, id3v2_frame_check, parse_frame, FrameCheck,
    ID3v2ParseFrameError,
};
use crate::id3v2::header::{
    be_u32_at, header_error_matches, id3v2_header_check, parse_header, HeaderCheck,
    ID3v2ParseHeaderError,
};
use crate::id3v2::payload::{
    decode_payload, encoding_unsupported, frame_code, frame_id_code, kind_of, parse_payload,
    payload_error_matches, payload_frame, payload_kind, payload_ok, ID3v2Frame,
    ID3v2ParsePayloadError,
};
use crate::id3v2::types::{syncsafe_value, ID3v2FrameFlags};
use crate::reader::ByteReader;
use vstd::prelude::*;

verus! {

/// Why the ID3v2 tag could not be read.
#[derive(Debug)]
pub enum ID3v2Error {
    /// The stream could not be read.
    Read(BiterError),
    /// The tag header was refused.
    ParseHeader(ID3v2ParseHeaderError),
    /// A frame header was refused.
    ParseFrame(ID3v2ParseFrameError),
    /// A frame payload was refused.
    ParsePayload(ID3v2ParsePayloadError),
}

/// One frame of the tag.
#[derive(Debug)]
pub struct ID3v2Tag {
    pub flags: ID3v2FrameFlags,
    pub frame: ID3v2Frame,
}

/// A frame met while walking the tag: its flag bits, identifier code and payload bytes.
pub type FrameRecord = (u16, u32, Seq<u8>);

/// The outcome of walking the frames of a tag.
pub enum FrameWalk {
    /// Every frame was read; the walk stopped at byte `end`.
    Done { frames: Seq<FrameRecord>, end: nat },
    /// A frame header or payload was refused, or the data ended.
    Fails,
    /// A text payload whose encoding has no decoder was met.
    Stuck,
}

/// The frames read from byte `pos` of `data` for as long as the position
/// stays below `end`.
#[verifier::opaque]
pub open spec fn frames_walk(data: Seq<u8>, pos: nat, end: nat) -> FrameWalk
    decreases (if pos < end {
        end - pos
    } else {
        0
    }),
{
    if pos >= end {
        FrameWalk::Done { frames: Seq::empty(), end: pos }
    } else {
        let rest = if pos < data.len() {
            data.skip(pos as int)
        } else {
            Seq::empty()
        };
        let b = rest.take(10);
        let size = be_u32_at(b, 4) as nat;
        let payload = rest.subrange(10, 10 + size as int);
        let code = frame_code(b.take(4));
        if rest.len() < 10 || id3v2_frame_check(b) != FrameCheck::Valid || size > rest.len()
            - 10 {
            FrameWalk::Fails
        } else if payload_kind(code) is Some && encoding_unsupported(payload) {
            FrameWalk::Stuck
        } else if !payload_ok(code, payload) {
            FrameWalk::Fails
        } else {
            prepend_frames(seq![(be_u16_at(b, 8), code, payload)], frames_walk(data, pos + 10 + size, end))
        }
    }
}

/// The walk `w` with the frames `recs` read before it.
pub open spec fn prepend_frames(recs: Seq<FrameRecord>, w: FrameWalk) -> FrameWalk {
    match w {
        FrameWalk::Done { frames, end } => FrameWalk::Done { frames: recs + frames, end },
        other => other,
    }
}

/// `t` is the tag entry read for the frame `rec`.
pub open spec fn tag_matches(t: ID3v2Tag, rec: FrameRecord) -> bool {
    t.flags.value() == rec.0 && payload_frame(t.frame, rec.1, rec.2)
}

/// The position just past the tag whose header starts at the read position
/// of `stream`: the header's ten bytes, then as many as its size gives.
pub open spec fn tag_end(stream: ByteReader) -> nat {
    stream.pos() + 10 + syncsafe_value(be_u32_at(stream.rest().take(10), 6))
}

/// The walk over the frames of the tag whose header starts at the read
/// position of `stream`: from the end of the header to the end of the tag.
pub open spec fn tag_walk(stream: ByteReader) -> FrameWalk {
    frames_walk(
        stream.data(),
        stream.pos() + 10,
        tag_end(stream),
    )
}

/// Whether `stream` starts with a tag header that is accepted.
pub open spec fn tag_header_ok(stream: ByteReader) -> bool {
    stream.rest().len() >= 10 && id3v2_header_check(stream.rest().take(10)) == HeaderCheck::Valid
}

/// The bytes of `data` from `pos` on.
pub open spec fn bytes_from(data: Seq<u8>, pos: nat) -> Seq<u8> {
    if pos < data.len() {
        data.skip(pos as int)
    } else {
        Seq::empty()
    }
}

/// The ten frame header bytes at `pos`.
pub open spec fn frame_header_at(data: Seq<u8>, pos: nat) -> Seq<u8> {
    bytes_from(data, pos).take(10)
}

/// The payload size of the frame at `pos`.
pub open spec fn frame_size_at(data: Seq<u8>, pos: nat) -> nat {
    be_u32_at(frame_header_at(data, pos), 4) as nat
}

/// The payload bytes of the frame at `pos`.
pub open spec fn frame_payload_at(data: Seq<u8>, pos: nat) -> Seq<u8> {
    bytes_from(data, pos).subrange(10, 10 + frame_size_at(data, pos) as int)
}

/// The record of the frame at `pos`.
pub open spec fn frame_record_at(data: Seq<u8>, pos: nat) -> FrameRecord {
    (
        be_u16_at(frame_header_at(data, pos), 8),
        frame_code(frame_header_at(data, pos).take(4)),
        frame_payload_at(data, pos),
    )
}

/// Whether the frame header at `pos` is refused or the data ends before its payload does.
pub open spec fn frame_header_fails_at(data: Seq<u8>, pos: nat) -> bool {
    bytes_from(data, pos).len() < 10 || id3v2_frame_check(frame_header_at(data, pos))
        != FrameCheck::Valid || frame_size_at(data, pos) > bytes_from(data, pos).len() - 10
}

/// `e` is the error met first when the frames are read from byte `pos` of
/// `data` for as long as the position stays below `end`: the refusal of a
/// frame header (or the end of the data inside it), the end of the data
/// inside a payload, or the refusal of a payload.
#[verifier::opaque]
pub open spec fn walk_error_matches(e: ID3v2Error, data: Seq<u8>, pos: nat, end: nat) -> bool
    decreases (if pos < end {
        end - pos
    } else {
        0
    }),
{
    if pos >= end {
        false
    } else {
        let rest = bytes_from(data, pos);
        let b = rest.take(10);
        let size = be_u32_at(b, 4) as nat;
        let payload = rest.subrange(10, 10 + size as int);
        let code = frame_code(b.take(4));
        if rest.len() < 10 || id3v2_frame_check(b) != FrameCheck::Valid {
            e matches ID3v2Error::ParseFrame(f) && frame_error_matches(f, rest)
        } else if size > rest.len() - 10 {
            e matches ID3v2Error::ParsePayload(p) && p matches ID3v2ParsePayloadError::Read(k) && k
                == BiterError::EOF
        } else if payload_kind(code) is Some && encoding_unsupported(payload) {
            false
        } else if !payload_ok(code, payload) {
            e matches ID3v2Error::ParsePayload(p) && payload_error_matches(p, b.take(4), payload)
        } else {
            walk_error_matches(e, data, pos + 10 + size, end)
        }
    }
}

/// The read position at which walking the frames from byte `pos` of `data`
/// stops with an error: before a frame header that the data cuts short, after
/// a refused frame header or one whose payload the data cuts short, or after
/// a refused payload.
#[verifier::opaque]
pub open spec fn walk_stop(data: Seq<u8>, pos: nat, end: nat) -> nat
    decreases (if pos < end {
        end - pos
    } else {
        0
    }),
{
    if pos >= end {
        pos
    } else {
        let rest = bytes_from(data, pos);
        let b = rest.take(10);
        let size = be_u32_at(b, 4) as nat;
        let payload = rest.subrange(10, 10 + size as int);
        let code = frame_code(b.take(4));
        if rest.len() < 10 {
            pos
        } else if id3v2_frame_check(b) != FrameCheck::Valid || size > rest.len() - 10 {
            pos + 10
        } else if !payload_ok(code, payload) {
            pos + 10 + size
        } else {
            walk_stop(data, pos + 10 + size, end)
        }
    }
}

/// The read position at which reading the tag at the read position of
/// `stream` stops with an error.
pub open spec fn tag_stop(stream: ByteReader) -> nat {
    if stream.rest().len() < 10 {
        stream.pos()
    } else if !tag_header_ok(stream) {
        stream.pos() + 10
    } else {
        walk_stop(
            stream.data(),
            stream.pos() + 10,
            tag_end(stream),
        )
    }
}

/// `e` is the error reported for the tag whose header starts at the read
/// position of `stream`: a refused header, or the first refused frame.
pub open spec fn tag_error_matches(e: ID3v2Error, stream: ByteReader) -> bool {
    if tag_header_ok(stream) {
        walk_error_matches(
            e,
            stream.data(),
            stream.pos() + 10,
            tag_end(stream),
        )
    } else {
        e matches ID3v2Error::ParseHeader(h) && header_error_matches(h, stream.rest())
    }
}

/// A frame that is read in full leaves the first error of the walk to the frames after it.
proof fn lemma_walk_error_skip(e: ID3v2Error, data: Seq<u8>, pos: nat, end: nat)
    requires
        pos < end,
        !frame_header_fails_at(data, pos),
        !(payload_kind(frame_record_at(data, pos).1) is Some && encoding_unsupported(
            frame_record_at(data, pos).2,
        )),
        payload_ok(frame_record_at(data, pos).1, frame_record_at(data, pos).2),
    ensures
        walk_error_matches(e, data, pos, end) == walk_error_matches(
            e,
            data,
            pos + 10 + frame_size_at(data, pos),
            end,
        ),
{
    reveal(walk_error_matches);
}

/// A frame that is read in full leaves the stop of the walk to the frames after it.
proof fn lemma_walk_stop_skip(data: Seq<u8>, pos: nat, end: nat)
    requires
        pos < end,
        !frame_header_fails_at(data, pos),
        payload_ok(frame_record_at(data, pos).1, frame_record_at(data, pos).2),
    ensures
        walk_stop(data, pos, end) == walk_stop(data, pos + 10 + frame_size_at(data, pos), end),
{
    reveal(walk_stop);
}

/// The error of the walk at a frame that is refused.
proof fn lemma_walk_error_here(e: ID3v2Error, data: Seq<u8>, pos: nat, end: nat)
    requires
        pos < end,
    ensures
        ({
            let rest = bytes_from(data, pos);
            let b = rest.take(10);
            let rec = frame_record_at(data, pos);
            &&& (rest.len() < 10 || id3v2_frame_check(b) != FrameCheck::Valid) ==> (
            walk_error_matches(e, data, pos, end) <==> (e matches ID3v2Error::ParseFrame(f)
                && frame_error_matches(f, rest)))
            &&& (rest.len() >= 10 && id3v2_frame_check(b) == FrameCheck::Valid
                && frame_size_at(data, pos) > rest.len() - 10) ==> (walk_error_matches(
                e,
                data,
                pos,
                end,
            ) <==> (e matches ID3v2Error::ParsePayload(p) && p matches ID3v2ParsePayloadError::Read(
                k,
            ) && k == BiterError::EOF))
            &&& (!frame_header_fails_at(data, pos) && !(payload_kind(rec.1) is Some
                && encoding_unsupported(rec.2)) && !payload_ok(rec.1, rec.2)) ==> (
            walk_error_matches(e, data, pos, end) <==> (e matches ID3v2Error::ParsePayload(p)
                && payload_error_matches(p, b.take(4), rec.2)))
            &&& rest.len() < 10 ==> walk_stop(data, pos, end) == pos
            &&& (rest.len() >= 10 && (id3v2_frame_check(b) != FrameCheck::Valid || frame_size_at(
                data,
                pos,
            ) > rest.len() - 10)) ==> walk_stop(data, pos, end) == pos + 10
            &&& (!frame_header_fails_at(data, pos) && !payload_ok(rec.1, rec.2)) ==> walk_stop(
                data,
                pos,
                end,
            ) == pos + 10 + frame_size_at(data, pos)
        }),
{
    reveal(walk_error_matches);
    reveal(walk_stop);
}

/// One step of the walk below `end`.
proof fn lemma_walk_step(data: Seq<u8>, pos: nat, end: nat)
    requires
        pos < end,
    ensures
        ({
            let rec = frame_record_at(data, pos);
            if frame_header_fails_at(data, pos) {
                frames_walk(data, pos, end) == FrameWalk::Fails
            } else if payload_kind(rec.1) is Some && encoding_unsupported(rec.2) {
                frames_walk(data, pos, end) == FrameWalk::Stuck
            } else if !payload_ok(rec.1, rec.2) {
                frames_walk(data, pos, end) == FrameWalk::Fails
            } else {
                frames_walk(data, pos, end) == prepend_frames(
                    seq![rec],
                    frames_walk(data, pos + 10 + frame_size_at(data, pos), end),
                )
            }
        }),
{
    reveal(frames_walk);
}

/// The walk from `end` on is over at once.
proof fn lemma_walk_end(data: Seq<u8>, pos: nat, end: nat)
    requires
        pos >= end,
    ensures
        frames_walk(data, pos, end) == (FrameWalk::Done { frames: Seq::empty(), end: pos }),
{
    reveal(frames_walk);
}

/// Reads one frame of the tag: its header, then its payload.
fn parse_tag_frame(stream: &mut ByteReader, Ghost(end): Ghost<nat>) -> (r: Result<
    ID3v2Tag,
    ID3v2Error,
>)
    requires
        old(stream).pos() < end,
        !(frames_walk(old(stream).data(), old(stream).pos(), end) is Stuck),
    ensures
        final(stream).data() == old(stream).data(),
        r is Err ==> frames_walk(old(stream).data(), old(stream).pos(), end) is Fails,
        r matches Err(e) ==> walk_error_matches(e, old(stream).data(), old(stream).pos(), end),
        r is Err ==> final(stream).pos() == walk_stop(old(stream).data(), old(stream).pos(), end),
        r matches Ok(t) ==> ({
            let data = old(stream).data();
            let pos = old(stream).pos();
            &&& final(stream).pos() == pos + 10 + frame_size_at(data, pos)
            &&& final(stream).pos() <= data.len()
            &&& tag_matches(t, frame_record_at(data, pos))
            &&& !frame_header_fails_at(data, pos)
            &&& !(payload_kind(frame_record_at(data, pos).1) is Some && encoding_unsupported(
                frame_record_at(data, pos).2,
            ))
            &&& payload_ok(frame_record_at(data, pos).1, frame_record_at(data, pos).2)
            &&& frames_walk(data, pos, end) == prepend_frames(
                seq![frame_record_at(data, pos)],
                frames_walk(data, final(stream).pos(), end),
            )
        }),
{
    let ghost data = old(stream).data();
    let ghost pos = old(stream).pos();
    let ghost rest = old(stream).rest();
    let ghost rec = frame_record_at(data, pos);
    proof {
        lemma_walk_step(data, pos, end);
        assert(rest == bytes_from(data, pos));
    }
    let frame = match parse_frame(stream) {
        Ok(f) => f,
        Err(e) => {
            proof {
                lemma_walk_error_here(ID3v2Error::ParseFrame(e), data, pos, end);
            }
            return Err(ID3v2Error::ParseFrame(e));
        },
    };
    proof {
        assert(frame.frame_id.0@ == frame_header_at(data, pos).take(4));
        assert(stream.rest() =~= rest.skip(10));
        if frame_size_at(data, pos) <= rest.len() - 10 {
            assert(stream.rest().take(frame_size_at(data, pos) as int) =~= rec.2);
        }
    }
    let payload = match parse_payload(stream, frame.frame_id, frame.size as usize) {
        Ok(p) => p,
        Err(e) => {
            proof {
                lemma_walk_error_here(ID3v2Error::ParsePayload(e), data, pos, end);
            }
            return Err(ID3v2Error::ParsePayload(e));
        },
    };
    Ok(ID3v2Tag { flags: frame.flags, frame: payload })
}

proof fn lemma_prepend_prepend(a: Seq<FrameRecord>, b: Seq<FrameRecord>, w: FrameWalk)
    ensures
        prepend_frames(a, prepend_frames(b, w)) == prepend_frames(a + b, w),
{
    match w {
        FrameWalk::Done { frames, end } => {
            assert(a + (b + frames) =~= (a + b) + frames);
        },
        _ => {},
    }
}

/// Reads the ID3v2 tag at the read position: its header, then frames for as
/// long as the stream position is below the end of the tag (the header's end
/// plus the tag size), and leaves the stream at the end of the tag.
#[verifier::rlimit(60)]
pub fn parse_id3v2(stream: &mut ByteReader) -> (r: Result<Vec<ID3v2Tag>, ID3v2Error>)
    requires
        old(stream).data().len() <= isize::MAX,
        tag_header_ok(*old(stream)) ==> !(tag_walk(*old(stream)) is Stuck),
    ensures
        final(stream).data() == old(stream).data(),
        r is Ok <==> tag_header_ok(*old(stream)) && tag_walk(*old(stream)) is Done,
        !tag_header_ok(*old(stream)) ==> (r matches Err(e) && e matches ID3v2Error::ParseHeader(_)),
        r matches Err(e) ==> tag_error_matches(e, *old(stream)),
        r is Err ==> final(stream).pos() == tag_stop(*old(stream)),
        r matches Ok(tags) ==> (tag_walk(*old(stream)) matches FrameWalk::Done { frames, end }
            && tags@.len() == frames.len() && (forall|i: int|
            0 <= i < frames.len() ==> #[trigger] tag_matches(tags@[i], frames[i]))
            && final(stream).pos() == tag_end(*old(stream))),
{
    let ghost data = old(stream).data();
    let ghost p0 = old(stream).pos() + 10;
    proof {
        old(stream).lemma_len_bound();
    }
    let header = match parse_header(stream) {
        Ok(h) => h,
        Err(e) => {
            return Err(ID3v2Error::ParseHeader(e));
        },
    };
    let end_pos = stream.position() + header.size.as_u32() as u64;
    let ghost end = end_pos as nat;
    let mut tags: Vec<ID3v2Tag> = Vec::new();
    let ghost mut recs: Seq<FrameRecord> = Seq::empty();
    proof {
        assert(prepend_frames(recs, frames_walk(data, p0, end)) == frames_walk(data, p0, end)) by {
            match frames_walk(data, p0, end) {
                FrameWalk::Done { frames, end } => {
                    assert(recs + frames =~= frames);
                },
                _ => {},
            }
        }
    }
    while stream.position() < end_pos
        invariant
            stream.data() == data,
            data == old(stream).data(),
            tag_header_ok(*old(stream)),
            tag_walk(*old(stream)) == frames_walk(data, p0, end),
            stream.pos() <= data.len(),
            data.len() <= isize::MAX,
            frames_walk(data, p0, end) == prepend_frames(recs, frames_walk(data, stream.pos(), end)),
            !(frames_walk(data, p0, end) is Stuck),
            end == end_pos,
            tags@.len() == recs.len(),
            forall|i: int| 0 <= i < recs.len() ==> #[trigger] tag_matches(tags@[i], recs[i]),
            forall|e: ID3v2Error| #[trigger]
                walk_error_matches(e, data, stream.pos(), end) ==> tag_error_matches(
                    e,
                    *old(stream),
                ),
            walk_stop(data, p0, end) == walk_stop(data, stream.pos(), end),
            tag_stop(*old(stream)) == walk_stop(data, p0, end),
        decreases data.len() - stream.pos(),
    {
        let ghost rec = frame_record_at(data, stream.pos());
        let ghost pos = stream.pos();
        let tag = match parse_tag_frame(stream, Ghost(end)) {
            Ok(t) => t,
            Err(e) => {
                return Err(e);
            },
        };
        proof {
            assert forall|e: ID3v2Error| #[trigger]
                walk_error_matches(e, data, stream.pos(), end) implies tag_error_matches(
                e,
                *old(stream),
            ) by {
                lemma_walk_error_skip(e, data, pos, end);
            }
            lemma_walk_stop_skip(data, pos, end);
            lemma_prepend_prepend(recs, seq![rec], frames_walk(data, stream.pos(), end));
            recs = recs + seq![rec];
        }
        let ghost tags_before = tags@;
        tags.push(tag);
        proof {
            assert forall|i: int| 0 <= i < recs.len() implies #[trigger] tag_matches(
                tags@[i],
                recs[i],
            ) by {
                if i < recs.len() - 1 {
                    assert(tags@[i] == tags_before[i]);
                    assert(recs[i] == (recs.drop_last())[i]);
                }
            }
        }
    }
    proof {
        lemma_walk_end(data, stream.pos(), end);
        assert(recs + Seq::<FrameRecord>::empty() =~= recs);
    }
    stream.seek(end_pos);
    Ok(tags)
}


/// Whether the tag at the read position of `stream` has a text frame in an
/// encoding that has no decoder (ISO-8859-1 or UTF-16) before any frame that
/// is refused: reading such a tag cannot be completed.
pub fn tag_needs_unsupported_encoding(stream: &ByteReader) -> (r: bool)
    requires
        stream.data().len() <= isize::MAX,
    ensures
        r == (tag_header_ok(*stream) && tag_walk(*stream) is Stuck),
{
    let mut s = stream.duplicate();
    let ghost data = s.data();
    let ghost p0 = s.pos() + 10;
    proof {
        s.lemma_len_bound();
    }
    let header = match parse_header(&mut s) {
        Ok(h) => h,
        Err(_) => {
            return false;
        },
    };
    let end_pos = s.position() + header.size.as_u32() as u64;
    let ghost end = end_pos as nat;
    while s.position() < end_pos
        invariant
            s.data() == data,
            data == stream.data(),
            data.len() <= isize::MAX,
            tag_header_ok(*stream),
            tag_walk(*stream) == frames_walk(data, p0, end),
            end == end_pos,
            (frames_walk(data, p0, end) is Stuck) == (frames_walk(data, s.pos(), end) is Stuck),
        decreases data.len() - s.pos(),
    {
        let ghost pos = s.pos();
        let ghost rest = s.rest();
        let ghost rec = frame_record_at(data, pos);
        proof {
            lemma_walk_step(data, pos, end);
            assert(rest == bytes_from(data, pos));
        }
        let frame = match parse_frame(&mut s) {
            Ok(f) => f,
            Err(_) => {
                return false;
            },
        };
        let size = frame.size as usize;
        proof {
            assert(frame.frame_id.0@ == frame_header_at(data, pos).take(4));
            assert(s.rest() =~= rest.skip(10));
        }
        let mut payload = vec![0u8; size];
        match s.read_exact(&mut payload) {
            Ok(()) => {},
            Err(_) => {
                return false;
            },
        }
        proof {
            assert(payload@ =~= rec.2);
        }
        let code = frame_id_code(&frame.frame_id);
        if kind_of(code).is_some() && (size == 0 || payload[0] <= 2) {
            return true;
        }
        match decode_payload(frame.frame_id, &payload) {
            Ok(_) => {},
            Err(_) => {
                return false;
            },
        }
    }
    proof {
        lemma_walk_end(data, s.pos(), end);
    }
    false
}

} // verus!
