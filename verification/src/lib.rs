//! An MP3 decoder in progress: ID3v2 tags, MPEG audio frame headers and
//! MPEG-1 Layer III side information and main data, read bit by bit.
use crate::bite::{Biter, BiterError, DEFAULT_BUF_SIZE};
use crate::bits::{bytes_bits, lemma_bytes_bits_injective, lemma_bytes_bits_len, lemma_bytes_bits_skip};
use crate::id3v2::{
    bytes_from, parse_id3v2, tag_end, tag_error_matches, tag_header_ok, tag_matches, tag_walk, FrameWalk,
    ID3v2Error, ID3v2Tag,
};
use crate::mpeg::header::{
    header_error, header_len, header_matches, header_of, lemma_header_ranges, lemma_header_unique,
    mpeg_header_fault, parse_header, HeaderFault, MPEGVersion, MpegParseHeaderError,
};
use crate::mpeg1::layer3::huffman::{HuffmanTables, TableSet};
use crate::mpeg1::layer3::main_data::{frequency_index, tables_usable};
use crate::mpeg1::layer3::reservoir::keep_last;
use crate::mpeg1::layer3::side_info::{l3_nch, l3_side_info_len};
use crate::mpeg1::layer3::{
    frame_error, lemma_decoded_frame_fits, main_data_size, DecodedFrame, MPEG1Layer3DecodeError,
    Mpeg1Layer3Decoder,
};
use crate::mpeg1::{mpeg1_decoder_new, MPEG1DecoderNewError};
use crate::reader::ByteReader;
use vstd::prelude::*;

pub mod bite;
pub mod bits;
pub mod id3v2;
pub mod mpeg;
pub mod mpeg1;
pub mod reader;
pub mod sample_type;
pub mod text;

verus! {

/// Why a stream could not be decoded.
#[derive(Debug)]
pub enum FuelError {
    /// The ID3v2 tag at the start could not be read.
    ID3v2(ID3v2Error),
    /// A frame header was refused.
    ParseHeader(MpegParseHeaderError),
    /// The stream is MPEG-2 or MPEG-2.5, which is not decoded.
    UnsupportedVersion(MPEGVersion),
    /// No MPEG-1 decoder could be made for the stream.
    FailedToCreateMPEG1Decoder(MPEG1DecoderNewError),
    /// A frame could not be decoded.
    FrameDecodeError(MPEG1Layer3DecodeError),
}

/// A decoded stream: its ID3v2 tag frames and its audio frames.
#[derive(Debug)]
pub struct Audio {
    pub tags: Vec<ID3v2Tag>,
    pub frames: Vec<DecodedFrame>,
}

/// One frame decoded from the bytes `left` of the stream, the reservoir
/// holding `contents`; `made` tells whether the decoder was made by an
/// earlier frame. `Ok(None)` at the end of the stream; otherwise the frame
/// and the bytes left and the reservoir's contents after it.
#[verifier::opaque]
pub open spec fn frame_step(
    left: Seq<u8>,
    contents: Seq<u8>,
    tables: TableSet,
    made: bool,
) -> Result<Option<(DecodedFrame, Seq<u8>, Seq<u8>)>, FuelError> {
    let rem = bytes_bits(left);
    match mpeg_header_fault(rem) {
        Some(HeaderFault::Truncated) => Ok(None),
        Some(_) => Err(FuelError::ParseHeader(header_error(rem))),
        None => {
            let h = header_of(rem);
            if !made && !(h.version is MPEG1) {
                Err(FuelError::UnsupportedVersion(h.version))
            } else if !made && !(h.layer is LayerIII) {
                Err(FuelError::FailedToCreateMPEG1Decoder(MPEG1DecoderNewError::UnsupportedLayer(h.layer)))
            } else {
                let left1 = left.skip((header_len(rem) / 8) as int);
                let la = left1.skip((l3_side_info_len(l3_nch(h)) / 8) as int);
                match frame_error(bytes_bits(left1), h, contents, la, tables) {
                    Some(e) => Err(FuelError::FrameDecodeError(e)),
                    None => {
                        let n = main_data_size(h);
                        Ok(
                            Some(
                                (
                                    DecodedFrame { sample_rate: h.sampling_frequency, used: 0 },
                                    la.skip(n as int),
                                    keep_last(contents, la.take(n as int)),
                                ),
                            ),
                        )
                    },
                }
            }
        },
    }
}

/// A frame that is decoded takes at least its four header bytes from the bytes left.
pub proof fn lemma_frame_step_shrinks(
    left: Seq<u8>,
    contents: Seq<u8>,
    tables: TableSet,
    made: bool,
)
    ensures
        frame_step(left, contents, tables, made) matches Ok(Some((f, left2, c2))) ==> left2.len()
            + 4 <= left.len(),
{
    reveal(frame_step);
    let rem = bytes_bits(left);
    if frame_step(left, contents, tables, made) matches Ok(Some((f, left2, c2))) {
        let h = header_of(rem);
        let hl = header_len(rem);
        lemma_bytes_bits_len(left);
        assert(hl / 8 >= 4 && hl / 8 <= left.len());
        let left1 = left.skip((hl / 8) as int);
        let sl = l3_side_info_len(l3_nch(h));
        let la = left1.skip((sl / 8) as int);
        lemma_decoded_frame_fits(bytes_bits(left1), h, contents, la, tables);
        lemma_bytes_bits_len(left1);
        assert(sl % 8 == 0);
        assert(sl / 8 <= left1.len());
    }
}

/// The frames decoded from the state `left`, `contents`, `made` (see
/// `frame_step`): decoding ends at the end of the stream or at the first error.
pub open spec fn frames_from(
    left: Seq<u8>,
    contents: Seq<u8>,
    tables: TableSet,
    made: bool,
) -> Result<Seq<DecodedFrame>, FuelError>
    decreases left.len(),
{
    match frame_step(left, contents, tables, made) {
        Err(e) => Err(e),
        Ok(None) => Ok(Seq::empty()),
        Ok(Some((f, left2, contents2))) => {
            proof {
                lemma_frame_step_shrinks(left, contents, tables, made);
            }
            match frames_from(left2, contents2, tables, true) {
                Err(e) => Err(e),
                Ok(fs) => Ok(seq![f] + fs),
            }
        },
    }
}

/// The contents of the reservoir of `decoder`, empty without one.
pub open spec fn decoder_contents(decoder: Option<Mpeg1Layer3Decoder>) -> Seq<u8> {
    match decoder {
        Some(d) => d.reservoir_contents(),
        None => Seq::empty(),
    }
}

/// Reads the next frame header and decodes the frame, making the decoder
/// at the first frame; `Ok(None)` at the end of the stream.
fn next_frame(
    biter: &mut Biter<DEFAULT_BUF_SIZE>,
    decoder: Option<Mpeg1Layer3Decoder>,
    tables: &HuffmanTables,
) -> (r: Result<Option<(DecodedFrame, Mpeg1Layer3Decoder)>, FuelError>)
    requires
        old(biter).wf(),
        old(biter).bit_count() == 0,
        decoder matches Some(d) ==> d.wf(),
        tables_usable(tables@),
    ensures
        final(biter).wf(),
        ({
            let step = frame_step(
                old(biter).bytes_left(),
                decoder_contents(decoder),
                tables@,
                decoder is Some,
            );
            &&& step matches Err(e) ==> r matches Err(e2) && e2 == e
            &&& step is Ok ==> r is Ok
            &&& (step is Ok && r == Ok::<Option<(DecodedFrame, Mpeg1Layer3Decoder)>, FuelError>(None)) ==> step == Ok::<
                Option<(DecodedFrame, Seq<u8>, Seq<u8>)>,
                FuelError,
            >(None)
            &&& r matches Ok(Some((f, d))) ==> step matches Ok(Some((f2, left2, contents2)))
                && f == f2 && d.wf() && d.reservoir_contents() == contents2
                && final(biter).bytes_left() == left2 && final(biter).bit_count() == 0
        }),
{
    let ghost b = *old(biter);
    let ghost left = b.bytes_left();
    let ghost rem = b.remaining();
    proof {
        reveal(frame_step);
        b.lemma_reservoir_len();
        assert(b.reservoir() =~= Seq::<bool>::empty());
        assert(rem =~= bytes_bits(left));
    }
    let header = match parse_header(biter) {
        Ok(h) => h,
        Err(MpegParseHeaderError::BiterError(BiterError::EOF)) => {
            return Ok(None);
        },
        Err(e) => {
            return Err(FuelError::ParseHeader(e));
        },
    };
    let ghost hlen = header_len(rem);
    proof {
        lemma_header_unique(header, header_of(rem), rem);
        lemma_header_ranges(header, rem);
        Biter::<DEFAULT_BUF_SIZE>::lemma_whole_bytes_read(b, *biter, hlen);
    }
    let mut d = match decoder {
        Some(d) => d,
        None => match header.version {
            MPEGVersion::MPEG1 => match mpeg1_decoder_new(&header) {
                Ok(d) => d,
                Err(e) => {
                    return Err(FuelError::FailedToCreateMPEG1Decoder(e));
                },
            },
            MPEGVersion::MPEG2 => {
                return Err(FuelError::UnsupportedVersion(header.version));
            },
            MPEGVersion::MPEG25 => {
                return Err(FuelError::UnsupportedVersion(header.version));
            },
        },
    };
    match d.decode_samples(&header, biter, tables) {
        Ok(f) => Ok(Some((f, d))),
        Err(e) => Err(FuelError::FrameDecodeError(e)),
    }
}

/// The frames `done` followed by the outcome `r` of the frames after them.
pub open spec fn after_frames(done: Seq<DecodedFrame>, r: Result<Seq<DecodedFrame>, FuelError>) -> Result<
    Seq<DecodedFrame>,
    FuelError,
> {
    match r {
        Ok(fs) => Ok(done + fs),
        Err(e) => Err(e),
    }
}

/// Decodes a stream: its ID3v2 tag, then MPEG-1 Layer III frames until the
/// stream ends. `tables` are the Huffman
/// trees of the big-values tables, by `table_select` value.
#[verifier::rlimit(100)]
pub fn decode_stream(stream: ByteReader, tables: &HuffmanTables) -> (r: Result<
    Audio,
    FuelError,
>)
    requires
        stream.data().len() <= isize::MAX,
        tag_header_ok(stream) ==> !(tag_walk(stream) is Stuck),
        tables_usable(tables@),
    ensures
        !(tag_header_ok(stream) && tag_walk(stream) is Done) ==> (r matches Err(FuelError::ID3v2(e))
            && tag_error_matches(e, stream)),
        tag_header_ok(stream) ==> (tag_walk(stream) matches FrameWalk::Done { frames, end } ==> {
            let left = bytes_from(stream.data(), tag_end(stream));
            match frames_from(
                left,
                Seq::empty(),
                tables@,
                false,
            ) {
                Err(e) => r == Err::<Audio, FuelError>(e),
                Ok(fs) => r matches Ok(audio) && audio.frames@ == fs && audio.tags@.len()
                    == frames.len() && forall|i: int|
                    0 <= i < frames.len() ==> #[trigger] tag_matches(audio.tags@[i], frames[i]),
            }
        }),
{
    let mut input = stream;
    let tags = match parse_id3v2(&mut input) {
        Ok(t) => t,
        Err(e) => {
            return Err(FuelError::ID3v2(e));
        },
    };
    let ghost left0 = input.rest();
    proof {
        if let FrameWalk::Done { frames: fr, end } = tag_walk(stream) {
            assert(left0 =~= bytes_from(stream.data(), tag_end(stream)));
        }
    }
    let mut biter = Biter::<DEFAULT_BUF_SIZE>::new(input);
    let mut decoder: Option<Mpeg1Layer3Decoder> = None;
    let mut frames: Vec<DecodedFrame> = Vec::new();
    proof {
        assert(biter.bytes_left() =~= left0);
        assert(after_frames(
            frames@,
            frames_from(left0, Seq::empty(), tables@, false),
        ) =~~= frames_from(left0, Seq::empty(), tables@, false)) by {
            match frames_from(left0, Seq::empty(), tables@, false) {
                Ok(fs) => {
                    assert(frames@ + fs =~= fs);
                },
                Err(e) => {},
            }
        }
    }
    loop
        invariant_except_break
            biter.bit_count() == 0,
            decoder is Some <==> frames@.len() > 0,
            decoder matches Some(d) ==> d.wf(),
            frames_from(left0, Seq::empty(), tables@, false) == after_frames(
                frames@,
                frames_from(
                    biter.bytes_left(),
                    decoder_contents(decoder),
                    tables@,
                    decoder is Some,
                ),
            ),
        invariant
            biter.wf(),
            tables_usable(tables@),
            tag_header_ok(stream),
            tag_walk(stream) matches FrameWalk::Done { frames: fr, end } && tags@.len() == fr.len()
                && (forall|i: int| 0 <= i < fr.len() ==> #[trigger] tag_matches(tags@[i], fr[i]))
                && left0 == bytes_from(stream.data(), tag_end(stream)),
        ensures
            frames_from(left0, Seq::empty(), tables@, false) == Ok::<
                Seq<DecodedFrame>,
                FuelError,
            >(frames@),
        decreases biter.bytes_left().len(),
    {
        let ghost left = biter.bytes_left();
        let ghost made = decoder is Some;
        let ghost contents = decoder_contents(decoder);
        let step = next_frame(&mut biter, decoder, tables);
        match step {
            Ok(None) => {
                proof {
                    assert(frames@ + Seq::<DecodedFrame>::empty() =~= frames@);
                }
                break ;
            },
            Ok(Some((f, d))) => {
                let ghost before = frames@;
                let ghost st = frame_step(left, contents, tables@, made);
                frames.push(f);
                decoder = Some(d);
                proof {
                    lemma_frame_step_shrinks(left, contents, tables@, made);
                    let (_, left2, contents2) = st.unwrap().unwrap();
                    match frames_from(left2, contents2, tables@, true) {
                        Ok(fs) => {
                            assert(before + (seq![f] + fs) =~= frames@ + fs);
                        },
                        Err(e) => {},
                    }
                }
            },
            Err(e) => {
                proof {
                    assert(frame_step(left, contents, tables@, made) == Err::<
                        Option<(DecodedFrame, Seq<u8>, Seq<u8>)>,
                        FuelError,
                    >(e));
                    assert(frames_from(left, contents, tables@, made) == Err::<
                        Seq<DecodedFrame>,
                        FuelError,
                    >(e));
                    assert(frames_from(left0, Seq::empty(), tables@, false) == Err::<
                        Seq<DecodedFrame>,
                        FuelError,
                    >(e));
                }
                return Err(e);
            },
        }
    }
    Ok(Audio { tags, frames })
}

} // verus!
