//! MPEG-1 Layer III frames: side information, bit reservoir and main data.
use crate::bite::{Biter, BiterError, DEFAULT_BUF_SIZE};
use crate::bits::{bytes_bits, lemma_bytes_bits_injective, lemma_bytes_bits_len, lemma_bytes_bits_skip};
use crate::mpeg::header::{MPEGBitrate, MPEGHeader, MPEGMode};
use crate::mpeg::side_info::SideInfoOutcome;
use crate::reader::ByteReader;
use huffman::{HuffmanTables, TableSet};
use main_data::{
    decode_main_data, frequency_index, md_filled, md_fold, md_side_info_ok, tables_usable,
    DecodeMainDataError, MainData,
};
use reservoir::{keep_last, Reservoir, ReservoirError, RESERVOIR_BACKPTR_MAX, RESERVOIR_CAP};
use side_info::{
    lemma_l3_decoded_len,
    l3_nch, l3_outcome, l3_side_info_len, l3_side_info_matches, lemma_side_info_unique,
    parse_side_info, side_info_of, MPEGSideInfo, MpegParseSideInfoError,
};
use vstd::prelude::*;

pub mod huffman;
pub mod main_data;
pub mod reservoir;
pub mod side_info;

verus! {

/// Why a Layer III decoder could not be made. Making one cannot fail, so
/// no function hands this error out.
#[derive(Debug, Clone, Copy, PartialEq, Eq)]
pub enum MPEG1Layer3DecoderNewError {
    Unreachable,
}

/// Why a Layer III frame could not be decoded.
#[derive(Debug, Clone, Copy, PartialEq, Eq)]
pub enum MPEG1Layer3DecodeError {
    /// The side information could not be read.
    SideInfo(MpegParseSideInfoError),
    /// The frame uses the free bitrate, whose frame size is not known.
    UnsupportedFreeBitrate,
    /// The frame is too small to hold its header and side information.
    InvalidFrameSize,
    /// The bit reservoir could not hand out the main data.
    Reservoir(ReservoirError),
    /// The main data could not be decoded.
    MainData(DecodeMainDataError),
}

/// Bytes of side information: 17 for a single channel, 32 otherwise.
pub open spec fn side_info_size(h: MPEGHeader) -> nat {
    if h.mode is SingleChannel {
        17
    } else {
        32
    }
}

/// Bytes of the CRC word after the header.
pub open spec fn crc_size(h: MPEGHeader) -> nat {
    if h.crc_word is Some {
        2
    } else {
        0
    }
}

/// The frame size in bytes, `144000 * kbps / sampling frequency` plus the
/// padding byte; none for the free bitrate.
pub open spec fn frame_size(h: MPEGHeader) -> Option<nat> {
    match h.bitrate {
        MPEGBitrate::Free => None,
        MPEGBitrate::Fixed(kbps) => Some(
            (144000 * kbps) as nat / h.sampling_frequency as nat + if h.padding_bit {
                1nat
            } else {
                0nat
            },
        ),
    }
}

/// The frame size can be computed in a `usize`.
pub open spec fn frame_size_fits(h: MPEGHeader) -> bool {
    &&& h.sampling_frequency > 0
    &&& h.bitrate matches MPEGBitrate::Fixed(kbps) ==> 144000 * kbps <= usize::MAX
}

/// Bytes of side information of a frame.
fn side_info_size_bytes(header: &MPEGHeader) -> (r: usize)
    ensures
        r == side_info_size(*header),
{
    match header.mode {
        MPEGMode::SingleChannel => 17,
        _ => 32,
    }
}

/// The size of a frame in bytes; the free bitrate is not supported.
fn frame_size_bytes(header: &MPEGHeader) -> (r: Result<usize, MPEG1Layer3DecodeError>)
    requires
        frame_size_fits(*header),
    ensures
        match frame_size(*header) {
            None => r == Err::<usize, MPEG1Layer3DecodeError>(
                MPEG1Layer3DecodeError::UnsupportedFreeBitrate,
            ),
            Some(n) => r == Ok::<usize, MPEG1Layer3DecodeError>(n as usize),
        },
{
    let bitrate_kbps = match header.bitrate {
        MPEGBitrate::Fixed(kbps) => kbps as usize,
        MPEGBitrate::Free => {
            return Err(MPEG1Layer3DecodeError::UnsupportedFreeBitrate);
        },
    };
    let padding: usize = if header.padding_bit {
        1
    } else {
        0
    };
    let product = 144_000 * bitrate_kbps;
    proof {
        assert(product / (header.sampling_frequency as usize) <= product) by (nonlinear_arith)
            requires
                header.sampling_frequency > 0,
        ;
        if product > 0 {
            assert(product / (header.sampling_frequency as usize) < product || header.sampling_frequency
                == 1) by (nonlinear_arith)
                requires
                    header.sampling_frequency > 0,
                    product > 0,
            ;
        }
    }
    Ok(product / header.sampling_frequency as usize + padding)
}

/// The main data that the reservoir hands out for a frame with side
/// information `si`: the last `main_data_begin` bytes it holds, then the
/// frame's own main data from the stream bytes `rest`; or why it cannot.
pub open spec fn frame_view(si: MPEGSideInfo, h: MPEGHeader, contents: Seq<u8>, rest: Seq<u8>) -> Result<
    Seq<u8>,
    MPEG1Layer3DecodeError,
> {
    match frame_size(h) {
        None => Err(MPEG1Layer3DecodeError::UnsupportedFreeBitrate),
        Some(fs) => if fs < 4 + crc_size(h) + side_info_size(h) {
            Err(MPEG1Layer3DecodeError::InvalidFrameSize)
        } else {
            let n = (fs - (4 + crc_size(h) + side_info_size(h))) as nat;
            let begin = si.main_data_begin as nat;
            if begin > RESERVOIR_BACKPTR_MAX {
                Err(
                    MPEG1Layer3DecodeError::Reservoir(
                        ReservoirError::TooLarge {
                            needed: begin as usize,
                            capacity: RESERVOIR_BACKPTR_MAX,
                        },
                    ),
                )
            } else if begin > contents.len() {
                Err(
                    MPEG1Layer3DecodeError::Reservoir(
                        ReservoirError::Underflow {
                            main_data_begin: begin as usize,
                            available: contents.len() as usize,
                        },
                    ),
                )
            } else if begin + n > RESERVOIR_CAP {
                Err(
                    MPEG1Layer3DecodeError::Reservoir(
                        ReservoirError::TooLarge {
                            needed: (begin + n) as usize,
                            capacity: RESERVOIR_CAP,
                        },
                    ),
                )
            } else if rest.len() < n {
                Err(MPEG1Layer3DecodeError::Reservoir(ReservoirError::Io(BiterError::EOF)))
            } else {
                Ok(contents.skip(contents.len() - begin) + rest.take(n as int))
            }
        },
    }
}

/// Bytes of main data of a frame of `h`.
pub open spec fn main_data_size(h: MPEGHeader) -> nat {
    (frame_size(h).unwrap() - (4 + crc_size(h) + side_info_size(h))) as nat
}

/// An MPEG-1 Layer III frame carries 1152 samples: at `k` kbit/s and the
/// sampling frequency `sf`, the frame without its padding byte is the
/// number of whole bytes that the bitstream fills in the time of 1152
/// samples, `1152 * 1000 * k / (8 * sf)` rounded down.
pub proof fn law_frame_size(h: MPEGHeader)
    requires
        h.sampling_frequency > 0,
        h.bitrate is Fixed,
    ensures
        ({
            let k = h.bitrate->Fixed_0 as int;
            let sf = h.sampling_frequency as int;
            let pad: int = if h.padding_bit {
                1
            } else {
                0
            };
            let n = frame_size(h).unwrap() - pad;
            &&& n * 8 * sf <= 1152 * 1000 * k
            &&& 1152 * 1000 * k < (n + 1) * 8 * sf
        }),
{
    let k = h.bitrate->Fixed_0 as int;
    let sf = h.sampling_frequency as int;
    let q = (144000 * k) / sf;
    assert(q * sf <= 144000 * k < (q + 1) * sf) by (nonlinear_arith)
        requires
            sf > 0,
            k >= 0,
            q == (144000 * k) / sf,
    ;
    assert(q * 8 * sf <= 1152 * 1000 * k < (q + 1) * 8 * sf) by (nonlinear_arith)
        requires
            q * sf <= 144000 * k < (q + 1) * sf,
    ;
}

/// The side information a frame's size accounts for is the side information
/// that is parsed: its byte count is the parsed length in bits over eight
/// (17 bytes for one channel, 32 for two), so the main data of a frame is
/// what is left of it after the header, the CRC word and exactly those bytes.
pub proof fn law_side_info_size(h: MPEGHeader)
    ensures
        side_info_size(h) * 8 == l3_side_info_len(l3_nch(h)),
        side_info_size(h) == if l3_nch(h) == 1 {
            17nat
        } else {
            32nat
        },
        frame_size(h) is Some && frame_size(h).unwrap() >= 4 + crc_size(h) + side_info_size(h) ==> 4
            + crc_size(h) + l3_side_info_len(l3_nch(h)) / 8 + main_data_size(h) == frame_size(
            h,
        ).unwrap(),
{
}

/// Why decoding a frame fails, if it does: `rem` being the reader's bits
/// after the header, `contents` what the reservoir holds and `rest` the
/// stream's bytes after the side information.
#[verifier::opaque]
pub open spec fn frame_error(
    rem: Seq<bool>,
    h: MPEGHeader,
    contents: Seq<u8>,
    rest: Seq<u8>,
    tables: TableSet,
) -> Option<MPEG1Layer3DecodeError> {
    let nch = l3_nch(h);
    match l3_outcome(rem, nch, 0) {
        SideInfoOutcome::Truncated => Some(
            MPEG1Layer3DecodeError::SideInfo(MpegParseSideInfoError::IOError(BiterError::EOF)),
        ),
        SideInfoOutcome::BadBlockType => Some(
            MPEG1Layer3DecodeError::SideInfo(MpegParseSideInfoError::InvalidBlockType(0)),
        ),
        SideInfoOutcome::Decoded => main_data_error(side_info_of(rem, nch), h, contents, rest, tables),
    }
}

/// Why decoding the main data of a frame with side information `si` fails,
/// if it does: the reservoir cannot hand it out, or it cannot be decoded.
#[verifier::opaque]
pub open spec fn main_data_error(
    si: MPEGSideInfo,
    h: MPEGHeader,
    contents: Seq<u8>,
    rest: Seq<u8>,
    tables: TableSet,
) -> Option<MPEG1Layer3DecodeError> {
    match frame_view(si, h, contents, rest) {
        Err(e) => Some(e),
        Ok(view) => match md_fold(
            si,
            h.sampling_frequency,
            tables,
            bytes_bits(view),
            (si.ngr * si.nch) as nat,
        ) {
            Err(e) => Some(MPEG1Layer3DecodeError::MainData(e)),
            Ok(_) => None,
        },
    }
}

/// A frame that decodes had its side information and its main data in the
/// bytes `rest` after its header: the side information fits, and the main
/// data follows it.
pub proof fn lemma_decoded_frame_fits(
    rem: Seq<bool>,
    h: MPEGHeader,
    contents: Seq<u8>,
    rest: Seq<u8>,
    tables: TableSet,
)
    requires
        frame_error(rem, h, contents, rest, tables) is None,
    ensures
        rem.len() >= l3_side_info_len(l3_nch(h)),
        rest.len() >= main_data_size(h),
{
    reveal(frame_error);
    reveal(main_data_error);
    lemma_l3_decoded_len(rem, l3_nch(h), 0);
}

/// The main data of a decoded frame: what the reservoir handed out for it.
pub open spec fn frame_main_data_view(
    rem: Seq<bool>,
    h: MPEGHeader,
    contents: Seq<u8>,
    rest: Seq<u8>,
) -> Seq<u8> {
    frame_view(side_info_of(rem, l3_nch(h)), h, contents, rest).unwrap()
}

/// The bytes that reader `b`, on a byte boundary, has not pulled in once
/// `bits` more bits (at least its reservoir) were read.
pub open spec fn bytes_left_after<const BUF_SIZE: usize>(b: Biter<BUF_SIZE>, bits: nat) -> Seq<u8> {
    b.bytes_left().skip(((bits - b.bit_count()) / 8) as int)
}

/// `b1` and `c1` are the reader and the reservoir's contents after a frame
/// was decoded from `b0` and `c0`: the frame's main data, the bytes of the
/// bit stream after the side information, was read and appended to the reservoir.
pub open spec fn frame_consumed<const BUF_SIZE: usize>(
    b0: Biter<BUF_SIZE>,
    h: MPEGHeader,
    b1: Biter<BUF_SIZE>,
    c0: Seq<u8>,
    c1: Seq<u8>,
) -> bool {
    let left = bytes_left_after(b0, l3_side_info_len(l3_nch(h)) as nat);
    let n = main_data_size(h);
    &&& b1.bit_count() == 0
    &&& b1.bytes_left() == left.skip(n as int)
    &&& c1 == keep_last(c0, left.take(n as int))
}

/// Decodes the rest of a Layer III frame whose header has been read: the
/// side information, then the main data that the reservoir hands out for
/// it, whose own part is read from the bit stream after the side information.
#[verifier::rlimit(100)]
fn decode_frame<const BUF_SIZE: usize>(
    header: &MPEGHeader,
    biter: &mut Biter<BUF_SIZE>,
    reservoir: &mut Reservoir,
    tables: &HuffmanTables,
) -> (r: Result<(MPEGSideInfo, MainData), MPEG1Layer3DecodeError>)
    requires
        old(biter).wf(),
        old(biter).is_byte_aligned(),
        old(reservoir).wf(),
        frequency_index(header.sampling_frequency) is Some,
        frame_size_fits(*header),
        tables_usable(tables@),
    ensures
        final(biter).wf(),
        final(reservoir).wf(),
        final(biter).reader().data() == old(biter).reader().data(),
        ({
            let rem = old(biter).remaining();
            let nch = l3_nch(*header);
            let rest = bytes_left_after(*old(biter), l3_side_info_len(nch) as nat);
            &&& frame_error(rem, *header, old(reservoir).contents(), rest, tables@) matches Some(e)
                ==> r == Err::<(MPEGSideInfo, MainData), MPEG1Layer3DecodeError>(e)
            &&& frame_error(rem, *header, old(reservoir).contents(), rest, tables@) is None ==> {
                let si = side_info_of(rem, nch);
                let view = frame_main_data_view(rem, *header, old(reservoir).contents(), rest);
                r matches Ok((si2, md)) && si2 == si && md_filled(
                    md.scale_factors,
                    md.spectral_values,
                    si,
                    header.sampling_frequency,
                    tables@,
                    bytes_bits(view),
                    (si.ngr * si.nch) as int,
                )
            }
            &&& r is Ok ==> frame_consumed(
                *old(biter),
                *header,
                *final(biter),
                old(reservoir).contents(),
                final(reservoir).contents(),
            )
        }),
{
    let ghost b0 = *old(biter);
    let ghost rem = b0.remaining();
    let ghost nch = l3_nch(*header);
    let ghost len = l3_side_info_len(nch) as nat;
    let side_info = match parse_side_info(header, biter) {
        Ok(si) => si,
        Err(e) => {
            proof {
                reveal(frame_error);
            }
            return Err(MPEG1Layer3DecodeError::SideInfo(e));
        },
    };
    let ghost left = bytes_left_after(b0, len);
    let ghost contents = old(reservoir).contents();
    proof {
        lemma_side_info_unique(side_info, side_info_of(rem, nch), rem, nch);
        assert(frame_error(rem, *header, contents, left, tables@) == main_data_error(
            side_info,
            *header,
            contents,
            left,
            tables@,
        )) by {
            reveal(frame_error);
        }
        b0.lemma_reservoir_len();
        b0.lemma_bit_count_bound();
        biter.lemma_reservoir_len();
        let k = ((len - b0.bit_count()) / 8) as int;
        assert(len % 8 == 0 && len >= 136);
        assert(8 * k == len - b0.bit_count());
        lemma_bytes_bits_skip(b0.bytes_left(), k);
        assert(biter.reservoir() =~= Seq::<bool>::empty()) by {
            assert(biter.reservoir().len() == 0);
        }
        assert(rem.skip(len as int) =~= bytes_bits(b0.bytes_left()).skip(8 * k));
        assert(biter.remaining() =~= bytes_bits(biter.bytes_left()));
        lemma_bytes_bits_injective(biter.bytes_left(), left);
        assert(biter.is_byte_aligned());
    }
    let frame_size = match frame_size_bytes(header) {
        Ok(n) => n,
        Err(e) => {
            proof {
                reveal(main_data_error);
            }
            return Err(e);
        },
    };
    let crc_size: usize = if header.crc_word.is_some() {
        2
    } else {
        0
    };
    let side_info_size = side_info_size_bytes(header);
    let main_data_bytes = match frame_size.checked_sub(4 + crc_size + side_info_size) {
        Some(n) => n,
        None => {
            proof {
                reveal(main_data_error);
            }
            return Err(MPEG1Layer3DecodeError::InvalidFrameSize);
        },
    };
    let ghost mid = *biter;
    let view = match reservoir.bite_and_view(side_info.main_data_begin as usize, main_data_bytes, biter) {
        Ok(v) => v,
        Err(e) => {
            proof {
                reveal(main_data_error);
            }
            return Err(MPEG1Layer3DecodeError::Reservoir(e));
        },
    };
    proof {
        assert(main_data_bytes == main_data_size(*header));
        lemma_bytes_bits_len(left);
        if 8 * main_data_bytes <= mid.remaining().len() {
            lemma_bytes_bits_skip(left, main_data_bytes as int);
            mid.lemma_next_bytes(main_data_bytes as nat, left.take(main_data_bytes as int));
            Biter::<BUF_SIZE>::lemma_whole_bytes_read(mid, *biter, 8 * main_data_bytes as nat);
        }
        assert(frame_view(side_info, *header, old(reservoir).contents(), left) == Ok::<
            Seq<u8>,
            MPEG1Layer3DecodeError,
        >(view@));
    }
    let main_data_size_bits = view.len() * 8;
    let stream = ByteReader::new(view);
    proof {
        assert(stream.rest() =~= view@);
    }
    let mut main_data_biter = Biter::<DEFAULT_BUF_SIZE>::new(stream);
    let main_data = match decode_main_data(
        header,
        &side_info,
        &mut main_data_biter,
        main_data_size_bits,
        tables,
    ) {
        Ok(md) => md,
        Err(e) => {
            proof {
                reveal(main_data_error);
            }
            return Err(MPEG1Layer3DecodeError::MainData(e));
        },
    };
    proof {
        reveal(main_data_error);
    }
    Ok((side_info, main_data))
}

/// What a decoded frame reports: its sampling frequency, and how many of its samples are used.
#[derive(Debug, Clone, Copy, PartialEq, Eq)]
pub struct DecodedFrame {
    pub sample_rate: u32,
    pub used: usize,
}

/// A Layer III decoder: the bit reservoir carries main data from frame to frame.
pub struct Mpeg1Layer3Decoder {
    reservoir: Reservoir,
}

impl Mpeg1Layer3Decoder {
    /// The decoder's internal consistency.
    pub closed spec fn wf(&self) -> bool {
        self.reservoir.wf()
    }

    /// The main data bytes the reservoir holds.
    pub closed spec fn reservoir_contents(&self) -> Seq<u8> {
        self.reservoir.contents()
    }

    /// A decoder with an empty reservoir.
    pub fn new() -> (r: Self)
        ensures
            r.wf(),
            r.reservoir_contents() == Seq::<u8>::empty(),
    {
        Mpeg1Layer3Decoder { reservoir: Reservoir::new() }
    }
}


impl Mpeg1Layer3Decoder {
    /// Decodes the frame whose header `header` was just read: its side
    /// information and main data are decoded and checked, but no samples are
    /// synthesized yet.
    pub(crate) fn decode_samples<const BUF_SIZE: usize>(
        &mut self,
        header: &MPEGHeader,
        biter: &mut Biter<BUF_SIZE>,
        tables: &HuffmanTables,
    ) -> (r: Result<DecodedFrame, MPEG1Layer3DecodeError>)
        requires
            old(self).wf(),
            old(biter).wf(),
            old(biter).is_byte_aligned(),
            frequency_index(header.sampling_frequency) is Some,
            frame_size_fits(*header),
            tables_usable(tables@),
        ensures
            final(self).wf(),
            final(biter).wf(),
            final(biter).reader().data() == old(biter).reader().data(),
            ({
                let rem = old(biter).remaining();
                let rest = bytes_left_after(*old(biter), l3_side_info_len(l3_nch(*header)) as nat);
                let e = frame_error(rem, *header, old(self).reservoir_contents(), rest, tables@);
                &&& e matches Some(x) ==> r == Err::<DecodedFrame, MPEG1Layer3DecodeError>(x)
                &&& e is None ==> r == Ok::<DecodedFrame, MPEG1Layer3DecodeError>(
                    DecodedFrame { sample_rate: header.sampling_frequency, used: 0 },
                ) && frame_consumed(
                    *old(biter),
                    *header,
                    *final(biter),
                    old(self).reservoir_contents(),
                    final(self).reservoir_contents(),
                )
            }),
    {
        let (_side_info, _main_data) = decode_frame(
            header,
            biter,
            &mut self.reservoir,
            tables,
        )?;
        Ok(DecodedFrame { sample_rate: header.sampling_frequency, used: 0 })
    }
}

/// A Layer III decoder for a stream whose first header is `header`.
pub fn mpeg1_layer3_decoder_new(header: &MPEGHeader) -> (r: Result<
    Mpeg1Layer3Decoder,
    MPEG1Layer3DecoderNewError,
>)
    ensures
        r matches Ok(d) && d.wf() && d.reservoir_contents() == Seq::<u8>::empty(),
{
    Ok(Mpeg1Layer3Decoder::new())
}

} // verus!
