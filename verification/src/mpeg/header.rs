//! The 32-bit MPEG audio frame header.
use crate::bite::{bit_count_after_read, lemma_bit_count_after_reads, Biter, BiterError};
use crate::bits::bits_value;
use vstd::prelude::*;

verus! {

/// Why an MPEG frame header was refused.
#[derive(Debug, Clone, Copy, PartialEq, Eq)]
pub enum MpegParseHeaderError {
    /// The bit reader failed.
    BiterError(BiterError),
    /// The first eleven bits are not all set.
    InvalidSyncWord(u32),
    /// The version bits name no supported version (`ID`, `IDex`); also
    /// reported for an unknown mode combination (mode, mode extension).
    UnsupportedMPEGVersion(u32, u32),
    /// The layer bits name no supported layer.
    UnsupportedLayer(u32),
    /// No bitrate is defined for (`ID`, `IDex`, bitrate index).
    BitrateError(u32, u32, u32),
    /// No sampling frequency is defined for (`ID`, `IDex`, frequency index).
    UnsupportedSamplingFrequency(u32, u32, u32),
    /// The emphasis bits are reserved.
    UnsupportedEmphasisType(u32),
    /// The CRC is not supported.
    UnsupportedCRC(u32),
}

/// MPEG audio version.
#[derive(Debug, Clone, Copy, PartialEq, Eq)]
pub enum MPEGVersion {
    MPEG1,
    MPEG2,
    MPEG25,
}

/// MPEG audio layer.
#[derive(Debug, Clone, Copy, PartialEq, Eq)]
pub enum MPEGLayer {
    LayerI,
    LayerII,
    LayerIII,
}

/// Bitrate in kbit/s, or free format.
#[derive(Debug, Clone, Copy, PartialEq, Eq)]
pub enum MPEGBitrate {
    Free,
    Fixed(u32),
}

/// Channel mode.
#[derive(Debug, Clone, Copy, PartialEq, Eq)]
pub enum MPEGMode {
    Stereo,
    JointStereo { intensity_stereo: bool, ms_stereo: bool },
    DualChannel,
    SingleChannel,
}

/// De-emphasis to apply.
#[allow(non_camel_case_types)]
#[derive(Debug, Clone, Copy, PartialEq, Eq)]
pub enum MPEGEmphasis {
    NoEmphasis,
    _50_15ms,
    CCIT_J17,
}

/// A decoded MPEG audio frame header.
#[derive(Debug, Clone, Copy)]
pub struct MPEGHeader {
    pub version: MPEGVersion,
    pub layer: MPEGLayer,
    pub bitrate: MPEGBitrate,
    pub sampling_frequency: u32,
    pub padding_bit: bool,
    pub private_bit: bool,
    pub mode: MPEGMode,
    pub is_copyright: bool,
    pub is_original: bool,
    pub emphasis: MPEGEmphasis,
    pub crc_word: Option<u16>,
}

/// The eleven set bits that start every frame.
pub const SYNCWORD: u32 = 0x7FF;

/// The version for the (`IDex`, `ID`) bits.
pub open spec fn mpeg_version_of(idex: u32, id: u32) -> Option<MPEGVersion> {
    if idex == 0 && id == 0 {
        Some(MPEGVersion::MPEG25)
    } else if idex == 1 && id == 0 {
        Some(MPEGVersion::MPEG2)
    } else if idex == 1 && id == 1 {
        Some(MPEGVersion::MPEG1)
    } else {
        None
    }
}

/// The layer for the layer bits: only Layer III is supported.
pub open spec fn mpeg_layer_of(layer: u32) -> Option<MPEGLayer> {
    if layer == 0b01 {
        Some(MPEGLayer::LayerIII)
    } else {
        None
    }
}

/// The bitrate for (`IDex`, `ID`, bitrate index).
pub open spec fn mpeg_bitrate_of(idex: u32, id: u32, index: u32) -> Option<MPEGBitrate> {
    if index == 0 && ((idex == 1 && id == 1) || (idex == 1 && id == 0) || (idex == 0 && id == 0)) {
        Some(MPEGBitrate::Free)
    } else if idex == 1 && id == 1 && 1 <= index <= 14 {
        Some(MPEGBitrate::Fixed(mpeg1_kbps(index)))
    } else if ((idex == 1 && id == 0) || (idex == 0 && id == 0)) && 1 <= index <= 14 {
        Some(MPEGBitrate::Fixed(mpeg2_kbps(index)))
    } else {
        None
    }
}

/// Bitrates of version 1 in kbit/s.
pub open spec fn mpeg1_kbps(index: u32) -> u32 {
    match index {
        1 => 32,
        2 => 40,
        3 => 48,
        4 => 56,
        5 => 64,
        6 => 80,
        7 => 96,
        8 => 112,
        9 => 128,
        10 => 160,
        11 => 192,
        12 => 224,
        13 => 256,
        _ => 320,
    }
}

/// Bitrates of the lower sampling frequencies (MPEG-2 and MPEG-2.5) in kbit/s.
pub open spec fn mpeg2_kbps(index: u32) -> u32 {
    match index {
        1 => 8,
        2 => 16,
        3 => 24,
        4 => 32,
        5 => 40,
        6 => 48,
        7 => 56,
        8 => 64,
        9 => 80,
        10 => 96,
        11 => 112,
        12 => 128,
        13 => 144,
        _ => 160,
    }
}

/// The sampling frequency in Hz for (`IDex`, `ID`, frequency index).
pub open spec fn sampling_frequency_of(idex: u32, id: u32, index: u32) -> Option<u32> {
    let base: u32 = if index == 0 {
        44100
    } else if index == 1 {
        48000
    } else {
        32000
    };
    if index > 2 {
        None
    } else if idex == 1 && id == 1 {
        Some(base)
    } else if idex == 1 && id == 0 {
        Some(base / 2)
    } else if idex == 0 && id == 0 {
        Some(base / 4)
    } else {
        None
    }
}

/// The channel mode for (mode, mode extension).
pub open spec fn mpeg_mode_of(mode: u32, ext: u32) -> Option<MPEGMode> {
    if mode == 0 && ext == 0 {
        Some(MPEGMode::Stereo)
    } else if mode == 1 && ext == 0 {
        Some(MPEGMode::JointStereo { intensity_stereo: false, ms_stereo: false })
    } else if mode == 1 && ext == 1 {
        Some(MPEGMode::JointStereo { intensity_stereo: true, ms_stereo: false })
    } else if mode == 1 && ext == 2 {
        Some(MPEGMode::JointStereo { intensity_stereo: false, ms_stereo: true })
    } else if mode == 1 && ext == 3 {
        Some(MPEGMode::JointStereo { intensity_stereo: true, ms_stereo: true })
    } else if mode == 2 && ext == 0 {
        Some(MPEGMode::DualChannel)
    } else if mode == 3 && ext == 0 {
        Some(MPEGMode::SingleChannel)
    } else {
        None
    }
}

/// The emphasis for the emphasis bits.
pub open spec fn mpeg_emphasis_of(e: u32) -> Option<MPEGEmphasis> {
    if e == 0 {
        Some(MPEGEmphasis::NoEmphasis)
    } else if e == 1 {
        Some(MPEGEmphasis::_50_15ms)
    } else if e == 2 {
        Some(MPEGEmphasis::CCIT_J17)
    } else {
        None
    }
}

fn version_of(idex: u32, id: u32) -> (r: Option<MPEGVersion>)
    ensures
        r == mpeg_version_of(idex, id),
{
    if idex == 0 && id == 0 {
        Some(MPEGVersion::MPEG25)
    } else if idex == 1 && id == 0 {
        Some(MPEGVersion::MPEG2)
    } else if idex == 1 && id == 1 {
        Some(MPEGVersion::MPEG1)
    } else {
        None
    }
}

fn layer_of(layer: u32) -> (r: Option<MPEGLayer>)
    ensures
        r == mpeg_layer_of(layer),
{
    if layer == 0b01 {
        Some(MPEGLayer::LayerIII)
    } else {
        None
    }
}

fn bitrate_of(idex: u32, id: u32, index: u32) -> (r: Option<MPEGBitrate>)
    ensures
        r == mpeg_bitrate_of(idex, id, index),
{
    if index == 0 && ((idex == 1 && id == 1) || (idex == 1 && id == 0) || (idex == 0 && id == 0)) {
        return Some(MPEGBitrate::Free);
    }
    if idex == 1 && id == 1 && 1 <= index && index <= 14 {
        let kbps = match index {
            1 => 32,
            2 => 40,
            3 => 48,
            4 => 56,
            5 => 64,
            6 => 80,
            7 => 96,
            8 => 112,
            9 => 128,
            10 => 160,
            11 => 192,
            12 => 224,
            13 => 256,
            _ => 320,
        };
        return Some(MPEGBitrate::Fixed(kbps));
    }
    if ((idex == 1 && id == 0) || (idex == 0 && id == 0)) && 1 <= index && index <= 14 {
        let kbps = match index {
            1 => 8,
            2 => 16,
            3 => 24,
            4 => 32,
            5 => 40,
            6 => 48,
            7 => 56,
            8 => 64,
            9 => 80,
            10 => 96,
            11 => 112,
            12 => 128,
            13 => 144,
            _ => 160,
        };
        return Some(MPEGBitrate::Fixed(kbps));
    }
    None
}

fn sampling_frequency_lookup(idex: u32, id: u32, index: u32) -> (r: Option<u32>)
    ensures
        r == sampling_frequency_of(idex, id, index),
{
    if index > 2 {
        return None;
    }
    let base: u32 = if index == 0 {
        44100
    } else if index == 1 {
        48000
    } else {
        32000
    };
    if idex == 1 && id == 1 {
        Some(base)
    } else if idex == 1 && id == 0 {
        Some(base / 2)
    } else if idex == 0 && id == 0 {
        Some(base / 4)
    } else {
        None
    }
}

fn mode_of(mode: u32, ext: u32) -> (r: Option<MPEGMode>)
    ensures
        r == mpeg_mode_of(mode, ext),
{
    if mode == 0 && ext == 0 {
        Some(MPEGMode::Stereo)
    } else if mode == 1 && ext == 0 {
        Some(MPEGMode::JointStereo { intensity_stereo: false, ms_stereo: false })
    } else if mode == 1 && ext == 1 {
        Some(MPEGMode::JointStereo { intensity_stereo: true, ms_stereo: false })
    } else if mode == 1 && ext == 2 {
        Some(MPEGMode::JointStereo { intensity_stereo: false, ms_stereo: true })
    } else if mode == 1 && ext == 3 {
        Some(MPEGMode::JointStereo { intensity_stereo: true, ms_stereo: true })
    } else if mode == 2 && ext == 0 {
        Some(MPEGMode::DualChannel)
    } else if mode == 3 && ext == 0 {
        Some(MPEGMode::SingleChannel)
    } else {
        None
    }
}

fn emphasis_of(e: u32) -> (r: Option<MPEGEmphasis>)
    ensures
        r == mpeg_emphasis_of(e),
{
    if e == 0 {
        Some(MPEGEmphasis::NoEmphasis)
    } else if e == 1 {
        Some(MPEGEmphasis::_50_15ms)
    } else if e == 2 {
        Some(MPEGEmphasis::CCIT_J17)
    } else {
        None
    }
}

/// The value of the `len` bits at offset `off` of `r`.
pub open spec fn bit_field(r: Seq<bool>, off: int, len: int) -> u32 {
    bits_value(r.subrange(off, off + len)) as u32
}

/// Why the header at the start of the bits `r` is refused, in the order the
/// checks are made; `None` when it is accepted.
pub enum HeaderFault {
    Truncated,
    SyncWord,
    Version,
    Layer,
    Bitrate,
    SamplingFrequency,
    Mode,
    Emphasis,
}

/// Whether the header has no CRC word after it (protection bit set).
pub open spec fn header_unprotected(r: Seq<bool>) -> bool {
    bit_field(r, 15, 1) != 0
}

/// How many bits the header at the start of `r` takes: 32, and 16 more for a CRC word.
pub open spec fn header_len(r: Seq<bool>) -> nat {
    if header_unprotected(r) {
        32
    } else {
        48
    }
}

/// The verdict on the header at the start of the bits `r`.
pub open spec fn mpeg_header_fault(r: Seq<bool>) -> Option<HeaderFault> {
    let idex = bit_field(r, 11, 1);
    let id = bit_field(r, 12, 1);
    if r.len() < 32 {
        Some(HeaderFault::Truncated)
    } else if bit_field(r, 0, 11) != SYNCWORD {
        Some(HeaderFault::SyncWord)
    } else if r.len() < header_len(r) {
        Some(HeaderFault::Truncated)
    } else if mpeg_version_of(idex, id) is None {
        Some(HeaderFault::Version)
    } else if mpeg_layer_of(bit_field(r, 13, 2)) is None {
        Some(HeaderFault::Layer)
    } else if mpeg_bitrate_of(idex, id, bit_field(r, 16, 4)) is None {
        Some(HeaderFault::Bitrate)
    } else if sampling_frequency_of(idex, id, bit_field(r, 20, 2)) is None {
        Some(HeaderFault::SamplingFrequency)
    } else if mpeg_mode_of(bit_field(r, 24, 2), bit_field(r, 26, 2)) is None {
        Some(HeaderFault::Mode)
    } else if mpeg_emphasis_of(bit_field(r, 30, 2)) is None {
        Some(HeaderFault::Emphasis)
    } else {
        None
    }
}

/// `h` is the header decoded from the start of the bits `r`.
pub open spec fn header_matches(h: MPEGHeader, r: Seq<bool>) -> bool {
    let idex = bit_field(r, 11, 1);
    let id = bit_field(r, 12, 1);
    &&& Some(h.version) == mpeg_version_of(idex, id)
    &&& Some(h.layer) == mpeg_layer_of(bit_field(r, 13, 2))
    &&& Some(h.bitrate) == mpeg_bitrate_of(idex, id, bit_field(r, 16, 4))
    &&& Some(h.sampling_frequency) == sampling_frequency_of(idex, id, bit_field(r, 20, 2))
    &&& h.padding_bit == (bit_field(r, 22, 1) != 0)
    &&& h.private_bit == (bit_field(r, 23, 1) != 0)
    &&& Some(h.mode) == mpeg_mode_of(bit_field(r, 24, 2), bit_field(r, 26, 2))
    &&& h.is_copyright == (bit_field(r, 28, 1) != 0)
    &&& h.is_original == (bit_field(r, 29, 1) != 0)
    &&& Some(h.emphasis) == mpeg_emphasis_of(bit_field(r, 30, 2))
    &&& h.crc_word == if header_unprotected(r) {
        None
    } else {
        Some(bit_field(r, 32, 16) as u16)
    }
}

/// Reads the field of `bits` bits at offset `off` of the bits `r0` that the
/// reader held at the start of the header.
fn read_field<const BUF_SIZE: usize>(
    biter: &mut Biter<BUF_SIZE>,
    bits: usize,
    Ghost(r0): Ghost<Seq<bool>>,
    Ghost(off): Ghost<int>,
) -> (r: Result<u32, MpegParseHeaderError>)
    requires
        old(biter).wf(),
        0 < bits <= 32,
        0 <= off <= r0.len(),
        old(biter).remaining() == r0.skip(off),
    ensures
        final(biter).wf(),
        final(biter).reader().data() == old(biter).reader().data(),
        r is Ok <==> off + bits <= r0.len(),
        r matches Ok(v) ==> v == bit_field(r0, off, bits as int) && final(biter).remaining()
            == r0.skip(off + bits) && final(biter).bit_count() == bit_count_after_read(
            old(biter).bit_count(),
            bits as nat,
        ),
        r is Err ==> r == Err::<u32, MpegParseHeaderError>(
            MpegParseHeaderError::BiterError(BiterError::EOF),
        ),
{
    match biter.read_bits_u32(bits) {
        Ok(v) => {
            assert(r0.skip(off).take(bits as int) =~= r0.subrange(off, off + bits));
            assert(r0.skip(off).skip(bits as int) =~= r0.skip(off + bits));
            Ok(v)
        },
        Err(e) => Err(MpegParseHeaderError::BiterError(e)),
    }
}

/// The raw fields of the 32 header bits, in the order they are stored.
struct HeaderFields {
    syncword: u32,
    idex: u32,
    id: u32,
    layer: u32,
    protection_bit: u32,
    bitrate_index: u32,
    sampling_frequency: u32,
    padding_bit: u32,
    private_bit: u32,
    mode: u32,
    mode_extension: u32,
    copyright: u32,
    original_copy: u32,
    emphasis: u32,
}

/// The reservoir size after the fourteen header field reads from a reservoir of `l` bits.
spec fn header_field_reads(l: nat) -> nat {
    let a = bit_count_after_read(l, 11);
    let a = bit_count_after_read(a, 1);
    let a = bit_count_after_read(a, 1);
    let a = bit_count_after_read(a, 2);
    let a = bit_count_after_read(a, 1);
    let a = bit_count_after_read(a, 4);
    let a = bit_count_after_read(a, 2);
    let a = bit_count_after_read(a, 1);
    let a = bit_count_after_read(a, 1);
    let a = bit_count_after_read(a, 2);
    let a = bit_count_after_read(a, 2);
    let a = bit_count_after_read(a, 1);
    let a = bit_count_after_read(a, 1);
    bit_count_after_read(a, 2)
}

/// The fourteen header field reads leave the reservoir as one read of 32 bits would.
proof fn lemma_header_field_reads(l: nat)
    ensures
        header_field_reads(l) == bit_count_after_read(l, 32),
{
    lemma_bit_count_after_reads(l, 11, 1);
    lemma_bit_count_after_reads(l, 12, 1);
    lemma_bit_count_after_reads(l, 13, 2);
    lemma_bit_count_after_reads(l, 15, 1);
    lemma_bit_count_after_reads(l, 16, 4);
    lemma_bit_count_after_reads(l, 20, 2);
    lemma_bit_count_after_reads(l, 22, 1);
    lemma_bit_count_after_reads(l, 23, 1);
    lemma_bit_count_after_reads(l, 24, 2);
    lemma_bit_count_after_reads(l, 26, 2);
    lemma_bit_count_after_reads(l, 28, 1);
    lemma_bit_count_after_reads(l, 29, 1);
    lemma_bit_count_after_reads(l, 30, 2);
}

/// Reads the fourteen fields of the 32 header bits.
fn read_header_fields<const BUF_SIZE: usize>(biter: &mut Biter<BUF_SIZE>) -> (r: Result<
    HeaderFields,
    MpegParseHeaderError,
>)
    requires
        old(biter).wf(),
    ensures
        final(biter).wf(),
        final(biter).reader().data() == old(biter).reader().data(),
        r is Ok <==> 32 <= old(biter).remaining().len(),
        r is Err ==> r == Err::<HeaderFields, MpegParseHeaderError>(
            MpegParseHeaderError::BiterError(BiterError::EOF),
        ),
        r matches Ok(f) ==> ({
            let r0 = old(biter).remaining();
            &&& f.syncword == bit_field(r0, 0, 11)
            &&& f.idex == bit_field(r0, 11, 1)
            &&& f.id == bit_field(r0, 12, 1)
            &&& f.layer == bit_field(r0, 13, 2)
            &&& f.protection_bit == bit_field(r0, 15, 1)
            &&& f.bitrate_index == bit_field(r0, 16, 4)
            &&& f.sampling_frequency == bit_field(r0, 20, 2)
            &&& f.padding_bit == bit_field(r0, 22, 1)
            &&& f.private_bit == bit_field(r0, 23, 1)
            &&& f.mode == bit_field(r0, 24, 2)
            &&& f.mode_extension == bit_field(r0, 26, 2)
            &&& f.copyright == bit_field(r0, 28, 1)
            &&& f.original_copy == bit_field(r0, 29, 1)
            &&& f.emphasis == bit_field(r0, 30, 2)
            &&& final(biter).remaining() == r0.skip(32)
            &&& final(biter).bit_count() == bit_count_after_read(old(biter).bit_count(), 32)
        }),
{
    let ghost r0 = old(biter).remaining();
    let ghost l0 = old(biter).bit_count();
    proof {
        old(biter).lemma_bit_count_bound();
        lemma_header_field_reads(l0);
    }
    assert(r0.skip(0) =~= r0);
    let syncword = read_field(biter, 11, Ghost(r0), Ghost(0))?;
    let idex = read_field(biter, 1, Ghost(r0), Ghost(11))?;
    let id = read_field(biter, 1, Ghost(r0), Ghost(12))?;
    let layer = read_field(biter, 2, Ghost(r0), Ghost(13))?;
    let protection_bit = read_field(biter, 1, Ghost(r0), Ghost(15))?;
    let bitrate_index = read_field(biter, 4, Ghost(r0), Ghost(16))?;
    let sampling_frequency = read_field(biter, 2, Ghost(r0), Ghost(20))?;
    let padding_bit = read_field(biter, 1, Ghost(r0), Ghost(22))?;
    let private_bit = read_field(biter, 1, Ghost(r0), Ghost(23))?;
    let mode = read_field(biter, 2, Ghost(r0), Ghost(24))?;
    let mode_extension = read_field(biter, 2, Ghost(r0), Ghost(26))?;
    let copyright = read_field(biter, 1, Ghost(r0), Ghost(28))?;
    let original_copy = read_field(biter, 1, Ghost(r0), Ghost(29))?;
    let emphasis = read_field(biter, 2, Ghost(r0), Ghost(30))?;
    Ok(
        HeaderFields {
            syncword,
            idex,
            id,
            layer,
            protection_bit,
            bitrate_index,
            sampling_frequency,
            padding_bit,
            private_bit,
            mode,
            mode_extension,
            copyright,
            original_copy,
            emphasis,
        },
    )
}

/// Whether reading the header at the start of the bits `r` from a reader
/// holding `l` bits leaves the reader on a 16-bit boundary once the sync word
/// and any CRC word were read, as a header must (a reader on a byte boundary
/// always is).
pub open spec fn header_ends_aligned(l: nat, r: Seq<bool>) -> bool {
    r.len() >= header_len(r) && bit_field(r, 0, 11) == SYNCWORD ==> bit_count_after_read(
        l,
        header_len(r),
    ) % 16 == 0
}

/// Reads and decodes a frame header. A header whose sync word and CRC word
/// were read must end on a 16-bit boundary of the reader.
pub fn parse_header<const BUF_SIZE: usize>(biter: &mut Biter<BUF_SIZE>) -> (r: Result<
    MPEGHeader,
    MpegParseHeaderError,
>)
    requires
        old(biter).wf(),
        header_ends_aligned(old(biter).bit_count(), old(biter).remaining()),
    ensures
        final(biter).wf(),
        final(biter).reader().data() == old(biter).reader().data(),
        ({
            let rem = old(biter).remaining();
            let idex = bit_field(rem, 11, 1);
            let id = bit_field(rem, 12, 1);
            &&& r is Ok <==> mpeg_header_fault(rem) is None
            &&& r matches Ok(h) ==> header_matches(h, rem) && final(biter).remaining() == rem.skip(
                header_len(rem) as int,
            ) && final(biter).bit_count() == bit_count_after_read(
                old(biter).bit_count(),
                header_len(rem),
            )
            &&& mpeg_header_fault(rem) == Some(HeaderFault::Truncated) ==> r == Err::<
                MPEGHeader,
                MpegParseHeaderError,
            >(MpegParseHeaderError::BiterError(BiterError::EOF))
            &&& mpeg_header_fault(rem) == Some(HeaderFault::SyncWord) ==> r == Err::<
                MPEGHeader,
                MpegParseHeaderError,
            >(MpegParseHeaderError::InvalidSyncWord(bit_field(rem, 0, 11)))
            &&& mpeg_header_fault(rem) == Some(HeaderFault::Version) ==> r == Err::<
                MPEGHeader,
                MpegParseHeaderError,
            >(MpegParseHeaderError::UnsupportedMPEGVersion(id, idex))
            &&& mpeg_header_fault(rem) == Some(HeaderFault::Layer) ==> r == Err::<
                MPEGHeader,
                MpegParseHeaderError,
            >(MpegParseHeaderError::UnsupportedLayer(bit_field(rem, 13, 2)))
            &&& mpeg_header_fault(rem) == Some(HeaderFault::Bitrate) ==> r == Err::<
                MPEGHeader,
                MpegParseHeaderError,
            >(MpegParseHeaderError::BitrateError(id, idex, bit_field(rem, 16, 4)))
            &&& mpeg_header_fault(rem) == Some(HeaderFault::SamplingFrequency) ==> r == Err::<
                MPEGHeader,
                MpegParseHeaderError,
            >(MpegParseHeaderError::UnsupportedSamplingFrequency(id, idex, bit_field(rem, 20, 2)))
            &&& mpeg_header_fault(rem) == Some(HeaderFault::Mode) ==> r == Err::<
                MPEGHeader,
                MpegParseHeaderError,
            >(
                MpegParseHeaderError::UnsupportedMPEGVersion(
                    bit_field(rem, 24, 2),
                    bit_field(rem, 26, 2),
                ),
            )
            &&& mpeg_header_fault(rem) == Some(HeaderFault::Emphasis) ==> r == Err::<
                MPEGHeader,
                MpegParseHeaderError,
            >(MpegParseHeaderError::UnsupportedEmphasisType(bit_field(rem, 30, 2)))
        }),
{
    let ghost r0 = old(biter).remaining();
    let ghost l0 = old(biter).bit_count();
    /* Get bits from buffer */
    let f = read_header_fields(biter)?;
    if f.syncword != SYNCWORD {
        return Err(MpegParseHeaderError::InvalidSyncWord(f.syncword));
    }
    let crc_word: Option<u16> = if f.protection_bit == 0 {
        let crc = read_field(biter, 16, Ghost(r0), Ghost(32))?;
        Some(crc as u16)
    } else {
        None
    };
    proof {
        // The header ends on a 16-bit boundary.
        lemma_bit_count_after_reads(l0, 32, 16);
        assert(biter.bit_count() % 16 == 0);
    }
    let version = match version_of(f.idex, f.id) {
        Some(v) => v,
        None => {
            return Err(MpegParseHeaderError::UnsupportedMPEGVersion(f.id, f.idex));
        },
    };
    let layer = match layer_of(f.layer) {
        Some(l) => l,
        None => {
            return Err(MpegParseHeaderError::UnsupportedLayer(f.layer));
        },
    };
    let bitrate = match bitrate_of(f.idex, f.id, f.bitrate_index) {
        Some(b) => b,
        None => {
            return Err(MpegParseHeaderError::BitrateError(f.id, f.idex, f.bitrate_index));
        },
    };
    let sampling_frequency = match sampling_frequency_lookup(f.idex, f.id, f.sampling_frequency) {
        Some(v) => v,
        None => {
            return Err(
                MpegParseHeaderError::UnsupportedSamplingFrequency(
                    f.id,
                    f.idex,
                    f.sampling_frequency,
                ),
            );
        },
    };
    let mode = match mode_of(f.mode, f.mode_extension) {
        Some(m) => m,
        None => {
            return Err(MpegParseHeaderError::UnsupportedMPEGVersion(f.mode, f.mode_extension));
        },
    };
    let emphasis = match emphasis_of(f.emphasis) {
        Some(e) => e,
        None => {
            return Err(MpegParseHeaderError::UnsupportedEmphasisType(f.emphasis));
        },
    };
    Ok(
        MPEGHeader {
            version,
            layer,
            bitrate,
            sampling_frequency,
            padding_bit: f.padding_bit != 0,
            private_bit: f.private_bit != 0,
            mode,
            is_copyright: f.copyright != 0,
            is_original: f.original_copy != 0,
            emphasis,
            crc_word,
        },
    )
}


/// The error reported for a header at the start of the bits `r` that is refused.
pub open spec fn header_error(r: Seq<bool>) -> MpegParseHeaderError {
    let idex = bit_field(r, 11, 1);
    let id = bit_field(r, 12, 1);
    match mpeg_header_fault(r) {
        Some(HeaderFault::SyncWord) => MpegParseHeaderError::InvalidSyncWord(bit_field(r, 0, 11)),
        Some(HeaderFault::Version) => MpegParseHeaderError::UnsupportedMPEGVersion(id, idex),
        Some(HeaderFault::Layer) => MpegParseHeaderError::UnsupportedLayer(bit_field(r, 13, 2)),
        Some(HeaderFault::Bitrate) => MpegParseHeaderError::BitrateError(id, idex, bit_field(r, 16, 4)),
        Some(HeaderFault::SamplingFrequency) => MpegParseHeaderError::UnsupportedSamplingFrequency(
            id,
            idex,
            bit_field(r, 20, 2),
        ),
        Some(HeaderFault::Mode) => MpegParseHeaderError::UnsupportedMPEGVersion(
            bit_field(r, 24, 2),
            bit_field(r, 26, 2),
        ),
        Some(HeaderFault::Emphasis) => MpegParseHeaderError::UnsupportedEmphasisType(
            bit_field(r, 30, 2),
        ),
        _ => MpegParseHeaderError::BiterError(BiterError::EOF),
    }
}

/// The header decoded from the start of the bits `r`, where they hold one:
/// there is only one (see `lemma_header_unique`).
pub open spec fn header_of(r: Seq<bool>) -> MPEGHeader {
    choose|h: MPEGHeader| header_matches(h, r)
}

/// The bits of a header determine it.
pub proof fn lemma_header_unique(a: MPEGHeader, b: MPEGHeader, r: Seq<bool>)
    requires
        header_matches(a, r),
        header_matches(b, r),
    ensures
        a == b,
{
}

/// A decoded header has one of the nine sampling frequencies and a bitrate of at most 448 kbit/s.
pub proof fn lemma_header_ranges(h: MPEGHeader, r: Seq<bool>)
    requires
        header_matches(h, r),
    ensures
        h.sampling_frequency == 44100 || h.sampling_frequency == 48000 || h.sampling_frequency
            == 32000 || h.sampling_frequency == 22050 || h.sampling_frequency == 24000
            || h.sampling_frequency == 16000 || h.sampling_frequency == 11025
            || h.sampling_frequency == 12000 || h.sampling_frequency == 8000,
        h.bitrate matches MPEGBitrate::Fixed(k) ==> k <= 448,
{
}

/// The Layer III bitrates: MPEG-1 bitrate indices 1 to 14 give 32, 40, 48,
/// 56, 64, 80, 96, 112, 128, 160, 192, 224, 256 and 320 kbit/s; MPEG-2 and
/// MPEG-2.5 give 8, 16, 24, 32, 40, 48, 56, 64, 80, 96, 112, 128, 144 and
/// 160 kbit/s. Index 0 is the free bitrate, index 15 is no bitrate, and the
/// reserved version has none.
pub proof fn law_bitrate_table(idex: u32, id: u32, index: u32)
    requires
        index < 16,
    ensures
        idex == 1 && id == 1 && 1 <= index <= 14 ==> mpeg_bitrate_of(idex, id, index) == Some(
            MPEGBitrate::Fixed(
                seq![32u32, 40, 48, 56, 64, 80, 96, 112, 128, 160, 192, 224, 256, 320][index - 1],
            ),
        ),
        ((idex == 1 && id == 0) || (idex == 0 && id == 0)) && 1 <= index <= 14 ==> mpeg_bitrate_of(
            idex,
            id,
            index,
        ) == Some(
            MPEGBitrate::Fixed(
                seq![8u32, 16, 24, 32, 40, 48, 56, 64, 80, 96, 112, 128, 144, 160][index - 1],
            ),
        ),
        !(idex == 0 && id == 1) && idex < 2 && id < 2 && index == 0 ==> mpeg_bitrate_of(idex, id, index)
            == Some(MPEGBitrate::Free),
        index == 15 || (idex == 0 && id == 1) ==> mpeg_bitrate_of(idex, id, index) is None,
{
}

/// A higher bitrate index is a higher bitrate, in each version.
pub proof fn law_bitrate_increases(i: u32, j: u32)
    requires
        1 <= i < j <= 14,
    ensures
        mpeg1_kbps(i) < mpeg1_kbps(j),
        mpeg2_kbps(i) < mpeg2_kbps(j),
{
}

/// MPEG-2 samples at half the MPEG-1 frequency of the same index, MPEG-2.5
/// at a quarter; the MPEG-1 frequencies are 44.1, 48 and 32 kHz.
pub proof fn law_sampling_frequencies(index: u32)
    requires
        index < 3,
    ensures
        sampling_frequency_of(1, 1, index) == Some(seq![44100u32, 48000, 32000][index as int]),
        sampling_frequency_of(1, 0, index).unwrap() * 2 == sampling_frequency_of(1, 1, index).unwrap(),
        sampling_frequency_of(0, 0, index).unwrap() * 4 == sampling_frequency_of(1, 1, index).unwrap(),
        sampling_frequency_of(0, 1, index) is None,
{
}

/// In joint stereo, bit 0 of the mode extension turns intensity stereo on and
/// bit 1 turns M/S stereo on.
pub proof fn law_mode_extension(ext: u32)
    requires
        ext < 4,
    ensures
        mpeg_mode_of(1, ext) == Some(
            MPEGMode::JointStereo { intensity_stereo: ext % 2 == 1, ms_stereo: ext / 2 == 1 },
        ),
{
}

} // verus!
