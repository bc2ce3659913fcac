//! Side information of MPEG-1 Layer III frames.
use crate::bite::{bit_count_after_read, Biter, BiterError};
use crate::mpeg::header::{bit_field, MPEGHeader, MPEGMode};
use crate::mpeg::side_info::{reservoir_tracks, SideInfoOutcome};
use vstd::prelude::*;

verus! {

/// MPEG Layer III block/window type for one granule/channel.
#[derive(Debug, Clone, Copy, PartialEq, Eq, Structural)]
pub enum BlockType {
    /// Normal long block. Used when `window_switching_flag == false`.
    Long,
    /// Start block: transition from long to short windows.
    Start,
    /// Short block: three short windows per granule.
    Short,
    /// End block: transition from short back to long windows.
    End,
}

impl Default for BlockType {
    fn default() -> (r: Self)
        ensures
            r == BlockType::Long,
    {
        BlockType::Long
    }
}

/// Scalefactor selection info for MPEG1 Layer III.
/// Used only for granule 1. If a band group is shared,
/// scalefactors are reused from granule 0 instead of being read again.
#[derive(Debug, Clone, Copy)]
pub struct SCFSI(u8);

impl Default for SCFSI {
    fn default() -> (r: Self)
        ensures
            r.value() == 0,
    {
        SCFSI(0)
    }
}

/// The group of long-block scalefactor bands that `sfb` belongs to: bands
/// 0-5, 6-10, 11-15 and 16-20 form groups 0 to 3; there is no group beyond.
pub open spec fn scfsi_group(sfb: int) -> Option<int> {
    if 0 <= sfb <= 5 {
        Some(0)
    } else if 6 <= sfb <= 10 {
        Some(1)
    } else if 11 <= sfb <= 15 {
        Some(2)
    } else if 16 <= sfb <= 20 {
        Some(3)
    } else {
        None
    }
}

/// The four scalefactor selection groups are the long bands 0 to 5, 6 to 10,
/// 11 to 15 and 16 to 20, flag `k` of `scfsi` selecting group `k`.
pub proof fn law_scfsi_groups(b: int, k: int)
    requires
        0 <= k < 4,
    ensures
        (scfsi_group(b) == Some(k)) == (seq![0int, 6, 11, 16, 21][k] <= b < seq![0int, 6, 11, 16, 21][k
            + 1]),
        (scfsi_group(b) is None) == (b < 0 || b > 20),
{
}

impl SCFSI {
    /// The four flags, group 0 in the lowest bit.
    pub closed spec fn value(self) -> u8 {
        self.0
    }

    /// Flags with the raw value `value`.
    pub fn new(value: u8) -> (r: Self)
        ensures
            r.value() == value,
    {
        Self(value)
    }

    /// Flags from the four group bits, group 0 first.
    pub fn new_from_bits(a: bool, b: bool, c: bool, d: bool) -> (r: Self)
        ensures
            r.value() == (if a {
                1u8
            } else {
                0u8
            }) + (if b {
                2u8
            } else {
                0u8
            }) + (if c {
                4u8
            } else {
                0u8
            }) + (if d {
                8u8
            } else {
                0u8
            }),
    {
        let a8: u8 = if a {
            1
        } else {
            0
        };
        let b8: u8 = if b {
            1
        } else {
            0
        };
        let c8: u8 = if c {
            1
        } else {
            0
        };
        let d8: u8 = if d {
            1
        } else {
            0
        };
        assert(a8 < 2 && b8 < 2 && c8 < 2 && d8 < 2 ==> (a8 | b8 << 1u8 | c8 << 2u8 | d8 << 3u8)
            == a8 + 2 * b8 + 4 * c8 + 8 * d8) by (bit_vector);
        Self::new(a8 | b8 << 1u8 | c8 << 2u8 | d8 << 3u8)
    }

    /// Whether the long-block scalefactor band `sfb` reuses granule 0's scalefactor.
    pub fn is_shared_long_band(&self, sfb: usize) -> (r: bool)
        ensures
            r == match scfsi_group(sfb as int) {
                Some(g) => scfsi_flag(self.value(), g),
                None => false,
            },
    {
        let v = self.0;
        assert((v & 0b0001 != 0) == (v % 2 == 1)) by (bit_vector);
        assert((v & 0b0010 != 0) == ((v / 2) % 2 == 1)) by (bit_vector);
        assert((v & 0b0100 != 0) == ((v / 4) % 2 == 1)) by (bit_vector);
        assert((v & 0b1000 != 0) == ((v / 8) % 2 == 1)) by (bit_vector);
        if sfb <= 5 {
            (v & 0b0001) != 0
        } else if sfb <= 10 {
            (v & 0b0010) != 0
        } else if sfb <= 15 {
            (v & 0b0100) != 0
        } else if sfb <= 20 {
            (v & 0b1000) != 0
        } else {
            false
        }
    }
}

/// Flag `g` (0 to 3, lowest bit first) of the raw value `v`.
pub open spec fn scfsi_flag(v: u8, g: int) -> bool {
    if g == 0 {
        v % 2 == 1
    } else if g == 1 {
        (v / 2) % 2 == 1
    } else if g == 2 {
        (v / 4) % 2 == 1
    } else {
        (v / 8) % 2 == 1
    }
}

/// Side information for one Layer III granule/channel.
/// This does not contain decoded samples. It only describes how to read
/// scalefactors and Huffman data from `main_data`.
#[derive(Debug, Clone, Copy)]
pub struct Granule {
    /// Number of bits occupied by scalefactors + Huffman data
    /// for this granule/channel in `main_data`.
    pub part2_3_length: u16,
    /// Number of Huffman value pairs in big_values region.
    /// Covers spectral samples `0 .. big_values * 2`.
    pub big_values: u16,
    /// Base quantizer gain used during requantization.
    pub global_gain: u8,
    /// Raw scalefactor compression field from side info.
    pub scalefac_compress: u16,
    /// Number of bits per scalefactor in the first scalefactor group.
    pub slen1: u8,
    /// Number of bits per scalefactor in the second scalefactor group.
    pub slen2: u8,
    /// Whether this granule uses switched window syntax.
    pub window_switching_flag: bool,
    /// Long/short/start/end window mode for this granule.
    pub block_type: BlockType,
    /// Mixed block: lower bands use long windows, upper bands use short windows.
    pub mixed_block_flag: bool,
    /// Huffman table indices for regions 0, 1, 2.
    pub table_select: [u8; 3],
    /// Gain correction for each short window.
    pub subblock_gain: [u8; 3],
    /// Number of scalefactor bands in region 0 minus one.
    pub region0_count: u8,
    /// Number of scalefactor bands in region 1 minus one.
    pub region1_count: u8,
    /// MPEG1-only high-frequency preemphasis flag.
    pub preflag: bool,
    /// Scalefactor step size selector.
    pub scalefac_scale: bool,
    /// Selects Huffman table A/B for count1 region.
    pub count1table_select: bool,
}

/// Whether `g` is the all-zero granule side information with long blocks.
pub open spec fn granule_is_default(g: Granule) -> bool {
    &&& g.part2_3_length == 0
    &&& g.big_values == 0
    &&& g.global_gain == 0
    &&& g.scalefac_compress == 0
    &&& g.slen1 == 0
    &&& g.slen2 == 0
    &&& !g.window_switching_flag
    &&& g.block_type == BlockType::Long
    &&& !g.mixed_block_flag
    &&& g.table_select@ == seq![0u8, 0u8, 0u8]
    &&& g.subblock_gain@ == seq![0u8, 0u8, 0u8]
    &&& g.region0_count == 0
    &&& g.region1_count == 0
    &&& !g.preflag
    &&& !g.scalefac_scale
    &&& !g.count1table_select
}

impl Default for Granule {
    fn default() -> (r: Self)
        ensures
            granule_is_default(r),
    {
        let r = Granule {
            part2_3_length: 0,
            big_values: 0,
            global_gain: 0,
            scalefac_compress: 0,
            slen1: 0,
            slen2: 0,
            window_switching_flag: false,
            block_type: BlockType::Long,
            mixed_block_flag: false,
            table_select: [0; 3],
            subblock_gain: [0; 3],
            region0_count: 0,
            region1_count: 0,
            preflag: false,
            scalefac_scale: false,
            count1table_select: false,
        };
        assert(r.table_select@ =~= seq![0u8, 0u8, 0u8]);
        assert(r.subblock_gain@ =~= seq![0u8, 0u8, 0u8]);
        r
    }
}

/// MPEG Layer III side information for one frame.
/// For MPEG1 Layer III: 32 bytes in stereo, 17 bytes in mono.
#[derive(Debug, Clone, Copy)]
pub struct MPEGSideInfo {
    /// Backpointer into bit reservoir, in bytes.
    pub main_data_begin: u16,
    /// Encoder-private side info bits.
    pub private_bits: u8,
    /// Number of channels: 1 for SingleChannel, 2 otherwise.
    pub nch: usize,
    /// Number of granules: 2.
    pub ngr: usize,
    /// Scalefactor reuse flags, one per channel.
    pub scfsi: [SCFSI; 2],
    /// Granule side info indexed as `[granule][channel]`.
    pub granules: [[Granule; 2]; 2],
}

/// Why the side information could not be read.
#[derive(Debug, Clone, Copy, PartialEq, Eq)]
pub enum MpegParseSideInfoError {
    /// The bit reader failed.
    IOError(BiterError),
    /// Window switching is on but the block type is 0 (forbidden).
    InvalidBlockType(u32),
}

/// Scalefactor bit lengths `(slen1, slen2)` for `scalefac_compress`.
pub open spec fn slen_of(sc: u32) -> (u8, u8) {
    match sc {
        0 => (0, 0),
        1 => (0, 1),
        2 => (0, 2),
        3 => (0, 3),
        4 => (3, 0),
        5 => (1, 1),
        6 => (1, 2),
        7 => (1, 3),
        8 => (2, 1),
        9 => (2, 2),
        10 => (2, 3),
        11 => (3, 1),
        12 => (3, 2),
        13 => (3, 3),
        14 => (4, 2),
        _ => (4, 3),
    }
}

/// The scalefactor widths that `scalefac_compress` selects: for values 0 to
/// 15, `slen1` is 0, 0, 0, 0, 3, 1, 1, 1, 2, 2, 2, 3, 3, 3, 4, 4 and `slen2`
/// is 0, 1, 2, 3, 0, 1, 2, 3, 1, 2, 3, 1, 2, 3, 2, 3.
pub proof fn law_slen_table(sc: u32)
    requires
        sc < 16,
    ensures
        slen_of(sc).0 == seq![0u8, 0, 0, 0, 3, 1, 1, 1, 2, 2, 2, 3, 3, 3, 4, 4][sc as int],
        slen_of(sc).1 == seq![0u8, 1, 2, 3, 0, 1, 2, 3, 1, 2, 3, 1, 2, 3, 2, 3][sc as int],
{
}

fn scalefac_compress_to_slen(sc: u32) -> (r: (u8, u8))
    requires
        sc < 16,
    ensures
        r == slen_of(sc),
{
    match sc {
        0 => (0, 0),
        1 => (0, 1),
        2 => (0, 2),
        3 => (0, 3),
        4 => (3, 0),
        5 => (1, 1),
        6 => (1, 2),
        7 => (1, 3),
        8 => (2, 1),
        9 => (2, 2),
        10 => (2, 3),
        11 => (3, 1),
        12 => (3, 2),
        13 => (3, 3),
        14 => (4, 2),
        _ => (4, 3),
    }
}

/// Reads the field of `bits` bits at offset `off` of the bits `r0` that the
/// reader held at the start of the side information.
fn read_l3<const BUF_SIZE: usize>(
    biter: &mut Biter<BUF_SIZE>,
    bits: usize,
    Ghost(r0): Ghost<Seq<bool>>,
    Ghost(off): Ghost<int>,
    Ghost(l0): Ghost<nat>,
) -> (r: Result<u32, MpegParseSideInfoError>)
    requires
        old(biter).wf(),
        0 < bits <= 32,
        0 <= off <= r0.len(),
        old(biter).remaining() == r0.skip(off),
        reservoir_tracks(old(biter).bit_count(), off, l0),
    ensures
        final(biter).wf(),
        final(biter).reader().data() == old(biter).reader().data(),
        r is Ok <==> off + bits <= r0.len(),
        r matches Ok(v) ==> v == bit_field(r0, off, bits as int) && v < pow2_u32(bits as nat)
            && final(biter).remaining() == r0.skip(off + bits) && reservoir_tracks(
            final(biter).bit_count(),
            off + bits,
            l0,
        ),
        r is Err ==> r == Err::<u32, MpegParseSideInfoError>(
            MpegParseSideInfoError::IOError(BiterError::EOF),
        ),
{
    let ghost b = old(biter).bit_count();
    match biter.read_bits_u32(bits) {
        Ok(v) => {
            assert(r0.skip(off).take(bits as int) =~= r0.subrange(off, off + bits));
            assert(r0.skip(off).skip(bits as int) =~= r0.skip(off + bits));
            proof {
                let nb = bit_count_after_read(b, bits as nat);
                if b < bits {
                    assert((nb + off + bits) % 8 == (b + off) % 8) by (nonlinear_arith)
                        requires
                            nb == (b - bits) % 8,
                    ;
                }
                crate::bits::lemma_bits_value_bound(r0.subrange(off, off + bits));
            }
            Ok(v)
        },
        Err(e) => Err(MpegParseSideInfoError::IOError(e)),
    }
}

/// Two to the power `n`.
pub open spec fn pow2_u32(n: nat) -> nat {
    vstd::arithmetic::power2::pow2(n)
}


/// The block type coded by two bits (1, 2 or 3).
pub open spec fn block_type_of(bt: u32) -> BlockType {
    if bt == 1 {
        BlockType::Start
    } else if bt == 2 {
        BlockType::Short
    } else {
        BlockType::End
    }
}

/// Whether the granule block at bit `base` of `r` switches windows with the forbidden block type 0.
pub open spec fn granule_bad(r: Seq<bool>, base: int) -> bool {
    bit_field(r, base + 33, 1) == 1 && bit_field(r, base + 34, 2) == 0
}

/// `g` is the granule side information read from the 59 bits at `base` of `r`.
pub open spec fn granule_matches(g: Granule, r: Seq<bool>, base: int) -> bool {
    let wsf = bit_field(r, base + 33, 1);
    let sl = slen_of(bit_field(r, base + 29, 4));
    &&& g.part2_3_length == bit_field(r, base, 12) as u16
    &&& g.big_values == bit_field(r, base + 12, 9) as u16
    &&& g.global_gain == bit_field(r, base + 21, 8) as u8
    &&& g.scalefac_compress == bit_field(r, base + 29, 4) as u16
    &&& g.slen1 == sl.0
    &&& g.slen2 == sl.1
    &&& g.window_switching_flag == (wsf == 1)
    &&& if wsf == 1 {
        let bt = bit_field(r, base + 34, 2);
        let mixed = bit_field(r, base + 36, 1) != 0;
        &&& g.block_type == block_type_of(bt)
        &&& g.mixed_block_flag == mixed
        &&& g.table_select@ == seq![
            bit_field(r, base + 37, 5) as u8,
            bit_field(r, base + 42, 5) as u8,
            0u8,
        ]
        &&& g.subblock_gain@ == seq![
            bit_field(r, base + 47, 3) as u8,
            bit_field(r, base + 50, 3) as u8,
            bit_field(r, base + 53, 3) as u8,
        ]
        &&& if bt == 2 {
            g.region0_count == (if mixed {
                7u8
            } else {
                8u8
            }) && g.region1_count == 20 - g.region0_count
        } else {
            g.region0_count == 7 && g.region1_count == 13
        }
    } else {
        &&& g.block_type == BlockType::Long
        &&& !g.mixed_block_flag
        &&& g.table_select@ == seq![
            bit_field(r, base + 34, 5) as u8,
            bit_field(r, base + 39, 5) as u8,
            bit_field(r, base + 44, 5) as u8,
        ]
        &&& g.subblock_gain@ == seq![0u8, 0u8, 0u8]
        &&& g.region0_count == bit_field(r, base + 49, 4) as u8
        &&& g.region1_count == bit_field(r, base + 53, 3) as u8
    }
    &&& g.preflag == (bit_field(r, base + 56, 1) != 0)
    &&& g.scalefac_scale == (bit_field(r, base + 57, 1) != 0)
    &&& g.count1table_select == (bit_field(r, base + 58, 1) != 0)
}

/// The scalefactor selection flags read from the four bits at `off` of `r`, first bit lowest.
pub open spec fn scfsi_bits(r: Seq<bool>, off: int) -> u8 {
    ((if bit_field(r, off, 1) != 0 {
        1u8
    } else {
        0u8
    }) + (if bit_field(r, off + 1, 1) != 0 {
        2u8
    } else {
        0u8
    }) + (if bit_field(r, off + 2, 1) != 0 {
        4u8
    } else {
        0u8
    }) + (if bit_field(r, off + 3, 1) != 0 {
        8u8
    } else {
        0u8
    })) as u8
}

/// Reads the four scalefactor selection flags of one channel.
fn parse_scfsi<const BUF_SIZE: usize>(
    biter: &mut Biter<BUF_SIZE>,
    Ghost(r0): Ghost<Seq<bool>>,
    Ghost(off): Ghost<int>,
    Ghost(l0): Ghost<nat>,
) -> (r: Result<SCFSI, MpegParseSideInfoError>)
    requires
        old(biter).wf(),
        0 <= off <= r0.len(),
        old(biter).remaining() == r0.skip(off),
        reservoir_tracks(old(biter).bit_count(), off, l0),
    ensures
        final(biter).wf(),
        final(biter).reader().data() == old(biter).reader().data(),
        r is Ok <==> off + 4 <= r0.len(),
        r is Err ==> r == Err::<SCFSI, MpegParseSideInfoError>(
            MpegParseSideInfoError::IOError(BiterError::EOF),
        ),
        r matches Ok(s) ==> s.value() == scfsi_bits(r0, off) && final(biter).remaining() == r0.skip(
            off + 4,
        ) && reservoir_tracks(final(biter).bit_count(), off + 4, l0),
{
    let a = read_l3(biter, 1, Ghost(r0), Ghost(off), Ghost(l0))? != 0;
    let b = read_l3(biter, 1, Ghost(r0), Ghost(off + 1), Ghost(l0))? != 0;
    let c = read_l3(biter, 1, Ghost(r0), Ghost(off + 2), Ghost(l0))? != 0;
    let d = read_l3(biter, 1, Ghost(r0), Ghost(off + 3), Ghost(l0))? != 0;
    Ok(SCFSI::new_from_bits(a, b, c, d))
}

/// Reads the 59-bit side information of one granule and channel at bit `base` of `r0`.
#[verifier::rlimit(60)]
fn parse_granule<const BUF_SIZE: usize>(
    biter: &mut Biter<BUF_SIZE>,
    Ghost(r0): Ghost<Seq<bool>>,
    Ghost(base): Ghost<int>,
    Ghost(l0): Ghost<nat>,
) -> (r: Result<Granule, MpegParseSideInfoError>)
    requires
        old(biter).wf(),
        0 <= base <= r0.len(),
        old(biter).remaining() == r0.skip(base),
        reservoir_tracks(old(biter).bit_count(), base, l0),
    ensures
        final(biter).wf(),
        final(biter).reader().data() == old(biter).reader().data(),
        r0.len() < base + 36 ==> r == Err::<Granule, MpegParseSideInfoError>(
            MpegParseSideInfoError::IOError(BiterError::EOF),
        ),
        r0.len() >= base + 36 && granule_bad(r0, base) ==> r == Err::<
            Granule,
            MpegParseSideInfoError,
        >(MpegParseSideInfoError::InvalidBlockType(0)),
        r0.len() >= base + 36 && !granule_bad(r0, base) && r0.len() < base + 59 ==> r == Err::<
            Granule,
            MpegParseSideInfoError,
        >(MpegParseSideInfoError::IOError(BiterError::EOF)),
        r0.len() >= base + 59 && !granule_bad(r0, base) ==> (r matches Ok(g) && granule_matches(
            g,
            r0,
            base,
        ) && final(biter).remaining() == r0.skip(base + 59) && reservoir_tracks(
            final(biter).bit_count(),
            base + 59,
            l0,
        )),
{
    let mut granule = Granule::default();
    proof {
        vstd::arithmetic::power2::lemma2_to64();
    }
    granule.part2_3_length = read_l3(biter, 12, Ghost(r0), Ghost(base), Ghost(l0))? as u16;
    granule.big_values = read_l3(biter, 9, Ghost(r0), Ghost(base + 12), Ghost(l0))? as u16;
    granule.global_gain = read_l3(biter, 8, Ghost(r0), Ghost(base + 21), Ghost(l0))? as u8;
    let scalefac_compress = read_l3(biter, 4, Ghost(r0), Ghost(base + 29), Ghost(l0))?;
    let slen = scalefac_compress_to_slen(scalefac_compress);
    granule.scalefac_compress = scalefac_compress as u16;
    granule.slen1 = slen.0;
    granule.slen2 = slen.1;
    let wsf = read_l3(biter, 1, Ghost(r0), Ghost(base + 33), Ghost(l0))?;
    granule.window_switching_flag = wsf == 1;
    if wsf == 1 {
        let bt = read_l3(biter, 2, Ghost(r0), Ghost(base + 34), Ghost(l0))?;
        granule.block_type = if bt == 0b01 {
            BlockType::Start
        } else if bt == 0b10 {
            BlockType::Short
        } else if bt == 0b11 {
            BlockType::End
        } else {
            return Err(MpegParseSideInfoError::InvalidBlockType(bt));
        };
        granule.mixed_block_flag = read_l3(biter, 1, Ghost(r0), Ghost(base + 36), Ghost(l0))? != 0;
        granule.table_select[0] = read_l3(biter, 5, Ghost(r0), Ghost(base + 37), Ghost(l0))? as u8;
        granule.table_select[1] = read_l3(biter, 5, Ghost(r0), Ghost(base + 42), Ghost(l0))? as u8;
        granule.table_select[2] = 0;
        let mut window: usize = 0;
        while window < 3
            invariant
                biter.wf(),
                biter.reader().data() == old(biter).reader().data(),
                0 <= base,
                window <= 3,
                base + 47 + 3 * window <= r0.len(),
                biter.remaining() == r0.skip(base + 47 + 3 * window),
                reservoir_tracks(biter.bit_count(), base + 47 + 3 * window, l0),
                r0.len() >= base + 36,
                !granule_bad(r0, base),
                forall|w: int|
                    0 <= w < window ==> #[trigger] granule.subblock_gain@[w] == bit_field(
                        r0,
                        base + 47 + 3 * w,
                        3,
                    ) as u8,
                granule.part2_3_length == bit_field(r0, base, 12) as u16,
                granule.big_values == bit_field(r0, base + 12, 9) as u16,
                granule.global_gain == bit_field(r0, base + 21, 8) as u8,
                granule.scalefac_compress == bit_field(r0, base + 29, 4) as u16,
                granule.slen1 == slen_of(bit_field(r0, base + 29, 4)).0,
                granule.slen2 == slen_of(bit_field(r0, base + 29, 4)).1,
                granule.window_switching_flag,
                granule.block_type == block_type_of(bit_field(r0, base + 34, 2)),
                granule.mixed_block_flag == (bit_field(r0, base + 36, 1) != 0),
                granule.table_select@ == seq![
                    bit_field(r0, base + 37, 5) as u8,
                    bit_field(r0, base + 42, 5) as u8,
                    0u8,
                ],
            decreases 3 - window,
        {
            let sbg = read_l3(biter, 3, Ghost(r0), Ghost(base + 47 + 3 * window), Ghost(l0))?;
            granule.subblock_gain[window] = sbg as u8;
            window = window + 1;
        }
        assert(granule.subblock_gain@ =~= seq![
            bit_field(r0, base + 47, 3) as u8,
            bit_field(r0, base + 50, 3) as u8,
            bit_field(r0, base + 53, 3) as u8,
        ]);
        if matches!(granule.block_type, BlockType::Short) {
            let r0c: u8 = if granule.mixed_block_flag {
                7
            } else {
                8
            };
            granule.region0_count = r0c;
            granule.region1_count = 20 - r0c;
        } else {
            granule.region0_count = 7;
            granule.region1_count = 13;
        }
    } else {
        granule.block_type = BlockType::Long;
        granule.table_select[0] = read_l3(biter, 5, Ghost(r0), Ghost(base + 34), Ghost(l0))? as u8;
        granule.table_select[1] = read_l3(biter, 5, Ghost(r0), Ghost(base + 39), Ghost(l0))? as u8;
        granule.table_select[2] = read_l3(biter, 5, Ghost(r0), Ghost(base + 44), Ghost(l0))? as u8;
        assert(granule.table_select@ =~= seq![
            bit_field(r0, base + 34, 5) as u8,
            bit_field(r0, base + 39, 5) as u8,
            bit_field(r0, base + 44, 5) as u8,
        ]);
        granule.region0_count = read_l3(biter, 4, Ghost(r0), Ghost(base + 49), Ghost(l0))? as u8;
        granule.region1_count = read_l3(biter, 3, Ghost(r0), Ghost(base + 53), Ghost(l0))? as u8;
    }
    granule.preflag = read_l3(biter, 1, Ghost(r0), Ghost(base + 56), Ghost(l0))? != 0;
    granule.scalefac_scale = read_l3(biter, 1, Ghost(r0), Ghost(base + 57), Ghost(l0))? != 0;
    granule.count1table_select = read_l3(biter, 1, Ghost(r0), Ghost(base + 58), Ghost(l0))? != 0;
    Ok(granule)
}


/// Number of channels: 1 in single channel mode, 2 otherwise.
pub open spec fn l3_nch(h: MPEGHeader) -> int {
    if h.mode is SingleChannel {
        1
    } else {
        2
    }
}

/// Width of the private bits.
pub open spec fn l3_private_len(nch: int) -> int {
    if nch == 1 {
        5
    } else {
        3
    }
}

/// Bits before the first granule block.
pub open spec fn l3_head_len(nch: int) -> int {
    9 + l3_private_len(nch) + 4 * nch
}

/// Start of granule block `k` (granule-major order); each block is 59 bits.
pub open spec fn l3_block_base(nch: int, k: int) -> int {
    l3_head_len(nch) + 59 * k
}

/// Width of the whole side information.
pub open spec fn l3_side_info_len(nch: int) -> int {
    l3_block_base(nch, 2 * nch)
}

/// How reading granule blocks `k` onwards ends.
#[verifier::opaque]
pub open spec fn l3_outcome(r: Seq<bool>, nch: int, k: int) -> SideInfoOutcome
    decreases 2 * nch - k,
{
    if k >= 2 * nch {
        if r.len() >= l3_block_base(nch, 2 * nch) {
            SideInfoOutcome::Decoded
        } else {
            SideInfoOutcome::Truncated
        }
    } else if r.len() < l3_block_base(nch, k) + 36 {
        SideInfoOutcome::Truncated
    } else if granule_bad(r, l3_block_base(nch, k)) {
        SideInfoOutcome::BadBlockType
    } else {
        l3_outcome(r, nch, k + 1)
    }
}

/// Side information that is decoded fits in the bits it was read from.
pub proof fn lemma_l3_decoded_len(r: Seq<bool>, nch: int, k: int)
    requires
        l3_outcome(r, nch, k) == SideInfoOutcome::Decoded,
    ensures
        r.len() >= l3_side_info_len(nch),
    decreases 2 * nch - k,
{
    lemma_l3_outcome_step(r, nch, k);
    if k < 2 * nch {
        lemma_l3_decoded_len(r, nch, k + 1);
    }
}

proof fn lemma_l3_outcome_step(r: Seq<bool>, nch: int, k: int)
    ensures
        l3_outcome(r, nch, k) == if k >= 2 * nch {
            if r.len() >= l3_block_base(nch, 2 * nch) {
                SideInfoOutcome::Decoded
            } else {
                SideInfoOutcome::Truncated
            }
        } else if r.len() < l3_block_base(nch, k) + 36 {
            SideInfoOutcome::Truncated
        } else if granule_bad(r, l3_block_base(nch, k)) {
            SideInfoOutcome::BadBlockType
        } else {
            l3_outcome(r, nch, k + 1)
        },
{
    reveal(l3_outcome);
}

/// What granule `gr`, channel `ch` holds once the first `k` blocks were read.
pub open spec fn l3_partial(g: Granule, r: Seq<bool>, nch: int, k: int, gr: int, ch: int) -> bool {
    if ch < nch && gr * nch + ch < k {
        granule_matches(g, r, l3_block_base(nch, gr * nch + ch))
    } else {
        granule_is_default(g)
    }
}

/// `si` is the side information decoded from the start of `r` for `nch` channels.
pub open spec fn l3_side_info_matches(si: MPEGSideInfo, r: Seq<bool>, nch: int) -> bool {
    let p = l3_private_len(nch);
    &&& si.main_data_begin == bit_field(r, 0, 9) as u16
    &&& si.private_bits == bit_field(r, 9, p) as u8
    &&& si.nch == nch
    &&& si.ngr == 2
    &&& si.scfsi[0].value() == scfsi_bits(r, 9 + p)
    &&& si.scfsi[1].value() == if nch == 2 {
        scfsi_bits(r, 9 + p + 4)
    } else {
        0
    }
    &&& forall|gr: int, ch: int|
        0 <= gr < 2 && 0 <= ch < 2 ==> #[trigger] l3_partial(
            si.granules[gr][ch],
            r,
            nch,
            2 * nch,
            gr,
            ch,
        )
}

/// Reads the side information of an MPEG-1 Layer III frame: `main_data_begin`,
/// the private bits, the scalefactor selection of each channel and the side
/// information of each granule and channel.
pub fn parse_side_info<const BUF_SIZE: usize>(header: &MPEGHeader, biter: &mut Biter<BUF_SIZE>) -> (r:
    Result<MPEGSideInfo, MpegParseSideInfoError>)
    requires
        old(biter).wf(),
    ensures
        final(biter).wf(),
        final(biter).reader().data() == old(biter).reader().data(),
        ({
            let rem = old(biter).remaining();
            let nch = l3_nch(*header);
            let out = l3_outcome(rem, nch, 0);
            &&& r is Ok <==> out == SideInfoOutcome::Decoded
            &&& out == SideInfoOutcome::Truncated ==> r == Err::<
                MPEGSideInfo,
                MpegParseSideInfoError,
            >(MpegParseSideInfoError::IOError(BiterError::EOF))
            &&& out == SideInfoOutcome::BadBlockType ==> r == Err::<
                MPEGSideInfo,
                MpegParseSideInfoError,
            >(MpegParseSideInfoError::InvalidBlockType(0))
            &&& r matches Ok(si) ==> l3_side_info_len(nch) <= rem.len() && l3_side_info_matches(si, rem, nch) && final(biter).remaining()
                == rem.skip(l3_side_info_len(nch)) && (old(biter).is_byte_aligned() ==> final(
                biter).bit_count() == 0)
        }),
{
    let ghost rem = old(biter).remaining();
    let ghost l0 = old(biter).bit_count();
    let ghost gnch = l3_nch(*header);
    proof {
        old(biter).lemma_bit_count_bound();
        assert(rem.skip(0) =~= rem);
        lemma_l3_outcome_step(rem, gnch, 0);
        assert(l3_head_len(gnch) <= l3_block_base(gnch, 0) + 36);
    }
    let nch: usize = match header.mode {
        MPEGMode::SingleChannel => 1,
        _ => 2,
    };
    let main_data_begin = read_l3(biter, 9, Ghost(rem), Ghost(0), Ghost(l0))? as u16;
    let private_bits: u8 = if nch == 1 {
        read_l3(biter, 5, Ghost(rem), Ghost(9), Ghost(l0))? as u8
    } else {
        read_l3(biter, 3, Ghost(rem), Ghost(9), Ghost(l0))? as u8
    };
    let ghost p = l3_private_len(gnch);
    let scfsi0 = parse_scfsi(biter, Ghost(rem), Ghost(9 + p), Ghost(l0))?;
    let scfsi1 = if nch == 2 {
        parse_scfsi(biter, Ghost(rem), Ghost(9 + p + 4), Ghost(l0))?
    } else {
        SCFSI::default()
    };
    let scfsi = [scfsi0, scfsi1];
    let mut granules = [
        [Granule::default(), Granule::default()],
        [Granule::default(), Granule::default()],
    ];
    let mut gr: usize = 0;
    let ghost mut k: int = 0;
    while gr < 2
        invariant
            biter.wf(),
            biter.reader().data() == old(biter).reader().data(),
            nch == gnch,
            gnch == l3_nch(*header),
            rem == old(biter).remaining(),
            gnch == 1 || gnch == 2,
            gr <= 2,
            k == gr * nch,
            l3_block_base(gnch, k) <= rem.len(),
            biter.remaining() == rem.skip(l3_block_base(gnch, k)),
            reservoir_tracks(biter.bit_count(), l3_block_base(gnch, k), l0),
            l3_outcome(rem, gnch, 0) == l3_outcome(rem, gnch, k),
            forall|g2: int, c2: int|
                0 <= g2 < 2 && 0 <= c2 < 2 ==> #[trigger] l3_partial(
                    granules[g2][c2],
                    rem,
                    gnch,
                    k,
                    g2,
                    c2,
                ),
        decreases 2 - gr,
    {
        let mut ch: usize = 0;
        while ch < nch
            invariant
                biter.wf(),
                biter.reader().data() == old(biter).reader().data(),
                nch == gnch,
                gnch == l3_nch(*header),
                rem == old(biter).remaining(),
                gnch == 1 || gnch == 2,
                gr < 2,
                ch <= nch,
                k == gr * nch + ch,
                l3_block_base(gnch, k) <= rem.len(),
                biter.remaining() == rem.skip(l3_block_base(gnch, k)),
                reservoir_tracks(biter.bit_count(), l3_block_base(gnch, k), l0),
                l3_outcome(rem, gnch, 0) == l3_outcome(rem, gnch, k),
                forall|g2: int, c2: int|
                    0 <= g2 < 2 && 0 <= c2 < 2 ==> #[trigger] l3_partial(
                        granules[g2][c2],
                        rem,
                        gnch,
                        k,
                        g2,
                        c2,
                    ),
            decreases nch - ch,
        {
            let ghost base = l3_block_base(gnch, k);
            proof {
                lemma_l3_outcome_step(rem, gnch, k);
                lemma_l3_outcome_step(rem, gnch, k + 1);
                assert(k < 2 * gnch);
            }
            let g = parse_granule(biter, Ghost(rem), Ghost(base), Ghost(l0))?;
            let ghost before = granules;
            granules[gr][ch] = g;
            proof {
                assert forall|g2: int, c2: int| 0 <= g2 < 2 && 0 <= c2 < 2 implies #[trigger] l3_partial(
                    granules[g2][c2],
                    rem,
                    gnch,
                    k + 1,
                    g2,
                    c2,
                ) by {
                    if g2 == gr && c2 == ch {
                    } else {
                        assert(granules[g2][c2] == before[g2][c2]);
                        assert(l3_partial(before[g2][c2], rem, gnch, k, g2, c2));
                        if c2 < gnch && g2 * gnch + c2 == k {
                            if gnch == 1 {
                                assert(g2 == gr);
                            } else {
                                assert(g2 == gr && c2 == ch);
                            }
                        }
                    }
                }
                k = k + 1;
            }
            ch = ch + 1;
        }
        gr = gr + 1;
    }
    proof {
        lemma_l3_outcome_step(rem, gnch, k);
        assert(l3_side_info_len(gnch) % 8 == 0);
    }
    Ok(
        MPEGSideInfo {
            main_data_begin,
            private_bits,
            nch,
            ngr: 2,
            scfsi,
            granules,
        },
    )
}

/// The side information decoded from the start of `r` for `nch` channels,
/// where the bits hold one: there is only one (see `lemma_side_info_unique`).
pub open spec fn side_info_of(r: Seq<bool>, nch: int) -> MPEGSideInfo {
    choose|si: MPEGSideInfo| l3_side_info_matches(si, r, nch)
}

proof fn lemma_granule_unique(a: Granule, b: Granule, r: Seq<bool>, base: int)
    requires
        granule_matches(a, r, base),
        granule_matches(b, r, base),
    ensures
        a == b,
{
    broadcast use vstd::array::group_array_axioms;
    assert(a.table_select =~= b.table_select);
    assert(a.subblock_gain =~= b.subblock_gain);
}

proof fn lemma_default_granule_unique(a: Granule, b: Granule)
    requires
        granule_is_default(a),
        granule_is_default(b),
    ensures
        a == b,
{
    broadcast use vstd::array::group_array_axioms;
    assert(a.table_select =~= b.table_select);
    assert(a.subblock_gain =~= b.subblock_gain);
}

/// The bits of a side information determine it.
pub proof fn lemma_side_info_unique(a: MPEGSideInfo, b: MPEGSideInfo, r: Seq<bool>, nch: int)
    requires
        l3_side_info_matches(a, r, nch),
        l3_side_info_matches(b, r, nch),
    ensures
        a == b,
{
    broadcast use vstd::array::group_array_axioms;
    assert(a.scfsi[0] == b.scfsi[0]);
    assert(a.scfsi[1] == b.scfsi[1]);
    assert(a.scfsi =~= b.scfsi);
    assert forall|gr: int, ch: int| 0 <= gr < 2 && 0 <= ch < 2 implies #[trigger] a.granules[gr][ch]
        == b.granules[gr][ch] by {
        assert(l3_partial(a.granules[gr][ch], r, nch, 2 * nch, gr, ch));
        assert(l3_partial(b.granules[gr][ch], r, nch, 2 * nch, gr, ch));
        if ch < nch && gr * nch + ch < 2 * nch {
            lemma_granule_unique(
                a.granules[gr][ch],
                b.granules[gr][ch],
                r,
                l3_block_base(nch, gr * nch + ch),
            );
        } else {
            lemma_default_granule_unique(a.granules[gr][ch], b.granules[gr][ch]);
        }
    }
    assert(a.granules[0] =~= b.granules[0]);
    assert(a.granules[1] =~= b.granules[1]);
    assert(a.granules =~= b.granules);
}

} // verus!
